//! A codec for the wire format of BACnet, the network protocol of building
//! automation: it writes messages into caller-owned buffers and reads them
//! back, byte for byte, through three layers of envelopes.
//!
//! * [`common`] holds the ground everything stands on: the two cursors over
//!   a buffer, and the tag, which is the one primitive that every structure
//!   on the wire is built from.
//! * [`application_protocol`] holds the application messages: the dispatch
//!   by the kind of message and by service, and the services themselves, of
//!   which the read of several properties and the read of a range of a log
//!   are the two with a grammar worth the name.
//! * [`network_protocol`] holds the envelope of the network layer and the
//!   frame of the link over IP.
//!
//! Every format has two descriptions that are held against each other. One
//! is a pair of functions on sequences of bytes, `spec_encode` and
//! `spec_decode`, which say what the bytes of a value are and what value
//! bytes spell. The other is the code that writes and reads buffers, which
//! is shown to do exactly what the pair says, and never to leave the region
//! that its cursor covers. What the pair itself is worth is shown in the
//! modules whose names end in `_proofs`: that reading gives back what
//! writing wrote, that a written tag has no shorter spelling, and what
//! becomes of a message that is cut short.
//!
//! Nothing here aborts on input from the wire: whatever cannot be read or
//! written comes back as an [`common::error::Error`].

pub mod application_protocol;
pub mod common;
pub mod network_protocol;
