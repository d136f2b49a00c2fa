//! The two outer layers: the envelope of the network layer and the frame of
//! the link over IP.

pub mod data_link;
pub mod data_link_proofs;
pub mod network_pdu;
pub mod network_pdu_proofs;
