//! The application messages: their dispatch, their services and the values
//! that the services carry.

pub mod application_pdu;
pub mod application_pdu_proofs;
pub mod primitives;
pub mod services;
