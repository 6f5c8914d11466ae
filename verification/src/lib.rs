//! Circle STARK proving and verification with the composition polynomial in hand.

pub mod air;
pub mod channel;
pub mod channel_laws;
pub mod circle;
pub mod error;
pub mod field;
pub mod laws;
pub mod mask_laws;
pub mod oods;
pub mod opening_laws;
pub mod pcs;
pub mod poly;
pub mod polynomial_laws;
pub mod prove;
pub mod proving_laws;
pub mod sample_laws;
pub mod stark_proof;
pub mod verify;
pub mod verifying_laws;
