//! Threshold anonymous credentials with blind issuance (Coconut) over the
//! BLS12-381 pairing groups.

pub mod algebra;
pub mod lagrange;
pub mod signature;
