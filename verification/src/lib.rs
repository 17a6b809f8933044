//! Threshold key generation and signing for a network of MPC nodes.
//!
//! The arithmetic runs in the scalar field of BLS12-381 and in its prime-order
//! group G1; both are modelled as the integers modulo the group order.

pub mod field;
pub mod poly;
pub mod curve;
pub mod strmap;
pub mod adkg;
pub mod types;
pub mod dkg;
pub mod signing;
pub mod commands;
pub mod consensus;
pub mod frost;
pub mod network;
