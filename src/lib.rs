//! Extended Pedersen commitments and Diffie-Hellman key exchange over the Ristretto group.

pub mod group;
pub mod keys;
pub mod commitment;
pub mod factory;
pub mod dhke;
pub mod algebra;
