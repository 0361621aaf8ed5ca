//! The physical representation: subnets with prefixes and addresses.

pub mod connections;
pub mod machines;
pub mod translator;
