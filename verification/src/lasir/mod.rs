//! The logical representation: machines and the graph of their connections.

pub mod connections;
pub mod machines;
pub mod translator;
