//! Arithmetic, text and address helpers shared by the representations.

pub mod global_config;
pub mod math;
pub mod replace;
pub mod roles;
pub mod run_parser;
pub mod strmap;
pub mod text;
pub mod types;
