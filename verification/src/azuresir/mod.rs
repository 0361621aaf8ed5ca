//! The provider's representation: records with the provider's own names.

pub mod emitter;
pub mod system;
pub mod translator;
pub mod utils;
