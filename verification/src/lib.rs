//! Compiles a declarative description of virtual machines and their network
//! into a concrete cloud deployment plan: subnets, addresses, machine sizes,
//! provider records and the shell fragments that create them.

pub mod asir;
pub mod azuresir;
pub mod cloud_functions;
pub mod lasir;
pub mod orchestrator;
pub mod pasir;
pub mod pipelines;
pub mod post_deployment;
pub mod script_push;
pub mod shell_tools;
pub mod utils;
pub mod yamlsir;
