pub mod child;
pub mod config;
pub mod laws;
pub mod program;
pub mod status;
pub mod supervisor;

pub use config::default_processes;
