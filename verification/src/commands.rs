//! The shapes in which the application's commands answer, and the
//! computations that fill them.

pub mod ai_agents;
pub mod awesome_sync;
pub mod config;
pub mod errors;
pub mod local_install;
pub mod scan_paths;
pub mod skill_discovery;
pub mod skill_files;
pub mod skill_management;
pub mod skill_sync;
