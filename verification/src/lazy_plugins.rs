//! Plugins that are loaded when one of their commands is first called.

pub mod activation;
pub mod activation_laws;
pub mod discovery;
pub mod discovery_laws;
pub mod forms;
pub mod loading;
pub mod loading_laws;
pub mod local_dependencies;
pub mod materialization;
pub mod reader;
pub mod registration;
pub mod registration_laws;
pub mod state;
