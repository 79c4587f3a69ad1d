//! Server-side logic: validation, error codes, paths, authentication, prompts, resources, the core and transports.
pub mod error_codes;
pub mod validation;
pub mod path_validation;
pub mod auth;
pub mod simple_prompt;
pub mod simple_resources;
pub mod server_core;
pub mod simple_tool;
pub mod transport;
