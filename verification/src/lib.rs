//! Verified core of a Model Context Protocol SDK.
#![allow(unused_imports)]

pub mod text;
pub mod error;
pub mod server;
pub mod shared;
pub mod wasi;
