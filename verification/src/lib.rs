//! Deployment engine for a repository of user configuration files.
//!
//! The library resolves layered variables, selects the packages an operation
//! works on, detects and renders templates, filters ignored paths and plans
//! the filesystem steps of deploy, update and diff. Every step that touches
//! the disk or runs a command is returned as a value for the caller to carry
//! out.

pub mod cli;
pub mod codec;
pub mod config;
pub mod context;
pub mod engine;
pub mod error;
pub mod fields;
pub mod ignore;
pub mod model;
pub mod package;
pub mod profile;
pub mod resolve;
pub mod template;
pub mod text;
pub mod utils;
pub mod value;
