//! Migration engine for directory objects: snapshot model, export and
//! import pipelines, and command-line value checks.

pub mod args;
pub mod attrs;
pub mod export;
pub mod import;
pub mod object;
pub mod server;
pub mod text;
