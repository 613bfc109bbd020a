//! Post-processing for a protobuf compiler plugin that generates Rust code.
//!
//! The code generator names each output file after a dotted package path (`a.b.c.rs`).
//! This library rebuilds the module hierarchy that those names encode and re-emits it as one
//! file per module (`a.rs`, `a/b.rs`, `a/b/c.rs`), each declaring its submodules.

pub mod config;
pub mod generate;
pub mod laws;
pub mod model;
pub mod response;
pub mod text;
pub mod tree;

pub use crate::config::{CodeGeneratorRequest, Config};
pub use crate::generate::{generate_response, modularize_response};
pub use crate::response::{CodeGeneratorResponse, File};
pub use crate::tree::{create_subtree, write_subtree, ModuleTree};
