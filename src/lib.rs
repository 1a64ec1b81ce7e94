//! Resolution and emission engine for OpenAPI v2 code generation.
//!
//! Schema nodes live in an arena and refer to each other by index, so a
//! cyclic schema graph is a plain cyclic graph of indices. The engine decides,
//! for every named definition, whether a type must be declared, computes its
//! module location, and then attaches per-operation requirements to the
//! declared types.

pub mod assoc;
pub mod collector;
pub mod emitter;
pub mod error;
pub mod laws;
pub mod model;
pub mod naming;
pub mod object;
pub mod pipeline;
pub mod state;
pub mod types;
