//! The Ein language's modules, types and desugaring.
pub mod module;
pub mod types;
pub mod name_generator;
pub mod desugar;
