//! The Sloth language's modules, comparisons and name environments.
pub mod equality_operation;
pub mod module;
pub mod environment;
pub mod export;
