//! Front-end data structures and passes of the Sloth compiler: source
//! locations, the abstract syntax of the language and of its core
//! intermediate form, name resolution environments, renaming of variables,
//! desugaring of function-typed arguments, and the planning of package
//! builds.
mod location;

pub use location::Location;
mod names;

pub use names::NameMap;
pub mod core_ast;
pub mod syntax;
pub mod lang;
pub mod items;
mod sequences;
pub mod ein;
pub mod path;
pub mod package_build;
pub mod compile;
