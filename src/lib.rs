//! A table of type substitutes for a code generator: which type paths of an input
//! schema are emitted as other, absolute paths, and how the generic arguments of the
//! emitted path are built from those of the original.

pub mod absolute;
pub mod laws;
pub mod path;
pub mod substitutes;
