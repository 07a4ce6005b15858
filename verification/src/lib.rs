//! A registry of symbolic event names.
//!
//! From an ordered catalog of compound-word identifiers (the variants of an
//! event enumeration, in declaration order) the library derives, once, a
//! bidirectional mapping between each symbol, its zero-based integer id, its
//! canonical lowercase underscore-separated name, and a NUL-terminated string
//! form for use across a foreign-function boundary.

pub mod registry;
pub mod transform;

pub use registry::EventRegistry;
pub use registry::Symbol;
pub use transform::transform_name;
pub use transform::transform_spec;
