//! Compiler support that does not depend on a code generator: error values,
//! physical types with their codes and layouts, the table of `error` types,
//! and module loading.

pub mod error_types;
pub mod declarations;
pub mod errors;
pub mod lowering;
pub mod modules;
pub mod names;
pub mod require_sites;
pub mod types;
