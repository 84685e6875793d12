//! Loading and checking of scripture corpora, dictionaries and cross-reference sets:
//! the address grammar, the structural validator of verse streams, the term matcher
//! and the cross-reference audit.

pub mod modules;
pub mod package;
pub mod ref_id;
pub mod text;

pub use package::{ModulePaths, Package, PackageConfig};
