//! Search and lookup logic for a local GPUI documentation index.

pub mod api_index;
pub mod curated;
pub mod error_decoder;
pub mod example_index;
pub mod index;
pub mod parse;
pub mod persist;
pub mod server;
pub mod paths;
pub mod sort;
pub mod sources;
pub mod sync;
pub mod syntax;
pub mod text;
