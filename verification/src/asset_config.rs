//! Directory configuration: the three roots the engine works under.

use vstd::prelude::*;

verus! {

/// Asset paths configuration.
pub struct AssetConfig {
    /// Directory public assets are copied to.
    pub target_directory_path: String,
    /// Internal asset storage, persistent between runs, holding every
    /// materialized artifact.
    pub internal_directory_path: String,
    /// Directory asset sources are read from.
    pub source_directory_path: String,
}

} // verus!
