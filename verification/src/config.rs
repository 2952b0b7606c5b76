//! Configuration consumed at adapter construction.
//!
//! Every field is optional; the builder substitutes the documented
//! default for an absent one when it resolves the configuration.

use vstd::prelude::*;

verus! {

/// Configuration for the adapter.
#[derive(Debug, Clone)]
pub struct IndexeddbConfig {
    /// The name of the database to open; defaults to `opendal`.
    pub db_name: Option<String>,
    /// The name of the record space (object store) inside it; defaults
    /// to `main`.
    pub object_store_name: Option<String>,
    /// The root every path is resolved under; defaults to `/`.
    pub root: Option<String>,
}

impl Default for IndexeddbConfig {
    /// The configuration with every choice left to its default.
    fn default() -> (c: Self)
        ensures
            c.db_name is None,
            c.object_store_name is None,
            c.root is None,
    {
        IndexeddbConfig { db_name: None, object_store_name: None, root: None }
    }
}

} // verus!
