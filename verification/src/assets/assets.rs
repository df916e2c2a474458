//! The assets that can be loaded.

use vstd::prelude::*;

verus! {

/// All available assets.
#[derive(Debug, PartialEq, Eq)]
pub enum Assets {
    /// Catalog files, by path.
    Catalogs(Vec<String>),
    /// The tree of components, and which of its parts to load.
    OpenIndianaOiUserlandGit {
        load_component_list: bool,
        load_build_dependencies: bool,
        load_test_dependencies: bool,
        load_system_build_dependencies: bool,
        load_system_test_dependencies: bool,
    },
}

} // verus!
