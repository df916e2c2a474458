//! What the graph is loaded from: catalogs of published packages, and the
//! tree of components.

pub mod assets;
pub mod catalogs_c;
pub mod open_indiana_oi_userland_git;
