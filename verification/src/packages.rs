//! The dependency graph: packages, their versions, the components that own
//! them, and the passes that run over the finished graph.

pub mod checks;
pub mod component;
pub mod components;
pub mod cycles;
pub mod de_serialization;
pub mod depend_types;
pub mod dependencies;
pub mod dependency;
pub mod dependency_type;
pub mod distribution;
pub mod package;
pub mod package_versions;
pub mod rev_depend_type;
