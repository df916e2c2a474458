//! Dependency-graph audit of an IPS package repository: packages with several
//! versions, the components that build them, reverse dependencies, dependency
//! cycles between components and a typed list of metadata problems.
//!
//! A graph is filled in a fixed order. Packages come first, from the
//! catalogs; then the components, with the packages they claim and what they
//! need to build and to test; then the history of withdrawn and renamed
//! packages. After that every package is collapsed to the release that
//! stands for it, the runtime dependencies are turned round, and the checks
//! and the search for cycles read the finished graph.
//!
//! Packages and components live in two tables; an edge is a handle, the
//! index of an entry in one of them. Identifiers hold plain text, and the
//! `fmri` crate parses, prints and orders them.

pub mod assets;
pub mod identifier;
pub mod packages;
pub mod problems;
pub mod queries;
pub mod text;

pub use packages::components::{Component, Components};
pub use packages::depend_types::DependTypes;
pub use problems::{report, Problems};
