//! The five contexts in which one package is needed by another.

use vstd::prelude::*;
use vstd::string::*;

verus! {

/// Where a dependency was declared: by a package version itself, or by the
/// component that builds it.
#[derive(Clone, Copy, Debug, PartialEq, Eq, PartialOrd, Ord, Hash, Structural)]
pub enum DependencyTypes {
    Runtime,
    Build,
    Test,
    SystemBuild,
    SystemTest,
}

/// The name of a dependency context as it is printed.
pub open spec fn dependency_type_text(t: DependencyTypes) -> Seq<char> {
    match t {
        DependencyTypes::Runtime => "runtime"@,
        DependencyTypes::Build => "build"@,
        DependencyTypes::Test => "test"@,
        DependencyTypes::SystemBuild => "system-build"@,
        DependencyTypes::SystemTest => "system-test"@,
    }
}

impl DependencyTypes {
    pub fn to_string(&self) -> (r: String)
        ensures
            r@ == dependency_type_text(*self),
    {
        match self {
            DependencyTypes::Runtime => String::from_str("runtime"),
            DependencyTypes::Build => String::from_str("build"),
            DependencyTypes::Test => String::from_str("test"),
            DependencyTypes::SystemBuild => String::from_str("system-build"),
            DependencyTypes::SystemTest => String::from_str("system-test"),
        }
    }
}

} // verus!
