//! Packages and their versions.

use vstd::prelude::*;
use vstd::string::*;
use crate::identifier::{Fmri, FmriView, Version, Order, version_compare, fmri_compare};
use crate::packages::depend_types::{DependTypes, DependTypesView};
use crate::packages::dependency_type::DependencyTypes;
use crate::packages::rev_depend_type::{RevDependType, RevDependTypeView};

verus! {

/// The declared dependencies of a list, as mathematical values.
pub open spec fn depend_views(s: Seq<DependTypes>) -> Seq<DependTypesView> {
    s.map_values(|d: DependTypes| d@)
}

/// The reverse dependencies of a list, as mathematical values.
pub open spec fn rev_depend_views(s: Seq<RevDependType>) -> Seq<RevDependTypeView> {
    s.map_values(|d: RevDependType| d@)
}

/// The versions of a list, as mathematical values.
pub open spec fn version_views(s: Seq<PackageVersion>) -> Seq<PackageVersionView> {
    s.map_values(|v: PackageVersion| v@)
}

/// A copy of a list of declared dependencies.
pub fn clone_depends(v: &Vec<DependTypes>) -> (r: Vec<DependTypes>)
    ensures
        depend_views(r@) == depend_views(v@),
{
    let mut r: Vec<DependTypes> = Vec::new();
    let mut i: usize = 0;
    while i < v.len()
        invariant
            i <= v.len(),
            r.len() == i,
            forall|j: int| 0 <= j < i ==> r@[j]@ == v@[j]@,
        decreases v.len() - i,
    {
        r.push(v[i].clone());
        i += 1;
    }
    assert(depend_views(r@) =~= depend_views(v@));
    r
}

/// A copy of a list of reverse dependencies.
pub fn clone_rev_depends(v: &Vec<RevDependType>) -> (r: Vec<RevDependType>)
    ensures
        rev_depend_views(r@) == rev_depend_views(v@),
{
    let mut r: Vec<RevDependType> = Vec::new();
    let mut i: usize = 0;
    while i < v.len()
        invariant
            i <= v.len(),
            r.len() == i,
            forall|j: int| 0 <= j < i ==> r@[j]@ == v@[j]@,
        decreases v.len() - i,
    {
        r.push(v[i].clone());
        i += 1;
    }
    assert(rev_depend_views(r@) =~= rev_depend_views(v@));
    r
}

/// A copy of a list of handles.
pub fn clone_handles(v: &Vec<usize>) -> (r: Vec<usize>)
    ensures
        r@ == v@,
{
    let mut r: Vec<usize> = Vec::new();
    let mut i: usize = 0;
    while i < v.len()
        invariant
            i <= v.len(),
            r.len() == i,
            forall|j: int| 0 <= j < i ==> r@[j] == v@[j],
        decreases v.len() - i,
    {
        r.push(v[i]);
        i += 1;
    }
    assert(r@ =~= v@);
    r
}

/// One release of a package: its version, the dependencies it declares, and
/// whether it was withdrawn (obsolete) or superseded by another name
/// (renamed).
#[derive(Debug, PartialEq, Eq)]
pub struct PackageVersion {
    pub version: Version,
    pub runtime: Vec<DependTypes>,
    pub obsolete: bool,
    pub renamed: bool,
}

/// The mathematical content of a package version.
pub struct PackageVersionView {
    pub version: Seq<char>,
    pub runtime: Seq<DependTypesView>,
    pub obsolete: bool,
    pub renamed: bool,
}

impl View for PackageVersion {
    type V = PackageVersionView;

    open spec fn view(&self) -> PackageVersionView {
        PackageVersionView {
            version: self.version@,
            runtime: depend_views(self.runtime@),
            obsolete: self.obsolete,
            renamed: self.renamed,
        }
    }
}

impl Clone for PackageVersion {
    fn clone(&self) -> (r: Self)
        ensures
            r@ == self@,
    {
        PackageVersion {
            version: self.version.clone(),
            runtime: clone_depends(&self.runtime),
            obsolete: self.obsolete,
            renamed: self.renamed,
        }
    }
}

/// A version is stale when it is obsolete or renamed.
pub open spec fn stale(v: PackageVersionView) -> bool {
    v.obsolete || v.renamed
}

impl PackageVersion {
    /// A version without dependencies, neither obsolete nor renamed.
    pub fn new(version: Version) -> (r: Self)
        ensures
            r@ == (PackageVersionView {
                version: version@,
                runtime: Seq::empty(),
                obsolete: false,
                renamed: false,
            }),
    {
        let r = PackageVersion { version, runtime: Vec::new(), obsolete: false, renamed: false };
        assert(depend_views(r.runtime@) =~= Seq::<DependTypesView>::empty());
        r
    }

    /// Moves the given dependencies to the end of this version's list.
    pub fn add_runtime_dependencies(&mut self, runtime: &mut Vec<DependTypes>)
        ensures
            final(self)@ == (PackageVersionView {
                runtime: old(self)@.runtime + depend_views(old(runtime)@),
                ..old(self)@
            }),
            final(runtime)@.len() == 0,
    {
        self.runtime.append(runtime);
        assert(depend_views(self.runtime@) =~= depend_views(old(self).runtime@) + depend_views(old(runtime)@));
    }

    pub fn get_runtime_dependencies(&self) -> (r: &Vec<DependTypes>)
        ensures
            depend_views(r@) == self@.runtime,
    {
        &self.runtime
    }

    pub fn get_version(&self) -> (r: &Version)
        ensures
            r@ == self@.version,
    {
        &self.version
    }

    pub fn set_obsolete(&mut self, obsolete: bool)
        ensures
            final(self)@ == (PackageVersionView { obsolete, ..old(self)@ }),
    {
        self.obsolete = obsolete;
    }

    pub fn set_renamed(&mut self, renamed: bool)
        ensures
            final(self)@ == (PackageVersionView { renamed, ..old(self)@ }),
    {
        self.renamed = renamed;
    }

    pub fn is_obsolete(&self) -> (r: bool)
        ensures
            r == self@.obsolete,
    {
        self.obsolete
    }

    pub fn is_renamed(&self) -> (r: bool)
        ensures
            r == self@.renamed,
    {
        self.renamed
    }

    /// Whether both are the same release: version, dependencies and flags.
    pub fn same(&self, other: &PackageVersion) -> (r: bool)
        ensures
            r == (self@ == other@),
    {
        if !self.version.same(&other.version) || self.obsolete != other.obsolete || self.renamed
            != other.renamed {
            return false;
        }
        if self.runtime.len() != other.runtime.len() {
            assert(self@.runtime.len() != other@.runtime.len());
            return false;
        }
        let mut i: usize = 0;
        while i < self.runtime.len()
            invariant
                i <= self.runtime.len(),
                self.runtime.len() == other.runtime.len(),
                forall|j: int| 0 <= j < i ==> self.runtime@[j]@ == other.runtime@[j]@,
            decreases self.runtime.len() - i,
        {
            if !self.runtime[i].same(&other.runtime[i]) {
                assert(self@.runtime[i as int] == self.runtime@[i as int]@);
                assert(other@.runtime[i as int] == other.runtime@[i as int]@);
                return false;
            }
            i += 1;
        }
        assert(self@.runtime =~= other@.runtime);
        true
    }
}

/// A package: its identifier without a version, its releases, the component
/// that owns it, and who depends on it. Components are named by their handle
/// in the graph that holds the package.
#[derive(Debug, PartialEq, Eq)]
pub struct Package {
    /// The identifier; it holds no version.
    pub fmri: Fmri,
    pub versions: Vec<PackageVersion>,
    /// The owning component, if any.
    pub component: Option<usize>,
    pub obsolete: bool,
    pub renamed: bool,
    /// The packages that declare a runtime dependency on this one.
    pub runtime_dependents: Vec<RevDependType>,
    /// The components that need this package to build, to test, and from the
    /// system to build and to test.
    pub build_dependents: Vec<usize>,
    pub test_dependents: Vec<usize>,
    pub sys_build_dependents: Vec<usize>,
    pub sys_test_dependents: Vec<usize>,
}

/// The mathematical content of a package.
pub struct PackageView {
    pub fmri: FmriView,
    pub versions: Seq<PackageVersionView>,
    pub component: Option<usize>,
    pub obsolete: bool,
    pub renamed: bool,
    pub runtime_dependents: Seq<RevDependTypeView>,
    pub build_dependents: Seq<usize>,
    pub test_dependents: Seq<usize>,
    pub sys_build_dependents: Seq<usize>,
    pub sys_test_dependents: Seq<usize>,
}

impl View for Package {
    type V = PackageView;

    open spec fn view(&self) -> PackageView {
        PackageView {
            fmri: self.fmri@,
            versions: version_views(self.versions@),
            component: self.component,
            obsolete: self.obsolete,
            renamed: self.renamed,
            runtime_dependents: rev_depend_views(self.runtime_dependents@),
            build_dependents: self.build_dependents@,
            test_dependents: self.test_dependents@,
            sys_build_dependents: self.sys_build_dependents@,
            sys_test_dependents: self.sys_test_dependents@,
        }
    }
}

/// A copy of a list of versions.
pub fn clone_versions(v: &Vec<PackageVersion>) -> (r: Vec<PackageVersion>)
    ensures
        version_views(r@) == version_views(v@),
{
    let mut r: Vec<PackageVersion> = Vec::new();
    let mut i: usize = 0;
    while i < v.len()
        invariant
            i <= v.len(),
            r.len() == i,
            forall|j: int| 0 <= j < i ==> r@[j]@ == v@[j]@,
        decreases v.len() - i,
    {
        r.push(v[i].clone());
        i += 1;
    }
    assert(version_views(r@) =~= version_views(v@));
    r
}

impl Clone for Package {
    fn clone(&self) -> (r: Self)
        ensures
            r@ == self@,
    {
        Package {
            fmri: self.fmri.clone(),
            versions: clone_versions(&self.versions),
            component: self.component,
            obsolete: self.obsolete,
            renamed: self.renamed,
            runtime_dependents: clone_rev_depends(&self.runtime_dependents),
            build_dependents: clone_handles(&self.build_dependents),
            test_dependents: clone_handles(&self.test_dependents),
            sys_build_dependents: clone_handles(&self.sys_build_dependents),
            sys_test_dependents: clone_handles(&self.sys_test_dependents),
        }
    }
}

/// A package just seen: no versions, no owner, nobody depends on it.
pub open spec fn empty_package(fmri: FmriView) -> PackageView {
    PackageView {
        fmri,
        versions: Seq::empty(),
        component: None,
        obsolete: false,
        renamed: false,
        runtime_dependents: Seq::empty(),
        build_dependents: Seq::empty(),
        test_dependents: Seq::empty(),
        sys_build_dependents: Seq::empty(),
        sys_test_dependents: Seq::empty(),
    }
}

/// Whether the list already holds this release, or one whose version
/// compares equal to it.
pub open spec fn holds_version(versions: Seq<PackageVersionView>, v: PackageVersionView) -> bool {
    exists|i: int|
        0 <= i < versions.len() && (#[trigger] versions[i] == v || version_compare(
            versions[i].version,
            v.version,
        ) == Order::Equal)
}

/// The text of the error for a release that is both obsolete and renamed.
pub open spec fn both_flags_message(v: PackageVersionView) -> Seq<char> {
    "package cannot be obsolete and renamed at the same time, package: "@ + v.version
}

/// The package after a release was handed in: unchanged where the release is
/// already held or is both obsolete and renamed; else the release is
/// appended, and the package takes its flags.
pub open spec fn with_version(p: PackageView, v: PackageVersionView) -> PackageView {
    if holds_version(p.versions, v) || (v.obsolete && v.renamed) {
        p
    } else {
        PackageView { versions: p.versions.push(v), obsolete: v.obsolete, renamed: v.renamed, ..p }
    }
}

/// The package after a list of releases was handed in, one by one.
pub open spec fn with_versions(p: PackageView, vs: Seq<PackageVersionView>) -> PackageView
    decreases vs.len(),
{
    if vs.len() == 0 {
        p
    } else {
        with_version(with_versions(p, vs.drop_last()), vs.last())
    }
}

/// A package is of one kind: it is not both obsolete and renamed, and
/// neither is any of its releases.
pub open spec fn exclusive(p: PackageView) -> bool {
    &&& !(p.obsolete && p.renamed)
    &&& forall|j: int|
        0 <= j < p.versions.len() ==> !((#[trigger] p.versions[j]).obsolete && p.versions[j].renamed)
}

/// A package of one kind stays so when a release is handed in.
pub proof fn lemma_with_version_exclusive(p: PackageView, v: PackageVersionView)
    requires
        exclusive(p),
    ensures
        exclusive(with_version(p, v)),
{
    let after = with_version(p, v);
    assert forall|j: int| 0 <= j < after.versions.len() implies !((
    #[trigger] after.versions[j]).obsolete && after.versions[j].renamed) by {
        if j < p.versions.len() {
            assert(after.versions[j] == p.versions[j]);
        }
    }
}

/// A package of one kind stays so when releases are handed in.
pub proof fn lemma_with_versions_exclusive(p: PackageView, vs: Seq<PackageVersionView>)
    requires
        exclusive(p),
    ensures
        exclusive(with_versions(p, vs)),
    decreases vs.len(),
{
    if vs.len() > 0 {
        lemma_with_versions_exclusive(p, vs.drop_last());
        lemma_with_version_exclusive(with_versions(p, vs.drop_last()), vs.last());
    }
}

/// The handle, among the first `n` releases, of the newest one: a release is
/// replaced as the newest only by one whose version compares greater, so of
/// releases that compare equal the first stays. With `fresh_only`, stale
/// releases are passed over.
pub open spec fn newest_among(versions: Seq<PackageVersionView>, fresh_only: bool, n: int) -> Option<int>
    decreases n,
{
    if n <= 0 {
        None
    } else {
        let before = newest_among(versions, fresh_only, n - 1);
        if fresh_only && stale(versions[n - 1]) {
            before
        } else {
            match before {
                None => Some(n - 1),
                Some(b) => if version_compare(versions[n - 1].version, versions[b].version)
                    == Order::Greater {
                    Some(n - 1)
                } else {
                    before
                },
            }
        }
    }
}

/// The handle of the release that stands for the package: the newest that is
/// neither obsolete nor renamed, or the newest of all where every release is
/// stale. `None` where the package has no release.
pub open spec fn active_version(versions: Seq<PackageVersionView>) -> Option<int> {
    match newest_among(versions, true, versions.len() as int) {
        Some(i) => Some(i),
        None => newest_among(versions, false, versions.len() as int),
    }
}

/// The package with its releases collapsed to the active one.
pub open spec fn collapsed(p: PackageView) -> PackageView {
    match active_version(p.versions) {
        Some(a) => PackageView { versions: seq![p.versions[a]], ..p },
        None => p,
    }
}

/// The versions of a list are ordered coherently: no release is newer than
/// itself, and a release that is not newer than a second one is not newer
/// than a third that is newer than the second.
pub open spec fn coherent(versions: Seq<PackageVersionView>) -> bool {
    &&& forall|i: int|
        0 <= i < versions.len() ==> #[trigger] version_compare(
            versions[i].version,
            versions[i].version,
        ) != Order::Greater
    &&& forall|a: int, b: int, c: int|
        0 <= a < versions.len() && 0 <= b < versions.len() && 0 <= c < versions.len()
            && version_compare(versions[a].version, versions[b].version) != Order::Greater
            && #[trigger] version_compare(versions[c].version, versions[b].version) == Order::Greater
            ==> #[trigger] version_compare(versions[a].version, versions[c].version) != Order::Greater
}

/// No release among the first `n` that counts is newer than the one chosen
/// among them, which is one of them.
pub proof fn lemma_newest_among(versions: Seq<PackageVersionView>, fresh_only: bool, n: int)
    requires
        0 <= n <= versions.len(),
        coherent(versions),
    ensures
        match newest_among(versions, fresh_only, n) {
            Some(b) => 0 <= b < n && (fresh_only ==> !stale(versions[b])) && forall|i: int|
                0 <= i < n && !(fresh_only && stale(versions[i])) ==> #[trigger] version_compare(
                    versions[i].version,
                    versions[b].version,
                ) != Order::Greater,
            None => forall|i: int| 0 <= i < n ==> fresh_only && stale(#[trigger] versions[i]),
        },
    decreases n,
{
    if n > 0 {
        lemma_newest_among(versions, fresh_only, n - 1);
        let before = newest_among(versions, fresh_only, n - 1);
        if !(fresh_only && stale(versions[n - 1])) {
            match before {
                None => {},
                Some(b) => {
                    if version_compare(versions[n - 1].version, versions[b].version)
                        == Order::Greater {
                        assert forall|i: int|
                            0 <= i < n && !(fresh_only && stale(versions[i])) implies #[trigger] version_compare(
                            versions[i].version,
                            versions[n - 1].version,
                        ) != Order::Greater by {
                            if i < n - 1 {
                                assert(version_compare(versions[i].version, versions[b].version)
                                    != Order::Greater);
                            }
                        }
                    }
                },
            }
        }
    }
}

/// The chosen release is one of the package's releases.
pub proof fn lemma_newest_in_range(versions: Seq<PackageVersionView>, fresh_only: bool, n: int)
    requires
        0 <= n <= versions.len(),
    ensures
        match newest_among(versions, fresh_only, n) {
            Some(b) => 0 <= b < n,
            None => !fresh_only ==> n == 0,
        },
    decreases n,
{
    if n > 0 {
        lemma_newest_in_range(versions, fresh_only, n - 1);
    }
}

/// Version selection. Where the versions of a package are ordered
/// coherently, the active release is the newest of those that are neither
/// obsolete nor renamed: it is fresh if any release is, and no fresh release
/// is newer. Where every release is stale, no release at all is newer.
pub proof fn lemma_active_version_is_newest(versions: Seq<PackageVersionView>)
    requires
        versions.len() > 0,
        coherent(versions),
    ensures
        active_version(versions) is Some,
        ({
            let a = active_version(versions)->0;
            &&& 0 <= a < versions.len()
            &&& (exists|i: int| 0 <= i < versions.len() && !stale(#[trigger] versions[i])) ==> !stale(
                versions[a],
            )
            &&& forall|i: int|
                0 <= i < versions.len() && (!stale(versions[i]) || stale(versions[a]))
                    ==> #[trigger] version_compare(versions[i].version, versions[a].version)
                    != Order::Greater
        }),
{
    let n = versions.len() as int;
    lemma_newest_among(versions, true, n);
    lemma_newest_among(versions, false, n);
    lemma_newest_in_range(versions, false, n);
    match newest_among(versions, true, n) {
        Some(a) => {},
        None => {
            assert(stale(versions[0]));
        },
    }
}

/// A package of one kind stays so when it is collapsed.
pub proof fn lemma_collapsed_exclusive(p: PackageView)
    requires
        exclusive(p),
    ensures
        exclusive(collapsed(p)),
{
    lemma_newest_in_range(p.versions, true, p.versions.len() as int);
    lemma_newest_in_range(p.versions, false, p.versions.len() as int);
}

/// Version selection is idempotent: a collapsed package collapses to itself.
pub proof fn lemma_collapsed_twice(p: PackageView)
    ensures
        collapsed(collapsed(p)) == collapsed(p),
{
    lemma_newest_in_range(p.versions, true, p.versions.len() as int);
    lemma_newest_in_range(p.versions, false, p.versions.len() as int);
    match active_version(p.versions) {
        Some(a) => {
            let one = seq![p.versions[a]];
            assert(newest_among(one, true, 0) is None);
            assert(newest_among(one, false, 0) is None);
            assert(newest_among(one, false, 1) == Some(0int));
            assert(active_version(one) == Some(0int));
            assert(seq![one[0]] =~= one);
        },
        None => {},
    }
}

/// The dependents of a package in one of the component contexts.
pub open spec fn dependents_of(p: PackageView, t: DependencyTypes) -> Seq<usize> {
    match t {
        DependencyTypes::Runtime => Seq::empty(),
        DependencyTypes::Build => p.build_dependents,
        DependencyTypes::Test => p.test_dependents,
        DependencyTypes::SystemBuild => p.sys_build_dependents,
        DependencyTypes::SystemTest => p.sys_test_dependents,
    }
}

/// The package with one more dependent in a component context.
pub open spec fn with_dependent(p: PackageView, c: usize, t: DependencyTypes) -> PackageView {
    match t {
        DependencyTypes::Runtime => p,
        DependencyTypes::Build => PackageView { build_dependents: p.build_dependents.push(c), ..p },
        DependencyTypes::Test => PackageView { test_dependents: p.test_dependents.push(c), ..p },
        DependencyTypes::SystemBuild => PackageView {
            sys_build_dependents: p.sys_build_dependents.push(c),
            ..p
        },
        DependencyTypes::SystemTest => PackageView {
            sys_test_dependents: p.sys_test_dependents.push(c),
            ..p
        },
    }
}

impl Package {
    /// A package just seen.
    pub fn new(fmri: Fmri) -> (r: Self)
        ensures
            r@ == empty_package(fmri@),
    {
        let r = Package {
            fmri,
            versions: Vec::new(),
            component: None,
            obsolete: false,
            renamed: false,
            runtime_dependents: Vec::new(),
            build_dependents: Vec::new(),
            test_dependents: Vec::new(),
            sys_build_dependents: Vec::new(),
            sys_test_dependents: Vec::new(),
        };
        assert(r@.versions =~= Seq::<PackageVersionView>::empty());
        assert(r@.runtime_dependents =~= Seq::<RevDependTypeView>::empty());
        assert(r@.build_dependents =~= Seq::<usize>::empty());
        assert(r@.test_dependents =~= Seq::<usize>::empty());
        assert(r@.sys_build_dependents =~= Seq::<usize>::empty());
        assert(r@.sys_test_dependents =~= Seq::<usize>::empty());
        r
    }

    /// Whether the package already holds this release, or one whose version
    /// compares equal to it.
    pub fn has_version(&self, package_version: &PackageVersion) -> (r: bool)
        ensures
            r == holds_version(self@.versions, package_version@),
    {
        let mut i: usize = 0;
        while i < self.versions.len()
            invariant
                i <= self.versions.len(),
                forall|j: int|
                    0 <= j < i ==> !(#[trigger] self@.versions[j] == package_version@
                        || version_compare(self@.versions[j].version, package_version@.version)
                        == Order::Equal),
            decreases self.versions.len() - i,
        {
            proof {
                assert(self@.versions[i as int] == self.versions@[i as int]@);
            }
            if self.versions[i].same(package_version) {
                return true;
            }
            match self.versions[i].version.compare(&package_version.version) {
                Order::Equal => {
                    return true;
                },
                _ => {},
            }
            i += 1;
        }
        false
    }

    /// Hands in a release. One that the package already holds is merged
    /// silently; one that is both obsolete and renamed is an error; any other
    /// is appended, and the package takes its flags.
    pub fn add_package_version(&mut self, package_version: PackageVersion) -> (r: Result<(), String>)
        ensures
            final(self)@ == with_version(old(self)@, package_version@),
            match r {
                Ok(_) => holds_version(old(self)@.versions, package_version@) || !(
                package_version@.obsolete && package_version@.renamed),
                Err(e) => !holds_version(old(self)@.versions, package_version@)
                    && package_version@.obsolete && package_version@.renamed && e@
                    == both_flags_message(package_version@),
            },
    {
        if self.has_version(&package_version) {
            return Ok(());
        }
        if package_version.is_obsolete() && package_version.is_renamed() {
            let mut message = String::from_str(
                "package cannot be obsolete and renamed at the same time, package: ",
            );
            let version = package_version.version.to_string();
            message.append(version.as_str());
            return Err(message);
        }
        self.set_obsolete(package_version.is_obsolete());
        self.set_renamed(package_version.is_renamed());
        self.versions.push(package_version);
        assert(self@.versions =~= old(self)@.versions.push(package_version@));
        Ok(())
    }

    /// Records a component that needs this package in a context other than
    /// runtime.
    pub fn add_dependent(&mut self, dependent: usize, dependency_type: &DependencyTypes) -> (r: Result<(), String>)
        ensures
            final(self)@ == with_dependent(old(self)@, dependent, *dependency_type),
            match r {
                Ok(_) => *dependency_type != DependencyTypes::Runtime,
                Err(e) => *dependency_type == DependencyTypes::Runtime && e@
                    == "you can not add runtime dependent"@,
            },
    {
        match dependency_type {
            DependencyTypes::Runtime => {
                return Err(String::from_str("you can not add runtime dependent"));
            },
            DependencyTypes::Build => self.build_dependents.push(dependent),
            DependencyTypes::Test => self.test_dependents.push(dependent),
            DependencyTypes::SystemBuild => self.sys_build_dependents.push(dependent),
            DependencyTypes::SystemTest => self.sys_test_dependents.push(dependent),
        }
        Ok(())
    }

    /// Makes `component` the owner of the package. A package that already
    /// has an owner keeps it, and the handle of that owner is returned.
    pub fn set_component(&mut self, component: usize) -> (r: Option<usize>)
        ensures
            r == old(self)@.component,
            final(self)@ == (PackageView {
                component: if old(self)@.component is Some {
                    old(self)@.component
                } else {
                    Some(component)
                },
                ..old(self)@
            }),
    {
        match self.component {
            Some(c) => Some(c),
            None => {
                self.component = Some(component);
                None
            },
        }
    }

    /// The handle, among the releases, of the newest one, stale releases
    /// passed over where `fresh_only` says so.
    fn newest(&self, fresh_only: bool) -> (r: Option<usize>)
        ensures
            match r {
                Some(i) => newest_among(self@.versions, fresh_only, self@.versions.len() as int)
                    == Some(i as int) && i < self.versions.len(),
                None => newest_among(self@.versions, fresh_only, self@.versions.len() as int)
                    is None,
            },
    {
        let mut best: Option<usize> = None;
        let mut i: usize = 0;
        while i < self.versions.len()
            invariant
                i <= self.versions.len(),
                match best {
                    Some(b) => newest_among(self@.versions, fresh_only, i as int) == Some(b as int)
                        && b < i,
                    None => newest_among(self@.versions, fresh_only, i as int) is None,
                },
            decreases self.versions.len() - i,
        {
            proof {
                assert(self@.versions[i as int] == self.versions@[i as int]@);
            }
            let candidate = &self.versions[i];
            if !(fresh_only && (candidate.is_obsolete() || candidate.is_renamed())) {
                match best {
                    None => {
                        best = Some(i);
                    },
                    Some(b) => {
                        proof {
                            assert(self@.versions[b as int] == self.versions@[b as int]@);
                        }
                        match candidate.version.compare(&self.versions[b].version) {
                            Order::Greater => {
                                best = Some(i);
                            },
                            _ => {},
                        }
                    },
                }
            }
            i += 1;
        }
        best
    }

    /// The handle of the release that stands for the package: the newest
    /// that is neither obsolete nor renamed, or the newest of all where every
    /// release is stale.
    pub fn select_active_version(&self) -> (r: Option<usize>)
        ensures
            match r {
                Some(i) => active_version(self@.versions) == Some(i as int) && i
                    < self@.versions.len(),
                None => active_version(self@.versions) is None,
            },
    {
        match self.newest(true) {
            Some(i) => Some(i),
            None => self.newest(false),
        }
    }

    /// Collapses the releases of the package to the active one.
    pub fn remove_old_versions(&mut self)
        ensures
            final(self)@ == collapsed(old(self)@),
    {
        match self.select_active_version() {
            Some(a) => {
                let kept = self.versions.swap_remove(a);
                let mut versions: Vec<PackageVersion> = Vec::new();
                versions.push(kept);
                self.versions = versions;
                assert(self@.versions =~= seq![old(self)@.versions[a as int]]);
            },
            None => {},
        }
    }

    pub fn get_versions(&self) -> (r: &Vec<PackageVersion>)
        ensures
            version_views(r@) == self@.versions,
    {
        &self.versions
    }

    /// The releases, to change them in place.
    pub fn get_versions_mut(&mut self) -> (r: &mut Vec<PackageVersion>)
        ensures
            *r == old(self).versions,
            *final(self) == (Package { versions: *final(r), ..*old(self) }),
    {
        &mut self.versions
    }

    pub fn set_obsolete(&mut self, obsolete: bool)
        ensures
            final(self)@ == (PackageView { obsolete, ..old(self)@ }),
    {
        self.obsolete = obsolete;
    }

    pub fn set_renamed(&mut self, renamed: bool)
        ensures
            final(self)@ == (PackageView { renamed, ..old(self)@ }),
    {
        self.renamed = renamed;
    }

    pub fn is_obsolete(&self) -> (r: bool)
        ensures
            r == self@.obsolete,
    {
        self.obsolete
    }

    pub fn is_renamed(&self) -> (r: bool)
        ensures
            r == self@.renamed,
    {
        self.renamed
    }

    /// The handle of the owning component, if the package has one.
    pub fn is_in_component(&self) -> (r: &Option<usize>)
        ensures
            *r == self@.component,
    {
        &self.component
    }

    pub fn get_runtime_dependents(&self) -> (r: &Vec<RevDependType>)
        ensures
            rev_depend_views(r@) == self@.runtime_dependents,
    {
        &self.runtime_dependents
    }

    /// The components that need this package in a context other than
    /// runtime.
    pub fn get_git_dependents(&self, dependency_type: DependencyTypes) -> (r: Result<&Vec<usize>, String>)
        ensures
            match r {
                Ok(l) => dependency_type != DependencyTypes::Runtime && l@ == dependents_of(
                    self@,
                    dependency_type,
                ),
                Err(e) => dependency_type == DependencyTypes::Runtime && e@
                    == "you can not add runtime dependent"@,
            },
    {
        Ok(
            match dependency_type {
                DependencyTypes::Runtime => {
                    return Err(String::from_str("you can not add runtime dependent"));
                },
                DependencyTypes::Build => &self.build_dependents,
                DependencyTypes::Test => &self.test_dependents,
                DependencyTypes::SystemBuild => &self.sys_build_dependents,
                DependencyTypes::SystemTest => &self.sys_test_dependents,
            },
        )
    }

    /// Replaces the releases of the package.
    pub fn change_versions(&mut self, vers: Vec<PackageVersion>)
        ensures
            final(self)@ == (PackageView { versions: version_views(vers@), ..old(self)@ }),
    {
        self.versions = vers;
    }

    pub fn get_fmri(&self) -> (r: &Fmri)
        ensures
            r@ == self@.fmri,
    {
        &self.fmri
    }

    /// Whether the package is of one kind: neither the package nor any of
    /// its releases is both obsolete and renamed.
    pub fn is_exclusive(&self) -> (r: bool)
        ensures
            r == exclusive(self@),
    {
        if self.obsolete && self.renamed {
            return false;
        }
        let mut j: usize = 0;
        while j < self.versions.len()
            invariant
                j <= self.versions.len(),
                !(self.obsolete && self.renamed),
                forall|k: int|
                    0 <= k < j ==> !((#[trigger] self@.versions[k]).obsolete
                        && self@.versions[k].renamed),
            decreases self.versions.len() - j,
        {
            proof {
                assert(self@.versions[j as int] == self.versions@[j as int]@);
            }
            if self.versions[j].is_obsolete() && self.versions[j].is_renamed() {
                return false;
            }
            j += 1;
        }
        true
    }

    /// Orders two packages by the versions of their identifiers.
    pub fn compare(&self, other: &Package) -> (r: Order)
        ensures
            r == fmri_compare(self@.fmri, other@.fmri),
    {
        self.fmri.compare(&other.fmri)
    }
}

} // verus!
