//! The graph store: every package and every component, found by name, with
//! the edges between them kept as handles (indices into the two tables).

use vstd::prelude::*;
use vstd::string::*;
use vstd::hash_map::StringHashMap;
use crate::identifier::{Fmri, FmriView, fmri_text, none_fmri};
use crate::packages::dependency_type::DependencyTypes;
use crate::packages::package::{Package, PackageView, PackageVersion, PackageVersionView,
    with_versions, with_dependent, clone_handles, version_views, collapsed, rev_depend_views,
    exclusive, lemma_with_version_exclusive, lemma_collapsed_exclusive};
use crate::problems::{Problem, ProblemView, Problems, added, added_all, problem_views};
use crate::text::texts;
use crate::packages::depend_types::{DependTypes, DependTypesView, fmri_views};
use crate::packages::rev_depend_type::{RevDependType, RevDependTypeView};

verus! {

/// A component of the source tree: its name, the packages it claims, and the
/// packages it needs to build, to test, and from the system to build and to
/// test. Packages are named by their handle in the graph.
#[derive(Debug, PartialEq, Eq)]
pub struct Component {
    pub name: String,
    pub packages: Vec<usize>,
    pub build: Vec<usize>,
    pub test: Vec<usize>,
    pub sys_build: Vec<usize>,
    pub sys_test: Vec<usize>,
}

/// The mathematical content of a component.
pub struct ComponentView {
    pub name: Seq<char>,
    pub packages: Seq<usize>,
    pub build: Seq<usize>,
    pub test: Seq<usize>,
    pub sys_build: Seq<usize>,
    pub sys_test: Seq<usize>,
}

impl View for Component {
    type V = ComponentView;

    open spec fn view(&self) -> ComponentView {
        ComponentView {
            name: self.name@,
            packages: self.packages@,
            build: self.build@,
            test: self.test@,
            sys_build: self.sys_build@,
            sys_test: self.sys_test@,
        }
    }
}

impl Clone for Component {
    fn clone(&self) -> (r: Self)
        ensures
            r@ == self@,
    {
        Component {
            name: self.name.clone(),
            packages: clone_handles(&self.packages),
            build: clone_handles(&self.build),
            test: clone_handles(&self.test),
            sys_build: clone_handles(&self.sys_build),
            sys_test: clone_handles(&self.sys_test),
        }
    }
}

/// A component that claims nothing and needs nothing.
pub open spec fn empty_component(name: Seq<char>) -> ComponentView {
    ComponentView {
        name,
        packages: Seq::empty(),
        build: Seq::empty(),
        test: Seq::empty(),
        sys_build: Seq::empty(),
        sys_test: Seq::empty(),
    }
}

/// The component with one more needed package in a component context.
pub open spec fn with_need(c: ComponentView, p: usize, t: DependencyTypes) -> ComponentView {
    match t {
        DependencyTypes::Runtime => c,
        DependencyTypes::Build => ComponentView { build: c.build.push(p), ..c },
        DependencyTypes::Test => ComponentView { test: c.test.push(p), ..c },
        DependencyTypes::SystemBuild => ComponentView { sys_build: c.sys_build.push(p), ..c },
        DependencyTypes::SystemTest => ComponentView { sys_test: c.sys_test.push(p), ..c },
    }
}

impl Component {
    /// A component that claims nothing and needs nothing.
    pub fn new(component_name: String) -> (r: Self)
        ensures
            r@ == empty_component(component_name@),
    {
        let r = Component {
            name: component_name,
            packages: Vec::new(),
            build: Vec::new(),
            test: Vec::new(),
            sys_build: Vec::new(),
            sys_test: Vec::new(),
        };
        assert(r@.packages =~= Seq::<usize>::empty());
        assert(r@.build =~= Seq::<usize>::empty());
        assert(r@.test =~= Seq::<usize>::empty());
        assert(r@.sys_build =~= Seq::<usize>::empty());
        assert(r@.sys_test =~= Seq::<usize>::empty());
        r
    }

    /// Records that the component claims a package.
    pub fn add_package(&mut self, package: usize)
        ensures
            final(self)@ == (ComponentView { packages: old(self)@.packages.push(package), ..old(self)@ }),
    {
        self.packages.push(package)
    }

    pub fn get_name(&self) -> (r: &String)
        ensures
            r@ == self@.name,
    {
        &self.name
    }

    pub fn get_packages(&self) -> (r: &Vec<usize>)
        ensures
            r@ == self@.packages,
    {
        &self.packages
    }

    pub fn get_build_dependencies(&self) -> (r: &Vec<usize>)
        ensures
            r@ == self@.build,
    {
        &self.build
    }

    pub fn get_test_dependencies(&self) -> (r: &Vec<usize>)
        ensures
            r@ == self@.test,
    {
        &self.test
    }

    pub fn get_sys_build_dependencies(&self) -> (r: &Vec<usize>)
        ensures
            r@ == self@.sys_build,
    {
        &self.sys_build
    }

    pub fn get_sys_test_dependencies(&self) -> (r: &Vec<usize>)
        ensures
            r@ == self@.sys_test,
    {
        &self.sys_test
    }
}

/// The packages of a table, as mathematical values.
pub open spec fn package_views(s: Seq<Package>) -> Seq<PackageView> {
    s.map_values(|p: Package| p@)
}

/// The components of a table, as mathematical values.
pub open spec fn component_views(s: Seq<Component>) -> Seq<ComponentView> {
    s.map_values(|c: Component| c@)
}

/// The mathematical content of the graph: the two tables and the problems
/// found so far. A handle is an index into one of the tables.
pub struct GraphView {
    pub components: Seq<ComponentView>,
    pub packages: Seq<PackageView>,
    pub problems: Seq<ProblemView>,
}

/// Whether the package at handle `i` has the name `name`.
pub open spec fn package_at(g: GraphView, name: Seq<char>, i: int) -> bool {
    0 <= i < g.packages.len() && g.packages[i].fmri.name == name
}

/// Whether the component at handle `i` has the name `name`.
pub open spec fn component_at(g: GraphView, name: Seq<char>, i: int) -> bool {
    0 <= i < g.components.len() && g.components[i].name == name
}

/// The handle of the package of a name, if the graph knows it.
pub open spec fn package_index(g: GraphView, name: Seq<char>) -> Option<int> {
    if exists|i: int| package_at(g, name, i) {
        Some(choose|i: int| package_at(g, name, i))
    } else {
        None
    }
}

/// The handle of the component of a name, if the graph knows it.
pub open spec fn component_index(g: GraphView, name: Seq<char>) -> Option<int> {
    if exists|i: int| component_at(g, name, i) {
        Some(choose|i: int| component_at(g, name, i))
    } else {
        None
    }
}

/// Every handle of the list is below `n`.
pub open spec fn handles_below(s: Seq<usize>, n: int) -> bool {
    forall|j: int| 0 <= j < s.len() ==> (#[trigger] s[j]) < n
}

/// Every handle that a package holds names a component of the graph.
pub open spec fn package_links_ok(p: PackageView, n: int) -> bool {
    &&& p.component matches Some(c) ==> c < n
    &&& handles_below(p.build_dependents, n)
    &&& handles_below(p.test_dependents, n)
    &&& handles_below(p.sys_build_dependents, n)
    &&& handles_below(p.sys_test_dependents, n)
}

/// Every handle that a component holds names a package of the graph.
pub open spec fn component_links_ok(c: ComponentView, n: int) -> bool {
    &&& handles_below(c.packages, n)
    &&& handles_below(c.build, n)
    &&& handles_below(c.test, n)
    &&& handles_below(c.sys_build, n)
    &&& handles_below(c.sys_test, n)
}

/// A name belongs to at most one package and to at most one component,
/// every handle names an entry of the table it points into, and no package
/// and no release is both obsolete and renamed.
pub open spec fn graph_wf(g: GraphView) -> bool {
    &&& g.packages.len() <= usize::MAX
    &&& g.components.len() <= usize::MAX
    &&& forall|i: int, j: int|
        0 <= i < g.packages.len() && 0 <= j < g.packages.len() && (#[trigger] g.packages[i]).fmri.name
            == (#[trigger] g.packages[j]).fmri.name ==> i == j
    &&& forall|i: int, j: int|
        0 <= i < g.components.len() && 0 <= j < g.components.len() && (#[trigger] g.components[i]).name
            == (#[trigger] g.components[j]).name ==> i == j
    &&& forall|i: int|
        0 <= i < g.packages.len() ==> package_links_ok(#[trigger] g.packages[i], g.components.len() as int)
    &&& forall|i: int|
        0 <= i < g.components.len() ==> component_links_ok(
            #[trigger] g.components[i],
            g.packages.len() as int,
        )
    &&& forall|i: int| 0 <= i < g.packages.len() ==> exclusive(#[trigger] g.packages[i])
}

/// In a well-formed graph the package of a name is found at its handle.
pub proof fn lemma_package_index(g: GraphView, name: Seq<char>, i: int)
    requires
        graph_wf(g),
        package_at(g, name, i),
    ensures
        package_index(g, name) == Some(i),
{
    let j = choose|j: int| package_at(g, name, j);
    assert(g.packages[i].fmri.name == g.packages[j].fmri.name);
}

/// In a well-formed graph the component of a name is found at its handle.
pub proof fn lemma_component_index(g: GraphView, name: Seq<char>, i: int)
    requires
        graph_wf(g),
        component_at(g, name, i),
    ensures
        component_index(g, name) == Some(i),
{
    let j = choose|j: int| component_at(g, name, j);
    assert(g.components[i].name == g.components[j].name);
}

/// The text of the error for a package that the graph does not know.
pub open spec fn no_package_message(fmri: FmriView) -> Seq<char> {
    "package "@ + fmri_text(fmri) + " does not exist"@
}

/// The text of the error for a component that the graph does not know.
pub open spec fn no_component_message(name: Seq<char>) -> Seq<char> {
    "component "@ + name + " does not exist"@
}

/// A package as the graph first stores it: nothing owns it and nothing is
/// recorded as depending on it.
pub open spec fn unlinked(p: PackageView) -> PackageView {
    PackageView {
        component: None,
        runtime_dependents: Seq::empty(),
        build_dependents: Seq::empty(),
        test_dependents: Seq::empty(),
        sys_build_dependents: Seq::empty(),
        sys_test_dependents: Seq::empty(),
        ..p
    }
}

/// The graph after a package was handed in. A package of a new name is
/// stored without links; the releases of one whose name the graph knows are
/// merged into the stored package.
pub open spec fn with_package(g: GraphView, p: PackageView) -> GraphView {
    match package_index(g, p.fmri.name) {
        Some(i) => GraphView {
            packages: g.packages.update(i, with_versions(g.packages[i], p.versions)),
            ..g
        },
        None => GraphView { packages: g.packages.push(unlinked(p)), ..g },
    }
}

/// The text of the error for a second component of one name.
pub open spec fn component_exists_message(name: Seq<char>) -> Seq<char> {
    "component "@ + name + " already exists"@
}

/// The graph after the first `n` claimed packages of a new component at
/// handle `c` were looked up: a package that the graph knows is listed by the
/// component, and takes it as its owner unless it has one; for the others a
/// problem is reported.
pub open spec fn claimed(g: GraphView, c: int, claims: Seq<FmriView>, n: int) -> GraphView
    decreases n,
{
    if n <= 0 {
        g
    } else {
        claim(claimed(g, c, claims, n - 1), c, claims[n - 1])
    }
}

/// One step of `claimed`.
pub open spec fn claim(g: GraphView, c: int, fmri: FmriView) -> GraphView {
    let component = g.components[c];
    match package_index(g, fmri.name) {
        None => GraphView {
            problems: added(g.problems, ProblemView::NonExistingPackageInPkg5(fmri, component.name)),
            ..g
        },
        Some(p) => {
            let package = g.packages[p];
            let listed = g.components.update(
                c,
                ComponentView { packages: component.packages.push(p as usize), ..component },
            );
            match package.component {
                Some(owner) => GraphView {
                    components: listed,
                    problems: added(
                        g.problems,
                        ProblemView::PackageInMultipleComponents(
                            package.fmri,
                            seq![g.components[owner as int].name, component.name],
                        ),
                    ),
                    ..g
                },
                None => GraphView {
                    components: listed,
                    packages: g.packages.update(
                        p,
                        PackageView { component: Some(c as usize), ..package },
                    ),
                    ..g
                },
            }
        },
    }
}

/// The graph after a component was declared: unchanged where a component of
/// that name exists; else the component is appended and its claims are
/// looked up.
pub open spec fn with_component(g: GraphView, name: Seq<char>, claims: Seq<FmriView>) -> GraphView {
    if component_index(g, name) is Some {
        g
    } else {
        claimed(
            GraphView { components: g.components.push(empty_component(name)), ..g },
            g.components.len() as int,
            claims,
            claims.len() as int,
        )
    }
}

/// The text of the error for a runtime dependency handed to a component.
pub open spec fn runtime_in_component_message() -> Seq<char> {
    "can not insert runtime dependencies into component"@
}

/// One declared dependency of the component `name` in context `t`: a
/// package that the graph does not know is reported; for one it knows, the
/// component must exist and the context must not be runtime, and then the
/// edge is recorded on both sides. The second part is the error, if any.
pub open spec fn repo_step(g: GraphView, name: Seq<char>, fmri: FmriView, t: DependencyTypes) -> (
    GraphView,
    Option<Seq<char>>,
) {
    match package_index(g, fmri.name) {
        None => (
            GraphView {
                problems: added(
                    g.problems,
                    ProblemView::NonExistingRequired(
                        DependTypesView::Require(fmri),
                        t,
                        none_fmri(),
                        name,
                    ),
                ),
                ..g
            },
            None,
        ),
        Some(p) => match component_index(g, name) {
            None => (g, Some("failed to get component: "@ + no_component_message(name))),
            Some(c) => if t == DependencyTypes::Runtime {
                (g, Some(runtime_in_component_message()))
            } else {
                (
                    GraphView {
                        components: g.components.update(
                            c,
                            with_need(g.components[c], p as usize, t),
                        ),
                        packages: g.packages.update(
                            p,
                            with_dependent(g.packages[p], c as usize, t),
                        ),
                        ..g
                    },
                    None,
                )
            },
        },
    }
}

/// The graph after the first `n` declared dependencies were taken, and the
/// error that stopped the work, if one did.
pub open spec fn repo_added(
    g: GraphView,
    name: Seq<char>,
    dependencies: Seq<FmriView>,
    t: DependencyTypes,
    n: int,
) -> (GraphView, Option<Seq<char>>)
    decreases n,
{
    if n <= 0 {
        (g, None)
    } else {
        let before = repo_added(g, name, dependencies, t, n - 1);
        if before.1 is Some {
            before
        } else {
            repo_step(before.0, name, dependencies[n - 1], t)
        }
    }
}

/// A release marked obsolete where `version` names it (or names none).
pub open spec fn obsolete_if(v: PackageVersionView, version: Seq<char>) -> PackageVersionView {
    if v.version == version {
        PackageVersionView { obsolete: true, ..v }
    } else {
        v
    }
}

/// A release marked renamed where `version` names it.
pub open spec fn renamed_if(v: PackageVersionView, version: Seq<char>) -> PackageVersionView {
    if v.version == version {
        PackageVersionView { renamed: true, ..v }
    } else {
        v
    }
}

/// The package marked obsolete: as a whole where the identifier has no
/// version, else in the releases of exactly that version.
pub open spec fn marked_obsolete(p: PackageView, version: Option<Seq<char>>) -> PackageView {
    match version {
        None => PackageView { obsolete: true, ..p },
        Some(v) => PackageView {
            versions: p.versions.map_values(|x: PackageVersionView| obsolete_if(x, v)),
            ..p
        },
    }
}

/// The package marked renamed: as a whole where the identifier has no
/// version, else in the releases of exactly that version.
pub open spec fn marked_renamed(p: PackageView, version: Option<Seq<char>>) -> PackageView {
    match version {
        None => PackageView { renamed: true, ..p },
        Some(v) => PackageView {
            versions: p.versions.map_values(|x: PackageVersionView| renamed_if(x, v)),
            ..p
        },
    }
}

/// Whether a package can be marked obsolete without a release, or the
/// package as a whole, becoming both obsolete and renamed.
pub open spec fn can_be_obsolete(p: PackageView, version: Option<Seq<char>>) -> bool {
    match version {
        None => !p.renamed,
        Some(v) => forall|j: int|
            0 <= j < p.versions.len() && (#[trigger] p.versions[j]).version == v
                ==> !p.versions[j].renamed,
    }
}

/// Whether a package can be marked renamed without a release, or the package
/// as a whole, becoming both obsolete and renamed.
pub open spec fn can_be_renamed(p: PackageView, version: Option<Seq<char>>) -> bool {
    match version {
        None => !p.obsolete,
        Some(v) => forall|j: int|
            0 <= j < p.versions.len() && (#[trigger] p.versions[j]).version == v
                ==> !p.versions[j].obsolete,
    }
}

/// A package of one kind stays so when it is marked obsolete where it can
/// be.
pub proof fn lemma_marked_obsolete_exclusive(p: PackageView, version: Option<Seq<char>>)
    requires
        exclusive(p),
        can_be_obsolete(p, version),
    ensures
        exclusive(marked_obsolete(p, version)),
{
    let after = marked_obsolete(p, version);
    assert forall|j: int| 0 <= j < after.versions.len() implies !((
    #[trigger] after.versions[j]).obsolete && after.versions[j].renamed) by {
        assert(!(p.versions[j].obsolete && p.versions[j].renamed));
    }
}

/// A package of one kind stays so when it is marked renamed where it can
/// be.
pub proof fn lemma_marked_renamed_exclusive(p: PackageView, version: Option<Seq<char>>)
    requires
        exclusive(p),
        can_be_renamed(p, version),
    ensures
        exclusive(marked_renamed(p, version)),
{
    let after = marked_renamed(p, version);
    assert forall|j: int| 0 <= j < after.versions.len() implies !((
    #[trigger] after.versions[j]).obsolete && after.versions[j].renamed) by {
        assert(!(p.versions[j].obsolete && p.versions[j].renamed));
    }
}

/// Whether the package that an identifier names, if the graph knows it, can
/// be marked obsolete.
pub open spec fn markable_obsolete(g: GraphView, fmri: FmriView) -> bool {
    match package_index(g, fmri.name) {
        Some(p) => can_be_obsolete(g.packages[p], fmri.version),
        None => true,
    }
}

/// Whether the package that an identifier names, if the graph knows it, can
/// be marked renamed.
pub open spec fn markable_renamed(g: GraphView, fmri: FmriView) -> bool {
    match package_index(g, fmri.name) {
        Some(p) => can_be_renamed(g.packages[p], fmri.version),
        None => true,
    }
}

/// The text of the error for marking a package that the graph does not know.
pub open spec fn mark_unknown_message(fmri: FmriView) -> Seq<char> {
    "failed to get package: "@ + no_package_message(FmriView { version: None, ..fmri })
}

/// Once a dependency stopped the work, the later ones change nothing.
pub proof fn lemma_repo_stopped(
    g: GraphView,
    name: Seq<char>,
    dependencies: Seq<FmriView>,
    t: DependencyTypes,
    n: int,
    m: int,
)
    requires
        n <= m,
        repo_added(g, name, dependencies, t, n).1 is Some,
    ensures
        repo_added(g, name, dependencies, t, m) == repo_added(g, name, dependencies, t, n),
    decreases m - n,
{
    if n < m {
        lemma_repo_stopped(g, name, dependencies, t, n, m - 1);
    }
}

/// The reverse dependencies of a list of lists, as mathematical values.
pub open spec fn rev_depend_lists(s: Seq<Vec<RevDependType>>) -> Seq<Seq<RevDependTypeView>> {
    s.map_values(|l: Vec<RevDependType>| rev_depend_views(l@))
}

/// The graph in which the package at each handle has the reverse runtime
/// dependencies that `lists` holds at that handle.
pub open spec fn with_runtime_dependents(g: GraphView, lists: Seq<Seq<RevDependTypeView>>) -> GraphView {
    GraphView {
        packages: Seq::new(
            g.packages.len(),
            |i: int| PackageView { runtime_dependents: lists[i], ..g.packages[i] },
        ),
        ..g
    }
}

/// Whether the graph knows the package of a name as renamed.
pub open spec fn known_renamed(g: GraphView, name: Seq<char>) -> bool {
    match package_index(g, name) {
        Some(b) => g.packages[b].renamed,
        None => false,
    }
}

/// Whether the graph knows the package of a name as obsolete.
pub open spec fn known_obsolete(g: GraphView, name: Seq<char>) -> bool {
    match package_index(g, name) {
        Some(b) => g.packages[b].obsolete,
        None => false,
    }
}

/// The name of the component that owns the package of a name, if the graph
/// knows the package and a component owns it.
pub open spec fn owner_name(g: GraphView, name: Seq<char>) -> Option<Seq<char>> {
    match package_index(g, name) {
        Some(b) => match g.packages[b].component {
            Some(c) => Some(g.components[c as int].name),
            None => None,
        },
        None => None,
    }
}

/// Somebody who depends on a package: a package at runtime, with the kind
/// of its dependency, or a component in one of the component contexts.
#[derive(Debug, PartialEq, Eq)]
pub enum Dependent {
    Package(RevDependType),
    Component(String, DependencyTypes),
}

/// The mathematical content of a dependent.
pub enum DependentView {
    Package(RevDependTypeView),
    Component(Seq<char>, DependencyTypes),
}

impl View for Dependent {
    type V = DependentView;

    open spec fn view(&self) -> DependentView {
        match *self {
            Dependent::Package(r) => DependentView::Package(r@),
            Dependent::Component(name, t) => DependentView::Component(name@, t),
        }
    }
}

/// The dependents of a list, as mathematical values.
pub open spec fn dependent_views(s: Seq<Dependent>) -> Seq<DependentView> {
    s.map_values(|d: Dependent| d@)
}

/// The components of a list of handles, as dependents in one context.
pub open spec fn component_dependents(g: GraphView, handles: Seq<usize>, t: DependencyTypes) -> Seq<DependentView> {
    handles.map_values(|c: usize| DependentView::Component(g.components[c as int].name, t))
}

/// Everybody who depends on a package: the packages that need it at
/// runtime, then the components that need it to build, from the system to
/// build, to test, and from the system to test.
pub open spec fn dependents(g: GraphView, p: PackageView) -> Seq<DependentView> {
    p.runtime_dependents.map_values(|r: RevDependTypeView| DependentView::Package(r))
        + component_dependents(g, p.build_dependents, DependencyTypes::Build)
        + component_dependents(g, p.sys_build_dependents, DependencyTypes::SystemBuild)
        + component_dependents(g, p.test_dependents, DependencyTypes::Test) + component_dependents(
        g,
        p.sys_test_dependents,
        DependencyTypes::SystemTest,
    )
}

/// The graph of packages and components.
pub struct Components {
    /// components in system
    components: Vec<Component>,
    hash_components: StringHashMap<usize>,
    /// packages in system
    packages: Vec<Package>,
    hash_packages: StringHashMap<usize>,
    pub problems: Problems,
}

impl View for Components {
    type V = GraphView;

    closed spec fn view(&self) -> GraphView {
        GraphView {
            components: component_views(self.components@),
            packages: package_views(self.packages@),
            problems: self.problems@,
        }
    }
}

impl Default for Components {
    fn default() -> (r: Self)
        ensures
            r.wf(),
            r@ == (GraphView {
                components: Seq::empty(),
                packages: Seq::empty(),
                problems: Seq::empty(),
            }),
    {
        Components::new()
    }
}

impl Components {
    /// The graph is well formed, and its two indexes by name agree with its
    /// two tables.
    pub closed spec fn wf(&self) -> bool {
        &&& graph_wf(self@)
        &&& forall|i: int|
            0 <= i < self.packages@.len() ==> self.hash_packages@.contains_key(
                (#[trigger] self.packages@[i]).fmri@.name,
            ) && self.hash_packages@[self.packages@[i].fmri@.name] == i
        &&& forall|k: Seq<char>| #[trigger]
            self.hash_packages@.contains_key(k) ==> self.hash_packages@[k] < self.packages@.len()
                && self.packages@[self.hash_packages@[k] as int].fmri@.name == k
        &&& forall|i: int|
            0 <= i < self.components@.len() ==> self.hash_components@.contains_key(
                (#[trigger] self.components@[i]).name@,
            ) && self.hash_components@[self.components@[i].name@] == i
        &&& forall|k: Seq<char>| #[trigger]
            self.hash_components@.contains_key(k) ==> self.hash_components@[k]
                < self.components@.len() && self.components@[self.hash_components@[k] as int].name@
                == k
    }

    /// A graph that the library built is a well-formed graph.
    pub proof fn lemma_wf(&self)
        requires
            self.wf(),
        ensures
            graph_wf(self@),
    {
    }

    /// The empty graph.
    pub fn new() -> (r: Self)
        ensures
            r.wf(),
            r@ == (GraphView {
                components: Seq::empty(),
                packages: Seq::empty(),
                problems: Seq::empty(),
            }),
    {
        let r = Components {
            components: Vec::new(),
            hash_components: StringHashMap::new(),
            packages: Vec::new(),
            hash_packages: StringHashMap::new(),
            problems: Problems::new(),
        };
        assert(r@.components =~= Seq::<ComponentView>::empty());
        assert(r@.packages =~= Seq::<PackageView>::empty());
        r
    }

    pub fn get_components(&self) -> (r: &Vec<Component>)
        ensures
            component_views(r@) == self@.components,
    {
        &self.components
    }

    pub fn get_problems(&self) -> (r: &Problems)
        ensures
            r@ == self@.problems,
    {
        &self.problems
    }

    pub fn get_packages(&self) -> (r: &Vec<Package>)
        ensures
            package_views(r@) == self@.packages,
    {
        &self.packages
    }

    /// The handle of the component of a name.
    pub fn get_component_by_name(&self, name: &String) -> (r: Result<usize, String>)
        requires
            self.wf(),
        ensures
            match r {
                Ok(i) => component_index(self@, name@) == Some(i as int) && component_at(
                    self@,
                    name@,
                    i as int,
                ),
                Err(e) => component_index(self@, name@) is None && e@ == no_component_message(
                    name@,
                ),
            },
    {
        match self.hash_components.get(name.as_str()) {
            None => {
                proof {
                    if exists|i: int| component_at(self@, name@, i) {
                        let i = choose|i: int| component_at(self@, name@, i);
                        assert(self@.components[i] == self.components@[i]@);
                    }
                }
                let mut message = String::from_str("component ");
                message.append(name.as_str());
                message.append(" does not exist");
                Err(message)
            },
            Some(component) => {
                proof {
                    let i = *component as int;
                    assert(self@.components[i] == self.components@[i]@);
                    lemma_component_index(self@, name@, i);
                }
                Ok(*component)
            },
        }
    }

    /// The handle of the package that an identifier names, whatever the
    /// identifier's publisher and version.
    pub fn get_package_by_fmri(&self, fmri: &Fmri) -> (r: Result<usize, String>)
        requires
            self.wf(),
        ensures
            match r {
                Ok(i) => package_index(self@, fmri@.name) == Some(i as int) && package_at(
                    self@,
                    fmri@.name,
                    i as int,
                ),
                Err(e) => package_index(self@, fmri@.name) is None && e@ == no_package_message(
                    fmri@,
                ),
            },
    {
        match self.hash_packages.get(fmri.get_package_name_as_ref_string().as_str()) {
            None => {
                proof {
                    if exists|i: int| package_at(self@, fmri@.name, i) {
                        let i = choose|i: int| package_at(self@, fmri@.name, i);
                        assert(self@.packages[i] == self.packages@[i]@);
                    }
                }
                let mut message = String::from_str("package ");
                let text = fmri.to_string();
                message.append(text.as_str());
                message.append(" does not exist");
                Err(message)
            },
            Some(package) => {
                proof {
                    let i = *package as int;
                    assert(self@.packages[i] == self.packages@[i]@);
                    lemma_package_index(self@, fmri@.name, i);
                }
                Ok(*package)
            },
        }
    }

    /// The handles of every stored package and component are in range.
    proof fn lemma_links(&self)
        requires
            self.wf(),
        ensures
            forall|i: int|
                0 <= i < self.packages@.len() ==> package_links_ok(
                    (#[trigger] self.packages@[i])@,
                    self.components@.len() as int,
                ),
            forall|i: int|
                0 <= i < self.components@.len() ==> component_links_ok(
                    (#[trigger] self.components@[i])@,
                    self.packages@.len() as int,
                ),
            forall|i: int| 0 <= i < self.packages@.len() ==> exclusive((#[trigger] self.packages@[i])@),
    {
        assert forall|i: int| 0 <= i < self.packages@.len() implies package_links_ok(
            (#[trigger] self.packages@[i])@,
            self.components@.len() as int,
        ) && exclusive(self.packages@[i]@) by {
            assert(self@.packages[i] == self.packages@[i]@);
        }
        assert forall|i: int| 0 <= i < self.components@.len() implies component_links_ok(
            (#[trigger] self.components@[i])@,
            self.packages@.len() as int,
        ) by {
            assert(self@.components[i] == self.components@[i]@);
        }
    }

    /// Re-establishes well-formedness after entries changed that kept their
    /// names, with handles that are still in range.
    proof fn lemma_wf_kept(&self, before: &Components)
        requires
            before.wf(),
            self.hash_packages@ == before.hash_packages@,
            self.hash_components@ == before.hash_components@,
            self.components@.len() == before.components@.len(),
            self.packages@.len() == before.packages@.len(),
            forall|i: int|
                0 <= i < self.packages@.len() ==> (#[trigger] self.packages@[i])@.fmri.name
                    == before.packages@[i]@.fmri.name && package_links_ok(
                    self.packages@[i]@,
                    self.components@.len() as int,
                ),
            forall|i: int|
                0 <= i < self.components@.len() ==> (#[trigger] self.components@[i])@.name
                    == before.components@[i]@.name && component_links_ok(
                    self.components@[i]@,
                    self.packages@.len() as int,
                ),
            forall|i: int| 0 <= i < self.packages@.len() ==> exclusive((#[trigger] self.packages@[i])@),
        ensures
            self.wf(),
    {
        assert forall|i: int| 0 <= i < self@.packages.len() implies exclusive(
            #[trigger] self@.packages[i],
        ) by {
            assert(self@.packages[i] == self.packages@[i]@);
        }
        assert forall|i: int, j: int|
            0 <= i < self@.packages.len() && 0 <= j < self@.packages.len() && (
            #[trigger] self@.packages[i]).fmri.name == (#[trigger] self@.packages[j]).fmri.name implies i
            == j by {
            assert(self@.packages[i] == self.packages@[i]@);
            assert(self@.packages[j] == self.packages@[j]@);
            assert(before@.packages[i] == before.packages@[i]@);
            assert(before@.packages[j] == before.packages@[j]@);
        }
        assert forall|i: int, j: int|
            0 <= i < self@.components.len() && 0 <= j < self@.components.len() && (
            #[trigger] self@.components[i]).name == (#[trigger] self@.components[j]).name implies i
            == j by {
            assert(self@.components[i] == self.components@[i]@);
            assert(self@.components[j] == self.components@[j]@);
            assert(before@.components[i] == before.components@[i]@);
            assert(before@.components[j] == before.components@[j]@);
        }
        assert forall|i: int| 0 <= i < self@.packages.len() implies package_links_ok(
            #[trigger] self@.packages[i],
            self@.components.len() as int,
        ) by {
            assert(self@.packages[i] == self.packages@[i]@);
        }
        assert forall|i: int| 0 <= i < self@.components.len() implies component_links_ok(
            #[trigger] self@.components[i],
            self@.packages.len() as int,
        ) by {
            assert(self@.components[i] == self.components@[i]@);
        }
        assert forall|i: int| 0 <= i < self.packages@.len() implies self.hash_packages@.contains_key(
            (#[trigger] self.packages@[i]).fmri@.name,
        ) && self.hash_packages@[self.packages@[i].fmri@.name] == i by {
            assert(before.packages@[i].fmri@.name == self.packages@[i]@.fmri.name);
        }
        assert forall|k: Seq<char>| #[trigger]
            self.hash_packages@.contains_key(k) implies self.hash_packages@[k] < self.packages@.len()
            && self.packages@[self.hash_packages@[k] as int].fmri@.name == k by {
            let i = before.hash_packages@[k] as int;
            assert(before.packages@[i].fmri@.name == k);
            assert(self.packages@[i]@.fmri.name == before.packages@[i]@.fmri.name);
        }
        assert forall|i: int| 0 <= i < self.components@.len() implies self.hash_components@.contains_key(
            (#[trigger] self.components@[i]).name@,
        ) && self.hash_components@[self.components@[i].name@] == i by {
            assert(before.components@[i].name@ == self.components@[i]@.name);
        }
        assert forall|k: Seq<char>| #[trigger]
            self.hash_components@.contains_key(k) implies self.hash_components@[k]
            < self.components@.len() && self.components@[self.hash_components@[k] as int].name@
            == k by {
            let i = before.hash_components@[k] as int;
            assert(before.components@[i].name@ == k);
            assert(self.components@[i]@.name == before.components@[i]@.name);
        }
    }

    /// Merges releases into the package at a handle.
    fn merge_versions(&mut self, i: usize, versions: &Vec<PackageVersion>)
        requires
            old(self).wf(),
            i < old(self)@.packages.len(),
        ensures
            final(self).wf(),
            final(self)@ == (GraphView {
                packages: old(self)@.packages.update(
                    i as int,
                    with_versions(old(self)@.packages[i as int], version_views(versions@)),
                ),
                ..old(self)@
            }),
            final(self)@.packages[i as int].fmri == old(self)@.packages[i as int].fmri,
    {
        let ghost start = *self;
        let mut j: usize = 0;
        proof {
            assert(version_views(versions@).take(0) =~= Seq::<PackageVersionView>::empty());
            assert(self@.packages =~= start@.packages.update(i as int, start@.packages[i as int]));
        }
        while j < versions.len()
            invariant
                j <= versions.len(),
                i < start@.packages.len(),
                start.wf(),
                self.wf(),
                self.hash_packages@ == start.hash_packages@,
                self.hash_components@ == start.hash_components@,
                self.components@ == start.components@,
                self.problems == start.problems,
                self.packages@.len() == start.packages@.len(),
                forall|k: int| 0 <= k < self.packages@.len() && k != i ==> self.packages@[k] == start.packages@[k],
                self.packages@[i as int]@ == with_versions(
                    start.packages@[i as int]@,
                    version_views(versions@).take(j as int),
                ),
                self.packages@[i as int]@.fmri == start.packages@[i as int]@.fmri,
                package_links_ok(self.packages@[i as int]@, self.components@.len() as int),
            decreases versions.len() - j,
        {
            let ghost before = *self;
            let version = versions[j].clone();
            let _ = self.packages[i].add_package_version(version);
            proof {
                let all = version_views(versions@);
                assert(all.take(j + 1).drop_last() =~= all.take(j as int));
                assert(all.take(j + 1).last() == versions@[j as int]@);
                assert(start@.components.len() == self.components@.len());
                assert(package_links_ok(start@.packages[i as int], start@.components.len() as int));
                assert(start@.packages[i as int] == start.packages@[i as int]@);
                before.lemma_links();
                self.lemma_wf_kept(&before);
            }
            j += 1;
        }
        proof {
            assert(version_views(versions@).take(versions@.len() as int) =~= version_views(versions@));
            assert(self@.packages =~= start@.packages.update(
                i as int,
                with_versions(start@.packages[i as int], version_views(versions@)),
            ));
            assert(self@.components == start@.components);
            assert(self@.packages[i as int] == self.packages@[i as int]@);
            assert(start@.packages[i as int] == start.packages@[i as int]@);
        }
    }

    /// Hands in a package and returns its handle. A package of a new name is
    /// stored without an owner and without dependents; where the graph knows
    /// the name, the releases are merged into the package it holds. Neither
    /// the package nor any of its releases may be both obsolete and renamed.
    pub fn add_package(&mut self, package: Package) -> (r: usize)
        requires
            old(self).wf(),
            exclusive(package@),
        ensures
            final(self).wf(),
            final(self)@ == with_package(old(self)@, package@),
            package_at(final(self)@, package@.fmri.name, r as int),
    {
        match self.get_package_by_fmri(&package.fmri) {
            Ok(i) => {
                self.merge_versions(i, &package.versions);
                i
            },
            Err(_) => {
                let ghost start = *self;
                let i = self.packages.len();
                let name = package.fmri.get_package_name_as_ref_string().clone();
                let stored = Package {
                    fmri: package.fmri,
                    versions: package.versions,
                    component: None,
                    obsolete: package.obsolete,
                    renamed: package.renamed,
                    runtime_dependents: Vec::new(),
                    build_dependents: Vec::new(),
                    test_dependents: Vec::new(),
                    sys_build_dependents: Vec::new(),
                    sys_test_dependents: Vec::new(),
                };
                proof {
                    assert(stored@.runtime_dependents =~= Seq::<RevDependTypeView>::empty());
                    assert(stored@ == unlinked(package@));
                    assert(!start.hash_packages@.contains_key(name@)) by {
                        if start.hash_packages@.contains_key(name@) {
                            let k = start.hash_packages@[name@] as int;
                            assert(start@.packages[k] == start.packages@[k]@);
                            assert(package_at(start@, name@, k));
                        }
                    }
                }
                self.packages.push(stored);
                self.hash_packages.insert(name, i);
                let total = self.packages.len();
                proof {
                    assert(self@.packages.len() == total);
                    assert(self@.packages =~= start@.packages.push(unlinked(package@)));
                    assert(self@.components == start@.components);
                    assert forall|a: int, b: int|
                        0 <= a < self@.packages.len() && 0 <= b < self@.packages.len() && (
                        #[trigger] self@.packages[a]).fmri.name == (
                        #[trigger] self@.packages[b]).fmri.name implies a == b by {
                        if a < i {
                            assert(start@.packages[a] == start.packages@[a]@);
                        }
                        if b < i {
                            assert(start@.packages[b] == start.packages@[b]@);
                        }
                    }
                    assert forall|a: int| 0 <= a < self@.components.len() implies component_links_ok(
                        #[trigger] self@.components[a],
                        self@.packages.len() as int,
                    ) by {
                        assert(component_links_ok(start@.components[a], start@.packages.len() as int));
                    }
                    assert forall|k: Seq<char>| #[trigger]
                        self.hash_packages@.contains_key(k) implies self.hash_packages@[k]
                        < self.packages@.len() && self.packages@[self.hash_packages@[k] as int].fmri@.name
                        == k by {
                        if k != name@ {
                            assert(start.hash_packages@.contains_key(k));
                        }
                    }
                    assert(self@.packages[i as int] == self.packages@[i as int]@);
                }
                i
            },
        }
    }

    /// Looks up one package that the component at handle `c` claims.
    fn claim_package(&mut self, c: usize, fmri: Fmri)
        requires
            old(self).wf(),
            c < old(self)@.components.len(),
        ensures
            final(self).wf(),
            final(self)@ == claim(old(self)@, c as int, fmri@),
            final(self)@.components.len() == old(self)@.components.len(),
            final(self)@.components[c as int].name == old(self)@.components[c as int].name,
    {
        let ghost start = *self;
        proof {
            start.lemma_links();
            assert(start@.components[c as int] == start.components@[c as int]@);
        }
        let component_name = self.components[c].name.clone();
        match self.get_package_by_fmri(&fmri) {
            Err(_) => {
                self.problems.add_problem(Problem::NonExistingPackageInPkg5(fmri, component_name));
                proof {
                    self.lemma_wf_kept(&start);
                }
            },
            Ok(p) => {
                proof {
                    assert(start@.packages[p as int] == start.packages@[p as int]@);
                }
                self.components[c].add_package(p);
                let owner = self.packages[p].set_component(c);
                proof {
                    assert(self@.components =~= start@.components.update(
                        c as int,
                        ComponentView {
                            packages: start@.components[c as int].packages.push(p),
                            ..start@.components[c as int]
                        },
                    ));
                    self.lemma_wf_kept(&start);
                }
                match owner {
                    Some(o) => {
                        proof {
                            assert(start@.components[o as int] == start.components@[o as int]@);
                            assert(self@.packages =~= start@.packages);
                        }
                        let mut names: Vec<String> = Vec::new();
                        names.push(self.components[o].name.clone());
                        names.push(component_name);
                        proof {
                            assert(texts(names@) =~= seq![
                                start@.components[o as int].name,
                                start@.components[c as int].name,
                            ]);
                        }
                        let problem = Problem::PackageInMultipleComponents(
                            self.packages[p].fmri.clone(),
                            names,
                        );
                        let ghost middle = *self;
                        self.problems.add_problem(problem);
                        proof {
                            self.lemma_wf_kept(&middle);
                        }
                    },
                    None => {
                        proof {
                            assert(self@.packages =~= start@.packages.update(
                                p as int,
                                PackageView { component: Some(c), ..start@.packages[p as int] },
                            ));
                        }
                    },
                }
            },
        }
    }

    /// Declares a component and the packages it claims, and returns its
    /// handle. A claimed package that the graph does not know is reported
    /// and skipped; one that already has an owner keeps it, and the conflict
    /// is reported. A second component of one name is an error.
    pub fn new_component(&mut self, component_name: String, packages: Vec<Fmri>) -> (r: Result<usize, String>)
        requires
            old(self).wf(),
        ensures
            final(self).wf(),
            final(self)@ == with_component(old(self)@, component_name@, fmri_views(packages@)),
            match r {
                Ok(c) => component_index(old(self)@, component_name@) is None && c == old(
                    self,
                )@.components.len() && component_at(final(self)@, component_name@, c as int),
                Err(e) => component_index(old(self)@, component_name@) is Some && e@
                    == component_exists_message(component_name@),
            },
    {
        match self.get_component_by_name(&component_name) {
            Ok(_) => {
                let mut message = String::from_str("component ");
                message.append(component_name.as_str());
                message.append(" already exists");
                return Err(message);
            },
            Err(_) => {},
        }
        let ghost start = *self;
        let c = self.components.len();
        proof {
            assert(!start.hash_components@.contains_key(component_name@)) by {
                if start.hash_components@.contains_key(component_name@) {
                    let k = start.hash_components@[component_name@] as int;
                    assert(start@.components[k] == start.components@[k]@);
                    assert(component_at(start@, component_name@, k));
                }
            }
            start.lemma_links();
        }
        self.components.push(Component::new(component_name.clone()));
        self.hash_components.insert(component_name.clone(), c);
        let total = self.components.len();
        let ghost first = GraphView {
            components: start@.components.push(empty_component(component_name@)),
            ..start@
        };
        proof {
            assert(self@.components =~= first.components);
            assert(self@.components.len() == total);
            assert(self@.packages == start@.packages);
            assert forall|a: int, b: int|
                0 <= a < self@.components.len() && 0 <= b < self@.components.len() && (
                #[trigger] self@.components[a]).name == (
                #[trigger] self@.components[b]).name implies a == b by {
                if a < c {
                    assert(start@.components[a] == start.components@[a]@);
                }
                if b < c {
                    assert(start@.components[b] == start.components@[b]@);
                }
            }
            assert forall|a: int| 0 <= a < self@.packages.len() implies package_links_ok(
                #[trigger] self@.packages[a],
                self@.components.len() as int,
            ) by {
                assert(package_links_ok(start@.packages[a], start@.components.len() as int));
            }
            assert forall|a: int| 0 <= a < self@.components.len() implies component_links_ok(
                #[trigger] self@.components[a],
                self@.packages.len() as int,
            ) by {
                if a < c {
                    assert(component_links_ok(start@.components[a], start@.packages.len() as int));
                }
            }
            assert forall|k: Seq<char>| #[trigger]
                self.hash_components@.contains_key(k) implies self.hash_components@[k]
                < self.components@.len() && self.components@[self.hash_components@[k] as int].name@
                == k by {
                if k != component_name@ {
                    assert(start.hash_components@.contains_key(k));
                }
            }
            assert(self.wf());
        }
        let mut j: usize = 0;
        while j < packages.len()
            invariant
                j <= packages.len(),
                self.wf(),
                c < self@.components.len(),
                self@.components.len() == first.components.len(),
                self@.components[c as int].name == component_name@,
                self@ == claimed(first, c as int, fmri_views(packages@), j as int),
            decreases packages.len() - j,
        {
            proof {
                assert(fmri_views(packages@)[j as int] == packages@[j as int]@);
            }
            self.claim_package(c, packages[j].clone());
            j += 1;
        }
        Ok(c)
    }

    /// Takes one declared dependency of a component.
    fn add_repo_dependency(&mut self, component_name: &String, fmri: Fmri, dependency_type: &DependencyTypes) -> (r: Result<(), String>)
        requires
            old(self).wf(),
        ensures
            final(self).wf(),
            final(self)@ == repo_step(old(self)@, component_name@, fmri@, *dependency_type).0,
            match r {
                Ok(_) => repo_step(old(self)@, component_name@, fmri@, *dependency_type).1 is None,
                Err(e) => repo_step(old(self)@, component_name@, fmri@, *dependency_type).1
                    == Some(e@),
            },
    {
        let ghost start = *self;
        proof {
            start.lemma_links();
        }
        let p = match self.get_package_by_fmri(&fmri) {
            Ok(p) => p,
            Err(_) => {
                self.problems.add_problem(
                    Problem::NonExistingRequired(
                        DependTypes::Require(fmri),
                        *dependency_type,
                        Fmri::none(),
                        component_name.clone(),
                    ),
                );
                proof {
                    self.lemma_wf_kept(&start);
                }
                return Ok(());
            },
        };
        let c = match self.get_component_by_name(component_name) {
            Ok(c) => c,
            Err(e) => {
                let mut message = String::from_str("failed to get component: ");
                message.append(e.as_str());
                return Err(message);
            },
        };
        proof {
            assert(start@.packages[p as int] == start.packages@[p as int]@);
            assert(start@.components[c as int] == start.components@[c as int]@);
        }
        match dependency_type {
            DependencyTypes::Build => self.components[c].build.push(p),
            DependencyTypes::Test => self.components[c].test.push(p),
            DependencyTypes::SystemBuild => self.components[c].sys_build.push(p),
            DependencyTypes::SystemTest => self.components[c].sys_test.push(p),
            DependencyTypes::Runtime => {
                return Err(String::from_str("can not insert runtime dependencies into component"));
            },
        }
        let _ = self.packages[p].add_dependent(c, dependency_type);
        proof {
            assert(self@.components =~= start@.components.update(
                c as int,
                with_need(start@.components[c as int], p, *dependency_type),
            ));
            assert(self@.packages =~= start@.packages.update(
                p as int,
                with_dependent(start@.packages[p as int], c, *dependency_type),
            ));
            self.lemma_wf_kept(&start);
        }
        Ok(())
    }

    /// Records the dependencies that a component declares in one of the
    /// component contexts (build, test, system build, system test), on the
    /// component and on each package it needs. A dependency on a package
    /// that the graph does not know is reported as a problem. The work stops
    /// at the first dependency on a known package where the component does
    /// not exist or the context is runtime.
    pub fn add_repo_dependencies(
        &mut self,
        component_name: &String,
        dependencies: Vec<Fmri>,
        dependency_type: &DependencyTypes,
    ) -> (r: Result<(), String>)
        requires
            old(self).wf(),
        ensures
            final(self).wf(),
            final(self)@ == repo_added(
                old(self)@,
                component_name@,
                fmri_views(dependencies@),
                *dependency_type,
                dependencies@.len() as int,
            ).0,
            match r {
                Ok(_) => repo_added(
                    old(self)@,
                    component_name@,
                    fmri_views(dependencies@),
                    *dependency_type,
                    dependencies@.len() as int,
                ).1 is None,
                Err(e) => repo_added(
                    old(self)@,
                    component_name@,
                    fmri_views(dependencies@),
                    *dependency_type,
                    dependencies@.len() as int,
                ).1 == Some(e@),
            },
    {
        let ghost start = self@;
        let ghost all = fmri_views(dependencies@);
        let mut j: usize = 0;
        while j < dependencies.len()
            invariant
                j <= dependencies.len(),
                self.wf(),
                start == old(self)@,
                all == fmri_views(dependencies@),
                repo_added(start, component_name@, all, *dependency_type, j as int) == (
                    self@,
                    None::<Seq<char>>,
                ),
            decreases dependencies.len() - j,
        {
            proof {
                assert(all[j as int] == dependencies@[j as int]@);
            }
            let ghost before = self@;
            let taken = self.add_repo_dependency(
                component_name,
                dependencies[j].clone(),
                dependency_type,
            );
            proof {
                assert(repo_added(start, component_name@, all, *dependency_type, j + 1)
                    == repo_step(before, component_name@, all[j as int], *dependency_type));
            }
            match taken {
                Ok(_) => {},
                Err(e) => {
                    proof {
                        lemma_repo_stopped(
                            start,
                            component_name@,
                            all,
                            *dependency_type,
                            j + 1,
                            dependencies@.len() as int,
                        );
                    }
                    return Err(e);
                },
            }
            j += 1;
        }
        Ok(())
    }

    /// Marks a package obsolete: the releases of the identifier's version, or
    /// the package as a whole where the identifier has no version. What is
    /// marked must not be renamed.
    pub fn set_package_obsolete(&mut self, fmri: Fmri) -> (r: Result<(), String>)
        requires
            old(self).wf(),
            markable_obsolete(old(self)@, fmri@),
        ensures
            final(self).wf(),
            match r {
                Ok(_) => package_index(old(self)@, fmri@.name) matches Some(p) && final(self)@ == (
                GraphView {
                    packages: old(self)@.packages.update(
                        p,
                        marked_obsolete(old(self)@.packages[p], fmri@.version),
                    ),
                    ..old(self)@
                }),
                Err(e) => package_index(old(self)@, fmri@.name) is None && final(self)@ == old(
                    self,
                )@ && e@ == mark_unknown_message(fmri@),
            },
    {
        let ghost start = *self;
        let mut key = fmri.clone();
        key.remove_version();
        let p = match self.get_package_by_fmri(&key) {
            Ok(p) => p,
            Err(e) => {
                let mut message = String::from_str("failed to get package: ");
                message.append(e.as_str());
                return Err(message);
            },
        };
        proof {
            start.lemma_links();
            assert(start@.packages[p as int] == start.packages@[p as int]@);
        }
        match fmri.get_version_ref() {
            None => {
                self.packages[p].set_obsolete(true);
                proof {
                    assert(self@.packages =~= start@.packages.update(
                        p as int,
                        marked_obsolete(start@.packages[p as int], fmri@.version),
                    ));
                }
            },
            Some(version) => {
                let ghost v = version@;
                let mut j: usize = 0;
                while j < self.packages[p as usize].versions.len()
                    invariant
                        p < self.packages@.len(),
                        self.packages@.len() == start.packages@.len(),
                        self.components@ == start.components@,
                        self.hash_packages@ == start.hash_packages@,
                        self.hash_components@ == start.hash_components@,
                        self.problems == start.problems,
                        v == version@,
                        forall|k: int|
                            0 <= k < self.packages@.len() && k != p ==> self.packages@[k]
                                == start.packages@[k],
                        self.packages@[p as int].versions@.len() == start.packages@[p as int].versions@.len(),
                        j <= self.packages@[p as int].versions@.len(),
                        self.packages@[p as int]@ == (PackageView {
                            versions: self.packages@[p as int]@.versions,
                            ..start.packages@[p as int]@
                        }),
                        forall|k: int|
                            0 <= k < j ==> (#[trigger] self.packages@[p as int].versions@[k])@
                                == obsolete_if(start.packages@[p as int].versions@[k]@, v),
                        forall|k: int|
                            j <= k < self.packages@[p as int].versions@.len() ==> (
                            #[trigger] self.packages@[p as int].versions@[k])
                                == start.packages@[p as int].versions@[k],
                    decreases self.packages@[p as int].versions@.len() - j,
                {
                    if self.packages[p].versions[j].version.same(version) {
                        self.packages[p].versions[j].set_obsolete(true);
                    }
                    j += 1;
                }
                proof {
                    assert(self@.packages[p as int].versions =~= start@.packages[p as int].versions.map_values(
                        |x: PackageVersionView| obsolete_if(x, v),
                    ));
                    assert(self@.packages =~= start@.packages.update(
                        p as int,
                        marked_obsolete(start@.packages[p as int], fmri@.version),
                    ));
                }
            },
        }
        proof {
            lemma_marked_obsolete_exclusive(start@.packages[p as int], fmri@.version);
            assert(self@.packages[p as int] == self.packages@[p as int]@);
            assert forall|i: int| 0 <= i < self.packages@.len() implies exclusive(
                (#[trigger] self.packages@[i])@,
            ) by {
                if i != p {
                    assert(self.packages@[i] == start.packages@[i]);
                }
            }
            self.lemma_wf_kept(&start);
        }
        Ok(())
    }

    /// Marks a package renamed: the releases of the identifier's version, or
    /// the package as a whole where the identifier has no version. What is
    /// marked must not be obsolete.
    pub fn set_package_renamed(&mut self, fmri: Fmri) -> (r: Result<(), String>)
        requires
            old(self).wf(),
            markable_renamed(old(self)@, fmri@),
        ensures
            final(self).wf(),
            match r {
                Ok(_) => package_index(old(self)@, fmri@.name) matches Some(p) && final(self)@ == (
                GraphView {
                    packages: old(self)@.packages.update(
                        p,
                        marked_renamed(old(self)@.packages[p], fmri@.version),
                    ),
                    ..old(self)@
                }),
                Err(e) => package_index(old(self)@, fmri@.name) is None && final(self)@ == old(
                    self,
                )@ && e@ == mark_unknown_message(fmri@),
            },
    {
        let ghost start = *self;
        let mut key = fmri.clone();
        key.remove_version();
        let p = match self.get_package_by_fmri(&key) {
            Ok(p) => p,
            Err(e) => {
                let mut message = String::from_str("failed to get package: ");
                message.append(e.as_str());
                return Err(message);
            },
        };
        proof {
            start.lemma_links();
            assert(start@.packages[p as int] == start.packages@[p as int]@);
        }
        match fmri.get_version_ref() {
            None => {
                self.packages[p].set_renamed(true);
                proof {
                    assert(self@.packages =~= start@.packages.update(
                        p as int,
                        marked_renamed(start@.packages[p as int], fmri@.version),
                    ));
                }
            },
            Some(version) => {
                let ghost v = version@;
                let mut j: usize = 0;
                while j < self.packages[p as usize].versions.len()
                    invariant
                        p < self.packages@.len(),
                        self.packages@.len() == start.packages@.len(),
                        self.components@ == start.components@,
                        self.hash_packages@ == start.hash_packages@,
                        self.hash_components@ == start.hash_components@,
                        self.problems == start.problems,
                        v == version@,
                        forall|k: int|
                            0 <= k < self.packages@.len() && k != p ==> self.packages@[k]
                                == start.packages@[k],
                        self.packages@[p as int].versions@.len() == start.packages@[p as int].versions@.len(),
                        j <= self.packages@[p as int].versions@.len(),
                        self.packages@[p as int]@ == (PackageView {
                            versions: self.packages@[p as int]@.versions,
                            ..start.packages@[p as int]@
                        }),
                        forall|k: int|
                            0 <= k < j ==> (#[trigger] self.packages@[p as int].versions@[k])@
                                == renamed_if(start.packages@[p as int].versions@[k]@, v),
                        forall|k: int|
                            j <= k < self.packages@[p as int].versions@.len() ==> (
                            #[trigger] self.packages@[p as int].versions@[k])
                                == start.packages@[p as int].versions@[k],
                    decreases self.packages@[p as int].versions@.len() - j,
                {
                    if self.packages[p].versions[j].version.same(version) {
                        self.packages[p].versions[j].set_renamed(true);
                    }
                    j += 1;
                }
                proof {
                    assert(self@.packages[p as int].versions =~= start@.packages[p as int].versions.map_values(
                        |x: PackageVersionView| renamed_if(x, v),
                    ));
                    assert(self@.packages =~= start@.packages.update(
                        p as int,
                        marked_renamed(start@.packages[p as int], fmri@.version),
                    ));
                }
            },
        }
        proof {
            lemma_marked_renamed_exclusive(start@.packages[p as int], fmri@.version);
            assert(self@.packages[p as int] == self.packages@[p as int]@);
            assert forall|i: int| 0 <= i < self.packages@.len() implies exclusive(
                (#[trigger] self.packages@[i])@,
            ) by {
                if i != p {
                    assert(self.packages@[i] == start.packages@[i]);
                }
            }
            self.lemma_wf_kept(&start);
        }
        Ok(())
    }

    /// Collapses every package to its active release: the newest that is
    /// neither obsolete nor renamed, or the newest of all where every
    /// release is stale.
    pub fn remove_old_versions(&mut self)
        requires
            old(self).wf(),
        ensures
            final(self).wf(),
            final(self)@ == (GraphView {
                packages: old(self)@.packages.map_values(|p: PackageView| collapsed(p)),
                ..old(self)@
            }),
    {
        let ghost start = *self;
        let mut i: usize = 0;
        proof {
            start.lemma_links();
        }
        while i < self.packages.len()
            invariant
                i <= self.packages@.len(),
                self.packages@.len() == start.packages@.len(),
                self.components@ == start.components@,
                self.hash_packages@ == start.hash_packages@,
                self.hash_components@ == start.hash_components@,
                self.problems == start.problems,
                forall|k: int| 0 <= k < i ==> (#[trigger] self.packages@[k])@ == collapsed(start.packages@[k]@),
                forall|k: int| i <= k < self.packages@.len() ==> (#[trigger] self.packages@[k]) == start.packages@[k],
            decreases self.packages@.len() - i,
        {
            self.packages[i].remove_old_versions();
            i += 1;
        }
        proof {
            assert(self@.packages =~= start@.packages.map_values(|p: PackageView| collapsed(p)));
            assert forall|i: int| 0 <= i < self.packages@.len() implies exclusive(
                (#[trigger] self.packages@[i])@,
            ) by {
                lemma_collapsed_exclusive(start.packages@[i]@);
            }
            self.lemma_wf_kept(&start);
        }
    }

    /// Hands a problem to the graph's list of problems.
    pub fn report(&mut self, problem: Problem)
        requires
            old(self).wf(),
        ensures
            final(self).wf(),
            final(self)@ == (GraphView {
                problems: added(old(self)@.problems, problem@),
                ..old(self)@
            }),
    {
        let ghost start = *self;
        self.problems.add_problem(problem);
        proof {
            start.lemma_links();
            self.lemma_wf_kept(&start);
        }
    }

    /// Hands a sequence of problems to the graph's list, one by one.
    pub fn report_all(&mut self, found: Vec<Problem>)
        requires
            old(self).wf(),
        ensures
            final(self).wf(),
            final(self)@ == (GraphView {
                problems: added_all(old(self)@.problems, problem_views(found@)),
                ..old(self)@
            }),
    {
        let ghost start = self@;
        let ghost all = problem_views(found@);
        let mut i: usize = 0;
        while i < found.len()
            invariant
                i <= found.len(),
                self.wf(),
                all == problem_views(found@),
                self@ == (GraphView {
                    problems: added_all(start.problems, all.take(i as int)),
                    ..start
                }),
            decreases found.len() - i,
        {
            proof {
                assert(all.take(i + 1).drop_last() =~= all.take(i as int));
                assert(all.take(i + 1).last() == found@[i as int]@);
            }
            self.report(found[i].clone());
            i += 1;
        }
        proof {
            assert(all.take(found@.len() as int) =~= all);
        }
    }

    /// Replaces the reverse runtime dependencies of every package.
    pub(crate) fn install_runtime_dependents(&mut self, lists: Vec<Vec<RevDependType>>)
        requires
            old(self).wf(),
            lists@.len() == old(self)@.packages.len(),
        ensures
            final(self).wf(),
            final(self)@ == with_runtime_dependents(old(self)@, rev_depend_lists(lists@)),
    {
        let ghost start = *self;
        let ghost all = rev_depend_lists(lists@);
        let mut lists = lists;
        let mut i: usize = self.packages.len();
        proof {
            start.lemma_links();
        }
        while i > 0
            invariant
                i <= self.packages@.len(),
                lists@.len() == i,
                self.packages@.len() == start.packages@.len(),
                self.components@ == start.components@,
                self.hash_packages@ == start.hash_packages@,
                self.hash_components@ == start.hash_components@,
                self.problems == start.problems,
                all.len() == start.packages@.len(),
                forall|k: int| 0 <= k < i ==> rev_depend_views((#[trigger] lists@[k])@) == all[k],
                forall|k: int| 0 <= k < i ==> (#[trigger] self.packages@[k]) == start.packages@[k],
                forall|k: int|
                    i <= k < self.packages@.len() ==> (#[trigger] self.packages@[k])@ == (PackageView {
                        runtime_dependents: all[k],
                        ..start.packages@[k]@
                    }),
            decreases i,
        {
            i -= 1;
            match lists.pop() {
                Some(list) => {
                    self.packages[i].runtime_dependents = list;
                },
                None => {},
            }
        }
        proof {
            assert(self@.packages =~= with_runtime_dependents(start@, all).packages);
            self.lemma_wf_kept(&start);
        }
    }

    /// Whether the graph knows the package that an identifier names.
    pub fn is_known_package(&self, fmri: &Fmri) -> (r: bool)
        requires
            self.wf(),
        ensures
            r == package_index(self@, fmri@.name).is_some(),
    {
        match self.get_package_by_fmri(fmri) {
            Ok(_) => true,
            Err(_) => false,
        }
    }

    /// Whether the graph knows the package that an identifier names, and
    /// knows it as obsolete.
    pub fn is_obsoleted(&self, fmri: &Fmri) -> (r: bool)
        requires
            self.wf(),
        ensures
            r == known_obsolete(self@, fmri@.name),
    {
        match self.get_package_by_fmri(fmri) {
            Ok(p) => {
                proof {
                    assert(self@.packages[p as int] == self.packages@[p as int]@);
                }
                self.packages[p].is_obsolete()
            },
            Err(_) => false,
        }
    }

    /// Whether the graph knows the package that an identifier names, and
    /// knows it as renamed.
    pub fn is_renamed(&self, fmri: &Fmri) -> (r: bool)
        requires
            self.wf(),
        ensures
            r == known_renamed(self@, fmri@.name),
    {
        match self.get_package_by_fmri(fmri) {
            Ok(p) => {
                proof {
                    assert(self@.packages[p as int] == self.packages@[p as int]@);
                }
                self.packages[p].is_renamed()
            },
            Err(_) => false,
        }
    }

    /// The name of the component that owns the package that an identifier
    /// names.
    pub fn owner_of(&self, fmri: &Fmri) -> (r: Option<&String>)
        requires
            self.wf(),
        ensures
            match r {
                Some(name) => owner_name(self@, fmri@.name) == Some(name@),
                None => owner_name(self@, fmri@.name) is None,
            },
    {
        match self.get_package_by_fmri(fmri) {
            Ok(p) => {
                proof {
                    self.lemma_links();
                    assert(self@.packages[p as int] == self.packages@[p as int]@);
                }
                match self.packages[p].component {
                    Some(c) => {
                        proof {
                            assert(self@.components[c as int] == self.components@[c as int]@);
                        }
                        Some(&self.components[c].name)
                    },
                    None => None,
                }
            },
            Err(_) => None,
        }
    }

    /// Appends the components of a list of handles as dependents.
    fn component_dependents_into(&self, out: &mut Vec<Dependent>, handles: &Vec<usize>, t: DependencyTypes)
        requires
            self.wf(),
            handles_below(handles@, self@.components.len() as int),
        ensures
            dependent_views(final(out)@) == dependent_views(old(out)@) + component_dependents(
                self@,
                handles@,
                t,
            ),
    {
        let ghost start = dependent_views(out@);
        let ghost all = component_dependents(self@, handles@, t);
        let mut j: usize = 0;
        proof {
            assert(start + all.take(0) =~= start);
        }
        while j < handles.len()
            invariant
                j <= handles.len(),
                self.wf(),
                handles_below(handles@, self@.components.len() as int),
                all == component_dependents(self@, handles@, t),
                dependent_views(out@) == start + all.take(j as int),
            decreases handles.len() - j,
        {
            let c = handles[j];
            proof {
                assert(handles@[j as int] < self@.components.len());
                assert(self@.components[c as int] == self.components@[c as int]@);
            }
            let ghost before = out@;
            out.push(Dependent::Component(self.components[c].name.clone(), t));
            proof {
                assert(dependent_views(out@) =~= dependent_views(before).push(all[j as int]));
                assert(start + all.take(j + 1) =~= (start + all.take(j as int)).push(all[j as int]));
            }
            j += 1;
        }
        proof {
            assert(all.take(handles@.len() as int) =~= all);
        }
    }

    /// Everybody who depends on the package that an identifier names. An
    /// identifier of a package that the graph does not know is an error.
    pub fn dependents_of(&self, fmri: &Fmri) -> (r: Result<Vec<Dependent>, String>)
        requires
            self.wf(),
        ensures
            match r {
                Ok(l) => package_index(self@, fmri@.name) matches Some(p) && dependent_views(l@)
                    == dependents(self@, self@.packages[p]),
                Err(e) => package_index(self@, fmri@.name) is None && e@ == no_package_message(
                    fmri@,
                ),
            },
    {
        let p = match self.get_package_by_fmri(fmri) {
            Ok(p) => p,
            Err(e) => {
                return Err(e);
            },
        };
        proof {
            self.lemma_links();
            assert(self@.packages[p as int] == self.packages@[p as int]@);
        }
        let package = &self.packages[p];
        let mut out: Vec<Dependent> = Vec::new();
        let ghost first = package@.runtime_dependents.map_values(
            |r: RevDependTypeView| DependentView::Package(r),
        );
        let mut j: usize = 0;
        proof {
            assert(dependent_views(out@) =~= first.take(0));
        }
        while j < package.runtime_dependents.len()
            invariant
                j <= package.runtime_dependents.len(),
                first == package@.runtime_dependents.map_values(
                    |r: RevDependTypeView| DependentView::Package(r),
                ),
                dependent_views(out@) == first.take(j as int),
            decreases package.runtime_dependents.len() - j,
        {
            let ghost before = out@;
            proof {
                assert(package@.runtime_dependents[j as int] == package.runtime_dependents@[j as int]@);
            }
            out.push(Dependent::Package(package.runtime_dependents[j].clone()));
            proof {
                assert(dependent_views(out@) =~= dependent_views(before).push(first[j as int]));
                assert(first.take(j + 1) =~= first.take(j as int).push(first[j as int]));
            }
            j += 1;
        }
        proof {
            assert(first.take(package@.runtime_dependents.len() as int) =~= first);
        }
        self.component_dependents_into(&mut out, &package.build_dependents, DependencyTypes::Build);
        self.component_dependents_into(
            &mut out,
            &package.sys_build_dependents,
            DependencyTypes::SystemBuild,
        );
        self.component_dependents_into(&mut out, &package.test_dependents, DependencyTypes::Test);
        self.component_dependents_into(
            &mut out,
            &package.sys_test_dependents,
            DependencyTypes::SystemTest,
        );
        Ok(out)
    }

    /// Whether every handle of a list is below `n`.
    fn handles_in_range(handles: &Vec<usize>, n: usize) -> (r: bool)
        ensures
            r == handles_below(handles@, n as int),
    {
        let mut i: usize = 0;
        while i < handles.len()
            invariant
                i <= handles.len(),
                forall|j: int| 0 <= j < i ==> (#[trigger] handles@[j]) < n,
            decreases handles.len() - i,
        {
            if handles[i] >= n {
                return false;
            }
            i += 1;
        }
        true
    }

    /// Whether every handle that a package holds names a component.
    fn package_in_range(package: &Package, n: usize) -> (r: bool)
        ensures
            r == package_links_ok(package@, n as int),
    {
        let owner = match package.component {
            Some(c) => c < n,
            None => true,
        };
        owner && Components::handles_in_range(&package.build_dependents, n)
            && Components::handles_in_range(&package.test_dependents, n)
            && Components::handles_in_range(&package.sys_build_dependents, n)
            && Components::handles_in_range(&package.sys_test_dependents, n)
    }

    /// Whether every handle that a component holds names a package.
    fn component_in_range(component: &Component, n: usize) -> (r: bool)
        ensures
            r == component_links_ok(component@, n as int),
    {
        Components::handles_in_range(&component.packages, n) && Components::handles_in_range(
            &component.build,
            n,
        ) && Components::handles_in_range(&component.test, n) && Components::handles_in_range(
            &component.sys_build,
            n,
        ) && Components::handles_in_range(&component.sys_test, n)
    }

    /// Makes a graph of two tables and a list of problems. Tables that are
    /// not a well-formed graph (a name that stands twice, a handle out of
    /// range, a package that is both obsolete and renamed) are an error.
    pub fn from_tables(components: Vec<Component>, packages: Vec<Package>, problems: Problems) -> (r: Result<Components, String>)
        ensures
            match r {
                Ok(c) => c.wf() && c@ == (GraphView {
                    components: component_views(components@),
                    packages: package_views(packages@),
                    problems: problems@,
                }),
                Err(_) => !graph_wf(
                    GraphView {
                        components: component_views(components@),
                        packages: package_views(packages@),
                        problems: problems@,
                    },
                ),
            },
    {
        let ghost g = GraphView {
            components: component_views(components@),
            packages: package_views(packages@),
            problems: problems@,
        };
        let mut hash_packages: StringHashMap<usize> = StringHashMap::new();
        let mut i: usize = 0;
        while i < packages.len()
            invariant
                i <= packages.len(),
                g.packages == package_views(packages@),
                forall|a: int|
                    0 <= a < i ==> hash_packages@.contains_key((#[trigger] packages@[a]).fmri@.name)
                        && hash_packages@[packages@[a].fmri@.name] == a,
                forall|k: Seq<char>| #[trigger]
                    hash_packages@.contains_key(k) ==> hash_packages@[k] < i
                        && packages@[hash_packages@[k] as int].fmri@.name == k,
                forall|a: int|
                    0 <= a < i ==> package_links_ok(
                        (#[trigger] packages@[a])@,
                        components@.len() as int,
                    ) && exclusive(packages@[a]@),
            decreases packages.len() - i,
        {
            let name = packages[i].fmri.get_package_name_as_ref_string();
            if hash_packages.contains_key(name.as_str()) {
                proof {
                    let a = hash_packages@[name@] as int;
                    assert(g.packages[a] == packages@[a]@);
                    assert(g.packages[i as int] == packages@[i as int]@);
                    assert(g.packages[a].fmri.name == g.packages[i as int].fmri.name);
                }
                return Err(String::from_str("a package name stands twice"));
            }
            if !Components::package_in_range(&packages[i], components.len()) {
                proof {
                    assert(g.packages[i as int] == packages@[i as int]@);
                }
                return Err(String::from_str("a package names a component that is not there"));
            }
            if !packages[i].is_exclusive() {
                proof {
                    assert(g.packages[i as int] == packages@[i as int]@);
                }
                return Err(String::from_str("a package is both obsolete and renamed"));
            }
            hash_packages.insert(name.clone(), i);
            i += 1;
        }
        let mut hash_components: StringHashMap<usize> = StringHashMap::new();
        let mut j: usize = 0;
        while j < components.len()
            invariant
                j <= components.len(),
                g.components == component_views(components@),
                forall|a: int|
                    0 <= a < j ==> hash_components@.contains_key((#[trigger] components@[a]).name@)
                        && hash_components@[components@[a].name@] == a,
                forall|k: Seq<char>| #[trigger]
                    hash_components@.contains_key(k) ==> hash_components@[k] < j
                        && components@[hash_components@[k] as int].name@ == k,
                forall|a: int|
                    0 <= a < j ==> component_links_ok(
                        (#[trigger] components@[a])@,
                        packages@.len() as int,
                    ),
                forall|a: int|
                    0 <= a < packages@.len() ==> hash_packages@.contains_key(
                        (#[trigger] packages@[a]).fmri@.name,
                    ) && hash_packages@[packages@[a].fmri@.name] == a,
                forall|k: Seq<char>| #[trigger]
                    hash_packages@.contains_key(k) ==> hash_packages@[k] < packages@.len()
                        && packages@[hash_packages@[k] as int].fmri@.name == k,
                forall|a: int|
                    0 <= a < packages@.len() ==> package_links_ok(
                        (#[trigger] packages@[a])@,
                        components@.len() as int,
                    ) && exclusive(packages@[a]@),
            decreases components.len() - j,
        {
            let name = &components[j].name;
            if hash_components.contains_key(name.as_str()) {
                proof {
                    let a = hash_components@[name@] as int;
                    assert(g.components[a] == components@[a]@);
                    assert(g.components[j as int] == components@[j as int]@);
                    assert(g.components[a].name == g.components[j as int].name);
                }
                return Err(String::from_str("a component name stands twice"));
            }
            if !Components::component_in_range(&components[j], packages.len()) {
                proof {
                    assert(g.components[j as int] == components@[j as int]@);
                }
                return Err(String::from_str("a component names a package that is not there"));
            }
            hash_components.insert(name.clone(), j);
            j += 1;
        }
        let r = Components { components, hash_components, packages, hash_packages, problems };
        proof {
            assert(r@ == g);
            assert forall|a: int| 0 <= a < g.packages.len() implies package_links_ok(
                #[trigger] g.packages[a],
                g.components.len() as int,
            ) && exclusive(g.packages[a]) by {
                assert(g.packages[a] == r.packages@[a]@);
            }
            assert forall|a: int| 0 <= a < g.components.len() implies component_links_ok(
                #[trigger] g.components[a],
                g.packages.len() as int,
            ) by {
                assert(g.components[a] == r.components@[a]@);
            }
            assert forall|a: int, b: int|
                0 <= a < g.packages.len() && 0 <= b < g.packages.len() && (
                #[trigger] g.packages[a]).fmri.name == (#[trigger] g.packages[b]).fmri.name implies a
                == b by {
                assert(g.packages[a] == r.packages@[a]@);
                assert(g.packages[b] == r.packages@[b]@);
            }
            assert forall|a: int, b: int|
                0 <= a < g.components.len() && 0 <= b < g.components.len() && (
                #[trigger] g.components[a]).name == (#[trigger] g.components[b]).name implies a
                == b by {
                assert(g.components[a] == r.components@[a]@);
                assert(g.components[b] == r.components@[b]@);
            }
        }
        Ok(r)
    }

    /// Whether the package that an identifier names, if the graph knows it,
    /// can be marked obsolete: what would be marked is not renamed.
    pub fn can_set_package_obsolete(&self, fmri: &Fmri) -> (r: bool)
        requires
            self.wf(),
        ensures
            r == markable_obsolete(self@, fmri@),
    {
        let p = match self.get_package_by_fmri(fmri) {
            Ok(p) => p,
            Err(_) => {
                return true;
            },
        };
        proof {
            assert(self@.packages[p as int] == self.packages@[p as int]@);
        }
        let package = &self.packages[p];
        match fmri.get_version_ref() {
            None => !package.is_renamed(),
            Some(version) => {
                let mut j: usize = 0;
                while j < package.versions.len()
                    invariant
                        j <= package.versions.len(),
                        package_index(self@, fmri@.name) == Some(p as int),
                        self@.packages[p as int] == package@,
                        fmri@.version == Some(version@),
                        forall|k: int|
                            0 <= k < j && (#[trigger] package@.versions[k]).version == version@
                                ==> !package@.versions[k].renamed,
                    decreases package.versions.len() - j,
                {
                    proof {
                        assert(package@.versions[j as int] == package.versions@[j as int]@);
                    }
                    if package.versions[j].version.same(version) && package.versions[j].is_renamed() {
                        proof {
                            assert(package@.versions[j as int].version == version@);
                        }
                        return false;
                    }
                    j += 1;
                }
                true
            },
        }
    }

    /// Whether the package that an identifier names, if the graph knows it,
    /// can be marked renamed: what would be marked is not obsolete.
    pub fn can_set_package_renamed(&self, fmri: &Fmri) -> (r: bool)
        requires
            self.wf(),
        ensures
            r == markable_renamed(self@, fmri@),
    {
        let p = match self.get_package_by_fmri(fmri) {
            Ok(p) => p,
            Err(_) => {
                return true;
            },
        };
        proof {
            assert(self@.packages[p as int] == self.packages@[p as int]@);
        }
        let package = &self.packages[p];
        match fmri.get_version_ref() {
            None => !package.is_obsolete(),
            Some(version) => {
                let mut j: usize = 0;
                while j < package.versions.len()
                    invariant
                        j <= package.versions.len(),
                        package_index(self@, fmri@.name) == Some(p as int),
                        self@.packages[p as int] == package@,
                        fmri@.version == Some(version@),
                        forall|k: int|
                            0 <= k < j && (#[trigger] package@.versions[k]).version == version@
                                ==> !package@.versions[k].obsolete,
                    decreases package.versions.len() - j,
                {
                    proof {
                        assert(package@.versions[j as int] == package.versions@[j as int]@);
                    }
                    if package.versions[j].version.same(version) && package.versions[j].is_obsolete() {
                        proof {
                            assert(package@.versions[j as int].version == version@);
                        }
                        return false;
                    }
                    j += 1;
                }
                true
            },
        }
    }
}

} // verus!
