//! The snapshot of a graph: the same packages and components, with every
//! edge written as the name of what it leads to. A snapshot is what is kept
//! between runs.

use vstd::prelude::*;
use vstd::string::*;
use vstd::hash_map::StringHashMap;
use crate::identifier::{Fmri, FmriView};
use crate::packages::components::{Components as OrgComponents, Component as OrgComponent,
    ComponentView, GraphView, graph_wf, package_views, component_views, package_links_ok,
    component_links_ok, handles_below};
use crate::packages::depend_types::fmri_views;
use crate::packages::package::{Package as OrgPackage, PackageView, PackageVersion,
    PackageVersionView, version_views, rev_depend_views, clone_versions, clone_rev_depends,
    exclusive};
use crate::packages::rev_depend_type::{RevDependType, RevDependTypeView};
use crate::problems::{Problems, ProblemView};
use crate::text::texts;

verus! {

/// A component of a snapshot.
#[derive(Debug, PartialEq, Eq)]
pub struct Component {
    pub name: String,
    pub packages: Vec<Fmri>,
    pub build: Vec<Fmri>,
    pub test: Vec<Fmri>,
    pub sys_build: Vec<Fmri>,
    pub sys_test: Vec<Fmri>,
}

/// The mathematical content of a component of a snapshot.
pub struct ComponentRecord {
    pub name: Seq<char>,
    pub packages: Seq<FmriView>,
    pub build: Seq<FmriView>,
    pub test: Seq<FmriView>,
    pub sys_build: Seq<FmriView>,
    pub sys_test: Seq<FmriView>,
}

impl View for Component {
    type V = ComponentRecord;

    open spec fn view(&self) -> ComponentRecord {
        ComponentRecord {
            name: self.name@,
            packages: fmri_views(self.packages@),
            build: fmri_views(self.build@),
            test: fmri_views(self.test@),
            sys_build: fmri_views(self.sys_build@),
            sys_test: fmri_views(self.sys_test@),
        }
    }
}

/// A package of a snapshot.
#[derive(Debug, PartialEq, Eq)]
pub struct Package {
    pub fmri: Fmri,
    pub versions: Vec<PackageVersion>,
    pub component: Option<String>,
    pub obsolete: bool,
    pub renamed: bool,
    pub runtime_dependents: Vec<RevDependType>,
    pub build_dependents: Vec<String>,
    pub test_dependents: Vec<String>,
    pub sys_build_dependents: Vec<String>,
    pub sys_test_dependents: Vec<String>,
}

/// The mathematical content of a package of a snapshot.
pub struct PackageRecord {
    pub fmri: FmriView,
    pub versions: Seq<PackageVersionView>,
    pub component: Option<Seq<char>>,
    pub obsolete: bool,
    pub renamed: bool,
    pub runtime_dependents: Seq<RevDependTypeView>,
    pub build_dependents: Seq<Seq<char>>,
    pub test_dependents: Seq<Seq<char>>,
    pub sys_build_dependents: Seq<Seq<char>>,
    pub sys_test_dependents: Seq<Seq<char>>,
}

impl View for Package {
    type V = PackageRecord;

    open spec fn view(&self) -> PackageRecord {
        PackageRecord {
            fmri: self.fmri@,
            versions: version_views(self.versions@),
            component: match self.component {
                Some(name) => Some(name@),
                None => None,
            },
            obsolete: self.obsolete,
            renamed: self.renamed,
            runtime_dependents: rev_depend_views(self.runtime_dependents@),
            build_dependents: texts(self.build_dependents@),
            test_dependents: texts(self.test_dependents@),
            sys_build_dependents: texts(self.sys_build_dependents@),
            sys_test_dependents: texts(self.sys_test_dependents@),
        }
    }
}

/// A snapshot of a graph.
#[derive(Debug, PartialEq, Eq)]
pub struct Components {
    pub components: Vec<Component>,
    pub packages: Vec<Package>,
    pub problems: Problems,
}

/// The mathematical content of a snapshot.
pub struct Snapshot {
    pub components: Seq<ComponentRecord>,
    pub packages: Seq<PackageRecord>,
    pub problems: Seq<ProblemView>,
}

/// The components of a list of a snapshot, as mathematical values.
pub open spec fn component_records(s: Seq<Component>) -> Seq<ComponentRecord> {
    s.map_values(|c: Component| c@)
}

/// The packages of a list of a snapshot, as mathematical values.
pub open spec fn package_records(s: Seq<Package>) -> Seq<PackageRecord> {
    s.map_values(|p: Package| p@)
}

impl View for Components {
    type V = Snapshot;

    open spec fn view(&self) -> Snapshot {
        Snapshot {
            components: component_records(self.components@),
            packages: package_records(self.packages@),
            problems: self.problems@,
        }
    }
}

/// The names of the components at a list of handles.
pub open spec fn names_at(g: GraphView, handles: Seq<usize>) -> Seq<Seq<char>> {
    handles.map_values(|c: usize| g.components[c as int].name)
}

/// The identifiers of the packages at a list of handles.
pub open spec fn fmris_at(g: GraphView, handles: Seq<usize>) -> Seq<FmriView> {
    handles.map_values(|p: usize| g.packages[p as int].fmri)
}

/// A package as a snapshot holds it.
pub open spec fn package_record(g: GraphView, p: PackageView) -> PackageRecord {
    PackageRecord {
        fmri: p.fmri,
        versions: p.versions,
        component: match p.component {
            Some(c) => Some(g.components[c as int].name),
            None => None,
        },
        obsolete: p.obsolete,
        renamed: p.renamed,
        runtime_dependents: p.runtime_dependents,
        build_dependents: names_at(g, p.build_dependents),
        test_dependents: names_at(g, p.test_dependents),
        sys_build_dependents: names_at(g, p.sys_build_dependents),
        sys_test_dependents: names_at(g, p.sys_test_dependents),
    }
}

/// A component as a snapshot holds it.
pub open spec fn component_record(g: GraphView, c: ComponentView) -> ComponentRecord {
    ComponentRecord {
        name: c.name,
        packages: fmris_at(g, c.packages),
        build: fmris_at(g, c.build),
        test: fmris_at(g, c.test),
        sys_build: fmris_at(g, c.sys_build),
        sys_test: fmris_at(g, c.sys_test),
    }
}

/// The snapshot of a graph.
pub open spec fn snapshot_of(g: GraphView) -> Snapshot {
    Snapshot {
        components: g.components.map_values(|c: ComponentView| component_record(g, c)),
        packages: g.packages.map_values(|p: PackageView| package_record(g, p)),
        problems: g.problems,
    }
}

/// The names of the packages of a snapshot.
pub open spec fn package_names(s: Snapshot) -> Seq<Seq<char>> {
    s.packages.map_values(|p: PackageRecord| p.fmri.name)
}

/// The names of the components of a snapshot.
pub open spec fn component_names(s: Snapshot) -> Seq<Seq<char>> {
    s.components.map_values(|c: ComponentRecord| c.name)
}

/// The package names of a list of identifiers.
pub open spec fn names_of(l: Seq<FmriView>) -> Seq<Seq<char>> {
    l.map_values(|f: FmriView| f.name)
}

/// No name stands twice in the list.
pub open spec fn unique(names: Seq<Seq<char>>) -> bool {
    forall|i: int, j: int|
        0 <= i < names.len() && 0 <= j < names.len() && #[trigger] names[i] == #[trigger] names[j]
            ==> i == j
}

/// Every name of `refs` stands in `names`.
pub open spec fn all_known(names: Seq<Seq<char>>, refs: Seq<Seq<char>>) -> bool {
    forall|k: int| 0 <= k < refs.len() ==> names.contains(#[trigger] refs[k])
}

/// The handles stand for the names: handle by handle, the name at the
/// handle is the name referred to.
pub open spec fn named_by(names: Seq<Seq<char>>, handles: Seq<usize>, refs: Seq<Seq<char>>) -> bool {
    handles.len() == refs.len() && forall|k: int|
        0 <= k < handles.len() ==> (#[trigger] handles[k]) < names.len() && names[handles[k] as int]
            == refs[k]
}

/// Every name that a package of a snapshot refers to is the name of a
/// component of the snapshot, and neither the package nor any of its
/// releases is both obsolete and renamed.
pub open spec fn package_resolvable(names: Seq<Seq<char>>, p: PackageRecord) -> bool {
    &&& !(p.obsolete && p.renamed)
    &&& forall|j: int|
        0 <= j < p.versions.len() ==> !((#[trigger] p.versions[j]).obsolete && p.versions[j].renamed)
    &&& p.component matches Some(n) ==> names.contains(n)
    &&& all_known(names, p.build_dependents)
    &&& all_known(names, p.test_dependents)
    &&& all_known(names, p.sys_build_dependents)
    &&& all_known(names, p.sys_test_dependents)
}

/// Every identifier that a component of a snapshot refers to names a package
/// of the snapshot.
pub open spec fn component_resolvable(names: Seq<Seq<char>>, c: ComponentRecord) -> bool {
    &&& all_known(names, names_of(c.packages))
    &&& all_known(names, names_of(c.build))
    &&& all_known(names, names_of(c.test))
    &&& all_known(names, names_of(c.sys_build))
    &&& all_known(names, names_of(c.sys_test))
}

/// A snapshot can be made a graph: no name stands twice, every name that is
/// referred to is there, and nothing is both obsolete and renamed.
pub open spec fn resolvable(s: Snapshot) -> bool {
    &&& unique(package_names(s))
    &&& unique(component_names(s))
    &&& forall|i: int|
        0 <= i < s.packages.len() ==> package_resolvable(component_names(s), #[trigger] s.packages[i])
    &&& forall|j: int|
        0 <= j < s.components.len() ==> component_resolvable(
            package_names(s),
            #[trigger] s.components[j],
        )
}

/// A package of a graph agrees with a package of a snapshot: the same
/// content, and every handle leads to the component that the snapshot names.
pub open spec fn package_agrees(names: Seq<Seq<char>>, p: PackageView, r: PackageRecord) -> bool {
    &&& p.fmri == r.fmri
    &&& p.versions == r.versions
    &&& p.obsolete == r.obsolete
    &&& p.renamed == r.renamed
    &&& p.runtime_dependents == r.runtime_dependents
    &&& match (p.component, r.component) {
        (Some(c), Some(n)) => c < names.len() && names[c as int] == n,
        (None, None) => true,
        _ => false,
    }
    &&& named_by(names, p.build_dependents, r.build_dependents)
    &&& named_by(names, p.test_dependents, r.test_dependents)
    &&& named_by(names, p.sys_build_dependents, r.sys_build_dependents)
    &&& named_by(names, p.sys_test_dependents, r.sys_test_dependents)
}

/// A component of a graph agrees with a component of a snapshot: the same
/// name, and every handle leads to the package that the snapshot names.
pub open spec fn component_agrees(names: Seq<Seq<char>>, c: ComponentView, r: ComponentRecord) -> bool {
    &&& c.name == r.name
    &&& named_by(names, c.packages, names_of(r.packages))
    &&& named_by(names, c.build, names_of(r.build))
    &&& named_by(names, c.test, names_of(r.test))
    &&& named_by(names, c.sys_build, names_of(r.sys_build))
    &&& named_by(names, c.sys_test, names_of(r.sys_test))
}

/// A graph agrees with a snapshot: the same packages and components in the
/// same order, the same problems, and every edge of the graph leads to what
/// the snapshot names.
pub open spec fn agrees(g: GraphView, s: Snapshot) -> bool {
    &&& g.problems == s.problems
    &&& g.packages.len() == s.packages.len()
    &&& g.components.len() == s.components.len()
    &&& forall|i: int|
        0 <= i < g.packages.len() ==> package_agrees(
            component_names(s),
            #[trigger] g.packages[i],
            s.packages[i],
        )
    &&& forall|j: int|
        0 <= j < g.components.len() ==> component_agrees(
            package_names(s),
            #[trigger] g.components[j],
            s.components[j],
        )
}

/// The names of the components at handles in range are names of the graph,
/// and the handles stand for them.
proof fn lemma_names_at(g: GraphView, handles: Seq<usize>)
    requires
        handles_below(handles, g.components.len() as int),
    ensures
        all_known(component_names(snapshot_of(g)), names_at(g, handles)),
        named_by(component_names(snapshot_of(g)), handles, names_at(g, handles)),
{
    let names = component_names(snapshot_of(g));
    let refs = names_at(g, handles);
    assert forall|k: int| 0 <= k < refs.len() implies names.contains(#[trigger] refs[k]) by {
        assert(handles[k] < g.components.len());
        assert(names[handles[k] as int] == refs[k]);
    }
    assert forall|k: int| 0 <= k < handles.len() implies (#[trigger] handles[k]) < names.len()
        && names[handles[k] as int] == refs[k] by {
        assert(handles[k] < g.components.len());
    }
}

/// The same for the packages at handles in range.
proof fn lemma_fmris_at(g: GraphView, handles: Seq<usize>)
    requires
        handles_below(handles, g.packages.len() as int),
    ensures
        all_known(package_names(snapshot_of(g)), names_of(fmris_at(g, handles))),
        named_by(package_names(snapshot_of(g)), handles, names_of(fmris_at(g, handles))),
{
    let names = package_names(snapshot_of(g));
    let refs = names_of(fmris_at(g, handles));
    assert forall|k: int| 0 <= k < refs.len() implies names.contains(#[trigger] refs[k]) by {
        assert(handles[k] < g.packages.len());
        assert(names[handles[k] as int] == refs[k]);
    }
    assert forall|k: int| 0 <= k < handles.len() implies (#[trigger] handles[k]) < names.len()
        && names[handles[k] as int] == refs[k] by {
        assert(handles[k] < g.packages.len());
    }
}

/// The snapshot of a well-formed graph can be made a graph again, and the
/// graph agrees with it.
pub proof fn lemma_snapshot_agrees(g: GraphView)
    requires
        graph_wf(g),
    ensures
        resolvable(snapshot_of(g)),
        agrees(g, snapshot_of(g)),
{
    let s = snapshot_of(g);
    let pn = package_names(s);
    let cn = component_names(s);
    assert forall|i: int, j: int|
        0 <= i < pn.len() && 0 <= j < pn.len() && #[trigger] pn[i] == #[trigger] pn[j] implies i
        == j by {
        assert(g.packages[i].fmri.name == g.packages[j].fmri.name);
    }
    assert forall|i: int, j: int|
        0 <= i < cn.len() && 0 <= j < cn.len() && #[trigger] cn[i] == #[trigger] cn[j] implies i
        == j by {
        assert(g.components[i].name == g.components[j].name);
    }
    assert forall|i: int| 0 <= i < s.packages.len() implies package_resolvable(
        cn,
        #[trigger] s.packages[i],
    ) && package_agrees(cn, g.packages[i], s.packages[i]) by {
        let p = g.packages[i];
        assert(package_links_ok(p, g.components.len() as int));
        assert(exclusive(p));
        lemma_names_at(g, p.build_dependents);
        lemma_names_at(g, p.test_dependents);
        lemma_names_at(g, p.sys_build_dependents);
        lemma_names_at(g, p.sys_test_dependents);
        match p.component {
            Some(c) => {
                assert(cn[c as int] == g.components[c as int].name);
            },
            None => {},
        }
    }
    assert forall|j: int| 0 <= j < s.components.len() implies component_resolvable(
        pn,
        #[trigger] s.components[j],
    ) && component_agrees(pn, g.components[j], s.components[j]) by {
        let c = g.components[j];
        assert(component_links_ok(c, g.packages.len() as int));
        lemma_fmris_at(g, c.packages);
        lemma_fmris_at(g, c.build);
        lemma_fmris_at(g, c.test);
        lemma_fmris_at(g, c.sys_build);
        lemma_fmris_at(g, c.sys_test);
    }
}

/// The handle of each name, where no name stands twice.
fn index_names(names: &Vec<String>) -> (r: Option<StringHashMap<usize>>)
    ensures
        match r {
            Some(m) => unique(texts(names@)) && (forall|i: int|
                0 <= i < names@.len() ==> m@.contains_key(#[trigger] texts(names@)[i]) && m@[texts(
                    names@,
                )[i]] == i) && (forall|k: Seq<char>| #[trigger]
                m@.contains_key(k) ==> m@[k] < names@.len() && texts(names@)[m@[k] as int] == k),
            None => !unique(texts(names@)),
        },
{
    let mut m: StringHashMap<usize> = StringHashMap::new();
    let mut i: usize = 0;
    let ghost t = texts(names@);
    while i < names.len()
        invariant
            i <= names.len(),
            t == texts(names@),
            forall|a: int| 0 <= a < i ==> m@.contains_key(#[trigger] t[a]) && m@[t[a]] == a,
            forall|k: Seq<char>| #[trigger] m@.contains_key(k) ==> m@[k] < i && t[m@[k] as int] == k,
        decreases names.len() - i,
    {
        proof {
            assert(t[i as int] == names@[i as int]@);
        }
        if m.contains_key(names[i].as_str()) {
            proof {
                let a = m@[t[i as int]] as int;
                assert(t[a] == t[i as int]);
            }
            return None;
        }
        m.insert(names[i].clone(), i);
        i += 1;
    }
    proof {
        assert forall|a: int, b: int|
            0 <= a < t.len() && 0 <= b < t.len() && #[trigger] t[a] == #[trigger] t[b] implies a
            == b by {
            assert(m@[t[a]] == a);
            assert(m@[t[b]] == b);
        }
    }
    Some(m)
}

/// The handles that a list of names stands for; `None` where a name is not
/// known.
fn resolve(m: &StringHashMap<usize>, names: Ghost<Seq<Seq<char>>>, refs: &Vec<String>) -> (r: Option<Vec<usize>>)
    requires
        forall|i: int| 0 <= i < names@.len() ==> m@.contains_key(#[trigger] names@[i]) && m@[names@[i]] == i,
        forall|k: Seq<char>| #[trigger] m@.contains_key(k) ==> m@[k] < names@.len() && names@[m@[k] as int] == k,
    ensures
        match r {
            Some(h) => named_by(names@, h@, texts(refs@)) && all_known(names@, texts(refs@)),
            None => !all_known(names@, texts(refs@)),
        },
{
    let mut out: Vec<usize> = Vec::new();
    let mut i: usize = 0;
    let ghost t = texts(refs@);
    while i < refs.len()
        invariant
            i <= refs.len(),
            t == texts(refs@),
            out.len() == i,
            forall|i: int| 0 <= i < names@.len() ==> m@.contains_key(#[trigger] names@[i]) && m@[names@[i]] == i,
            forall|k: Seq<char>| #[trigger] m@.contains_key(k) ==> m@[k] < names@.len() && names@[m@[k] as int] == k,
            forall|k: int| 0 <= k < i ==> (#[trigger] out@[k]) < names@.len() && names@[out@[k] as int] == t[k],
            forall|k: int| 0 <= k < i ==> names@.contains(#[trigger] t[k]),
        decreases refs.len() - i,
    {
        proof {
            assert(t[i as int] == refs@[i as int]@);
        }
        match m.get(refs[i].as_str()) {
            Some(h) => {
                proof {
                    assert(names@[*h as int] == t[i as int]);
                }
                out.push(*h);
            },
            None => {
                proof {
                    if names@.contains(t[i as int]) {
                        let a = choose|a: int| 0 <= a < names@.len() && names@[a] == t[i as int];
                        assert(m@.contains_key(names@[a]));
                    }
                }
                return None;
            },
        }
        i += 1;
    }
    Some(out)
}

/// The package names of a list of identifiers.
fn names_of_fmris(l: &Vec<Fmri>) -> (r: Vec<String>)
    ensures
        texts(r@) == names_of(fmri_views(l@)),
{
    let mut out: Vec<String> = Vec::new();
    let mut i: usize = 0;
    while i < l.len()
        invariant
            i <= l.len(),
            out.len() == i,
            forall|k: int| 0 <= k < i ==> (#[trigger] out@[k])@ == l@[k]@.name,
        decreases l.len() - i,
    {
        out.push(l[i].get_package_name_as_ref_string().clone());
        i += 1;
    }
    proof {
        assert(texts(out@) =~= names_of(fmri_views(l@)));
    }
    out
}

impl OrgComponents {
    /// The names of the components at a list of handles.
    fn names_at_handles(&self, handles: &Vec<usize>) -> (r: Vec<String>)
        requires
            handles_below(handles@, self@.components.len() as int),
        ensures
            texts(r@) == names_at(self@, handles@),
    {
        let components = self.get_components();
        let mut out: Vec<String> = Vec::new();
        let mut i: usize = 0;
        while i < handles.len()
            invariant
                i <= handles.len(),
                out.len() == i,
                self@.components == component_views(components@),
                handles_below(handles@, self@.components.len() as int),
                forall|k: int|
                    0 <= k < i ==> (#[trigger] out@[k])@ == self@.components[handles@[k] as int].name,
            decreases handles.len() - i,
        {
            let c = handles[i];
            proof {
                assert(handles@[i as int] < self@.components.len());
                assert(self@.components[c as int] == components@[c as int]@);
            }
            out.push(components[c].name.clone());
            i += 1;
        }
        proof {
            assert(texts(out@) =~= names_at(self@, handles@));
        }
        out
    }

    /// The identifiers of the packages at a list of handles.
    fn fmris_at_handles(&self, handles: &Vec<usize>) -> (r: Vec<Fmri>)
        requires
            handles_below(handles@, self@.packages.len() as int),
        ensures
            fmri_views(r@) == fmris_at(self@, handles@),
    {
        let packages = self.get_packages();
        let mut out: Vec<Fmri> = Vec::new();
        let mut i: usize = 0;
        while i < handles.len()
            invariant
                i <= handles.len(),
                out.len() == i,
                self@.packages == package_views(packages@),
                handles_below(handles@, self@.packages.len() as int),
                forall|k: int|
                    0 <= k < i ==> (#[trigger] out@[k])@ == self@.packages[handles@[k] as int].fmri,
            decreases handles.len() - i,
        {
            let p = handles[i];
            proof {
                assert(handles@[i as int] < self@.packages.len());
                assert(self@.packages[p as int] == packages@[p as int]@);
            }
            out.push(packages[p].fmri.clone());
            i += 1;
        }
        proof {
            assert(fmri_views(out@) =~= fmris_at(self@, handles@));
        }
        out
    }

    /// The snapshot of the graph: every handle is written as the name of the
    /// component, or the identifier of the package, that it leads to.
    pub fn serialize(&self) -> (r: Components)
        requires
            self.wf(),
        ensures
            r@ == snapshot_of(self@),
    {
        proof {
            self.lemma_wf();
        }
        let org_packages = self.get_packages();
        let org_components = self.get_components();
        let mut packages: Vec<Package> = Vec::new();
        let mut i: usize = 0;
        while i < org_packages.len()
            invariant
                i <= org_packages.len(),
                graph_wf(self@),
                self@.packages == package_views(org_packages@),
                self@.components == component_views(org_components@),
                packages.len() == i,
                forall|k: int|
                    0 <= k < i ==> (#[trigger] packages@[k])@ == package_record(self@, self@.packages[k]),
            decreases org_packages.len() - i,
        {
            let package = &org_packages[i];
            proof {
                assert(self@.packages[i as int] == package@);
                assert(package_links_ok(self@.packages[i as int], self@.components.len() as int));
            }
            let component = match package.component {
                Some(c) => {
                    proof {
                        assert(self@.components[c as int] == org_components@[c as int]@);
                    }
                    Some(org_components[c].name.clone())
                },
                None => None,
            };
            packages.push(
                Package {
                    fmri: package.fmri.clone(),
                    versions: clone_versions(&package.versions),
                    component,
                    obsolete: package.is_obsolete(),
                    renamed: package.is_renamed(),
                    runtime_dependents: clone_rev_depends(&package.runtime_dependents),
                    build_dependents: self.names_at_handles(&package.build_dependents),
                    test_dependents: self.names_at_handles(&package.test_dependents),
                    sys_build_dependents: self.names_at_handles(&package.sys_build_dependents),
                    sys_test_dependents: self.names_at_handles(&package.sys_test_dependents),
                },
            );
            i += 1;
        }
        let mut components: Vec<Component> = Vec::new();
        let mut j: usize = 0;
        while j < org_components.len()
            invariant
                j <= org_components.len(),
                graph_wf(self@),
                self@.packages == package_views(org_packages@),
                self@.components == component_views(org_components@),
                components.len() == j,
                forall|k: int|
                    0 <= k < j ==> (#[trigger] components@[k])@ == component_record(
                        self@,
                        self@.components[k],
                    ),
            decreases org_components.len() - j,
        {
            let component = &org_components[j];
            proof {
                assert(self@.components[j as int] == component@);
                assert(component_links_ok(self@.components[j as int], self@.packages.len() as int));
            }
            components.push(
                Component {
                    name: component.name.clone(),
                    packages: self.fmris_at_handles(&component.packages),
                    build: self.fmris_at_handles(&component.build),
                    test: self.fmris_at_handles(&component.test),
                    sys_build: self.fmris_at_handles(&component.sys_build),
                    sys_test: self.fmris_at_handles(&component.sys_test),
                },
            );
            j += 1;
        }
        let r = Components { components, packages, problems: self.get_problems().clone() };
        proof {
            assert(r@.packages =~= snapshot_of(self@).packages);
            assert(r@.components =~= snapshot_of(self@).components);
        }
        r
    }

    /// Makes the graph of a snapshot: every name is replaced by the handle
    /// of what it names. A snapshot in which a name stands twice, or which
    /// refers to a name that is not there, is an error.
    pub fn deserialize(snapshot: &Components) -> (r: Result<OrgComponents, String>)
        ensures
            match r {
                Ok(c) => c.wf() && resolvable(snapshot@) && agrees(c@, snapshot@),
                Err(_) => !resolvable(snapshot@),
            },
    {
        let ghost s = snapshot@;
        let mut package_list: Vec<String> = Vec::new();
        let mut i: usize = 0;
        while i < snapshot.packages.len()
            invariant
                i <= snapshot.packages.len(),
                package_list.len() == i,
                forall|k: int| 0 <= k < i ==> (#[trigger] package_list@[k])@ == snapshot.packages@[k]@.fmri.name,
            decreases snapshot.packages.len() - i,
        {
            package_list.push(snapshot.packages[i].fmri.get_package_name_as_ref_string().clone());
            i += 1;
        }
        let mut component_list: Vec<String> = Vec::new();
        let mut j: usize = 0;
        while j < snapshot.components.len()
            invariant
                j <= snapshot.components.len(),
                component_list.len() == j,
                forall|k: int| 0 <= k < j ==> (#[trigger] component_list@[k])@ == snapshot.components@[k]@.name,
            decreases snapshot.components.len() - j,
        {
            component_list.push(snapshot.components[j].name.clone());
            j += 1;
        }
        proof {
            assert(texts(package_list@) =~= package_names(s));
            assert(texts(component_list@) =~= component_names(s));
        }
        let package_index = match index_names(&package_list) {
            Some(m) => m,
            None => {
                return Err(String::from_str("a package name stands twice"));
            },
        };
        let component_index = match index_names(&component_list) {
            Some(m) => m,
            None => {
                return Err(String::from_str("a component name stands twice"));
            },
        };
        let ghost pn = package_names(s);
        let ghost cn = component_names(s);
        let mut packages: Vec<OrgPackage> = Vec::new();
        let mut i: usize = 0;
        while i < snapshot.packages.len()
            invariant
                i <= snapshot.packages.len(),
                s == snapshot@,
                pn == package_names(s),
                cn == component_names(s),
                cn.len() == snapshot.components@.len(),
                forall|a: int| 0 <= a < cn.len() ==> component_index@.contains_key(#[trigger] cn[a]) && component_index@[cn[a]] == a,
                forall|k: Seq<char>| #[trigger] component_index@.contains_key(k) ==> component_index@[k] < cn.len() && cn[component_index@[k] as int] == k,
                packages.len() == i,
                forall|k: int| 0 <= k < i ==> package_agrees(cn, (#[trigger] packages@[k])@, s.packages[k]),
                forall|k: int| 0 <= k < i ==> package_resolvable(cn, #[trigger] s.packages[k]),
                forall|k: int| 0 <= k < i ==> package_links_ok((#[trigger] packages@[k])@, cn.len() as int),
                forall|k: int| 0 <= k < i ==> exclusive((#[trigger] packages@[k])@),
            decreases snapshot.packages.len() - i,
        {
            let record = &snapshot.packages[i];
            proof {
                assert(s.packages[i as int] == record@);
            }
            let owner = match &record.component {
                None => None,
                Some(name) => match component_index.get(name.as_str()) {
                    Some(c) => Some(*c),
                    None => {
                        proof {
                            if cn.contains(name@) {
                                let a = choose|a: int| 0 <= a < cn.len() && cn[a] == name@;
                                assert(component_index@.contains_key(cn[a]));
                            }
                            assert(!package_resolvable(cn, s.packages[i as int]));
                        }
                        return Err(String::from_str("a package names a component that is not there"));
                    },
                },
            };
            let build = resolve(&component_index, Ghost(cn), &record.build_dependents);
            let test = resolve(&component_index, Ghost(cn), &record.test_dependents);
            let sys_build = resolve(&component_index, Ghost(cn), &record.sys_build_dependents);
            let sys_test = resolve(&component_index, Ghost(cn), &record.sys_test_dependents);
            match (build, test, sys_build, sys_test) {
                (Some(b), Some(t), Some(sb), Some(st)) => {
                    let package = OrgPackage {
                        fmri: record.fmri.clone(),
                        versions: clone_versions(&record.versions),
                        component: owner,
                        obsolete: record.obsolete,
                        renamed: record.renamed,
                        runtime_dependents: clone_rev_depends(&record.runtime_dependents),
                        build_dependents: b,
                        test_dependents: t,
                        sys_build_dependents: sb,
                        sys_test_dependents: st,
                    };
                    proof {
                        if record.component is Some {
                            assert(cn[owner->0 as int] == record.component->0@);
                        }
                        assert(package_agrees(cn, package@, s.packages[i as int]));
                    }
                    if !package.is_exclusive() {
                        return Err(String::from_str("a package is both obsolete and renamed"));
                    }
                    packages.push(package);
                },
                _ => {
                    proof {
                        assert(!package_resolvable(cn, s.packages[i as int]));
                    }
                    return Err(String::from_str("a package names a component that is not there"));
                },
            }
            i += 1;
        }
        let mut components: Vec<OrgComponent> = Vec::new();
        let mut j: usize = 0;
        while j < snapshot.components.len()
            invariant
                j <= snapshot.components.len(),
                s == snapshot@,
                pn == package_names(s),
                cn == component_names(s),
                pn.len() == snapshot.packages@.len(),
                forall|a: int| 0 <= a < pn.len() ==> package_index@.contains_key(#[trigger] pn[a]) && package_index@[pn[a]] == a,
                forall|k: Seq<char>| #[trigger] package_index@.contains_key(k) ==> package_index@[k] < pn.len() && pn[package_index@[k] as int] == k,
                components.len() == j,
                forall|k: int| 0 <= k < j ==> component_agrees(pn, (#[trigger] components@[k])@, s.components[k]),
                forall|k: int| 0 <= k < j ==> component_resolvable(pn, #[trigger] s.components[k]),
                forall|k: int| 0 <= k < j ==> component_links_ok((#[trigger] components@[k])@, pn.len() as int),
            decreases snapshot.components.len() - j,
        {
            let record = &snapshot.components[j];
            proof {
                assert(s.components[j as int] == record@);
            }
            let claimed = resolve(&package_index, Ghost(pn), &names_of_fmris(&record.packages));
            let build = resolve(&package_index, Ghost(pn), &names_of_fmris(&record.build));
            let test = resolve(&package_index, Ghost(pn), &names_of_fmris(&record.test));
            let sys_build = resolve(&package_index, Ghost(pn), &names_of_fmris(&record.sys_build));
            let sys_test = resolve(&package_index, Ghost(pn), &names_of_fmris(&record.sys_test));
            match (claimed, build, test, sys_build, sys_test) {
                (Some(c), Some(b), Some(t), Some(sb), Some(st)) => {
                    let component = OrgComponent {
                        name: record.name.clone(),
                        packages: c,
                        build: b,
                        test: t,
                        sys_build: sb,
                        sys_test: st,
                    };
                    proof {
                        assert(component_agrees(pn, component@, s.components[j as int]));
                    }
                    components.push(component);
                },
                _ => {
                    proof {
                        assert(!component_resolvable(pn, s.components[j as int]));
                    }
                    return Err(String::from_str("a component names a package that is not there"));
                },
            }
            j += 1;
        }
        let ghost g = GraphView {
            components: component_views(components@),
            packages: package_views(packages@),
            problems: snapshot.problems@,
        };
        proof {
            assert forall|a: int, b: int|
                0 <= a < g.packages.len() && 0 <= b < g.packages.len() && (
                #[trigger] g.packages[a]).fmri.name == (#[trigger] g.packages[b]).fmri.name implies a
                == b by {
                assert(g.packages[a] == packages@[a]@);
                assert(g.packages[b] == packages@[b]@);
                assert(pn[a] == s.packages[a].fmri.name);
                assert(pn[b] == s.packages[b].fmri.name);
            }
            assert forall|a: int, b: int|
                0 <= a < g.components.len() && 0 <= b < g.components.len() && (
                #[trigger] g.components[a]).name == (#[trigger] g.components[b]).name implies a
                == b by {
                assert(g.components[a] == components@[a]@);
                assert(g.components[b] == components@[b]@);
                assert(cn[a] == s.components[a].name);
                assert(cn[b] == s.components[b].name);
            }
            assert forall|a: int| 0 <= a < g.packages.len() implies package_links_ok(
                #[trigger] g.packages[a],
                g.components.len() as int,
            ) && exclusive(g.packages[a]) by {
                assert(g.packages[a] == packages@[a]@);
            }
            assert forall|a: int| 0 <= a < g.components.len() implies component_links_ok(
                #[trigger] g.components[a],
                g.packages.len() as int,
            ) by {
                assert(g.components[a] == components@[a]@);
            }
            assert(graph_wf(g));
            assert forall|a: int| 0 <= a < g.packages.len() implies package_agrees(
                cn,
                #[trigger] g.packages[a],
                s.packages[a],
            ) by {
                assert(g.packages[a] == packages@[a]@);
            }
            assert forall|a: int| 0 <= a < g.components.len() implies component_agrees(
                pn,
                #[trigger] g.components[a],
                s.components[a],
            ) by {
                assert(g.components[a] == components@[a]@);
            }
        }
        match OrgComponents::from_tables(components, packages, snapshot.problems.clone()) {
            Ok(c) => Ok(c),
            Err(e) => Err(e),
        }
    }
}

} // verus!
