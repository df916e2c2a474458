//! What a component depends on, context by context, without repetition.

use vstd::prelude::*;
use crate::packages::components::{Components, GraphView, package_views, component_links_ok,
    handles_below};
use crate::packages::depend_types::{DependTypes, DependTypesView};
use crate::packages::dependencies::dependency_views;
use crate::packages::dependency::{Dependency, without_publishers, unpublished};
use crate::packages::dependency_type::DependencyTypes;

verus! {

/// The dependencies with their contexts, as mathematical values.
pub open spec fn listed_views(s: Seq<(Dependency, DependencyTypes)>) -> Seq<(DependTypesView, DependencyTypes)> {
    s.map_values(|e: (Dependency, DependencyTypes)| (e.0@, e.1))
}

/// The runtime dependencies that stand for a component: those that the
/// first release of the package it claimed last declares, without
/// publishers.
pub open spec fn runtime_of(g: GraphView, c: int) -> Seq<DependTypesView> {
    let claimed = g.components[c].packages;
    if claimed.len() == 0 {
        Seq::empty()
    } else {
        let p = g.packages[claimed.last() as int];
        if p.versions.len() == 0 {
            Seq::empty()
        } else {
            p.versions[0].runtime.map_values(|d: DependTypesView| without_publishers(d))
        }
    }
}

/// A require dependency on each package of a list of handles.
pub open spec fn required(g: GraphView, needs: Seq<usize>) -> Seq<DependTypesView> {
    needs.map_values(|p: usize| DependTypesView::Require(unpublished(g.packages[p as int].fmri)))
}

/// What a component depends on in one context.
pub open spec fn dependencies_in(g: GraphView, c: int, t: DependencyTypes) -> Seq<DependTypesView> {
    match t {
        DependencyTypes::Runtime => runtime_of(g, c),
        DependencyTypes::Build => required(g, g.components[c].build),
        DependencyTypes::Test => required(g, g.components[c].test),
        DependencyTypes::SystemBuild => required(g, g.components[c].sys_build),
        DependencyTypes::SystemTest => required(g, g.components[c].sys_test),
    }
}

/// Whether a dependency stands in the list, in whatever context.
pub open spec fn collected(acc: Seq<(DependTypesView, DependencyTypes)>, d: DependTypesView) -> bool {
    exists|i: int| 0 <= i < acc.len() && (#[trigger] acc[i]).0 == d
}

/// The list with the first `m` dependencies of one context, each appended
/// unless the list holds it already.
pub open spec fn with_context(
    acc: Seq<(DependTypesView, DependencyTypes)>,
    deps: Seq<DependTypesView>,
    t: DependencyTypes,
    m: int,
) -> Seq<(DependTypesView, DependencyTypes)>
    decreases m,
{
    if m <= 0 {
        acc
    } else {
        let before = with_context(acc, deps, t, m - 1);
        if collected(before, deps[m - 1]) {
            before
        } else {
            before.push((deps[m - 1], t))
        }
    }
}

/// What a component depends on in the first `n` of the contexts asked for:
/// each dependency once, with the first context in which it was found.
pub open spec fn component_dependencies(
    g: GraphView,
    c: int,
    types: Seq<DependencyTypes>,
    n: int,
) -> Seq<(DependTypesView, DependencyTypes)>
    decreases n,
{
    if n <= 0 {
        Seq::empty()
    } else {
        let deps = dependencies_in(g, c, types[n - 1]);
        with_context(component_dependencies(g, c, types, n - 1), deps, types[n - 1], deps.len() as int)
    }
}

/// Whether a dependency stands in the list.
fn is_collected(acc: &Vec<(Dependency, DependencyTypes)>, d: &Dependency) -> (r: bool)
    ensures
        r == collected(listed_views(acc@), d@),
{
    let mut i: usize = 0;
    while i < acc.len()
        invariant
            i <= acc.len(),
            forall|k: int| 0 <= k < i ==> (#[trigger] listed_views(acc@)[k]).0 != d@,
        decreases acc.len() - i,
    {
        proof {
            assert(listed_views(acc@)[i as int] == (acc@[i as int].0@, acc@[i as int].1));
        }
        if acc[i].0.same(d) {
            return true;
        }
        i += 1;
    }
    false
}

/// Appends the dependencies of one context that the list does not hold yet.
fn collect_context(acc: &mut Vec<(Dependency, DependencyTypes)>, deps: &Vec<Dependency>, t: DependencyTypes)
    ensures
        listed_views(final(acc)@) == with_context(
            listed_views(old(acc)@),
            dependency_views(deps@),
            t,
            deps@.len() as int,
        ),
{
    let ghost start = listed_views(acc@);
    let ghost all = dependency_views(deps@);
    let mut j: usize = 0;
    while j < deps.len()
        invariant
            j <= deps.len(),
            all == dependency_views(deps@),
            listed_views(acc@) == with_context(start, all, t, j as int),
        decreases deps.len() - j,
    {
        proof {
            assert(all[j as int] == deps@[j as int]@);
        }
        if !is_collected(acc, &deps[j]) {
            let ghost before = acc@;
            acc.push((deps[j].clone(), t));
            proof {
                assert(listed_views(acc@) =~= listed_views(before).push((all[j as int], t)));
            }
        }
        j += 1;
    }
}

impl Components {
    /// What the component at a handle depends on in one context.
    fn dependencies_of_context(&self, c: usize, t: DependencyTypes) -> (r: Vec<Dependency>)
        requires
            self.wf(),
            c < self@.components.len(),
        ensures
            dependency_views(r@) == dependencies_in(self@, c as int, t),
    {
        let ghost g = self@;
        proof {
            self.lemma_wf();
        }
        let components = self.get_components();
        let packages = self.get_packages();
        let component = &components[c];
        proof {
            assert(g.components[c as int] == component@);
            assert(component_links_ok(g.components[c as int], g.packages.len() as int));
        }
        let mut out: Vec<Dependency> = Vec::new();
        let needs = match t {
            DependencyTypes::Runtime => {
                if component.packages.len() > 0 {
                    let p = component.packages[component.packages.len() - 1];
                    proof {
                        assert(component@.packages.last() < g.packages.len());
                        assert(g.packages[p as int] == packages@[p as int]@);
                    }
                    let package = &packages[p];
                    if package.versions.len() > 0 {
                        let runtime = &package.versions[0].runtime;
                        proof {
                            assert(package@.versions[0] == package.versions@[0]@);
                        }
                        let mut j: usize = 0;
                        while j < runtime.len()
                            invariant
                                j <= runtime.len(),
                                out.len() == j,
                                forall|k: int|
                                    0 <= k < j ==> (#[trigger] out@[k])@ == without_publishers(
                                        runtime@[k]@,
                                    ),
                            decreases runtime.len() - j,
                        {
                            out.push(Dependency::new(&runtime[j]));
                            j += 1;
                        }
                        proof {
                            assert(dependency_views(out@)
                                =~= runtime_of(g, c as int));
                        }
                        return out;
                    }
                }
                proof {
                    assert(dependency_views(out@) =~= runtime_of(
                        g,
                        c as int,
                    ));
                }
                return out;
            },
            DependencyTypes::Build => &component.build,
            DependencyTypes::Test => &component.test,
            DependencyTypes::SystemBuild => &component.sys_build,
            DependencyTypes::SystemTest => &component.sys_test,
        };
        let mut j: usize = 0;
        while j < needs.len()
            invariant
                j <= needs.len(),
                out.len() == j,
                g.packages == package_views(packages@),
                handles_below(needs@, g.packages.len() as int),
                forall|k: int|
                    0 <= k < j ==> (#[trigger] out@[k])@ == DependTypesView::Require(
                        unpublished(g.packages[needs@[k] as int].fmri),
                    ),
            decreases needs.len() - j,
        {
            let p = needs[j];
            proof {
                assert(needs@[j as int] < g.packages.len());
                assert(g.packages[p as int] == packages@[p as int]@);
            }
            out.push(Dependency::new(&DependTypes::Require(packages[p].fmri.clone())));
            j += 1;
        }
        proof {
            assert(dependency_views(out@) =~= required(g, needs@));
        }
        out
    }

    /// What the component at a handle depends on in the contexts asked for,
    /// in their order: each dependency once, with the first context in which
    /// it was found. In the runtime context a component depends on what the
    /// first release of the package it claimed last declares; in the other
    /// contexts it requires the packages it needs.
    pub fn get_dependencies(&self, component: usize, dependency_types: Vec<DependencyTypes>) -> (r: Vec<
        (Dependency, DependencyTypes),
    >)
        requires
            self.wf(),
            component < self@.components.len(),
        ensures
            listed_views(r@) == component_dependencies(
                self@,
                component as int,
                dependency_types@,
                dependency_types@.len() as int,
            ),
    {
        let mut dependencies: Vec<(Dependency, DependencyTypes)> = Vec::new();
        let mut i: usize = 0;
        proof {
            assert(listed_views(dependencies@) =~= Seq::<(DependTypesView, DependencyTypes)>::empty());
        }
        while i < dependency_types.len()
            invariant
                i <= dependency_types.len(),
                self.wf(),
                component < self@.components.len(),
                listed_views(dependencies@) == component_dependencies(
                    self@,
                    component as int,
                    dependency_types@,
                    i as int,
                ),
            decreases dependency_types.len() - i,
        {
            let t = dependency_types[i];
            let found = self.dependencies_of_context(component, t);
            collect_context(&mut dependencies, &found, t);
            i += 1;
        }
        dependencies
    }
}

} // verus!
