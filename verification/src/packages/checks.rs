//! The consistency checks: what is wrong with the finished graph, as a
//! sequence of problems in a fixed order.

use vstd::prelude::*;
use vstd::string::*;
use crate::identifier::{Fmri, none_fmri};
use crate::packages::components::{Components, GraphView, package_index, graph_wf, package_views,
    component_views, component_links_ok, package_links_ok, handles_below, known_renamed,
    known_obsolete};
use crate::packages::depend_types::{DependTypes, DependTypesView};
use crate::packages::dependency_type::DependencyTypes;
use crate::packages::package::{Package, PackageView, dependents_of};
use crate::packages::rev_depend_type::{RevDependType, RevDependTypeView, requester};
use crate::problems::{Problem, ProblemView, problem_views, added_all, listed, normalized,
    lemma_added_all_listed};

verus! {

/// A sequence with one more element where there is one.
pub open spec fn with_optional(s: Seq<ProblemView>, o: Option<ProblemView>) -> Seq<ProblemView> {
    match o {
        Some(p) => s.push(p),
        None => s,
    }
}

/// Stale ownership: the package that a component claims is obsolete, or
/// else renamed.
pub open spec fn ownership_problem(g: GraphView, c: int, j: int) -> Option<ProblemView> {
    let p = g.packages[g.components[c].packages[j] as int];
    if p.obsolete {
        Some(ProblemView::ObsoletedPackageInComponent(p.fmri, g.components[c].name))
    } else if p.renamed {
        Some(ProblemView::RenamedPackageInComponent(p.fmri, g.components[c].name))
    } else {
        None
    }
}

/// Stale ownership among the first `m` packages that the component claims.
pub open spec fn component_ownership(g: GraphView, c: int, m: int) -> Seq<ProblemView>
    decreases m,
{
    if m <= 0 {
        Seq::empty()
    } else {
        with_optional(component_ownership(g, c, m - 1), ownership_problem(g, c, m - 1))
    }
}

/// Stale ownership in the first `k` components.
pub open spec fn stale_ownership(g: GraphView, k: int) -> Seq<ProblemView>
    decreases k,
{
    if k <= 0 {
        Seq::empty()
    } else {
        stale_ownership(g, k - 1) + component_ownership(
            g,
            k - 1,
            g.components[k - 1].packages.len() as int,
        )
    }
}

/// Missing owner: the package is neither obsolete nor renamed, and no
/// component owns it.
pub open spec fn owner_problem(p: PackageView) -> Option<ProblemView> {
    if p.component is None && !p.renamed && !p.obsolete {
        Some(ProblemView::MissingComponentForPackage(p.fmri))
    } else {
        None
    }
}

/// Missing owners among the first `k` packages.
pub open spec fn missing_owners(g: GraphView, k: int) -> Seq<ProblemView>
    decreases k,
{
    if k <= 0 {
        Seq::empty()
    } else {
        with_optional(missing_owners(g, k - 1), owner_problem(g.packages[k - 1]))
    }
}

/// Whether an entry says that a package incorporates another.
pub open spec fn is_incorporate(r: RevDependTypeView) -> bool {
    r is Incorporate
}

/// A package that nothing needs: it is obsolete or renamed, or no package
/// depends on it at runtime other than by incorporating it and no component
/// needs it in any context.
pub open spec fn unneeded(p: PackageView) -> bool {
    ||| p.obsolete
    ||| p.renamed
    ||| {
        &&& forall|j: int| 0 <= j < p.runtime_dependents.len() ==> is_incorporate(#[trigger] p.runtime_dependents[j])
        &&& p.build_dependents.len() == 0
        &&& p.test_dependents.len() == 0
        &&& p.sys_build_dependents.len() == 0
        &&& p.sys_test_dependents.len() == 0
    }
}

/// A component is useless when nothing needs any package it claims.
pub open spec fn useless(g: GraphView, c: int) -> bool {
    forall|j: int|
        0 <= j < g.components[c].packages.len() ==> unneeded(
            g.packages[(#[trigger] g.components[c].packages[j]) as int],
        )
}

/// The useless components among the first `k`.
pub open spec fn useless_components(g: GraphView, k: int) -> Seq<ProblemView>
    decreases k,
{
    if k <= 0 {
        Seq::empty()
    } else if useless(g, k - 1) {
        useless_components(g, k - 1).push(ProblemView::UselessComponent(g.components[k - 1].name))
    } else {
        useless_components(g, k - 1)
    }
}

/// A renamed package is needed by a renamed package: the requester of the
/// entry is renamed.
pub open spec fn needed_by_renamed(g: GraphView, p: PackageView, j: int) -> Option<ProblemView> {
    let by = requester(p.runtime_dependents[j]);
    match package_index(g, by.name) {
        Some(b) => if g.packages[b].renamed {
            Some(ProblemView::RenamedNeedsRenamed(g.packages[b].fmri, p.fmri))
        } else {
            None
        },
        None => None,
    }
}

/// The renamed packages among the first `m` requesters of a renamed package.
pub open spec fn renamed_dependents(g: GraphView, p: PackageView, m: int) -> Seq<ProblemView>
    decreases m,
{
    if m <= 0 {
        Seq::empty()
    } else {
        with_optional(renamed_dependents(g, p, m - 1), needed_by_renamed(g, p, m - 1))
    }
}

/// A renamed package needs a renamed package through its component.
pub open spec fn needs_renamed(g: GraphView, p: PackageView, needs: Seq<usize>, j: int) -> Option<ProblemView> {
    let q = g.packages[needs[j] as int];
    if q.renamed {
        Some(ProblemView::RenamedNeedsRenamed(p.fmri, q.fmri))
    } else {
        None
    }
}

/// The renamed packages among the first `m` that the component of a renamed
/// package needs in one context.
pub open spec fn renamed_needs(g: GraphView, p: PackageView, needs: Seq<usize>, m: int) -> Seq<ProblemView>
    decreases m,
{
    if m <= 0 {
        Seq::empty()
    } else {
        with_optional(renamed_needs(g, p, needs, m - 1), needs_renamed(g, p, needs, m - 1))
    }
}

/// The rename chains that are not closed at one renamed package: the renamed
/// packages that need it at runtime, then the renamed packages that its
/// component needs to build, to test, and from the system to build and to
/// test.
pub open spec fn rename_chain_of(g: GraphView, p: PackageView) -> Seq<ProblemView> {
    let first = renamed_dependents(g, p, p.runtime_dependents.len() as int);
    match p.component {
        None => first,
        Some(c) => {
            let component = g.components[c as int];
            first + renamed_needs(g, p, component.build, component.build.len() as int)
                + renamed_needs(g, p, component.test, component.test.len() as int)
                + renamed_needs(g, p, component.sys_build, component.sys_build.len() as int)
                + renamed_needs(g, p, component.sys_test, component.sys_test.len() as int)
        },
    }
}

/// The open rename chains at the first `k` packages.
pub open spec fn rename_chains(g: GraphView, k: int) -> Seq<ProblemView>
    decreases k,
{
    if k <= 0 {
        Seq::empty()
    } else if g.packages[k - 1].renamed {
        rename_chains(g, k - 1) + rename_chain_of(g, g.packages[k - 1])
    } else {
        rename_chains(g, k - 1)
    }
}

/// Whether an obsolete package is obsolete throughout: the release that
/// stands for it is obsolete too. Otherwise an older release is still valid.
pub open spec fn fully_obsolete(p: PackageView) -> bool {
    p.versions.len() == 0 || p.versions[0].obsolete
}

/// An obsolete package is needed by a component.
pub open spec fn needed_by_component(g: GraphView, p: PackageView, c: usize, t: DependencyTypes) -> ProblemView {
    if fully_obsolete(p) {
        ProblemView::ObsoletedRequired(
            DependTypesView::Require(p.fmri),
            t,
            none_fmri(),
            g.components[c as int].name,
        )
    } else {
        ProblemView::PartlyObsoletedRequired(
            DependTypesView::Require(p.fmri),
            t,
            none_fmri(),
            g.components[c as int].name,
        )
    }
}

/// The first `m` components that need an obsolete package in one context.
pub open spec fn obsolete_for_components(
    g: GraphView,
    p: PackageView,
    dependents: Seq<usize>,
    t: DependencyTypes,
    m: int,
) -> Seq<ProblemView>
    decreases m,
{
    if m <= 0 {
        Seq::empty()
    } else {
        obsolete_for_components(g, p, dependents, t, m - 1).push(
            needed_by_component(g, p, dependents[m - 1], t),
        )
    }
}

/// An obsolete package is needed at runtime by a package that is not itself
/// obsolete. Packages that only incorporate it do not count. A requester
/// that the graph does not know counts as neither obsolete nor renamed.
pub open spec fn needed_by_package(g: GraphView, p: PackageView, j: int) -> Option<ProblemView> {
    let entry = p.runtime_dependents[j];
    let by = requester(entry);
    if is_incorporate(entry) || known_obsolete(g, by.name) {
        None
    } else if known_renamed(g, by.name) {
        Some(
            if fully_obsolete(p) {
                ProblemView::ObsoletedRequiredByRenamed(
                    DependTypesView::Require(p.fmri),
                    DependencyTypes::Runtime,
                    by,
                )
            } else {
                ProblemView::PartlyObsoletedRequiredByRenamed(
                    DependTypesView::Require(p.fmri),
                    DependencyTypes::Runtime,
                    by,
                )
            },
        )
    } else {
        Some(
            if fully_obsolete(p) {
                ProblemView::ObsoletedRequired(
                    DependTypesView::Require(p.fmri),
                    DependencyTypes::Runtime,
                    by,
                    Seq::empty(),
                )
            } else {
                ProblemView::PartlyObsoletedRequired(
                    DependTypesView::Require(p.fmri),
                    DependencyTypes::Runtime,
                    by,
                    Seq::empty(),
                )
            },
        )
    }
}

/// The first `m` requesters of an obsolete package.
pub open spec fn obsolete_for_packages(g: GraphView, p: PackageView, m: int) -> Seq<ProblemView>
    decreases m,
{
    if m <= 0 {
        Seq::empty()
    } else {
        with_optional(obsolete_for_packages(g, p, m - 1), needed_by_package(g, p, m - 1))
    }
}

/// Everybody that still needs one obsolete package: the components that need
/// it to build, from the system to build, to test and from the system to
/// test, then the packages that need it at runtime.
pub open spec fn obsolete_required_of(g: GraphView, p: PackageView) -> Seq<ProblemView> {
    obsolete_for_components(
        g,
        p,
        p.build_dependents,
        DependencyTypes::Build,
        p.build_dependents.len() as int,
    ) + obsolete_for_components(
        g,
        p,
        p.sys_build_dependents,
        DependencyTypes::SystemBuild,
        p.sys_build_dependents.len() as int,
    ) + obsolete_for_components(
        g,
        p,
        p.test_dependents,
        DependencyTypes::Test,
        p.test_dependents.len() as int,
    ) + obsolete_for_components(
        g,
        p,
        p.sys_test_dependents,
        DependencyTypes::SystemTest,
        p.sys_test_dependents.len() as int,
    ) + obsolete_for_packages(g, p, p.runtime_dependents.len() as int)
}

/// The stale dependencies on the first `k` packages.
pub open spec fn obsolete_required(g: GraphView, k: int) -> Seq<ProblemView>
    decreases k,
{
    if k <= 0 {
        Seq::empty()
    } else if g.packages[k - 1].obsolete {
        obsolete_required(g, k - 1) + obsolete_required_of(g, g.packages[k - 1])
    } else {
        obsolete_required(g, k - 1)
    }
}

/// Everything that the checks find in a graph, in the order in which it is
/// handed to the list of problems: stale ownership, missing owners, useless
/// components, open rename chains, stale dependencies.
pub open spec fn check_candidates(g: GraphView) -> Seq<ProblemView> {
    stale_ownership(g, g.components.len() as int) + missing_owners(g, g.packages.len() as int)
        + useless_components(g, g.components.len() as int) + rename_chains(
        g,
        g.packages.len() as int,
    ) + obsolete_required(g, g.packages.len() as int)
}

/// The graph after the checks: the packages and components as they were, and
/// everything found handed to the list of problems.
pub open spec fn checked(g: GraphView) -> GraphView {
    GraphView { problems: added_all(g.problems, check_candidates(g)), ..g }
}

/// What stands in one of two sequences stands in their concatenation.
proof fn lemma_contains_either(a: Seq<ProblemView>, b: Seq<ProblemView>, x: ProblemView)
    requires
        a.contains(x) || b.contains(x),
    ensures
        (a + b).contains(x),
{
    if a.contains(x) {
        let i = choose|i: int| 0 <= i < a.len() && a[i] == x;
        assert((a + b)[i] == x);
    } else {
        let i = choose|i: int| 0 <= i < b.len() && b[i] == x;
        assert((a + b)[a.len() + i] == x);
    }
}

/// What stood in a sequence, and what was added to it, stands in the
/// result.
proof fn lemma_contains_optional(a: Seq<ProblemView>, o: Option<ProblemView>, x: ProblemView)
    requires
        a.contains(x) || o == Some(x),
    ensures
        with_optional(a, o).contains(x),
{
    if a.contains(x) {
        let i = choose|i: int| 0 <= i < a.len() && a[i] == x;
        assert(with_optional(a, o)[i] == x);
    } else {
        assert(with_optional(a, o)[a.len() as int] == x);
    }
}

/// After the checks the list of problems stands for everything that the
/// checks find.
pub proof fn lemma_found_is_listed(g: GraphView, x: ProblemView)
    requires
        check_candidates(g).contains(x),
    ensures
        listed(checked(g).problems, normalized(x)),
{
    let c = check_candidates(g);
    let i = choose|i: int| 0 <= i < c.len() && c[i] == x;
    lemma_added_all_listed(g.problems, c, i);
}

proof fn lemma_missing_owner_found(g: GraphView, i: int, k: int)
    requires
        0 <= i < k <= g.packages.len(),
        owner_problem(g.packages[i]) is Some,
    ensures
        missing_owners(g, k).contains(owner_problem(g.packages[i])->0),
    decreases k,
{
    let x = owner_problem(g.packages[i])->0;
    if i < k - 1 {
        lemma_missing_owner_found(g, i, k - 1);
    }
    lemma_contains_optional(missing_owners(g, k - 1), owner_problem(g.packages[k - 1]), x);
}

/// Missing owners are reported. After the checks the list of problems
/// stands for every package that is neither obsolete nor renamed and that no
/// component owns.
pub proof fn lemma_missing_owner_reported(g: GraphView, i: int)
    requires
        0 <= i < g.packages.len(),
        g.packages[i].component is None,
        !g.packages[i].obsolete,
        !g.packages[i].renamed,
    ensures
        listed(
            checked(g).problems,
            normalized(ProblemView::MissingComponentForPackage(g.packages[i].fmri)),
        ),
{
    let x = ProblemView::MissingComponentForPackage(g.packages[i].fmri);
    lemma_missing_owner_found(g, i, g.packages.len() as int);
    let a = stale_ownership(g, g.components.len() as int);
    let b = missing_owners(g, g.packages.len() as int);
    let c = useless_components(g, g.components.len() as int);
    let d = rename_chains(g, g.packages.len() as int);
    let e = obsolete_required(g, g.packages.len() as int);
    lemma_contains_either(a, b, x);
    lemma_contains_either(a + b, c, x);
    lemma_contains_either(a + b + c, d, x);
    lemma_contains_either(a + b + c + d, e, x);
    lemma_found_is_listed(g, x);
}

proof fn lemma_useless_component_found(g: GraphView, c: int, k: int)
    requires
        0 <= c < k <= g.components.len(),
        useless(g, c),
    ensures
        useless_components(g, k).contains(ProblemView::UselessComponent(g.components[c].name)),
    decreases k,
{
    let x = ProblemView::UselessComponent(g.components[c].name);
    let before = useless_components(g, k - 1);
    if c < k - 1 {
        lemma_useless_component_found(g, c, k - 1);
        let i = choose|i: int| 0 <= i < before.len() && before[i] == x;
        assert(useless_components(g, k)[i] == x);
    } else {
        assert(useless_components(g, k)[before.len() as int] == x);
    }
}

/// Useless components are reported. After the checks the list of problems
/// stands for every component all of whose packages are stale or needed by
/// nobody.
pub proof fn lemma_useless_component_reported(g: GraphView, c: int)
    requires
        0 <= c < g.components.len(),
        useless(g, c),
    ensures
        listed(checked(g).problems, ProblemView::UselessComponent(g.components[c].name)),
{
    let x = ProblemView::UselessComponent(g.components[c].name);
    lemma_useless_component_found(g, c, g.components.len() as int);
    let a = stale_ownership(g, g.components.len() as int);
    let b = missing_owners(g, g.packages.len() as int);
    let u = useless_components(g, g.components.len() as int);
    let d = rename_chains(g, g.packages.len() as int);
    let e = obsolete_required(g, g.packages.len() as int);
    lemma_contains_either(a + b, u, x);
    lemma_contains_either(a + b + u, d, x);
    lemma_contains_either(a + b + u + d, e, x);
    lemma_found_is_listed(g, x);
}

proof fn lemma_component_ownership_found(g: GraphView, c: int, j: int, m: int)
    requires
        0 <= j < m <= g.components[c].packages.len(),
        ownership_problem(g, c, j) is Some,
    ensures
        component_ownership(g, c, m).contains(ownership_problem(g, c, j)->0),
    decreases m,
{
    let x = ownership_problem(g, c, j)->0;
    if j < m - 1 {
        lemma_component_ownership_found(g, c, j, m - 1);
    }
    lemma_contains_optional(component_ownership(g, c, m - 1), ownership_problem(g, c, m - 1), x);
}

proof fn lemma_stale_ownership_found(g: GraphView, c: int, j: int, k: int)
    requires
        0 <= c < k <= g.components.len(),
        0 <= j < g.components[c].packages.len(),
        ownership_problem(g, c, j) is Some,
    ensures
        stale_ownership(g, k).contains(ownership_problem(g, c, j)->0),
    decreases k,
{
    let x = ownership_problem(g, c, j)->0;
    if c < k - 1 {
        lemma_stale_ownership_found(g, c, j, k - 1);
    } else {
        lemma_component_ownership_found(g, c, j, g.components[c].packages.len() as int);
    }
    lemma_contains_either(
        stale_ownership(g, k - 1),
        component_ownership(g, k - 1, g.components[k - 1].packages.len() as int),
        x,
    );
}

/// Stale ownership is reported. After the checks the list of problems
/// stands, for every obsolete or renamed package that a component claims,
/// for the problem of that package and that component.
pub proof fn lemma_stale_ownership_reported(g: GraphView, c: int, j: int)
    requires
        0 <= c < g.components.len(),
        0 <= j < g.components[c].packages.len(),
        ownership_problem(g, c, j) is Some,
    ensures
        listed(checked(g).problems, normalized(ownership_problem(g, c, j)->0)),
{
    let x = ownership_problem(g, c, j)->0;
    lemma_stale_ownership_found(g, c, j, g.components.len() as int);
    let a = stale_ownership(g, g.components.len() as int);
    let b = missing_owners(g, g.packages.len() as int);
    let u = useless_components(g, g.components.len() as int);
    let d = rename_chains(g, g.packages.len() as int);
    let e = obsolete_required(g, g.packages.len() as int);
    lemma_contains_either(a, b, x);
    lemma_contains_either(a + b, u, x);
    lemma_contains_either(a + b + u, d, x);
    lemma_contains_either(a + b + u + d, e, x);
    lemma_found_is_listed(g, x);
}

proof fn lemma_obsolete_for_packages_found(g: GraphView, p: PackageView, j: int, m: int)
    requires
        0 <= j < m <= p.runtime_dependents.len(),
        needed_by_package(g, p, j) is Some,
    ensures
        obsolete_for_packages(g, p, m).contains(needed_by_package(g, p, j)->0),
    decreases m,
{
    let x = needed_by_package(g, p, j)->0;
    if j < m - 1 {
        lemma_obsolete_for_packages_found(g, p, j, m - 1);
    }
    lemma_contains_optional(obsolete_for_packages(g, p, m - 1), needed_by_package(g, p, m - 1), x);
}

proof fn lemma_obsolete_required_found(g: GraphView, i: int, j: int, k: int)
    requires
        0 <= i < k <= g.packages.len(),
        g.packages[i].obsolete,
        0 <= j < g.packages[i].runtime_dependents.len(),
        needed_by_package(g, g.packages[i], j) is Some,
    ensures
        obsolete_required(g, k).contains(needed_by_package(g, g.packages[i], j)->0),
    decreases k,
{
    let p = g.packages[i];
    let x = needed_by_package(g, p, j)->0;
    if i < k - 1 {
        lemma_obsolete_required_found(g, i, j, k - 1);
        if g.packages[k - 1].obsolete {
            lemma_contains_either(
                obsolete_required(g, k - 1),
                obsolete_required_of(g, g.packages[k - 1]),
                x,
            );
        }
    } else {
        lemma_obsolete_for_packages_found(g, p, j, p.runtime_dependents.len() as int);
        let b = obsolete_for_components(
            g,
            p,
            p.build_dependents,
            DependencyTypes::Build,
            p.build_dependents.len() as int,
        );
        let sb = obsolete_for_components(
            g,
            p,
            p.sys_build_dependents,
            DependencyTypes::SystemBuild,
            p.sys_build_dependents.len() as int,
        );
        let t = obsolete_for_components(
            g,
            p,
            p.test_dependents,
            DependencyTypes::Test,
            p.test_dependents.len() as int,
        );
        let st = obsolete_for_components(
            g,
            p,
            p.sys_test_dependents,
            DependencyTypes::SystemTest,
            p.sys_test_dependents.len() as int,
        );
        lemma_contains_either(
            b + sb + t + st,
            obsolete_for_packages(g, p, p.runtime_dependents.len() as int),
            x,
        );
        lemma_contains_either(obsolete_required(g, k - 1), obsolete_required_of(g, p), x);
    }
}

/// Stale dependencies are reported. After the checks the list of problems
/// stands, for every obsolete package and every package that needs it at
/// runtime other than by incorporating it and is not itself obsolete, for
/// the problem of that dependency.
pub proof fn lemma_obsolete_required_reported(g: GraphView, i: int, j: int)
    requires
        0 <= i < g.packages.len(),
        g.packages[i].obsolete,
        0 <= j < g.packages[i].runtime_dependents.len(),
        needed_by_package(g, g.packages[i], j) is Some,
    ensures
        listed(checked(g).problems, normalized(needed_by_package(g, g.packages[i], j)->0)),
{
    let x = needed_by_package(g, g.packages[i], j)->0;
    lemma_obsolete_required_found(g, i, j, g.packages.len() as int);
    let a = stale_ownership(g, g.components.len() as int);
    let b = missing_owners(g, g.packages.len() as int);
    let u = useless_components(g, g.components.len() as int);
    let d = rename_chains(g, g.packages.len() as int);
    let e = obsolete_required(g, g.packages.len() as int);
    lemma_contains_either(a + b + u + d, e, x);
    lemma_found_is_listed(g, x);
}

proof fn lemma_obsolete_for_components_found(
    g: GraphView,
    p: PackageView,
    dependents: Seq<usize>,
    t: DependencyTypes,
    j: int,
    m: int,
)
    requires
        0 <= j < m <= dependents.len(),
    ensures
        obsolete_for_components(g, p, dependents, t, m).contains(
            needed_by_component(g, p, dependents[j], t),
        ),
    decreases m,
{
    let x = needed_by_component(g, p, dependents[j], t);
    let before = obsolete_for_components(g, p, dependents, t, m - 1);
    if j < m - 1 {
        lemma_obsolete_for_components_found(g, p, dependents, t, j, m - 1);
        let i = choose|i: int| 0 <= i < before.len() && before[i] == x;
        assert(obsolete_for_components(g, p, dependents, t, m)[i] == x);
    } else {
        assert(obsolete_for_components(g, p, dependents, t, m)[before.len() as int] == x);
    }
}

proof fn lemma_obsolete_component_found(g: GraphView, i: int, t: DependencyTypes, j: int, k: int)
    requires
        0 <= i < k <= g.packages.len(),
        g.packages[i].obsolete,
        0 <= j < dependents_of(g.packages[i], t).len(),
    ensures
        obsolete_required(g, k).contains(
            needed_by_component(g, g.packages[i], dependents_of(g.packages[i], t)[j], t),
        ),
    decreases k,
{
    let p = g.packages[i];
    let x = needed_by_component(g, p, dependents_of(p, t)[j], t);
    if i < k - 1 {
        lemma_obsolete_component_found(g, i, t, j, k - 1);
        if g.packages[k - 1].obsolete {
            lemma_contains_either(
                obsolete_required(g, k - 1),
                obsolete_required_of(g, g.packages[k - 1]),
                x,
            );
        }
    } else {
        lemma_obsolete_for_components_found(
            g,
            p,
            dependents_of(p, t),
            t,
            j,
            dependents_of(p, t).len() as int,
        );
        let b = obsolete_for_components(
            g,
            p,
            p.build_dependents,
            DependencyTypes::Build,
            p.build_dependents.len() as int,
        );
        let sb = obsolete_for_components(
            g,
            p,
            p.sys_build_dependents,
            DependencyTypes::SystemBuild,
            p.sys_build_dependents.len() as int,
        );
        let te = obsolete_for_components(
            g,
            p,
            p.test_dependents,
            DependencyTypes::Test,
            p.test_dependents.len() as int,
        );
        let st = obsolete_for_components(
            g,
            p,
            p.sys_test_dependents,
            DependencyTypes::SystemTest,
            p.sys_test_dependents.len() as int,
        );
        let r = obsolete_for_packages(g, p, p.runtime_dependents.len() as int);
        match t {
            DependencyTypes::Runtime => {},
            DependencyTypes::Build => {
                lemma_contains_either(b, sb, x);
                lemma_contains_either(b + sb, te, x);
                lemma_contains_either(b + sb + te, st, x);
            },
            DependencyTypes::SystemBuild => {
                lemma_contains_either(b, sb, x);
                lemma_contains_either(b + sb, te, x);
                lemma_contains_either(b + sb + te, st, x);
            },
            DependencyTypes::Test => {
                lemma_contains_either(b + sb, te, x);
                lemma_contains_either(b + sb + te, st, x);
            },
            DependencyTypes::SystemTest => {
                lemma_contains_either(b + sb + te, st, x);
            },
        }
        lemma_contains_either(b + sb + te + st, r, x);
        lemma_contains_either(obsolete_required(g, k - 1), obsolete_required_of(g, p), x);
    }
}

/// No obsolete package is needed by a component without being flagged.
/// After the checks the list of problems stands, for every obsolete package
/// and every component that needs it to build, to test, or from the system
/// to build or to test, for the problem of that dependency.
pub proof fn lemma_obsolete_component_dependency_reported(g: GraphView, i: int, t: DependencyTypes, j: int)
    requires
        0 <= i < g.packages.len(),
        g.packages[i].obsolete,
        0 <= j < dependents_of(g.packages[i], t).len(),
    ensures
        listed(
            checked(g).problems,
            normalized(
                needed_by_component(
                    g,
                    g.packages[i],
                    dependents_of(g.packages[i], t)[j],
                    t,
                ),
            ),
        ),
{
    let x = needed_by_component(g, g.packages[i], dependents_of(g.packages[i], t)[j], t);
    lemma_obsolete_component_found(g, i, t, j, g.packages.len() as int);
    let a = stale_ownership(g, g.components.len() as int);
    let b = missing_owners(g, g.packages.len() as int);
    let u = useless_components(g, g.components.len() as int);
    let d = rename_chains(g, g.packages.len() as int);
    let e = obsolete_required(g, g.packages.len() as int);
    lemma_contains_either(a + b + u + d, e, x);
    lemma_found_is_listed(g, x);
}

proof fn lemma_renamed_dependents_found(g: GraphView, p: PackageView, j: int, m: int)
    requires
        0 <= j < m <= p.runtime_dependents.len(),
        needed_by_renamed(g, p, j) is Some,
    ensures
        renamed_dependents(g, p, m).contains(needed_by_renamed(g, p, j)->0),
    decreases m,
{
    let x = needed_by_renamed(g, p, j)->0;
    if j < m - 1 {
        lemma_renamed_dependents_found(g, p, j, m - 1);
    }
    lemma_contains_optional(renamed_dependents(g, p, m - 1), needed_by_renamed(g, p, m - 1), x);
}

proof fn lemma_rename_chain_found(g: GraphView, i: int, j: int, k: int)
    requires
        0 <= i < k <= g.packages.len(),
        g.packages[i].renamed,
        0 <= j < g.packages[i].runtime_dependents.len(),
        needed_by_renamed(g, g.packages[i], j) is Some,
    ensures
        rename_chains(g, k).contains(needed_by_renamed(g, g.packages[i], j)->0),
    decreases k,
{
    let p = g.packages[i];
    let x = needed_by_renamed(g, p, j)->0;
    if i < k - 1 {
        lemma_rename_chain_found(g, i, j, k - 1);
        if g.packages[k - 1].renamed {
            lemma_contains_either(rename_chains(g, k - 1), rename_chain_of(g, g.packages[k - 1]), x);
        }
    } else {
        lemma_renamed_dependents_found(g, p, j, p.runtime_dependents.len() as int);
        let first = renamed_dependents(g, p, p.runtime_dependents.len() as int);
        match p.component {
            None => {},
            Some(c) => {
                let component = g.components[c as int];
                let b = renamed_needs(g, p, component.build, component.build.len() as int);
                let t = renamed_needs(g, p, component.test, component.test.len() as int);
                let sb = renamed_needs(g, p, component.sys_build, component.sys_build.len() as int);
                let st = renamed_needs(g, p, component.sys_test, component.sys_test.len() as int);
                lemma_contains_either(first, b, x);
                lemma_contains_either(first + b, t, x);
                lemma_contains_either(first + b + t, sb, x);
                lemma_contains_either(first + b + t + sb, st, x);
            },
        }
        lemma_contains_either(rename_chains(g, k - 1), rename_chain_of(g, p), x);
    }
}

/// Open rename chains are reported. After the checks the list of problems
/// stands, for every renamed package and every renamed package that needs
/// it at runtime, for the problem of the two.
pub proof fn lemma_rename_chain_reported(g: GraphView, i: int, j: int)
    requires
        0 <= i < g.packages.len(),
        g.packages[i].renamed,
        0 <= j < g.packages[i].runtime_dependents.len(),
        needed_by_renamed(g, g.packages[i], j) is Some,
    ensures
        listed(checked(g).problems, normalized(needed_by_renamed(g, g.packages[i], j)->0)),
{
    let x = needed_by_renamed(g, g.packages[i], j)->0;
    lemma_rename_chain_found(g, i, j, g.packages.len() as int);
    let a = stale_ownership(g, g.components.len() as int);
    let b = missing_owners(g, g.packages.len() as int);
    let u = useless_components(g, g.components.len() as int);
    let d = rename_chains(g, g.packages.len() as int);
    let e = obsolete_required(g, g.packages.len() as int);
    lemma_contains_either(a + b + u, d, x);
    lemma_contains_either(a + b + u + d, e, x);
    lemma_found_is_listed(g, x);
}

/// Appends a problem to a list.
fn found_one(found: &mut Vec<Problem>, problem: Problem)
    ensures
        problem_views(final(found)@) == problem_views(old(found)@).push(problem@),
{
    found.push(problem);
    assert(problem_views(found@) =~= problem_views(old(found)@).push(problem@));
}

/// Whether nothing needs the package.
fn is_unneeded(p: &Package) -> (r: bool)
    ensures
        r == unneeded(p@),
{
    if p.is_obsolete() || p.is_renamed() {
        return true;
    }
    let mut j: usize = 0;
    while j < p.runtime_dependents.len()
        invariant
            j <= p.runtime_dependents.len(),
            !p@.obsolete,
            !p@.renamed,
            forall|k: int| 0 <= k < j ==> is_incorporate(#[trigger] p@.runtime_dependents[k]),
        decreases p.runtime_dependents.len() - j,
    {
        proof {
            assert(p@.runtime_dependents[j as int] == p.runtime_dependents@[j as int]@);
        }
        match &p.runtime_dependents[j] {
            RevDependType::Incorporate(_) => {},
            _ => {
                proof {
                    assert(!is_incorporate(p@.runtime_dependents[j as int]));
                }
                return false;
            },
        }
        j += 1;
    }
    p.build_dependents.len() == 0 && p.test_dependents.len() == 0 && p.sys_build_dependents.len()
        == 0 && p.sys_test_dependents.len() == 0
}

impl Components {
    /// Stale ownership.
    fn find_stale_ownership(&self, found: &mut Vec<Problem>)
        requires
            self.wf(),
        ensures
            problem_views(final(found)@) == problem_views(old(found)@) + stale_ownership(
                self@,
                self@.components.len() as int,
            ),
    {
        let ghost g = self@;
        let ghost start = problem_views(found@);
        proof {
            self.lemma_wf();
            assert(start + stale_ownership(g, 0) =~= start);
        }
        let components = self.get_components();
        let packages = self.get_packages();
        let mut c: usize = 0;
        while c < components.len()
            invariant
                c <= components.len(),
                graph_wf(g),
                g.components == component_views(components@),
                g.packages == package_views(packages@),
                problem_views(found@) == start + stale_ownership(g, c as int),
            decreases components.len() - c,
        {
            let component = &components[c];
            proof {
                assert(g.components[c as int] == component@);
                assert(component_links_ok(g.components[c as int], g.packages.len() as int));
            }
            let ghost middle = problem_views(found@);
            let mut j: usize = 0;
            proof {
                assert(middle + component_ownership(g, c as int, 0) =~= middle);
            }
            while j < component.packages.len()
                invariant
                    j <= component.packages.len(),
                    c < components.len(),
                    g.components[c as int] == component@,
                    g.packages == package_views(packages@),
                    handles_below(component@.packages, g.packages.len() as int),
                    problem_views(found@) == middle + component_ownership(g, c as int, j as int),
                decreases component.packages.len() - j,
            {
                let p = component.packages[j];
                proof {
                    assert(component@.packages[j as int] < g.packages.len());
                    assert(g.packages[p as int] == packages@[p as int]@);
                }
                let package = &packages[p];
                if package.is_obsolete() {
                    found_one(
                        found,
                        Problem::ObsoletedPackageInComponent(
                            package.fmri.clone(),
                            component.name.clone(),
                        ),
                    );
                } else if package.is_renamed() {
                    found_one(
                        found,
                        Problem::RenamedPackageInComponent(
                            package.fmri.clone(),
                            component.name.clone(),
                        ),
                    );
                }
                proof {
                    let a = component_ownership(g, c as int, j as int);
                    let o = ownership_problem(g, c as int, j as int);
                    assert(middle + with_optional(a, o) =~= with_optional(middle + a, o));
                }
                j += 1;
            }
            proof {
                let a = stale_ownership(g, c as int);
                let b = component_ownership(g, c as int, g.components[c as int].packages.len() as int);
                assert((start + a) + b =~= start + (a + b));
            }
            c += 1;
        }
    }

    /// Missing owners.
    fn find_missing_owners(&self, found: &mut Vec<Problem>)
        ensures
            problem_views(final(found)@) == problem_views(old(found)@) + missing_owners(
                self@,
                self@.packages.len() as int,
            ),
    {
        let ghost g = self@;
        let ghost start = problem_views(found@);
        let packages = self.get_packages();
        let mut i: usize = 0;
        proof {
            assert(start + missing_owners(g, 0) =~= start);
        }
        while i < packages.len()
            invariant
                i <= packages.len(),
                g.packages == package_views(packages@),
                problem_views(found@) == start + missing_owners(g, i as int),
            decreases packages.len() - i,
        {
            let package = &packages[i];
            proof {
                assert(g.packages[i as int] == package@);
            }
            if package.component.is_none() && !package.is_renamed() && !package.is_obsolete() {
                found_one(found, Problem::MissingComponentForPackage(package.fmri.clone()));
            }
            proof {
                let a = missing_owners(g, i as int);
                let o = owner_problem(g.packages[i as int]);
                assert(start + with_optional(a, o) =~= with_optional(start + a, o));
            }
            i += 1;
        }
    }

    /// Whether nothing needs any package that the component claims.
    fn is_useless(&self, c: usize) -> (r: bool)
        requires
            self.wf(),
            c < self@.components.len(),
        ensures
            r == useless(self@, c as int),
    {
        let ghost g = self@;
        proof {
            self.lemma_wf();
        }
        let components = self.get_components();
        let packages = self.get_packages();
        let component = &components[c];
        proof {
            assert(g.components[c as int] == component@);
            assert(component_links_ok(g.components[c as int], g.packages.len() as int));
        }
        let mut j: usize = 0;
        while j < component.packages.len()
            invariant
                j <= component.packages.len(),
                c < g.components.len(),
                g == self@,
                g.components[c as int] == component@,
                g.packages == package_views(packages@),
                handles_below(component@.packages, g.packages.len() as int),
                forall|k: int|
                    0 <= k < j ==> unneeded(g.packages[(#[trigger] g.components[c as int].packages[k]) as int]),
            decreases component.packages.len() - j,
        {
            let p = component.packages[j];
            proof {
                assert(component@.packages[j as int] < g.packages.len());
                assert(g.packages[p as int] == packages@[p as int]@);
            }
            if !is_unneeded(&packages[p]) {
                proof {
                    assert(!unneeded(g.packages[g.components[c as int].packages[j as int] as int]));
                }
                return false;
            }
            j += 1;
        }
        true
    }

    /// Useless components.
    fn find_useless_components(&self, found: &mut Vec<Problem>)
        requires
            self.wf(),
        ensures
            problem_views(final(found)@) == problem_views(old(found)@) + useless_components(
                self@,
                self@.components.len() as int,
            ),
    {
        let ghost g = self@;
        let ghost start = problem_views(found@);
        let components = self.get_components();
        let mut c: usize = 0;
        proof {
            assert(start + useless_components(g, 0) =~= start);
        }
        while c < components.len()
            invariant
                c <= components.len(),
                self.wf(),
                self@ == g,
                g.components == component_views(components@),
                problem_views(found@) == start + useless_components(g, c as int),
            decreases components.len() - c,
        {
            proof {
                assert(g.components[c as int] == components@[c as int]@);
            }
            if self.is_useless(c) {
                found_one(found, Problem::UselessComponent(components[c].name.clone()));
                proof {
                    let a = useless_components(g, c as int);
                    let x = ProblemView::UselessComponent(g.components[c as int].name);
                    assert(start + a.push(x) =~= (start + a).push(x));
                }
            }
            c += 1;
        }
    }

    /// The renamed packages that a renamed package needs in one context of
    /// its component.
    fn find_renamed_needs(&self, found: &mut Vec<Problem>, package: &Package, needs: &Vec<usize>)
        requires
            handles_below(needs@, self@.packages.len() as int),
        ensures
            problem_views(final(found)@) == problem_views(old(found)@) + renamed_needs(
                self@,
                package@,
                needs@,
                needs@.len() as int,
            ),
    {
        let ghost g = self@;
        let ghost start = problem_views(found@);
        let packages = self.get_packages();
        let mut j: usize = 0;
        proof {
            assert(start + renamed_needs(g, package@, needs@, 0) =~= start);
        }
        while j < needs.len()
            invariant
                j <= needs.len(),
                g.packages == package_views(packages@),
                handles_below(needs@, g.packages.len() as int),
                problem_views(found@) == start + renamed_needs(g, package@, needs@, j as int),
            decreases needs.len() - j,
        {
            let q = needs[j];
            proof {
                assert(needs@[j as int] < g.packages.len());
                assert(g.packages[q as int] == packages@[q as int]@);
            }
            if packages[q].is_renamed() {
                found_one(
                    found,
                    Problem::RenamedNeedsRenamed(package.fmri.clone(), packages[q].fmri.clone()),
                );
            }
            proof {
                let a = renamed_needs(g, package@, needs@, j as int);
                let o = needs_renamed(g, package@, needs@, j as int);
                assert(start + with_optional(a, o) =~= with_optional(start + a, o));
            }
            j += 1;
        }
    }

    /// The open rename chains at one renamed package.
    fn find_rename_chain_of(&self, found: &mut Vec<Problem>, i: usize)
        requires
            self.wf(),
            i < self@.packages.len(),
        ensures
            problem_views(final(found)@) == problem_views(old(found)@) + rename_chain_of(
                self@,
                self@.packages[i as int],
            ),
    {
        let ghost g = self@;
        let ghost start = problem_views(found@);
        proof {
            self.lemma_wf();
        }
        let packages = self.get_packages();
        let components = self.get_components();
        let package = &packages[i];
        proof {
            assert(g.packages[i as int] == package@);
            assert(package_links_ok(g.packages[i as int], g.components.len() as int));
            assert(start + renamed_dependents(g, package@, 0) =~= start);
        }
        let mut j: usize = 0;
        while j < package.runtime_dependents.len()
            invariant
                j <= package.runtime_dependents.len(),
                self.wf(),
                self@ == g,
                g.packages == package_views(packages@),
                problem_views(found@) == start + renamed_dependents(g, package@, j as int),
            decreases package.runtime_dependents.len() - j,
        {
            proof {
                assert(package@.runtime_dependents[j as int] == package.runtime_dependents@[j as int]@);
            }
            let by = package.runtime_dependents[j].get_fmri();
            match self.get_package_by_fmri(by) {
                Ok(b) => {
                    proof {
                        assert(g.packages[b as int] == packages@[b as int]@);
                    }
                    if packages[b].is_renamed() {
                        found_one(
                            found,
                            Problem::RenamedNeedsRenamed(
                                packages[b].fmri.clone(),
                                package.fmri.clone(),
                            ),
                        );
                    }
                },
                Err(_) => {},
            }
            proof {
                let a = renamed_dependents(g, package@, j as int);
                let o = needed_by_renamed(g, package@, j as int);
                assert(start + with_optional(a, o) =~= with_optional(start + a, o));
            }
            j += 1;
        }
        match package.component {
            None => {},
            Some(c) => {
                let component = &components[c];
                proof {
                    assert(g.components[c as int] == component@);
                    assert(component_links_ok(g.components[c as int], g.packages.len() as int));
                }
                self.find_renamed_needs(found, package, &component.build);
                self.find_renamed_needs(found, package, &component.test);
                self.find_renamed_needs(found, package, &component.sys_build);
                self.find_renamed_needs(found, package, &component.sys_test);
                proof {
                    let first = renamed_dependents(g, package@, package@.runtime_dependents.len() as int);
                    let b = renamed_needs(g, package@, component@.build, component@.build.len() as int);
                    let t = renamed_needs(g, package@, component@.test, component@.test.len() as int);
                    let sb = renamed_needs(
                        g,
                        package@,
                        component@.sys_build,
                        component@.sys_build.len() as int,
                    );
                    let st = renamed_needs(
                        g,
                        package@,
                        component@.sys_test,
                        component@.sys_test.len() as int,
                    );
                    assert(((((start + first) + b) + t) + sb) + st =~= start + ((((first + b) + t)
                        + sb) + st));
                }
            },
        }
    }

    /// Open rename chains.
    fn find_rename_chains(&self, found: &mut Vec<Problem>)
        requires
            self.wf(),
        ensures
            problem_views(final(found)@) == problem_views(old(found)@) + rename_chains(
                self@,
                self@.packages.len() as int,
            ),
    {
        let ghost g = self@;
        let ghost start = problem_views(found@);
        let packages = self.get_packages();
        let mut i: usize = 0;
        proof {
            assert(start + rename_chains(g, 0) =~= start);
        }
        while i < packages.len()
            invariant
                i <= packages.len(),
                self.wf(),
                self@ == g,
                g.packages == package_views(packages@),
                problem_views(found@) == start + rename_chains(g, i as int),
            decreases packages.len() - i,
        {
            proof {
                assert(g.packages[i as int] == packages@[i as int]@);
            }
            if packages[i].is_renamed() {
                self.find_rename_chain_of(found, i);
                proof {
                    let a = rename_chains(g, i as int);
                    let b = rename_chain_of(g, g.packages[i as int]);
                    assert((start + a) + b =~= start + (a + b));
                }
            }
            i += 1;
        }
    }

    /// The components that need an obsolete package in one context.
    fn find_obsolete_for_components(
        &self,
        found: &mut Vec<Problem>,
        package: &Package,
        dependents: &Vec<usize>,
        t: DependencyTypes,
    )
        requires
            handles_below(dependents@, self@.components.len() as int),
        ensures
            problem_views(final(found)@) == problem_views(old(found)@) + obsolete_for_components(
                self@,
                package@,
                dependents@,
                t,
                dependents@.len() as int,
            ),
    {
        let ghost g = self@;
        let ghost start = problem_views(found@);
        let components = self.get_components();
        let fully = package.versions.len() == 0 || package.versions[0].is_obsolete();
        proof {
            if package.versions.len() > 0 {
                assert(package@.versions[0] == package.versions@[0]@);
            }
            assert(fully == fully_obsolete(package@));
            assert(start + obsolete_for_components(g, package@, dependents@, t, 0) =~= start);
        }
        let mut j: usize = 0;
        while j < dependents.len()
            invariant
                j <= dependents.len(),
                g.components == component_views(components@),
                handles_below(dependents@, g.components.len() as int),
                fully == fully_obsolete(package@),
                problem_views(found@) == start + obsolete_for_components(
                    g,
                    package@,
                    dependents@,
                    t,
                    j as int,
                ),
            decreases dependents.len() - j,
        {
            let c = dependents[j];
            proof {
                assert(dependents@[j as int] < g.components.len());
                assert(g.components[c as int] == components@[c as int]@);
            }
            let d = DependTypes::Require(package.fmri.clone());
            let name = components[c].name.clone();
            let problem = if fully {
                Problem::ObsoletedRequired(d, t, Fmri::none(), name)
            } else {
                Problem::PartlyObsoletedRequired(d, t, Fmri::none(), name)
            };
            found_one(found, problem);
            proof {
                let a = obsolete_for_components(g, package@, dependents@, t, j as int);
                let x = needed_by_component(g, package@, dependents@[j as int], t);
                assert(start + a.push(x) =~= (start + a).push(x));
            }
            j += 1;
        }
    }

    /// The packages that need an obsolete package at runtime.
    fn find_obsolete_for_packages(&self, found: &mut Vec<Problem>, package: &Package)
        requires
            self.wf(),
        ensures
            problem_views(final(found)@) == problem_views(old(found)@) + obsolete_for_packages(
                self@,
                package@,
                package@.runtime_dependents.len() as int,
            ),
    {
        let ghost g = self@;
        let ghost start = problem_views(found@);
        let packages = self.get_packages();
        let fully = package.versions.len() == 0 || package.versions[0].is_obsolete();
        proof {
            if package.versions.len() > 0 {
                assert(package@.versions[0] == package.versions@[0]@);
            }
            assert(start + obsolete_for_packages(g, package@, 0) =~= start);
        }
        let mut j: usize = 0;
        while j < package.runtime_dependents.len()
            invariant
                j <= package.runtime_dependents.len(),
                self.wf(),
                self@ == g,
                g.packages == package_views(packages@),
                fully == fully_obsolete(package@),
                problem_views(found@) == start + obsolete_for_packages(g, package@, j as int),
            decreases package.runtime_dependents.len() - j,
        {
            proof {
                assert(package@.runtime_dependents[j as int] == package.runtime_dependents@[j as int]@);
            }
            let entry = &package.runtime_dependents[j];
            let incorporate = match entry {
                RevDependType::Incorporate(_) => true,
                _ => false,
            };
            if !incorporate {
                let by = entry.get_fmri();
                let (obsolete, renamed) = match self.get_package_by_fmri(by) {
                    Ok(b) => {
                        proof {
                            assert(g.packages[b as int] == packages@[b as int]@);
                        }
                        (packages[b].is_obsolete(), packages[b].is_renamed())
                    },
                    Err(_) => (false, false),
                };
                if !obsolete {
                    let d = DependTypes::Require(package.fmri.clone());
                    let problem = if renamed {
                        if fully {
                            Problem::ObsoletedRequiredByRenamed(d, DependencyTypes::Runtime, by.clone())
                        } else {
                            Problem::PartlyObsoletedRequiredByRenamed(
                                d,
                                DependencyTypes::Runtime,
                                by.clone(),
                            )
                        }
                    } else {
                        if fully {
                            Problem::ObsoletedRequired(
                                d,
                                DependencyTypes::Runtime,
                                by.clone(),
                                String::new(),
                            )
                        } else {
                            Problem::PartlyObsoletedRequired(
                                d,
                                DependencyTypes::Runtime,
                                by.clone(),
                                String::new(),
                            )
                        }
                    };
                    found_one(found, problem);
                }
            }
            proof {
                let a = obsolete_for_packages(g, package@, j as int);
                let o = needed_by_package(g, package@, j as int);
                assert(start + with_optional(a, o) =~= with_optional(start + a, o));
            }
            j += 1;
        }
    }

    /// Stale dependencies.
    fn find_obsolete_required(&self, found: &mut Vec<Problem>)
        requires
            self.wf(),
        ensures
            problem_views(final(found)@) == problem_views(old(found)@) + obsolete_required(
                self@,
                self@.packages.len() as int,
            ),
    {
        let ghost g = self@;
        let ghost start = problem_views(found@);
        proof {
            self.lemma_wf();
        }
        let packages = self.get_packages();
        let mut i: usize = 0;
        proof {
            assert(start + obsolete_required(g, 0) =~= start);
        }
        while i < packages.len()
            invariant
                i <= packages.len(),
                self.wf(),
                self@ == g,
                graph_wf(g),
                g.packages == package_views(packages@),
                problem_views(found@) == start + obsolete_required(g, i as int),
            decreases packages.len() - i,
        {
            let package = &packages[i];
            proof {
                assert(g.packages[i as int] == package@);
                assert(package_links_ok(g.packages[i as int], g.components.len() as int));
            }
            if package.is_obsolete() {
                let ghost middle = problem_views(found@);
                self.find_obsolete_for_components(
                    found,
                    package,
                    &package.build_dependents,
                    DependencyTypes::Build,
                );
                self.find_obsolete_for_components(
                    found,
                    package,
                    &package.sys_build_dependents,
                    DependencyTypes::SystemBuild,
                );
                self.find_obsolete_for_components(
                    found,
                    package,
                    &package.test_dependents,
                    DependencyTypes::Test,
                );
                self.find_obsolete_for_components(
                    found,
                    package,
                    &package.sys_test_dependents,
                    DependencyTypes::SystemTest,
                );
                self.find_obsolete_for_packages(found, package);
                proof {
                    let a = obsolete_required(g, i as int);
                    let b = obsolete_required_of(g, g.packages[i as int]);
                    assert(problem_views(found@) =~= middle + b);
                    assert((start + a) + b =~= start + (a + b));
                }
            }
            i += 1;
        }
    }

    /// Everything that the checks find, in the order in which it is reported.
    pub fn find_problems(&self) -> (r: Vec<Problem>)
        requires
            self.wf(),
        ensures
            problem_views(r@) == check_candidates(self@),
    {
        let mut found: Vec<Problem> = Vec::new();
        proof {
            assert(problem_views(found@) =~= Seq::<ProblemView>::empty());
        }
        self.find_stale_ownership(&mut found);
        self.find_missing_owners(&mut found);
        self.find_useless_components(&mut found);
        self.find_rename_chains(&mut found);
        self.find_obsolete_required(&mut found);
        proof {
            let g = self@;
            let a = stale_ownership(g, g.components.len() as int);
            let b = missing_owners(g, g.packages.len() as int);
            let c = useless_components(g, g.components.len() as int);
            let d = rename_chains(g, g.packages.len() as int);
            let e = obsolete_required(g, g.packages.len() as int);
            assert(((((Seq::<ProblemView>::empty() + a) + b) + c) + d) + e =~= (((a + b) + c) + d) + e);
        }
        found
    }

    /// Checks the finished graph and hands everything found to the list of
    /// problems: obsolete and renamed packages that a component still owns,
    /// packages without a component, components that nothing needs, renamed
    /// packages that need renamed packages, and obsolete packages that are
    /// still needed. The graph itself is not changed, and the check never
    /// fails.
    pub fn check_problems(&mut self) -> (r: Result<(), String>)
        requires
            old(self).wf(),
        ensures
            final(self).wf(),
            r is Ok,
            final(self)@ == checked(old(self)@),
    {
        let found = self.find_problems();
        self.report_all(found);
        Ok(())
    }
}

} // verus!
