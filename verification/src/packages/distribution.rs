//! Reverse runtime dependencies: every "A requires B" that a release
//! declares is turned into "B is required by A", kept by B.

use vstd::prelude::*;
use vstd::string::*;
use crate::identifier::{Fmri, FmriView, none_fmri};
use crate::packages::components::{Components, GraphView, package_index, package_at, graph_wf,
    with_runtime_dependents, rev_depend_lists};
use crate::packages::depend_types::{DependTypes, DependTypesView, fmri_views};
use crate::packages::dependency_type::DependencyTypes;
use crate::packages::package::{Package, PackageView, PackageVersion, PackageVersionView,
    rev_depend_views};
use crate::packages::rev_depend_type::{RevDependType, RevDependTypeView, requester};
use crate::problems::{Problem, ProblemView, problem_views, added_all};

verus! {

/// One runtime edge of the graph: the package at handle `from` declares a
/// dependency on the package that `target` names; `entry` is what the target
/// keeps of it.
pub struct RuntimeEdge {
    pub from: usize,
    pub entry: RevDependType,
    pub target: Fmri,
}

/// The mathematical content of a runtime edge.
pub struct RuntimeEdgeView {
    pub from: usize,
    pub entry: RevDependTypeView,
    pub target: FmriView,
}

impl View for RuntimeEdge {
    type V = RuntimeEdgeView;

    open spec fn view(&self) -> RuntimeEdgeView {
        RuntimeEdgeView { from: self.from, entry: self.entry@, target: self.target@ }
    }
}

/// The edges of a list, as mathematical values.
pub open spec fn edge_views(s: Seq<RuntimeEdge>) -> Seq<RuntimeEdgeView> {
    s.map_values(|e: RuntimeEdge| e@)
}

/// The edges that one declared dependency gives. A require-any dependency
/// gives one edge for each package of its list; a conditional dependency
/// gives two, one to the package asked for and one to the predicate.
pub open spec fn dep_edges(d: DependTypesView, from: usize, by: FmriView) -> Seq<RuntimeEdgeView> {
    match d {
        DependTypesView::Require(f) => seq![
            RuntimeEdgeView { from, entry: RevDependTypeView::Require(by), target: f },
        ],
        DependTypesView::Optional(f) => seq![
            RuntimeEdgeView { from, entry: RevDependTypeView::Optional(by), target: f },
        ],
        DependTypesView::Incorporate(f) => seq![
            RuntimeEdgeView { from, entry: RevDependTypeView::Incorporate(by), target: f },
        ],
        DependTypesView::RequireAny(l) => l.map_values(
            |f: FmriView| RuntimeEdgeView { from, entry: RevDependTypeView::RequireAny(by), target: f },
        ),
        DependTypesView::Conditional(f, p) => seq![
            RuntimeEdgeView { from, entry: RevDependTypeView::ConditionalFmri(by), target: f },
            RuntimeEdgeView { from, entry: RevDependTypeView::ConditionalPredicate(by), target: p },
        ],
        DependTypesView::Group(f) => seq![
            RuntimeEdgeView { from, entry: RevDependTypeView::Group(by), target: f },
        ],
    }
}

/// The edges of the first `n` dependencies of a release.
pub open spec fn version_edges(v: PackageVersionView, from: usize, by: FmriView, n: int) -> Seq<RuntimeEdgeView>
    decreases n,
{
    if n <= 0 {
        Seq::empty()
    } else {
        version_edges(v, from, by, n - 1) + dep_edges(v.runtime[n - 1], from, by)
    }
}

/// The edges of the first `m` releases of a package.
pub open spec fn package_edges(p: PackageView, from: usize, m: int) -> Seq<RuntimeEdgeView>
    decreases m,
{
    if m <= 0 {
        Seq::empty()
    } else {
        package_edges(p, from, m - 1) + version_edges(
            p.versions[m - 1],
            from,
            p.fmri,
            p.versions[m - 1].runtime.len() as int,
        )
    }
}

/// The edges of the first `k` packages of the graph.
pub open spec fn graph_edges(g: GraphView, k: int) -> Seq<RuntimeEdgeView>
    decreases k,
{
    if k <= 0 {
        Seq::empty()
    } else {
        graph_edges(g, k - 1) + package_edges(
            g.packages[k - 1],
            (k - 1) as usize,
            g.packages[k - 1].versions.len() as int,
        )
    }
}

/// Every runtime edge of the graph: package by package, release by release,
/// dependency by dependency.
pub open spec fn runtime_edges(g: GraphView) -> Seq<RuntimeEdgeView> {
    graph_edges(g, g.packages.len() as int)
}

/// The dependency that an edge stands for, as a problem reports it: of the
/// kind of the entry, on the target alone. Of a conditional dependency only
/// the side that the edge follows is named; the placeholder stands for the
/// other.
pub open spec fn declared(entry: RevDependTypeView, target: FmriView) -> DependTypesView {
    match entry {
        RevDependTypeView::Require(_) => DependTypesView::Require(target),
        RevDependTypeView::Optional(_) => DependTypesView::Optional(target),
        RevDependTypeView::Incorporate(_) => DependTypesView::Incorporate(target),
        RevDependTypeView::RequireAny(_) => DependTypesView::RequireAny(seq![target]),
        RevDependTypeView::ConditionalFmri(_) => DependTypesView::Conditional(target, none_fmri()),
        RevDependTypeView::ConditionalPredicate(_) => DependTypesView::Conditional(none_fmri(), target),
        RevDependTypeView::Group(_) => DependTypesView::Group(target),
    }
}

/// The problem that an edge to an unknown package is reported as.
pub open spec fn dangling(g: GraphView, e: RuntimeEdgeView) -> ProblemView {
    if g.packages[e.from as int].renamed {
        ProblemView::NonExistingRequiredByRenamed(
            declared(e.entry, e.target),
            DependencyTypes::Runtime,
            requester(e.entry),
        )
    } else {
        ProblemView::NonExistingRequired(
            declared(e.entry, e.target),
            DependencyTypes::Runtime,
            requester(e.entry),
            Seq::empty(),
        )
    }
}

/// The problems of the first `n` edges: one for each edge whose target the
/// graph does not know, in the order of the edges.
pub open spec fn dangling_problems(g: GraphView, edges: Seq<RuntimeEdgeView>, n: int) -> Seq<ProblemView>
    decreases n,
{
    if n <= 0 {
        Seq::empty()
    } else if package_index(g, edges[n - 1].target.name) is None {
        dangling_problems(g, edges, n - 1).push(dangling(g, edges[n - 1]))
    } else {
        dangling_problems(g, edges, n - 1)
    }
}

/// The reverse dependencies that each package keeps after the first `n`
/// edges: the target of an edge appends the edge's entry unless it already
/// keeps it.
pub open spec fn reverse_lists(g: GraphView, edges: Seq<RuntimeEdgeView>, n: int) -> Seq<Seq<RevDependTypeView>>
    decreases n,
{
    if n <= 0 {
        Seq::new(g.packages.len(), |i: int| Seq::<RevDependTypeView>::empty())
    } else {
        let before = reverse_lists(g, edges, n - 1);
        match package_index(g, edges[n - 1].target.name) {
            Some(b) => if before[b].contains(edges[n - 1].entry) {
                before
            } else {
                before.update(b, before[b].push(edges[n - 1].entry))
            },
            None => before,
        }
    }
}

/// The graph after distribution: every package keeps the reverse
/// dependencies that the runtime edges into it give, each once; for every
/// edge to an unknown package a problem is handed in.
pub open spec fn distributed(g: GraphView) -> GraphView {
    let edges = runtime_edges(g);
    let n = edges.len() as int;
    GraphView {
        problems: added_all(g.problems, dangling_problems(g, edges, n)),
        ..with_runtime_dependents(g, reverse_lists(g, edges, n))
    }
}

/// Whether the edge is one that the release at `version` of the package at
/// `from` declares as its dependency number `dep`.
pub open spec fn declares(g: GraphView, from: int, version: int, dep: int, e: RuntimeEdgeView) -> bool {
    &&& 0 <= from < g.packages.len()
    &&& 0 <= version < g.packages[from].versions.len()
    &&& 0 <= dep < g.packages[from].versions[version].runtime.len()
    &&& dep_edges(
        g.packages[from].versions[version].runtime[dep],
        from as usize,
        g.packages[from].fmri,
    ).contains(e)
}

proof fn lemma_version_edges(v: PackageVersionView, from: usize, by: FmriView, n: int, e: RuntimeEdgeView)
    requires
        0 <= n <= v.runtime.len(),
    ensures
        version_edges(v, from, by, n).contains(e) <==> exists|dep: int|
            0 <= dep < n && #[trigger] dep_edges(v.runtime[dep], from, by).contains(e),
    decreases n,
{
    if n > 0 {
        lemma_version_edges(v, from, by, n - 1, e);
        let a = version_edges(v, from, by, n - 1);
        let b = dep_edges(v.runtime[n - 1], from, by);
        if (a + b).contains(e) {
            let i = choose|i: int| 0 <= i < (a + b).len() && (a + b)[i] == e;
            if i < a.len() {
                assert(a[i] == e);
            } else {
                assert(b[i - a.len()] == e);
            }
        }
        if a.contains(e) {
            let i = choose|i: int| 0 <= i < a.len() && a[i] == e;
            assert((a + b)[i] == e);
        }
        if b.contains(e) {
            let i = choose|i: int| 0 <= i < b.len() && b[i] == e;
            assert((a + b)[a.len() + i] == e);
        }
    }
}

proof fn lemma_package_edges(p: PackageView, from: usize, m: int, e: RuntimeEdgeView)
    requires
        0 <= m <= p.versions.len(),
    ensures
        package_edges(p, from, m).contains(e) <==> exists|version: int, dep: int|
            0 <= version < m && 0 <= dep < p.versions[version].runtime.len() && #[trigger] dep_edges(
                p.versions[version].runtime[dep],
                from,
                p.fmri,
            ).contains(e),
    decreases m,
{
    if m > 0 {
        lemma_package_edges(p, from, m - 1, e);
        let v = p.versions[m - 1];
        lemma_version_edges(v, from, p.fmri, v.runtime.len() as int, e);
        let a = package_edges(p, from, m - 1);
        let b = version_edges(v, from, p.fmri, v.runtime.len() as int);
        if (a + b).contains(e) {
            let i = choose|i: int| 0 <= i < (a + b).len() && (a + b)[i] == e;
            if i < a.len() {
                assert(a[i] == e);
            } else {
                assert(b[i - a.len()] == e);
                let dep = choose|dep: int|
                    0 <= dep < v.runtime.len() && #[trigger] dep_edges(v.runtime[dep], from, p.fmri).contains(e);
                assert(dep_edges(p.versions[m - 1].runtime[dep], from, p.fmri).contains(e));
            }
        }
        if a.contains(e) {
            let i = choose|i: int| 0 <= i < a.len() && a[i] == e;
            assert((a + b)[i] == e);
        }
        if b.contains(e) {
            let i = choose|i: int| 0 <= i < b.len() && b[i] == e;
            assert((a + b)[a.len() + i] == e);
        }
    }
}

/// The runtime edges of the first `k` packages are exactly the edges that
/// their releases declare.
pub proof fn lemma_graph_edges(g: GraphView, k: int, e: RuntimeEdgeView)
    requires
        0 <= k <= g.packages.len(),
        g.packages.len() <= usize::MAX,
    ensures
        graph_edges(g, k).contains(e) <==> exists|from: int, version: int, dep: int|
            from < k && #[trigger] declares(g, from, version, dep, e),
    decreases k,
{
    if k > 0 {
        lemma_graph_edges(g, k - 1, e);
        let p = g.packages[k - 1];
        lemma_package_edges(p, (k - 1) as usize, p.versions.len() as int, e);
        let a = graph_edges(g, k - 1);
        let b = package_edges(p, (k - 1) as usize, p.versions.len() as int);
        if (a + b).contains(e) {
            let i = choose|i: int| 0 <= i < (a + b).len() && (a + b)[i] == e;
            if i < a.len() {
                assert(a[i] == e);
            } else {
                assert(b[i - a.len()] == e);
                let (version, dep) = choose|version: int, dep: int|
                    0 <= version < p.versions.len() && 0 <= dep < p.versions[version].runtime.len()
                        && #[trigger] dep_edges(
                        p.versions[version].runtime[dep],
                        (k - 1) as usize,
                        p.fmri,
                    ).contains(e);
                assert(declares(g, k - 1, version, dep, e));
            }
        }
        if a.contains(e) {
            let i = choose|i: int| 0 <= i < a.len() && a[i] == e;
            assert((a + b)[i] == e);
        }
        if b.contains(e) {
            let i = choose|i: int| 0 <= i < b.len() && b[i] == e;
            assert((a + b)[a.len() + i] == e);
        }
        if exists|from: int, version: int, dep: int|
            from < k && #[trigger] declares(g, from, version, dep, e) {
            let (from, version, dep) = choose|from: int, version: int, dep: int|
                from < k && #[trigger] declares(g, from, version, dep, e);
            if from == k - 1 {
                assert(dep_edges(p.versions[version].runtime[dep], (k - 1) as usize, p.fmri).contains(e));
            } else {
                assert(declares(g, from, version, dep, e));
            }
        }
    }
}

/// What each package keeps after the first `n` edges: an entry is kept by
/// the package at handle `b` exactly if one of those edges carries it to
/// that package, and no entry is kept twice.
pub proof fn lemma_reverse_lists(g: GraphView, edges: Seq<RuntimeEdgeView>, n: int)
    requires
        graph_wf(g),
        0 <= n <= edges.len(),
    ensures
        reverse_lists(g, edges, n).len() == g.packages.len(),
        forall|b: int| 0 <= b < g.packages.len() ==> (#[trigger] reverse_lists(g, edges, n)[b]).no_duplicates(),
        forall|b: int, x: RevDependTypeView|
            0 <= b < g.packages.len() ==> (#[trigger] reverse_lists(g, edges, n)[b].contains(x) <==> exists|k: int|
                0 <= k < n && (#[trigger] edges[k]).entry == x && package_index(
                    g,
                    edges[k].target.name,
                ) == Some(b)),
    decreases n,
{
    if n > 0 {
        lemma_reverse_lists(g, edges, n - 1);
        let before = reverse_lists(g, edges, n - 1);
        let after = reverse_lists(g, edges, n);
        let e = edges[n - 1];
        match package_index(g, e.target.name) {
            Some(t) => {
                assert(package_at(g, e.target.name, t));
                assert forall|b: int, x: RevDependTypeView| 0 <= b < g.packages.len() implies (
                #[trigger] after[b].contains(x) <==> exists|k: int|
                    0 <= k < n && (#[trigger] edges[k]).entry == x && package_index(
                        g,
                        edges[k].target.name,
                    ) == Some(b)) by {
                    if after[b].contains(x) {
                        if before[b].contains(x) {
                            let k = choose|k: int|
                                0 <= k < n - 1 && (#[trigger] edges[k]).entry == x && package_index(
                                    g,
                                    edges[k].target.name,
                                ) == Some(b);
                            assert(edges[k].entry == x);
                        } else {
                            let i = choose|i: int| 0 <= i < after[b].len() && after[b][i] == x;
                            assert(b == t);
                            if i < before[b].len() {
                                assert(before[b][i] == x);
                            }
                            assert(x == e.entry);
                            assert(edges[n - 1].entry == x);
                        }
                    }
                    if exists|k: int|
                        0 <= k < n && (#[trigger] edges[k]).entry == x && package_index(
                            g,
                            edges[k].target.name,
                        ) == Some(b) {
                        let k = choose|k: int|
                            0 <= k < n && (#[trigger] edges[k]).entry == x && package_index(
                                g,
                                edges[k].target.name,
                            ) == Some(b);
                        if k < n - 1 {
                            assert(before[b].contains(x));
                            let i = choose|i: int| 0 <= i < before[b].len() && before[b][i] == x;
                            assert(after[b][i] == x);
                        } else {
                            assert(b == t);
                            if before[b].contains(x) {
                                assert(after == before);
                            } else {
                                assert(after[b][before[b].len() as int] == x);
                            }
                        }
                    }
                }
                assert forall|b: int| 0 <= b < g.packages.len() implies (#[trigger] after[b]).no_duplicates() by {
                    assert(before[b].no_duplicates());
                    if b == t && !before[t].contains(e.entry) {
                        assert forall|i: int, j: int|
                            0 <= i < after[b].len() && 0 <= j < after[b].len() && i != j implies after[b][i]
                            != after[b][j] by {
                            if i < before[b].len() && j < before[b].len() {
                            } else if i < before[b].len() {
                                assert(before[b][i] != e.entry);
                            } else if j < before[b].len() {
                                assert(before[b][j] != e.entry);
                            }
                        }
                    }
                }
            },
            None => {
                assert forall|b: int, x: RevDependTypeView| 0 <= b < g.packages.len() implies (
                #[trigger] after[b].contains(x) <==> exists|k: int|
                    0 <= k < n && (#[trigger] edges[k]).entry == x && package_index(
                        g,
                        edges[k].target.name,
                    ) == Some(b)) by {
                    if after[b].contains(x) {
                        let k = choose|k: int|
                            0 <= k < n - 1 && (#[trigger] edges[k]).entry == x && package_index(
                                g,
                                edges[k].target.name,
                            ) == Some(b);
                        assert(edges[k].entry == x);
                    }
                    if exists|k: int|
                        0 <= k < n && (#[trigger] edges[k]).entry == x && package_index(
                            g,
                            edges[k].target.name,
                        ) == Some(b) {
                        let k = choose|k: int|
                            0 <= k < n && (#[trigger] edges[k]).entry == x && package_index(
                                g,
                                edges[k].target.name,
                            ) == Some(b);
                        assert(k < n - 1);
                    }
                }
            },
        }
    }
}

/// Reverse-dependency completeness. After distribution the package at
/// handle `b` keeps an entry exactly if the release of some package
/// declares a dependency that gives that entry and names the package at
/// `b`; it keeps no entry twice. So for every runtime edge from A to B of
/// kind K, B keeps exactly one entry (A, K), and each package keeps as many
/// entries as there are distinct edges into it.
pub proof fn lemma_distribution_complete(g: GraphView, b: int, x: RevDependTypeView)
    requires
        graph_wf(g),
        0 <= b < g.packages.len(),
    ensures
        distributed(g).packages.len() == g.packages.len(),
        distributed(g).packages[b].runtime_dependents.no_duplicates(),
        distributed(g).packages[b].runtime_dependents.contains(x) <==> exists|from: int, version: int, dep: int, target: FmriView|
            #[trigger] declares(
                g,
                from,
                version,
                dep,
                RuntimeEdgeView { from: from as usize, entry: x, target },
            ) && package_index(g, target.name) == Some(b),
{
    let edges = runtime_edges(g);
    let n = edges.len() as int;
    lemma_reverse_lists(g, edges, n);
    let lists = reverse_lists(g, edges, n);
    assert(distributed(g).packages[b].runtime_dependents == lists[b]);
    if lists[b].contains(x) {
        let k = choose|k: int|
            0 <= k < n && (#[trigger] edges[k]).entry == x && package_index(g, edges[k].target.name)
                == Some(b);
        let e = edges[k];
        assert(edges.contains(e));
        lemma_graph_edges(g, g.packages.len() as int, e);
        let (from, version, dep) = choose|from: int, version: int, dep: int|
            from < g.packages.len() && #[trigger] declares(g, from, version, dep, e);
        lemma_edge_from(g.packages[from].versions[version].runtime[dep], from as usize, g.packages[from].fmri, e);
        assert(e == RuntimeEdgeView { from: from as usize, entry: x, target: e.target });
        assert(declares(g, from, version, dep, RuntimeEdgeView { from: from as usize, entry: x, target: e.target }));
    }
    if exists|from: int, version: int, dep: int, target: FmriView|
        #[trigger] declares(g, from, version, dep, RuntimeEdgeView { from: from as usize, entry: x, target })
            && package_index(g, target.name) == Some(b) {
        let (from, version, dep, target) = choose|from: int, version: int, dep: int, target: FmriView|
            #[trigger] declares(g, from, version, dep, RuntimeEdgeView { from: from as usize, entry: x, target })
                && package_index(g, target.name) == Some(b);
        let e = RuntimeEdgeView { from: from as usize, entry: x, target };
        lemma_graph_edges(g, g.packages.len() as int, e);
        assert(edges.contains(e));
        let k = choose|k: int| 0 <= k < edges.len() && edges[k] == e;
        assert(edges[k].entry == x);
    }
}

/// The number of entries that the first `n` packages keep together.
pub open spec fn total_entries(lists: Seq<Seq<RevDependTypeView>>, n: int) -> nat
    decreases n,
{
    if n <= 0 {
        0
    } else {
        total_entries(lists, n - 1) + lists[n - 1].len()
    }
}

/// Among the first `n` edges, each leads to a package that the graph knows,
/// and no two carry the same entry to the same package.
pub open spec fn distinct_edges(g: GraphView, edges: Seq<RuntimeEdgeView>, n: int) -> bool {
    &&& forall|k: int| 0 <= k < n ==> package_index(g, (#[trigger] edges[k]).target.name) is Some
    &&& forall|i: int, j: int|
        0 <= i < j < n ==> !((#[trigger] edges[i]).entry == (#[trigger] edges[j]).entry
            && package_index(g, edges[i].target.name) == package_index(g, edges[j].target.name))
}

proof fn lemma_total_entries_grows(lists: Seq<Seq<RevDependTypeView>>, b: int, x: RevDependTypeView, n: int)
    requires
        0 <= b < lists.len(),
        0 <= n <= lists.len(),
    ensures
        total_entries(lists.update(b, lists[b].push(x)), n) == total_entries(lists, n) + if b < n {
            1nat
        } else {
            0nat
        },
    decreases n,
{
    if n > 0 {
        lemma_total_entries_grows(lists, b, x, n - 1);
    }
}

proof fn lemma_total_entries_empty(lists: Seq<Seq<RevDependTypeView>>, n: int)
    requires
        0 <= n <= lists.len(),
        forall|i: int| 0 <= i < lists.len() ==> (#[trigger] lists[i]).len() == 0,
    ensures
        total_entries(lists, n) == 0,
    decreases n,
{
    if n > 0 {
        lemma_total_entries_empty(lists, n - 1);
    }
}

/// Where every edge leads to a known package and no two edges carry the same
/// entry to the same package, the packages keep as many entries together as
/// there are edges.
pub proof fn lemma_reverse_lists_count(g: GraphView, edges: Seq<RuntimeEdgeView>, n: int)
    requires
        graph_wf(g),
        0 <= n <= edges.len(),
        distinct_edges(g, edges, n),
    ensures
        total_entries(reverse_lists(g, edges, n), g.packages.len() as int) == n,
    decreases n,
{
    lemma_reverse_lists(g, edges, n);
    if n > 0 {
        lemma_reverse_lists_count(g, edges, n - 1);
        lemma_reverse_lists(g, edges, n - 1);
        let before = reverse_lists(g, edges, n - 1);
        let e = edges[n - 1];
        let t = package_index(g, e.target.name)->0;
        assert(package_at(g, e.target.name, t));
        if before[t].contains(e.entry) {
            let k = choose|k: int|
                0 <= k < n - 1 && (#[trigger] edges[k]).entry == e.entry && package_index(
                    g,
                    edges[k].target.name,
                ) == Some(t);
            assert(edges[k].entry == edges[n - 1].entry);
        }
        lemma_total_entries_grows(before, t, e.entry, g.packages.len() as int);
    } else {
        lemma_total_entries_empty(reverse_lists(g, edges, 0), g.packages.len() as int);
    }
}

/// Reverse-dependency cardinality. In a graph in which every runtime
/// dependency names a known package and no two dependencies give the same
/// entry to the same package, the packages keep after distribution as many
/// reverse dependencies together as the graph has runtime edges, require-any
/// and conditional dependencies counted edge by edge.
pub proof fn lemma_distribution_cardinality(g: GraphView)
    requires
        graph_wf(g),
        distinct_edges(g, runtime_edges(g), runtime_edges(g).len() as int),
    ensures
        total_entries(
            distributed(g).packages.map_values(|p: PackageView| p.runtime_dependents),
            g.packages.len() as int,
        ) == runtime_edges(g).len(),
{
    let edges = runtime_edges(g);
    let n = edges.len() as int;
    lemma_reverse_lists_count(g, edges, n);
    lemma_reverse_lists(g, edges, n);
    assert(distributed(g).packages.map_values(|p: PackageView| p.runtime_dependents)
        =~= reverse_lists(g, edges, n));
}

/// Every edge of a dependency starts at the package that declares it.
proof fn lemma_edge_from(d: DependTypesView, from: usize, by: FmriView, e: RuntimeEdgeView)
    requires
        dep_edges(d, from, by).contains(e),
    ensures
        e.from == from,
{
    let s = dep_edges(d, from, by);
    let i = choose|i: int| 0 <= i < s.len() && s[i] == e;
    assert(s[i].from == from);
}

/// Every edge of the list starts at a handle that is at most `bound`.
pub open spec fn starts_within(s: Seq<RuntimeEdge>, bound: usize) -> bool {
    forall|k: int| 0 <= k < s.len() ==> (#[trigger] s[k]).from <= bound
}

/// Appends the edges of one declared dependency.
fn collect_dep(out: &mut Vec<RuntimeEdge>, d: &DependTypes, from: usize, by: &Fmri)
    requires
        starts_within(old(out)@, from),
    ensures
        edge_views(final(out)@) == edge_views(old(out)@) + dep_edges(d@, from, by@),
        starts_within(final(out)@, from),
{
    let ghost start = edge_views(out@);
    match d {
        DependTypes::Require(f) => {
            out.push(RuntimeEdge { from, entry: RevDependType::Require(by.clone()), target: f.clone() });
        },
        DependTypes::Optional(f) => {
            out.push(RuntimeEdge { from, entry: RevDependType::Optional(by.clone()), target: f.clone() });
        },
        DependTypes::Incorporate(f) => {
            out.push(
                RuntimeEdge { from, entry: RevDependType::Incorporate(by.clone()), target: f.clone() },
            );
        },
        DependTypes::RequireAny(l) => {
            let mut j: usize = 0;
            while j < l.len()
                invariant
                    j <= l.len(),
                    edge_views(out@) == start + dep_edges(d@, from, by@).take(j as int),
                    d@ == DependTypesView::RequireAny(fmri_views(l@)),
                    starts_within(out@, from),
                decreases l.len() - j,
            {
                let ghost before = out@;
                out.push(
                    RuntimeEdge {
                        from,
                        entry: RevDependType::RequireAny(by.clone()),
                        target: l[j].clone(),
                    },
                );
                proof {
                    let all = dep_edges(d@, from, by@);
                    assert(fmri_views(l@)[j as int] == l@[j as int]@);
                    assert(edge_views(out@) =~= edge_views(before).push(all[j as int]));
                    assert(start + all.take(j + 1) =~= (start + all.take(j as int)).push(all[j as int]));
                }
                j += 1;
            }
            proof {
                let all = dep_edges(d@, from, by@);
                assert(all.take(l@.len() as int) =~= all);
            }
            return;
        },
        DependTypes::Conditional(f, p) => {
            out.push(
                RuntimeEdge { from, entry: RevDependType::ConditionalFmri(by.clone()), target: f.clone() },
            );
            out.push(
                RuntimeEdge {
                    from,
                    entry: RevDependType::ConditionalPredicate(by.clone()),
                    target: p.clone(),
                },
            );
        },
        DependTypes::Group(f) => {
            out.push(RuntimeEdge { from, entry: RevDependType::Group(by.clone()), target: f.clone() });
        },
    }
    assert(edge_views(out@) =~= start + dep_edges(d@, from, by@));
}

/// Appends the edges of one release.
fn collect_version(out: &mut Vec<RuntimeEdge>, v: &PackageVersion, from: usize, by: &Fmri)
    requires
        starts_within(old(out)@, from),
    ensures
        edge_views(final(out)@) == edge_views(old(out)@) + version_edges(
            v@,
            from,
            by@,
            v@.runtime.len() as int,
        ),
        starts_within(final(out)@, from),
{
    let ghost start = edge_views(out@);
    let mut j: usize = 0;
    assert(start + version_edges(v@, from, by@, 0) =~= start);
    while j < v.runtime.len()
        invariant
            j <= v.runtime.len(),
            edge_views(out@) == start + version_edges(v@, from, by@, j as int),
            starts_within(out@, from),
        decreases v.runtime.len() - j,
    {
        proof {
            assert(v@.runtime[j as int] == v.runtime@[j as int]@);
        }
        collect_dep(out, &v.runtime[j], from, by);
        proof {
            let a = version_edges(v@, from, by@, j as int);
            let b = dep_edges(v@.runtime[j as int], from, by@);
            assert((start + a) + b =~= start + (a + b));
        }
        j += 1;
    }
}

/// Appends the edges of one package.
fn collect_package(out: &mut Vec<RuntimeEdge>, p: &Package, from: usize)
    requires
        starts_within(old(out)@, from),
    ensures
        edge_views(final(out)@) == edge_views(old(out)@) + package_edges(
            p@,
            from,
            p@.versions.len() as int,
        ),
        starts_within(final(out)@, from),
{
    let ghost start = edge_views(out@);
    let mut j: usize = 0;
    assert(start + package_edges(p@, from, 0) =~= start);
    while j < p.versions.len()
        invariant
            j <= p.versions.len(),
            edge_views(out@) == start + package_edges(p@, from, j as int),
            starts_within(out@, from),
        decreases p.versions.len() - j,
    {
        proof {
            assert(p@.versions[j as int] == p.versions@[j as int]@);
        }
        collect_version(out, &p.versions[j], from, &p.fmri);
        proof {
            let a = package_edges(p@, from, j as int);
            let v = p@.versions[j as int];
            let b = version_edges(v, from, p@.fmri, v.runtime.len() as int);
            assert((start + a) + b =~= start + (a + b));
        }
        j += 1;
    }
}

/// Whether a list keeps an entry.
fn keeps(list: &Vec<RevDependType>, entry: &RevDependType) -> (r: bool)
    ensures
        r == rev_depend_views(list@).contains(entry@),
{
    let mut i: usize = 0;
    while i < list.len()
        invariant
            i <= list.len(),
            forall|k: int| 0 <= k < i ==> rev_depend_views(list@)[k] != entry@,
        decreases list.len() - i,
    {
        proof {
            assert(rev_depend_views(list@)[i as int] == list@[i as int]@);
        }
        if list[i].same(entry) {
            return true;
        }
        i += 1;
    }
    false
}

impl Components {
    /// Every runtime edge of the graph, in the order of its packages, their
    /// releases and their dependencies.
    pub fn collect_runtime_edges(&self) -> (r: Vec<RuntimeEdge>)
        ensures
            edge_views(r@) == runtime_edges(self@),
            forall|k: int| 0 <= k < r@.len() ==> (#[trigger] r@[k]).from < self@.packages.len(),
    {
        let packages = self.get_packages();
        let mut out: Vec<RuntimeEdge> = Vec::new();
        let mut i: usize = 0;
        assert(edge_views(out@) =~= graph_edges(self@, 0));
        while i < packages.len()
            invariant
                i <= packages.len(),
                self@.packages == crate::packages::components::package_views(packages@),
                edge_views(out@) == graph_edges(self@, i as int),
                forall|k: int| 0 <= k < out@.len() ==> (#[trigger] out@[k]).from < i,
            decreases packages.len() - i,
        {
            proof {
                assert(self@.packages[i as int] == packages@[i as int]@);
            }
            collect_package(&mut out, &packages[i], i);
            i += 1;
        }
        out
    }

    /// Rebuilds the reverse runtime dependencies of every package from the
    /// dependencies that the releases declare. Each package keeps one entry
    /// for each package and kind of dependency that names it. A dependency on
    /// a package that the graph does not know is reported as a problem.
    pub fn distribute_reverse_runtime_dependencies(&mut self)
        requires
            old(self).wf(),
        ensures
            final(self).wf(),
            final(self)@ == distributed(old(self)@),
    {
        let ghost g = self@;
        proof {
            self.lemma_wf();
        }
        let edges = self.collect_runtime_edges();
        let n = self.get_packages().len();
        let mut lists: Vec<Vec<RevDependType>> = Vec::new();
        let mut i: usize = 0;
        while i < n
            invariant
                i <= n,
                lists@.len() == i,
                forall|k: int| 0 <= k < i ==> (#[trigger] lists@[k])@.len() == 0,
            decreases n - i,
        {
            lists.push(Vec::new());
            i += 1;
        }
        let mut found: Vec<Problem> = Vec::new();
        proof {
            assert(rev_depend_lists(lists@) =~= reverse_lists(g, edge_views(edges@), 0)) by {
                assert forall|k: int| 0 <= k < n implies rev_depend_lists(lists@)[k]
                    == Seq::<RevDependTypeView>::empty() by {
                    assert(rev_depend_views(lists@[k]@) =~= Seq::<RevDependTypeView>::empty());
                }
            }
            assert(problem_views(found@) =~= dangling_problems(g, edge_views(edges@), 0));
        }
        let mut j: usize = 0;
        while j < edges.len()
            invariant
                j <= edges.len(),
                self.wf(),
                self@ == g,
                graph_wf(g),
                n == g.packages.len(),
                lists@.len() == n,
                rev_depend_lists(lists@) == reverse_lists(g, edge_views(edges@), j as int),
                problem_views(found@) == dangling_problems(g, edge_views(edges@), j as int),
                edge_views(edges@) == runtime_edges(g),
                forall|k: int| 0 <= k < edges@.len() ==> (#[trigger] edges@[k]).from < n,
            decreases edges.len() - j,
        {
            let edge = &edges[j];
            proof {
                assert(edge_views(edges@)[j as int] == edge@);
            }
            match self.get_package_by_fmri(&edge.target) {
                Ok(b) => {
                    proof {
                        assert(rev_depend_lists(lists@)[b as int] == rev_depend_views(lists@[b as int]@));
                    }
                    if !keeps(&lists[b], &edge.entry) {
                        let ghost before = lists@;
                        lists[b].push(edge.entry.clone());
                        proof {
                            assert(rev_depend_views(lists@[b as int]@) =~= rev_depend_views(
                                before[b as int]@,
                            ).push(edge@.entry));
                            assert(rev_depend_lists(lists@) =~= rev_depend_lists(before).update(
                                b as int,
                                rev_depend_lists(before)[b as int].push(edge@.entry),
                            ));
                        }
                    }
                },
                Err(_) => {
                    let packages = self.get_packages();
                    proof {
                        assert(g.packages[edge.from as int] == packages@[edge.from as int]@);
                    }
                    let by = edge.entry.get_fmri().clone();
                    let d = match &edge.entry {
                        RevDependType::Require(_) => DependTypes::Require(edge.target.clone()),
                        RevDependType::Optional(_) => DependTypes::Optional(edge.target.clone()),
                        RevDependType::Incorporate(_) => DependTypes::Incorporate(edge.target.clone()),
                        RevDependType::RequireAny(_) => {
                            let mut l: Vec<Fmri> = Vec::new();
                            l.push(edge.target.clone());
                            assert(fmri_views(l@) =~= seq![edge@.target]);
                            DependTypes::RequireAny(l)
                        },
                        RevDependType::ConditionalFmri(_) => DependTypes::Conditional(
                            edge.target.clone(),
                            Fmri::none(),
                        ),
                        RevDependType::ConditionalPredicate(_) => DependTypes::Conditional(
                            Fmri::none(),
                            edge.target.clone(),
                        ),
                        RevDependType::Group(_) => DependTypes::Group(edge.target.clone()),
                    };
                    let problem = if packages[edge.from].is_renamed() {
                        Problem::NonExistingRequiredByRenamed(d, DependencyTypes::Runtime, by)
                    } else {
                        Problem::NonExistingRequired(d, DependencyTypes::Runtime, by, String::new())
                    };
                    let ghost before = found@;
                    found.push(problem);
                    proof {
                        assert(problem_views(found@) =~= problem_views(before).push(problem@));
                    }
                },
            }
            j += 1;
        }
        self.install_runtime_dependents(lists);
        self.report_all(found);
    }
}

} // verus!
