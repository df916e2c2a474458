//! Dependency cycles: a depth-first walk over the edges that the caller
//! chooses to follow, and the cycles it closes, reported component by
//! component.

use vstd::prelude::*;
use vstd::string::*;
use crate::identifier::{Fmri, FmriView, Order, fmri_compare};
use crate::packages::components::{Components, GraphView, package_index, package_at, graph_wf,
    component_links_ok, package_links_ok};
use crate::packages::depend_types::{DependTypes, DependTypesView, fmri_views};
use crate::packages::package::{Package, depend_views};
use crate::text::to_chars;

verus! {

/// The kinds of edge that the walk can follow. `New` is the state in which a
/// walk starts, not an edge.
#[derive(Clone, Copy, Debug, PartialEq, Eq, PartialOrd, Ord, Hash, Structural)]
pub enum EdgeType {
    RuntimeRequire,
    RuntimeRequireAny,
    RuntimeConditionalFmri,
    Build,
    Test,
    SystemBuild,
    SystemTest,
    New,
}

/// The place of an edge type in the order of edge types.
pub open spec fn edge_rank(t: EdgeType) -> int {
    match t {
        EdgeType::RuntimeRequire => 0,
        EdgeType::RuntimeRequireAny => 1,
        EdgeType::RuntimeConditionalFmri => 2,
        EdgeType::Build => 3,
        EdgeType::Test => 4,
        EdgeType::SystemBuild => 5,
        EdgeType::SystemTest => 6,
        EdgeType::New => 7,
    }
}

/// Whether an edge is a runtime edge. The start of a walk counts as one.
pub open spec fn is_runtime(t: EdgeType) -> bool {
    match t {
        EdgeType::RuntimeRequire => true,
        EdgeType::RuntimeRequireAny => true,
        EdgeType::RuntimeConditionalFmri => true,
        EdgeType::New => true,
        _ => false,
    }
}

/// The name of an edge type in a printed cycle.
pub open spec fn edge_text(t: EdgeType) -> Seq<char> {
    match t {
        EdgeType::RuntimeRequire => "Require"@,
        EdgeType::RuntimeRequireAny => "RequireAny"@,
        EdgeType::RuntimeConditionalFmri => "ConditionalFmri"@,
        EdgeType::Build => "Build"@,
        EdgeType::Test => "Test"@,
        EdgeType::SystemBuild => "SystemBuild"@,
        EdgeType::SystemTest => "SystemTest"@,
        EdgeType::New => "New"@,
    }
}

impl EdgeType {
    pub fn rank(&self) -> (r: u8)
        ensures
            r == edge_rank(*self),
    {
        match self {
            EdgeType::RuntimeRequire => 0,
            EdgeType::RuntimeRequireAny => 1,
            EdgeType::RuntimeConditionalFmri => 2,
            EdgeType::Build => 3,
            EdgeType::Test => 4,
            EdgeType::SystemBuild => 5,
            EdgeType::SystemTest => 6,
            EdgeType::New => 7,
        }
    }

    pub fn is_runtime(&self) -> (r: bool)
        ensures
            r == is_runtime(*self),
    {
        match self {
            EdgeType::RuntimeRequire
            | EdgeType::RuntimeRequireAny
            | EdgeType::RuntimeConditionalFmri
            | EdgeType::New => true,
            EdgeType::Build | EdgeType::Test | EdgeType::SystemBuild | EdgeType::SystemTest => false,
        }
    }
}

/// A node of a reported cycle: the component that owns the package, or the
/// package itself where no component owns it.
#[derive(Debug)]
pub enum Or {
    Component(String),
    Package(Fmri),
}

/// The mathematical content of a node of a reported cycle.
pub enum OrView {
    Component(Seq<char>),
    Package(FmriView),
}

impl View for Or {
    type V = OrView;

    open spec fn view(&self) -> OrView {
        match *self {
            Or::Component(name) => OrView::Component(name@),
            Or::Package(f) => OrView::Package(f@),
        }
    }
}

impl Clone for Or {
    fn clone(&self) -> (r: Self)
        ensures
            r@ == self@,
    {
        match self {
            Or::Component(name) => Or::Component(name.clone()),
            Or::Package(f) => Or::Package(f.clone()),
        }
    }
}

/// Two nodes are the same when both are the component of one name, or both
/// are packages of one name.
pub open spec fn or_same(a: OrView, b: OrView) -> bool {
    match (a, b) {
        (OrView::Component(x), OrView::Component(y)) => x == y,
        (OrView::Package(x), OrView::Package(y)) => x.name == y.name,
        _ => false,
    }
}

/// The order of two texts from index `i` on: character by character, a text
/// before every longer text that starts with it.
pub open spec fn text_order(a: Seq<char>, b: Seq<char>, i: int) -> Order
    decreases a.len() - i,
{
    if i < 0 {
        Order::Equal
    } else if i >= a.len() && i >= b.len() {
        Order::Equal
    } else if i >= a.len() {
        Order::Less
    } else if i >= b.len() {
        Order::Greater
    } else if (a[i] as u32) < (b[i] as u32) {
        Order::Less
    } else if (a[i] as u32) > (b[i] as u32) {
        Order::Greater
    } else {
        text_order(a, b, i + 1)
    }
}

/// The order of two nodes: packages before components, components by name,
/// packages of one name equal, other packages by version.
pub open spec fn or_order(a: OrView, b: OrView) -> Order {
    match (a, b) {
        (OrView::Component(_), OrView::Package(_)) => Order::Greater,
        (OrView::Package(_), OrView::Component(_)) => Order::Less,
        (OrView::Component(x), OrView::Component(y)) => text_order(x, y, 0),
        (OrView::Package(x), OrView::Package(y)) => if x.name == y.name {
            Order::Equal
        } else {
            fmri_compare(x, y)
        },
    }
}

/// The order of two entries of a cycle: by node, then by edge type.
pub open spec fn entry_order(a: (OrView, EdgeType), b: (OrView, EdgeType)) -> Order {
    match or_order(a.0, b.0) {
        Order::Equal => if edge_rank(a.1) < edge_rank(b.1) {
            Order::Less
        } else if edge_rank(a.1) > edge_rank(b.1) {
            Order::Greater
        } else {
            Order::Equal
        },
        o => o,
    }
}

/// The order of two cycles from index `i` on: entry by entry, a cycle before
/// every longer cycle that starts with it.
pub open spec fn route_order(a: Seq<(OrView, EdgeType)>, b: Seq<(OrView, EdgeType)>, i: int) -> Order
    decreases a.len() - i,
{
    if i < 0 {
        Order::Equal
    } else if i >= a.len() && i >= b.len() {
        Order::Equal
    } else if i >= a.len() {
        Order::Less
    } else if i >= b.len() {
        Order::Greater
    } else {
        match entry_order(a[i], b[i]) {
            Order::Equal => route_order(a, b, i + 1),
            o => o,
        }
    }
}

/// Two cycles are the same when they have the same length and agree entry by
/// entry in node and edge type.
pub open spec fn route_same(a: Seq<(OrView, EdgeType)>, b: Seq<(OrView, EdgeType)>) -> bool {
    a.len() == b.len() && forall|i: int|
        0 <= i < a.len() ==> or_same((#[trigger] a[i]).0, b[i].0) && a[i].1 == b[i].1
}

/// Compares two texts character by character.
pub fn compare_texts(a: &str, b: &str) -> (r: Order)
    ensures
        r == text_order(a@, b@, 0),
{
    let x = to_chars(a);
    let y = to_chars(b);
    let mut i: usize = 0;
    while i < x.len() && i < y.len()
        invariant
            i <= x.len(),
            i <= y.len(),
            x@ == a@,
            y@ == b@,
            text_order(a@, b@, 0) == text_order(a@, b@, i as int),
        decreases x.len() - i,
    {
        let c = x[i] as u32;
        let d = y[i] as u32;
        if c < d {
            return Order::Less;
        }
        if c > d {
            return Order::Greater;
        }
        i += 1;
    }
    if i >= x.len() && i >= y.len() {
        Order::Equal
    } else if i >= x.len() {
        Order::Less
    } else {
        Order::Greater
    }
}

impl PartialEq for Or {
    fn eq(&self, other: &Self) -> (r: bool) {
        self.same(other)
    }
}

impl vstd::std_specs::cmp::PartialEqSpecImpl for Or {
    open spec fn obeys_eq_spec() -> bool {
        true
    }

    open spec fn eq_spec(&self, other: &Self) -> bool {
        or_same(self@, other@)
    }
}

impl Eq for Or {

}

impl Or {
    /// Whether both are the same node.
    pub fn same(&self, other: &Or) -> (r: bool)
        ensures
            r == or_same(self@, other@),
    {
        match (self, other) {
            (Or::Component(a), Or::Component(b)) => *a == *b,
            (Or::Package(a), Or::Package(b)) => a.package_name_eq(b),
            _ => false,
        }
    }

    /// Orders two nodes: packages before components, components by name.
    pub fn compare(&self, other: &Or) -> (r: Order)
        ensures
            r == or_order(self@, other@),
    {
        match (self, other) {
            (Or::Component(_), Or::Package(_)) => Order::Greater,
            (Or::Package(_), Or::Component(_)) => Order::Less,
            (Or::Component(a), Or::Component(b)) => compare_texts(a.as_str(), b.as_str()),
            (Or::Package(a), Or::Package(b)) => {
                if a.package_name_eq(b) {
                    Order::Equal
                } else {
                    a.compare(b)
                }
            },
        }
    }
}

/// The entries of a cycle, as mathematical values.
pub open spec fn route_view(s: Seq<(Or, EdgeType)>) -> Seq<(OrView, EdgeType)> {
    s.map_values(|e: (Or, EdgeType)| (e.0@, e.1))
}

/// The cycles of a list, as mathematical values.
pub open spec fn route_views(s: Seq<Vec<(Or, EdgeType)>>) -> Seq<Seq<(OrView, EdgeType)>> {
    s.map_values(|r: Vec<(Or, EdgeType)>| route_view(r@))
}

/// Orders two cycles entry by entry.
pub fn compare_routes(a: &Vec<(Or, EdgeType)>, b: &Vec<(Or, EdgeType)>) -> (r: Order)
    ensures
        r == route_order(route_view(a@), route_view(b@), 0),
{
    let mut i: usize = 0;
    while i < a.len() && i < b.len()
        invariant
            i <= a.len(),
            i <= b.len(),
            route_order(route_view(a@), route_view(b@), 0) == route_order(
                route_view(a@),
                route_view(b@),
                i as int,
            ),
        decreases a.len() - i,
    {
        proof {
            assert(route_view(a@)[i as int] == (a@[i as int].0@, a@[i as int].1));
            assert(route_view(b@)[i as int] == (b@[i as int].0@, b@[i as int].1));
        }
        match a[i].0.compare(&b[i].0) {
            Order::Less => {
                return Order::Less;
            },
            Order::Greater => {
                return Order::Greater;
            },
            Order::Equal => {
                let x = a[i].1.rank();
                let y = b[i].1.rank();
                if x < y {
                    return Order::Less;
                }
                if x > y {
                    return Order::Greater;
                }
            },
        }
        i += 1;
    }
    if i >= a.len() && i >= b.len() {
        Order::Equal
    } else if i >= a.len() {
        Order::Less
    } else {
        Order::Greater
    }
}

/// Whether two cycles agree entry by entry.
pub fn same_routes(a: &Vec<(Or, EdgeType)>, b: &Vec<(Or, EdgeType)>) -> (r: bool)
    ensures
        r == route_same(route_view(a@), route_view(b@)),
{
    if a.len() != b.len() {
        return false;
    }
    let mut i: usize = 0;
    while i < a.len()
        invariant
            i <= a.len(),
            a.len() == b.len(),
            forall|k: int|
                0 <= k < i ==> or_same((#[trigger] route_view(a@)[k]).0, route_view(b@)[k].0)
                    && route_view(a@)[k].1 == route_view(b@)[k].1,
        decreases a.len() - i,
    {
        proof {
            assert(route_view(a@)[i as int] == (a@[i as int].0@, a@[i as int].1));
            assert(route_view(b@)[i as int] == (b@[i as int].0@, b@[i as int].1));
        }
        if !a[i].0.same(&b[i].0) || a[i].1 != b[i].1 {
            return false;
        }
        i += 1;
    }
    true
}

/// The edge to the package that an identifier names, where the edge type is
/// followed and the graph knows the package.
pub open spec fn target_successor(g: GraphView, f: FmriView, t: EdgeType, follow: Seq<EdgeType>) -> Seq<(usize, EdgeType)> {
    if follow.contains(t) {
        match package_index(g, f.name) {
            Some(q) => seq![(q as usize, t)],
            None => Seq::empty(),
        }
    } else {
        Seq::empty()
    }
}

/// The edges to the first `n` packages of a require-any list.
pub open spec fn any_successors(g: GraphView, l: Seq<FmriView>, follow: Seq<EdgeType>, n: int) -> Seq<(usize, EdgeType)>
    decreases n,
{
    if n <= 0 {
        Seq::empty()
    } else {
        any_successors(g, l, follow, n - 1) + target_successor(
            g,
            l[n - 1],
            EdgeType::RuntimeRequireAny,
            follow,
        )
    }
}

/// The edges that one declared dependency gives the walk: a require
/// dependency, each package of a require-any dependency, and the package
/// that a conditional dependency asks for. The other kinds are not followed.
pub open spec fn dep_successors(g: GraphView, d: DependTypesView, follow: Seq<EdgeType>) -> Seq<(usize, EdgeType)> {
    match d {
        DependTypesView::Require(f) => target_successor(g, f, EdgeType::RuntimeRequire, follow),
        DependTypesView::RequireAny(l) => any_successors(g, l, follow, l.len() as int),
        DependTypesView::Conditional(f, _) => target_successor(
            g,
            f,
            EdgeType::RuntimeConditionalFmri,
            follow,
        ),
        _ => Seq::empty(),
    }
}

/// The edges that the first `n` declared dependencies give the walk.
pub open spec fn runtime_successors(g: GraphView, deps: Seq<DependTypesView>, follow: Seq<EdgeType>, n: int) -> Seq<(usize, EdgeType)>
    decreases n,
{
    if n <= 0 {
        Seq::empty()
    } else {
        runtime_successors(g, deps, follow, n - 1) + dep_successors(g, deps[n - 1], follow)
    }
}

/// The edges to the packages that a component needs in one context, where
/// that edge type is followed.
pub open spec fn needs_successors(needs: Seq<usize>, t: EdgeType, follow: Seq<EdgeType>) -> Seq<(usize, EdgeType)> {
    if follow.contains(t) {
        needs.map_values(|q: usize| (q, t))
    } else {
        Seq::empty()
    }
}

/// The edges that leave a package, in the order in which the walk follows
/// them: the runtime dependencies of its first release, then what its
/// component needs to build, from the system to build, to test, and from the
/// system to test.
pub open spec fn successors(g: GraphView, p: int, follow: Seq<EdgeType>) -> Seq<(usize, EdgeType)> {
    let package = g.packages[p];
    let runtime = if package.versions.len() > 0 {
        runtime_successors(
            g,
            package.versions[0].runtime,
            follow,
            package.versions[0].runtime.len() as int,
        )
    } else {
        Seq::empty()
    };
    match package.component {
        None => runtime,
        Some(c) => {
            let component = g.components[c as int];
            runtime + needs_successors(component.build, EdgeType::Build, follow) + needs_successors(
                component.sys_build,
                EdgeType::SystemBuild,
                follow,
            ) + needs_successors(component.test, EdgeType::Test, follow) + needs_successors(
                component.sys_test,
                EdgeType::SystemTest,
                follow,
            )
        },
    }
}

/// Every edge of the list leads to a package of the graph.
pub open spec fn targets_below(s: Seq<(usize, EdgeType)>, n: int) -> bool {
    forall|i: int| 0 <= i < s.len() ==> (#[trigger] s[i]).0 < n
}

/// Whether the route passes the package at handle `p`.
pub open spec fn route_contains(route: Seq<(usize, EdgeType)>, p: usize) -> bool {
    exists|i: int| 0 <= i < route.len() && (#[trigger] route[i]).0 == p
}

/// The first index at or after `i` where the route passes `p`, or the length
/// of the route.
pub open spec fn route_position(route: Seq<(usize, EdgeType)>, p: usize, i: int) -> int
    decreases route.len() - i,
{
    if i < 0 || i >= route.len() {
        route.len() as int
    } else if route[i].0 == p {
        i
    } else {
        route_position(route, p, i + 1)
    }
}

/// The cycle that an edge of type `from` closes when it leads back to `p`
/// on the route: `p` with the closing edge, then the rest of the route after
/// the place where it first passed `p`.
pub open spec fn closed_cycle(route: Seq<(usize, EdgeType)>, p: usize, from: EdgeType) -> Seq<(usize, EdgeType)> {
    let k = route_position(route, p, 0);
    seq![(p, from)] + route.subrange(
        if k < route.len() {
            k + 1
        } else {
            route.len() as int
        },
        route.len() as int,
    )
}

/// A cycle of runtime edges only. Such cycles are normal and not reported.
pub open spec fn only_runtime(cycle: Seq<(usize, EdgeType)>) -> bool {
    forall|i: int| 0 <= i < cycle.len() ==> is_runtime((#[trigger] cycle[i]).1)
}

/// A cycle inside one component: the component that owns its first package
/// claims every package of the cycle. Where no component owns the first
/// package, only a cycle of that package alone counts.
pub open spec fn in_one_component(g: GraphView, cycle: Seq<(usize, EdgeType)>) -> bool {
    match g.packages[cycle[0].0 as int].component {
        Some(c) => forall|j: int|
            0 <= j < cycle.len() ==> g.components[c as int].packages.contains((#[trigger] cycle[j]).0),
        None => cycle.len() == 1,
    }
}

/// The cycles found so far, with the one that was just closed where it is
/// to be reported: not of runtime edges only, and not inside one component.
pub open spec fn finished(
    g: GraphView,
    cycles: Seq<Seq<(usize, EdgeType)>>,
    route: Seq<(usize, EdgeType)>,
    p: usize,
    from: EdgeType,
) -> Seq<Seq<(usize, EdgeType)>> {
    let cycle = closed_cycle(route, p, from);
    if !only_runtime(cycle) && !in_one_component(g, cycle) {
        cycles.push(cycle)
    } else {
        cycles
    }
}

/// The state of a walk: which packages were visited, and the cycles found.
pub struct WalkView {
    pub visited: Seq<bool>,
    pub cycles: Seq<Seq<(usize, EdgeType)>>,
}

/// The number of packages not yet visited.
pub open spec fn unvisited(visited: Seq<bool>) -> nat
    decreases visited.len(),
{
    if visited.len() == 0 {
        0
    } else {
        unvisited(visited.drop_last()) + if visited.last() {
            0nat
        } else {
            1nat
        }
    }
}

/// Visiting a package leaves one package less to visit.
pub proof fn lemma_unvisited_mark(visited: Seq<bool>, p: int)
    requires
        0 <= p < visited.len(),
        !visited[p],
    ensures
        unvisited(visited.update(p, true)) + 1 == unvisited(visited),
    decreases visited.len(),
{
    let after = visited.update(p, true);
    if p == visited.len() - 1 {
        assert(after.drop_last() =~= visited.drop_last());
    } else {
        lemma_unvisited_mark(visited.drop_last(), p);
        assert(after.drop_last() =~= visited.drop_last().update(p, true));
    }
}

/// The walk arrives at the package `p` over an edge of type `from`, having
/// come along `route`. A package on the route closes a cycle. A package that
/// was visited before is not walked again, whatever could be reached from it
/// on another route: the walk may therefore miss cycles. Any other package
/// is marked as visited, and the walk goes on along each edge that leaves
/// it.
pub open spec fn visit(
    g: GraphView,
    follow: Seq<EdgeType>,
    p: usize,
    route: Seq<(usize, EdgeType)>,
    from: EdgeType,
    w: WalkView,
) -> WalkView
    decreases unvisited(w.visited), 0nat, 0nat,
{
    if route_contains(route, p) {
        WalkView { cycles: finished(g, w.cycles, route, p, from), ..w }
    } else if p >= w.visited.len() || w.visited[p as int] {
        w
    } else {
        proof {
            lemma_unvisited_mark(w.visited, p as int);
        }
        visit_all(
            g,
            follow,
            successors(g, p as int, follow),
            0,
            route.push((p, from)),
            WalkView { visited: w.visited.update(p as int, true), ..w },
        )
    }
}

/// The walk along the edges of `next` from index `i` on, one after the
/// other, each from the state that the one before left.
pub open spec fn visit_all(
    g: GraphView,
    follow: Seq<EdgeType>,
    next: Seq<(usize, EdgeType)>,
    i: int,
    route: Seq<(usize, EdgeType)>,
    w: WalkView,
) -> WalkView
    decreases unvisited(w.visited), 1nat, next.len() - i,
{
    if i < 0 || i >= next.len() {
        w
    } else {
        let after = visit(g, follow, next[i].0, route, next[i].1, w);
        let kept = if unvisited(after.visited) <= unvisited(w.visited) {
            after
        } else {
            w
        };
        visit_all(g, follow, next, i + 1, route, kept)
    }
}

/// A walk never unvisits a package: the state it leaves has no more
/// packages to visit than the state it started from, and as many packages.
pub proof fn lemma_visit_shrinks(
    g: GraphView,
    follow: Seq<EdgeType>,
    p: usize,
    route: Seq<(usize, EdgeType)>,
    from: EdgeType,
    w: WalkView,
)
    ensures
        unvisited(visit(g, follow, p, route, from, w).visited) <= unvisited(w.visited),
        visit(g, follow, p, route, from, w).visited.len() == w.visited.len(),
    decreases unvisited(w.visited), 0nat, 0nat,
{
    if route_contains(route, p) {
    } else if p >= w.visited.len() || w.visited[p as int] {
    } else {
        lemma_unvisited_mark(w.visited, p as int);
        lemma_visit_all_shrinks(
            g,
            follow,
            successors(g, p as int, follow),
            0,
            route.push((p, from)),
            WalkView { visited: w.visited.update(p as int, true), ..w },
        );
    }
}

/// The same for a walk along several edges.
pub proof fn lemma_visit_all_shrinks(
    g: GraphView,
    follow: Seq<EdgeType>,
    next: Seq<(usize, EdgeType)>,
    i: int,
    route: Seq<(usize, EdgeType)>,
    w: WalkView,
)
    ensures
        unvisited(visit_all(g, follow, next, i, route, w).visited) <= unvisited(w.visited),
        visit_all(g, follow, next, i, route, w).visited.len() == w.visited.len(),
    decreases unvisited(w.visited), 1nat, next.len() - i,
{
    if i < 0 || i >= next.len() {
    } else {
        lemma_visit_shrinks(g, follow, next[i].0, route, next[i].1, w);
        let after = visit(g, follow, next[i].0, route, next[i].1, w);
        lemma_visit_all_shrinks(g, follow, next, i + 1, route, after);
    }
}

/// The walks that start at each package from handle `i` on that was not
/// visited before.
pub open spec fn walk_from(g: GraphView, follow: Seq<EdgeType>, i: int, w: WalkView) -> WalkView
    decreases g.packages.len() - i,
{
    if i < 0 || i >= g.packages.len() {
        w
    } else if i < w.visited.len() && w.visited[i] {
        walk_from(g, follow, i + 1, w)
    } else {
        walk_from(
            g,
            follow,
            i + 1,
            visit(g, follow, i as usize, Seq::empty(), EdgeType::New, w),
        )
    }
}

/// The cycles that the walk over the whole graph finds, as routes of
/// package handles: each entry holds a package and the type of the edge
/// that leads to it.
pub open spec fn found_cycles(g: GraphView, follow: Seq<EdgeType>) -> Seq<Seq<(usize, EdgeType)>> {
    walk_from(
        g,
        follow,
        0,
        WalkView { visited: Seq::new(g.packages.len(), |i: int| false), cycles: Seq::empty() },
    ).cycles
}

/// Every entry of a route but the first is an edge that leaves the package
/// of the entry before it.
pub open spec fn chained(g: GraphView, follow: Seq<EdgeType>, route: Seq<(usize, EdgeType)>) -> bool {
    forall|i: int|
        1 <= i < route.len() ==> successors(g, route[i - 1].0 as int, follow).contains(
            #[trigger] route[i],
        )
}

/// The edge over which the walk arrives at `p` leaves the last package of
/// the route.
pub open spec fn arrives(
    g: GraphView,
    follow: Seq<EdgeType>,
    route: Seq<(usize, EdgeType)>,
    p: usize,
    from: EdgeType,
) -> bool {
    route.len() > 0 ==> successors(g, route.last().0 as int, follow).contains((p, from))
}

/// A cycle of the graph that is to be reported: each entry is an edge that
/// leaves the package of the entry before it, the first entry one that
/// leaves the package of the last; not every edge is a runtime edge; and the
/// cycle does not stay inside one component.
pub open spec fn reportable(g: GraphView, follow: Seq<EdgeType>, cycle: Seq<(usize, EdgeType)>) -> bool {
    &&& cycle.len() > 0
    &&& chained(g, follow, cycle)
    &&& successors(g, cycle.last().0 as int, follow).contains(cycle[0])
    &&& !only_runtime(cycle)
    &&& !in_one_component(g, cycle)
}

/// Every cycle of the list is a cycle of the graph that is to be reported.
pub open spec fn all_reportable(g: GraphView, follow: Seq<EdgeType>, cycles: Seq<Seq<(usize, EdgeType)>>) -> bool {
    forall|i: int| 0 <= i < cycles.len() ==> reportable(g, follow, #[trigger] cycles[i])
}

/// Where the route passes `p`, the first place it does so is on the route.
pub proof fn lemma_route_position(route: Seq<(usize, EdgeType)>, p: usize, i: int)
    requires
        0 <= i <= route.len(),
    ensures
        i <= route_position(route, p, i) <= route.len(),
        route_position(route, p, i) < route.len() ==> route[route_position(route, p, i)].0 == p,
        (exists|k: int| i <= k < route.len() && (#[trigger] route[k]).0 == p) ==> route_position(
            route,
            p,
            i,
        ) < route.len(),
    decreases route.len() - i,
{
    if i < route.len() && route[i].0 != p {
        lemma_route_position(route, p, i + 1);
        if exists|k: int| i <= k < route.len() && (#[trigger] route[k]).0 == p {
            let k = choose|k: int| i <= k < route.len() && (#[trigger] route[k]).0 == p;
            assert(i + 1 <= k);
        }
    }
}

/// The cycle that an edge closes is a cycle of the graph.
pub proof fn lemma_closed_cycle(
    g: GraphView,
    follow: Seq<EdgeType>,
    route: Seq<(usize, EdgeType)>,
    p: usize,
    from: EdgeType,
)
    requires
        chained(g, follow, route),
        arrives(g, follow, route, p, from),
        route_contains(route, p),
    ensures
        closed_cycle(route, p, from).len() > 0,
        chained(g, follow, closed_cycle(route, p, from)),
        successors(g, closed_cycle(route, p, from).last().0 as int, follow).contains(
            closed_cycle(route, p, from)[0],
        ),
{
    lemma_route_position(route, p, 0);
    let k = route_position(route, p, 0);
    let c = closed_cycle(route, p, from);
    assert(k < route.len());
    assert forall|i: int| 1 <= i < c.len() implies successors(g, c[i - 1].0 as int, follow).contains(
        #[trigger] c[i],
    ) by {
        assert(c[i] == route[k + i]);
        if i == 1 {
            assert(c[0].0 == route[k].0);
        } else {
            assert(c[i - 1] == route[k + i - 1]);
        }
    }
    if c.len() > 1 {
        assert(c.last() == route.last());
    } else {
        assert(k == route.len() - 1);
    }
}

/// Soundness of the walk. Where the route is a path of the graph and the
/// walk arrives over an edge of the graph, every cycle that the walk adds
/// is a cycle of the graph that is to be reported: its edges are followed
/// edges of the graph, not all of them runtime edges, and it does not stay
/// inside one component.
pub proof fn lemma_visit_sound(
    g: GraphView,
    follow: Seq<EdgeType>,
    p: usize,
    route: Seq<(usize, EdgeType)>,
    from: EdgeType,
    w: WalkView,
)
    requires
        chained(g, follow, route),
        arrives(g, follow, route, p, from),
        all_reportable(g, follow, w.cycles),
    ensures
        all_reportable(g, follow, visit(g, follow, p, route, from, w).cycles),
    decreases unvisited(w.visited), 0nat, 0nat,
{
    if route_contains(route, p) {
        lemma_closed_cycle(g, follow, route, p, from);
        let after = finished(g, w.cycles, route, p, from);
        assert forall|i: int| 0 <= i < after.len() implies reportable(g, follow, #[trigger] after[i]) by {
            if i < w.cycles.len() {
                assert(after[i] == w.cycles[i]);
            }
        }
    } else if p >= w.visited.len() || w.visited[p as int] {
    } else {
        lemma_unvisited_mark(w.visited, p as int);
        let route1 = route.push((p, from));
        assert forall|i: int| 1 <= i < route1.len() implies successors(
            g,
            route1[i - 1].0 as int,
            follow,
        ).contains(#[trigger] route1[i]) by {
            if i < route.len() {
                assert(route1[i] == route[i]);
                assert(route1[i - 1] == route[i - 1]);
            } else {
                assert(route1[i - 1] == route.last());
            }
        }
        lemma_visit_all_sound(
            g,
            follow,
            successors(g, p as int, follow),
            0,
            route1,
            WalkView { visited: w.visited.update(p as int, true), ..w },
        );
    }
}

/// The same for a walk along the edges that leave the last package of the
/// route.
pub proof fn lemma_visit_all_sound(
    g: GraphView,
    follow: Seq<EdgeType>,
    next: Seq<(usize, EdgeType)>,
    i: int,
    route: Seq<(usize, EdgeType)>,
    w: WalkView,
)
    requires
        route.len() > 0,
        chained(g, follow, route),
        next == successors(g, route.last().0 as int, follow),
        all_reportable(g, follow, w.cycles),
    ensures
        all_reportable(g, follow, visit_all(g, follow, next, i, route, w).cycles),
    decreases unvisited(w.visited), 1nat, next.len() - i,
{
    if i < 0 || i >= next.len() {
    } else {
        assert(next.contains(next[i]));
        lemma_visit_sound(g, follow, next[i].0, route, next[i].1, w);
        lemma_visit_shrinks(g, follow, next[i].0, route, next[i].1, w);
        let after = visit(g, follow, next[i].0, route, next[i].1, w);
        lemma_visit_all_sound(g, follow, next, i + 1, route, after);
    }
}

/// The same for the walks that start at each package.
pub proof fn lemma_walk_sound(g: GraphView, follow: Seq<EdgeType>, i: int, w: WalkView)
    requires
        all_reportable(g, follow, w.cycles),
    ensures
        all_reportable(g, follow, walk_from(g, follow, i, w).cycles),
    decreases g.packages.len() - i,
{
    if i < 0 || i >= g.packages.len() {
    } else if i < w.visited.len() && w.visited[i] {
        lemma_walk_sound(g, follow, i + 1, w);
    } else {
        let route = Seq::<(usize, EdgeType)>::empty();
        lemma_visit_sound(g, follow, i as usize, route, EdgeType::New, w);
        lemma_walk_sound(g, follow, i + 1, visit(g, follow, i as usize, route, EdgeType::New, w));
    }
}

/// Cycle filtering. Every cycle that the walk over the whole graph finds is
/// a cycle of the graph along followed edges; not all of its edges are
/// runtime edges, and it does not stay inside one component.
pub proof fn lemma_found_cycles_sound(g: GraphView, follow: Seq<EdgeType>)
    ensures
        all_reportable(g, follow, found_cycles(g, follow)),
{
    lemma_walk_sound(
        g,
        follow,
        0,
        WalkView { visited: Seq::new(g.packages.len(), |i: int| false), cycles: Seq::empty() },
    );
}

/// The node that a package is reported as: the component that owns it, or
/// the package itself.
pub open spec fn named(g: GraphView, p: usize) -> OrView {
    match g.packages[p as int].component {
        Some(c) => OrView::Component(g.components[c as int].name),
        None => OrView::Package(g.packages[p as int].fmri),
    }
}

/// A cycle as it is reported: each entry holds the node that an edge leaves
/// and the type of that edge. The edge of entry `i` leads to the package of
/// entry `i` and leaves the one of the entry before, the first edge that of
/// the last entry.
pub open spec fn reported(g: GraphView, cycle: Seq<(usize, EdgeType)>) -> Seq<(OrView, EdgeType)> {
    Seq::new(
        cycle.len(),
        |i: int|
            (
                named(
                    g,
                    cycle[if i == 0 {
                        cycle.len() - 1
                    } else {
                        i - 1
                    }].0,
                ),
                cycle[i].1,
            ),
    )
}

/// A list of cycles with one more, put behind the last cycle that is not
/// greater than it.
pub open spec fn inserted(s: Seq<Seq<(OrView, EdgeType)>>, x: Seq<(OrView, EdgeType)>) -> Seq<Seq<(OrView, EdgeType)>>
    decreases s.len(),
{
    if s.len() == 0 {
        seq![x]
    } else if route_order(s.last(), x, 0) == Order::Greater {
        inserted(s.drop_last(), x).push(s.last())
    } else {
        s.push(x)
    }
}

/// The first `n` cycles of a list in order; cycles that compare equal keep
/// their order.
pub open spec fn ordered(s: Seq<Seq<(OrView, EdgeType)>>, n: int) -> Seq<Seq<(OrView, EdgeType)>>
    decreases n,
{
    if n <= 0 {
        Seq::empty()
    } else {
        inserted(ordered(s, n - 1), s[n - 1])
    }
}

/// The first `n` cycles of a list without a cycle that is the same as the
/// one kept before it.
pub open spec fn deduplicated(s: Seq<Seq<(OrView, EdgeType)>>, n: int) -> Seq<Seq<(OrView, EdgeType)>>
    decreases n,
{
    if n <= 0 {
        Seq::empty()
    } else {
        let before = deduplicated(s, n - 1);
        if before.len() > 0 && route_same(s[n - 1], before.last()) {
            before
        } else {
            before.push(s[n - 1])
        }
    }
}

/// Whether entry `i` of a reported cycle is dropped: a runtime edge between
/// two packages of one component, or of one package to itself.
pub open spec fn dropped(cycle: Seq<(OrView, EdgeType)>, i: int) -> bool {
    let next = if i + 1 < cycle.len() {
        cycle[i + 1]
    } else {
        cycle[0]
    };
    match cycle[i].1 {
        EdgeType::RuntimeRequire => or_same(next.0, cycle[i].0),
        EdgeType::RuntimeRequireAny => or_same(next.0, cycle[i].0),
        EdgeType::RuntimeConditionalFmri => or_same(next.0, cycle[i].0),
        _ => false,
    }
}

/// The first `n` entries of a reported cycle without the dropped ones.
pub open spec fn collapsed_route(cycle: Seq<(OrView, EdgeType)>, n: int) -> Seq<(OrView, EdgeType)>
    decreases n,
{
    if n <= 0 {
        Seq::empty()
    } else if dropped(cycle, n - 1) {
        collapsed_route(cycle, n - 1)
    } else {
        collapsed_route(cycle, n - 1).push(cycle[n - 1])
    }
}

/// The cycles between components that the walk over the graph finds: the
/// cycles of packages named by the components that own them, put in
/// order, each kept once, and each without the runtime edges that stay
/// inside one node.
pub open spec fn cycles_of(g: GraphView, follow: Seq<EdgeType>) -> Seq<Seq<(OrView, EdgeType)>> {
    let raw = found_cycles(g, follow).map_values(|c: Seq<(usize, EdgeType)>| reported(g, c));
    let kept = deduplicated(ordered(raw, raw.len() as int), ordered(raw, raw.len() as int).len() as int);
    kept.map_values(|c: Seq<(OrView, EdgeType)>| collapsed_route(c, c.len() as int))
}

/// The text of a cycle from its first `n` entries: for each entry the name
/// of the component, or `P|` and the name of the package, then the type of
/// the edge that leaves it.
pub open spec fn cycle_text(cycle: Seq<(OrView, EdgeType)>, n: int) -> Seq<char>
    decreases n,
{
    if n <= 0 {
        Seq::empty()
    } else {
        cycle_text(cycle, n - 1) + match cycle[n - 1].0 {
            OrView::Component(name) => name,
            OrView::Package(f) => "P|"@ + f.name,
        } + "   --"@ + edge_text(cycle[n - 1].1) + "-->   "@
    }
}

/// Prints a cycle as `c1   --Build-->   c2   --Build-->   `.
pub fn format_cycle(cycle: &Vec<(Or, EdgeType)>) -> (r: String)
    ensures
        r@ == cycle_text(route_view(cycle@), cycle@.len() as int),
{
    let mut string = String::new();
    let mut i: usize = 0;
    while i < cycle.len()
        invariant
            i <= cycle.len(),
            string@ == cycle_text(route_view(cycle@), i as int),
        decreases cycle.len() - i,
    {
        proof {
            assert(route_view(cycle@)[i as int] == (cycle@[i as int].0@, cycle@[i as int].1));
        }
        let ghost before = string@;
        let mut entry = match &cycle[i].0 {
            Or::Component(name) => name.clone(),
            Or::Package(f) => {
                let mut t = String::from_str("P|");
                t.append(f.get_package_name_as_ref_string().as_str());
                t
            },
        };
        entry.append("   --");
        entry.append(
            match cycle[i].1 {
                EdgeType::RuntimeRequire => "Require",
                EdgeType::RuntimeRequireAny => "RequireAny",
                EdgeType::RuntimeConditionalFmri => "ConditionalFmri",
                EdgeType::Build => "Build",
                EdgeType::Test => "Test",
                EdgeType::SystemBuild => "SystemBuild",
                EdgeType::SystemTest => "SystemTest",
                EdgeType::New => "New",
            },
        );
        entry.append("-->   ");
        string.append(entry.as_str());
        proof {
            let c = route_view(cycle@);
            let node = match c[i as int].0 {
                OrView::Component(name) => name,
                OrView::Package(f) => "P|"@ + f.name,
            };
            assert(string@ =~= before + node + "   --"@ + edge_text(c[i as int].1) + "-->   "@);
        }
        i += 1;
    }
    string
}

/// The routes of a list, as sequences.
pub open spec fn raw_views(s: Seq<Vec<(usize, EdgeType)>>) -> Seq<Seq<(usize, EdgeType)>> {
    s.map_values(|c: Vec<(usize, EdgeType)>| c@)
}

/// Every package of every cycle is a package of the graph.
pub open spec fn cycles_below(s: Seq<Seq<(usize, EdgeType)>>, n: int) -> bool {
    forall|i: int| 0 <= i < s.len() ==> targets_below(#[trigger] s[i], n)
}

/// The state of a walk.
pub struct Walk {
    pub visited: Vec<bool>,
    pub cycles: Vec<Vec<(usize, EdgeType)>>,
}

impl View for Walk {
    type V = WalkView;

    open spec fn view(&self) -> WalkView {
        WalkView { visited: self.visited@, cycles: raw_views(self.cycles@) }
    }
}

/// Whether the caller chose to follow an edge type.
pub fn follows(follow: &[EdgeType], t: EdgeType) -> (r: bool)
    ensures
        r == follow@.contains(t),
{
    let mut i: usize = 0;
    while i < follow.len()
        invariant
            i <= follow.len(),
            forall|k: int| 0 <= k < i ==> follow@[k] != t,
        decreases follow.len() - i,
    {
        if follow[i] == t {
            return true;
        }
        i += 1;
    }
    false
}

/// Whether a list of handles holds a handle.
pub fn holds_handle(list: &Vec<usize>, p: usize) -> (r: bool)
    ensures
        r == list@.contains(p),
{
    let mut i: usize = 0;
    while i < list.len()
        invariant
            i <= list.len(),
            forall|k: int| 0 <= k < i ==> list@[k] != p,
        decreases list.len() - i,
    {
        if list[i] == p {
            return true;
        }
        i += 1;
    }
    false
}

/// The first index where the route passes `p`, or the length of the route.
fn position_on_route(route: &Vec<(usize, EdgeType)>, p: usize) -> (r: usize)
    ensures
        r == route_position(route@, p, 0),
        r <= route.len(),
        (r < route.len()) == route_contains(route@, p),
{
    let mut i: usize = 0;
    while i < route.len() && route[i].0 != p
        invariant
            i <= route.len(),
            route_position(route@, p, 0) == route_position(route@, p, i as int),
            forall|k: int| 0 <= k < i ==> (#[trigger] route@[k]).0 != p,
        decreases route.len() - i,
    {
        i += 1;
    }
    proof {
        if i < route.len() {
            assert(route@[i as int].0 == p);
        }
    }
    i
}

/// Appends the edges to the packages that a component needs in one context.
fn needs_into(out: &mut Vec<(usize, EdgeType)>, needs: &Vec<usize>, t: EdgeType, follow: &[EdgeType])
    ensures
        final(out)@ == old(out)@ + needs_successors(needs@, t, follow@),
{
    let ghost start = out@;
    if follows(follow, t) {
        let mut j: usize = 0;
        while j < needs.len()
            invariant
                j <= needs.len(),
                out@ == start + needs@.map_values(|q: usize| (q, t)).take(j as int),
            decreases needs.len() - j,
        {
            out.push((needs[j], t));
            proof {
                let all = needs@.map_values(|q: usize| (q, t));
                assert(start + all.take(j + 1) =~= (start + all.take(j as int)).push(all[j as int]));
            }
            j += 1;
        }
        proof {
            let all = needs@.map_values(|q: usize| (q, t));
            assert(all.take(needs@.len() as int) =~= all);
        }
    } else {
        assert(start + Seq::<(usize, EdgeType)>::empty() =~= start);
    }
}

impl Components {
    /// Appends the edge to the package that an identifier names.
    fn target_into(&self, out: &mut Vec<(usize, EdgeType)>, f: &Fmri, t: EdgeType, follow: &[EdgeType])
        requires
            self.wf(),
        ensures
            final(out)@ == old(out)@ + target_successor(self@, f@, t, follow@),
    {
        let ghost start = out@;
        if follows(follow, t) {
            match self.get_package_by_fmri(f) {
                Ok(q) => {
                    out.push((q, t));
                    assert(out@ =~= start + seq![(q, t)]);
                },
                Err(_) => {
                    assert(start + Seq::<(usize, EdgeType)>::empty() =~= start);
                },
            }
        } else {
            assert(start + Seq::<(usize, EdgeType)>::empty() =~= start);
        }
    }

    /// Appends the edges that one declared dependency gives the walk.
    fn dep_into(&self, out: &mut Vec<(usize, EdgeType)>, d: &DependTypes, follow: &[EdgeType])
        requires
            self.wf(),
        ensures
            final(out)@ == old(out)@ + dep_successors(self@, d@, follow@),
    {
        let ghost start = out@;
        match d {
            DependTypes::Require(f) => self.target_into(out, f, EdgeType::RuntimeRequire, follow),
            DependTypes::RequireAny(l) => {
                let mut j: usize = 0;
                proof {
                    assert(start + any_successors(self@, fmri_views(l@), follow@, 0) =~= start);
                }
                while j < l.len()
                    invariant
                        j <= l.len(),
                        self.wf(),
                        out@ == start + any_successors(self@, fmri_views(l@), follow@, j as int),
                    decreases l.len() - j,
                {
                    proof {
                        assert(fmri_views(l@)[j as int] == l@[j as int]@);
                    }
                    self.target_into(out, &l[j], EdgeType::RuntimeRequireAny, follow);
                    proof {
                        let a = any_successors(self@, fmri_views(l@), follow@, j as int);
                        let b = target_successor(
                            self@,
                            fmri_views(l@)[j as int],
                            EdgeType::RuntimeRequireAny,
                            follow@,
                        );
                        assert((start + a) + b =~= start + (a + b));
                    }
                    j += 1;
                }
            },
            DependTypes::Conditional(f, _) => self.target_into(
                out,
                f,
                EdgeType::RuntimeConditionalFmri,
                follow,
            ),
            _ => {
                assert(start + Seq::<(usize, EdgeType)>::empty() =~= start);
            },
        }
    }

    /// The edges that leave a package, in the order in which the walk
    /// follows them.
    pub fn successors(&self, p: usize, follow: &[EdgeType]) -> (r: Vec<(usize, EdgeType)>)
        requires
            self.wf(),
            p < self@.packages.len(),
        ensures
            r@ == successors(self@, p as int, follow@),
    {
        let ghost g = self@;
        proof {
            self.lemma_wf();
        }
        let packages = self.get_packages();
        let components = self.get_components();
        let package = &packages[p];
        proof {
            assert(g.packages[p as int] == package@);
            assert(package_links_ok(g.packages[p as int], g.components.len() as int));
        }
        let mut out: Vec<(usize, EdgeType)> = Vec::new();
        if package.versions.len() > 0 {
            let deps = &package.versions[0].runtime;
            proof {
                assert(package@.versions[0] == package.versions@[0]@);
                assert(out@ =~= runtime_successors(g, depend_views(deps@), follow@, 0));
            }
            let mut j: usize = 0;
            while j < deps.len()
                invariant
                    j <= deps.len(),
                    self.wf(),
                    self@ == g,
                    out@ == runtime_successors(g, depend_views(deps@), follow@, j as int),
                decreases deps.len() - j,
            {
                proof {
                    assert(depend_views(deps@)[j as int] == deps@[j as int]@);
                }
                self.dep_into(&mut out, &deps[j], follow);
                j += 1;
            }
        }
        match package.component {
            None => {},
            Some(c) => {
                let component = &components[c];
                proof {
                    assert(g.components[c as int] == component@);
                }
                needs_into(&mut out, &component.build, EdgeType::Build, follow);
                needs_into(&mut out, &component.sys_build, EdgeType::SystemBuild, follow);
                needs_into(&mut out, &component.test, EdgeType::Test, follow);
                needs_into(&mut out, &component.sys_test, EdgeType::SystemTest, follow);
            },
        }
        out
    }

    /// Whether a cycle stays inside one component.
    fn is_cycle_in_one_component(&self, cycle: &Vec<(usize, EdgeType)>) -> (r: bool)
        requires
            self.wf(),
            cycle@.len() > 0,
            cycle@[0].0 < self@.packages.len(),
        ensures
            r == in_one_component(self@, cycle@),
    {
        let ghost g = self@;
        proof {
            self.lemma_wf();
        }
        let packages = self.get_packages();
        let components = self.get_components();
        let first = cycle[0].0;
        proof {
            assert(g.packages[first as int] == packages@[first as int]@);
            assert(package_links_ok(g.packages[first as int], g.components.len() as int));
        }
        match packages[first].component {
            None => cycle.len() == 1,
            Some(c) => {
                let claimed = &components[c].packages;
                proof {
                    assert(g.components[c as int] == components@[c as int]@);
                }
                let mut j: usize = 0;
                while j < cycle.len()
                    invariant
                        j <= cycle.len(),
                        g == self@,
                        cycle@.len() > 0,
                        c < g.components.len(),
                        g.packages[cycle@[0].0 as int].component == Some(c),
                        claimed@ == g.components[c as int].packages,
                        forall|k: int| 0 <= k < j ==> claimed@.contains((#[trigger] cycle@[k]).0),
                    decreases cycle.len() - j,
                {
                    if !holds_handle(claimed, cycle[j].0) {
                        proof {
                            assert(!claimed@.contains(cycle@[j as int].0));
                        }
                        return false;
                    }
                    j += 1;
                }
                true
            },
        }
    }

    /// Closes a cycle, and keeps it where it is to be reported.
    fn finish_cycle(
        &self,
        cycles: &mut Vec<Vec<(usize, EdgeType)>>,
        route: &Vec<(usize, EdgeType)>,
        p: usize,
        from_type: EdgeType,
    )
        requires
            self.wf(),
            p < self@.packages.len(),
            targets_below(route@, self@.packages.len() as int),
            cycles_below(raw_views(old(cycles)@), self@.packages.len() as int),
        ensures
            raw_views(final(cycles)@) == finished(self@, raw_views(old(cycles)@), route@, p, from_type),
            cycles_below(raw_views(final(cycles)@), self@.packages.len() as int),
    {
        let k = position_on_route(route, p);
        let mut cycle: Vec<(usize, EdgeType)> = Vec::new();
        cycle.push((p, from_type));
        let mut only_runtime_edges = from_type.is_runtime();
        let start: usize = if k < route.len() {
            k + 1
        } else {
            route.len()
        };
        let mut i: usize = start;
        let ghost target = closed_cycle(route@, p, from_type);
        proof {
            assert(cycle@ =~= seq![(p, from_type)] + route@.subrange(start as int, start as int));
            assert(cycle@[0].1 == from_type);
        }
        while i < route.len()
            invariant
                start <= i <= route.len(),
                cycle@ == seq![(p, from_type)] + route@.subrange(start as int, i as int),
                only_runtime_edges == only_runtime(cycle@),
            decreases route.len() - i,
        {
            let ghost before = cycle@;
            cycle.push(route[i]);
            if !route[i].1.is_runtime() {
                only_runtime_edges = false;
            }
            proof {
                assert(cycle@ =~= seq![(p, from_type)] + route@.subrange(start as int, i + 1));
                if only_runtime(before) && is_runtime(route@[i as int].1) {
                    assert forall|j: int| 0 <= j < cycle@.len() implies is_runtime((#[trigger] cycle@[j]).1) by {
                        if j < before.len() {
                            assert(cycle@[j] == before[j]);
                        }
                    }
                } else if !only_runtime(before) {
                    let j = choose|j: int| 0 <= j < before.len() && !is_runtime((#[trigger] before[j]).1);
                    assert(cycle@[j] == before[j]);
                } else {
                    assert(cycle@[before.len() as int] == route@[i as int]);
                }
            }
            i += 1;
        }
        proof {
            assert(cycle@ == target);
        }
        if !only_runtime_edges && !self.is_cycle_in_one_component(&cycle) {
            cycles.push(cycle);
            proof {
                assert(raw_views(cycles@) =~= raw_views(old(cycles)@).push(target));
                assert(targets_below(target, self@.packages.len() as int));
            }
        }
    }

    /// The walk arrives at `package` over an edge of type `from_type`.
    /// Returns whether the edge closed a cycle.
    fn find_cycles(
        &self,
        package: usize,
        route: &mut Vec<(usize, EdgeType)>,
        walk: &mut Walk,
        follow: &[EdgeType],
        from_type: EdgeType,
    ) -> (r: bool)
        requires
            self.wf(),
            package < self@.packages.len(),
            old(walk).visited@.len() == self@.packages.len(),
            targets_below(old(route)@, self@.packages.len() as int),
            cycles_below(raw_views(old(walk).cycles@), self@.packages.len() as int),
        ensures
            cycles_below(raw_views(final(walk).cycles@), self@.packages.len() as int),
            final(walk)@ == visit(self@, follow@, package, old(route)@, from_type, old(walk)@),
            final(route)@ == old(route)@,
            final(walk).visited@.len() == old(walk).visited@.len(),
            unvisited(final(walk).visited@) <= unvisited(old(walk).visited@),
            r == route_contains(old(route)@, package),
        decreases unvisited(old(walk).visited@), 0nat, 0nat,
    {
        let ghost g = self@;
        let ghost w0 = walk@;
        let ghost route0 = route@;
        if position_on_route(route, package) < route.len() {
            self.finish_cycle(&mut walk.cycles, route, package, from_type);
            return true;
        }
        if walk.visited[package] {
            return false;
        }
        walk.visited[package] = true;
        route.push((package, from_type));
        let next = self.successors(package, follow);
        let ghost w1 = walk@;
        let ghost route1 = route@;
        proof {
            lemma_unvisited_mark(w0.visited, package as int);
            assert(w1 == WalkView { visited: w0.visited.update(package as int, true), ..w0 });
            self.lemma_successors_below(package, follow@);
        }
        let mut i: usize = 0;
        while i < next.len()
            invariant
                i <= next.len(),
                self.wf(),
                self@ == g,
                route@ == route1,
                next@ == successors(g, package as int, follow@),
                targets_below(next@, g.packages.len() as int),
                walk.visited@.len() == g.packages.len(),
                targets_below(route1, g.packages.len() as int),
                cycles_below(raw_views(walk.cycles@), g.packages.len() as int),
                unvisited(walk.visited@) <= unvisited(w1.visited),
                unvisited(w1.visited) < unvisited(w0.visited),
                unvisited(w0.visited) == unvisited(old(walk).visited@),
                visit_all(g, follow@, next@, i as int, route1, walk@) == visit_all(
                    g,
                    follow@,
                    next@,
                    0,
                    route1,
                    w1,
                ),
            decreases next.len() - i,
        {
            let (q, t) = next[i];
            proof {
                assert(next@[i as int].0 < g.packages.len());
            }
            let _ = self.find_cycles(q, route, walk, follow, t);
            i += 1;
        }
        route.pop();
        proof {
            assert(route@ =~= route0);
        }
        false
    }

    /// Every edge that leaves a package leads to a package of the graph.
    pub proof fn lemma_successors_below(&self, p: usize, follow: Seq<EdgeType>)
        requires
            self.wf(),
            p < self@.packages.len(),
        ensures
            targets_below(successors(self@, p as int, follow), self@.packages.len() as int),
    {
        self.lemma_wf();
        lemma_successors_in_graph(self@, p as int, follow);
    }
}

/// Every edge to a named package leads to a package of the graph.
pub proof fn lemma_target_in_graph(g: GraphView, f: FmriView, t: EdgeType, follow: Seq<EdgeType>)
    requires
        g.packages.len() <= usize::MAX,
    ensures
        targets_below(target_successor(g, f, t, follow), g.packages.len() as int),
{
    if follow.contains(t) {
        match package_index(g, f.name) {
            Some(q) => {
                assert(package_at(g, f.name, q));
            },
            None => {},
        }
    }
}

/// Every edge that leaves a package of a well-formed graph leads to a
/// package of the graph.
pub proof fn lemma_successors_in_graph(g: GraphView, p: int, follow: Seq<EdgeType>)
    requires
        graph_wf(g),
        0 <= p < g.packages.len(),
    ensures
        targets_below(successors(g, p, follow), g.packages.len() as int),
{
    let n = g.packages.len() as int;
    let package = g.packages[p];
    let runtime = if package.versions.len() > 0 {
        runtime_successors(
            g,
            package.versions[0].runtime,
            follow,
            package.versions[0].runtime.len() as int,
        )
    } else {
        Seq::empty()
    };
    if package.versions.len() > 0 {
        lemma_runtime_in_graph(
            g,
            package.versions[0].runtime,
            follow,
            package.versions[0].runtime.len() as int,
        );
    }
    assert(package_links_ok(package, g.components.len() as int));
    match package.component {
        None => {},
        Some(c) => {
            let component = g.components[c as int];
            assert(component_links_ok(component, n));
            let b = needs_successors(component.build, EdgeType::Build, follow);
            let sb = needs_successors(component.sys_build, EdgeType::SystemBuild, follow);
            let t = needs_successors(component.test, EdgeType::Test, follow);
            let st = needs_successors(component.sys_test, EdgeType::SystemTest, follow);
            assert(targets_below(b, n));
            assert(targets_below(sb, n));
            assert(targets_below(t, n));
            assert(targets_below(st, n));
            assert(targets_below(runtime + b + sb + t + st, n));
        },
    }
}

proof fn lemma_runtime_in_graph(g: GraphView, deps: Seq<DependTypesView>, follow: Seq<EdgeType>, m: int)
    requires
        g.packages.len() <= usize::MAX,
        0 <= m <= deps.len(),
    ensures
        targets_below(runtime_successors(g, deps, follow, m), g.packages.len() as int),
    decreases m,
{
    if m > 0 {
        lemma_runtime_in_graph(g, deps, follow, m - 1);
        match deps[m - 1] {
            DependTypesView::Require(f) => lemma_target_in_graph(
                g,
                f,
                EdgeType::RuntimeRequire,
                follow,
            ),
            DependTypesView::RequireAny(l) => lemma_any_in_graph(g, l, follow, l.len() as int),
            DependTypesView::Conditional(f, _) => lemma_target_in_graph(
                g,
                f,
                EdgeType::RuntimeConditionalFmri,
                follow,
            ),
            _ => {},
        }
    }
}

proof fn lemma_any_in_graph(g: GraphView, l: Seq<FmriView>, follow: Seq<EdgeType>, m: int)
    requires
        g.packages.len() <= usize::MAX,
        0 <= m <= l.len(),
    ensures
        targets_below(any_successors(g, l, follow, m), g.packages.len() as int),
    decreases m,
{
    if m > 0 {
        lemma_any_in_graph(g, l, follow, m - 1);
        lemma_target_in_graph(g, l[m - 1], EdgeType::RuntimeRequireAny, follow);
    }
}

/// Whether the first cycle comes after the second.
fn route_greater(a: &Vec<(Or, EdgeType)>, b: &Vec<(Or, EdgeType)>) -> (r: bool)
    ensures
        r == (route_order(route_view(a@), route_view(b@), 0) == Order::Greater),
{
    match compare_routes(a, b) {
        Order::Greater => true,
        _ => false,
    }
}

/// Puts a cycle into a list behind the last cycle that is not greater.
fn insert_route(out: &mut Vec<Vec<(Or, EdgeType)>>, x: Vec<(Or, EdgeType)>)
    ensures
        route_views(final(out)@) == inserted(route_views(old(out)@), route_view(x@)),
{
    let ghost s = route_views(out@);
    let ghost xv = route_view(x@);
    let mut j: usize = out.len();
    proof {
        assert(s.take(j as int) =~= s);
        assert(inserted(s, xv) =~= inserted(s.take(j as int), xv) + s.subrange(j as int, s.len() as int));
    }
    while j > 0 && route_greater(&out[j - 1], &x)
        invariant
            j <= out.len(),
            s == route_views(out@),
            xv == route_view(x@),
            inserted(s, xv) == inserted(s.take(j as int), xv) + s.subrange(j as int, s.len() as int),
        decreases j,
    {
        proof {
            assert(s[j - 1] == route_view(out@[j - 1]@));
            assert(s.take(j as int).last() == s[j - 1]);
            assert(s.take(j as int).drop_last() =~= s.take(j - 1));
            assert(inserted(s.take(j - 1), xv).push(s[j - 1]) + s.subrange(j as int, s.len() as int)
                =~= inserted(s.take(j - 1), xv) + s.subrange(j - 1, s.len() as int));
        }
        j -= 1;
    }
    proof {
        if j > 0 {
            assert(s[j - 1] == route_view(out@[j - 1]@));
            assert(s.take(j as int).last() == s[j - 1]);
        } else {
            assert(s.take(0).len() == 0);
        }
        assert(inserted(s.take(j as int), xv) =~= s.take(j as int).push(xv));
        assert(s.take(j as int).push(xv) + s.subrange(j as int, s.len() as int) =~= s.insert(j as int, xv));
    }
    out.insert(j, x);
    proof {
        assert(route_views(out@) =~= s.insert(j as int, xv));
    }
}

/// A copy of a cycle.
pub fn clone_route(route: &Vec<(Or, EdgeType)>) -> (r: Vec<(Or, EdgeType)>)
    ensures
        route_view(r@) == route_view(route@),
{
    let mut r: Vec<(Or, EdgeType)> = Vec::new();
    let mut i: usize = 0;
    while i < route.len()
        invariant
            i <= route.len(),
            r.len() == i,
            forall|k: int| 0 <= k < i ==> r@[k].0@ == route@[k].0@ && r@[k].1 == route@[k].1,
        decreases route.len() - i,
    {
        r.push((route[i].0.clone(), route[i].1));
        i += 1;
    }
    assert(route_view(r@) =~= route_view(route@));
    r
}

/// Puts cycles in order. Cycles that compare equal keep their order.
pub fn sort_routes(routes: &Vec<Vec<(Or, EdgeType)>>) -> (r: Vec<Vec<(Or, EdgeType)>>)
    ensures
        route_views(r@) == ordered(route_views(routes@), routes@.len() as int),
{
    let mut out: Vec<Vec<(Or, EdgeType)>> = Vec::new();
    let mut i: usize = 0;
    assert(route_views(out@) =~= ordered(route_views(routes@), 0));
    while i < routes.len()
        invariant
            i <= routes.len(),
            route_views(out@) == ordered(route_views(routes@), i as int),
        decreases routes.len() - i,
    {
        proof {
            assert(route_views(routes@)[i as int] == route_view(routes@[i as int]@));
        }
        insert_route(&mut out, clone_route(&routes[i]));
        i += 1;
    }
    out
}

/// Drops every cycle that is the same as the one kept before it.
pub fn dedup_routes(routes: &Vec<Vec<(Or, EdgeType)>>) -> (r: Vec<Vec<(Or, EdgeType)>>)
    ensures
        route_views(r@) == deduplicated(route_views(routes@), routes@.len() as int),
{
    let mut out: Vec<Vec<(Or, EdgeType)>> = Vec::new();
    let mut i: usize = 0;
    assert(route_views(out@) =~= deduplicated(route_views(routes@), 0));
    while i < routes.len()
        invariant
            i <= routes.len(),
            route_views(out@) == deduplicated(route_views(routes@), i as int),
        decreases routes.len() - i,
    {
        proof {
            assert(route_views(routes@)[i as int] == route_view(routes@[i as int]@));
            if out.len() > 0 {
                assert(route_views(out@).last() == route_view(out@[out.len() - 1]@));
            }
        }
        let repeated = out.len() > 0 && same_routes(&routes[i], &out[out.len() - 1]);
        if !repeated {
            let ghost before = out@;
            out.push(clone_route(&routes[i]));
            proof {
                assert(route_views(out@) =~= route_views(before).push(route_view(routes@[i as int]@)));
            }
        }
        i += 1;
    }
    out
}

/// Drops from a cycle the runtime edges that stay inside one node.
pub fn collapse_route(cycle: &Vec<(Or, EdgeType)>) -> (r: Vec<(Or, EdgeType)>)
    ensures
        route_view(r@) == collapsed_route(route_view(cycle@), cycle@.len() as int),
{
    let mut out: Vec<(Or, EdgeType)> = Vec::new();
    let mut i: usize = 0;
    assert(route_view(out@) =~= collapsed_route(route_view(cycle@), 0));
    while i < cycle.len()
        invariant
            i <= cycle.len(),
            route_view(out@) == collapsed_route(route_view(cycle@), i as int),
        decreases cycle.len() - i,
    {
        let next: usize = if i + 1 < cycle.len() {
            i + 1
        } else {
            0
        };
        proof {
            assert(route_view(cycle@)[i as int] == (cycle@[i as int].0@, cycle@[i as int].1));
            assert(route_view(cycle@)[next as int] == (cycle@[next as int].0@, cycle@[next as int].1));
        }
        let drop = match cycle[i].1 {
            EdgeType::RuntimeRequire
            | EdgeType::RuntimeRequireAny
            | EdgeType::RuntimeConditionalFmri => cycle[next].0.same(&cycle[i].0),
            _ => false,
        };
        if !drop {
            let ghost before = out@;
            out.push((cycle[i].0.clone(), cycle[i].1));
            proof {
                assert(route_view(out@) =~= route_view(before).push(route_view(cycle@)[i as int]));
            }
        }
        i += 1;
    }
    out
}

impl Components {
    /// The node that a package is reported as: the component that owns it,
    /// or the package itself.
    pub fn node_of(&self, p: usize) -> (r: Or)
        requires
            self.wf(),
            p < self@.packages.len(),
        ensures
            r@ == named(self@, p),
    {
        proof {
            self.lemma_wf();
        }
        let packages = self.get_packages();
        let components = self.get_components();
        proof {
            assert(self@.packages[p as int] == packages@[p as int]@);
            assert(package_links_ok(self@.packages[p as int], self@.components.len() as int));
        }
        match packages[p].component {
            Some(c) => {
                proof {
                    assert(self@.components[c as int] == components@[c as int]@);
                }
                Or::Component(components[c].name.clone())
            },
            None => Or::Package(packages[p].fmri.clone()),
        }
    }

    /// Names a cycle of packages by the nodes it is reported with.
    pub fn report_cycle(&self, cycle: &Vec<(usize, EdgeType)>) -> (r: Vec<(Or, EdgeType)>)
        requires
            self.wf(),
            targets_below(cycle@, self@.packages.len() as int),
        ensures
            route_view(r@) == reported(self@, cycle@),
    {
        let mut out: Vec<(Or, EdgeType)> = Vec::new();
        let mut i: usize = 0;
        while i < cycle.len()
            invariant
                i <= cycle.len(),
                self.wf(),
                targets_below(cycle@, self@.packages.len() as int),
                out.len() == i,
                forall|k: int|
                    0 <= k < i ==> (#[trigger] out@[k]).0@ == reported(self@, cycle@)[k].0 && out@[k].1
                        == reported(self@, cycle@)[k].1,
            decreases cycle.len() - i,
        {
            let before: usize = if i == 0 {
                cycle.len() - 1
            } else {
                i - 1
            };
            proof {
                assert(cycle@[before as int].0 < self@.packages.len());
            }
            out.push((self.node_of(cycle[before].0), cycle[i].1));
            i += 1;
        }
        proof {
            assert(route_view(out@) =~= reported(self@, cycle@));
        }
        out
    }

    /// The cycles that the walk over the whole graph finds, as routes of
    /// package handles.
    pub fn find_all_cycles(&self, edge_types: &[EdgeType]) -> (r: Vec<Vec<(usize, EdgeType)>>)
        requires
            self.wf(),
        ensures
            raw_views(r@) == found_cycles(self@, edge_types@),
            cycles_below(raw_views(r@), self@.packages.len() as int),
    {
        let ghost g = self@;
        let n = self.get_packages().len();
        let mut visited: Vec<bool> = Vec::new();
        let mut k: usize = 0;
        while k < n
            invariant
                k <= n,
                visited@.len() == k,
                forall|j: int| 0 <= j < k ==> !visited@[j],
            decreases n - k,
        {
            visited.push(false);
            k += 1;
        }
        let mut walk = Walk { visited, cycles: Vec::new() };
        let ghost w0 = walk@;
        proof {
            assert(w0.visited =~= Seq::new(g.packages.len(), |i: int| false));
            assert(w0.cycles =~= Seq::<Seq<(usize, EdgeType)>>::empty());
        }
        let mut route: Vec<(usize, EdgeType)> = Vec::new();
        let mut i: usize = 0;
        while i < n
            invariant
                i <= n,
                n == g.packages.len(),
                self.wf(),
                self@ == g,
                route@.len() == 0,
                walk.visited@.len() == n,
                cycles_below(raw_views(walk.cycles@), n as int),
                walk_from(g, edge_types@, i as int, walk@) == walk_from(g, edge_types@, 0, w0),
            decreases n - i,
        {
            if !walk.visited[i] {
                proof {
                    assert(route@ =~= Seq::<(usize, EdgeType)>::empty());
                }
                let _ = self.find_cycles(i, &mut route, &mut walk, edge_types, EdgeType::New);
            }
            i += 1;
        }
        walk.cycles
    }

    /// Looks for dependency cycles between components, following the edge
    /// types that the caller names. A cycle is reported by the components
    /// that own its packages (by the package itself where none owns it), each
    /// with the type of the edge that leaves it. Cycles of runtime edges only
    /// and cycles inside one component are not reported. The walk visits
    /// every package once, so it may miss a cycle that can only be reached
    /// through a package it has visited on another route.
    pub fn check_cycles(&self, edge_types: &[EdgeType]) -> (r: Vec<Vec<(Or, EdgeType)>>)
        requires
            self.wf(),
        ensures
            route_views(r@) == cycles_of(self@, edge_types@),
    {
        let cycles = self.find_all_cycles(edge_types);
        let ghost raw = raw_views(cycles@).map_values(|c: Seq<(usize, EdgeType)>| reported(self@, c));
        let mut new_cycles: Vec<Vec<(Or, EdgeType)>> = Vec::new();
        let mut i: usize = 0;
        while i < cycles.len()
            invariant
                i <= cycles.len(),
                self.wf(),
                cycles_below(raw_views(cycles@), self@.packages.len() as int),
                new_cycles.len() == i,
                forall|k: int|
                    0 <= k < i ==> route_view((#[trigger] new_cycles@[k])@) == reported(
                        self@,
                        cycles@[k]@,
                    ),
            decreases cycles.len() - i,
        {
            proof {
                assert(raw_views(cycles@)[i as int] == cycles@[i as int]@);
            }
            new_cycles.push(self.report_cycle(&cycles[i]));
            i += 1;
        }
        proof {
            assert(route_views(new_cycles@) =~= raw);
        }
        let sorted = sort_routes(&new_cycles);
        let kept = dedup_routes(&sorted);
        let mut out: Vec<Vec<(Or, EdgeType)>> = Vec::new();
        let mut j: usize = 0;
        while j < kept.len()
            invariant
                j <= kept.len(),
                out.len() == j,
                forall|k: int|
                    0 <= k < j ==> route_view((#[trigger] out@[k])@) == collapsed_route(
                        route_view(kept@[k]@),
                        kept@[k]@.len() as int,
                    ),
            decreases kept.len() - j,
        {
            out.push(collapse_route(&kept[j]));
            j += 1;
        }
        proof {
            let kept_views = route_views(kept@);
            assert(route_views(out@) =~= kept_views.map_values(
                |c: Seq<(OrView, EdgeType)>| collapsed_route(c, c.len() as int),
            ));
        }
        out
    }
}

} // verus!
