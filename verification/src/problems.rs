//! The problems that the checks find, and the list that collects them
//! without repeating one.

use vstd::prelude::*;
use vstd::string::*;
use crate::identifier::{Fmri, FmriView, stripped, text_option, fmri_text};
use crate::packages::depend_types::{DependTypes, DependTypesView, depend_mentions, depend_name,
    depend_content_text};
use crate::packages::dependency_type::DependencyTypes;
use crate::text::texts;

verus! {

/// A copy of a list of strings.
pub fn clone_strings(v: &Vec<String>) -> (r: Vec<String>)
    ensures
        texts(r@) == texts(v@),
{
    let mut r: Vec<String> = Vec::new();
    let mut i: usize = 0;
    while i < v.len()
        invariant
            i <= v.len(),
            r.len() == i,
            forall|j: int| 0 <= j < i ==> r@[j]@ == v@[j]@,
        decreases v.len() - i,
    {
        r.push(v[i].clone());
        i += 1;
    }
    assert(texts(r@) =~= texts(v@));
    r
}

/// Whether two lists hold the same strings in the same order.
pub fn same_strings(a: &Vec<String>, b: &Vec<String>) -> (r: bool)
    ensures
        r == (texts(a@) == texts(b@)),
{
    if a.len() != b.len() {
        assert(texts(a@).len() != texts(b@).len());
        return false;
    }
    let mut i: usize = 0;
    while i < a.len()
        invariant
            i <= a.len(),
            a.len() == b.len(),
            forall|j: int| 0 <= j < i ==> a@[j]@ == b@[j]@,
        decreases a.len() - i,
    {
        if a[i] != b[i] {
            assert(texts(a@)[i as int] == a@[i as int]@);
            assert(texts(b@)[i as int] == b@[i as int]@);
            return false;
        }
        i += 1;
    }
    assert(texts(a@) =~= texts(b@));
    true
}

/// One inconsistency in the repository's metadata.
#[derive(Debug, PartialEq, Eq)]
pub enum Problem {
    /// A package that is neither obsolete nor renamed and has no component.
    MissingComponentForPackage(Fmri),
    /// A renamed package (first) that needs a renamed package (second).
    RenamedNeedsRenamed(Fmri, Fmri),
    /// A renamed package that a component still owns.
    RenamedPackageInComponent(Fmri, String),
    /// An obsolete package that a component still owns.
    ObsoletedPackageInComponent(Fmri, String),
    /// A build query (command, directory) that could not be run.
    UnRunnableMakeCommand(String, String),
    /// A dependency on a package that does not exist, declared by a package
    /// (runtime) or by a component (the other contexts).
    NonExistingRequired(DependTypes, DependencyTypes, Fmri, String),
    /// The same, declared by a renamed package.
    NonExistingRequiredByRenamed(DependTypes, DependencyTypes, Fmri),
    /// A dependency on a package all of whose versions are obsolete.
    ObsoletedRequired(DependTypes, DependencyTypes, Fmri, String),
    /// The same, declared by a renamed package.
    ObsoletedRequiredByRenamed(DependTypes, DependencyTypes, Fmri),
    /// A dependency on an obsolete package of which an older version is
    /// still valid.
    PartlyObsoletedRequired(DependTypes, DependencyTypes, Fmri, String),
    /// The same, declared by a renamed package.
    PartlyObsoletedRequiredByRenamed(DependTypes, DependencyTypes, Fmri),
    /// A component none of whose packages anything needs.
    UselessComponent(String),
    /// A package that several components claim.
    PackageInMultipleComponents(Fmri, Vec<String>),
    /// A package that a component claims and the catalog does not know.
    NonExistingPackageInPkg5(Fmri, String),
    /// A package published by two publishers, and the one whose latest
    /// version should have been obsoleted, if any.
    SamePackageHasTwoPublishers(Fmri, String, String, Option<String>),
}

/// The mathematical content of a problem.
pub enum ProblemView {
    MissingComponentForPackage(FmriView),
    RenamedNeedsRenamed(FmriView, FmriView),
    RenamedPackageInComponent(FmriView, Seq<char>),
    ObsoletedPackageInComponent(FmriView, Seq<char>),
    UnRunnableMakeCommand(Seq<char>, Seq<char>),
    NonExistingRequired(DependTypesView, DependencyTypes, FmriView, Seq<char>),
    NonExistingRequiredByRenamed(DependTypesView, DependencyTypes, FmriView),
    ObsoletedRequired(DependTypesView, DependencyTypes, FmriView, Seq<char>),
    ObsoletedRequiredByRenamed(DependTypesView, DependencyTypes, FmriView),
    PartlyObsoletedRequired(DependTypesView, DependencyTypes, FmriView, Seq<char>),
    PartlyObsoletedRequiredByRenamed(DependTypesView, DependencyTypes, FmriView),
    UselessComponent(Seq<char>),
    PackageInMultipleComponents(FmriView, Seq<Seq<char>>),
    NonExistingPackageInPkg5(FmriView, Seq<char>),
    SamePackageHasTwoPublishers(FmriView, Seq<char>, Seq<char>, Option<Seq<char>>),
}

impl View for Problem {
    type V = ProblemView;

    open spec fn view(&self) -> ProblemView {
        match *self {
            Problem::MissingComponentForPackage(f) => ProblemView::MissingComponentForPackage(f@),
            Problem::RenamedNeedsRenamed(a, b) => ProblemView::RenamedNeedsRenamed(a@, b@),
            Problem::RenamedPackageInComponent(f, c) => ProblemView::RenamedPackageInComponent(f@, c@),
            Problem::ObsoletedPackageInComponent(f, c) => ProblemView::ObsoletedPackageInComponent(f@, c@),
            Problem::UnRunnableMakeCommand(c, p) => ProblemView::UnRunnableMakeCommand(c@, p@),
            Problem::NonExistingRequired(d, t, f, c) => ProblemView::NonExistingRequired(d@, t, f@, c@),
            Problem::NonExistingRequiredByRenamed(d, t, f) => ProblemView::NonExistingRequiredByRenamed(d@, t, f@),
            Problem::ObsoletedRequired(d, t, f, c) => ProblemView::ObsoletedRequired(d@, t, f@, c@),
            Problem::ObsoletedRequiredByRenamed(d, t, f) => ProblemView::ObsoletedRequiredByRenamed(d@, t, f@),
            Problem::PartlyObsoletedRequired(d, t, f, c) => ProblemView::PartlyObsoletedRequired(d@, t, f@, c@),
            Problem::PartlyObsoletedRequiredByRenamed(d, t, f) => ProblemView::PartlyObsoletedRequiredByRenamed(d@, t, f@),
            Problem::UselessComponent(c) => ProblemView::UselessComponent(c@),
            Problem::PackageInMultipleComponents(f, l) => ProblemView::PackageInMultipleComponents(f@, texts(l@)),
            Problem::NonExistingPackageInPkg5(f, c) => ProblemView::NonExistingPackageInPkg5(f@, c@),
            Problem::SamePackageHasTwoPublishers(f, a, b, p) => ProblemView::SamePackageHasTwoPublishers(f@, a@, b@, text_option(p)),
        }
    }
}

impl Clone for Problem {
    fn clone(&self) -> (r: Self)
        ensures
            r@ == self@,
    {
        match self {
            Problem::MissingComponentForPackage(f) => Problem::MissingComponentForPackage(f.clone()),
            Problem::RenamedNeedsRenamed(a, b) => Problem::RenamedNeedsRenamed(a.clone(), b.clone()),
            Problem::RenamedPackageInComponent(f, c) => Problem::RenamedPackageInComponent(f.clone(), c.clone()),
            Problem::ObsoletedPackageInComponent(f, c) => Problem::ObsoletedPackageInComponent(f.clone(), c.clone()),
            Problem::UnRunnableMakeCommand(c, p) => Problem::UnRunnableMakeCommand(c.clone(), p.clone()),
            Problem::NonExistingRequired(d, t, f, c) => Problem::NonExistingRequired(d.clone(), *t, f.clone(), c.clone()),
            Problem::NonExistingRequiredByRenamed(d, t, f) => Problem::NonExistingRequiredByRenamed(d.clone(), *t, f.clone()),
            Problem::ObsoletedRequired(d, t, f, c) => Problem::ObsoletedRequired(d.clone(), *t, f.clone(), c.clone()),
            Problem::ObsoletedRequiredByRenamed(d, t, f) => Problem::ObsoletedRequiredByRenamed(d.clone(), *t, f.clone()),
            Problem::PartlyObsoletedRequired(d, t, f, c) => Problem::PartlyObsoletedRequired(d.clone(), *t, f.clone(), c.clone()),
            Problem::PartlyObsoletedRequiredByRenamed(d, t, f) => Problem::PartlyObsoletedRequiredByRenamed(d.clone(), *t, f.clone()),
            Problem::UselessComponent(c) => Problem::UselessComponent(c.clone()),
            Problem::PackageInMultipleComponents(f, l) => Problem::PackageInMultipleComponents(f.clone(), clone_strings(l)),
            Problem::NonExistingPackageInPkg5(f, c) => Problem::NonExistingPackageInPkg5(f.clone(), c.clone()),
            Problem::SamePackageHasTwoPublishers(f, a, b, p) => Problem::SamePackageHasTwoPublishers(
                f.clone(),
                a.clone(),
                b.clone(),
                match p {
                    Some(s) => Some(s.clone()),
                    None => None,
                },
            ),
        }
    }
}

/// The problem as the list keeps it: the identifier of the package it is
/// about has neither version nor publisher. The identifiers inside a
/// dependency stay as they are.
pub open spec fn normalized(p: ProblemView) -> ProblemView {
    match p {
        ProblemView::MissingComponentForPackage(f) => ProblemView::MissingComponentForPackage(stripped(f)),
        ProblemView::RenamedNeedsRenamed(a, b) => ProblemView::RenamedNeedsRenamed(stripped(a), stripped(b)),
        ProblemView::RenamedPackageInComponent(f, c) => ProblemView::RenamedPackageInComponent(stripped(f), c),
        ProblemView::ObsoletedPackageInComponent(f, c) => ProblemView::ObsoletedPackageInComponent(stripped(f), c),
        ProblemView::UnRunnableMakeCommand(c, d) => p,
        ProblemView::NonExistingRequired(d, t, f, c) => ProblemView::NonExistingRequired(d, t, stripped(f), c),
        ProblemView::NonExistingRequiredByRenamed(d, t, f) => ProblemView::NonExistingRequiredByRenamed(d, t, stripped(f)),
        ProblemView::ObsoletedRequired(d, t, f, c) => ProblemView::ObsoletedRequired(d, t, stripped(f), c),
        ProblemView::ObsoletedRequiredByRenamed(d, t, f) => ProblemView::ObsoletedRequiredByRenamed(d, t, stripped(f)),
        ProblemView::PartlyObsoletedRequired(d, t, f, c) => ProblemView::PartlyObsoletedRequired(d, t, stripped(f), c),
        ProblemView::PartlyObsoletedRequiredByRenamed(d, t, f) => ProblemView::PartlyObsoletedRequiredByRenamed(d, t, stripped(f)),
        ProblemView::UselessComponent(c) => p,
        ProblemView::PackageInMultipleComponents(f, l) => ProblemView::PackageInMultipleComponents(stripped(f), l),
        ProblemView::NonExistingPackageInPkg5(f, c) => ProblemView::NonExistingPackageInPkg5(stripped(f), c),
        ProblemView::SamePackageHasTwoPublishers(f, a, b, o) => ProblemView::SamePackageHasTwoPublishers(stripped(f), a, b, o),
    }
}

/// For a missing or obsolete dependency that a component declares: the
/// dependency, the context and the component's name. Two such problems with
/// the same three count as one.
pub open spec fn component_key(p: ProblemView) -> Option<(DependTypesView, DependencyTypes, Seq<char>)> {
    match p {
        ProblemView::NonExistingRequired(d, t, _, c) => Some((d, t, c)),
        ProblemView::ObsoletedRequired(d, t, _, c) => Some((d, t, c)),
        ProblemView::PartlyObsoletedRequired(d, t, _, c) => Some((d, t, c)),
        _ => None,
    }
}

/// Whether a problem already in the list stands for the candidate: it is the
/// same problem, or both are missing or obsolete dependencies of one
/// component, in one context other than runtime, on one dependency.
pub open spec fn covers(existing: ProblemView, candidate: ProblemView) -> bool {
    ||| existing == candidate
    ||| match component_key(candidate) {
        Some(key) => key.1 != DependencyTypes::Runtime && component_key(existing) == Some(key),
        None => false,
    }
}

/// Whether some problem of the list stands for the candidate.
pub open spec fn listed(problems: Seq<ProblemView>, candidate: ProblemView) -> bool {
    exists|i: int| 0 <= i < problems.len() && covers(#[trigger] problems[i], candidate)
}

/// The list after one problem was handed in: the problem is normalized, and
/// appended unless the list already stands for it.
pub open spec fn added(problems: Seq<ProblemView>, problem: ProblemView) -> Seq<ProblemView> {
    if listed(problems, normalized(problem)) {
        problems
    } else {
        problems.push(normalized(problem))
    }
}

/// The list after a sequence of problems was handed in, one by one.
pub open spec fn added_all(problems: Seq<ProblemView>, candidates: Seq<ProblemView>) -> Seq<ProblemView>
    decreases candidates.len(),
{
    if candidates.len() == 0 {
        problems
    } else {
        added(added_all(problems, candidates.drop_last()), candidates.last())
    }
}

/// Normalizing a problem twice changes nothing more.
pub proof fn lemma_normalized_twice(p: ProblemView)
    ensures
        normalized(normalized(p)) == normalized(p),
{
}

/// A list that stands for a candidate still stands for it when it grows.
pub proof fn lemma_listed_grows(problems: Seq<ProblemView>, q: ProblemView, candidate: ProblemView)
    requires
        listed(problems, candidate),
    ensures
        listed(added(problems, q), candidate),
{
    let i = choose|i: int| 0 <= i < problems.len() && covers(#[trigger] problems[i], candidate);
    assert(covers(added(problems, q)[i], candidate));
}

/// After a problem was handed in, the list stands for it.
pub proof fn lemma_added_is_listed(problems: Seq<ProblemView>, p: ProblemView)
    ensures
        listed(added(problems, p), normalized(p)),
{
    if !listed(problems, normalized(p)) {
        let after = problems.push(normalized(p));
        assert(covers(after[problems.len() as int], normalized(p)));
    }
}

/// Deduplication. Handing in the same problem twice leaves the list as
/// handing it in once does.
pub proof fn lemma_added_twice(problems: Seq<ProblemView>, p: ProblemView)
    ensures
        added(added(problems, p), p) == added(problems, p),
{
    lemma_added_is_listed(problems, p);
}

/// Handing problems in never removes or reorders what the list holds.
pub proof fn lemma_added_all_extends(problems: Seq<ProblemView>, candidates: Seq<ProblemView>)
    ensures
        problems.len() <= added_all(problems, candidates).len(),
        added_all(problems, candidates).take(problems.len() as int) == problems,
    decreases candidates.len(),
{
    if candidates.len() > 0 {
        lemma_added_all_extends(problems, candidates.drop_last());
        let before = added_all(problems, candidates.drop_last());
        let after = added(before, candidates.last());
        assert(after.take(problems.len() as int) =~= before.take(problems.len() as int));
    } else {
        assert(problems.take(problems.len() as int) =~= problems);
    }
}

/// After a sequence of problems was handed in, the list stands for each of
/// them.
pub proof fn lemma_added_all_listed(problems: Seq<ProblemView>, candidates: Seq<ProblemView>, i: int)
    requires
        0 <= i < candidates.len(),
    ensures
        listed(added_all(problems, candidates), normalized(candidates[i])),
    decreases candidates.len(),
{
    let before = added_all(problems, candidates.drop_last());
    if i == candidates.len() - 1 {
        lemma_added_is_listed(before, candidates.last());
    } else {
        lemma_added_all_listed(problems, candidates.drop_last(), i);
        lemma_listed_grows(before, candidates.last(), normalized(candidates[i]));
    }
}

/// Handing in two sequences one after the other is handing in their
/// concatenation.
pub proof fn lemma_added_all_concat(problems: Seq<ProblemView>, a: Seq<ProblemView>, b: Seq<ProblemView>)
    ensures
        added_all(problems, a + b) == added_all(added_all(problems, a), b),
    decreases b.len(),
{
    if b.len() == 0 {
        assert(a + b =~= a);
    } else {
        lemma_added_all_concat(problems, a, b.drop_last());
        assert((a + b).drop_last() =~= a + b.drop_last());
        assert((a + b).last() == b.last());
    }
}

/// The number of kinds of problem.
pub const PROBLEM_KINDS: usize = 15;

/// The rank of a problem in a sorted report: lower ranks come first.
pub open spec fn priority(p: ProblemView) -> int {
    match p {
        ProblemView::UselessComponent(_) => 0,
        ProblemView::PartlyObsoletedRequired(_, _, _, _) => 1,
        ProblemView::PartlyObsoletedRequiredByRenamed(_, _, _) => 2,
        ProblemView::MissingComponentForPackage(_) => 3,
        ProblemView::NonExistingRequired(_, _, _, _) => 4,
        ProblemView::NonExistingRequiredByRenamed(_, _, _) => 5,
        ProblemView::RenamedNeedsRenamed(_, _) => 6,
        ProblemView::RenamedPackageInComponent(_, _) => 7,
        ProblemView::ObsoletedPackageInComponent(_, _) => 8,
        ProblemView::ObsoletedRequired(_, _, _, _) => 9,
        ProblemView::ObsoletedRequiredByRenamed(_, _, _) => 10,
        ProblemView::UnRunnableMakeCommand(_, _) => 11,
        ProblemView::PackageInMultipleComponents(_, _) => 12,
        ProblemView::NonExistingPackageInPkg5(_, _) => 13,
        ProblemView::SamePackageHasTwoPublishers(_, _, _, _) => 14,
    }
}

/// The problems of rank `k` among the first `n` of the list, in their order.
pub open spec fn of_rank(s: Seq<ProblemView>, k: int, n: int) -> Seq<ProblemView>
    decreases n,
{
    if n <= 0 {
        Seq::empty()
    } else if priority(s[n - 1]) == k {
        of_rank(s, k, n - 1).push(s[n - 1])
    } else {
        of_rank(s, k, n - 1)
    }
}

/// The problems of ranks below `k`, rank by rank, each rank in the order of
/// the list.
pub open spec fn ranked_below(s: Seq<ProblemView>, k: int) -> Seq<ProblemView>
    decreases k,
{
    if k <= 0 {
        Seq::empty()
    } else {
        ranked_below(s, k - 1) + of_rank(s, k - 1, s.len() as int)
    }
}

/// The list sorted by rank; problems of one rank keep their order.
pub open spec fn sorted(s: Seq<ProblemView>) -> Seq<ProblemView> {
    ranked_below(s, PROBLEM_KINDS as int)
}

/// The problems of one rank are the problems of the list that have that
/// rank, in the order of the list.
pub proof fn lemma_of_rank(s: Seq<ProblemView>, k: int, n: int)
    requires
        0 <= n <= s.len(),
    ensures
        of_rank(s, k, n) == s.take(n).filter(|p: ProblemView| priority(p) == k),
        forall|i: int| 0 <= i < of_rank(s, k, n).len() ==> priority(#[trigger] of_rank(s, k, n)[i]) == k,
    decreases n,
{
    reveal(Seq::filter);
    if n > 0 {
        lemma_of_rank(s, k, n - 1);
        assert(s.take(n).drop_last() =~= s.take(n - 1));
        assert(s.take(n).last() == s[n - 1]);
    } else {
        assert(s.take(0).len() == 0);
    }
}

/// A sorted list is in the order of the ranks.
pub proof fn lemma_ranked_below(s: Seq<ProblemView>, k: int)
    requires
        0 <= k,
    ensures
        forall|i: int| 0 <= i < ranked_below(s, k).len() ==> 0 <= priority(#[trigger] ranked_below(s, k)[i]) < k,
        forall|i: int, j: int|
            0 <= i < j < ranked_below(s, k).len() ==> priority(#[trigger] ranked_below(s, k)[i])
                <= priority(#[trigger] ranked_below(s, k)[j]),
    decreases k,
{
    if k > 0 {
        lemma_ranked_below(s, k - 1);
        lemma_of_rank(s, k - 1, s.len() as int);
        let a = ranked_below(s, k - 1);
        let b = of_rank(s, k - 1, s.len() as int);
        assert forall|i: int| 0 <= i < (a + b).len() implies 0 <= priority(#[trigger] (a + b)[i]) < k by {
            if i < a.len() {
                assert((a + b)[i] == a[i]);
            } else {
                assert((a + b)[i] == b[i - a.len()]);
            }
        }
        assert forall|i: int, j: int| 0 <= i < j < (a + b).len() implies priority(
            #[trigger] (a + b)[i],
        ) <= priority(#[trigger] (a + b)[j]) by {
            if j < a.len() {
                assert((a + b)[i] == a[i]);
                assert((a + b)[j] == a[j]);
            } else if i < a.len() {
                assert((a + b)[i] == a[i]);
                assert((a + b)[j] == b[j - a.len()]);
            } else {
                assert((a + b)[i] == b[i - a.len()]);
                assert((a + b)[j] == b[j - a.len()]);
            }
        }
    }
}

/// Sorting puts the problems in the order of their ranks.
pub proof fn lemma_sorted_is_ordered(s: Seq<ProblemView>)
    ensures
        forall|i: int, j: int|
            0 <= i < j < sorted(s).len() ==> priority(#[trigger] sorted(s)[i]) <= priority(
                #[trigger] sorted(s)[j],
            ),
{
    lemma_ranked_below(s, PROBLEM_KINDS as int);
}

/// Whether a problem is about the package `name`: as the package it reports,
/// or as a package that a reported dependency names.
pub open spec fn related(p: ProblemView, name: Seq<char>) -> bool {
    match p {
        ProblemView::UselessComponent(_) => false,
        ProblemView::UnRunnableMakeCommand(_, _) => false,
        ProblemView::NonExistingPackageInPkg5(f, _) => f.name == name,
        ProblemView::SamePackageHasTwoPublishers(f, _, _, _) => f.name == name,
        ProblemView::PackageInMultipleComponents(f, _) => f.name == name,
        ProblemView::MissingComponentForPackage(f) => f.name == name,
        ProblemView::RenamedPackageInComponent(f, _) => f.name == name,
        ProblemView::ObsoletedPackageInComponent(f, _) => f.name == name,
        ProblemView::RenamedNeedsRenamed(a, b) => a.name == name || b.name == name,
        ProblemView::NonExistingRequired(d, _, f, _) => f.name == name || depend_mentions(d, name),
        ProblemView::NonExistingRequiredByRenamed(d, _, f) => f.name == name || depend_mentions(d, name),
        ProblemView::ObsoletedRequired(d, _, f, _) => f.name == name || depend_mentions(d, name),
        ProblemView::ObsoletedRequiredByRenamed(d, _, f) => f.name == name || depend_mentions(d, name),
        ProblemView::PartlyObsoletedRequired(d, _, f, _) => f.name == name || depend_mentions(d, name),
        ProblemView::PartlyObsoletedRequiredByRenamed(d, _, f) => f.name == name || depend_mentions(d, name),
    }
}

/// The problems about the package `name` among the first `n` of the list.
pub open spec fn related_among(s: Seq<ProblemView>, name: Seq<char>, n: int) -> Seq<ProblemView>
    decreases n,
{
    if n <= 0 {
        Seq::empty()
    } else if related(s[n - 1], name) {
        related_among(s, name, n - 1).push(s[n - 1])
    } else {
        related_among(s, name, n - 1)
    }
}

/// The problems of a list, as mathematical values.
pub open spec fn problem_views(s: Seq<Problem>) -> Seq<ProblemView> {
    s.map_values(|p: Problem| p@)
}

impl Problem {
    /// Whether both are the same problem, field by field.
    pub fn same(&self, other: &Problem) -> (r: bool)
        ensures
            r == (self@ == other@),
    {
        match (self, other) {
            (Problem::MissingComponentForPackage(f), Problem::MissingComponentForPackage(g)) => f.same(g),
            (Problem::RenamedNeedsRenamed(a, b), Problem::RenamedNeedsRenamed(c, d)) => a.same(c) && b.same(d),
            (Problem::RenamedPackageInComponent(f, c), Problem::RenamedPackageInComponent(g, d)) => f.same(g) && *c == *d,
            (Problem::ObsoletedPackageInComponent(f, c), Problem::ObsoletedPackageInComponent(g, d)) => f.same(g) && *c == *d,
            (Problem::UnRunnableMakeCommand(a, b), Problem::UnRunnableMakeCommand(c, d)) => *a == *c && *b == *d,
            (Problem::NonExistingRequired(d, t, f, c), Problem::NonExistingRequired(e, u, g, k)) => {
                d.same(e) && *t == *u && f.same(g) && *c == *k
            },
            (Problem::NonExistingRequiredByRenamed(d, t, f), Problem::NonExistingRequiredByRenamed(e, u, g)) => {
                d.same(e) && *t == *u && f.same(g)
            },
            (Problem::ObsoletedRequired(d, t, f, c), Problem::ObsoletedRequired(e, u, g, k)) => {
                d.same(e) && *t == *u && f.same(g) && *c == *k
            },
            (Problem::ObsoletedRequiredByRenamed(d, t, f), Problem::ObsoletedRequiredByRenamed(e, u, g)) => {
                d.same(e) && *t == *u && f.same(g)
            },
            (Problem::PartlyObsoletedRequired(d, t, f, c), Problem::PartlyObsoletedRequired(e, u, g, k)) => {
                d.same(e) && *t == *u && f.same(g) && *c == *k
            },
            (Problem::PartlyObsoletedRequiredByRenamed(d, t, f), Problem::PartlyObsoletedRequiredByRenamed(e, u, g)) => {
                d.same(e) && *t == *u && f.same(g)
            },
            (Problem::UselessComponent(c), Problem::UselessComponent(d)) => *c == *d,
            (Problem::PackageInMultipleComponents(f, l), Problem::PackageInMultipleComponents(g, m)) => {
                f.same(g) && same_strings(l, m)
            },
            (Problem::NonExistingPackageInPkg5(f, c), Problem::NonExistingPackageInPkg5(g, d)) => f.same(g) && *c == *d,
            (Problem::SamePackageHasTwoPublishers(f, a, b, p), Problem::SamePackageHasTwoPublishers(g, c, d, q)) => {
                let last = match (p, q) {
                    (Some(x), Some(y)) => *x == *y,
                    (None, None) => true,
                    _ => false,
                };
                f.same(g) && *a == *c && *b == *d && last
            },
            _ => false,
        }
    }

    /// The rank of the problem in a sorted report.
    pub fn rank(&self) -> (r: usize)
        ensures
            r == priority(self@),
            r < PROBLEM_KINDS,
    {
        match self {
            Problem::UselessComponent(_) => 0,
            Problem::PartlyObsoletedRequired(_, _, _, _) => 1,
            Problem::PartlyObsoletedRequiredByRenamed(_, _, _) => 2,
            Problem::MissingComponentForPackage(_) => 3,
            Problem::NonExistingRequired(_, _, _, _) => 4,
            Problem::NonExistingRequiredByRenamed(_, _, _) => 5,
            Problem::RenamedNeedsRenamed(_, _) => 6,
            Problem::RenamedPackageInComponent(_, _) => 7,
            Problem::ObsoletedPackageInComponent(_, _) => 8,
            Problem::ObsoletedRequired(_, _, _, _) => 9,
            Problem::ObsoletedRequiredByRenamed(_, _, _) => 10,
            Problem::UnRunnableMakeCommand(_, _) => 11,
            Problem::PackageInMultipleComponents(_, _) => 12,
            Problem::NonExistingPackageInPkg5(_, _) => 13,
            Problem::SamePackageHasTwoPublishers(_, _, _, _) => 14,
        }
    }

    /// The problem as the list keeps it: the identifier of the package it is
    /// about loses its version and its publisher.
    pub fn normalize(self) -> (r: Problem)
        ensures
            r@ == normalized(self@),
    {
        match self {
            Problem::MissingComponentForPackage(f) => Problem::MissingComponentForPackage(f.to_key()),
            Problem::RenamedNeedsRenamed(a, b) => Problem::RenamedNeedsRenamed(a.to_key(), b.to_key()),
            Problem::RenamedPackageInComponent(f, c) => Problem::RenamedPackageInComponent(f.to_key(), c),
            Problem::ObsoletedPackageInComponent(f, c) => Problem::ObsoletedPackageInComponent(f.to_key(), c),
            Problem::UnRunnableMakeCommand(c, p) => Problem::UnRunnableMakeCommand(c, p),
            Problem::NonExistingRequired(d, t, f, c) => Problem::NonExistingRequired(d, t, f.to_key(), c),
            Problem::NonExistingRequiredByRenamed(d, t, f) => Problem::NonExistingRequiredByRenamed(d, t, f.to_key()),
            Problem::ObsoletedRequired(d, t, f, c) => Problem::ObsoletedRequired(d, t, f.to_key(), c),
            Problem::ObsoletedRequiredByRenamed(d, t, f) => Problem::ObsoletedRequiredByRenamed(d, t, f.to_key()),
            Problem::PartlyObsoletedRequired(d, t, f, c) => Problem::PartlyObsoletedRequired(d, t, f.to_key(), c),
            Problem::PartlyObsoletedRequiredByRenamed(d, t, f) => Problem::PartlyObsoletedRequiredByRenamed(d, t, f.to_key()),
            Problem::UselessComponent(c) => Problem::UselessComponent(c),
            Problem::PackageInMultipleComponents(f, l) => Problem::PackageInMultipleComponents(f.to_key(), l),
            Problem::NonExistingPackageInPkg5(f, c) => Problem::NonExistingPackageInPkg5(f.to_key(), c),
            Problem::SamePackageHasTwoPublishers(f, a, b, p) => Problem::SamePackageHasTwoPublishers(f.to_key(), a, b, p),
        }
    }

    /// Whether the problem is about the package that `fmri` names.
    pub fn is_related_to(&self, fmri: &Fmri) -> (r: bool)
        ensures
            r == related(self@, fmri@.name),
    {
        match self {
            Problem::UselessComponent(_) => false,
            Problem::UnRunnableMakeCommand(_, _) => false,
            Problem::NonExistingPackageInPkg5(f, _) => f.package_name_eq(fmri),
            Problem::SamePackageHasTwoPublishers(f, _, _, _) => f.package_name_eq(fmri),
            Problem::PackageInMultipleComponents(f, _) => f.package_name_eq(fmri),
            Problem::MissingComponentForPackage(f) => f.package_name_eq(fmri),
            Problem::RenamedPackageInComponent(f, _) => f.package_name_eq(fmri),
            Problem::ObsoletedPackageInComponent(f, _) => f.package_name_eq(fmri),
            Problem::RenamedNeedsRenamed(a, b) => a.package_name_eq(fmri) || b.package_name_eq(fmri),
            Problem::NonExistingRequired(d, _, f, _) => f.package_name_eq(fmri) || d.mentions(fmri),
            Problem::NonExistingRequiredByRenamed(d, _, f) => f.package_name_eq(fmri) || d.mentions(fmri),
            Problem::ObsoletedRequired(d, _, f, _) => f.package_name_eq(fmri) || d.mentions(fmri),
            Problem::ObsoletedRequiredByRenamed(d, _, f) => f.package_name_eq(fmri) || d.mentions(fmri),
            Problem::PartlyObsoletedRequired(d, _, f, _) => f.package_name_eq(fmri) || d.mentions(fmri),
            Problem::PartlyObsoletedRequiredByRenamed(d, _, f) => f.package_name_eq(fmri) || d.mentions(fmri),
        }
    }

    /// Whether this problem, already in a list, stands for the candidate.
    pub fn stands_for(&self, candidate: &Problem) -> (r: bool)
        ensures
            r == covers(self@, candidate@),
    {
        if self.same(candidate) {
            return true;
        }
        let same_key = match (self, candidate) {
            (Problem::NonExistingRequired(d, t, _, c), Problem::NonExistingRequired(e, u, _, k)) => {
                d.same(e) && *t == *u && *c == *k
            },
            (Problem::NonExistingRequired(d, t, _, c), Problem::ObsoletedRequired(e, u, _, k)) => {
                d.same(e) && *t == *u && *c == *k
            },
            (Problem::NonExistingRequired(d, t, _, c), Problem::PartlyObsoletedRequired(e, u, _, k)) => {
                d.same(e) && *t == *u && *c == *k
            },
            (Problem::ObsoletedRequired(d, t, _, c), Problem::NonExistingRequired(e, u, _, k)) => {
                d.same(e) && *t == *u && *c == *k
            },
            (Problem::ObsoletedRequired(d, t, _, c), Problem::ObsoletedRequired(e, u, _, k)) => {
                d.same(e) && *t == *u && *c == *k
            },
            (Problem::ObsoletedRequired(d, t, _, c), Problem::PartlyObsoletedRequired(e, u, _, k)) => {
                d.same(e) && *t == *u && *c == *k
            },
            (Problem::PartlyObsoletedRequired(d, t, _, c), Problem::NonExistingRequired(e, u, _, k)) => {
                d.same(e) && *t == *u && *c == *k
            },
            (Problem::PartlyObsoletedRequired(d, t, _, c), Problem::ObsoletedRequired(e, u, _, k)) => {
                d.same(e) && *t == *u && *c == *k
            },
            (Problem::PartlyObsoletedRequired(d, t, _, c), Problem::PartlyObsoletedRequired(e, u, _, k)) => {
                d.same(e) && *t == *u && *c == *k
            },
            _ => false,
        };
        let in_component = match candidate {
            Problem::NonExistingRequired(_, t, _, _) => *t != DependencyTypes::Runtime,
            Problem::ObsoletedRequired(_, t, _, _) => *t != DependencyTypes::Runtime,
            Problem::PartlyObsoletedRequired(_, t, _, _) => *t != DependencyTypes::Runtime,
            _ => false,
        };
        same_key && in_component
    }
}

/// The list of problems found so far. No problem of the list stands for a
/// later one.
#[derive(Debug, PartialEq, Eq)]
pub struct Problems(Vec<Problem>);

impl View for Problems {
    type V = Seq<ProblemView>;

    closed spec fn view(&self) -> Seq<ProblemView> {
        problem_views(self.0@)
    }
}

impl Clone for Problems {
    fn clone(&self) -> (r: Self)
        ensures
            r@ == self@,
    {
        let mut v: Vec<Problem> = Vec::new();
        let mut i: usize = 0;
        while i < self.0.len()
            invariant
                i <= self.0.len(),
                v.len() == i,
                forall|j: int| 0 <= j < i ==> v@[j]@ == self.0@[j]@,
            decreases self.0.len() - i,
        {
            v.push(self.0[i].clone());
            i += 1;
        }
        assert(problem_views(v@) =~= problem_views(self.0@));
        Problems(v)
    }
}

impl Default for Problems {
    fn default() -> (r: Self)
        ensures
            r@ == Seq::<ProblemView>::empty(),
    {
        Problems::new()
    }
}

impl Problems {
    /// The empty list.
    pub fn new() -> (r: Self)
        ensures
            r@ == Seq::<ProblemView>::empty(),
    {
        let r = Problems(Vec::new());
        assert(problem_views(r.0@) =~= Seq::<ProblemView>::empty());
        r
    }

    /// The problems, in the order in which they were found or sorted.
    pub fn get_ref(&self) -> (r: &Vec<Problem>)
        ensures
            problem_views(r@) == self@,
    {
        &self.0
    }

    /// The number of problems.
    pub fn len(&self) -> (r: usize)
        ensures
            r == self@.len(),
    {
        self.0.len()
    }

    /// Whether the list already stands for the candidate.
    pub fn contains(&self, problem: &Problem) -> (r: bool)
        ensures
            r == listed(self@, problem@),
    {
        let mut i: usize = 0;
        while i < self.0.len()
            invariant
                i <= self.0.len(),
                forall|j: int| 0 <= j < i ==> !covers(#[trigger] self@[j], problem@),
            decreases self.0.len() - i,
        {
            if self.0[i].stands_for(problem) {
                assert(self@[i as int] == self.0@[i as int]@);
                return true;
            }
            proof {
                assert(self@[i as int] == self.0@[i as int]@);
            }
            i += 1;
        }
        false
    }

    /// Hands in a problem. Its package identifier loses version and
    /// publisher; it is appended unless the list already stands for it.
    pub fn add_problem(&mut self, problem: Problem)
        ensures
            final(self)@ == added(old(self)@, problem@),
    {
        let problem = problem.normalize();
        if !self.contains(&problem) {
            self.0.push(problem);
            assert(problem_views(self.0@) =~= problem_views(old(self).0@).push(problem@));
        }
    }

    /// Sorts the list by rank. Problems of one rank keep their order.
    pub fn sort(&mut self)
        ensures
            final(self)@ == sorted(old(self)@),
    {
        let mut out: Vec<Problem> = Vec::new();
        let mut k: usize = 0;
        while k < PROBLEM_KINDS
            invariant
                k <= PROBLEM_KINDS,
                problem_views(out@) == ranked_below(self@, k as int),
            decreases PROBLEM_KINDS - k,
        {
            let mut i: usize = 0;
            while i < self.0.len()
                invariant
                    i <= self.0.len(),
                    k < PROBLEM_KINDS,
                    problem_views(out@) == ranked_below(self@, k as int) + of_rank(self@, k as int, i as int),
                decreases self.0.len() - i,
            {
                proof {
                    assert(self@[i as int] == self.0@[i as int]@);
                }
                if self.0[i].rank() == k {
                    let ghost before = out@;
                    out.push(self.0[i].clone());
                    assert(problem_views(out@) =~= problem_views(before).push(self@[i as int]));
                    assert(problem_views(out@) =~= ranked_below(self@, k as int) + of_rank(self@, k as int, i + 1));
                }
                i += 1;
            }
            k += 1;
        }
        self.0 = out;
    }

    /// How many problems of each rank the list holds.
    pub fn counts(&self) -> (r: Vec<usize>)
        ensures
            r.len() == PROBLEM_KINDS,
            forall|k: int| 0 <= k < PROBLEM_KINDS ==> r@[k] == of_rank(self@, k, self@.len() as int).len(),
    {
        let mut r: Vec<usize> = Vec::new();
        let mut k: usize = 0;
        while k < PROBLEM_KINDS
            invariant
                k <= PROBLEM_KINDS,
                r.len() == k,
                forall|j: int| 0 <= j < k ==> r@[j] == of_rank(self@, j, self@.len() as int).len(),
            decreases PROBLEM_KINDS - k,
        {
            let mut n: usize = 0;
            let mut i: usize = 0;
            while i < self.0.len()
                invariant
                    i <= self.0.len(),
                    n <= i,
                    n == of_rank(self@, k as int, i as int).len(),
                decreases self.0.len() - i,
            {
                proof {
                    assert(self@[i as int] == self.0@[i as int]@);
                }
                if self.0[i].rank() == k {
                    n += 1;
                }
                i += 1;
            }
            r.push(n);
            k += 1;
        }
        r
    }

    /// The problems that are about the package of `fmri`, in the order of the
    /// list.
    pub fn get_problems_related_to_fmri(&self, fmri: &Fmri) -> (r: Vec<Problem>)
        ensures
            problem_views(r@) == related_among(self@, fmri@.name, self@.len() as int),
    {
        let mut problems: Vec<Problem> = Vec::new();
        let mut i: usize = 0;
        assert(problem_views(problems@) =~= related_among(self@, fmri@.name, 0));
        while i < self.0.len()
            invariant
                i <= self.0.len(),
                problem_views(problems@) == related_among(self@, fmri@.name, i as int),
            decreases self.0.len() - i,
        {
            proof {
                assert(self@[i as int] == self.0@[i as int]@);
            }
            if self.0[i].is_related_to(fmri) {
                let ghost before = problems@;
                problems.push(self.0[i].clone());
                assert(problem_views(problems@) =~= problem_views(before).push(self@[i as int]));
            }
            i += 1;
        }
        problems
    }
}

/// How grave a line of the report is.
#[derive(Clone, Copy, Debug, PartialEq, Eq, Structural)]
pub enum Level {
    Error,
    Warn,
    Info,
}

/// One line of the report.
#[derive(Debug, PartialEq, Eq)]
pub struct Line {
    pub level: Level,
    pub message: String,
}

/// The mathematical content of a line of the report.
pub struct LineView {
    pub level: Level,
    pub message: Seq<char>,
}

impl View for Line {
    type V = LineView;

    open spec fn view(&self) -> LineView {
        LineView { level: self.level, message: self.message@ }
    }
}

/// The lines of a list, as mathematical values.
pub open spec fn line_views(s: Seq<Line>) -> Seq<LineView> {
    s.map_values(|l: Line| l@)
}

/// What `Debug` of `str` prints for a text: the text in double quotes, with
/// its special characters escaped.
pub uninterp spec fn quoted(text: Seq<char>) -> Seq<char>;

/// Prints a text with the `Debug` formatting of `str`, as `format!("{:?}")`
/// does.
#[verifier::external_body]
fn quote(text: &str) -> (r: String)
    ensures
        r@ == quoted(text@),
{
    format!("{:?}", text)
}

/// The first `n` texts of a list, separated by commas.
pub open spec fn joined(l: Seq<Seq<char>>, n: int) -> Seq<char>
    decreases n,
{
    if n <= 0 {
        Seq::empty()
    } else if n == 1 {
        l[0]
    } else {
        joined(l, n - 1) + ","@ + l[n - 1]
    }
}

/// A publisher as it is printed.
pub open spec fn publisher_text(name: Seq<char>) -> Seq<char> {
    "pkg://"@ + name + "/"@
}

/// Who requires a missing or obsolete package, where the requirement is not
/// reported by a renamed package: the package at runtime, or the component
/// in the other contexts.
pub open spec fn required_by_text(d: DependTypesView, t: DependencyTypes, by: FmriView, component: Seq<char>) -> Seq<char> {
    match t {
        DependencyTypes::Runtime => "package "@ + by.name + " (runtime, "@ + depend_name(d) + ")"@,
        DependencyTypes::Build => "component "@ + component + " (build, component)"@,
        DependencyTypes::Test => "component "@ + component + " (test, component)"@,
        DependencyTypes::SystemBuild => "component "@ + component + " (build, system)"@,
        DependencyTypes::SystemTest => "component "@ + component + " (test, system)"@,
    }
}

/// Which renamed package requires a missing package.
pub open spec fn missing_by_renamed_text(d: DependTypesView, t: DependencyTypes, by: FmriView) -> Seq<char> {
    match t {
        DependencyTypes::Runtime => by.name + " (runtime, "@ + depend_name(d) + ")"@,
        DependencyTypes::Build => by.name + " (build, "@ + depend_name(d) + ")"@,
        DependencyTypes::Test => by.name + " (test, "@ + depend_name(d) + ")"@,
        DependencyTypes::SystemBuild => by.name + " (system-build)"@,
        DependencyTypes::SystemTest => by.name + " (system-test)"@,
    }
}

/// Which renamed package requires an obsolete package.
pub open spec fn obsolete_by_renamed_text(d: DependTypesView, t: DependencyTypes, by: FmriView) -> Seq<char> {
    match t {
        DependencyTypes::Runtime => by.name + " (runtime, "@ + depend_name(d) + ")"@,
        DependencyTypes::Build => by.name + " (build, component)"@,
        DependencyTypes::Test => by.name + " (test, component)"@,
        DependencyTypes::SystemBuild => by.name + " (system-build, system)"@,
        DependencyTypes::SystemTest => by.name + " (system-test, system)"@,
    }
}

/// How grave a problem is.
pub open spec fn problem_level(p: ProblemView) -> Level {
    match p {
        ProblemView::UselessComponent(_) => Level::Info,
        ProblemView::MissingComponentForPackage(_) => Level::Warn,
        ProblemView::NonExistingRequired(_, _, _, _) => Level::Warn,
        ProblemView::NonExistingRequiredByRenamed(_, _, _) => Level::Warn,
        ProblemView::PartlyObsoletedRequired(_, _, _, _) => Level::Warn,
        ProblemView::PartlyObsoletedRequiredByRenamed(_, _, _) => Level::Warn,
        _ => Level::Error,
    }
}

/// The line that reports a problem.
pub open spec fn problem_message(p: ProblemView) -> Seq<char> {
    match p {
        ProblemView::SamePackageHasTwoPublishers(f, a, b, last) => match last {
            Some(l) => "package "@ + fmri_text(f) + " has two publishers ("@ + publisher_text(a)
                + " and "@ + publisher_text(b) + "), but the latest version with publisher "@
                + publisher_text(l) + " is not obsoleted"@,
            None => "package "@ + fmri_text(f) + " has two publishers ("@ + publisher_text(a)
                + " and "@ + publisher_text(b) + "), but wrong package is obsoleted"@,
        },
        ProblemView::NonExistingPackageInPkg5(f, c) => "package "@ + fmri_text(f)
            + " does not exist but it is in the pkg5, component: "@ + c,
        ProblemView::PackageInMultipleComponents(f, l) => "package "@ + fmri_text(f)
            + " is in multiple components: "@ + joined(l, l.len() as int),
        ProblemView::UselessComponent(c) => "component "@ + c + " is not needed by any package"@,
        ProblemView::MissingComponentForPackage(f) => "missing component for "@ + fmri_text(f),
        ProblemView::RenamedNeedsRenamed(a, b) => "renamed package "@ + a.name
            + " needs renamed package "@ + b.name,
        ProblemView::RenamedPackageInComponent(f, c) => "package "@ + f.name
            + " is renamed and is in component "@ + c,
        ProblemView::ObsoletedPackageInComponent(f, c) => "package "@ + f.name
            + " is obsolete and is in component "@ + c,
        ProblemView::UnRunnableMakeCommand(c, path) => "can't run "@ + c + " in "@ + quoted(path),
        ProblemView::NonExistingRequired(d, t, by, c) => "package "@ + depend_content_text(d)
            + " doesn't exist, but is required by "@ + required_by_text(d, t, by, c),
        ProblemView::NonExistingRequiredByRenamed(d, t, by) => "package "@ + depend_content_text(d)
            + " doesn't exist, but is required by renamed package "@ + missing_by_renamed_text(
            d,
            t,
            by,
        ),
        ProblemView::ObsoletedRequired(d, t, by, c) => "obsoleted package "@ + depend_content_text(d)
            + " is required by "@ + required_by_text(d, t, by, c),
        ProblemView::ObsoletedRequiredByRenamed(d, t, by) => "obsoleted package "@
            + depend_content_text(d) + " is required by renamed package "@
            + obsolete_by_renamed_text(d, t, by),
        ProblemView::PartlyObsoletedRequired(d, t, by, c) => "obsoleted package "@
            + depend_content_text(d) + " is required by "@ + required_by_text(d, t, by, c),
        ProblemView::PartlyObsoletedRequiredByRenamed(d, t, by) => "obsoleted package "@
            + depend_content_text(d) + " is required by renamed package "@
            + obsolete_by_renamed_text(d, t, by),
    }
}

/// How grave the count of the problems of a rank is.
pub open spec fn count_level(k: int) -> Level {
    if k == 0 {
        Level::Info
    } else if k <= 5 {
        Level::Warn
    } else {
        Level::Error
    }
}

/// What the count of the problems of a rank is headed with.
pub open spec fn count_heading(k: int) -> Seq<char> {
    if k == 0 {
        "Number of components that are not needed by any package: "@
    } else if k == 1 {
        "Number of obsoleted packages with older normal version which are needed as dependency: "@
    } else if k == 2 {
        "Number of obsoleted packages with older normal version which are needed as dependency in renamed package: "@
    } else if k == 3 {
        "Number of packages that do not belong to a component: "@
    } else if k == 4 {
        "Number of non existing packages which are needed as dependency: "@
    } else if k == 5 {
        "Number of non existing packages which are needed as dependency in renamed package: "@
    } else if k == 6 {
        "Number of renamed packages that need renamed packages: "@
    } else if k == 7 {
        "Number of renamed packages which are in component: "@
    } else if k == 8 {
        "Number of obsoleted packages which are in component: "@
    } else if k == 9 {
        "Number of obsoleted packages which are needed as dependency: "@
    } else if k == 10 {
        "Number of obsoleted packages which are needed as dependency in renamed package: "@
    } else if k == 11 {
        "Number of un-runnable make commands: "@
    } else if k == 12 {
        "Number of packages that are in multiple components: "@
    } else if k == 13 {
        "Number of packages that are in pkg5 file but do not exist: "@
    } else {
        "Number of problems with packages that have same publisher: "@
    }
}

/// The decimal digits of a number.
pub open spec fn decimal(n: nat) -> Seq<char>
    decreases n,
{
    if n < 10 {
        seq![digit(n)]
    } else {
        decimal(n / 10).push(digit(n % 10))
    }
}

/// The character of a digit.
pub open spec fn digit(d: nat) -> char {
    if d == 0 {
        '0'
    } else if d == 1 {
        '1'
    } else if d == 2 {
        '2'
    } else if d == 3 {
        '3'
    } else if d == 4 {
        '4'
    } else if d == 5 {
        '5'
    } else if d == 6 {
        '6'
    } else if d == 7 {
        '7'
    } else if d == 8 {
        '8'
    } else {
        '9'
    }
}

/// The line that counts the problems of rank `k`.
pub open spec fn count_line(s: Seq<ProblemView>, k: int) -> LineView {
    LineView {
        level: count_level(k),
        message: count_heading(k) + decimal(of_rank(s, k, s.len() as int).len()),
    }
}

/// The report of a list of problems: a line for each problem, in the order
/// of the list, then a line for each rank with the number of its problems.
pub open spec fn report_lines(s: Seq<ProblemView>) -> Seq<LineView> {
    Seq::new(
        s.len() + PROBLEM_KINDS as nat,
        |i: int|
            if i < s.len() {
                LineView { level: problem_level(s[i]), message: problem_message(s[i]) }
            } else {
                count_line(s, i - s.len())
            },
    )
}

/// The character of a digit.
fn digit_char(d: usize) -> (r: char)
    requires
        d < 10,
    ensures
        r == digit(d as nat),
{
    if d == 0 {
        '0'
    } else if d == 1 {
        '1'
    } else if d == 2 {
        '2'
    } else if d == 3 {
        '3'
    } else if d == 4 {
        '4'
    } else if d == 5 {
        '5'
    } else if d == 6 {
        '6'
    } else if d == 7 {
        '7'
    } else if d == 8 {
        '8'
    } else {
        '9'
    }
}

/// The decimal digits of a number.
pub fn decimal_digits(n: usize) -> (r: Vec<char>)
    ensures
        r@ == decimal(n as nat),
    decreases n,
{
    if n < 10 {
        let mut r: Vec<char> = Vec::new();
        r.push(digit_char(n));
        r
    } else {
        let mut r = decimal_digits(n / 10);
        r.push(digit_char(n % 10));
        r
    }
}

/// The texts of a list, separated by commas.
fn join_texts(l: &Vec<String>) -> (r: String)
    ensures
        r@ == joined(texts(l@), l@.len() as int),
{
    let mut string = String::new();
    let mut i: usize = 0;
    while i < l.len()
        invariant
            i <= l.len(),
            string@ == joined(texts(l@), i as int),
        decreases l.len() - i,
    {
        proof {
            assert(texts(l@)[i as int] == l@[i as int]@);
        }
        if i > 0 {
            string.append(",");
        }
        string.append(l[i].as_str());
        proof {
            if i == 0 {
                assert(string@ =~= texts(l@)[0]);
            }
        }
        i += 1;
    }
    string
}

/// A publisher as it is printed.
fn publisher_to_string(name: &String) -> (r: String)
    ensures
        r@ == publisher_text(name@),
{
    let mut string = String::from_str("pkg://");
    string.append(name.as_str());
    string.append("/");
    string
}

/// Who requires a missing or obsolete package.
fn required_by(name: &String, t: DependencyTypes, by: &Fmri, component: &String) -> (r: String)
    ensures
        forall|d: DependTypesView| depend_name(d) == name@ ==> r@ == #[trigger] required_by_text(d, t, by@, component@),
{
    match t {
        DependencyTypes::Runtime => {
            let mut string = String::from_str("package ");
            string.append(by.get_package_name_as_ref_string().as_str());
            string.append(" (runtime, ");
            string.append(name.as_str());
            string.append(")");
            string
        },
        DependencyTypes::Build => in_component(component, " (build, component)"),
        DependencyTypes::Test => in_component(component, " (test, component)"),
        DependencyTypes::SystemBuild => in_component(component, " (build, system)"),
        DependencyTypes::SystemTest => in_component(component, " (test, system)"),
    }
}

/// `component`, the name, and what follows it.
fn in_component(component: &String, rest: &str) -> (r: String)
    ensures
        r@ == "component "@ + component@ + rest@,
{
    let mut string = String::from_str("component ");
    string.append(component.as_str());
    string.append(rest);
    string
}

/// A package name and what follows it.
fn named_with(by: &Fmri, rest: &str) -> (r: String)
    ensures
        r@ == by@.name + rest@,
{
    let mut string = by.get_package_name_as_ref_string().clone();
    string.append(rest);
    string
}

/// A package name, the context, and the kind of dependency in brackets.
fn named_with_kind(by: &Fmri, context: &str, name: &String) -> (r: String)
    ensures
        r@ == by@.name + context@ + name@ + ")"@,
{
    let mut string = by.get_package_name_as_ref_string().clone();
    string.append(context);
    string.append(name.as_str());
    string.append(")");
    string
}

/// Which renamed package requires a missing package.
fn missing_by_renamed(name: &String, t: DependencyTypes, by: &Fmri) -> (r: String)
    ensures
        forall|d: DependTypesView| depend_name(d) == name@ ==> r@ == #[trigger] missing_by_renamed_text(d, t, by@),
{
    match t {
        DependencyTypes::Runtime => named_with_kind(by, " (runtime, ", name),
        DependencyTypes::Build => named_with_kind(by, " (build, ", name),
        DependencyTypes::Test => named_with_kind(by, " (test, ", name),
        DependencyTypes::SystemBuild => named_with(by, " (system-build)"),
        DependencyTypes::SystemTest => named_with(by, " (system-test)"),
    }
}

/// Which renamed package requires an obsolete package.
fn obsolete_by_renamed(name: &String, t: DependencyTypes, by: &Fmri) -> (r: String)
    ensures
        forall|d: DependTypesView| depend_name(d) == name@ ==> r@ == #[trigger] obsolete_by_renamed_text(d, t, by@),
{
    match t {
        DependencyTypes::Runtime => named_with_kind(by, " (runtime, ", name),
        DependencyTypes::Build => named_with(by, " (build, component)"),
        DependencyTypes::Test => named_with(by, " (test, component)"),
        DependencyTypes::SystemBuild => named_with(by, " (system-build, system)"),
        DependencyTypes::SystemTest => named_with(by, " (system-test, system)"),
    }
}

/// Three texts one after the other, behind a first one.
fn phrase(first: &str, a: &str, middle: &str, b: &str) -> (r: String)
    ensures
        r@ == first@ + a@ + middle@ + b@,
{
    let mut string = String::from_str(first);
    string.append(a);
    string.append(middle);
    string.append(b);
    string
}

/// The line that reports a problem.
pub fn report_problem(problem: &Problem) -> (r: Line)
    ensures
        r@ == (LineView { level: problem_level(problem@), message: problem_message(problem@) }),
{
    match problem {
        Problem::SamePackageHasTwoPublishers(fmri, publisher_a, publisher_b, p) => {
            let mut message = String::from_str("package ");
            let text = fmri.to_string();
            message.append(text.as_str());
            message.append(" has two publishers (");
            let a = publisher_to_string(publisher_a);
            message.append(a.as_str());
            message.append(" and ");
            let b = publisher_to_string(publisher_b);
            message.append(b.as_str());
            match p {
                Some(last) => {
                    message.append("), but the latest version with publisher ");
                    let l = publisher_to_string(last);
                    message.append(l.as_str());
                    message.append(" is not obsoleted");
                },
                None => {
                    message.append("), but wrong package is obsoleted");
                },
            }
            Line { level: Level::Error, message }
        },
        Problem::NonExistingPackageInPkg5(fmri, component_name) => {
            let text = fmri.to_string();
            Line {
                level: Level::Error,
                message: phrase(
                    "package ",
                    text.as_str(),
                    " does not exist but it is in the pkg5, component: ",
                    component_name.as_str(),
                ),
            }
        },
        Problem::PackageInMultipleComponents(fmri, components) => {
            let text = fmri.to_string();
            let names = join_texts(components);
            Line {
                level: Level::Error,
                message: phrase(
                    "package ",
                    text.as_str(),
                    " is in multiple components: ",
                    names.as_str(),
                ),
            }
        },
        Problem::UselessComponent(name) => {
            let mut message = String::from_str("component ");
            message.append(name.as_str());
            message.append(" is not needed by any package");
            Line { level: Level::Info, message }
        },
        Problem::MissingComponentForPackage(fmri) => {
            let mut message = String::from_str("missing component for ");
            let text = fmri.to_string();
            message.append(text.as_str());
            Line { level: Level::Warn, message }
        },
        Problem::RenamedNeedsRenamed(fmri_a, fmri_b) => Line {
            level: Level::Error,
            message: phrase(
                "renamed package ",
                fmri_a.get_package_name_as_ref_string().as_str(),
                " needs renamed package ",
                fmri_b.get_package_name_as_ref_string().as_str(),
            ),
        },
        Problem::RenamedPackageInComponent(package, component) => Line {
            level: Level::Error,
            message: phrase(
                "package ",
                package.get_package_name_as_ref_string().as_str(),
                " is renamed and is in component ",
                component.as_str(),
            ),
        },
        Problem::ObsoletedPackageInComponent(package, component) => Line {
            level: Level::Error,
            message: phrase(
                "package ",
                package.get_package_name_as_ref_string().as_str(),
                " is obsolete and is in component ",
                component.as_str(),
            ),
        },
        Problem::UnRunnableMakeCommand(command, path) => {
            let q = quote(path.as_str());
            Line {
                level: Level::Error,
                message: phrase("can't run ", command.as_str(), " in ", q.as_str()),
            }
        },
        Problem::NonExistingRequired(depend_type, dependency_type, required_by_fmri, component_name) => {
            let (name, fmri) = depend_type.clone().get_name_and_content_as_string();
            let who = required_by(&name, *dependency_type, required_by_fmri, component_name);
            Line {
                level: Level::Warn,
                message: phrase(
                    "package ",
                    fmri.as_str(),
                    " doesn't exist, but is required by ",
                    who.as_str(),
                ),
            }
        },
        Problem::NonExistingRequiredByRenamed(depend_type, dependency_type, required_by_fmri) => {
            let (name, fmri) = depend_type.clone().get_name_and_content_as_string();
            let who = missing_by_renamed(&name, *dependency_type, required_by_fmri);
            Line {
                level: Level::Warn,
                message: phrase(
                    "package ",
                    fmri.as_str(),
                    " doesn't exist, but is required by renamed package ",
                    who.as_str(),
                ),
            }
        },
        Problem::ObsoletedRequired(depend_type, dependency_type, required_by_fmri, component_name) => {
            let (name, fmri) = depend_type.clone().get_name_and_content_as_string();
            let who = required_by(&name, *dependency_type, required_by_fmri, component_name);
            Line {
                level: Level::Error,
                message: phrase("obsoleted package ", fmri.as_str(), " is required by ", who.as_str()),
            }
        },
        Problem::ObsoletedRequiredByRenamed(depend_type, dependency_type, required_by_fmri) => {
            let (name, fmri) = depend_type.clone().get_name_and_content_as_string();
            let who = obsolete_by_renamed(&name, *dependency_type, required_by_fmri);
            Line {
                level: Level::Error,
                message: phrase(
                    "obsoleted package ",
                    fmri.as_str(),
                    " is required by renamed package ",
                    who.as_str(),
                ),
            }
        },
        Problem::PartlyObsoletedRequired(depend_type, dependency_type, required_by_fmri, component_name) => {
            let (name, fmri) = depend_type.clone().get_name_and_content_as_string();
            let who = required_by(&name, *dependency_type, required_by_fmri, component_name);
            Line {
                level: Level::Warn,
                message: phrase("obsoleted package ", fmri.as_str(), " is required by ", who.as_str()),
            }
        },
        Problem::PartlyObsoletedRequiredByRenamed(depend_type, dependency_type, required_by_fmri) => {
            let (name, fmri) = depend_type.clone().get_name_and_content_as_string();
            let who = obsolete_by_renamed(&name, *dependency_type, required_by_fmri);
            Line {
                level: Level::Warn,
                message: phrase(
                    "obsoleted package ",
                    fmri.as_str(),
                    " is required by renamed package ",
                    who.as_str(),
                ),
            }
        },
    }
}

/// What the count of the problems of a rank is headed with.
fn count_heading_of(k: usize) -> (r: &'static str)
    ensures
        r@ == count_heading(k as int),
{
    if k == 0 {
        "Number of components that are not needed by any package: "
    } else if k == 1 {
        "Number of obsoleted packages with older normal version which are needed as dependency: "
    } else if k == 2 {
        "Number of obsoleted packages with older normal version which are needed as dependency in renamed package: "
    } else if k == 3 {
        "Number of packages that do not belong to a component: "
    } else if k == 4 {
        "Number of non existing packages which are needed as dependency: "
    } else if k == 5 {
        "Number of non existing packages which are needed as dependency in renamed package: "
    } else if k == 6 {
        "Number of renamed packages that need renamed packages: "
    } else if k == 7 {
        "Number of renamed packages which are in component: "
    } else if k == 8 {
        "Number of obsoleted packages which are in component: "
    } else if k == 9 {
        "Number of obsoleted packages which are needed as dependency: "
    } else if k == 10 {
        "Number of obsoleted packages which are needed as dependency in renamed package: "
    } else if k == 11 {
        "Number of un-runnable make commands: "
    } else if k == 12 {
        "Number of packages that are in multiple components: "
    } else if k == 13 {
        "Number of packages that are in pkg5 file but do not exist: "
    } else {
        "Number of problems with packages that have same publisher: "
    }
}

/// The report of a list of problems: a line for each problem, in the order
/// of the list, then a line for each rank with the number of its problems.
pub fn report(problems: &Problems) -> (r: Vec<Line>)
    ensures
        line_views(r@) == report_lines(problems@),
{
    let list = problems.get_ref();
    let mut lines: Vec<Line> = Vec::new();
    let mut i: usize = 0;
    while i < list.len()
        invariant
            i <= list.len(),
            problem_views(list@) == problems@,
            lines.len() == i,
            forall|k: int| 0 <= k < i ==> (#[trigger] lines@[k])@ == report_lines(problems@)[k],
        decreases list.len() - i,
    {
        proof {
            assert(problems@[i as int] == list@[i as int]@);
        }
        lines.push(report_problem(&list[i]));
        i += 1;
    }
    let counts = problems.counts();
    let mut k: usize = 0;
    while k < PROBLEM_KINDS
        invariant
            k <= PROBLEM_KINDS,
            counts.len() == PROBLEM_KINDS,
            list@.len() == problems@.len(),
            forall|j: int| 0 <= j < PROBLEM_KINDS ==> counts@[j] == of_rank(problems@, j, problems@.len() as int).len(),
            lines.len() == list.len() + k,
            forall|j: int| 0 <= j < lines.len() ==> (#[trigger] lines@[j])@ == report_lines(problems@)[j],
        decreases PROBLEM_KINDS - k,
    {
        let mut message = String::from_str(count_heading_of(k));
        let digits = decimal_digits(counts[k]);
        let number = crate::text::from_chars(&digits, 0, digits.len());
        proof {
            assert(digits@.subrange(0, digits@.len() as int) =~= digits@);
        }
        message.append(number.as_str());
        let level = if k == 0 {
            Level::Info
        } else if k <= 5 {
            Level::Warn
        } else {
            Level::Error
        };
        lines.push(Line { level, message });
        k += 1;
    }
    proof {
        assert(line_views(lines@) =~= report_lines(problems@));
    }
    lines
}

} // verus!
