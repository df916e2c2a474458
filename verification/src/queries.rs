//! What the graph says of one package: who depends on it, who owns it, and
//! which problems are about it.

use vstd::prelude::*;
use vstd::string::*;
use crate::identifier::{Fmri, FmriView, Order, fmri_text};
use crate::packages::components::{Components, GraphView, package_index, known_renamed,
    component_views, package_links_ok, handles_below, no_package_message};
use crate::packages::cycles::{compare_texts, text_order};
use crate::packages::de_serialization::names_at;
use crate::packages::package::PackageView;
use crate::packages::rev_depend_type::{RevDependType, RevDependTypeView, requester};
use crate::problems::{Problem, ProblemView, problem_views, related_among};
use crate::text::{texts, to_chars, from_chars, skip_all, skip_prefixes};

verus! {

/// A list of texts with one more, put behind the last text that is not
/// greater than it.
pub open spec fn text_inserted(s: Seq<Seq<char>>, x: Seq<char>) -> Seq<Seq<char>>
    decreases s.len(),
{
    if s.len() == 0 {
        seq![x]
    } else if text_order(s.last(), x, 0) == Order::Greater {
        text_inserted(s.drop_last(), x).push(s.last())
    } else {
        s.push(x)
    }
}

/// The first `n` texts of a list in order.
pub open spec fn text_ordered(s: Seq<Seq<char>>, n: int) -> Seq<Seq<char>>
    decreases n,
{
    if n <= 0 {
        Seq::empty()
    } else {
        text_inserted(text_ordered(s, n - 1), s[n - 1])
    }
}

/// The first `n` texts of a list without a text that is the same as the one
/// kept before it.
pub open spec fn text_deduplicated(s: Seq<Seq<char>>, n: int) -> Seq<Seq<char>>
    decreases n,
{
    if n <= 0 {
        Seq::empty()
    } else {
        let before = text_deduplicated(s, n - 1);
        if before.len() > 0 && s[n - 1] == before.last() {
            before
        } else {
            before.push(s[n - 1])
        }
    }
}

/// The texts of a list in order, each once.
pub open spec fn listing(s: Seq<Seq<char>>) -> Seq<Seq<char>> {
    let sorted = text_ordered(s, s.len() as int);
    text_deduplicated(sorted, sorted.len() as int)
}

/// Whether the first text comes after the second.
fn text_greater(a: &String, b: &String) -> (r: bool)
    ensures
        r == (text_order(a@, b@, 0) == Order::Greater),
{
    match compare_texts(a.as_str(), b.as_str()) {
        Order::Greater => true,
        _ => false,
    }
}

/// Puts a text into a list behind the last text that is not greater.
fn insert_text(out: &mut Vec<String>, x: String)
    ensures
        texts(final(out)@) == text_inserted(texts(old(out)@), x@),
{
    let ghost s = texts(out@);
    let mut j: usize = out.len();
    proof {
        assert(s.take(j as int) =~= s);
        assert(text_inserted(s, x@) =~= text_inserted(s.take(j as int), x@) + s.subrange(
            j as int,
            s.len() as int,
        ));
    }
    while j > 0 && text_greater(&out[j - 1], &x)
        invariant
            j <= out.len(),
            s == texts(out@),
            text_inserted(s, x@) == text_inserted(s.take(j as int), x@) + s.subrange(
                j as int,
                s.len() as int,
            ),
        decreases j,
    {
        proof {
            assert(s[j - 1] == out@[j - 1]@);
            assert(s.take(j as int).last() == s[j - 1]);
            assert(s.take(j as int).drop_last() =~= s.take(j - 1));
            assert(text_inserted(s.take(j - 1), x@).push(s[j - 1]) + s.subrange(
                j as int,
                s.len() as int,
            ) =~= text_inserted(s.take(j - 1), x@) + s.subrange(j - 1, s.len() as int));
        }
        j -= 1;
    }
    proof {
        if j > 0 {
            assert(s[j - 1] == out@[j - 1]@);
            assert(s.take(j as int).last() == s[j - 1]);
        } else {
            assert(s.take(0).len() == 0);
        }
        assert(text_inserted(s.take(j as int), x@) =~= s.take(j as int).push(x@));
        assert(s.take(j as int).push(x@) + s.subrange(j as int, s.len() as int) =~= s.insert(
            j as int,
            x@,
        ));
    }
    out.insert(j, x);
    proof {
        assert(texts(out@) =~= s.insert(j as int, x@));
    }
}

/// Puts texts in order and keeps each once.
pub fn sort_and_dedup(list: &Vec<String>) -> (r: Vec<String>)
    ensures
        texts(r@) == listing(texts(list@)),
{
    let mut sorted: Vec<String> = Vec::new();
    let mut i: usize = 0;
    proof {
        assert(texts(sorted@) =~= text_ordered(texts(list@), 0));
    }
    while i < list.len()
        invariant
            i <= list.len(),
            texts(sorted@) == text_ordered(texts(list@), i as int),
        decreases list.len() - i,
    {
        proof {
            assert(texts(list@)[i as int] == list@[i as int]@);
        }
        insert_text(&mut sorted, list[i].clone());
        i += 1;
    }
    let mut out: Vec<String> = Vec::new();
    let mut j: usize = 0;
    proof {
        assert(texts(out@) =~= text_deduplicated(texts(sorted@), 0));
    }
    while j < sorted.len()
        invariant
            j <= sorted.len(),
            texts(out@) == text_deduplicated(texts(sorted@), j as int),
        decreases sorted.len() - j,
    {
        proof {
            assert(texts(sorted@)[j as int] == sorted@[j as int]@);
            if out.len() > 0 {
                assert(texts(out@).last() == out@[out.len() - 1]@);
            }
        }
        let repeated = out.len() > 0 && sorted[j] == out[out.len() - 1];
        if !repeated {
            let ghost before = out@;
            out.push(sorted[j].clone());
            proof {
                assert(texts(out@) =~= texts(before).push(sorted@[j as int]@));
            }
        }
        j += 1;
    }
    out
}

/// The kinds of reverse runtime dependency, in the order in which they are
/// listed.
#[derive(Clone, Copy, Debug, PartialEq, Eq, Structural)]
pub enum Kind {
    Require,
    Optional,
    Incorporate,
    RequireAny,
    ConditionalFmri,
    ConditionalPredicate,
    Group,
}

/// The kind of a reverse dependency.
pub open spec fn kind_of(r: RevDependTypeView) -> Kind {
    match r {
        RevDependTypeView::Require(_) => Kind::Require,
        RevDependTypeView::Optional(_) => Kind::Optional,
        RevDependTypeView::Incorporate(_) => Kind::Incorporate,
        RevDependTypeView::RequireAny(_) => Kind::RequireAny,
        RevDependTypeView::ConditionalFmri(_) => Kind::ConditionalFmri,
        RevDependTypeView::ConditionalPredicate(_) => Kind::ConditionalPredicate,
        RevDependTypeView::Group(_) => Kind::Group,
    }
}

/// A requester as it is listed: the printed identifier, marked where the
/// package is renamed, without the publisher of the distribution at its
/// start.
pub open spec fn shown(f: FmriView, renamed: bool) -> Seq<char> {
    let text = if renamed {
        fmri_text(f) + " (renamed)"@
    } else {
        fmri_text(f)
    };
    text.subrange(skip_all(text, 0, "pkg://openindiana.org/"@), text.len() as int)
}

/// The requesters of one kind among the first `n` reverse dependencies, as
/// they are listed. With `hide_renamed`, renamed requesters are left out.
pub open spec fn requesters(
    g: GraphView,
    deps: Seq<RevDependTypeView>,
    kind: Kind,
    hide_renamed: bool,
    n: int,
) -> Seq<Seq<char>>
    decreases n,
{
    if n <= 0 {
        Seq::empty()
    } else {
        let before = requesters(g, deps, kind, hide_renamed, n - 1);
        let by = requester(deps[n - 1]);
        let renamed = known_renamed(g, by.name);
        if kind_of(deps[n - 1]) != kind || (hide_renamed && renamed) {
            before
        } else {
            before.push(shown(by, renamed))
        }
    }
}

/// What the graph says of one package.
#[derive(Debug, PartialEq, Eq)]
pub struct FmriReport {
    pub obsolete: bool,
    pub renamed: bool,
    /// Who needs the package at runtime, kind by kind.
    pub require: Vec<String>,
    pub optional: Vec<String>,
    pub incorporate: Vec<String>,
    pub require_any: Vec<String>,
    pub conditional_fmri: Vec<String>,
    pub conditional_predicate: Vec<String>,
    pub group: Vec<String>,
    /// The components that need the package, context by context.
    pub build: Vec<String>,
    pub system_build: Vec<String>,
    pub test: Vec<String>,
    pub system_test: Vec<String>,
    /// The component that owns the package.
    pub component: Option<String>,
    /// The problems that are about the package.
    pub problems: Vec<Problem>,
}

/// The mathematical content of a report on a package.
pub struct FmriReportView {
    pub obsolete: bool,
    pub renamed: bool,
    pub require: Seq<Seq<char>>,
    pub optional: Seq<Seq<char>>,
    pub incorporate: Seq<Seq<char>>,
    pub require_any: Seq<Seq<char>>,
    pub conditional_fmri: Seq<Seq<char>>,
    pub conditional_predicate: Seq<Seq<char>>,
    pub group: Seq<Seq<char>>,
    pub build: Seq<Seq<char>>,
    pub system_build: Seq<Seq<char>>,
    pub test: Seq<Seq<char>>,
    pub system_test: Seq<Seq<char>>,
    pub component: Option<Seq<char>>,
    pub problems: Seq<ProblemView>,
}

impl View for FmriReport {
    type V = FmriReportView;

    open spec fn view(&self) -> FmriReportView {
        FmriReportView {
            obsolete: self.obsolete,
            renamed: self.renamed,
            require: texts(self.require@),
            optional: texts(self.optional@),
            incorporate: texts(self.incorporate@),
            require_any: texts(self.require_any@),
            conditional_fmri: texts(self.conditional_fmri@),
            conditional_predicate: texts(self.conditional_predicate@),
            group: texts(self.group@),
            build: texts(self.build@),
            system_build: texts(self.system_build@),
            test: texts(self.test@),
            system_test: texts(self.system_test@),
            component: match self.component {
                Some(name) => Some(name@),
                None => None,
            },
            problems: problem_views(self.problems@),
        }
    }
}

/// The requesters of one kind, in order, each once.
pub open spec fn requester_listing(g: GraphView, p: PackageView, kind: Kind, hide_renamed: bool) -> Seq<Seq<char>> {
    listing(requesters(g, p.runtime_dependents, kind, hide_renamed, p.runtime_dependents.len() as int))
}

/// What the graph says of the package at handle `i`: its flags, who needs it
/// at runtime and which components need it, each list in order and without
/// repetition, the component that owns it, and the problems about it.
pub open spec fn fmri_report(g: GraphView, i: int, hide_renamed: bool) -> FmriReportView {
    let p = g.packages[i];
    FmriReportView {
        obsolete: p.obsolete,
        renamed: p.renamed,
        require: requester_listing(g, p, Kind::Require, hide_renamed),
        optional: requester_listing(g, p, Kind::Optional, hide_renamed),
        incorporate: requester_listing(g, p, Kind::Incorporate, hide_renamed),
        require_any: requester_listing(g, p, Kind::RequireAny, hide_renamed),
        conditional_fmri: requester_listing(g, p, Kind::ConditionalFmri, hide_renamed),
        conditional_predicate: requester_listing(g, p, Kind::ConditionalPredicate, hide_renamed),
        group: requester_listing(g, p, Kind::Group, hide_renamed),
        build: listing(names_at(g, p.build_dependents)),
        system_build: listing(names_at(g, p.sys_build_dependents)),
        test: listing(names_at(g, p.test_dependents)),
        system_test: listing(names_at(g, p.sys_test_dependents)),
        component: match p.component {
            Some(c) => Some(g.components[c as int].name),
            None => None,
        },
        problems: related_among(g.problems, p.fmri.name, g.problems.len() as int),
    }
}

/// The kind of a reverse dependency.
fn kind(entry: &RevDependType) -> (r: Kind)
    ensures
        r == kind_of(entry@),
{
    match entry {
        RevDependType::Require(_) => Kind::Require,
        RevDependType::Optional(_) => Kind::Optional,
        RevDependType::Incorporate(_) => Kind::Incorporate,
        RevDependType::RequireAny(_) => Kind::RequireAny,
        RevDependType::ConditionalFmri(_) => Kind::ConditionalFmri,
        RevDependType::ConditionalPredicate(_) => Kind::ConditionalPredicate,
        RevDependType::Group(_) => Kind::Group,
    }
}

/// A requester as it is listed.
fn show(f: &Fmri, renamed: bool) -> (r: String)
    ensures
        r@ == shown(f@, renamed),
{
    let mut text = f.to_string();
    if renamed {
        text.append(" (renamed)");
    }
    let chars = to_chars(text.as_str());
    let prefix = to_chars("pkg://openindiana.org/");
    let from = skip_prefixes(&chars, 0, &prefix);
    from_chars(&chars, from, chars.len())
}

impl Components {
    /// The requesters of one kind, in order, each once.
    fn requesters_of(&self, i: usize, kind_wanted: Kind, hide_renamed: bool) -> (r: Vec<String>)
        requires
            self.wf(),
            i < self@.packages.len(),
        ensures
            texts(r@) == requester_listing(self@, self@.packages[i as int], kind_wanted, hide_renamed),
    {
        let packages = self.get_packages();
        let package = &packages[i];
        proof {
            assert(self@.packages[i as int] == package@);
        }
        let ghost deps = package@.runtime_dependents;
        let mut list: Vec<String> = Vec::new();
        let mut j: usize = 0;
        proof {
            assert(texts(list@) =~= requesters(self@, deps, kind_wanted, hide_renamed, 0));
        }
        while j < package.runtime_dependents.len()
            invariant
                j <= package.runtime_dependents.len(),
                self.wf(),
                deps == package@.runtime_dependents,
                texts(list@) == requesters(self@, deps, kind_wanted, hide_renamed, j as int),
            decreases package.runtime_dependents.len() - j,
        {
            let entry = &package.runtime_dependents[j];
            proof {
                assert(deps[j as int] == entry@);
            }
            if kind(entry) == kind_wanted {
                let by = entry.get_fmri();
                let renamed = self.is_renamed(by);
                if !(hide_renamed && renamed) {
                    let ghost before = list@;
                    let text = show(by, renamed);
                    list.push(text);
                    proof {
                        assert(texts(list@) =~= texts(before).push(shown(by@, renamed)));
                    }
                }
            }
            j += 1;
        }
        sort_and_dedup(&list)
    }

    /// The names of the components at a list of handles, in order, each
    /// once.
    fn component_listing(&self, handles: &Vec<usize>) -> (r: Vec<String>)
        requires
            handles_below(handles@, self@.components.len() as int),
        ensures
            texts(r@) == listing(names_at(self@, handles@)),
    {
        let components = self.get_components();
        let mut list: Vec<String> = Vec::new();
        let mut j: usize = 0;
        while j < handles.len()
            invariant
                j <= handles.len(),
                list.len() == j,
                self@.components == component_views(components@),
                handles_below(handles@, self@.components.len() as int),
                forall|k: int|
                    0 <= k < j ==> (#[trigger] list@[k])@ == self@.components[handles@[k] as int].name,
            decreases handles.len() - j,
        {
            let c = handles[j];
            proof {
                assert(handles@[j as int] < self@.components.len());
                assert(self@.components[c as int] == components@[c as int]@);
            }
            list.push(components[c].name.clone());
            j += 1;
        }
        proof {
            assert(texts(list@) =~= names_at(self@, handles@));
        }
        sort_and_dedup(&list)
    }

    /// What the graph says of the package that an identifier names: whether
    /// it is obsolete or renamed, who needs it at runtime, kind by kind,
    /// which components need it, context by context, which component owns
    /// it, and which problems are about it. With `hide_renamed`, renamed
    /// packages are left out of the runtime lists. An identifier of a
    /// package that the graph does not know is an error.
    pub fn check_fmri(&self, fmri: &Fmri, hide_renamed: bool) -> (r: Result<FmriReport, String>)
        requires
            self.wf(),
        ensures
            match r {
                Ok(report) => package_index(self@, fmri@.name) matches Some(i) && report@
                    == fmri_report(self@, i, hide_renamed),
                Err(e) => package_index(self@, fmri@.name) is None && e@ == no_package_message(
                    fmri@,
                ),
            },
    {
        let i = match self.get_package_by_fmri(fmri) {
            Ok(i) => i,
            Err(e) => {
                return Err(e);
            },
        };
        proof {
            self.lemma_wf();
        }
        let packages = self.get_packages();
        let components = self.get_components();
        let package = &packages[i];
        proof {
            assert(self@.packages[i as int] == package@);
            assert(package_links_ok(self@.packages[i as int], self@.components.len() as int));
        }
        let component = match package.component {
            Some(c) => {
                proof {
                    assert(self@.components[c as int] == components@[c as int]@);
                }
                Some(components[c].name.clone())
            },
            None => None,
        };
        let problems = self.get_problems().get_problems_related_to_fmri(fmri);
        Ok(
            FmriReport {
                obsolete: package.is_obsolete(),
                renamed: package.is_renamed(),
                require: self.requesters_of(i, Kind::Require, hide_renamed),
                optional: self.requesters_of(i, Kind::Optional, hide_renamed),
                incorporate: self.requesters_of(i, Kind::Incorporate, hide_renamed),
                require_any: self.requesters_of(i, Kind::RequireAny, hide_renamed),
                conditional_fmri: self.requesters_of(i, Kind::ConditionalFmri, hide_renamed),
                conditional_predicate: self.requesters_of(
                    i,
                    Kind::ConditionalPredicate,
                    hide_renamed,
                ),
                group: self.requesters_of(i, Kind::Group, hide_renamed),
                build: self.component_listing(&package.build_dependents),
                system_build: self.component_listing(&package.sys_build_dependents),
                test: self.component_listing(&package.test_dependents),
                system_test: self.component_listing(&package.sys_test_dependents),
                component,
                problems,
            },
        )
    }
}

} // verus!
