//! Reverse runtime dependencies: who needs a package, and how.

use vstd::prelude::*;
use vstd::string::*;
use crate::identifier::{Fmri, FmriView, fmri_text};

verus! {

/// One reverse runtime dependency. The identifier is the package that
/// declares the dependency; the entry is kept by the package it names.
///
/// `Require(vim)` kept by `library/libc` says that `vim` requires
/// `library/libc`.
#[derive(Debug, PartialEq, Eq, Hash)]
pub enum RevDependType {
    Require(Fmri),
    Optional(Fmri),
    Incorporate(Fmri),
    RequireAny(Fmri),
    ConditionalFmri(Fmri),
    ConditionalPredicate(Fmri),
    Group(Fmri),
}

/// The mathematical content of a reverse dependency.
pub enum RevDependTypeView {
    Require(FmriView),
    Optional(FmriView),
    Incorporate(FmriView),
    RequireAny(FmriView),
    ConditionalFmri(FmriView),
    ConditionalPredicate(FmriView),
    Group(FmriView),
}

/// The package that declares the dependency.
pub open spec fn requester(r: RevDependTypeView) -> FmriView {
    match r {
        RevDependTypeView::Require(f) => f,
        RevDependTypeView::Optional(f) => f,
        RevDependTypeView::Incorporate(f) => f,
        RevDependTypeView::RequireAny(f) => f,
        RevDependTypeView::ConditionalFmri(f) => f,
        RevDependTypeView::ConditionalPredicate(f) => f,
        RevDependTypeView::Group(f) => f,
    }
}

impl View for RevDependType {
    type V = RevDependTypeView;

    open spec fn view(&self) -> RevDependTypeView {
        match *self {
            RevDependType::Require(f) => RevDependTypeView::Require(f@),
            RevDependType::Optional(f) => RevDependTypeView::Optional(f@),
            RevDependType::Incorporate(f) => RevDependTypeView::Incorporate(f@),
            RevDependType::RequireAny(f) => RevDependTypeView::RequireAny(f@),
            RevDependType::ConditionalFmri(f) => RevDependTypeView::ConditionalFmri(f@),
            RevDependType::ConditionalPredicate(f) => RevDependTypeView::ConditionalPredicate(f@),
            RevDependType::Group(f) => RevDependTypeView::Group(f@),
        }
    }
}

impl Clone for RevDependType {
    fn clone(&self) -> (r: Self)
        ensures
            r@ == self@,
    {
        match self {
            RevDependType::Require(f) => RevDependType::Require(f.clone()),
            RevDependType::Optional(f) => RevDependType::Optional(f.clone()),
            RevDependType::Incorporate(f) => RevDependType::Incorporate(f.clone()),
            RevDependType::RequireAny(f) => RevDependType::RequireAny(f.clone()),
            RevDependType::ConditionalFmri(f) => RevDependType::ConditionalFmri(f.clone()),
            RevDependType::ConditionalPredicate(f) => RevDependType::ConditionalPredicate(f.clone()),
            RevDependType::Group(f) => RevDependType::Group(f.clone()),
        }
    }
}

/// The name of the kind of a reverse dependency.
pub open spec fn rev_depend_kind(r: RevDependTypeView) -> Seq<char> {
    match r {
        RevDependTypeView::Require(_) => "require"@,
        RevDependTypeView::Optional(_) => "optional"@,
        RevDependTypeView::Incorporate(_) => "incorporate"@,
        RevDependTypeView::RequireAny(_) => "require-any"@,
        RevDependTypeView::ConditionalFmri(_) => "conditional(fmri)"@,
        RevDependTypeView::ConditionalPredicate(_) => "conditional(predicate)"@,
        RevDependTypeView::Group(_) => "group"@,
    }
}

/// A reverse dependency as it is printed: `package=`, the requester, and
/// the kind.
pub open spec fn rev_depend_text(r: RevDependTypeView) -> Seq<char> {
    "package="@ + fmri_text(requester(r)) + " type="@ + rev_depend_kind(r)
}

impl RevDependType {
    /// The entry as text, such as `package=pkg:/vim type=require`.
    pub fn to_string(&self) -> (r: String)
        ensures
            r@ == rev_depend_text(self@),
    {
        let mut string = String::from_str("package=");
        let text = self.get_fmri().to_string();
        string.append(text.as_str());
        string.append(" type=");
        string.append(
            match self {
                RevDependType::Require(_) => "require",
                RevDependType::Optional(_) => "optional",
                RevDependType::Incorporate(_) => "incorporate",
                RevDependType::RequireAny(_) => "require-any",
                RevDependType::ConditionalFmri(_) => "conditional(fmri)",
                RevDependType::ConditionalPredicate(_) => "conditional(predicate)",
                RevDependType::Group(_) => "group",
            },
        );
        string
    }

    /// The package that declares the dependency.
    pub fn get_fmri(&self) -> (r: &Fmri)
        ensures
            r@ == requester(self@),
    {
        match self {
            RevDependType::Require(f) => f,
            RevDependType::Optional(f) => f,
            RevDependType::Incorporate(f) => f,
            RevDependType::RequireAny(f) => f,
            RevDependType::ConditionalFmri(f) => f,
            RevDependType::ConditionalPredicate(f) => f,
            RevDependType::Group(f) => f,
        }
    }

    /// Whether both entries are of the same kind and name the same requester.
    pub fn same(&self, other: &RevDependType) -> (r: bool)
        ensures
            r == (self@ == other@),
    {
        match (self, other) {
            (RevDependType::Require(a), RevDependType::Require(b)) => a.same(b),
            (RevDependType::Optional(a), RevDependType::Optional(b)) => a.same(b),
            (RevDependType::Incorporate(a), RevDependType::Incorporate(b)) => a.same(b),
            (RevDependType::RequireAny(a), RevDependType::RequireAny(b)) => a.same(b),
            (RevDependType::ConditionalFmri(a), RevDependType::ConditionalFmri(b)) => a.same(b),
            (RevDependType::ConditionalPredicate(a), RevDependType::ConditionalPredicate(b)) => a.same(b),
            (RevDependType::Group(a), RevDependType::Group(b)) => a.same(b),
            _ => false,
        }
    }
}

} // verus!
