//! The kinds of dependency that a package version can declare.

use vstd::prelude::*;
use vstd::string::*;
use crate::identifier::{Fmri, FmriView, fmri_text};

verus! {

/// The identifiers of a list, as mathematical values.
pub open spec fn fmri_views(s: Seq<Fmri>) -> Seq<FmriView> {
    s.map_values(|f: Fmri| f@)
}

/// A copy of a list of identifiers.
pub fn clone_fmris(v: &Vec<Fmri>) -> (r: Vec<Fmri>)
    ensures
        fmri_views(r@) == fmri_views(v@),
{
    let mut r: Vec<Fmri> = Vec::new();
    let mut i: usize = 0;
    while i < v.len()
        invariant
            i <= v.len(),
            r.len() == i,
            forall|j: int| 0 <= j < i ==> r@[j]@ == v@[j]@,
        decreases v.len() - i,
    {
        r.push(v[i].clone());
        i += 1;
    }
    assert(fmri_views(r@) =~= fmri_views(v@));
    r
}

/// Whether two lists hold the same identifiers in the same order.
pub fn same_fmris(a: &Vec<Fmri>, b: &Vec<Fmri>) -> (r: bool)
    ensures
        r == (fmri_views(a@) == fmri_views(b@)),
{
    if a.len() != b.len() {
        assert(fmri_views(a@).len() != fmri_views(b@).len());
        return false;
    }
    let mut i: usize = 0;
    while i < a.len()
        invariant
            i <= a.len(),
            a.len() == b.len(),
            forall|j: int| 0 <= j < i ==> a@[j]@ == b@[j]@,
        decreases a.len() - i,
    {
        if !a[i].same(&b[i]) {
            assert(fmri_views(a@)[i as int] == a@[i as int]@);
            assert(fmri_views(b@)[i as int] == b@[i as int]@);
            return false;
        }
        i += 1;
    }
    assert(fmri_views(a@) =~= fmri_views(b@));
    true
}

/// A declared dependency: its kind and the packages it names.
#[derive(Debug, PartialEq, Eq)]
pub enum DependTypes {
    Require(Fmri),
    Optional(Fmri),
    Incorporate(Fmri),
    RequireAny(Vec<Fmri>),
    Conditional(Fmri, Fmri),
    Group(Fmri),
}

/// The mathematical content of a declared dependency.
pub enum DependTypesView {
    Require(FmriView),
    Optional(FmriView),
    Incorporate(FmriView),
    RequireAny(Seq<FmriView>),
    Conditional(FmriView, FmriView),
    Group(FmriView),
}

impl View for DependTypes {
    type V = DependTypesView;

    open spec fn view(&self) -> DependTypesView {
        match *self {
            DependTypes::Require(f) => DependTypesView::Require(f@),
            DependTypes::Optional(f) => DependTypesView::Optional(f@),
            DependTypes::Incorporate(f) => DependTypesView::Incorporate(f@),
            DependTypes::RequireAny(l) => DependTypesView::RequireAny(fmri_views(l@)),
            DependTypes::Conditional(f, p) => DependTypesView::Conditional(f@, p@),
            DependTypes::Group(f) => DependTypesView::Group(f@),
        }
    }
}

impl Clone for DependTypes {
    fn clone(&self) -> (r: Self)
        ensures
            r@ == self@,
    {
        match self {
            DependTypes::Require(f) => DependTypes::Require(f.clone()),
            DependTypes::Optional(f) => DependTypes::Optional(f.clone()),
            DependTypes::Incorporate(f) => DependTypes::Incorporate(f.clone()),
            DependTypes::RequireAny(l) => DependTypes::RequireAny(clone_fmris(l)),
            DependTypes::Conditional(f, p) => DependTypes::Conditional(f.clone(), p.clone()),
            DependTypes::Group(f) => DependTypes::Group(f.clone()),
        }
    }
}

/// The first identifier of a dependency: the package it asks for. A
/// require-any dependency names a list instead.
pub open spec fn depend_content(d: DependTypesView) -> Result<FmriView, Seq<FmriView>> {
    match d {
        DependTypesView::Require(f) => Ok(f),
        DependTypesView::Optional(f) => Ok(f),
        DependTypesView::Incorporate(f) => Ok(f),
        DependTypesView::RequireAny(l) => Err(l),
        DependTypesView::Conditional(f, _) => Ok(f),
        DependTypesView::Group(f) => Ok(f),
    }
}

/// Whether a dependency names the package `name`, as the package asked for,
/// as one of a require-any list, or as the predicate of a conditional.
pub open spec fn depend_mentions(d: DependTypesView, name: Seq<char>) -> bool {
    match d {
        DependTypesView::Require(f) => f.name == name,
        DependTypesView::Optional(f) => f.name == name,
        DependTypesView::Incorporate(f) => f.name == name,
        DependTypesView::RequireAny(l) => exists|i: int| 0 <= i < l.len() && (#[trigger] l[i]).name == name,
        DependTypesView::Conditional(f, p) => f.name == name || p.name == name,
        DependTypesView::Group(f) => f.name == name,
    }
}

/// The package names of the first `n` identifiers of a list, separated by
/// `, `.
pub open spec fn joined_names(l: Seq<FmriView>, n: int) -> Seq<char>
    decreases n,
{
    if n <= 0 {
        Seq::empty()
    } else if n == 1 {
        l[0].name
    } else {
        joined_names(l, n - 1) + ", "@ + l[n - 1].name
    }
}

/// The name of a kind of dependency.
pub open spec fn depend_name(d: DependTypesView) -> Seq<char> {
    match d {
        DependTypesView::Require(_) => "require"@,
        DependTypesView::Optional(_) => "optional"@,
        DependTypesView::Incorporate(_) => "incorporate"@,
        DependTypesView::RequireAny(_) => "require-any"@,
        DependTypesView::Conditional(_, _) => "conditional"@,
        DependTypesView::Group(_) => "group"@,
    }
}

/// What a dependency names, as text: the package name, the names of a
/// require-any list, or both sides of a conditional dependency as printed
/// identifiers. A side that holds the placeholder `none` is left out.
pub open spec fn depend_content_text(d: DependTypesView) -> Seq<char> {
    match d {
        DependTypesView::Require(f) => f.name,
        DependTypesView::Optional(f) => f.name,
        DependTypesView::Incorporate(f) => f.name,
        DependTypesView::RequireAny(l) => joined_names(l, l.len() as int),
        DependTypesView::Conditional(f, p) => if f.name == "none"@ {
            "predicate="@ + fmri_text(p)
        } else if p.name == "none"@ {
            "fmri="@ + fmri_text(f)
        } else {
            "fmri="@ + fmri_text(f) + ", predicate="@ + fmri_text(p)
        },
        DependTypesView::Group(f) => f.name,
    }
}

/// The identifiers of the first `n` of a list, each printed as `fmri=` and
/// the identifier, followed by a blank.
pub open spec fn listed_fmris(l: Seq<FmriView>, n: int) -> Seq<char>
    decreases n,
{
    if n <= 0 {
        Seq::empty()
    } else {
        listed_fmris(l, n - 1) + "fmri="@ + fmri_text(l[n - 1]) + " "@
    }
}

/// A dependency as a depend action prints it.
pub open spec fn depend_text(d: DependTypesView) -> Seq<char> {
    match d {
        DependTypesView::Require(f) => "fmri="@ + fmri_text(f) + " type=require"@,
        DependTypesView::Optional(f) => "fmri="@ + fmri_text(f) + " type=optional"@,
        DependTypesView::Incorporate(f) => "fmri="@ + fmri_text(f) + " type=incorporate"@,
        DependTypesView::RequireAny(l) => listed_fmris(l, l.len() as int) + "type=require-any"@,
        DependTypesView::Conditional(f, p) => "fmri="@ + fmri_text(f) + " predicate="@ + fmri_text(p)
            + " type=conditional"@,
        DependTypesView::Group(f) => "fmri="@ + fmri_text(f) + " type=group"@,
    }
}

/// Whether a list holds an identifier of the package `name`.
pub fn list_contains(l: &Vec<Fmri>, fmri: &Fmri) -> (r: bool)
    ensures
        r == exists|i: int| 0 <= i < l.len() && (#[trigger] fmri_views(l@)[i]).name == fmri@.name,
{
    let mut i: usize = 0;
    while i < l.len()
        invariant
            i <= l.len(),
            forall|j: int| 0 <= j < i ==> (#[trigger] fmri_views(l@)[j]).name != fmri@.name,
        decreases l.len() - i,
    {
        if l[i].package_name_eq(fmri) {
            assert(fmri_views(l@)[i as int] == l@[i as int]@);
            return true;
        }
        proof {
            assert(fmri_views(l@)[i as int] == l@[i as int]@);
        }
        i += 1;
    }
    false
}

/// `fmri=`, the printed identifier, and what follows it.
fn one_fmri_text(fmri: &Fmri, rest: &str) -> (r: String)
    ensures
        r@ == "fmri="@ + fmri_text(fmri@) + rest@,
{
    let mut string = String::from_str("fmri=");
    let text = fmri.to_string();
    string.append(text.as_str());
    string.append(rest);
    string
}

impl DependTypes {
    /// Whether both dependencies are of the same kind and name the same
    /// identifiers.
    pub fn same(&self, other: &DependTypes) -> (r: bool)
        ensures
            r == (self@ == other@),
    {
        match (self, other) {
            (DependTypes::Require(a), DependTypes::Require(b)) => a.same(b),
            (DependTypes::Optional(a), DependTypes::Optional(b)) => a.same(b),
            (DependTypes::Incorporate(a), DependTypes::Incorporate(b)) => a.same(b),
            (DependTypes::RequireAny(a), DependTypes::RequireAny(b)) => same_fmris(a, b),
            (DependTypes::Conditional(a, p), DependTypes::Conditional(b, q)) => a.same(b) && p.same(q),
            (DependTypes::Group(a), DependTypes::Group(b)) => a.same(b),
            _ => false,
        }
    }

    /// The package that the dependency asks for, or the list of a require-any
    /// dependency.
    pub fn get_content_ref(&self) -> (r: Result<&Fmri, &Vec<Fmri>>)
        ensures
            match r {
                Ok(f) => depend_content(self@) == Ok::<FmriView, Seq<FmriView>>(f@),
                Err(l) => depend_content(self@) == Err::<FmriView, Seq<FmriView>>(fmri_views(l@)),
            },
    {
        match self {
            DependTypes::Require(fmri) => Ok(fmri),
            DependTypes::Optional(fmri) => Ok(fmri),
            DependTypes::Incorporate(fmri) => Ok(fmri),
            DependTypes::RequireAny(fmri_list) => Err(fmri_list),
            DependTypes::Conditional(fmri, _) => Ok(fmri),
            DependTypes::Group(fmri) => Ok(fmri),
        }
    }

    /// The name of the kind of dependency, and what it names. Of a
    /// conditional dependency, a side that holds the placeholder `none` is
    /// left out.
    pub fn get_name_and_content_as_string(self) -> (r: (String, String))
        ensures
            r.0@ == depend_name(self@),
            r.1@ == depend_content_text(self@),
    {
        match self {
            DependTypes::Require(fmri) => (
                String::from_str("require"),
                fmri.get_package_name_as_string(),
            ),
            DependTypes::Optional(fmri) => (
                String::from_str("optional"),
                fmri.get_package_name_as_string(),
            ),
            DependTypes::Incorporate(fmri) => (
                String::from_str("incorporate"),
                fmri.get_package_name_as_string(),
            ),
            DependTypes::RequireAny(fmri_list) => {
                let mut string = String::new();
                let len = fmri_list.len();
                let mut index: usize = 0;
                let ghost l = fmri_views(fmri_list@);
                while index < len
                    invariant
                        index <= len,
                        len == fmri_list.len(),
                        l == fmri_views(fmri_list@),
                        string@ == joined_names(l, index as int),
                    decreases len - index,
                {
                    proof {
                        assert(l[index as int] == fmri_list@[index as int]@);
                    }
                    if index > 0 {
                        string.append(", ");
                    }
                    string.append(fmri_list[index].get_package_name_as_ref_string().as_str());
                    proof {
                        if index == 0 {
                            assert(string@ =~= l[0].name);
                        }
                    }
                    index += 1;
                }
                (String::from_str("require-any"), string)
            },
            DependTypes::Conditional(fmri, predicate) => {
                let none = Fmri::none();
                if fmri.package_name_eq(&none) {
                    let mut content = String::from_str("predicate=");
                    let text = predicate.to_string();
                    content.append(text.as_str());
                    return (String::from_str("conditional"), content);
                }
                if predicate.package_name_eq(&none) {
                    let mut content = String::from_str("fmri=");
                    let text = fmri.to_string();
                    content.append(text.as_str());
                    return (String::from_str("conditional"), content);
                }
                let mut content = String::from_str("fmri=");
                let text = fmri.to_string();
                content.append(text.as_str());
                content.append(", predicate=");
                let text = predicate.to_string();
                content.append(text.as_str());
                (String::from_str("conditional"), content)
            },
            DependTypes::Group(fmri) => (String::from_str("group"), fmri.get_package_name_as_string()),
        }
    }

    /// The dependency as a depend action prints it, such as
    /// `fmri=pkg:/library/zlib type=require`.
    pub fn to_string(&self) -> (r: String)
        ensures
            r@ == depend_text(self@),
    {
        match self {
            DependTypes::Require(fmri) => one_fmri_text(fmri, " type=require"),
            DependTypes::Optional(fmri) => one_fmri_text(fmri, " type=optional"),
            DependTypes::Incorporate(fmri) => one_fmri_text(fmri, " type=incorporate"),
            DependTypes::RequireAny(fmri_list) => {
                let mut string = String::new();
                let mut index: usize = 0;
                let ghost l = fmri_views(fmri_list@);
                while index < fmri_list.len()
                    invariant
                        index <= fmri_list.len(),
                        l == fmri_views(fmri_list@),
                        string@ == listed_fmris(l, index as int),
                    decreases fmri_list.len() - index,
                {
                    proof {
                        assert(l[index as int] == fmri_list@[index as int]@);
                    }
                    string.append("fmri=");
                    let text = fmri_list[index].to_string();
                    string.append(text.as_str());
                    string.append(" ");
                    index += 1;
                }
                string.append("type=require-any");
                string
            },
            DependTypes::Conditional(fmri, predicate) => {
                let mut string = String::from_str("fmri=");
                let text = fmri.to_string();
                string.append(text.as_str());
                string.append(" predicate=");
                let text = predicate.to_string();
                string.append(text.as_str());
                string.append(" type=conditional");
                string
            },
            DependTypes::Group(fmri) => one_fmri_text(fmri, " type=group"),
        }
    }

    /// Whether the dependency names the package of `fmri`.
    pub fn mentions(&self, fmri: &Fmri) -> (r: bool)
        ensures
            r == depend_mentions(self@, fmri@.name),
    {
        match self {
            DependTypes::Require(f) => f.package_name_eq(fmri),
            DependTypes::Optional(f) => f.package_name_eq(fmri),
            DependTypes::Incorporate(f) => f.package_name_eq(fmri),
            DependTypes::RequireAny(l) => list_contains(l, fmri),
            DependTypes::Conditional(f, p) => f.package_name_eq(fmri) || p.package_name_eq(fmri),
            DependTypes::Group(f) => f.package_name_eq(fmri),
        }
    }
}

} // verus!
