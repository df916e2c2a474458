//! The actions of a catalog entry: `depend` actions declare runtime
//! dependencies, `set` actions mark a release obsolete or renamed.

use vstd::prelude::*;
use vstd::string::*;
use crate::identifier::{Fmri, FmriView, Version, parse_result, version_of_text, trimmed,
    publisher_name};
use crate::packages::components::{Components, with_package};
use crate::packages::package::{Package, PackageView, PackageVersion, PackageVersionView,
    empty_package, holds_version, with_version, depend_views, exclusive,
    lemma_with_version_exclusive};
use crate::text::texts;
use crate::packages::depend_types::{DependTypes, DependTypesView, fmri_views};
use crate::text::{to_chars, from_chars, occurs_at, skip_all, find_from, matches_at, skip_prefixes,
    position_from, scan, lemma_scan, scan_from};

verus! {

/// One attribute of an action.
#[derive(Debug, PartialEq, Eq)]
pub enum Attribute {
    Fmri(Fmri),
    DType(String),
    Name(String),
    Value(String),
    Predicate(Fmri),
    Other,
}

/// The mathematical content of an attribute.
pub enum AttributeView {
    Fmri(FmriView),
    DType(Seq<char>),
    Name(Seq<char>),
    Value(Seq<char>),
    Predicate(FmriView),
    Other,
}

impl View for Attribute {
    type V = AttributeView;

    open spec fn view(&self) -> AttributeView {
        match *self {
            Attribute::Fmri(f) => AttributeView::Fmri(f@),
            Attribute::DType(t) => AttributeView::DType(t@),
            Attribute::Name(t) => AttributeView::Name(t@),
            Attribute::Value(t) => AttributeView::Value(t@),
            Attribute::Predicate(f) => AttributeView::Predicate(f@),
            Attribute::Other => AttributeView::Other,
        }
    }
}

/// The attributes of a list, as mathematical values.
pub open spec fn attribute_views(s: Seq<Attribute>) -> Seq<AttributeView> {
    s.map_values(|a: Attribute| a@)
}

/// The attribute that a word `key=value` stands for; `None` where the word
/// holds no `=`, or names an identifier that does not parse.
pub open spec fn attribute_of(word: Seq<char>) -> Option<AttributeView> {
    let eq = find_from(word, 0, '=');
    if eq >= word.len() {
        None
    } else {
        let key = word.subrange(0, eq);
        let value = word.subrange(eq + 1, word.len() as int);
        if key == "fmri"@ {
            match parse_result(value) {
                Some(f) => Some(AttributeView::Fmri(f)),
                None => None,
            }
        } else if key == "type"@ {
            Some(AttributeView::DType(value))
        } else if key == "name"@ {
            Some(AttributeView::Name(value))
        } else if key == "value"@ {
            Some(AttributeView::Value(value))
        } else if key == "predicate"@ {
            match parse_result(value) {
                Some(f) => Some(AttributeView::Predicate(f)),
                None => None,
            }
        } else {
            Some(AttributeView::Other)
        }
    }
}

/// The attributes of the words of `s` from index `i` on, behind those
/// already read; `None` where a word is no attribute. Words are separated by
/// whitespace.
pub open spec fn attributes_from(s: Seq<char>, i: int, read: Seq<AttributeView>) -> Option<Seq<AttributeView>>
    decreases s.len() - i,
{
    if i < 0 || i > s.len() {
        Some(read)
    } else {
        let start = scan(s, i, false);
        if start >= s.len() {
            Some(read)
        } else {
            let end = scan(s, start + 1, true);
            proof {
                lemma_scan(s, i, false);
                lemma_scan(s, start + 1, true);
            }
            match attribute_of(s.subrange(start, end)) {
                None => None,
                Some(a) => attributes_from(s, end, read.push(a)),
            }
        }
    }
}

/// The first name attribute at or after index `i`.
pub open spec fn first_name(a: Seq<AttributeView>, i: int) -> Option<Seq<char>>
    decreases a.len() - i,
{
    if i < 0 || i >= a.len() {
        None
    } else {
        match a[i] {
            AttributeView::Name(t) => Some(t),
            _ => first_name(a, i + 1),
        }
    }
}

/// The first value attribute at or after index `i`.
pub open spec fn first_value(a: Seq<AttributeView>, i: int) -> Option<Seq<char>>
    decreases a.len() - i,
{
    if i < 0 || i >= a.len() {
        None
    } else {
        match a[i] {
            AttributeView::Value(t) => Some(t),
            _ => first_value(a, i + 1),
        }
    }
}

/// The first type attribute at or after index `i`.
pub open spec fn first_type(a: Seq<AttributeView>, i: int) -> Option<Seq<char>>
    decreases a.len() - i,
{
    if i < 0 || i >= a.len() {
        None
    } else {
        match a[i] {
            AttributeView::DType(t) => Some(t),
            _ => first_type(a, i + 1),
        }
    }
}

/// The first identifier attribute at or after index `i`.
pub open spec fn first_fmri(a: Seq<AttributeView>, i: int) -> Option<FmriView>
    decreases a.len() - i,
{
    if i < 0 || i >= a.len() {
        None
    } else {
        match a[i] {
            AttributeView::Fmri(f) => Some(f),
            _ => first_fmri(a, i + 1),
        }
    }
}

/// The first predicate attribute at or after index `i`.
pub open spec fn first_predicate(a: Seq<AttributeView>, i: int) -> Option<FmriView>
    decreases a.len() - i,
{
    if i < 0 || i >= a.len() {
        None
    } else {
        match a[i] {
            AttributeView::Predicate(f) => Some(f),
            _ => first_predicate(a, i + 1),
        }
    }
}

/// The identifier attributes among the first `n` attributes, in order.
pub open spec fn all_fmris(a: Seq<AttributeView>, n: int) -> Seq<FmriView>
    decreases n,
{
    if n <= 0 {
        Seq::empty()
    } else {
        match a[n - 1] {
            AttributeView::Fmri(f) => all_fmris(a, n - 1).push(f),
            _ => all_fmris(a, n - 1),
        }
    }
}

/// What a `set` action says of a release.
#[derive(Clone, Copy, Debug, PartialEq, Eq, Structural)]
pub enum Name {
    Obsolete,
    Renamed,
    Other,
}

/// What an action says of a release.
#[derive(Debug, PartialEq, Eq)]
pub enum ParsedAction {
    Dependency(DependTypes),
    Obsolete,
    Renamed,
    Other,
}

/// The mathematical content of a parsed action.
pub enum ParsedActionView {
    Dependency(DependTypesView),
    Obsolete,
    Renamed,
    Other,
}

impl View for ParsedAction {
    type V = ParsedActionView;

    open spec fn view(&self) -> ParsedActionView {
        match *self {
            ParsedAction::Dependency(d) => ParsedActionView::Dependency(d@),
            ParsedAction::Obsolete => ParsedActionView::Obsolete,
            ParsedAction::Renamed => ParsedActionView::Renamed,
            ParsedAction::Other => ParsedActionView::Other,
        }
    }
}

/// What the attributes of a `set` action say: `pkg.obsolete` with the value
/// `true` marks the release obsolete, `pkg.renamed` with the value `true`
/// marks it renamed. The name must be there; the value only where the name
/// is one of the two.
pub open spec fn set_meaning(a: Seq<AttributeView>) -> Option<Name> {
    match first_name(a, 0) {
        None => None,
        Some(n) => if n == "pkg.obsolete"@ {
            match first_value(a, 0) {
                None => None,
                Some(v) => if v == "true"@ {
                    Some(Name::Obsolete)
                } else {
                    Some(Name::Other)
                },
            }
        } else if n == "pkg.renamed"@ {
            match first_value(a, 0) {
                None => None,
                Some(v) => if v == "true"@ {
                    Some(Name::Renamed)
                } else {
                    Some(Name::Other)
                },
            }
        } else {
            Some(Name::Other)
        },
    }
}

/// What a `set` action says; `None` where the text is no `set` action or its
/// attributes do not parse.
pub open spec fn set_action(s: Seq<char>) -> Option<Name> {
    if !occurs_at(s, "set"@, 0) {
        None
    } else {
        match attributes_from(s, skip_all(s, 0, "set"@), Seq::empty()) {
            None => None,
            Some(a) => set_meaning(a),
        }
    }
}

/// The dependency that the attributes of a `depend` action declare.
pub open spec fn depend_meaning(a: Seq<AttributeView>) -> Option<DependTypesView> {
    match first_type(a, 0) {
        None => None,
        Some(t) => if t == "require"@ {
            match first_fmri(a, 0) {
                Some(f) => Some(DependTypesView::Require(f)),
                None => None,
            }
        } else if t == "optional"@ {
            match first_fmri(a, 0) {
                Some(f) => Some(DependTypesView::Optional(f)),
                None => None,
            }
        } else if t == "incorporate"@ {
            match first_fmri(a, 0) {
                Some(f) => Some(DependTypesView::Incorporate(f)),
                None => None,
            }
        } else if t == "require-any"@ {
            if all_fmris(a, a.len() as int).len() == 0 {
                None
            } else {
                Some(DependTypesView::RequireAny(all_fmris(a, a.len() as int)))
            }
        } else if t == "conditional"@ {
            match (first_fmri(a, 0), first_predicate(a, 0)) {
                (Some(f), Some(p)) => Some(DependTypesView::Conditional(f, p)),
                _ => None,
            }
        } else if t == "group"@ {
            match first_fmri(a, 0) {
                Some(f) => Some(DependTypesView::Group(f)),
                None => None,
            }
        } else {
            None
        },
    }
}

/// The dependency that a `depend` action declares; `None` where the text is
/// no `depend` action, its attributes do not parse, or its type is unknown
/// or lacks what it needs.
pub open spec fn depend_action(s: Seq<char>) -> Option<DependTypesView> {
    if !occurs_at(s, "depend"@, 0) {
        None
    } else {
        match attributes_from(s, skip_all(s, 0, "depend"@), Seq::empty()) {
            None => None,
            Some(a) => depend_meaning(a),
        }
    }
}

/// What an action says of a release; `None` where it is neither a `depend`
/// nor a `set` action, or does not parse.
pub open spec fn action_meaning(s: Seq<char>) -> Option<ParsedActionView> {
    if occurs_at(s, "depend"@, 0) {
        match depend_action(s) {
            Some(d) => Some(ParsedActionView::Dependency(d)),
            None => None,
        }
    } else if occurs_at(s, "set"@, 0) {
        match set_action(s) {
            Some(Name::Obsolete) => Some(ParsedActionView::Obsolete),
            Some(Name::Renamed) => Some(ParsedActionView::Renamed),
            Some(Name::Other) => Some(ParsedActionView::Other),
            None => None,
        }
    } else {
        None
    }
}

/// Whether a text is the given word.
fn is_word(text: &String, word: &str) -> (r: bool)
    ensures
        r == (text@ == word@),
{
    let w = String::from_str(word);
    *text == w
}

/// The list of attributes of an action.
#[derive(Debug, PartialEq, Eq)]
pub struct Attributes(pub Vec<Attribute>);

impl View for Attributes {
    type V = Seq<AttributeView>;

    open spec fn view(&self) -> Seq<AttributeView> {
        attribute_views(self.0@)
    }
}

/// The attribute that a word stands for.
fn parse_attribute(v: &Vec<char>, start: usize, end: usize) -> (r: Result<Attribute, String>)
    requires
        start <= end <= v.len(),
    ensures
        match r {
            Ok(a) => attribute_of(v@.subrange(start as int, end as int)) == Some(a@),
            Err(_) => attribute_of(v@.subrange(start as int, end as int)) is None,
        },
{
    let ghost word = v@.subrange(start as int, end as int);
    let mut chars: Vec<char> = Vec::new();
    let mut i: usize = start;
    while i < end
        invariant
            start <= i <= end <= v.len(),
            chars@ == v@.subrange(start as int, i as int),
        decreases end - i,
    {
        chars.push(v[i]);
        proof {
            assert(chars@ =~= v@.subrange(start as int, i + 1));
        }
        i += 1;
    }
    let eq = position_from(&chars, 0, '=');
    if eq >= chars.len() {
        return Err(String::from_str("expected attribute, but it isn't! (attribute has \"=\")"));
    }
    let key = from_chars(&chars, 0, eq);
    let value = from_chars(&chars, eq + 1, chars.len());
    if is_word(&key, "fmri") {
        match Fmri::parse_raw(value.as_str()) {
            Ok(f) => Ok(Attribute::Fmri(f)),
            Err(e) => {
                let mut message = String::from_str("failed to parse fmri: ");
                message.append(e.as_str());
                Err(message)
            },
        }
    } else if is_word(&key, "type") {
        Ok(Attribute::DType(value))
    } else if is_word(&key, "name") {
        Ok(Attribute::Name(value))
    } else if is_word(&key, "value") {
        Ok(Attribute::Value(value))
    } else if is_word(&key, "predicate") {
        match Fmri::parse_raw(value.as_str()) {
            Ok(f) => Ok(Attribute::Predicate(f)),
            Err(e) => {
                let mut message = String::from_str("failed to parse fmri: ");
                message.append(e.as_str());
                Err(message)
            },
        }
    } else {
        Ok(Attribute::Other)
    }
}

impl Attributes {
    /// Reads the attributes of the words of `v` from index `from` on.
    fn parse_from(v: &Vec<char>, from: usize) -> (r: Result<Attributes, String>)
        requires
            from <= v.len(),
        ensures
            match r {
                Ok(a) => attributes_from(v@, from as int, Seq::empty()) == Some(a@),
                Err(_) => attributes_from(v@, from as int, Seq::empty()) is None,
            },
    {
        let mut attributes: Vec<Attribute> = Vec::new();
        let mut i: usize = from;
        proof {
            assert(attribute_views(attributes@) =~= Seq::<AttributeView>::empty());
        }
        loop
            invariant
                i <= v.len(),
                attributes_from(v@, from as int, Seq::empty()) == attributes_from(
                    v@,
                    i as int,
                    attribute_views(attributes@),
                ),
            decreases v.len() - i,
        {
            let start = scan_from(v, i, false);
            if start >= v.len() {
                return Ok(Attributes(attributes));
            }
            let end = scan_from(v, start + 1, true);
            match parse_attribute(v, start, end) {
                Err(e) => {
                    return Err(e);
                },
                Ok(a) => {
                    let ghost before = attributes@;
                    attributes.push(a);
                    proof {
                        assert(attribute_views(attributes@) =~= attribute_views(before).push(a@));
                    }
                },
            }
            i = end;
        }
    }

    /// Reads the attributes of an action: words `key=value`, separated by
    /// whitespace. A word without `=` and an identifier that does not parse
    /// are errors.
    pub fn parse_attributes(attributes_string: String) -> (r: Result<Attributes, String>)
        ensures
            match r {
                Ok(a) => attributes_from(attributes_string@, 0, Seq::empty()) == Some(a@),
                Err(_) => attributes_from(attributes_string@, 0, Seq::empty()) is None,
            },
    {
        let v = to_chars(attributes_string.as_str());
        Attributes::parse_from(&v, 0)
    }

    pub fn get_type_from_attributes(&self) -> (r: Option<&String>)
        ensures
            match r {
                Some(t) => first_type(self@, 0) == Some(t@),
                None => first_type(self@, 0) is None,
            },
    {
        let mut i: usize = 0;
        while i < self.0.len()
            invariant
                i <= self.0.len(),
                first_type(self@, 0) == first_type(self@, i as int),
            decreases self.0.len() - i,
        {
            proof {
                assert(self@[i as int] == self.0@[i as int]@);
            }
            match &self.0[i] {
                Attribute::DType(t) => {
                    return Some(t);
                },
                _ => {},
            }
            i += 1;
        }
        None
    }

    pub fn get_name_from_attributes(&self) -> (r: Option<&String>)
        ensures
            match r {
                Some(t) => first_name(self@, 0) == Some(t@),
                None => first_name(self@, 0) is None,
            },
    {
        let mut i: usize = 0;
        while i < self.0.len()
            invariant
                i <= self.0.len(),
                first_name(self@, 0) == first_name(self@, i as int),
            decreases self.0.len() - i,
        {
            proof {
                assert(self@[i as int] == self.0@[i as int]@);
            }
            match &self.0[i] {
                Attribute::Name(t) => {
                    return Some(t);
                },
                _ => {},
            }
            i += 1;
        }
        None
    }

    pub fn get_value_from_attributes(&self) -> (r: Option<&String>)
        ensures
            match r {
                Some(t) => first_value(self@, 0) == Some(t@),
                None => first_value(self@, 0) is None,
            },
    {
        let mut i: usize = 0;
        while i < self.0.len()
            invariant
                i <= self.0.len(),
                first_value(self@, 0) == first_value(self@, i as int),
            decreases self.0.len() - i,
        {
            proof {
                assert(self@[i as int] == self.0@[i as int]@);
            }
            match &self.0[i] {
                Attribute::Value(t) => {
                    return Some(t);
                },
                _ => {},
            }
            i += 1;
        }
        None
    }

    pub fn get_fmri_from_attributes(&self) -> (r: Option<Fmri>)
        ensures
            match r {
                Some(f) => first_fmri(self@, 0) == Some(f@),
                None => first_fmri(self@, 0) is None,
            },
    {
        let mut i: usize = 0;
        while i < self.0.len()
            invariant
                i <= self.0.len(),
                first_fmri(self@, 0) == first_fmri(self@, i as int),
            decreases self.0.len() - i,
        {
            proof {
                assert(self@[i as int] == self.0@[i as int]@);
            }
            match &self.0[i] {
                Attribute::Fmri(f) => {
                    return Some(f.clone());
                },
                _ => {},
            }
            i += 1;
        }
        None
    }

    pub fn get_predicate_from_attributes(&self) -> (r: Option<Fmri>)
        ensures
            match r {
                Some(f) => first_predicate(self@, 0) == Some(f@),
                None => first_predicate(self@, 0) is None,
            },
    {
        let mut i: usize = 0;
        while i < self.0.len()
            invariant
                i <= self.0.len(),
                first_predicate(self@, 0) == first_predicate(self@, i as int),
            decreases self.0.len() - i,
        {
            proof {
                assert(self@[i as int] == self.0@[i as int]@);
            }
            match &self.0[i] {
                Attribute::Predicate(f) => {
                    return Some(f.clone());
                },
                _ => {},
            }
            i += 1;
        }
        None
    }

    /// Every identifier attribute, in order.
    pub fn get_fmris_from_attributes(&self) -> (r: Vec<Fmri>)
        ensures
            fmri_views(r@) == all_fmris(self@, self@.len() as int),
    {
        let mut out: Vec<Fmri> = Vec::new();
        let mut i: usize = 0;
        proof {
            assert(fmri_views(out@) =~= all_fmris(self@, 0));
        }
        while i < self.0.len()
            invariant
                i <= self.0.len(),
                fmri_views(out@) == all_fmris(self@, i as int),
            decreases self.0.len() - i,
        {
            proof {
                assert(self@[i as int] == self.0@[i as int]@);
            }
            match &self.0[i] {
                Attribute::Fmri(f) => {
                    let ghost before = out@;
                    out.push(f.clone());
                    proof {
                        assert(fmri_views(out@) =~= fmri_views(before).push(f@));
                    }
                },
                _ => {},
            }
            i += 1;
        }
        out
    }

    /// What the attributes of a `set` action say of a release.
    pub fn set_meaning(&self) -> (r: Result<Name, String>)
        ensures
            match r {
                Ok(n) => set_meaning(self@) == Some(n),
                Err(_) => set_meaning(self@) is None,
            },
    {
        let name = match self.get_name_from_attributes() {
            Some(n) => n,
            None => {
                return Err(String::from_str("failed to get name attribute"));
            },
        };
        if is_word(name, "pkg.obsolete") {
            match self.get_value_from_attributes() {
                None => Err(String::from_str("failed to get value attribute")),
                Some(value) => if is_word(value, "true") {
                    Ok(Name::Obsolete)
                } else {
                    Ok(Name::Other)
                },
            }
        } else if is_word(name, "pkg.renamed") {
            match self.get_value_from_attributes() {
                None => Err(String::from_str("failed to get value attribute")),
                Some(value) => if is_word(value, "true") {
                    Ok(Name::Renamed)
                } else {
                    Ok(Name::Other)
                },
            }
        } else {
            Ok(Name::Other)
        }
    }

    /// The dependency that the attributes of a `depend` action declare.
    pub fn depend_meaning(&self) -> (r: Result<DependTypes, String>)
        ensures
            match r {
                Ok(d) => depend_meaning(self@) == Some(d@),
                Err(_) => depend_meaning(self@) is None,
            },
    {
        let d_type = match self.get_type_from_attributes() {
            Some(t) => t,
            None => {
                return Err(String::from_str("failed to get type attribute"));
            },
        };
        if is_word(d_type, "require") {
            match self.get_fmri_from_attributes() {
                Some(f) => Ok(DependTypes::Require(f)),
                None => Err(String::from_str("failed to get fmri attribute")),
            }
        } else if is_word(d_type, "optional") {
            match self.get_fmri_from_attributes() {
                Some(f) => Ok(DependTypes::Optional(f)),
                None => Err(String::from_str("failed to get fmri attribute")),
            }
        } else if is_word(d_type, "incorporate") {
            match self.get_fmri_from_attributes() {
                Some(f) => Ok(DependTypes::Incorporate(f)),
                None => Err(String::from_str("failed to get fmri attribute")),
            }
        } else if is_word(d_type, "require-any") {
            let list = self.get_fmris_from_attributes();
            if list.len() == 0 {
                proof {
                    assert(fmri_views(list@).len() == 0);
                }
                Err(String::from_str("cant find fmri attribute in require-any depend"))
            } else {
                proof {
                    assert(fmri_views(list@).len() > 0);
                }
                Ok(DependTypes::RequireAny(list))
            }
        } else if is_word(d_type, "conditional") {
            match self.get_fmri_from_attributes() {
                None => Err(String::from_str("failed to get fmri attribute")),
                Some(f) => match self.get_predicate_from_attributes() {
                    None => Err(String::from_str("failed to get predicate attribute")),
                    Some(p) => Ok(DependTypes::Conditional(f, p)),
                },
            }
        } else if is_word(d_type, "group") {
            match self.get_fmri_from_attributes() {
                Some(f) => Ok(DependTypes::Group(f)),
                None => Err(String::from_str("failed to get fmri attribute")),
            }
        } else {
            let mut message = String::from_str("unknown depend type: ");
            message.append(d_type.as_str());
            Err(message)
        }
    }
}

/// Parses a `set` action such as `set name=pkg.obsolete value=true`.
pub fn parse_set(set: String) -> (r: Result<Name, String>)
    ensures
        match r {
            Ok(n) => set_action(set@) == Some(n),
            Err(_) => set_action(set@) is None,
        },
{
    let v = to_chars(set.as_str());
    let word = to_chars("set");
    if !matches_at(&v, 0, &word) {
        return Err(String::from_str("trying to parse set action, but it is not set"));
    }
    let from = skip_prefixes(&v, 0, &word);
    let attributes = match Attributes::parse_from(&v, from) {
        Ok(a) => a,
        Err(e) => {
            let mut message = String::from_str("failed to parse attributes: ");
            message.append(e.as_str());
            return Err(message);
        },
    };
    attributes.set_meaning()
}

/// Parses a `depend` action such as
/// `depend fmri=pkg:/system/library@0.5.11-2017.0.0.16778 type=require`.
pub fn parse_depend(depend: String) -> (r: Result<DependTypes, String>)
    ensures
        match r {
            Ok(d) => depend_action(depend@) == Some(d@),
            Err(_) => depend_action(depend@) is None,
        },
{
    let v = to_chars(depend.as_str());
    let word = to_chars("depend");
    if !matches_at(&v, 0, &word) {
        return Err(String::from_str("trying to parse depend action, but it is not depend"));
    }
    let from = skip_prefixes(&v, 0, &word);
    let attributes = match Attributes::parse_from(&v, from) {
        Ok(a) => a,
        Err(e) => {
            let mut message = String::from_str("failed to parse attributes: ");
            message.append(e.as_str());
            return Err(message);
        },
    };
    attributes.depend_meaning()
}

/// Parses an action of a catalog entry: a `depend` action or a `set`
/// action. Any other action is an error.
pub fn parse_action(action: String) -> (r: Result<ParsedAction, String>)
    ensures
        match r {
            Ok(a) => action_meaning(action@) == Some(a@),
            Err(_) => action_meaning(action@) is None,
        },
{
    let v = to_chars(action.as_str());
    let depend = to_chars("depend");
    let set = to_chars("set");
    if matches_at(&v, 0, &depend) {
        return match parse_depend(action) {
            Ok(d) => Ok(ParsedAction::Dependency(d)),
            Err(e) => {
                let mut message = String::from_str("failed to parse depend action: ");
                message.append(e.as_str());
                Err(message)
            },
        };
    }
    if matches_at(&v, 0, &set) {
        return match parse_set(action) {
            Ok(Name::Obsolete) => Ok(ParsedAction::Obsolete),
            Ok(Name::Renamed) => Ok(ParsedAction::Renamed),
            Ok(Name::Other) => Ok(ParsedAction::Other),
            Err(e) => {
                let mut message = String::from_str("failed to parse set action: ");
                message.append(e.as_str());
                Err(message)
            },
        };
    }
    let mut message = String::from_str("other unknown action: ");
    message.append(action.as_str());
    Err(message)
}

/// One release of a package as a catalog lists it: the version, and the
/// actions of the release.
#[derive(Debug, PartialEq, Eq)]
pub struct CatalogVersion {
    pub version: String,
    pub actions: Vec<String>,
}

/// The mathematical content of a catalog release.
pub struct CatalogVersionView {
    pub version: Seq<char>,
    pub actions: Seq<Seq<char>>,
}

impl View for CatalogVersion {
    type V = CatalogVersionView;

    open spec fn view(&self) -> CatalogVersionView {
        CatalogVersionView { version: self.version@, actions: texts(self.actions@) }
    }
}

/// The releases of a list, as mathematical values.
pub open spec fn catalog_views(s: Seq<CatalogVersion>) -> Seq<CatalogVersionView> {
    s.map_values(|v: CatalogVersion| v@)
}

/// What the first `n` actions of a release say: the dependencies they
/// declare, in order, and whether one of them marks the release obsolete or
/// renamed. `None` where an action does not parse.
pub open spec fn release_content(actions: Seq<Seq<char>>, n: int) -> Option<(Seq<DependTypesView>, bool, bool)>
    decreases n,
{
    if n <= 0 {
        Some((Seq::empty(), false, false))
    } else {
        match release_content(actions, n - 1) {
            None => None,
            Some(before) => match action_meaning(actions[n - 1]) {
                None => None,
                Some(ParsedActionView::Dependency(d)) => Some((before.0.push(d), before.1, before.2)),
                Some(ParsedActionView::Obsolete) => Some((before.0, true, before.2)),
                Some(ParsedActionView::Renamed) => Some((before.0, before.1, true)),
                Some(ParsedActionView::Other) => Some(before),
            },
        }
    }
}

/// The release that a catalog entry describes; `None` where an action or the
/// version does not parse.
pub open spec fn catalog_release(entry: CatalogVersionView) -> Option<PackageVersionView> {
    match release_content(entry.actions, entry.actions.len() as int) {
        None => None,
        Some(content) => match version_of_text(entry.version) {
            None => None,
            Some(v) => Some(
                PackageVersionView {
                    version: v,
                    runtime: content.0,
                    obsolete: content.1,
                    renamed: content.2,
                },
            ),
        },
    }
}

/// The package after the first `n` releases of a catalog were handed in;
/// `None` where one of them does not parse, or is new to the package and
/// both obsolete and renamed.
pub open spec fn catalog_package(p: PackageView, entries: Seq<CatalogVersionView>, n: int) -> Option<PackageView>
    decreases n,
{
    if n <= 0 {
        Some(p)
    } else {
        match catalog_package(p, entries, n - 1) {
            None => None,
            Some(before) => match catalog_release(entries[n - 1]) {
                None => None,
                Some(r) => if !holds_version(before.versions, r) && r.obsolete && r.renamed {
                    None
                } else {
                    Some(with_version(before, r))
                },
            },
        }
    }
}

/// The package that a catalog describes under a publisher and a package
/// name, with its releases; `None` where something does not parse.
pub open spec fn catalog_entry(
    publisher: Seq<char>,
    package_name: Seq<char>,
    entries: Seq<CatalogVersionView>,
) -> Option<PackageView> {
    match parse_result(package_name) {
        None => None,
        Some(f) => if publisher.contains('@') {
            None
        } else {
            catalog_package(
                empty_package(FmriView { publisher: Some(trimmed(publisher, '/')), ..f }),
                entries,
                entries.len() as int,
            )
        },
    }
}

/// Reads the release that a catalog entry describes.
pub fn load_release(entry: &CatalogVersion) -> (r: Result<PackageVersion, String>)
    ensures
        match r {
            Ok(v) => catalog_release(entry@) == Some(v@),
            Err(_) => catalog_release(entry@) is None,
        },
{
    let mut runtime_dependencies: Vec<DependTypes> = Vec::new();
    let mut obsolete = false;
    let mut renamed = false;
    let mut i: usize = 0;
    proof {
        assert(depend_views(runtime_dependencies@) =~= Seq::<DependTypesView>::empty());
    }
    while i < entry.actions.len()
        invariant
            i <= entry.actions.len(),
            release_content(entry@.actions, i as int) == Some(
                (depend_views(runtime_dependencies@), obsolete, renamed),
            ),
        decreases entry.actions.len() - i,
    {
        proof {
            assert(entry@.actions[i as int] == entry.actions@[i as int]@);
        }
        match parse_action(entry.actions[i].clone()) {
            Err(e) => {
                proof {
                    lemma_release_fails(entry@.actions, i + 1, entry@.actions.len() as int);
                }
                let mut message = String::from_str("failed to parse action (");
                message.append(entry.actions[i].as_str());
                message.append("): ");
                message.append(e.as_str());
                return Err(message);
            },
            Ok(ParsedAction::Dependency(d_type)) => {
                let ghost before = runtime_dependencies@;
                runtime_dependencies.push(d_type);
                proof {
                    assert(depend_views(runtime_dependencies@) =~= depend_views(before).push(d_type@));
                }
            },
            Ok(ParsedAction::Obsolete) => {
                obsolete = true;
            },
            Ok(ParsedAction::Renamed) => {
                renamed = true;
            },
            Ok(ParsedAction::Other) => {},
        }
        i += 1;
    }
    let version = match Version::new(entry.version.clone()) {
        Ok(v) => v,
        Err(e) => {
            let mut message = String::from_str("failed to parse version: ");
            message.append(e.as_str());
            return Err(message);
        },
    };
    let mut package_version = PackageVersion::new(version);
    proof {
        assert(Seq::<DependTypesView>::empty() + depend_views(runtime_dependencies@)
            =~= depend_views(runtime_dependencies@));
    }
    package_version.add_runtime_dependencies(&mut runtime_dependencies);
    package_version.set_obsolete(obsolete);
    package_version.set_renamed(renamed);
    Ok(package_version)
}

/// Once an action failed to parse, the release fails.
pub proof fn lemma_release_fails(actions: Seq<Seq<char>>, n: int, m: int)
    requires
        n <= m,
        release_content(actions, n) is None,
    ensures
        release_content(actions, m) is None,
    decreases m - n,
{
    if n < m {
        lemma_release_fails(actions, n, m - 1);
    }
}

/// Once a release failed, the package fails.
pub proof fn lemma_package_fails(p: PackageView, entries: Seq<CatalogVersionView>, n: int, m: int)
    requires
        n <= m,
        catalog_package(p, entries, n) is None,
    ensures
        catalog_package(p, entries, m) is None,
    decreases m - n,
{
    if n < m {
        lemma_package_fails(p, entries, n, m - 1);
    }
}

/// Reads the package that a catalog describes under a publisher and a
/// package name, with its releases.
pub fn load_package(publisher: &str, package_name: &str, versions: &Vec<CatalogVersion>) -> (r: Result<Package, String>)
    ensures
        match r {
            Ok(p) => catalog_entry(publisher@, package_name@, catalog_views(versions@)) == Some(p@)
                && exclusive(p@),
            Err(_) => catalog_entry(publisher@, package_name@, catalog_views(versions@)) is None,
        },
{
    let mut fmri = match Fmri::parse_raw(package_name) {
        Ok(f) => f,
        Err(e) => {
            let mut message = String::from_str("failed to parse fmri from package name (");
            message.append(package_name);
            message.append("): ");
            message.append(e.as_str());
            return Err(message);
        },
    };
    let name = match publisher_name(publisher) {
        Ok(n) => n,
        Err(e) => {
            let mut message = String::from_str("failed to create publisher (");
            message.append(publisher);
            message.append("): ");
            message.append(e.as_str());
            return Err(message);
        },
    };
    fmri.change_publisher(name);
    let mut package = Package::new(fmri);
    let ghost start = package@;
    let ghost entries = catalog_views(versions@);
    let mut i: usize = 0;
    while i < versions.len()
        invariant
            i <= versions.len(),
            entries == catalog_views(versions@),
            catalog_entry(publisher@, package_name@, entries) == catalog_package(
                start,
                entries,
                entries.len() as int,
            ),
            catalog_package(start, entries, i as int) == Some(package@),
            exclusive(package@),
        decreases versions.len() - i,
    {
        proof {
            assert(entries[i as int] == versions@[i as int]@);
        }
        let release = match load_release(&versions[i]) {
            Ok(r) => r,
            Err(e) => {
                proof {
                    assert(catalog_package(start, entries, i + 1) is None);
                    lemma_package_fails(start, entries, i + 1, entries.len() as int);
                }
                return Err(e);
            },
        };
        proof {
            lemma_with_version_exclusive(package@, release@);
        }
        match package.add_package_version(release) {
            Ok(_) => {},
            Err(e) => {
                proof {
                    assert(catalog_package(start, entries, i + 1) is None);
                    lemma_package_fails(start, entries, i + 1, entries.len() as int);
                }
                let mut message = String::from_str("failed to add package version into package: ");
                message.append(e.as_str());
                return Err(message);
            },
        }
        i += 1;
    }
    Ok(package)
}

/// Loads a package of a catalog into the graph: the package is read, and
/// handed to the graph, which merges it with a package of the same name.
/// Where the package does not parse, the graph is left as it was.
pub fn load_catalog_package(
    components: &mut Components,
    publisher: &str,
    package_name: &str,
    versions: &Vec<CatalogVersion>,
) -> (r: Result<(), String>)
    requires
        old(components).wf(),
    ensures
        final(components).wf(),
        match r {
            Ok(_) => catalog_entry(publisher@, package_name@, catalog_views(versions@)) matches Some(p)
                && final(components)@ == with_package(old(components)@, p),
            Err(_) => catalog_entry(publisher@, package_name@, catalog_views(versions@)) is None
                && final(components)@ == old(components)@,
        },
{
    match load_package(publisher, package_name, versions) {
        Ok(package) => {
            components.add_package(package);
            Ok(())
        },
        Err(e) => Err(e),
    }
}

} // verus!
