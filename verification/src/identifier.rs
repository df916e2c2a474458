//! Package identifiers: an optional publisher, a package name and an optional
//! version. Versions are parsed, printed and ordered by the `fmri` crate; the
//! identifier itself holds plain text, so that contracts can speak of it.

use vstd::prelude::*;
use vstd::string::*;
use crate::text::{to_chars, occurs_at, skip_all, find_from, matches_at, skip_prefixes,
    position_from, occurs_from};

verus! {

/// What `fmri::Version::new` makes of a text, printed again: `None` where it
/// rejects the text.
pub uninterp spec fn version_canonical(text: Seq<char>) -> Option<Seq<char>>;

/// What `Ord::cmp` of `fmri::Version` returns for the versions parsed from two
/// texts: -1 for less, 0 for equal, 1 for greater.
pub uninterp spec fn version_order(a: Seq<char>, b: Seq<char>) -> i8;

/// What `fmri::FMRI::parse_raw` makes of a raw identifier: publisher, package
/// name and printed version; `None` where it returns an error.
pub uninterp spec fn fmri_parsed(raw: Seq<char>) -> Option<(Option<Seq<char>>, Seq<char>, Option<Seq<char>>)>;

/// The result of comparing two versions.
#[derive(Clone, Copy, Debug, PartialEq, Eq, Structural)]
pub enum Order {
    Less,
    Equal,
    Greater,
}

/// The result of a comparison from its sign.
pub open spec fn order_of(n: i8) -> Order {
    if n < 0 {
        Order::Less
    } else if n == 0 {
        Order::Equal
    } else {
        Order::Greater
    }
}

/// How the versions written as `a` and `b` compare.
pub open spec fn version_compare(a: Seq<char>, b: Seq<char>) -> Order {
    order_of(version_order(a, b))
}

/// A text is a version as this library holds it when `fmri` parses it and
/// prints it back unchanged.
pub open spec fn is_version_text(text: Seq<char>) -> bool {
    version_canonical(text) == Some(text)
}

/// The version text that `Version::new` keeps for `text`, if it accepts it.
pub open spec fn version_of_text(text: Seq<char>) -> Option<Seq<char>> {
    match version_canonical(text) {
        Some(t) => if is_version_text(t) {
            Some(t)
        } else {
            None
        },
        None => None,
    }
}

/// Calls `fmri::Version::new` on the text and prints the version it returns
/// with its `Display`. The result is `Ok` with that print exactly where the
/// parse succeeds; the error is the crate's own message.
#[verifier::external_body]
fn version_parse(text: &str) -> (r: Result<String, String>)
    ensures
        match r {
            Ok(t) => version_canonical(text@) == Some(t@),
            Err(_) => version_canonical(text@) is None,
        },
{
    match ::fmri::Version::new(text.to_owned()) {
        Ok(v) => Ok(v.to_string()),
        Err(e) => Err(e),
    }
}

/// Parses both texts with `fmri::Version::new` and compares the two versions
/// with `fmri::Version`'s `Ord::cmp`. Both texts must be ones that the crate
/// parses, so neither `unwrap` fails.
#[verifier::external_body]
fn version_texts_order(a: &str, b: &str) -> (r: i8)
    requires
        version_canonical(a@) is Some,
        version_canonical(b@) is Some,
    ensures
        r == version_order(a@, b@),
        -1 <= r <= 1,
{
    let x = ::fmri::Version::new(a.to_owned()).unwrap();
    let y = ::fmri::Version::new(b.to_owned()).unwrap();
    match x.cmp(&y) {
        std::cmp::Ordering::Less => -1,
        std::cmp::Ordering::Equal => 0,
        std::cmp::Ordering::Greater => 1,
    }
}

/// Where the package name of a raw identifier starts, once the leading
/// `fmri=` and the scheme with its publisher are passed; `None` where a
/// publisher is announced by `pkg://` but no `/` ends it.
pub open spec fn name_start(raw: Seq<char>) -> Option<int> {
    let k = skip_all(raw, 0, "fmri="@);
    if occurs_at(raw, "pkg://"@, k) {
        let slash = find_from(raw, skip_all(raw, k, "pkg://"@), '/');
        if slash < raw.len() {
            Some(slash + 1)
        } else {
            None
        }
    } else {
        Some(skip_all(raw, k, "pkg:/"@))
    }
}

/// The raw identifiers that `fmri::FMRI::parse_raw` takes without panicking:
/// `pkg://` stands at the front (after any `fmri=`) or nowhere, a publisher
/// is followed by `/`, and at least one character of package name stands
/// before the version.
pub open spec fn parse_safe(raw: Seq<char>) -> bool {
    let k = skip_all(raw, 0, "fmri="@);
    &&& (occurs_at(raw, "pkg://"@, k) || forall|i: int| k <= i ==> !occurs_at(raw, "pkg://"@, i))
    &&& match name_start(raw) {
        Some(s) => find_from(raw, s, '@') > s,
        None => false,
    }
}

/// Calls `fmri::FMRI::parse_raw` and hands out the three parts of the
/// identifier it returns: the publisher's name, the package name, and the
/// version as its `Display` prints it. `requires` leaves out the raw texts on
/// which the crate panics.
#[verifier::external_body]
fn fmri_parse(raw: &str) -> (r: Result<(Option<String>, String, Option<String>), String>)
    requires
        parse_safe(raw@),
    ensures
        match r {
            Ok(parts) => fmri_parsed(raw@) == Some((text_option(parts.0), parts.1@, text_option(parts.2))),
            Err(_) => fmri_parsed(raw@) is None,
        },
{
    match ::fmri::FMRI::parse_raw(raw) {
        Ok(f) => Ok((
            f.get_publisher_as_ref_string().cloned(),
            f.get_package_name_as_ref_string().clone(),
            f.get_version_as_string(),
        )),
        Err(e) => Err(e),
    }
}

/// The first index at or after `i` where a character other than `c`
/// stands, or the length.
pub open spec fn first_other(s: Seq<char>, c: char, i: int) -> int
    decreases s.len() - i,
{
    if i < 0 || i >= s.len() {
        s.len() as int
    } else if s[i] != c {
        i
    } else {
        first_other(s, c, i + 1)
    }
}

/// The index behind the last character before `i` that is not `c`, or 0.
pub open spec fn last_other(s: Seq<char>, c: char, i: int) -> int
    decreases i,
{
    if i <= 0 || i > s.len() {
        0
    } else if s[i - 1] != c {
        i
    } else {
        last_other(s, c, i - 1)
    }
}

/// The text without the characters `c` at its start and at its end.
pub open spec fn trimmed(s: Seq<char>, c: char) -> Seq<char> {
    let from = first_other(s, c, 0);
    let to = last_other(s, c, s.len() as int);
    if from < to {
        s.subrange(from, to)
    } else {
        Seq::empty()
    }
}

/// Calls `fmri::Publisher::new` and hands out the name that the publisher
/// holds. The crate refuses a name that holds `@`, and drops every `/` at
/// the start and at the end of any other.
#[verifier::external_body]
fn publisher_parse(name: &str) -> (r: Result<String, String>)
    ensures
        match r {
            Ok(p) => !name@.contains('@') && p@ == trimmed(name@, '/'),
            Err(_) => name@.contains('@'),
        },
{
    match ::fmri::Publisher::new(name.to_owned()) {
        Ok(p) => Ok(p.get_as_string()),
        Err(e) => Err(e),
    }
}

/// Calls `fmri::FMRI::new_from_package_name` and hands out the package name
/// that the identifier holds. The crate refuses a name that holds `@`, and
/// drops every `/` at the start and at the end of any other. `requires`
/// leaves out the empty name, on which the crate panics.
#[verifier::external_body]
fn package_name_parse(name: &str) -> (r: Result<String, String>)
    requires
        name@.len() > 0,
    ensures
        match r {
            Ok(p) => !name@.contains('@') && p@ == trimmed(name@, '/'),
            Err(_) => name@.contains('@'),
        },
{
    match ::fmri::FMRI::new_from_package_name(name.to_owned()) {
        Ok(f) => Ok(f.get_package_name_as_string()),
        Err(e) => Err(e),
    }
}

/// The name of a publisher as an identifier holds it: without `/` at its
/// start and end. A name that holds `@` is an error.
pub fn publisher_name(name: &str) -> (r: Result<String, String>)
    ensures
        match r {
            Ok(p) => !name@.contains('@') && p@ == trimmed(name@, '/'),
            Err(_) => name@.contains('@'),
        },
{
    publisher_parse(name)
}

/// The text of an optional string.
pub open spec fn text_option(o: Option<String>) -> Option<Seq<char>> {
    match o {
        Some(s) => Some(s@),
        None => None,
    }
}

/// A version: the text `fmri` prints for it, such as `@1.2,5.11-2022.0.0.1`.
#[derive(Debug, PartialEq, Eq, Hash)]
pub struct Version {
    text: String,
}

impl View for Version {
    type V = Seq<char>;

    closed spec fn view(&self) -> Seq<char> {
        self.text@
    }
}

impl Clone for Version {
    fn clone(&self) -> (r: Self)
        ensures
            r@ == self@,
    {
        proof {
            use_type_invariant(self);
        }
        Version { text: self.text.clone() }
    }
}

impl Version {
    #[verifier::type_invariant]
    spec fn well_formed(self) -> bool {
        is_version_text(self.text@)
    }

    /// Parses a version such as `2.1.1,5.11-2017.0.0.0:20171212T185746Z`, with
    /// or without the leading `@`.
    pub fn new(text: String) -> (r: Result<Version, String>)
        ensures
            match r {
                Ok(v) => version_of_text(text@) == Some(v@),
                Err(_) => version_of_text(text@) is None,
            },
    {
        match version_parse(text.as_str()) {
            Ok(t) => Version::from_printed(t),
            Err(e) => Err(e),
        }
    }

    /// Takes a text that is already in the printed form.
    fn from_printed(t: String) -> (r: Result<Version, String>)
        ensures
            match r {
                Ok(v) => is_version_text(t@) && v@ == t@,
                Err(_) => !is_version_text(t@),
            },
    {
        match version_parse(t.as_str()) {
            Ok(again) => {
                if again == t {
                    Ok(Version { text: t })
                } else {
                    Err(String::from_str("version does not print as it was parsed"))
                }
            },
            Err(e) => Err(e),
        }
    }

    /// The version as text, starting with `@`.
    pub fn to_string(&self) -> (r: String)
        ensures
            r@ == self@,
            is_version_text(self@),
    {
        proof {
            use_type_invariant(self);
        }
        self.text.clone()
    }

    /// Compares two versions: component, then build, then branch version;
    /// timestamps are ignored.
    pub fn compare(&self, other: &Version) -> (r: Order)
        ensures
            r == version_compare(self@, other@),
    {
        proof {
            use_type_invariant(self);
            use_type_invariant(other);
        }
        let n = version_texts_order(self.text.as_str(), other.text.as_str());
        if n < 0 {
            Order::Less
        } else if n == 0 {
            Order::Equal
        } else {
            Order::Greater
        }
    }

    /// Whether two versions are the same, timestamp included.
    pub fn same(&self, other: &Version) -> (r: bool)
        ensures
            r == (self@ == other@),
    {
        self.text == other.text
    }
}

/// The mathematical content of an identifier.
pub struct FmriView {
    pub publisher: Option<Seq<char>>,
    pub name: Seq<char>,
    pub version: Option<Seq<char>>,
}

/// The identifier as `fmri` prints it: `pkg://publisher/name@version`, or
/// `pkg:/name@version` without a publisher.
pub open spec fn fmri_text(f: FmriView) -> Seq<char> {
    let head = match f.publisher {
        Some(p) => "pkg://"@ + p + "/"@,
        None => "pkg:/"@,
    };
    let tail = match f.version {
        Some(v) => v,
        None => Seq::<char>::empty(),
    };
    head + f.name + tail
}

/// The identifier with neither version nor publisher: the key under which a
/// package is looked up and reported.
pub open spec fn stripped(f: FmriView) -> FmriView {
    FmriView { publisher: None, name: f.name, version: None }
}

/// The placeholder identifier that stands where a report has no requiring
/// package.
pub open spec fn none_fmri() -> FmriView {
    FmriView { publisher: None, name: "none"@, version: None }
}

/// The order of two identifiers: that of their versions where both have one,
/// equal otherwise.
pub open spec fn fmri_compare(a: FmriView, b: FmriView) -> Order {
    match (a.version, b.version) {
        (Some(x), Some(y)) => version_compare(x, y),
        _ => Order::Equal,
    }
}

/// The identifier of three parts: publisher, package name and printed
/// version. `None` where the version is not a text that prints as it
/// parses.
pub open spec fn of_parts(publisher: Option<Seq<char>>, name: Seq<char>, version: Option<Seq<char>>) -> Option<FmriView> {
    match version {
        None => Some(FmriView { publisher, name, version: None }),
        Some(t) => if is_version_text(t) {
            Some(FmriView { publisher, name, version: Some(t) })
        } else {
            None
        },
    }
}

/// What `Fmri::parse_raw` returns for a raw identifier.
pub open spec fn parse_result(raw: Seq<char>) -> Option<FmriView> {
    if !parse_safe(raw) {
        None
    } else {
        match fmri_parsed(raw) {
            None => None,
            Some(parts) => of_parts(parts.0, parts.1, parts.2),
        }
    }
}

/// The text of an optional version.
pub open spec fn version_option(o: Option<Version>) -> Option<Seq<char>> {
    match o {
        Some(v) => Some(v@),
        None => None,
    }
}

/// A package identifier.
#[derive(Debug, PartialEq, Eq, Hash)]
pub struct Fmri {
    publisher: Option<String>,
    package_name: String,
    version: Option<Version>,
}

impl View for Fmri {
    type V = FmriView;

    closed spec fn view(&self) -> FmriView {
        FmriView {
            publisher: text_option(self.publisher),
            name: self.package_name@,
            version: version_option(self.version),
        }
    }
}

impl Clone for Fmri {
    fn clone(&self) -> (r: Self)
        ensures
            r@ == self@,
    {
        Fmri {
            publisher: match &self.publisher {
                Some(p) => Some(p.clone()),
                None => None,
            },
            package_name: self.package_name.clone(),
            version: match &self.version {
                Some(v) => Some(v.clone()),
                None => None,
            },
        }
    }
}

/// Whether `parse_raw` of the `fmri` crate can take these characters.
fn raw_is_safe(v: &Vec<char>) -> (r: bool)
    ensures
        r == parse_safe(v@),
{
    let prefix = to_chars("fmri=");
    let with_publisher = to_chars("pkg://");
    let without_publisher = to_chars("pkg:/");
    let k = skip_prefixes(v, 0, &prefix);
    let start: usize;
    if matches_at(v, k, &with_publisher) {
        let after = skip_prefixes(v, k, &with_publisher);
        let slash = position_from(v, after, '/');
        if slash >= v.len() {
            return false;
        }
        start = slash + 1;
    } else {
        if occurs_from(v, k, &with_publisher) {
            return false;
        }
        start = skip_prefixes(v, k, &without_publisher);
    }
    let at = position_from(v, start, '@');
    at > start
}

impl Fmri {
    /// The identifier of a package name alone.
    pub fn new(package_name: String) -> (r: Fmri)
        ensures
            r@ == (FmriView { publisher: None, name: package_name@, version: None }),
    {
        Fmri { publisher: None, package_name, version: None }
    }

    /// The identifier of a package name: the name without `/` at its start
    /// and end. An empty name and a name that holds `@` are errors.
    pub fn new_from_package_name(package_name: String) -> (r: Result<Fmri, String>)
        ensures
            match r {
                Ok(f) => package_name@.len() > 0 && !package_name@.contains('@') && f@ == (FmriView {
                    publisher: None,
                    name: trimmed(package_name@, '/'),
                    version: None,
                }),
                Err(_) => package_name@.len() == 0 || package_name@.contains('@'),
            },
    {
        if package_name.as_str().unicode_len() == 0 {
            return Err(String::from_str("package name can't be empty"));
        }
        match package_name_parse(package_name.as_str()) {
            Ok(name) => Ok(Fmri { publisher: None, package_name: name, version: None }),
            Err(e) => Err(e),
        }
    }

    /// The placeholder that stands where a report has no requiring package:
    /// the name `none`.
    pub fn none() -> (r: Fmri)
        ensures
            r@ == none_fmri(),
    {
        Fmri { publisher: None, package_name: String::from_str("none"), version: None }
    }

    /// Parses a raw identifier such as `pkg://publisher/name@1.0-1` or
    /// `fmri=pkg:/name`. A text that the parser cannot take is an error.
    pub fn parse_raw(raw: &str) -> (r: Result<Fmri, String>)
        ensures
            match r {
                Ok(f) => parse_result(raw@) == Some(f@),
                Err(_) => parse_result(raw@) is None,
            },
    {
        let chars = to_chars(raw);
        if !raw_is_safe(&chars) {
            return Err(String::from_str("identifier without a package name or with a misplaced publisher"));
        }
        match fmri_parse(raw) {
            Err(e) => Err(e),
            Ok(parts) => {
                let (publisher, package_name, printed) = parts;
                Fmri::from_parts(publisher, package_name, printed)
            },
        }
    }

    /// The identifier of three parts: publisher, package name and version
    /// as it prints. A version that does not print as it parses is an error.
    pub fn from_parts(publisher: Option<String>, package_name: String, version: Option<String>) -> (r: Result<
        Fmri,
        String,
    >)
        ensures
            match r {
                Ok(f) => of_parts(text_option(publisher), package_name@, text_option(version))
                    == Some(f@),
                Err(_) => of_parts(text_option(publisher), package_name@, text_option(version))
                    is None,
            },
    {
        match version {
            None => Ok(Fmri { publisher, package_name, version: None }),
            Some(t) => match Version::from_printed(t) {
                Ok(v) => Ok(Fmri { publisher, package_name, version: Some(v) }),
                Err(e) => Err(e),
            },
        }
    }

    /// Whether both identifiers name the same package, whatever their
    /// publishers and versions.
    pub fn package_name_eq(&self, other: &Fmri) -> (r: bool)
        ensures
            r == (self@.name == other@.name),
    {
        self.package_name == other.package_name
    }

    /// Whether both identifiers agree in publisher, name and version.
    pub fn same(&self, other: &Fmri) -> (r: bool)
        ensures
            r == (self@ == other@),
    {
        let publishers = match (&self.publisher, &other.publisher) {
            (Some(a), Some(b)) => *a == *b,
            (None, None) => true,
            _ => false,
        };
        let versions = match (&self.version, &other.version) {
            (Some(a), Some(b)) => a.same(b),
            (None, None) => true,
            _ => false,
        };
        publishers && versions && self.package_name == other.package_name
    }

    /// Orders two identifiers by their versions; identifiers of which one has
    /// no version are equal.
    pub fn compare(&self, other: &Fmri) -> (r: Order)
        ensures
            r == fmri_compare(self@, other@),
    {
        match (&self.version, &other.version) {
            (Some(a), Some(b)) => a.compare(b),
            _ => Order::Equal,
        }
    }

    pub fn get_package_name_as_string(self) -> (r: String)
        ensures
            r@ == self@.name,
    {
        self.package_name
    }

    pub fn get_package_name_as_ref_string(&self) -> (r: &String)
        ensures
            r@ == self@.name,
    {
        &self.package_name
    }

    pub fn get_publisher_ref(&self) -> (r: &Option<String>)
        ensures
            text_option(*r) == self@.publisher,
    {
        &self.publisher
    }

    pub fn has_publisher(&self) -> (r: bool)
        ensures
            r == self@.publisher.is_some(),
    {
        self.publisher.is_some()
    }

    pub fn change_publisher(&mut self, publisher: String)
        ensures
            final(self)@ == (FmriView { publisher: Some(publisher@), ..old(self)@ }),
    {
        self.publisher = Some(publisher);
    }

    pub fn remove_publisher(&mut self)
        ensures
            final(self)@ == (FmriView { publisher: None, ..old(self)@ }),
    {
        self.publisher = None;
    }

    pub fn get_version_ref(&self) -> (r: &Option<Version>)
        ensures
            version_option(*r) == self@.version,
    {
        &self.version
    }

    pub fn has_version(&self) -> (r: bool)
        ensures
            r == self@.version.is_some(),
    {
        self.version.is_some()
    }

    pub fn change_version(&mut self, version: Version)
        ensures
            final(self)@ == (FmriView { version: Some(version@), ..old(self)@ }),
    {
        self.version = Some(version);
    }

    pub fn remove_version(&mut self)
        ensures
            final(self)@ == (FmriView { version: None, ..old(self)@ }),
    {
        self.version = None;
    }

    /// The identifier under which a package is looked up and reported: the
    /// same name, no publisher, no version.
    pub fn to_key(&self) -> (r: Fmri)
        ensures
            r@ == stripped(self@),
    {
        Fmri { publisher: None, package_name: self.package_name.clone(), version: None }
    }

    /// The identifier as text: `pkg://publisher/name@version`, or
    /// `pkg:/name@version` without a publisher.
    pub fn to_string(&self) -> (r: String)
        ensures
            r@ == fmri_text(self@),
    {
        let mut r = match &self.publisher {
            Some(p) => {
                let mut head = String::from_str("pkg://");
                head.append(p.as_str());
                head.append("/");
                head
            },
            None => String::from_str("pkg:/"),
        };
        r.append(self.package_name.as_str());
        match &self.version {
            Some(v) => {
                let t = v.to_string();
                r.append(t.as_str());
            },
            None => {
                assert(r@ + Seq::<char>::empty() =~= r@);
            },
        }
        r
    }
}

} // verus!
