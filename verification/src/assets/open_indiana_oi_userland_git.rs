//! The tree of components: which packages a component claims, what it needs
//! to build and to test, and the history of packages that were withdrawn or
//! renamed. The files are read and the build queries are run elsewhere; here
//! stands what their texts mean.

use vstd::prelude::*;
use vstd::string::*;
use crate::identifier::{Fmri, FmriView, parse_result, fmri_text};
use crate::packages::components::{Components, GraphView, package_index, repo_added, marked_obsolete,
    marked_renamed, markable_obsolete, markable_renamed};
use crate::packages::depend_types::fmri_views;
use crate::packages::dependency_type::DependencyTypes;
use crate::problems::{Problem, ProblemView, added};
use crate::text::{texts, words, split_words};

verus! {

/// One line of a history file.
#[derive(Debug, PartialEq, Eq)]
pub enum HistoryRecord {
    /// The package was withdrawn.
    Obsolete(Fmri),
    /// The package was superseded by another name.
    Renamed(Fmri),
    /// The line says nothing of a package.
    Skipped,
}

/// The mathematical content of a line of a history file.
pub enum HistoryRecordView {
    Obsolete(FmriView),
    Renamed(FmriView),
    Skipped,
}

impl View for HistoryRecord {
    type V = HistoryRecordView;

    open spec fn view(&self) -> HistoryRecordView {
        match *self {
            HistoryRecord::Obsolete(f) => HistoryRecordView::Obsolete(f@),
            HistoryRecord::Renamed(f) => HistoryRecordView::Renamed(f@),
            HistoryRecord::Skipped => HistoryRecordView::Skipped,
        }
    }
}

/// A package that a history line withdraws.
pub open spec fn withdrawn(raw: Seq<char>) -> Option<HistoryRecordView> {
    match parse_result(raw) {
        Some(f) => Some(HistoryRecordView::Obsolete(f)),
        None => None,
    }
}

/// A package that a history line renames.
pub open spec fn superseded(raw: Seq<char>) -> Option<HistoryRecordView> {
    match parse_result(raw) {
        Some(f) => Some(HistoryRecordView::Renamed(f)),
        None => None,
    }
}

/// What the words of a line of a history file say. A line of one identifier
/// withdraws the package; a line of an identifier and a second word renames
/// it. Either may end in the word `noincorporate`. An empty line, the word
/// `noincorporate` alone, and a line of three or more words that is none of
/// these say nothing. `None` where a line that is not empty holds no word,
/// or the identifier does not parse.
pub open spec fn history_of_words(empty: bool, w: Seq<Seq<char>>) -> Option<HistoryRecordView> {
    if empty {
        Some(HistoryRecordView::Skipped)
    } else if w.len() == 0 {
        None
    } else if w.len() == 1 {
        if w[0] == "noincorporate"@ {
            Some(HistoryRecordView::Skipped)
        } else {
            withdrawn(w[0])
        }
    } else if w.len() == 2 {
        if w[1] == "noincorporate"@ {
            withdrawn(w[0])
        } else {
            superseded(w[0])
        }
    } else if w.len() == 3 && w[2] == "noincorporate"@ {
        superseded(w[0])
    } else {
        Some(HistoryRecordView::Skipped)
    }
}

/// What a line of a history file says.
pub open spec fn history_record(line: Seq<char>) -> Option<HistoryRecordView> {
    history_of_words(line.len() == 0, words(line))
}

/// Whether a text is the word `noincorporate`.
fn is_noincorporate(word: &String) -> (r: bool)
    ensures
        r == (word@ == "noincorporate"@),
{
    let w = String::from_str("noincorporate");
    *word == w
}

/// Reads the identifier of a package that a history line withdraws.
fn read_withdrawn(raw: &String) -> (r: Result<HistoryRecord, String>)
    ensures
        match r {
            Ok(h) => withdrawn(raw@) == Some(h@),
            Err(_) => withdrawn(raw@) is None,
        },
{
    match Fmri::parse_raw(raw.as_str()) {
        Ok(f) => Ok(HistoryRecord::Obsolete(f)),
        Err(e) => {
            let mut message = String::from_str("failed to parse fmri: ");
            message.append(e.as_str());
            Err(message)
        },
    }
}

/// Reads the identifier of a package that a history line renames.
fn read_superseded(raw: &String) -> (r: Result<HistoryRecord, String>)
    ensures
        match r {
            Ok(h) => superseded(raw@) == Some(h@),
            Err(_) => superseded(raw@) is None,
        },
{
    match Fmri::parse_raw(raw.as_str()) {
        Ok(f) => Ok(HistoryRecord::Renamed(f)),
        Err(e) => {
            let mut message = String::from_str("failed to parse fmri: ");
            message.append(e.as_str());
            Err(message)
        },
    }
}

/// Reads the words of a line of a history file; `empty` says that the line
/// was empty.
pub fn read_history_words(empty: bool, history: &Vec<String>) -> (r: Result<HistoryRecord, String>)
    ensures
        match r {
            Ok(h) => history_of_words(empty, texts(history@)) == Some(h@),
            Err(_) => history_of_words(empty, texts(history@)) is None,
        },
{
    if empty {
        return Ok(HistoryRecord::Skipped);
    }
    proof {
        let w = texts(history@);
        if history@.len() > 0 {
            assert(w[0] == history@[0]@);
        }
        if history@.len() > 1 {
            assert(w[1] == history@[1]@);
        }
        if history@.len() > 2 {
            assert(w[2] == history@[2]@);
        }
    }
    if history.len() == 0 {
        Err(String::from_str("can not parse line from history file"))
    } else if history.len() == 1 {
        if is_noincorporate(&history[0]) {
            Ok(HistoryRecord::Skipped)
        } else {
            read_withdrawn(&history[0])
        }
    } else if history.len() == 2 {
        if is_noincorporate(&history[1]) {
            read_withdrawn(&history[0])
        } else {
            read_superseded(&history[0])
        }
    } else if history.len() == 3 && is_noincorporate(&history[2]) {
        read_superseded(&history[0])
    } else {
        Ok(HistoryRecord::Skipped)
    }
}

/// Reads a line of a history file.
pub fn parse_history_line(line: &str) -> (r: Result<HistoryRecord, String>)
    ensures
        match r {
            Ok(h) => history_record(line@) == Some(h@),
            Err(_) => history_record(line@) is None,
        },
{
    let empty = line.unicode_len() == 0;
    let history = split_words(line);
    match read_history_words(empty, &history) {
        Ok(h) => Ok(h),
        Err(e) => {
            let mut message = e;
            message.append(": ");
            message.append(line);
            Err(message)
        },
    }
}

/// The graph after a line of a history file was applied: the package is
/// marked, in the releases of the identifier's version, or as a whole where
/// the identifier has none. `None` where the graph does not know the
/// package, or what would be marked obsolete is renamed, or the other way
/// round.
pub open spec fn with_history(g: GraphView, h: HistoryRecordView) -> Option<GraphView> {
    match h {
        HistoryRecordView::Skipped => Some(g),
        HistoryRecordView::Obsolete(f) => match package_index(g, f.name) {
            None => None,
            Some(p) => if markable_obsolete(g, f) {
                Some(
                    GraphView {
                        packages: g.packages.update(p, marked_obsolete(g.packages[p], f.version)),
                        ..g
                    },
                )
            } else {
                None
            },
        },
        HistoryRecordView::Renamed(f) => match package_index(g, f.name) {
            None => None,
            Some(p) => if markable_renamed(g, f) {
                Some(
                    GraphView {
                        packages: g.packages.update(p, marked_renamed(g.packages[p], f.version)),
                        ..g
                    },
                )
            } else {
                None
            },
        },
    }
}

/// The text of the error for a package that would become both obsolete and
/// renamed: the reason, and the identifier of the line as it prints.
pub open spec fn both_kinds_message(fmri: FmriView) -> Seq<char> {
    "package cannot be obsolete and renamed at the same time, package: "@ + fmri_text(fmri)
}

/// The error for a package that would become both obsolete and renamed.
fn both_kinds(fmri: &Fmri) -> (r: String)
    ensures
        r@ == both_kinds_message(fmri@),
{
    let mut message = String::from_str(
        "package cannot be obsolete and renamed at the same time, package: ",
    );
    let text = fmri.to_string();
    message.append(text.as_str());
    message
}

/// Applies a line of a history file to the graph. A line about a package
/// that the graph does not know is an error and changes nothing, and so is a
/// line that would make a package or a release both obsolete and renamed.
pub fn apply_history(components: &mut Components, record: HistoryRecord) -> (r: Result<(), String>)
    requires
        old(components).wf(),
    ensures
        final(components).wf(),
        match r {
            Ok(_) => with_history(old(components)@, record@) == Some(final(components)@),
            Err(_) => with_history(old(components)@, record@) is None && final(components)@ == old(
                components,
            )@,
        },
{
    match record {
        HistoryRecord::Skipped => Ok(()),
        HistoryRecord::Obsolete(fmri) => if !components.can_set_package_obsolete(&fmri) {
            Err(both_kinds(&fmri))
        } else {
            match components.set_package_obsolete(fmri) {
                Ok(_) => Ok(()),
                Err(e) => {
                    let mut message = String::from_str("failed to set package obsolete: ");
                    message.append(e.as_str());
                    Err(message)
                },
            }
        },
        HistoryRecord::Renamed(fmri) => if !components.can_set_package_renamed(&fmri) {
            Err(both_kinds(&fmri))
        } else {
            match components.set_package_renamed(fmri) {
                Ok(_) => Ok(()),
                Err(e) => {
                    let mut message = String::from_str("failed to set package renamed: ");
                    message.append(e.as_str());
                    Err(message)
                },
            }
        },
    }
}

/// The identifiers that the first `n` words stand for; `None` where one of
/// them does not parse.
pub open spec fn parsed_fmris(w: Seq<Seq<char>>, n: int) -> Option<Seq<FmriView>>
    decreases n,
{
    if n <= 0 {
        Some(Seq::empty())
    } else {
        match parsed_fmris(w, n - 1) {
            None => None,
            Some(before) => match parse_result(w[n - 1]) {
                None => None,
                Some(f) => Some(before.push(f)),
            },
        }
    }
}

/// Once a word failed to parse, the list fails.
pub proof fn lemma_parsed_fails(w: Seq<Seq<char>>, n: int, m: int)
    requires
        n <= m,
        parsed_fmris(w, n) is None,
    ensures
        parsed_fmris(w, m) is None,
    decreases m - n,
{
    if n < m {
        lemma_parsed_fails(w, n, m - 1);
    }
}

/// Reads a list of raw identifiers, such as the packages that a component
/// claims.
pub fn parse_fmri_list(raw: &Vec<String>) -> (r: Result<Vec<Fmri>, String>)
    ensures
        match r {
            Ok(l) => parsed_fmris(texts(raw@), raw@.len() as int) == Some(fmri_views(l@)),
            Err(_) => parsed_fmris(texts(raw@), raw@.len() as int) is None,
        },
{
    let mut out: Vec<Fmri> = Vec::new();
    let mut i: usize = 0;
    proof {
        assert(fmri_views(out@) =~= Seq::<FmriView>::empty());
    }
    while i < raw.len()
        invariant
            i <= raw.len(),
            parsed_fmris(texts(raw@), i as int) == Some(fmri_views(out@)),
        decreases raw.len() - i,
    {
        proof {
            assert(texts(raw@)[i as int] == raw@[i as int]@);
        }
        match Fmri::parse_raw(raw[i].as_str()) {
            Ok(f) => {
                let ghost before = out@;
                out.push(f);
                proof {
                    assert(fmri_views(out@) =~= fmri_views(before).push(f@));
                }
            },
            Err(e) => {
                proof {
                    assert(parsed_fmris(texts(raw@), i + 1) is None);
                    lemma_parsed_fails(texts(raw@), i + 1, raw@.len() as int);
                }
                let mut message = String::from_str("failed to parse fmri: ");
                message.append(e.as_str());
                return Err(message);
            },
        }
        i += 1;
    }
    Ok(out)
}

/// Reads the identifiers that a build query printed, separated by
/// whitespace.
pub fn parse_query_output(output: &str) -> (r: Result<Vec<Fmri>, String>)
    ensures
        match r {
            Ok(l) => parsed_fmris(words(output@), words(output@).len() as int) == Some(
                fmri_views(l@),
            ),
            Err(_) => parsed_fmris(words(output@), words(output@).len() as int) is None,
        },
{
    let w = split_words(output);
    parse_fmri_list(&w)
}

/// The name of a component in a line of the list of components: the last
/// word of the line.
pub fn component_of_line(line: &str) -> (r: Option<String>)
    ensures
        match r {
            Some(name) => words(line@).len() > 0 && name@ == words(line@).last(),
            None => words(line@).len() == 0,
        },
{
    let mut w = split_words(line);
    proof {
        if w@.len() > 0 {
            assert(texts(w@).last() == w@.last()@);
        }
    }
    w.pop()
}

/// The value that a build query prints for a context.
pub open spec fn query_target(t: DependencyTypes) -> Option<Seq<char>> {
    match t {
        DependencyTypes::Runtime => None,
        DependencyTypes::Build => Some("print-value-REQUIRED_PACKAGES"@),
        DependencyTypes::Test => Some("print-value-TEST_REQUIRED_PACKAGES"@),
        DependencyTypes::SystemBuild => Some("print-value-USERLAND_REQUIRED_PACKAGES"@),
        DependencyTypes::SystemTest => Some("print-value-USERLAND_TEST_REQUIRED_PACKAGES"@),
    }
}

/// The build query for the dependencies of a component in a context.
pub open spec fn query_command(t: DependencyTypes, gnu_sed: bool) -> Option<Seq<char>> {
    match query_target(t) {
        None => None,
        Some(target) => Some(
            if gnu_sed {
                "gmake "@ + "GSED=/usr/bin/sed "@ + target
            } else {
                "gmake "@ + target
            },
        ),
    }
}

/// The build query that prints what a component needs in a context. With
/// `gnu_sed` the query names the system's `sed`, as it must outside the
/// system that the tree is built for. There is no query for the runtime
/// context.
pub fn make_command(dependency_type: &DependencyTypes, gnu_sed: bool) -> (r: Result<String, String>)
    ensures
        match r {
            Ok(c) => query_command(*dependency_type, gnu_sed) == Some(c@),
            Err(e) => query_command(*dependency_type, gnu_sed) is None && e@
                == "can not find runtime dependencies in git"@,
        },
{
    let mut make_command = String::from_str("gmake ");
    if gnu_sed {
        make_command.append("GSED=/usr/bin/sed ");
    }
    make_command.append(
        match dependency_type {
            DependencyTypes::Runtime => {
                return Err(String::from_str("can not find runtime dependencies in git"));
            },
            DependencyTypes::Build => "print-value-REQUIRED_PACKAGES",
            DependencyTypes::Test => "print-value-TEST_REQUIRED_PACKAGES",
            DependencyTypes::SystemBuild => "print-value-USERLAND_REQUIRED_PACKAGES",
            DependencyTypes::SystemTest => "print-value-USERLAND_TEST_REQUIRED_PACKAGES",
        },
    );
    Ok(make_command)
}

/// The graph after a build query was run: a query that did not end with
/// code 0 is reported; its output is read all the same, and the
/// dependencies it names are recorded. The second part is whether the output
/// could be read and the dependencies could be recorded.
pub open spec fn query_taken(
    g: GraphView,
    component: Seq<char>,
    t: DependencyTypes,
    code: i32,
    command: Seq<char>,
    path: Seq<char>,
    output: Seq<char>,
) -> (GraphView, bool) {
    let reported = if code != 0 {
        GraphView {
            problems: added(g.problems, ProblemView::UnRunnableMakeCommand(command, path)),
            ..g
        }
    } else {
        g
    };
    match parsed_fmris(words(output), words(output).len() as int) {
        None => (reported, false),
        Some(l) => {
            let recorded = repo_added(reported, component, l, t, l.len() as int);
            (recorded.0, recorded.1 is None)
        },
    }
}

/// Takes the result of the build query for what a component needs in a
/// context: the exit code of the query, the command that was run and the
/// directory it was run in, and what it printed.
pub fn take_query_result(
    components: &mut Components,
    component_name: &String,
    dependency_type: &DependencyTypes,
    code: i32,
    command: String,
    path: String,
    output: &str,
) -> (r: Result<(), String>)
    requires
        old(components).wf(),
    ensures
        final(components).wf(),
        final(components)@ == query_taken(
            old(components)@,
            component_name@,
            *dependency_type,
            code,
            command@,
            path@,
            output@,
        ).0,
        r.is_ok() == query_taken(
            old(components)@,
            component_name@,
            *dependency_type,
            code,
            command@,
            path@,
            output@,
        ).1,
{
    if code != 0 {
        components.report(Problem::UnRunnableMakeCommand(command, path));
    }
    let dependencies = match parse_query_output(output) {
        Ok(l) => l,
        Err(e) => {
            let mut message = String::from_str("failed to get ");
            let context = dependency_type.to_string();
            message.append(context.as_str());
            message.append(" dependencies from git: ");
            message.append(e.as_str());
            return Err(message);
        },
    };
    match components.add_repo_dependencies(component_name, dependencies, dependency_type) {
        Ok(_) => Ok(()),
        Err(e) => {
            let mut message = String::from_str("failed to add ");
            let context = dependency_type.to_string();
            message.append(context.as_str());
            message.append(" dependencies into component ");
            message.append(component_name.as_str());
            message.append(": ");
            message.append(e.as_str());
            Err(message)
        },
    }
}

} // verus!
