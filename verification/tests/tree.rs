use oi_pkg_checker_core::assets::assets::Assets;
use oi_pkg_checker_core::assets::open_indiana_oi_userland_git::{
    apply_history, component_of_line, make_command, parse_fmri_list, parse_history_line,
    parse_query_output, read_history_words, take_query_result, HistoryRecord,
};
use oi_pkg_checker_core::identifier::{Fmri, Version};
use oi_pkg_checker_core::packages::components::Components;
use oi_pkg_checker_core::packages::dependency_type::DependencyTypes;
use oi_pkg_checker_core::packages::package::{Package, PackageVersion};
use oi_pkg_checker_core::problems::Problem;
use oi_pkg_checker_core::text::split_words;

fn id(raw: &str) -> Fmri {
    Fmri::parse_raw(raw).unwrap()
}

fn graph() -> Components {
    let mut c = Components::new();
    for name in ["a", "b"] {
        let mut p = Package::new(id(name));
        p.add_package_version(PackageVersion::new(Version::new("1".to_owned()).unwrap())).unwrap();
        c.add_package(p);
    }
    c.new_component("c".to_owned(), vec![id("a")]).unwrap();
    c
}

#[test]
fn text_is_split_at_whitespace() {
    assert_eq!(split_words("  a\tbc \n d\u{a0}e\u{3000}"), vec!["a", "bc", "d", "e"]);
    assert!(split_words("").is_empty());
    assert!(split_words(" \n").is_empty());
}

#[test]
fn history_line_withdraws_or_renames_a_package() {
    assert_eq!(parse_history_line("a@1"), Ok(HistoryRecord::Obsolete(id("a@1"))));
    assert_eq!(parse_history_line("a@1 noincorporate"), Ok(HistoryRecord::Obsolete(id("a@1"))));
    assert_eq!(parse_history_line("a@1 b"), Ok(HistoryRecord::Renamed(id("a@1"))));
    assert_eq!(parse_history_line("a@1 b noincorporate"), Ok(HistoryRecord::Renamed(id("a@1"))));
    assert_eq!(parse_history_line("a"), Ok(HistoryRecord::Obsolete(id("a"))));
    assert_eq!(parse_history_line(""), Ok(HistoryRecord::Skipped));
    assert_eq!(parse_history_line("noincorporate"), Ok(HistoryRecord::Skipped));
    assert_eq!(parse_history_line("a@1 b c"), Ok(HistoryRecord::Skipped));
    assert_eq!(parse_history_line("a@1 b c noincorporate"), Ok(HistoryRecord::Skipped));
    assert_eq!(
        parse_history_line("  ").unwrap_err(),
        "can not parse line from history file:   "
    );
    assert!(parse_history_line("a@x").is_err());
    assert!(parse_history_line("a@x b").is_err());
}

#[test]
fn history_is_applied_to_the_graph() {
    let mut c = graph();
    apply_history(&mut c, HistoryRecord::Obsolete(id("a@1"))).unwrap();
    apply_history(&mut c, HistoryRecord::Renamed(id("b"))).unwrap();
    apply_history(&mut c, HistoryRecord::Skipped).unwrap();
    assert!(c.get_packages()[0].get_versions()[0].is_obsolete());
    assert!(c.is_renamed(&id("b")));
    assert_eq!(
        apply_history(&mut c, HistoryRecord::Obsolete(id("zz@1"))).unwrap_err(),
        "failed to set package obsolete: failed to get package: package pkg:/zz does not exist"
    );
    assert_eq!(
        apply_history(&mut c, HistoryRecord::Renamed(id("zz"))).unwrap_err(),
        "failed to set package renamed: failed to get package: package pkg:/zz does not exist"
    );
    assert_eq!(
        apply_history(&mut c, HistoryRecord::Renamed(id("a@1"))).unwrap_err(),
        "package cannot be obsolete and renamed at the same time, package: pkg:/a@1"
    );
    assert_eq!(
        apply_history(&mut c, HistoryRecord::Obsolete(id("b"))).unwrap_err(),
        "package cannot be obsolete and renamed at the same time, package: pkg:/b"
    );
    assert!(!c.get_packages()[0].get_versions()[0].is_renamed());
    assert!(!c.is_obsoleted(&id("b")));
}

#[test]
fn component_is_named_by_the_last_word_of_its_line() {
    assert_eq!(component_of_line("COMPONENT_DIRS += editor/vim"), Some("editor/vim".to_owned()));
    assert_eq!(component_of_line("vim"), Some("vim".to_owned()));
    assert_eq!(component_of_line("   "), None);
}

#[test]
fn build_query_is_made_for_each_context() {
    assert_eq!(
        make_command(&DependencyTypes::Build, false).unwrap(),
        "gmake print-value-REQUIRED_PACKAGES"
    );
    assert_eq!(
        make_command(&DependencyTypes::Test, true).unwrap(),
        "gmake GSED=/usr/bin/sed print-value-TEST_REQUIRED_PACKAGES"
    );
    assert_eq!(
        make_command(&DependencyTypes::SystemBuild, false).unwrap(),
        "gmake print-value-USERLAND_REQUIRED_PACKAGES"
    );
    assert_eq!(
        make_command(&DependencyTypes::SystemTest, false).unwrap(),
        "gmake print-value-USERLAND_TEST_REQUIRED_PACKAGES"
    );
    assert_eq!(
        make_command(&DependencyTypes::Runtime, false).unwrap_err(),
        "can not find runtime dependencies in git"
    );
}

#[test]
fn identifiers_are_read_from_lists_and_from_output() {
    assert_eq!(
        parse_fmri_list(&vec!["pkg:/a@1".to_owned(), "b".to_owned()]),
        Ok(vec![id("a@1"), id("b")])
    );
    assert_eq!(parse_query_output(" a@1\n b  "), Ok(vec![id("a@1"), id("b")]));
    assert_eq!(parse_query_output(""), Ok(vec![]));
    assert!(parse_fmri_list(&vec!["a".to_owned(), "".to_owned()]).is_err());
    assert!(parse_query_output("a pkg:/").is_err());
}

#[test]
fn result_of_a_build_query_is_taken() {
    let mut c = graph();
    take_query_result(
        &mut c,
        &"c".to_owned(),
        &DependencyTypes::Build,
        0,
        "gmake x".to_owned(),
        "/tree/c".to_owned(),
        "b\nmissing",
    )
    .unwrap();
    assert_eq!(c.get_components()[0].get_build_dependencies(), &vec![1]);
    assert_eq!(c.problems.len(), 1);
    take_query_result(
        &mut c,
        &"c".to_owned(),
        &DependencyTypes::Test,
        2,
        "gmake y".to_owned(),
        "/tree/c".to_owned(),
        "",
    )
    .unwrap();
    assert_eq!(
        c.problems.get_ref()[1],
        Problem::UnRunnableMakeCommand("gmake y".to_owned(), "/tree/c".to_owned())
    );
    let failed = take_query_result(
        &mut c,
        &"c".to_owned(),
        &DependencyTypes::Test,
        1,
        "gmake z".to_owned(),
        "/tree/c".to_owned(),
        "@",
    );
    assert!(failed.unwrap_err().starts_with("failed to get test dependencies from git: "));
    assert_eq!(c.problems.len(), 3);
    assert_eq!(
        take_query_result(
            &mut c,
            &"nope".to_owned(),
            &DependencyTypes::SystemBuild,
            0,
            "gmake".to_owned(),
            "/".to_owned(),
            "a",
        )
        .unwrap_err(),
        "failed to add system-build dependencies into component nope: failed to get component: component nope does not exist"
    );
}

#[test]
fn assets_name_what_is_loaded() {
    let catalogs = Assets::Catalogs(vec!["catalog.dependency.C".to_owned()]);
    let tree = Assets::OpenIndianaOiUserlandGit {
        load_component_list: true,
        load_build_dependencies: true,
        load_test_dependencies: false,
        load_system_build_dependencies: true,
        load_system_test_dependencies: false,
    };
    assert_ne!(catalogs, tree);
    assert_eq!(catalogs, Assets::Catalogs(vec!["catalog.dependency.C".to_owned()]));
}

#[test]
fn words_of_a_history_line_are_read() {
    let w = |l: &[&str]| l.iter().map(|s| s.to_string()).collect::<Vec<String>>();
    assert_eq!(read_history_words(true, &w(&["a@1"])), Ok(HistoryRecord::Skipped));
    assert_eq!(read_history_words(false, &w(&["a@1"])), Ok(HistoryRecord::Obsolete(id("a@1"))));
    assert_eq!(read_history_words(false, &w(&["a@1", "b"])), Ok(HistoryRecord::Renamed(id("a@1"))));
    assert_eq!(
        read_history_words(false, &w(&[])).unwrap_err(),
        "can not parse line from history file"
    );
}
