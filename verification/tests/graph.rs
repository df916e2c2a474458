use oi_pkg_checker_core::identifier::{Fmri, Version};
use oi_pkg_checker_core::packages::components::{Component, Components, Dependent};
use oi_pkg_checker_core::packages::depend_types::DependTypes;
use oi_pkg_checker_core::packages::dependency_type::DependencyTypes;
use oi_pkg_checker_core::packages::package::{Package, PackageVersion};
use oi_pkg_checker_core::packages::rev_depend_type::RevDependType;
use oi_pkg_checker_core::problems::{Problem, Problems};

fn id(raw: &str) -> Fmri {
    Fmri::parse_raw(raw).unwrap()
}

fn release(version: &str, obsolete: bool, renamed: bool) -> PackageVersion {
    let mut v = PackageVersion::new(Version::new(version.to_owned()).unwrap());
    v.set_obsolete(obsolete);
    v.set_renamed(renamed);
    v
}

fn package(name: &str, releases: Vec<PackageVersion>) -> Package {
    let mut p = Package::new(id(name));
    for r in releases {
        p.add_package_version(r).unwrap();
    }
    p
}

fn versions_of(c: &Components, name: &str) -> Vec<String> {
    let p = &c.get_packages()[c.get_package_by_fmri(&id(name)).unwrap()];
    p.get_versions().iter().map(|v| v.get_version().to_string()).collect()
}

#[test]
fn release_of_a_known_version_is_merged_silently() {
    let mut p = Package::new(id("a"));
    assert!(p.add_package_version(release("1", false, false)).is_ok());
    assert!(p.add_package_version(release("1", true, false)).is_ok());
    assert!(p.add_package_version(release("1:20220101T000000Z", false, true)).is_ok());
    assert_eq!(p.get_versions().len(), 1);
    assert!(!p.is_obsolete());
    assert!(!p.is_renamed());
    assert!(p.add_package_version(release("2", true, false)).is_ok());
    assert_eq!(p.get_versions().len(), 2);
    assert!(p.is_obsolete());
}

#[test]
fn release_that_is_obsolete_and_renamed_is_refused() {
    let mut p = Package::new(id("a"));
    let e = p.add_package_version(release("1", true, true)).unwrap_err();
    assert_eq!(e, "package cannot be obsolete and renamed at the same time, package: @1");
    assert!(p.get_versions().is_empty());
}

#[test]
fn runtime_dependent_cannot_be_added_to_a_package() {
    let mut p = Package::new(id("a"));
    assert_eq!(
        p.add_dependent(0, &DependencyTypes::Runtime).unwrap_err(),
        "you can not add runtime dependent"
    );
    p.add_dependent(3, &DependencyTypes::SystemTest).unwrap();
    assert_eq!(p.get_git_dependents(DependencyTypes::SystemTest).unwrap(), &vec![3]);
    assert!(p.get_git_dependents(DependencyTypes::Build).unwrap().is_empty());
    assert_eq!(
        p.get_git_dependents(DependencyTypes::Runtime).unwrap_err(),
        "you can not add runtime dependent"
    );
}

#[test]
fn first_owner_of_a_package_stays() {
    let mut p = Package::new(id("a"));
    assert_eq!(p.set_component(4), None);
    assert_eq!(p.set_component(5), Some(4));
    assert_eq!(p.is_in_component(), &Some(4));
}

#[test]
fn newest_fresh_release_stands_for_the_package() {
    let mut c = Components::new();
    c.add_package(package(
        "a",
        vec![release("1", false, false), release("3", true, false), release("2", false, false)],
    ));
    c.add_package(package("b", vec![release("1", true, false), release("2", false, true)]));
    c.add_package(package("c", vec![release("2.1", false, false), release("2.0.9", false, false)]));
    c.add_package(Package::new(id("d")));
    let a = &c.get_packages()[0];
    assert_eq!(a.select_active_version(), Some(2));
    c.remove_old_versions();
    assert_eq!(versions_of(&c, "a"), vec!["@2"]);
    assert_eq!(versions_of(&c, "b"), vec!["@2"]);
    assert_eq!(versions_of(&c, "c"), vec!["@2.1"]);
    assert!(versions_of(&c, "d").is_empty());
    c.remove_old_versions();
    assert_eq!(versions_of(&c, "a"), vec!["@2"]);
    assert_eq!(versions_of(&c, "b"), vec!["@2"]);
}

#[test]
fn package_of_a_known_name_is_merged() {
    let mut c = Components::new();
    let first = c.add_package(package("pkg://oi/a", vec![release("1", false, false)]));
    let second = c.add_package(package("a", vec![release("1", true, false), release("2", false, true)]));
    assert_eq!(first, second);
    assert_eq!(c.get_packages().len(), 1);
    assert_eq!(versions_of(&c, "a"), vec!["@1", "@2"]);
    assert!(c.get_packages()[0].is_renamed());
    assert_eq!(c.get_packages()[0].get_fmri(), &id("pkg://oi/a"));
}

#[test]
fn package_is_stored_without_links() {
    let mut c = Components::new();
    let mut p = package("a", vec![release("1", false, false)]);
    p.set_component(7);
    p.add_dependent(9, &DependencyTypes::Build).unwrap();
    p.runtime_dependents.push(RevDependType::Require(id("ghost")));
    c.add_package(p);
    let stored = &c.get_packages()[0];
    assert_eq!(stored.is_in_component(), &None);
    assert!(stored.get_runtime_dependents().is_empty());
    assert!(stored.get_git_dependents(DependencyTypes::Build).unwrap().is_empty());
    c.check_problems().unwrap();
    c.check_cycles(&[]);
}

#[test]
fn unknown_names_are_errors() {
    let mut c = Components::new();
    assert_eq!(
        c.get_package_by_fmri(&id("pkg://oi/a@1")).unwrap_err(),
        "package pkg://oi/a@1 does not exist"
    );
    assert_eq!(
        c.get_component_by_name(&"c".to_owned()).unwrap_err(),
        "component c does not exist"
    );
    assert_eq!(
        c.set_package_obsolete(id("pkg://oi/a@1")).unwrap_err(),
        "failed to get package: package pkg://oi/a does not exist"
    );
    assert_eq!(
        c.set_package_renamed(id("a")).unwrap_err(),
        "failed to get package: package pkg:/a does not exist"
    );
    assert!(!c.is_known_package(&id("a")));
    assert!(!c.is_obsoleted(&id("a")));
    assert!(c.owner_of(&id("a")).is_none());
    assert_eq!(c.dependents_of(&id("a")).unwrap_err(), "package pkg:/a does not exist");
}

#[test]
fn component_claims_packages_and_conflicts_are_reported() {
    let mut c = Components::new();
    c.add_package(package("a", vec![release("1", false, false)]));
    let c1 = c.new_component("c1".to_owned(), vec![id("a@1"), id("missing")]).unwrap();
    let c2 = c.new_component("c2".to_owned(), vec![id("a")]).unwrap();
    assert_eq!((c1, c2), (0, 1));
    assert_eq!(c.owner_of(&id("a")), Some(&"c1".to_owned()));
    assert_eq!(c.get_components()[0].get_packages(), &vec![0]);
    assert_eq!(c.get_components()[1].get_packages(), &vec![0]);
    assert_eq!(
        c.problems.get_ref(),
        &vec![
            Problem::NonExistingPackageInPkg5(id("missing"), "c1".to_owned()),
            Problem::PackageInMultipleComponents(id("a"), vec!["c1".to_owned(), "c2".to_owned()]),
        ]
    );
    assert_eq!(
        c.new_component("c1".to_owned(), vec![]).unwrap_err(),
        "component c1 already exists"
    );
    assert_eq!(c.get_components().len(), 2);
    assert_eq!(c.get_component_by_name(&"c2".to_owned()), Ok(1));
}

#[test]
fn component_dependencies_are_recorded_on_both_sides() {
    let mut c = Components::new();
    c.add_package(package("a", vec![release("1", false, false)]));
    c.add_package(package("b", vec![release("1", false, false)]));
    c.new_component("c".to_owned(), vec![id("a")]).unwrap();
    c.add_repo_dependencies(&"c".to_owned(), vec![id("b@1"), id("x")], &DependencyTypes::Test)
        .unwrap();
    assert_eq!(c.get_components()[0].get_test_dependencies(), &vec![1]);
    assert!(c.get_components()[0].get_build_dependencies().is_empty());
    assert_eq!(c.get_packages()[1].get_git_dependents(DependencyTypes::Test).unwrap(), &vec![0]);
    assert_eq!(
        c.problems.get_ref(),
        &vec![Problem::NonExistingRequired(
            DependTypes::Require(id("x")),
            DependencyTypes::Test,
            Fmri::none(),
            "c".to_owned()
        )]
    );
    assert_eq!(
        c.dependents_of(&id("b")).unwrap(),
        vec![Dependent::Component("c".to_owned(), DependencyTypes::Test)]
    );
}

#[test]
fn component_dependencies_stop_at_the_first_that_cannot_be_recorded() {
    let mut c = Components::new();
    c.add_package(package("a", vec![release("1", false, false)]));
    c.new_component("c".to_owned(), vec![]).unwrap();
    assert_eq!(
        c.add_repo_dependencies(&"c".to_owned(), vec![id("x"), id("a")], &DependencyTypes::Runtime)
            .unwrap_err(),
        "can not insert runtime dependencies into component"
    );
    assert_eq!(c.problems.len(), 1);
    assert_eq!(
        c.add_repo_dependencies(&"nope".to_owned(), vec![id("a"), id("y")], &DependencyTypes::Build)
            .unwrap_err(),
        "failed to get component: component nope does not exist"
    );
    assert_eq!(c.problems.len(), 1);
    assert!(c
        .add_repo_dependencies(&"nope".to_owned(), vec![id("y")], &DependencyTypes::Build)
        .is_ok());
    assert_eq!(c.problems.len(), 2);
}

#[test]
fn package_is_marked_as_a_whole_or_in_one_version() {
    let mut c = Components::new();
    c.add_package(package("a", vec![release("1", false, false), release("2", false, false)]));
    c.set_package_obsolete(id("pkg://oi/a@1")).unwrap();
    {
        let a = &c.get_packages()[0];
        assert!(a.get_versions()[0].is_obsolete());
        assert!(!a.get_versions()[1].is_obsolete());
        assert!(!a.is_obsolete());
    }
    c.set_package_renamed(id("a@2")).unwrap();
    assert!(c.get_packages()[0].get_versions()[1].is_renamed());
    c.set_package_obsolete(id("a")).unwrap();
    assert!(c.get_packages()[0].is_obsolete());
    assert!(c.is_obsoleted(&id("a@9")));
    assert!(!c.is_renamed(&id("a")));
    c.set_package_obsolete(id("a@3")).unwrap();
    assert!(!c.get_packages()[0].get_versions()[1].is_obsolete());
}

#[test]
fn nothing_can_be_marked_both_obsolete_and_renamed() {
    let mut c = Components::new();
    c.add_package(package("a", vec![release("1", true, false), release("2", false, true)]));
    c.add_package(package("b", vec![release("1", false, false)]));
    assert!(c.get_packages()[0].is_exclusive());
    assert!(!c.can_set_package_renamed(&id("a@1")));
    assert!(c.can_set_package_obsolete(&id("a@1")));
    assert!(!c.can_set_package_obsolete(&id("a@2")));
    assert!(c.can_set_package_renamed(&id("a@2")));
    assert!(c.can_set_package_obsolete(&id("a@3")));
    assert!(!c.can_set_package_obsolete(&id("a")));
    assert!(c.can_set_package_renamed(&id("a")));
    assert!(c.can_set_package_obsolete(&id("unknown")));
    c.set_package_obsolete(id("b")).unwrap();
    assert!(!c.can_set_package_renamed(&id("b")));
    assert!(c.can_set_package_renamed(&id("b@1")));
    let mut both = package("x", vec![]);
    both.set_obsolete(true);
    both.set_renamed(true);
    assert!(!both.is_exclusive());
    assert!(Components::from_tables(vec![], vec![both], Problems::new()).is_err());
    let mut inside = package("y", vec![release("1", true, false)]);
    inside.get_versions_mut()[0].set_renamed(true);
    assert!(!inside.is_exclusive());
}

#[test]
fn graph_is_made_of_tables_only_if_they_fit() {
    let a = package("a", vec![]);
    let mut b = package("b", vec![]);
    b.set_component(0);
    let mut component = Component::new("c".to_owned());
    component.add_package(1);
    let c = Components::from_tables(vec![component], vec![a, b], Problems::new()).unwrap();
    assert_eq!(c.owner_of(&id("b")), Some(&"c".to_owned()));
    assert_eq!(c.get_package_by_fmri(&id("b")), Ok(1));
    let mut bad = package("a", vec![]);
    bad.set_component(0);
    assert!(Components::from_tables(vec![], vec![bad], Problems::new()).is_err());
    assert!(Components::from_tables(vec![], vec![package("a", vec![]), package("a", vec![])], Problems::new())
        .is_err());
    let mut wide = Component::new("c".to_owned());
    wide.add_package(0);
    assert!(Components::from_tables(vec![wide], vec![], Problems::new()).is_err());
    assert!(Components::from_tables(
        vec![Component::new("c".to_owned()), Component::new("c".to_owned())],
        vec![],
        Problems::new()
    )
    .is_err());
}
