use oi_pkg_checker_core::identifier::{Fmri, Version};
use oi_pkg_checker_core::packages::components::Components;
use oi_pkg_checker_core::packages::cycles::{format_cycle, EdgeType, Or};
use oi_pkg_checker_core::packages::depend_types::DependTypes;
use oi_pkg_checker_core::packages::dependency_type::DependencyTypes;
use oi_pkg_checker_core::packages::package::{Package, PackageVersion};
use oi_pkg_checker_core::packages::rev_depend_type::RevDependType;
use oi_pkg_checker_core::problems::Problem;

fn id(raw: &str) -> Fmri {
    Fmri::parse_raw(raw).unwrap()
}

fn release(version: &str, runtime: Vec<DependTypes>) -> PackageVersion {
    let mut v = PackageVersion::new(Version::new(version.to_owned()).unwrap());
    let mut runtime = runtime;
    v.add_runtime_dependencies(&mut runtime);
    v
}

fn package(name: &str, releases: Vec<PackageVersion>) -> Package {
    let mut p = Package::new(id(name));
    for r in releases {
        p.add_package_version(r).unwrap();
    }
    p
}

#[test]
fn runtime_cycle_in_one_component_is_not_reported() {
    let mut c = Components::new();
    c.add_package(package("p1", vec![release("1", vec![DependTypes::Require(id("p3"))])]));
    c.add_package(package("p3", vec![release("1", vec![DependTypes::Require(id("p1"))])]));
    c.new_component("c".to_owned(), vec![id("p1"), id("p3")]).unwrap();
    c.remove_old_versions();
    c.distribute_reverse_runtime_dependencies();
    let cycles = c.check_cycles(&[
        EdgeType::RuntimeRequire,
        EdgeType::RuntimeRequireAny,
        EdgeType::RuntimeConditionalFmri,
    ]);
    assert!(cycles.is_empty());
}

#[test]
fn build_cycle_between_two_components_is_reported_once() {
    let mut c = Components::new();
    c.add_package(package("p1", vec![release("1", vec![])]));
    c.add_package(package("p2", vec![release("1", vec![])]));
    c.new_component("c1".to_owned(), vec![id("p1")]).unwrap();
    c.new_component("c2".to_owned(), vec![id("p2")]).unwrap();
    c.add_repo_dependencies(&"c1".to_owned(), vec![id("p2")], &DependencyTypes::Build).unwrap();
    c.add_repo_dependencies(&"c2".to_owned(), vec![id("p1")], &DependencyTypes::Build).unwrap();
    let cycles = c.check_cycles(&[EdgeType::Build]);
    assert_eq!(cycles.len(), 1);
    assert_eq!(cycles[0].len(), 2);
    assert!(cycles[0][0].0.same(&Or::Component("c2".to_owned())));
    assert!(cycles[0][1].0.same(&Or::Component("c1".to_owned())));
    assert_eq!(cycles[0][0].1, EdgeType::Build);
    assert_eq!(cycles[0][1].1, EdgeType::Build);
    assert_eq!(format_cycle(&cycles[0]), "c2   --Build-->   c1   --Build-->   ");
}

#[test]
fn build_cycle_inside_one_component_is_not_reported() {
    let mut c = Components::new();
    c.add_package(package("p1", vec![release("1", vec![])]));
    c.add_package(package("p2", vec![release("1", vec![])]));
    c.new_component("c1".to_owned(), vec![id("p1"), id("p2")]).unwrap();
    c.add_repo_dependencies(&"c1".to_owned(), vec![id("p2"), id("p1")], &DependencyTypes::Build)
        .unwrap();
    let cycles = c.check_cycles(&[EdgeType::Build]);
    assert!(cycles.is_empty());
}

#[test]
fn obsolete_package_required_at_runtime_is_reported() {
    let mut c = Components::new();
    let mut old = release("1", vec![]);
    old.set_obsolete(true);
    c.add_package(package("old", vec![old]));
    c.add_package(package("new", vec![release("1", vec![DependTypes::Require(id("old"))])]));
    c.remove_old_versions();
    c.distribute_reverse_runtime_dependencies();
    c.check_problems().unwrap();
    let expected = Problem::ObsoletedRequired(
        DependTypes::Require(id("old")),
        DependencyTypes::Runtime,
        id("new"),
        "".to_owned(),
    );
    assert!(c.problems.get_ref().contains(&expected));
}

#[test]
fn component_that_nothing_needs_is_useless() {
    let mut c = Components::new();
    c.add_package(package("u", vec![release("1", vec![])]));
    c.new_component("unused".to_owned(), vec![id("u")]).unwrap();
    c.remove_old_versions();
    c.distribute_reverse_runtime_dependencies();
    c.check_problems().unwrap();
    assert!(c.problems.get_ref().contains(&Problem::UselessComponent("unused".to_owned())));
}

#[test]
fn renamed_package_that_requires_a_renamed_package_is_reported() {
    let mut c = Components::new();
    let mut a = release("1", vec![DependTypes::Require(id("b"))]);
    a.set_renamed(true);
    let mut b = release("1", vec![]);
    b.set_renamed(true);
    c.add_package(package("a", vec![a]));
    c.add_package(package("b", vec![b]));
    c.remove_old_versions();
    c.distribute_reverse_runtime_dependencies();
    c.check_problems().unwrap();
    assert!(c.problems.get_ref().contains(&Problem::RenamedNeedsRenamed(id("a"), id("b"))));
}

#[test]
fn reverse_dependencies_are_kept_once() {
    let mut c = Components::new();
    c.add_package(package(
        "a",
        vec![
            release("1", vec![DependTypes::Require(id("b@1"))]),
            release("2", vec![DependTypes::Require(id("b@2")), DependTypes::Optional(id("b"))]),
        ],
    ));
    c.add_package(package("b", vec![release("1", vec![])]));
    c.distribute_reverse_runtime_dependencies();
    let b = &c.get_packages()[c.get_package_by_fmri(&id("b")).unwrap()];
    assert_eq!(
        b.get_runtime_dependents(),
        &vec![RevDependType::Require(id("a")), RevDependType::Optional(id("a"))]
    );
    c.distribute_reverse_runtime_dependencies();
    let b = &c.get_packages()[c.get_package_by_fmri(&id("b")).unwrap()];
    assert_eq!(b.get_runtime_dependents().len(), 2);
}
