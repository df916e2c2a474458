use oi_pkg_checker_core::identifier::{Fmri, Version};
use oi_pkg_checker_core::packages::components::Components;
use oi_pkg_checker_core::packages::de_serialization;
use oi_pkg_checker_core::packages::depend_types::DependTypes;
use oi_pkg_checker_core::packages::dependency_type::DependencyTypes;
use oi_pkg_checker_core::packages::package::{Package, PackageVersion};
use oi_pkg_checker_core::packages::rev_depend_type::RevDependType;
use oi_pkg_checker_core::problems::Problems;

fn id(raw: &str) -> Fmri {
    Fmri::parse_raw(raw).unwrap()
}

fn package(name: &str, runtime: Vec<DependTypes>) -> Package {
    let mut v = PackageVersion::new(Version::new("1".to_owned()).unwrap());
    let mut runtime = runtime;
    v.add_runtime_dependencies(&mut runtime);
    let mut p = Package::new(id(name));
    p.add_package_version(v).unwrap();
    p
}

fn graph() -> Components {
    let mut c = Components::new();
    c.add_package(package("pkg://oi/a", vec![DependTypes::Require(id("b")), DependTypes::Group(id("x"))]));
    c.add_package(package("pkg://oi/b", vec![]));
    c.new_component("ca".to_owned(), vec![id("a")]).unwrap();
    c.new_component("cb".to_owned(), vec![id("b"), id("a")]).unwrap();
    c.add_repo_dependencies(&"ca".to_owned(), vec![id("b")], &DependencyTypes::Build).unwrap();
    c.add_repo_dependencies(&"cb".to_owned(), vec![id("a"), id("b")], &DependencyTypes::SystemTest)
        .unwrap();
    c.set_package_obsolete(id("b")).unwrap();
    c.remove_old_versions();
    c.distribute_reverse_runtime_dependencies();
    c.check_problems().unwrap();
    c
}

#[test]
fn snapshot_names_what_the_handles_lead_to() {
    let s = graph().serialize();
    assert_eq!(s.packages.len(), 2);
    assert_eq!(s.components.len(), 2);
    assert_eq!(s.packages[0].fmri, id("pkg://oi/a"));
    assert_eq!(s.packages[0].component, Some("ca".to_owned()));
    assert_eq!(s.packages[1].component, Some("cb".to_owned()));
    assert!(s.packages[1].obsolete);
    assert_eq!(s.packages[1].runtime_dependents, vec![RevDependType::Require(id("pkg://oi/a"))]);
    assert_eq!(s.packages[1].build_dependents, vec!["ca".to_owned()]);
    assert_eq!(s.packages[1].sys_test_dependents, vec!["cb".to_owned()]);
    assert_eq!(s.packages[0].sys_test_dependents, vec!["cb".to_owned()]);
    assert_eq!(s.components[1].name, "cb");
    assert_eq!(s.components[1].packages, vec![id("pkg://oi/b"), id("pkg://oi/a")]);
    assert_eq!(s.components[0].build, vec![id("pkg://oi/b")]);
    assert_eq!(s.components[1].sys_test, vec![id("pkg://oi/a"), id("pkg://oi/b")]);
    assert!(s.problems.len() > 0);
}

#[test]
fn graph_of_a_snapshot_gives_the_same_snapshot() {
    let c = graph();
    let s = c.serialize();
    let back = Components::deserialize(&s).unwrap();
    assert_eq!(back.serialize(), s);
    assert_eq!(back.get_packages(), c.get_packages());
    assert_eq!(back.get_components(), c.get_components());
    assert_eq!(back.problems, c.problems);
    assert_eq!(back.get_package_by_fmri(&id("b")), Ok(1));
    assert_eq!(back.get_component_by_name(&"cb".to_owned()), Ok(1));
}

#[test]
fn snapshot_that_names_what_is_not_there_is_refused() {
    let empty = de_serialization::Components {
        components: vec![],
        packages: vec![],
        problems: Problems::new(),
    };
    assert!(Components::deserialize(&empty).unwrap().get_packages().is_empty());
    let mut s = graph().serialize();
    s.packages[0].component = Some("nope".to_owned());
    assert!(Components::deserialize(&s).is_err());
    let mut s = graph().serialize();
    s.packages[0].test_dependents.push("nope".to_owned());
    assert!(Components::deserialize(&s).is_err());
    let mut s = graph().serialize();
    s.components[0].sys_build.push(id("nope"));
    assert!(Components::deserialize(&s).is_err());
    let mut s = graph().serialize();
    s.packages[1].fmri = id("a");
    assert!(Components::deserialize(&s).is_err());
    let mut s = graph().serialize();
    s.components[1].name = "ca".to_owned();
    assert!(Components::deserialize(&s).is_err());
    let mut s = graph().serialize();
    s.packages[1].renamed = true;
    assert!(Components::deserialize(&s).is_err());
    let mut s = graph().serialize();
    s.packages[0].versions[0].set_obsolete(true);
    s.packages[0].versions[0].set_renamed(true);
    assert!(Components::deserialize(&s).is_err());
}
