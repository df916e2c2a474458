use oi_pkg_checker_core::identifier::{Fmri, Version};
use oi_pkg_checker_core::packages::components::{Components, Dependent};
use oi_pkg_checker_core::packages::depend_types::DependTypes;
use oi_pkg_checker_core::packages::dependency_type::DependencyTypes;
use oi_pkg_checker_core::packages::package::{Package, PackageVersion};
use oi_pkg_checker_core::packages::rev_depend_type::RevDependType;
use oi_pkg_checker_core::problems::Problem;

fn id(raw: &str) -> Fmri {
    Fmri::parse_raw(raw).unwrap()
}

fn release(version: &str, runtime: Vec<DependTypes>, obsolete: bool, renamed: bool) -> PackageVersion {
    let mut v = PackageVersion::new(Version::new(version.to_owned()).unwrap());
    let mut runtime = runtime;
    v.add_runtime_dependencies(&mut runtime);
    v.set_obsolete(obsolete);
    v.set_renamed(renamed);
    v
}

fn package(name: &str, releases: Vec<PackageVersion>) -> Package {
    let mut p = Package::new(id(name));
    for r in releases {
        p.add_package_version(r).unwrap();
    }
    p
}

fn finished(mut c: Components) -> Components {
    c.remove_old_versions();
    c.distribute_reverse_runtime_dependencies();
    c
}

#[test]
fn every_kind_of_dependency_is_turned_round() {
    let mut c = Components::new();
    c.add_package(package(
        "a",
        vec![release(
            "1",
            vec![
                DependTypes::Require(id("b")),
                DependTypes::Optional(id("b")),
                DependTypes::Incorporate(id("b@1")),
                DependTypes::RequireAny(vec![id("b"), id("c")]),
                DependTypes::Conditional(id("b"), id("c")),
                DependTypes::Group(id("c")),
            ],
            false,
            false,
        )],
    ));
    c.add_package(package("b", vec![release("1", vec![], false, false)]));
    c.add_package(package("c", vec![release("1", vec![], false, false)]));
    let c = finished(c);
    assert_eq!(c.collect_runtime_edges().len(), 8);
    assert_eq!(
        c.get_packages()[1].get_runtime_dependents(),
        &vec![
            RevDependType::Require(id("a")),
            RevDependType::Optional(id("a")),
            RevDependType::Incorporate(id("a")),
            RevDependType::RequireAny(id("a")),
            RevDependType::ConditionalFmri(id("a")),
        ]
    );
    assert_eq!(
        c.get_packages()[2].get_runtime_dependents(),
        &vec![
            RevDependType::RequireAny(id("a")),
            RevDependType::ConditionalPredicate(id("a")),
            RevDependType::Group(id("a")),
        ]
    );
    assert!(c.get_packages()[0].get_runtime_dependents().is_empty());
    assert!(c.problems.get_ref().is_empty());
    assert_eq!(
        c.dependents_of(&id("c")).unwrap()[0],
        Dependent::Package(RevDependType::RequireAny(id("a")))
    );
    assert_eq!(
        c.get_packages()[2].get_runtime_dependents()[1].to_string(),
        "package=pkg:/a type=conditional(predicate)"
    );
}

#[test]
fn dependency_on_a_missing_package_is_reported() {
    let mut c = Components::new();
    c.add_package(package(
        "a",
        vec![release(
            "1",
            vec![
                DependTypes::Require(id("x@1")),
                DependTypes::Require(id("x@1")),
                DependTypes::RequireAny(vec![id("a"), id("y")]),
                DependTypes::Conditional(id("a"), id("z")),
            ],
            false,
            false,
        )],
    ));
    c.add_package(package(
        "r",
        vec![release("1", vec![DependTypes::Optional(id("x"))], false, true)],
    ));
    let c = finished(c);
    assert_eq!(
        c.problems.get_ref(),
        &vec![
            Problem::NonExistingRequired(
                DependTypes::Require(id("x@1")),
                DependencyTypes::Runtime,
                id("a"),
                "".to_owned()
            ),
            Problem::NonExistingRequired(
                DependTypes::RequireAny(vec![id("y")]),
                DependencyTypes::Runtime,
                id("a"),
                "".to_owned()
            ),
            Problem::NonExistingRequired(
                DependTypes::Conditional(Fmri::none(), id("z")),
                DependencyTypes::Runtime,
                id("a"),
                "".to_owned()
            ),
            Problem::NonExistingRequiredByRenamed(
                DependTypes::Optional(id("x")),
                DependencyTypes::Runtime,
                id("r")
            ),
        ]
    );
}

#[test]
fn stale_packages_in_components_and_packages_without_owner_are_reported() {
    let mut c = Components::new();
    c.add_package(package("o", vec![release("1", vec![], true, false)]));
    c.add_package(package("r", vec![release("1", vec![], false, true)]));
    c.add_package(package("free", vec![release("1", vec![], false, false)]));
    c.add_package(package("stale", vec![release("1", vec![], true, false)]));
    c.new_component("c".to_owned(), vec![id("o"), id("r")]).unwrap();
    let mut c = finished(c);
    c.check_problems().unwrap();
    assert_eq!(
        c.problems.get_ref(),
        &vec![
            Problem::ObsoletedPackageInComponent(id("o"), "c".to_owned()),
            Problem::RenamedPackageInComponent(id("r"), "c".to_owned()),
            Problem::MissingComponentForPackage(id("free")),
            Problem::UselessComponent("c".to_owned()),
        ]
    );
    let before = c.problems.len();
    c.check_problems().unwrap();
    assert_eq!(c.problems.len(), before);
}

#[test]
fn needed_component_is_not_useless() {
    let mut c = Components::new();
    c.add_package(package("lib", vec![release("1", vec![], false, false)]));
    c.add_package(package("tool", vec![release("1", vec![], false, false)]));
    c.add_package(package("inc", vec![release("1", vec![], false, false)]));
    c.add_package(package(
        "app",
        vec![release(
            "1",
            vec![DependTypes::Require(id("lib")), DependTypes::Incorporate(id("inc"))],
            false,
            false,
        )],
    ));
    c.new_component("libs".to_owned(), vec![id("lib")]).unwrap();
    c.new_component("tools".to_owned(), vec![id("tool")]).unwrap();
    c.new_component("incs".to_owned(), vec![id("inc")]).unwrap();
    c.new_component("apps".to_owned(), vec![id("app")]).unwrap();
    c.new_component("empty".to_owned(), vec![]).unwrap();
    c.add_repo_dependencies(&"apps".to_owned(), vec![id("tool")], &DependencyTypes::SystemTest)
        .unwrap();
    let mut c = finished(c);
    c.check_problems().unwrap();
    assert_eq!(
        c.problems.get_ref(),
        &vec![
            Problem::UselessComponent("incs".to_owned()),
            Problem::UselessComponent("apps".to_owned()),
            Problem::UselessComponent("empty".to_owned()),
        ]
    );
}

#[test]
fn renamed_package_needs_renamed_package_through_its_component() {
    let mut c = Components::new();
    c.add_package(package("a", vec![release("1", vec![], false, true)]));
    c.add_package(package("b", vec![release("1", vec![], false, true)]));
    c.add_package(package("ok", vec![release("1", vec![], false, false)]));
    c.new_component("ca".to_owned(), vec![id("a")]).unwrap();
    c.add_repo_dependencies(&"ca".to_owned(), vec![id("b"), id("ok")], &DependencyTypes::Build)
        .unwrap();
    let mut c = finished(c);
    c.check_problems().unwrap();
    assert!(c.problems.get_ref().contains(&Problem::RenamedNeedsRenamed(id("a"), id("b"))));
    assert!(!c.problems.get_ref().contains(&Problem::RenamedNeedsRenamed(id("a"), id("ok"))));
}

#[test]
fn obsolete_package_is_reported_for_everybody_who_needs_it() {
    let mut c = Components::new();
    c.add_package(package("old", vec![release("1", vec![], true, false)]));
    c.add_package(package(
        "half",
        vec![release("1", vec![], false, false), release("2", vec![], true, false)],
    ));
    c.add_package(package(
        "user",
        vec![release(
            "1",
            vec![
                DependTypes::Require(id("old")),
                DependTypes::Optional(id("half")),
                DependTypes::Incorporate(id("old")),
            ],
            false,
            false,
        )],
    ));
    c.add_package(package(
        "moved",
        vec![release("1", vec![DependTypes::Group(id("old"))], false, true)],
    ));
    c.add_package(package(
        "gone",
        vec![release("1", vec![DependTypes::Require(id("old"))], true, false)],
    ));
    c.new_component("c".to_owned(), vec![id("user"), id("moved"), id("gone")]).unwrap();
    c.add_repo_dependencies(&"c".to_owned(), vec![id("old")], &DependencyTypes::Build).unwrap();
    c.add_repo_dependencies(&"c".to_owned(), vec![id("half")], &DependencyTypes::SystemTest)
        .unwrap();
    let mut c = finished(c);
    c.check_problems().unwrap();
    let problems = c.problems.get_ref();
    let expected = vec![
        Problem::ObsoletedRequired(
            DependTypes::Require(id("old")),
            DependencyTypes::Build,
            Fmri::none(),
            "c".to_owned(),
        ),
        Problem::ObsoletedRequired(
            DependTypes::Require(id("old")),
            DependencyTypes::Runtime,
            id("user"),
            "".to_owned(),
        ),
        Problem::ObsoletedRequiredByRenamed(
            DependTypes::Require(id("old")),
            DependencyTypes::Runtime,
            id("moved"),
        ),
        Problem::PartlyObsoletedRequired(
            DependTypes::Require(id("half")),
            DependencyTypes::SystemTest,
            Fmri::none(),
            "c".to_owned(),
        ),
        Problem::PartlyObsoletedRequired(
            DependTypes::Require(id("half")),
            DependencyTypes::Runtime,
            id("user"),
            "".to_owned(),
        ),
    ];
    for e in &expected {
        assert!(problems.contains(e), "missing {:?}", e);
    }
    assert!(!problems.iter().any(|p| matches!(
        p,
        Problem::ObsoletedRequired(_, DependencyTypes::Runtime, f, _) if f == &id("gone")
    )));
    assert_eq!(
        problems
            .iter()
            .filter(|p| matches!(
                p,
                Problem::ObsoletedRequired(_, _, _, _)
                    | Problem::ObsoletedRequiredByRenamed(_, _, _)
                    | Problem::PartlyObsoletedRequired(_, _, _, _)
                    | Problem::PartlyObsoletedRequiredByRenamed(_, _, _)
            ))
            .count(),
        5
    );
}
