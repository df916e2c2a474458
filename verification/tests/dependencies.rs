use oi_pkg_checker_core::identifier::{Fmri, Version};
use oi_pkg_checker_core::packages::components::Components;
use oi_pkg_checker_core::packages::depend_types::DependTypes;
use oi_pkg_checker_core::packages::dependencies::Dependencies;
use oi_pkg_checker_core::packages::dependency::{Dependency, Standing};
use oi_pkg_checker_core::packages::dependency_type::DependencyTypes;
use oi_pkg_checker_core::packages::package::{Package, PackageVersion};
use oi_pkg_checker_core::problems::{Problem, Problems};

fn id(raw: &str) -> Fmri {
    Fmri::parse_raw(raw).unwrap()
}

fn package(name: &str, releases: &[(&str, bool, bool)]) -> Package {
    let mut p = Package::new(id(name));
    for (version, obsolete, renamed) in releases {
        let mut v = PackageVersion::new(Version::new(version.to_string()).unwrap());
        v.set_obsolete(*obsolete);
        v.set_renamed(*renamed);
        p.add_package_version(v).unwrap();
    }
    p
}

#[test]
fn is_fmri_needed_as_dependency() {
    let mut dependencies = Dependencies::new();
    dependencies.add(Dependency::new(&mut DependTypes::Require(
        Fmri::parse_raw(&"pkg:/audio/audacity@2.3.2,5.11-2022.0.0.1:20220126T070330Z".to_owned())
            .unwrap(),
    )));
    dependencies.add(Dependency::new(&mut DependTypes::Require(
        Fmri::parse_raw(&"pkg:/library/libvorbis@1.3.7-2022.0.0.0".to_owned()).unwrap(),
    )));

    assert_eq!(
        dependencies
            .is_fmri_needed_as_dependency(
                &Components::new(),
                &Fmri::parse_raw(
                    &"pkg:/audio/audacity@2.3.2,5.11-2022.0.0.1:20220126T070330Z".to_owned()
                )
                .unwrap()
            )
            .is_some(),
        true
    );

    assert_eq!(
        dependencies
            .is_fmri_needed_as_dependency(
                &Components::new(),
                &Fmri::parse_raw(
                    &"pkg:/audio/audacity@3.3.2,5.11-2022.0.0.1:20220126T070330Z".to_owned()
                )
                .unwrap()
            )
            .is_some(),
        true
    );

    assert_eq!(
        dependencies
            .is_fmri_needed_as_dependency(
                &Components::new(),
                &Fmri::parse_raw(
                    &"pkg:/audio/audacity@1.3.2,5.11-2022.0.0.1:20220126T070330Z".to_owned()
                )
                .unwrap()
            )
            .is_some(),
        false
    );

    assert_eq!(
        dependencies
            .is_fmri_needed_as_dependency(
                &Components::new(),
                &Fmri::parse_raw(
                    &"pkg:/library/libvorbis@1.3.7,1-2022.0.0.0:20220126T070330Z".to_owned()
                )
                .unwrap()
            )
            .is_some(),
        true
    );

    assert_eq!(
        dependencies
            .is_fmri_needed_as_dependency(
                &Components::new(),
                &Fmri::parse_raw(
                    &"pkg:/library/libvorbis@2.3.7,1-2022.0.0.0:20220126T070330Z".to_owned()
                )
                .unwrap()
            )
            .is_some(),
        true
    );

    assert_eq!(
        dependencies
            .is_fmri_needed_as_dependency(
                &Components::new(),
                &Fmri::parse_raw(
                    &"pkg:/library/libvorbis@1.2.7,1-2022.0.0.0:20220126T070330Z".to_owned()
                )
                .unwrap()
            )
            .is_some(),
        false
    );
}

#[test]
fn first_dependency_that_needs_the_package_is_returned() {
    let c = Components::new();
    let mut dependencies = Dependencies::new();
    dependencies.add(Dependency::new(&DependTypes::Incorporate(id("a@2"))));
    dependencies.add(Dependency::new(&DependTypes::RequireAny(vec![id("b@1"), id("a@3")])));
    dependencies.add(Dependency::new(&DependTypes::Conditional(id("a@1"), id("z"))));
    dependencies.add(Dependency::new(&DependTypes::Group(id("a"))));
    assert_eq!(
        dependencies.is_fmri_needed_as_dependency(&c, &id("a@2")),
        Some(Dependency::new(&DependTypes::Incorporate(id("a@2"))))
    );
    assert_eq!(
        dependencies.is_fmri_needed_as_dependency(&c, &id("a@3")),
        Some(Dependency::new(&DependTypes::RequireAny(vec![id("b@1"), id("a@3")])))
    );
    assert_eq!(
        dependencies.is_fmri_needed_as_dependency(&c, &id("a@1.5")),
        Some(Dependency::new(&DependTypes::Conditional(id("a@1"), id("z"))))
    );
    assert_eq!(
        dependencies.is_fmri_needed_as_dependency(&c, &id("a@0.5")),
        Some(Dependency::new(&DependTypes::Group(id("a"))))
    );
    assert_eq!(dependencies.is_fmri_needed_as_dependency(&c, &id("z@1")), None);
    assert!(c.check_require_dependency(&id("a@1"), &id("pkg://p/a@1")));
    assert!(!c.check_require_dependency(&id("a@1"), &id("b@1")));
}

#[test]
fn dependency_holds_no_publisher() {
    assert_eq!(
        Dependency::new(&DependTypes::Require(id("pkg://oi/a@1"))).get(),
        DependTypes::Require(id("a@1"))
    );
    assert_eq!(
        Dependency::new(&DependTypes::RequireAny(vec![id("pkg://oi/a"), id("pkg://x/b@2")]))
            .get_ref(),
        &DependTypes::RequireAny(vec![id("a"), id("b@2")])
    );
    assert_eq!(
        Dependency::new(&DependTypes::Conditional(id("pkg://oi/a"), id("pkg://oi/p"))).get(),
        DependTypes::Conditional(id("a"), id("p"))
    );
    assert_eq!(
        Dependencies::new_from_fmri_list(vec![id("pkg://oi/a"), id("b")]).get(),
        vec![
            Dependency::new(&DependTypes::Require(id("a"))),
            Dependency::new(&DependTypes::Require(id("b")))
        ]
    );
}

#[test]
fn lists_are_merged_without_repeating_a_dependency() {
    let d = |n: &str| Dependency::new(&DependTypes::Require(id(n)));
    let mut left = Dependencies::new();
    for n in ["1", "2", "3"] {
        left.add(d(n));
    }
    let mut right = Dependencies::default();
    for n in ["2", "3", "4", "4"] {
        right.add(d(n));
    }
    assert!(left.contains(&d("2")));
    assert!(!left.contains(&d("4")));
    left.add_assign(right);
    assert_eq!(left.get_ref(), &vec![d("1"), d("2"), d("3"), d("4")]);
}

#[test]
fn dependency_is_printed_as_a_depend_action() {
    assert_eq!(DependTypes::Require(id("a@1")).to_string(), "fmri=pkg:/a@1 type=require");
    assert_eq!(
        DependTypes::RequireAny(vec![id("a"), id("b")]).to_string(),
        "fmri=pkg:/a fmri=pkg:/b type=require-any"
    );
    assert_eq!(
        DependTypes::Conditional(id("a"), id("p")).to_string(),
        "fmri=pkg:/a predicate=pkg:/p type=conditional"
    );
    assert_eq!(
        DependTypes::Group(id("a")).get_name_and_content_as_string(),
        ("group".to_owned(), "a".to_owned())
    );
    assert_eq!(DependTypes::Require(id("a")).get_content_ref(), Ok(&id("a")));
    assert_eq!(
        DependTypes::RequireAny(vec![id("a")]).get_content_ref(),
        Err(&vec![id("a")])
    );
    assert_eq!(DependencyTypes::SystemBuild.to_string(), "system-build");
}

#[test]
fn dependency_is_checked_against_the_graph() {
    let mut c = Components::new();
    c.add_package(package("ok", &[("1", false, false)]));
    c.add_package(package("old", &[("1", true, false)]));
    c.add_package(package("half", &[("1", false, false), ("2", true, false)]));
    c.add_package(package("user", &[("1", false, false)]));
    c.add_package(package("moved", &[("1", false, true)]));
    c.new_component("c".to_owned(), vec![id("user")]).unwrap();
    c.remove_old_versions();
    assert_eq!(c.standing_of(&id("ok")), Standing::Valid);
    assert_eq!(c.standing_of(&id("old@7")), Standing::Obsolete);
    assert_eq!(c.standing_of(&id("half")), Standing::PartlyObsolete);
    assert_eq!(c.standing_of(&id("x")), Standing::Missing);
    let user = &c.get_packages()[3];
    let moved = &c.get_packages()[4];
    let mut problems = Problems::new();
    let check = |d: DependTypes, p: &Package, t: DependencyTypes, problems: &mut Problems| {
        Dependency::new(&d).check_dependency_validity(&c, problems, p, t)
    };
    check(DependTypes::Require(id("ok")), user, DependencyTypes::Runtime, &mut problems);
    check(DependTypes::Incorporate(id("old")), user, DependencyTypes::Runtime, &mut problems);
    assert!(problems.get_ref().is_empty());
    check(DependTypes::Require(id("old")), user, DependencyTypes::Runtime, &mut problems);
    check(DependTypes::Optional(id("half")), user, DependencyTypes::Build, &mut problems);
    check(DependTypes::Incorporate(id("x")), moved, DependencyTypes::Runtime, &mut problems);
    check(
        DependTypes::RequireAny(vec![id("x"), id("old"), id("ok"), id("y"), id("half")]),
        user,
        DependencyTypes::Runtime,
        &mut problems,
    );
    check(DependTypes::Conditional(id("old"), id("x")), moved, DependencyTypes::Test, &mut problems);
    assert_eq!(
        problems.get_ref(),
        &vec![
            Problem::ObsoletedRequired(
                DependTypes::Require(id("old")),
                DependencyTypes::Runtime,
                id("user"),
                "".to_owned()
            ),
            Problem::PartlyObsoletedRequired(
                DependTypes::Optional(id("half")),
                DependencyTypes::Build,
                id("user"),
                "c".to_owned()
            ),
            Problem::NonExistingRequiredByRenamed(
                DependTypes::Incorporate(id("x")),
                DependencyTypes::Runtime,
                id("moved")
            ),
            Problem::ObsoletedRequired(
                DependTypes::RequireAny(vec![id("old")]),
                DependencyTypes::Runtime,
                id("user"),
                "".to_owned()
            ),
            Problem::PartlyObsoletedRequired(
                DependTypes::RequireAny(vec![id("half")]),
                DependencyTypes::Runtime,
                id("user"),
                "".to_owned()
            ),
            Problem::NonExistingRequired(
                DependTypes::RequireAny(vec![id("x"), id("y")]),
                DependencyTypes::Runtime,
                id("user"),
                "".to_owned()
            ),
            Problem::ObsoletedRequiredByRenamed(
                DependTypes::Conditional(id("old"), Fmri::none()),
                DependencyTypes::Test,
                id("moved")
            ),
            Problem::NonExistingRequiredByRenamed(
                DependTypes::Conditional(Fmri::none(), id("x")),
                DependencyTypes::Test,
                id("moved")
            ),
        ]
    );
}

#[test]
fn component_depends_on_each_package_once() {
    let mut c = Components::new();
    let mut app = Package::new(id("pkg://oi/app"));
    let mut v = PackageVersion::new(Version::new("1".to_owned()).unwrap());
    let mut runtime =
        vec![DependTypes::Require(id("pkg://oi/lib")), DependTypes::Optional(id("tool@1"))];
    v.add_runtime_dependencies(&mut runtime);
    app.add_package_version(v).unwrap();
    c.add_package(package("first", &[("1", false, false)]));
    c.add_package(app);
    c.add_package(package("pkg://oi/lib", &[("1", false, false)]));
    c.add_package(package("tool", &[("1", false, false)]));
    let apps = c.new_component("apps".to_owned(), vec![id("first"), id("app")]).unwrap();
    let none = c.new_component("none".to_owned(), vec![]).unwrap();
    c.add_repo_dependencies(&"apps".to_owned(), vec![id("lib"), id("tool"), id("lib")], &DependencyTypes::Build)
        .unwrap();
    c.add_repo_dependencies(&"apps".to_owned(), vec![id("tool"), id("first")], &DependencyTypes::Test)
        .unwrap();
    let d = |t: DependTypes| Dependency::new(&t);
    assert_eq!(
        c.get_dependencies(
            apps,
            vec![DependencyTypes::Runtime, DependencyTypes::Build, DependencyTypes::Test]
        ),
        vec![
            (d(DependTypes::Require(id("lib"))), DependencyTypes::Runtime),
            (d(DependTypes::Optional(id("tool@1"))), DependencyTypes::Runtime),
            (d(DependTypes::Require(id("tool"))), DependencyTypes::Build),
            (d(DependTypes::Require(id("first"))), DependencyTypes::Test),
        ]
    );
    assert_eq!(
        c.get_dependencies(apps, vec![DependencyTypes::Test, DependencyTypes::SystemBuild]),
        vec![
            (d(DependTypes::Require(id("tool"))), DependencyTypes::Test),
            (d(DependTypes::Require(id("first"))), DependencyTypes::Test),
        ]
    );
    assert!(c.get_dependencies(none, vec![DependencyTypes::Runtime, DependencyTypes::Build]).is_empty());
    assert!(c.get_dependencies(apps, vec![]).is_empty());
}
