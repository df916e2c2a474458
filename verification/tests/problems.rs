use oi_pkg_checker_core::identifier::Fmri;
use oi_pkg_checker_core::packages::depend_types::DependTypes;
use oi_pkg_checker_core::packages::dependency_type::DependencyTypes;
use oi_pkg_checker_core::problems::{report, report_problem, Level, Problem, Problems};

fn id(raw: &str) -> Fmri {
    Fmri::parse_raw(raw).unwrap()
}

#[test]
fn problem_is_kept_without_version_and_publisher() {
    let mut problems = Problems::new();
    problems.add_problem(Problem::MissingComponentForPackage(id("pkg://oi/a@1")));
    assert_eq!(problems.get_ref(), &vec![Problem::MissingComponentForPackage(id("a"))]);
    problems.add_problem(Problem::RenamedNeedsRenamed(id("pkg://oi/a@1"), id("pkg://oi/b@2")));
    assert_eq!(problems.get_ref()[1], Problem::RenamedNeedsRenamed(id("a"), id("b")));
}

#[test]
fn dependency_inside_a_problem_keeps_its_version() {
    let mut problems = Problems::new();
    problems.add_problem(Problem::NonExistingRequired(
        DependTypes::Require(id("pkg://oi/x@1")),
        DependencyTypes::Runtime,
        id("pkg://oi/a@1"),
        "".to_owned(),
    ));
    assert_eq!(
        problems.get_ref(),
        &vec![Problem::NonExistingRequired(
            DependTypes::Require(id("pkg://oi/x@1")),
            DependencyTypes::Runtime,
            id("a"),
            "".to_owned(),
        )]
    );
}

#[test]
fn same_problem_is_kept_once() {
    let mut problems = Problems::new();
    let dangling = || {
        Problem::NonExistingRequired(
            DependTypes::Require(id("x")),
            DependencyTypes::Build,
            Fmri::none(),
            "c".to_owned(),
        )
    };
    problems.add_problem(dangling());
    problems.add_problem(dangling());
    assert_eq!(problems.len(), 1);
    problems.add_problem(Problem::UselessComponent("c".to_owned()));
    problems.add_problem(Problem::UselessComponent("c".to_owned()));
    assert_eq!(problems.len(), 2);
}

#[test]
fn dependency_of_a_component_is_reported_once_whatever_is_wrong_with_it() {
    let mut problems = Problems::new();
    problems.add_problem(Problem::NonExistingRequired(
        DependTypes::Require(id("x")),
        DependencyTypes::Build,
        Fmri::none(),
        "c".to_owned(),
    ));
    problems.add_problem(Problem::ObsoletedRequired(
        DependTypes::Require(id("x")),
        DependencyTypes::Build,
        id("other"),
        "c".to_owned(),
    ));
    assert_eq!(problems.len(), 1);
    problems.add_problem(Problem::ObsoletedRequired(
        DependTypes::Require(id("x")),
        DependencyTypes::Test,
        Fmri::none(),
        "c".to_owned(),
    ));
    assert_eq!(problems.len(), 2);
    problems.add_problem(Problem::ObsoletedRequired(
        DependTypes::Require(id("x")),
        DependencyTypes::Runtime,
        id("a"),
        "".to_owned(),
    ));
    problems.add_problem(Problem::PartlyObsoletedRequired(
        DependTypes::Require(id("x")),
        DependencyTypes::Runtime,
        id("b"),
        "".to_owned(),
    ));
    assert_eq!(problems.len(), 4);
    assert!(problems.contains(&Problem::PartlyObsoletedRequired(
        DependTypes::Require(id("x")),
        DependencyTypes::Build,
        id("anything"),
        "c".to_owned(),
    )));
}

#[test]
fn problems_are_sorted_by_rank_and_keep_their_order_within_a_rank() {
    let mut problems = Problems::new();
    problems.add_problem(Problem::NonExistingPackageInPkg5(id("z"), "c".to_owned()));
    problems.add_problem(Problem::MissingComponentForPackage(id("b")));
    problems.add_problem(Problem::UnRunnableMakeCommand("gmake x".to_owned(), "/c".to_owned()));
    problems.add_problem(Problem::MissingComponentForPackage(id("a")));
    problems.add_problem(Problem::UselessComponent("c".to_owned()));
    problems.add_problem(Problem::RenamedNeedsRenamed(id("a"), id("b")));
    problems.sort();
    assert_eq!(
        problems.get_ref(),
        &vec![
            Problem::UselessComponent("c".to_owned()),
            Problem::MissingComponentForPackage(id("b")),
            Problem::MissingComponentForPackage(id("a")),
            Problem::RenamedNeedsRenamed(id("a"), id("b")),
            Problem::UnRunnableMakeCommand("gmake x".to_owned(), "/c".to_owned()),
            Problem::NonExistingPackageInPkg5(id("z"), "c".to_owned()),
        ]
    );
    let ranks: Vec<usize> = problems.get_ref().iter().map(|p| p.rank()).collect();
    assert_eq!(ranks, vec![0, 3, 3, 6, 11, 13]);
}

#[test]
fn problems_are_counted_by_rank() {
    let mut problems = Problems::new();
    problems.add_problem(Problem::MissingComponentForPackage(id("b")));
    problems.add_problem(Problem::MissingComponentForPackage(id("a")));
    problems.add_problem(Problem::UselessComponent("c".to_owned()));
    let counts = problems.counts();
    assert_eq!(counts.len(), 15);
    assert_eq!(counts[0], 1);
    assert_eq!(counts[3], 2);
    assert_eq!(counts.iter().sum::<usize>(), 3);
}

#[test]
fn problems_about_a_package_are_found() {
    let mut problems = Problems::new();
    problems.add_problem(Problem::MissingComponentForPackage(id("a")));
    problems.add_problem(Problem::UselessComponent("a".to_owned()));
    problems.add_problem(Problem::RenamedNeedsRenamed(id("b"), id("a")));
    problems.add_problem(Problem::ObsoletedRequired(
        DependTypes::RequireAny(vec![id("x"), id("a@1")]),
        DependencyTypes::Runtime,
        id("c"),
        "".to_owned(),
    ));
    problems.add_problem(Problem::ObsoletedRequired(
        DependTypes::Conditional(id("x"), id("a")),
        DependencyTypes::Runtime,
        id("d"),
        "".to_owned(),
    ));
    problems.add_problem(Problem::MissingComponentForPackage(id("b")));
    let related = problems.get_problems_related_to_fmri(&id("pkg://oi/a@5"));
    assert_eq!(related.len(), 4);
    assert_eq!(related[0], Problem::MissingComponentForPackage(id("a")));
    assert_eq!(related[1], Problem::RenamedNeedsRenamed(id("b"), id("a")));
    assert_eq!(problems.get_problems_related_to_fmri(&id("zzz")).len(), 0);
}

#[test]
fn each_problem_is_reported_in_its_own_words() {
    let line = |p: Problem| {
        let l = report_problem(&p);
        (l.level, l.message)
    };
    assert_eq!(
        line(Problem::UselessComponent("c".to_owned())),
        (Level::Info, "component c is not needed by any package".to_owned())
    );
    assert_eq!(
        line(Problem::MissingComponentForPackage(id("a"))),
        (Level::Warn, "missing component for pkg:/a".to_owned())
    );
    assert_eq!(
        line(Problem::RenamedNeedsRenamed(id("a"), id("b"))),
        (Level::Error, "renamed package a needs renamed package b".to_owned())
    );
    assert_eq!(
        line(Problem::RenamedPackageInComponent(id("a"), "c".to_owned())),
        (Level::Error, "package a is renamed and is in component c".to_owned())
    );
    assert_eq!(
        line(Problem::ObsoletedPackageInComponent(id("a"), "c".to_owned())),
        (Level::Error, "package a is obsolete and is in component c".to_owned())
    );
    assert_eq!(
        line(Problem::UnRunnableMakeCommand("gmake x".to_owned(), "/a \"b\"".to_owned())),
        (Level::Error, "can't run gmake x in \"/a \\\"b\\\"\"".to_owned())
    );
    assert_eq!(
        line(Problem::PackageInMultipleComponents(
            id("a"),
            vec!["c1".to_owned(), "c2".to_owned()]
        )),
        (Level::Error, "package pkg:/a is in multiple components: c1,c2".to_owned())
    );
    assert_eq!(
        line(Problem::NonExistingPackageInPkg5(id("a"), "c".to_owned())),
        (Level::Error, "package pkg:/a does not exist but it is in the pkg5, component: c".to_owned())
    );
    assert_eq!(
        line(Problem::SamePackageHasTwoPublishers(
            id("a"),
            "p1".to_owned(),
            "p2".to_owned(),
            Some("p1".to_owned())
        )),
        (
            Level::Error,
            "package pkg:/a has two publishers (pkg://p1/ and pkg://p2/), but the latest version with publisher pkg://p1/ is not obsoleted"
                .to_owned()
        )
    );
    assert_eq!(
        line(Problem::SamePackageHasTwoPublishers(id("a"), "p1".to_owned(), "p2".to_owned(), None)),
        (
            Level::Error,
            "package pkg:/a has two publishers (pkg://p1/ and pkg://p2/), but wrong package is obsoleted"
                .to_owned()
        )
    );
}

#[test]
fn missing_and_obsolete_dependencies_are_reported_with_who_needs_them() {
    let message = |p: Problem| report_problem(&p).message;
    assert_eq!(
        message(Problem::NonExistingRequired(
            DependTypes::Require(id("x@1")),
            DependencyTypes::Runtime,
            id("a"),
            "".to_owned()
        )),
        "package x doesn't exist, but is required by package a (runtime, require)"
    );
    assert_eq!(
        message(Problem::NonExistingRequired(
            DependTypes::Require(id("x")),
            DependencyTypes::SystemBuild,
            Fmri::none(),
            "c".to_owned()
        )),
        "package x doesn't exist, but is required by component c (build, system)"
    );
    assert_eq!(
        message(Problem::NonExistingRequiredByRenamed(
            DependTypes::RequireAny(vec![id("x"), id("y")]),
            DependencyTypes::Runtime,
            id("a")
        )),
        "package x, y doesn't exist, but is required by renamed package a (runtime, require-any)"
    );
    assert_eq!(
        message(Problem::NonExistingRequiredByRenamed(
            DependTypes::Group(id("x")),
            DependencyTypes::SystemTest,
            id("a")
        )),
        "package x doesn't exist, but is required by renamed package a (system-test)"
    );
    assert_eq!(
        message(Problem::ObsoletedRequired(
            DependTypes::Conditional(id("x"), Fmri::none()),
            DependencyTypes::Runtime,
            id("a"),
            "".to_owned()
        )),
        "obsoleted package fmri=pkg:/x is required by package a (runtime, conditional)"
    );
    assert_eq!(
        message(Problem::ObsoletedRequired(
            DependTypes::Conditional(Fmri::none(), id("p")),
            DependencyTypes::Test,
            Fmri::none(),
            "c".to_owned()
        )),
        "obsoleted package predicate=pkg:/p is required by component c (test, component)"
    );
    assert_eq!(
        message(Problem::ObsoletedRequiredByRenamed(
            DependTypes::Conditional(id("x"), id("p")),
            DependencyTypes::Build,
            id("a")
        )),
        "obsoleted package fmri=pkg:/x, predicate=pkg:/p is required by renamed package a (build, component)"
    );
    assert_eq!(
        message(Problem::PartlyObsoletedRequired(
            DependTypes::Optional(id("x")),
            DependencyTypes::Build,
            Fmri::none(),
            "c".to_owned()
        )),
        "obsoleted package x is required by component c (build, component)"
    );
    assert_eq!(
        message(Problem::PartlyObsoletedRequiredByRenamed(
            DependTypes::Incorporate(id("x")),
            DependencyTypes::SystemBuild,
            id("a")
        )),
        "obsoleted package x is required by renamed package a (system-build, system)"
    );
    assert_eq!(
        report_problem(&Problem::PartlyObsoletedRequired(
            DependTypes::Optional(id("x")),
            DependencyTypes::Build,
            Fmri::none(),
            "c".to_owned()
        ))
        .level,
        Level::Warn
    );
}

#[test]
fn report_ends_with_the_counts() {
    let mut problems = Problems::new();
    for i in 0..12 {
        problems.add_problem(Problem::UselessComponent(format!("c{}", i)));
    }
    problems.add_problem(Problem::MissingComponentForPackage(id("a")));
    let lines = report(&problems);
    assert_eq!(lines.len(), 13 + 15);
    assert_eq!(lines[0].message, "component c0 is not needed by any package");
    assert_eq!(lines[13].level, Level::Info);
    assert_eq!(lines[13].message, "Number of components that are not needed by any package: 12");
    assert_eq!(lines[16].level, Level::Warn);
    assert_eq!(lines[16].message, "Number of packages that do not belong to a component: 1");
    assert_eq!(lines[19].level, Level::Error);
    assert_eq!(lines[19].message, "Number of renamed packages that need renamed packages: 0");
    assert_eq!(
        lines[27].message,
        "Number of problems with packages that have same publisher: 0"
    );
}
