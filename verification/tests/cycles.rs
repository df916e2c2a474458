use oi_pkg_checker_core::identifier::{Fmri, Order, Version};
use oi_pkg_checker_core::packages::components::Components;
use oi_pkg_checker_core::packages::cycles::{
    collapse_route, compare_routes, compare_texts, dedup_routes, format_cycle, sort_routes,
    EdgeType, Or,
};
use oi_pkg_checker_core::packages::depend_types::DependTypes;
use oi_pkg_checker_core::packages::dependency_type::DependencyTypes;
use oi_pkg_checker_core::packages::package::{Package, PackageVersion};

fn id(raw: &str) -> Fmri {
    Fmri::parse_raw(raw).unwrap()
}

fn package(name: &str, runtime: Vec<DependTypes>) -> Package {
    let mut v = PackageVersion::new(Version::new("1".to_owned()).unwrap());
    let mut runtime = runtime;
    v.add_runtime_dependencies(&mut runtime);
    let mut p = Package::new(id(name));
    p.add_package_version(v).unwrap();
    p
}

fn all_edges() -> Vec<EdgeType> {
    vec![
        EdgeType::RuntimeRequire,
        EdgeType::RuntimeRequireAny,
        EdgeType::RuntimeConditionalFmri,
        EdgeType::Build,
        EdgeType::Test,
        EdgeType::SystemBuild,
        EdgeType::SystemTest,
    ]
}

fn component(name: &str) -> Or {
    Or::Component(name.to_owned())
}

fn texts(cycles: &Vec<Vec<(Or, EdgeType)>>) -> Vec<String> {
    cycles.iter().map(format_cycle).collect()
}

#[test]
fn cycle_of_build_and_runtime_edges_is_reported() {
    let mut c = Components::new();
    c.add_package(package("p1", vec![]));
    c.add_package(package("p2", vec![DependTypes::Require(id("p1"))]));
    c.new_component("c1".to_owned(), vec![id("p1")]).unwrap();
    c.new_component("c2".to_owned(), vec![id("p2")]).unwrap();
    c.add_repo_dependencies(&"c1".to_owned(), vec![id("p2")], &DependencyTypes::Test).unwrap();
    assert_eq!(
        texts(&c.check_cycles(&all_edges())),
        vec!["c2   --Require-->   c1   --Test-->   "]
    );
    assert!(c.check_cycles(&[EdgeType::Test]).is_empty());
    assert!(c.check_cycles(&[EdgeType::RuntimeRequire]).is_empty());
    assert!(c.check_cycles(&[]).is_empty());
}

#[test]
fn runtime_cycle_between_components_is_not_reported() {
    let mut c = Components::new();
    c.add_package(package("p1", vec![DependTypes::Require(id("p2"))]));
    c.add_package(package("p2", vec![DependTypes::Conditional(id("p1"), id("p2"))]));
    c.new_component("c1".to_owned(), vec![id("p1")]).unwrap();
    c.new_component("c2".to_owned(), vec![id("p2")]).unwrap();
    assert!(c.check_cycles(&all_edges()).is_empty());
}

#[test]
fn cycle_through_packages_without_owner_names_the_packages() {
    let mut c = Components::new();
    c.add_package(package("p1", vec![DependTypes::RequireAny(vec![id("x"), id("p2")])]));
    c.add_package(package("p2", vec![]));
    c.new_component("c2".to_owned(), vec![id("p2")]).unwrap();
    c.add_repo_dependencies(&"c2".to_owned(), vec![id("p1")], &DependencyTypes::SystemBuild)
        .unwrap();
    assert_eq!(
        texts(&c.check_cycles(&all_edges())),
        vec!["c2   --SystemBuild-->   P|p1   --RequireAny-->   "]
    );
}

#[test]
fn runtime_edges_inside_a_component_are_dropped_from_a_cycle() {
    let mut c = Components::new();
    c.add_package(package("a1", vec![DependTypes::Require(id("a2"))]));
    c.add_package(package("a2", vec![]));
    c.add_package(package("b", vec![DependTypes::Require(id("a1"))]));
    c.new_component("ca".to_owned(), vec![id("a1"), id("a2")]).unwrap();
    c.new_component("cb".to_owned(), vec![id("b")]).unwrap();
    c.add_repo_dependencies(&"ca".to_owned(), vec![id("b")], &DependencyTypes::Build).unwrap();
    let cycles = c.check_cycles(&all_edges());
    assert_eq!(texts(&cycles), vec!["cb   --Require-->   ca   --Build-->   "]);
}

#[test]
fn cycle_behind_a_visited_package_may_be_missed() {
    let mut c = Components::new();
    c.add_package(package("a", vec![]));
    c.add_package(package("b", vec![]));
    c.add_package(package("c", vec![]));
    c.new_component("ca".to_owned(), vec![id("a")]).unwrap();
    c.new_component("cb".to_owned(), vec![id("b")]).unwrap();
    c.new_component("cc".to_owned(), vec![id("c")]).unwrap();
    c.add_repo_dependencies(&"ca".to_owned(), vec![id("b"), id("c")], &DependencyTypes::Build)
        .unwrap();
    c.add_repo_dependencies(&"cb".to_owned(), vec![id("c")], &DependencyTypes::Build).unwrap();
    c.add_repo_dependencies(&"cc".to_owned(), vec![id("a")], &DependencyTypes::Build).unwrap();
    assert_eq!(
        texts(&c.check_cycles(&[EdgeType::Build])),
        vec!["cc   --Build-->   ca   --Build-->   cb   --Build-->   "]
    );
}

#[test]
fn successors_follow_the_chosen_edges_in_order() {
    let mut c = Components::new();
    c.add_package(package(
        "a",
        vec![
            DependTypes::Optional(id("b")),
            DependTypes::Require(id("b")),
            DependTypes::Require(id("missing")),
            DependTypes::Conditional(id("c"), id("b")),
        ],
    ));
    c.add_package(package("b", vec![]));
    c.add_package(package("c", vec![]));
    c.new_component("ca".to_owned(), vec![id("a")]).unwrap();
    c.add_repo_dependencies(&"ca".to_owned(), vec![id("c")], &DependencyTypes::SystemTest).unwrap();
    c.add_repo_dependencies(&"ca".to_owned(), vec![id("b")], &DependencyTypes::Build).unwrap();
    assert_eq!(
        c.successors(0, &all_edges()),
        vec![
            (1, EdgeType::RuntimeRequire),
            (2, EdgeType::RuntimeConditionalFmri),
            (1, EdgeType::Build),
            (2, EdgeType::SystemTest),
        ]
    );
    assert_eq!(c.successors(0, &[EdgeType::SystemTest]), vec![(2, EdgeType::SystemTest)]);
    assert!(c.successors(1, &all_edges()).is_empty());
}

#[test]
fn nodes_and_texts_are_ordered() {
    assert_eq!(compare_texts("abc", "abd"), Order::Less);
    assert_eq!(compare_texts("abc", "ab"), Order::Greater);
    assert_eq!(compare_texts("", ""), Order::Equal);
    assert_eq!(compare_texts("Z", "a"), Order::Less);
    assert_eq!(component("a").compare(&Or::Package(id("z"))), Order::Greater);
    assert_eq!(Or::Package(id("z")).compare(&component("a")), Order::Less);
    assert_eq!(Or::Package(id("a")).compare(&Or::Package(id("b"))), Order::Equal);
    assert_eq!(Or::Package(id("a@1")).compare(&Or::Package(id("b@2"))), Order::Less);
    assert_eq!(Or::Package(id("a@1")).compare(&Or::Package(id("a@2"))), Order::Equal);
    assert!(Or::Package(id("a@1")).same(&Or::Package(id("pkg://p/a"))));
    assert!(!Or::Package(id("a")).same(&component("a")));
    assert!(component("a").same(&component("a")));
}

#[test]
fn cycles_are_sorted_kept_once_and_collapsed() {
    let x = vec![(component("b"), EdgeType::Build)];
    let y = vec![(component("a"), EdgeType::Test), (component("b"), EdgeType::Build)];
    let z = vec![(component("a"), EdgeType::Build)];
    assert_eq!(compare_routes(&x, &y), Order::Greater);
    assert_eq!(compare_routes(&z, &y), Order::Less);
    assert_eq!(compare_routes(&z, &z), Order::Equal);
    assert_eq!(compare_routes(&vec![], &z), Order::Less);
    let sorted = sort_routes(&vec![x.clone(), y.clone(), z.clone(), y.clone()]);
    assert_eq!(
        texts(&sorted),
        vec![
            "a   --Build-->   ",
            "a   --Test-->   b   --Build-->   ",
            "a   --Test-->   b   --Build-->   ",
            "b   --Build-->   ",
        ]
    );
    assert_eq!(dedup_routes(&sorted).len(), 3);
    let route = vec![
        (component("a"), EdgeType::RuntimeRequire),
        (component("a"), EdgeType::Build),
        (component("b"), EdgeType::RuntimeConditionalFmri),
        (component("a"), EdgeType::Test),
    ];
    assert_eq!(
        format_cycle(&collapse_route(&route)),
        "a   --Build-->   b   --ConditionalFmri-->   a   --Test-->   "
    );
}
