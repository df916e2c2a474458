use oi_pkg_checker_core::assets::catalogs_c::{
    load_catalog_package, load_package, load_release, parse_action, parse_depend, parse_set,
    Attribute, Attributes, CatalogVersion, Name, ParsedAction,
};
use oi_pkg_checker_core::identifier::Fmri;
use oi_pkg_checker_core::packages::components::Components;
use oi_pkg_checker_core::packages::depend_types::DependTypes;

fn id(raw: &str) -> Fmri {
    Fmri::parse_raw(raw).unwrap()
}

fn entry(version: &str, actions: &[&str]) -> CatalogVersion {
    CatalogVersion {
        version: version.to_owned(),
        actions: actions.iter().map(|a| a.to_string()).collect(),
    }
}

#[test]
fn set_action_marks_a_release() {
    assert_eq!(parse_set("set name=pkg.obsolete value=true".to_owned()), Ok(Name::Obsolete));
    assert_eq!(parse_set("set name=pkg.renamed value=true".to_owned()), Ok(Name::Renamed));
    assert_eq!(parse_set("set value=true name=pkg.renamed".to_owned()), Ok(Name::Renamed));
    assert_eq!(parse_set("set name=pkg.obsolete value=false".to_owned()), Ok(Name::Other));
    assert_eq!(parse_set("set name=pkg.summary value=editor".to_owned()), Ok(Name::Other));
    assert_eq!(parse_set("set name=pkg.summary".to_owned()), Ok(Name::Other));
    assert_eq!(parse_set("setset\tname=pkg.obsolete \n value=true  ".to_owned()), Ok(Name::Obsolete));
    assert_eq!(
        parse_set("set name=first name=pkg.obsolete value=true".to_owned()),
        Ok(Name::Other)
    );
}

#[test]
fn set_action_that_does_not_parse_is_an_error() {
    assert_eq!(
        parse_set("depend name=pkg.obsolete value=true".to_owned()).unwrap_err(),
        "trying to parse set action, but it is not set"
    );
    assert_eq!(
        parse_set("set value=true".to_owned()).unwrap_err(),
        "failed to get name attribute"
    );
    assert_eq!(
        parse_set("set name=pkg.obsolete".to_owned()).unwrap_err(),
        "failed to get value attribute"
    );
    assert_eq!(
        parse_set("set name=pkg.renamed".to_owned()).unwrap_err(),
        "failed to get value attribute"
    );
    assert_eq!(
        parse_set("set name=pkg.obsolete value".to_owned()).unwrap_err(),
        "failed to parse attributes: expected attribute, but it isn't! (attribute has \"=\")"
    );
    assert!(parse_set("set name=x fmri=@1".to_owned()).is_err());
}

#[test]
fn attributes_are_read_word_by_word() {
    let a = Attributes::parse_attributes(
        " fmri=pkg:/a@1 type=require name=n value=v=w predicate=pkg:/p other=x ".to_owned(),
    )
    .unwrap();
    assert_eq!(
        a.0,
        vec![
            Attribute::Fmri(id("a@1")),
            Attribute::DType("require".to_owned()),
            Attribute::Name("n".to_owned()),
            Attribute::Value("v=w".to_owned()),
            Attribute::Predicate(id("p")),
            Attribute::Other,
        ]
    );
    assert_eq!(a.get_type_from_attributes(), Some(&"require".to_owned()));
    assert_eq!(a.get_name_from_attributes(), Some(&"n".to_owned()));
    assert_eq!(a.get_value_from_attributes(), Some(&"v=w".to_owned()));
    assert_eq!(a.get_fmri_from_attributes(), Some(id("a@1")));
    assert_eq!(a.get_predicate_from_attributes(), Some(id("p")));
    let empty = Attributes::parse_attributes("   ".to_owned()).unwrap();
    assert!(empty.0.is_empty());
    assert_eq!(empty.get_type_from_attributes(), None);
    assert_eq!(empty.get_fmri_from_attributes(), None);
}

#[test]
fn depend_action_declares_a_dependency() {
    assert_eq!(
        parse_depend(
            "depend fmri=pkg:/system/library@0.5.11-2017.0.0.16778 type=require".to_owned()
        ),
        Ok(DependTypes::Require(id("pkg:/system/library@0.5.11-2017.0.0.16778")))
    );
    assert_eq!(
        parse_depend("depend type=optional fmri=a".to_owned()),
        Ok(DependTypes::Optional(id("a")))
    );
    assert_eq!(
        parse_depend("depend fmri=a@1 type=incorporate".to_owned()),
        Ok(DependTypes::Incorporate(id("a@1")))
    );
    assert_eq!(
        parse_depend("depend fmri=a fmri=b type=require-any fmri=c".to_owned()),
        Ok(DependTypes::RequireAny(vec![id("a"), id("b"), id("c")]))
    );
    assert_eq!(
        parse_depend("depend fmri=a predicate=p type=conditional".to_owned()),
        Ok(DependTypes::Conditional(id("a"), id("p")))
    );
    assert_eq!(
        parse_depend("depend fmri=a type=group".to_owned()),
        Ok(DependTypes::Group(id("a")))
    );
    assert_eq!(
        parse_depend("depend fmri=a fmri=b type=require".to_owned()),
        Ok(DependTypes::Require(id("a")))
    );
}

#[test]
fn depend_action_that_does_not_parse_is_an_error() {
    assert_eq!(
        parse_depend("set fmri=a type=require".to_owned()).unwrap_err(),
        "trying to parse depend action, but it is not depend"
    );
    assert_eq!(
        parse_depend("depend fmri=a".to_owned()).unwrap_err(),
        "failed to get type attribute"
    );
    assert_eq!(
        parse_depend("depend type=require".to_owned()).unwrap_err(),
        "failed to get fmri attribute"
    );
    assert_eq!(
        parse_depend("depend type=require-any".to_owned()).unwrap_err(),
        "cant find fmri attribute in require-any depend"
    );
    assert_eq!(
        parse_depend("depend fmri=a type=conditional".to_owned()).unwrap_err(),
        "failed to get predicate attribute"
    );
    assert_eq!(
        parse_depend("depend predicate=a type=conditional".to_owned()).unwrap_err(),
        "failed to get fmri attribute"
    );
    assert_eq!(
        parse_depend("depend fmri=a type=exclude".to_owned()).unwrap_err(),
        "unknown depend type: exclude"
    );
    assert!(parse_depend("depend fmri=pkg:/ type=require".to_owned()).is_err());
}

#[test]
fn action_is_a_depend_or_a_set_action() {
    assert_eq!(
        parse_action("depend fmri=a type=require".to_owned()),
        Ok(ParsedAction::Dependency(DependTypes::Require(id("a"))))
    );
    assert_eq!(
        parse_action("set name=pkg.obsolete value=true".to_owned()),
        Ok(ParsedAction::Obsolete)
    );
    assert_eq!(
        parse_action("set name=pkg.renamed value=true".to_owned()),
        Ok(ParsedAction::Renamed)
    );
    assert_eq!(parse_action("set name=pkg.fmri value=x".to_owned()), Ok(ParsedAction::Other));
    assert_eq!(
        parse_action("file path=usr/bin/vim".to_owned()).unwrap_err(),
        "other unknown action: file path=usr/bin/vim"
    );
    assert_eq!(
        parse_action("depend fmri=a".to_owned()).unwrap_err(),
        "failed to parse depend action: failed to get type attribute"
    );
    assert_eq!(
        parse_action("set value=x".to_owned()).unwrap_err(),
        "failed to parse set action: failed to get name attribute"
    );
}

#[test]
fn release_is_read_from_its_actions() {
    let r = load_release(&entry(
        "1.2,5.11-2022.0.0.1:20220126T070330Z",
        &[
            "depend fmri=pkg:/b type=require",
            "set name=pkg.summary value=x",
            "set name=pkg.renamed value=true",
            "depend fmri=pkg:/c@1 type=optional",
        ],
    ))
    .unwrap();
    assert_eq!(r.get_version().to_string(), "@1.2,5.11-2022.0.0.1:20220126T070330Z");
    assert_eq!(
        r.get_runtime_dependencies(),
        &vec![DependTypes::Require(id("b")), DependTypes::Optional(id("c@1"))]
    );
    assert!(r.is_renamed());
    assert!(!r.is_obsolete());
    assert!(load_release(&entry("1", &["file path=x"])).is_err());
    assert!(load_release(&entry("one", &[])).is_err());
}

#[test]
fn package_is_read_with_its_publisher() {
    let p = load_package(
        "openindiana.org",
        "editor/vim",
        &vec![
            entry("1", &["depend fmri=pkg:/b type=require"]),
            entry("2", &["set name=pkg.obsolete value=true"]),
            entry("2", &["depend fmri=pkg:/ignored type=require"]),
        ],
    )
    .unwrap();
    assert_eq!(p.get_fmri(), &id("pkg://openindiana.org/editor/vim"));
    assert_eq!(p.get_versions().len(), 2);
    assert!(p.is_obsolete());
    assert!(!p.is_renamed());
    assert!(load_package("open@indiana", "vim", &vec![]).is_err());
    assert!(load_package("oi", "pkg:/", &vec![]).is_err());
    assert!(load_package(
        "oi",
        "vim",
        &vec![entry("1", &["set name=pkg.obsolete value=true", "set name=pkg.renamed value=true"])]
    )
    .is_err());
}

#[test]
fn package_of_a_catalog_is_merged_into_the_graph() {
    let mut c = Components::new();
    load_catalog_package(&mut c, "oi", "vim", &vec![entry("1", &[])]).unwrap();
    load_catalog_package(&mut c, "other", "vim", &vec![entry("1", &[]), entry("2", &[])]).unwrap();
    assert!(load_catalog_package(&mut c, "oi", "emacs", &vec![entry("x", &[])]).is_err());
    assert_eq!(c.get_packages().len(), 1);
    assert_eq!(c.get_packages()[0].get_versions().len(), 2);
    assert_eq!(c.get_packages()[0].get_fmri(), &id("pkg://oi/vim"));
}

#[test]
fn attributes_say_what_an_action_means() {
    let a = Attributes(vec![
        Attribute::Name("pkg.renamed".to_owned()),
        Attribute::Other,
        Attribute::Value("true".to_owned()),
        Attribute::Value("false".to_owned()),
    ]);
    assert_eq!(a.set_meaning(), Ok(Name::Renamed));
    assert_eq!(a.depend_meaning().unwrap_err(), "failed to get type attribute");
    let d = Attributes(vec![
        Attribute::Predicate(id("p")),
        Attribute::DType("conditional".to_owned()),
        Attribute::Fmri(id("a")),
        Attribute::Fmri(id("b")),
    ]);
    assert_eq!(d.depend_meaning(), Ok(DependTypes::Conditional(id("a"), id("p"))));
    assert_eq!(d.get_fmris_from_attributes(), vec![id("a"), id("b")]);
    assert_eq!(d.set_meaning().unwrap_err(), "failed to get name attribute");
}
