use oi_pkg_checker_core::identifier::{publisher_name, Fmri, Order, Version};

#[test]
fn parses_publisher_name_and_version() {
    let f = Fmri::parse_raw("pkg://solaris/system/library@0.5.11-0.175.1.0.0.2.1:20120919T082311Z")
        .unwrap();
    assert_eq!(f.get_publisher_ref(), &Some("solaris".to_owned()));
    assert_eq!(f.get_package_name_as_ref_string(), "system/library");
    assert_eq!(
        f.get_version_ref().as_ref().unwrap().to_string(),
        "@0.5.11-0.175.1.0.0.2.1:20120919T082311Z"
    );
    assert!(f.has_publisher());
    assert!(f.has_version());
}

#[test]
fn parses_identifier_without_publisher_and_version() {
    let f = Fmri::parse_raw("fmri=pkg:/audio/audacity").unwrap();
    assert!(!f.has_publisher());
    assert!(!f.has_version());
    assert_eq!(f.get_package_name_as_string(), "audio/audacity");
}

#[test]
fn prints_identifier_as_it_was_parsed() {
    let raw = "pkg://openindiana.org/library/libvorbis@1.3.7,5.11-2022.0.0.0:20220126T070330Z";
    assert_eq!(Fmri::parse_raw(raw).unwrap().to_string(), raw);
    assert_eq!(Fmri::parse_raw("vim").unwrap().to_string(), "pkg:/vim");
    assert_eq!(Fmri::parse_raw("test@1").unwrap().to_string(), "pkg:/test@1");
}

#[test]
fn refuses_what_the_parser_cannot_take() {
    assert!(Fmri::parse_raw("").is_err());
    assert!(Fmri::parse_raw("pkg:/").is_err());
    assert!(Fmri::parse_raw("@1").is_err());
    assert!(Fmri::parse_raw("xpkg://publisher/name").is_err());
    assert!(Fmri::parse_raw("pkg://publisher").is_err());
    assert!(Fmri::parse_raw("name@x.y").is_err());
    assert!(Fmri::parse_raw("pkg://pu@b/name").is_err());
}

#[test]
fn placeholder_is_the_package_none() {
    assert_eq!(Fmri::none(), Fmri::parse_raw("none").unwrap());
    assert_eq!(Fmri::none().to_string(), "pkg:/none");
}

#[test]
fn key_has_neither_version_nor_publisher() {
    let f = Fmri::parse_raw("pkg://solaris/system/library@0.5.11").unwrap();
    assert_eq!(f.to_key(), Fmri::parse_raw("system/library").unwrap());
    let mut g = Fmri::parse_raw("pkg://solaris/system/library@0.5.11").unwrap();
    g.remove_version();
    assert_eq!(g.to_string(), "pkg://solaris/system/library");
    g.remove_publisher();
    assert_eq!(g, f.to_key());
    g.change_publisher("oi".to_owned());
    g.change_version(Version::new("2".to_owned()).unwrap());
    assert_eq!(g.to_string(), "pkg://oi/system/library@2");
}

#[test]
fn version_is_kept_as_it_prints() {
    assert_eq!(Version::new("1".to_owned()).unwrap().to_string(), "@1");
    assert_eq!(
        Version::new("@2.1.1,5.11-2017.0.0.0:20171212T185746Z".to_owned()).unwrap().to_string(),
        "@2.1.1,5.11-2017.0.0.0:20171212T185746Z"
    );
    assert!(Version::new("a.b".to_owned()).is_err());
    assert!(Version::new("".to_owned()).is_err());
}

#[test]
fn versions_are_ordered_by_component_build_and_branch() {
    let v = |t: &str| Version::new(t.to_owned()).unwrap();
    assert_eq!(v("1.2.3").compare(&v("1.2.4")), Order::Less);
    assert_eq!(v("1.10").compare(&v("1.9")), Order::Greater);
    assert_eq!(v("1.2,5.11-1").compare(&v("1.2,5.11-2")), Order::Less);
    assert_eq!(v("1.2,5.12-1").compare(&v("1.2,5.11-2")), Order::Greater);
    assert_eq!(v("3").compare(&v("3")), Order::Equal);
    assert_eq!(v("3:20220101T000000Z").compare(&v("3:20230101T000000Z")), Order::Equal);
    assert!(!v("3:20220101T000000Z").same(&v("3:20230101T000000Z")));
    assert!(v("@3").same(&v("3")));
}

#[test]
fn identifiers_are_ordered_by_version_alone() {
    let a = Fmri::parse_raw("pkg:/a@1").unwrap();
    let b = Fmri::parse_raw("pkg:/b@2").unwrap();
    let c = Fmri::parse_raw("pkg:/c").unwrap();
    assert_eq!(a.compare(&b), Order::Less);
    assert_eq!(b.compare(&a), Order::Greater);
    assert_eq!(a.compare(&c), Order::Equal);
    assert!(a.package_name_eq(&Fmri::parse_raw("pkg://p/a@7").unwrap()));
    assert!(!a.package_name_eq(&b));
    assert!(a.same(&Fmri::parse_raw("a@1").unwrap()));
    assert!(!a.same(&Fmri::parse_raw("a@2").unwrap()));
}

#[test]
fn package_name_loses_slashes_at_both_ends() {
    assert_eq!(
        Fmri::new_from_package_name("/test/".to_owned()).unwrap(),
        Fmri::new("test".to_owned())
    );
    assert!(Fmri::new_from_package_name("".to_owned()).is_err());
    assert!(Fmri::new_from_package_name("te@st".to_owned()).is_err());
}

#[test]
fn publisher_loses_slashes_at_both_ends() {
    assert_eq!(publisher_name("/openindiana.org/").unwrap(), "openindiana.org");
    assert_eq!(publisher_name("///").unwrap(), "");
    assert!(publisher_name("open@indiana").is_err());
}

#[test]
fn identifier_is_made_of_its_parts() {
    assert_eq!(
        Fmri::from_parts(Some("oi".to_owned()), "a".to_owned(), Some("@1.2".to_owned())).unwrap(),
        Fmri::parse_raw("pkg://oi/a@1.2").unwrap()
    );
    assert_eq!(Fmri::from_parts(None, "a".to_owned(), None).unwrap(), Fmri::new("a".to_owned()));
    assert!(Fmri::from_parts(None, "a".to_owned(), Some("1.2".to_owned())).is_err());
    assert!(Fmri::from_parts(None, "a".to_owned(), Some("@x".to_owned())).is_err());
}
