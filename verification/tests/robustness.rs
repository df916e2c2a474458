use oi_pkg_checker_core::assets::catalogs_c::parse_action;
use oi_pkg_checker_core::assets::open_indiana_oi_userland_git::parse_history_line;
use oi_pkg_checker_core::identifier::{publisher_name, Fmri, Version};

fn sequences(tokens: &[&str], longest: usize) -> Vec<String> {
    let mut all = vec![String::new()];
    let mut last = vec![String::new()];
    for _ in 0..longest {
        let mut next = Vec::new();
        for s in &last {
            for t in tokens {
                next.push(format!("{}{}", s, t));
            }
        }
        all.extend(next.iter().cloned());
        last = next;
    }
    all
}

#[test]
fn identifier_parser_takes_every_text() {
    let tokens = ["fmri=", "pkg://", "pkg:/", "/", "@", "a", "1", ":", ",", "-", ".", " "];
    let mut parsed = 0;
    for raw in sequences(&tokens, 5) {
        if let Ok(f) = Fmri::parse_raw(&raw) {
            parsed += 1;
            let again = fmri::FMRI::parse_raw(&raw).unwrap();
            assert_eq!(f.to_string(), again.to_string(), "{:?}", raw);
            assert_eq!(f.get_package_name_as_ref_string(), again.get_package_name_as_ref_string());
            assert_eq!(f.has_publisher(), again.has_publisher());
            assert_eq!(f.has_version(), again.has_version());
        }
    }
    assert!(parsed > 1000);
}

#[test]
fn version_parser_takes_every_text() {
    let tokens = ["@", "1", "10", ".", ",", "-", ":", "T", "+", " ", "é"];
    let mut parsed = 0;
    for raw in sequences(&tokens, 5) {
        if let Ok(v) = Version::new(raw.clone()) {
            parsed += 1;
            let again = fmri::Version::new(raw.clone()).unwrap();
            assert_eq!(v.to_string(), again.to_string(), "{:?}", raw);
            assert_eq!(Version::new(v.to_string()).unwrap(), v);
        }
    }
    assert!(parsed > 100);
}

#[test]
fn versions_compare_as_the_parsed_versions_do() {
    let texts = [
        "1", "2", "1.0", "1.1", "1.10", "1,5", "1,6", "1-1", "1-2", "1,5-1", "1,4-3", "1:a", "2,1-0:b",
        "0.5.11-2017.0.0.16778", "0.5.11,5.11-2017.0.0.16778:20171212T185746Z",
    ];
    for a in texts {
        for b in texts {
            let expected = fmri::Version::new(a.to_owned())
                .unwrap()
                .cmp(&fmri::Version::new(b.to_owned()).unwrap());
            let found = Version::new(a.to_owned())
                .unwrap()
                .compare(&Version::new(b.to_owned()).unwrap());
            assert_eq!(format!("{:?}", found), format!("{:?}", expected), "{} {}", a, b);
        }
    }
}

#[test]
fn names_lose_slashes_as_the_parser_drops_them() {
    let tokens = ["/", "a", "//", "b/c", "@"];
    for raw in sequences(&tokens, 4) {
        let expected = raw.trim_start_matches('/').trim_end_matches('/').to_owned();
        match publisher_name(&raw) {
            Ok(p) => {
                assert!(!raw.contains('@'));
                assert_eq!(p, expected, "{:?}", raw);
            }
            Err(_) => assert!(raw.contains('@')),
        }
        match Fmri::new_from_package_name(raw.clone()) {
            Ok(f) => {
                assert!(!raw.is_empty() && !raw.contains('@'));
                assert_eq!(f.get_package_name_as_ref_string(), &expected, "{:?}", raw);
            }
            Err(_) => assert!(raw.is_empty() || raw.contains('@')),
        }
    }
}

#[test]
fn action_and_history_parsers_take_every_text() {
    let tokens =
        ["set", "depend", " ", "name=", "value=", "fmri=", "type=", "predicate=", "pkg.obsolete",
         "true", "require", "a", "@", "=", "\t", "noincorporate", "pkg:/"];
    for raw in sequences(&tokens, 4) {
        let _ = parse_action(raw.clone());
        let _ = parse_history_line(&raw);
    }
}
