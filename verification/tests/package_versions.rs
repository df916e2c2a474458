use oi_pkg_checker_core::identifier::Fmri;
use oi_pkg_checker_core::packages::package::Package;
use oi_pkg_checker_core::packages::package_versions::PackageVersions;

fn release(raw: &str, obsolete: bool, renamed: bool) -> Package {
    let mut p = Package::new(Fmri::parse_raw(raw).unwrap());
    p.set_obsolete(obsolete);
    p.set_renamed(renamed);
    p
}

#[test]
fn add_package_1() {
    // set config
    let (obsolete1, renamed1) = (false, false);
    let (obsolete2, renamed2) = (false, false);
    let (obsolete3, renamed3) = (false, false);
    let obsolete = false;

    let mut package_versions = PackageVersions::new(
        Fmri::new_from_package_name("test".to_string())
            .unwrap()
            .clone(),
    );
    package_versions.add_package(release("test@1", obsolete1, renamed1));
    package_versions.add_package(release("test@2", obsolete2, renamed2));
    package_versions.add_package(release("test@3", obsolete3, renamed3));

    assert_eq!(
        package_versions,
        PackageVersions {
            fmri: Fmri::new_from_package_name("test".to_string()).unwrap(),
            obsolete,
            renamed: false,
            packages: vec![release("test@3", obsolete3, renamed3)],
        }
    );
}

#[test]
fn add_package_2() {
    // set config
    let (obsolete1, renamed1) = (false, false);
    let (obsolete2, renamed2) = (false, false);
    let (obsolete3, renamed3) = (true, false);
    let obsolete = true;

    let mut package_versions = PackageVersions::new(
        Fmri::new_from_package_name("test".to_string())
            .unwrap()
            .clone(),
    );
    package_versions.add_package(release("test@1", obsolete1, renamed1));
    package_versions.add_package(release("test@2", obsolete2, renamed2));
    package_versions.add_package(release("test@3", obsolete3, renamed3));

    assert_eq!(
        package_versions,
        PackageVersions {
            fmri: Fmri::new_from_package_name("test".to_string()).unwrap(),
            obsolete,
            renamed: false,
            packages: vec![release("test@2", obsolete2, renamed2)],
        }
    );
}

#[test]
fn add_package_3() {
    // set config
    let (obsolete1, renamed1) = (false, false);
    let (obsolete2, renamed2) = (true, false);
    let (obsolete3, renamed3) = (false, false);
    let obsolete = false;

    let mut package_versions = PackageVersions::new(
        Fmri::new_from_package_name("test".to_string())
            .unwrap()
            .clone(),
    );
    package_versions.add_package(release("test@1", obsolete1, renamed1));
    package_versions.add_package(release("test@2", obsolete2, renamed2));
    package_versions.add_package(release("test@3", obsolete3, renamed3));

    assert_eq!(
        package_versions,
        PackageVersions {
            fmri: Fmri::new_from_package_name("test".to_string()).unwrap(),
            obsolete,
            renamed: false,
            packages: vec![release("test@3", obsolete3, renamed3)],
        }
    );
}

#[test]
fn add_package_4() {
    // set config
    let (obsolete1, renamed1) = (false, false);
    let (obsolete2, renamed2) = (false, true);
    let (obsolete3, renamed3) = (false, false);
    let obsolete = false;

    let mut package_versions = PackageVersions::new(
        Fmri::new_from_package_name("test".to_string())
            .unwrap()
            .clone(),
    );
    package_versions.add_package(release("test@1", obsolete1, renamed1));
    package_versions.add_package(release("test@2", obsolete2, renamed2));
    package_versions.add_package(release("test@3", obsolete3, renamed3));

    assert_eq!(
        package_versions,
        PackageVersions {
            fmri: Fmri::new_from_package_name("test".to_string()).unwrap(),
            obsolete,
            renamed: false,
            packages: vec![release("test@3", obsolete3, renamed3)],
        }
    );
}

#[test]
fn add_package_5() {
    // set config
    let (obsolete1, renamed1) = (false, false);
    let (obsolete2, renamed2) = (false, false);
    let (obsolete3, renamed3) = (false, true);
    let obsolete = false;

    let mut package_versions = PackageVersions::new(
        Fmri::new_from_package_name("test".to_string())
            .unwrap()
            .clone(),
    );
    package_versions.add_package(release("test@1", obsolete1, renamed1));
    package_versions.add_package(release("test@2", obsolete2, renamed2));
    package_versions.add_package(release("test@3", obsolete3, renamed3));

    assert_eq!(
        package_versions,
        PackageVersions {
            fmri: Fmri::new_from_package_name("test".to_string()).unwrap(),
            obsolete,
            renamed: true,
            packages: vec![release("test@3", obsolete3, renamed3)],
        }
    );
}

#[test]
fn newest_release_is_found_and_removed() {
    let mut v = PackageVersions::new(Fmri::parse_raw("pkg://oi/test@9").unwrap());
    assert_eq!(v.fmri_ref(), &Fmri::parse_raw("pkg://oi/test").unwrap());
    assert_eq!(v.get_newer_package(), None);
    v.packages.push(release("test@2", false, false));
    v.packages.push(release("test@3", false, false));
    v.packages.push(release("test@1", false, false));
    v.packages.push(release("test@3:20220101T000000Z", false, true));
    assert_eq!(v.newest(), Some(1));
    assert_eq!(v.get_newer_package(), Some(release("test@3", false, false)));
    v.remove_package(&release("other@3", true, false));
    assert_eq!(
        v.get_packages_ref(),
        &vec![
            release("test@2", false, false),
            release("test@1", false, false),
            release("test@3:20220101T000000Z", false, true)
        ]
    );
    v.remove_package(&release("test@7", false, false));
    assert_eq!(v.get_packages_ref().len(), 3);
    v.set_obsolete(true);
    v.set_renamed(true);
    assert!(v.is_obsolete() && v.is_renamed());
    assert_eq!(v.get_packages().len(), 3);
}

#[test]
fn release_that_cannot_be_taken_is_handed_back() {
    let mut v = PackageVersions::new(Fmri::parse_raw("test").unwrap());
    assert!(v.can_add_package(&release("test@2", false, true)));
    assert_eq!(v.try_add_package(release("test@2", false, true)), Ok(None));
    assert!(!v.can_add_package(&release("test@1", false, false)));
    assert_eq!(
        v.try_add_package(release("test@1", false, false)),
        Err(release("test@1", false, false))
    );
    assert!(!v.can_add_package(&release("test@3", true, true)));
    assert_eq!(
        v.try_add_package(release("test@3", true, true)),
        Err(release("test@3", true, true))
    );
    assert_eq!(v.try_add_package(release("test@2", true, false)), Ok(Some(())));
    assert!(v.is_obsolete());
    assert!(v.is_renamed());
    assert_eq!(v.get_packages_ref(), &vec![release("test@2", false, true)]);
}
