//! A package of which only the newest release is kept.

use vstd::prelude::*;
use crate::identifier::{Fmri, FmriView, Order, fmri_compare};
use crate::packages::components::package_views;
use crate::packages::package::{Package, PackageView};

verus! {

/// The handle of the newest among the first `n` packages: a package is
/// replaced as the newest only by one that compares greater.
pub open spec fn newer_among(packages: Seq<PackageView>, n: int) -> int
    decreases n,
{
    if n <= 1 {
        0
    } else {
        let before = newer_among(packages, n - 1);
        if fmri_compare(packages[before].fmri, packages[n - 1].fmri) == Order::Less {
            n - 1
        } else {
            before
        }
    }
}

/// The handle of the first package at or after `i` whose version compares
/// equal to that of `p`, or the length of the list.
pub open spec fn first_equal(packages: Seq<PackageView>, p: PackageView, i: int) -> int
    decreases packages.len() - i,
{
    if i < 0 || i >= packages.len() {
        packages.len() as int
    } else if fmri_compare(packages[i].fmri, p.fmri) == Order::Equal {
        i
    } else {
        first_equal(packages, p, i + 1)
    }
}

/// The list without the first package whose version compares equal to that
/// of `p`.
pub open spec fn without(packages: Seq<PackageView>, p: PackageView) -> Seq<PackageView> {
    let i = first_equal(packages, p, 0);
    if i < packages.len() {
        packages.remove(i)
    } else {
        packages
    }
}

/// The mathematical content of a package with its newest release.
pub struct PackageVersionsView {
    pub fmri: FmriView,
    pub obsolete: bool,
    pub renamed: bool,
    pub packages: Seq<PackageView>,
}

/// What the record becomes when a release is handed in. An obsolete release
/// marks the record obsolete and is not kept. Any other release takes the
/// place of the newest one kept so far, and the record takes its renamed
/// flag.
pub open spec fn with_release(v: PackageVersionsView, p: PackageView) -> PackageVersionsView {
    if p.obsolete {
        PackageVersionsView { obsolete: true, ..v }
    } else {
        let kept = if v.packages.len() == 0 {
            v.packages
        } else {
            without(v.packages, v.packages[newer_among(v.packages, v.packages.len() as int)])
        };
        PackageVersionsView {
            obsolete: false,
            renamed: p.renamed,
            packages: kept.push(p),
            ..v
        }
    }
}

/// Whether the record can take a release: the release is not both obsolete
/// and renamed, and is not older than the newest release kept.
pub open spec fn can_take(v: PackageVersionsView, p: PackageView) -> bool {
    &&& !(p.obsolete && p.renamed)
    &&& v.packages.len() > 0 ==> fmri_compare(
        p.fmri,
        v.packages[newer_among(v.packages, v.packages.len() as int)].fmri,
    ) != Order::Less
}

/// A package with the newest of its releases. Each release is a package
/// whose identifier carries the version.
#[derive(Debug, PartialEq, Eq)]
pub struct PackageVersions {
    /// The identifier; it holds no version.
    pub fmri: Fmri,
    /// Whether the newest release is obsolete.
    pub obsolete: bool,
    /// Whether the newest release is renamed.
    pub renamed: bool,
    pub packages: Vec<Package>,
}

impl View for PackageVersions {
    type V = PackageVersionsView;

    open spec fn view(&self) -> PackageVersionsView {
        PackageVersionsView {
            fmri: self.fmri@,
            obsolete: self.obsolete,
            renamed: self.renamed,
            packages: package_views(self.packages@),
        }
    }
}

impl PackageVersions {
    /// A record without releases. A version on the identifier is dropped.
    pub fn new(fmri: Fmri) -> (r: Self)
        ensures
            r@ == (PackageVersionsView {
                fmri: FmriView { version: None, ..fmri@ },
                obsolete: false,
                renamed: false,
                packages: Seq::empty(),
            }),
    {
        let mut fmri = fmri;
        if fmri.has_version() {
            fmri.remove_version();
        }
        let r = PackageVersions { fmri, obsolete: false, renamed: false, packages: Vec::new() };
        assert(r@.packages =~= Seq::<PackageView>::empty());
        r
    }

    /// The handle of the newest release kept, if there is one.
    pub fn newest(&self) -> (r: Option<usize>)
        ensures
            match r {
                Some(i) => self@.packages.len() > 0 && i == newer_among(
                    self@.packages,
                    self@.packages.len() as int,
                ) && i < self@.packages.len(),
                None => self@.packages.len() == 0,
            },
    {
        if self.packages.len() == 0 {
            return None;
        }
        let mut best: usize = 0;
        let mut i: usize = 1;
        while i < self.packages.len()
            invariant
                1 <= i <= self.packages.len(),
                best < i,
                best == newer_among(self@.packages, i as int),
            decreases self.packages.len() - i,
        {
            proof {
                assert(self@.packages[i as int] == self.packages@[i as int]@);
                assert(self@.packages[best as int] == self.packages@[best as int]@);
            }
            match self.packages[best].compare(&self.packages[i]) {
                Order::Less => {
                    best = i;
                },
                _ => {},
            }
            i += 1;
        }
        Some(best)
    }

    /// Hands in a release. An obsolete release marks the record obsolete and
    /// is not kept: the result is `Some`. Any other release takes the place
    /// of the newest one kept so far. The release must not be both obsolete
    /// and renamed, nor older than the newest release kept.
    pub fn add_package(&mut self, package: Package) -> (r: Option<()>)
        requires
            can_take(old(self)@, package@),
        ensures
            final(self)@ == with_release(old(self)@, package@),
            r.is_some() == package@.obsolete,
    {
        if package.is_obsolete() {
            self.set_obsolete(true);
            return Some(());
        } else {
            self.set_obsolete(false);
        }
        if package.is_renamed() {
            self.set_renamed(true);
        } else {
            self.set_renamed(false);
        }
        match self.newest() {
            Some(i) => {
                let newest = self.packages[i].clone();
                proof {
                    assert(self@.packages[i as int] == self.packages@[i as int]@);
                }
                self.remove_package(&newest);
            },
            None => {},
        }
        self.packages.push(package);
        proof {
            assert(self@.packages =~= with_release(old(self)@, package@).packages);
        }
        None
    }

    /// Whether the record can take a release: the release is not both
    /// obsolete and renamed, and is not older than the newest release kept.
    pub fn can_add_package(&self, package: &Package) -> (r: bool)
        ensures
            r == can_take(self@, package@),
    {
        if package.is_obsolete() && package.is_renamed() {
            return false;
        }
        match self.newest() {
            None => true,
            Some(i) => {
                proof {
                    assert(self@.packages[i as int] == self.packages@[i as int]@);
                }
                match package.compare(&self.packages[i]) {
                    Order::Less => false,
                    _ => true,
                }
            },
        }
    }

    /// Hands in a release where the record can take it. Where it cannot,
    /// the record stays as it was and the release is handed back.
    pub fn try_add_package(&mut self, package: Package) -> (r: Result<Option<()>, Package>)
        ensures
            match r {
                Ok(o) => can_take(old(self)@, package@) && final(self)@ == with_release(
                    old(self)@,
                    package@,
                ) && o.is_some() == package@.obsolete,
                Err(p) => !can_take(old(self)@, package@) && final(self)@ == old(self)@ && p@
                    == package@,
            },
    {
        if self.can_add_package(&package) {
            Ok(self.add_package(package))
        } else {
            Err(package)
        }
    }

    pub fn fmri(self) -> (r: Fmri)
        ensures
            r@ == self@.fmri,
    {
        self.fmri
    }

    pub fn fmri_ref(&self) -> (r: &Fmri)
        ensures
            r@ == self@.fmri,
    {
        &self.fmri
    }

    pub fn get_packages(self) -> (r: Vec<Package>)
        ensures
            package_views(r@) == self@.packages,
    {
        self.packages
    }

    pub fn get_packages_ref(&self) -> (r: &Vec<Package>)
        ensures
            package_views(r@) == self@.packages,
    {
        &self.packages
    }

    /// The releases kept, to change them in place.
    pub fn get_packages_ref_mut(&mut self) -> (r: &mut Vec<Package>)
        ensures
            *r == old(self).packages,
            *final(self) == (PackageVersions { packages: *final(r), ..*old(self) }),
    {
        &mut self.packages
    }

    pub fn set_obsolete(&mut self, obsolete: bool)
        ensures
            final(self)@ == (PackageVersionsView { obsolete, ..old(self)@ }),
    {
        self.obsolete = obsolete;
    }

    pub fn set_renamed(&mut self, renamed: bool)
        ensures
            final(self)@ == (PackageVersionsView { renamed, ..old(self)@ }),
    {
        self.renamed = renamed;
    }

    pub fn is_obsolete(&self) -> (r: bool)
        ensures
            r == self@.obsolete,
    {
        self.obsolete
    }

    pub fn is_renamed(&self) -> (r: bool)
        ensures
            r == self@.renamed,
    {
        self.renamed
    }

    /// The newest release kept, if there is one.
    pub fn get_newer_package(&self) -> (r: Option<Package>)
        ensures
            match r {
                Some(p) => self@.packages.len() > 0 && p@ == self@.packages[newer_among(
                    self@.packages,
                    self@.packages.len() as int,
                )],
                None => self@.packages.len() == 0,
            },
    {
        match self.newest() {
            Some(i) => {
                proof {
                    assert(self@.packages[i as int] == self.packages@[i as int]@);
                }
                Some(self.packages[i].clone())
            },
            None => None,
        }
    }

    /// Removes the first release whose version compares equal to that of
    /// the given one.
    pub fn remove_package(&mut self, package_to_remove: &Package)
        ensures
            final(self)@ == (PackageVersionsView {
                packages: without(old(self)@.packages, package_to_remove@),
                ..old(self)@
            }),
    {
        let mut i: usize = 0;
        while i < self.packages.len()
            invariant
                i <= self.packages.len(),
                *self == *old(self),
                first_equal(self@.packages, package_to_remove@, 0) == first_equal(
                    self@.packages,
                    package_to_remove@,
                    i as int,
                ),
            decreases self.packages.len() - i,
        {
            proof {
                assert(self@.packages[i as int] == self.packages@[i as int]@);
            }
            match self.packages[i].compare(package_to_remove) {
                Order::Equal => {
                    self.packages.remove(i);
                    proof {
                        assert(self@.packages =~= old(self)@.packages.remove(i as int));
                    }
                    return;
                },
                _ => {},
            }
            i += 1;
        }
    }
}

} // verus!
