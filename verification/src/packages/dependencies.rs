//! Lists of dependencies.

use vstd::prelude::*;
use crate::identifier::{Fmri, FmriView, Order, fmri_compare};
use crate::packages::components::Components;
use crate::packages::depend_types::{DependTypes, DependTypesView, fmri_views};
use crate::packages::dependency::{Dependency, without_publishers};

verus! {

/// The dependencies of a list, as mathematical values.
pub open spec fn dependency_views(s: Seq<Dependency>) -> Seq<DependTypesView> {
    s.map_values(|d: Dependency| d@)
}

/// A dependency on `f` asks for the package `checking` in its version: the
/// names agree, and the version asked for is not greater.
pub open spec fn asks_for(f: FmriView, checking: FmriView) -> bool {
    f.name == checking.name && fmri_compare(f, checking) != Order::Greater
}

/// Whether a dependency needs the package `checking` in its version. An
/// incorporate dependency needs exactly the version it names.
pub open spec fn needs(d: DependTypesView, checking: FmriView) -> bool {
    match d {
        DependTypesView::Require(f) => asks_for(f, checking),
        DependTypesView::Optional(f) => asks_for(f, checking),
        DependTypesView::Incorporate(f) => f.name == checking.name && fmri_compare(f, checking)
            == Order::Equal,
        DependTypesView::RequireAny(l) => exists|i: int| 0 <= i < l.len() && asks_for(#[trigger] l[i], checking),
        DependTypesView::Conditional(f, _) => asks_for(f, checking),
        DependTypesView::Group(f) => asks_for(f, checking),
    }
}

/// The first index at or after `i` of a dependency that needs `checking`, or
/// the length of the list.
pub open spec fn first_need(s: Seq<DependTypesView>, checking: FmriView, i: int) -> int
    decreases s.len() - i,
{
    if i < 0 || i >= s.len() {
        s.len() as int
    } else if needs(s[i], checking) {
        i
    } else {
        first_need(s, checking, i + 1)
    }
}

/// The list with the dependencies of the first `n` entries of `more` that
/// it does not hold yet.
pub open spec fn merged(s: Seq<DependTypesView>, more: Seq<DependTypesView>, n: int) -> Seq<DependTypesView>
    decreases n,
{
    if n <= 0 {
        s
    } else {
        let before = merged(s, more, n - 1);
        if before.contains(more[n - 1]) {
            before
        } else {
            before.push(more[n - 1])
        }
    }
}

impl Components {
    /// Whether a dependency on `fmri` asks for the package `checking_fmri` in
    /// its version: the names agree, and the version asked for is not
    /// greater. The rule goes by the two identifiers alone.
    pub fn check_require_dependency(&self, fmri: &Fmri, checking_fmri: &Fmri) -> (r: bool)
        ensures
            r == asks_for(fmri@, checking_fmri@),
    {
        if fmri.package_name_eq(checking_fmri) {
            match fmri.compare(checking_fmri) {
                Order::Greater => false,
                _ => true,
            }
        } else {
            false
        }
    }
}

impl Components {
    /// Whether one of the identifiers of a list asks for the package
    /// `checking_fmri` in its version.
    pub fn check_require_any(&self, fmri_list: &Vec<Fmri>, checking_fmri: &Fmri) -> (r: bool)
        ensures
            r == exists|k: int|
                0 <= k < fmri_list@.len() && asks_for(
                    #[trigger] fmri_views(fmri_list@)[k],
                    checking_fmri@,
                ),
    {
        let mut j: usize = 0;
        while j < fmri_list.len()
            invariant
                j <= fmri_list.len(),
                forall|k: int|
                    0 <= k < j ==> !asks_for(#[trigger] fmri_views(fmri_list@)[k], checking_fmri@),
            decreases fmri_list.len() - j,
        {
            proof {
                assert(fmri_views(fmri_list@)[j as int] == fmri_list@[j as int]@);
            }
            if self.check_require_dependency(&fmri_list[j], checking_fmri) {
                return true;
            }
            j += 1;
        }
        false
    }
}

impl Components {
    /// Whether a dependency needs the package `checking_fmri` in its
    /// version.
    pub fn check_need(&self, dependency: &DependTypes, checking_fmri: &Fmri) -> (r: bool)
        ensures
            r == needs(dependency@, checking_fmri@),
    {
        match dependency {
            DependTypes::Require(fmri) => self.check_require_dependency(fmri, checking_fmri),
            DependTypes::Optional(fmri) => self.check_require_dependency(fmri, checking_fmri),
            DependTypes::Incorporate(fmri) => {
                if fmri.package_name_eq(checking_fmri) {
                    match fmri.compare(checking_fmri) {
                        Order::Equal => true,
                        _ => false,
                    }
                } else {
                    false
                }
            },
            DependTypes::RequireAny(fmri_list) => {
                let r = self.check_require_any(fmri_list, checking_fmri);
                proof {
                    let l = fmri_views(fmri_list@);
                    if r {
                        let k = choose|k: int|
                            0 <= k < fmri_list@.len() && asks_for(#[trigger] l[k], checking_fmri@);
                        assert(asks_for(l[k], checking_fmri@));
                    }
                }
                r
            },
            DependTypes::Conditional(fmri, _) => self.check_require_dependency(fmri, checking_fmri),
            DependTypes::Group(fmri) => self.check_require_dependency(fmri, checking_fmri),
        }
    }
}

/// A list of dependencies.
#[derive(Debug, PartialEq, Eq)]
pub struct Dependencies(pub Vec<Dependency>);

impl View for Dependencies {
    type V = Seq<DependTypesView>;

    open spec fn view(&self) -> Seq<DependTypesView> {
        dependency_views(self.0@)
    }
}

impl Default for Dependencies {
    fn default() -> (r: Self)
        ensures
            r@ == Seq::<DependTypesView>::empty(),
    {
        Dependencies::new()
    }
}

impl Dependencies {
    /// The empty list.
    pub fn new() -> (r: Self)
        ensures
            r@ == Seq::<DependTypesView>::empty(),
    {
        let r = Dependencies(Vec::new());
        assert(r@ =~= Seq::<DependTypesView>::empty());
        r
    }

    /// A require dependency on each identifier of a list.
    pub fn new_from_fmri_list(fmri_list: Vec<Fmri>) -> (r: Self)
        ensures
            r@ == fmri_views(fmri_list@).map_values(
                |f: FmriView| without_publishers(DependTypesView::Require(f)),
            ),
    {
        let mut dependencies = Dependencies::new();
        let mut i: usize = 0;
        assert(dependencies@.len() == 0);
        while i < fmri_list.len()
            invariant
                i <= fmri_list.len(),
                dependencies.0.len() == i,
                forall|k: int|
                    0 <= k < i ==> (#[trigger] dependencies.0@[k])@ == without_publishers(
                        DependTypesView::Require(fmri_list@[k]@),
                    ),
            decreases fmri_list.len() - i,
        {
            let d = DependTypes::Require(fmri_list[i].clone());
            dependencies.0.push(Dependency::new(&d));
            i += 1;
        }
        proof {
            assert(dependencies@ =~= fmri_views(fmri_list@).map_values(
                |f: FmriView| without_publishers(DependTypesView::Require(f)),
            ));
        }
        dependencies
    }

    /// Appends a dependency.
    pub fn add(&mut self, dependency: Dependency)
        ensures
            final(self)@ == old(self)@.push(dependency@),
    {
        self.0.push(dependency);
        assert(self@ =~= old(self)@.push(dependency@));
    }

    pub fn get(self) -> (r: Vec<Dependency>)
        ensures
            dependency_views(r@) == self@,
    {
        self.0
    }

    pub fn get_ref(&self) -> (r: &Vec<Dependency>)
        ensures
            dependency_views(r@) == self@,
    {
        &self.0
    }

    /// The first dependency of the list that needs the package
    /// `checking_fmri` in its version, if there is one.
    pub fn is_fmri_needed_as_dependency(&self, components: &Components, checking_fmri: &Fmri) -> (r: Option<Dependency>)
        ensures
            match r {
                Some(d) => first_need(self@, checking_fmri@, 0) < self@.len() && d@
                    == self@[first_need(self@, checking_fmri@, 0)],
                None => first_need(self@, checking_fmri@, 0) == self@.len(),
            },
    {
        let mut i: usize = 0;
        while i < self.0.len()
            invariant
                i <= self.0.len(),
                first_need(self@, checking_fmri@, 0) == first_need(self@, checking_fmri@, i as int),
            decreases self.0.len() - i,
        {
            let dependency = &self.0[i];
            proof {
                assert(self@[i as int] == dependency@);
            }
            let needed = components.check_need(dependency.get_ref(), checking_fmri);
            if needed {
                return Some(dependency.clone());
            }
            i += 1;
        }
        None
    }

    /// Whether the list holds a dependency.
    pub fn contains(&self, dependency: &Dependency) -> (r: bool)
        ensures
            r == self@.contains(dependency@),
    {
        let mut i: usize = 0;
        while i < self.0.len()
            invariant
                i <= self.0.len(),
                forall|k: int| 0 <= k < i ==> self@[k] != dependency@,
            decreases self.0.len() - i,
        {
            proof {
                assert(self@[i as int] == self.0@[i as int]@);
            }
            if self.0[i].same(dependency) {
                return true;
            }
            i += 1;
        }
        false
    }

    /// Merges two lists: of the dependencies of `rhs`, those are appended
    /// that the list does not hold yet, so that `[1, 2, 3]` with `[2, 3, 4]`
    /// gives `[1, 2, 3, 4]`.
    pub fn add_assign(&mut self, rhs: Dependencies)
        ensures
            final(self)@ == merged(old(self)@, rhs@, rhs@.len() as int),
    {
        let mut i: usize = 0;
        while i < rhs.0.len()
            invariant
                i <= rhs.0.len(),
                self@ == merged(old(self)@, rhs@, i as int),
            decreases rhs.0.len() - i,
        {
            proof {
                assert(rhs@[i as int] == rhs.0@[i as int]@);
            }
            if !self.contains(&rhs.0[i]) {
                self.add(rhs.0[i].clone());
            }
            i += 1;
        }
    }
}

} // verus!
