//! A declared dependency with its identifiers stripped of publishers, as it
//! is compared and reported.

use vstd::prelude::*;
use vstd::string::*;
use crate::identifier::{Fmri, FmriView, none_fmri};
use crate::packages::components::{Components, GraphView, package_index, owner_name};
use crate::packages::depend_types::{DependTypes, DependTypesView, fmri_views};
use crate::packages::dependency_type::DependencyTypes;
use crate::packages::package::{Package, PackageView};
use crate::packages::checks::fully_obsolete;
use crate::problems::{Problem, ProblemView, Problems, problem_views, added_all};

verus! {

/// The identifier without its publisher.
pub open spec fn unpublished(f: FmriView) -> FmriView {
    FmriView { publisher: None, ..f }
}

/// The dependency with every identifier stripped of its publisher.
pub open spec fn without_publishers(d: DependTypesView) -> DependTypesView {
    match d {
        DependTypesView::Require(f) => DependTypesView::Require(unpublished(f)),
        DependTypesView::Optional(f) => DependTypesView::Optional(unpublished(f)),
        DependTypesView::Incorporate(f) => DependTypesView::Incorporate(unpublished(f)),
        DependTypesView::RequireAny(l) => DependTypesView::RequireAny(
            l.map_values(|f: FmriView| unpublished(f)),
        ),
        DependTypesView::Conditional(f, p) => DependTypesView::Conditional(
            unpublished(f),
            unpublished(p),
        ),
        DependTypesView::Group(f) => DependTypesView::Group(unpublished(f)),
    }
}

/// A copy of an identifier without its publisher.
fn strip_publisher(f: &Fmri) -> (r: Fmri)
    ensures
        r@ == unpublished(f@),
{
    let mut r = f.clone();
    r.remove_publisher();
    r
}

/// A depend action whose identifiers hold no publisher.
#[derive(Debug, PartialEq, Eq)]
pub struct Dependency(pub DependTypes);

impl View for Dependency {
    type V = DependTypesView;

    open spec fn view(&self) -> DependTypesView {
        self.0@
    }
}

impl Clone for Dependency {
    fn clone(&self) -> (r: Self)
        ensures
            r@ == self@,
    {
        Dependency(self.0.clone())
    }
}

/// Where a dependency stands with the graph.
#[derive(Clone, Copy, Debug, PartialEq, Eq, Structural)]
pub enum Standing {
    /// The graph knows the package, and it is not obsolete.
    Valid,
    /// The package is obsolete throughout.
    Obsolete,
    /// The package is obsolete, and an older release is still valid.
    PartlyObsolete,
    /// The graph does not know the package.
    Missing,
}

/// Where an identifier stands with the graph.
pub open spec fn standing(g: GraphView, f: FmriView) -> Standing {
    match package_index(g, f.name) {
        None => Standing::Missing,
        Some(p) => if g.packages[p].obsolete {
            if fully_obsolete(g.packages[p]) {
                Standing::Obsolete
            } else {
                Standing::PartlyObsolete
            }
        } else {
            Standing::Valid
        },
    }
}

/// The problem that a dependency of a package is reported as. A dependency
/// declared by a renamed package is reported by the package; any other by the
/// package and, in a context other than runtime, by the component that owns
/// it.
pub open spec fn validity_problem(
    g: GraphView,
    s: Standing,
    d: DependTypesView,
    t: DependencyTypes,
    p: PackageView,
) -> ProblemView {
    let component = if t == DependencyTypes::Runtime {
        Seq::empty()
    } else {
        match owner_name(g, p.fmri.name) {
            Some(name) => name,
            None => Seq::empty(),
        }
    };
    if p.renamed {
        match s {
            Standing::Obsolete => ProblemView::ObsoletedRequiredByRenamed(d, t, p.fmri),
            Standing::PartlyObsolete => ProblemView::PartlyObsoletedRequiredByRenamed(d, t, p.fmri),
            _ => ProblemView::NonExistingRequiredByRenamed(d, t, p.fmri),
        }
    } else {
        match s {
            Standing::Obsolete => ProblemView::ObsoletedRequired(d, t, p.fmri, component),
            Standing::PartlyObsolete => ProblemView::PartlyObsoletedRequired(d, t, p.fmri, component),
            _ => ProblemView::NonExistingRequired(d, t, p.fmri, component),
        }
    }
}

/// The problem of a dependency on one package, if it has one. A package that
/// is only incorporated may be obsolete.
pub open spec fn single_problem(
    g: GraphView,
    f: FmriView,
    d: DependTypesView,
    incorporate: bool,
    t: DependencyTypes,
    p: PackageView,
) -> Seq<ProblemView> {
    match standing(g, f) {
        Standing::Valid => Seq::empty(),
        Standing::Missing => seq![validity_problem(g, Standing::Missing, d, t, p)],
        s => if incorporate {
            Seq::empty()
        } else {
            seq![validity_problem(g, s, d, t, p)]
        },
    }
}

/// The identifiers among the first `n` of a list that stand with the graph
/// as `s` says.
pub open spec fn standing_as(g: GraphView, l: Seq<FmriView>, s: Standing, n: int) -> Seq<FmriView>
    decreases n,
{
    if n <= 0 {
        Seq::empty()
    } else if standing(g, l[n - 1]) == s {
        standing_as(g, l, s, n - 1).push(l[n - 1])
    } else {
        standing_as(g, l, s, n - 1)
    }
}

/// The problem of the packages of a require-any list that stand as `s`
/// says, if there are any.
pub open spec fn any_problem(
    g: GraphView,
    l: Seq<FmriView>,
    s: Standing,
    t: DependencyTypes,
    p: PackageView,
) -> Seq<ProblemView> {
    let part = standing_as(g, l, s, l.len() as int);
    if part.len() == 0 {
        Seq::empty()
    } else {
        seq![validity_problem(g, s, DependTypesView::RequireAny(part), t, p)]
    }
}

/// What is wrong with one dependency of a package: a problem for each
/// package that it names and the graph does not know or knows as obsolete. A
/// require-any dependency gives at most three problems, one for the obsolete
/// packages of its list, one for the partly obsolete and one for the
/// missing. A conditional dependency is checked on both sides, and each
/// problem names one side, with the placeholder for the other.
pub open spec fn validity_problems(g: GraphView, d: DependTypesView, t: DependencyTypes, p: PackageView) -> Seq<ProblemView> {
    match d {
        DependTypesView::Require(f) => single_problem(g, f, d, false, t, p),
        DependTypesView::Optional(f) => single_problem(g, f, d, false, t, p),
        DependTypesView::Incorporate(f) => single_problem(g, f, d, true, t, p),
        DependTypesView::RequireAny(l) => any_problem(g, l, Standing::Obsolete, t, p) + any_problem(
            g,
            l,
            Standing::PartlyObsolete,
            t,
            p,
        ) + any_problem(g, l, Standing::Missing, t, p),
        DependTypesView::Conditional(f, q) => single_problem(
            g,
            f,
            DependTypesView::Conditional(f, none_fmri()),
            false,
            t,
            p,
        ) + single_problem(g, q, DependTypesView::Conditional(none_fmri(), q), false, t, p),
        DependTypesView::Group(f) => single_problem(g, f, d, false, t, p),
    }
}

impl Components {
    /// Where an identifier stands with the graph.
    pub fn standing_of(&self, fmri: &Fmri) -> (r: Standing)
        requires
            self.wf(),
        ensures
            r == standing(self@, fmri@),
    {
        match self.get_package_by_fmri(fmri) {
            Err(_) => Standing::Missing,
            Ok(i) => {
                let packages = self.get_packages();
                proof {
                    assert(self@.packages[i as int] == packages@[i as int]@);
                }
                let package = &packages[i];
                if package.is_obsolete() {
                    proof {
                        if package.versions.len() > 0 {
                            assert(package@.versions[0] == package.versions@[0]@);
                        }
                    }
                    if package.versions.len() == 0 || package.versions[0].is_obsolete() {
                        Standing::Obsolete
                    } else {
                        Standing::PartlyObsolete
                    }
                } else {
                    Standing::Valid
                }
            },
        }
    }

    /// The problem that a dependency of a package is reported as.
    fn validity_problem_of(&self, s: Standing, d: DependTypes, t: DependencyTypes, package: &Package) -> (r: Problem)
        requires
            self.wf(),
        ensures
            r@ == validity_problem(self@, s, d@, t, package@),
    {
        let component = match t {
            DependencyTypes::Runtime => String::new(),
            _ => match self.owner_of(&package.fmri) {
                Some(name) => name.clone(),
                None => String::new(),
            },
        };
        let by = package.fmri.clone();
        if package.is_renamed() {
            match s {
                Standing::Obsolete => Problem::ObsoletedRequiredByRenamed(d, t, by),
                Standing::PartlyObsolete => Problem::PartlyObsoletedRequiredByRenamed(d, t, by),
                _ => Problem::NonExistingRequiredByRenamed(d, t, by),
            }
        } else {
            match s {
                Standing::Obsolete => Problem::ObsoletedRequired(d, t, by, component),
                Standing::PartlyObsolete => Problem::PartlyObsoletedRequired(d, t, by, component),
                _ => Problem::NonExistingRequired(d, t, by, component),
            }
        }
    }

    /// The problem of a dependency on one package, if it has one.
    fn single_problem_into(
        &self,
        found: &mut Vec<Problem>,
        fmri: &Fmri,
        d: DependTypes,
        incorporate: bool,
        t: DependencyTypes,
        package: &Package,
    )
        requires
            self.wf(),
        ensures
            problem_views(final(found)@) == problem_views(old(found)@) + single_problem(
                self@,
                fmri@,
                d@,
                incorporate,
                t,
                package@,
            ),
    {
        let ghost start = problem_views(found@);
        let s = self.standing_of(fmri);
        let report = match s {
            Standing::Valid => false,
            Standing::Missing => true,
            _ => !incorporate,
        };
        if report {
            let problem = self.validity_problem_of(s, d, t, package);
            found.push(problem);
            proof {
                assert(problem_views(found@) =~= start + seq![problem@]);
            }
        } else {
            proof {
                assert(start + Seq::<ProblemView>::empty() =~= start);
            }
        }
    }

    /// The problem of the packages of a require-any list that stand as `s`
    /// says, if there are any.
    fn any_problem_into(
        &self,
        found: &mut Vec<Problem>,
        list: &Vec<Fmri>,
        s: Standing,
        t: DependencyTypes,
        package: &Package,
    )
        requires
            self.wf(),
        ensures
            problem_views(final(found)@) == problem_views(old(found)@) + any_problem(
                self@,
                fmri_views(list@),
                s,
                t,
                package@,
            ),
    {
        let ghost start = problem_views(found@);
        let ghost l = fmri_views(list@);
        let mut part: Vec<Fmri> = Vec::new();
        let mut i: usize = 0;
        proof {
            assert(fmri_views(part@) =~= standing_as(self@, l, s, 0));
        }
        while i < list.len()
            invariant
                i <= list.len(),
                self.wf(),
                l == fmri_views(list@),
                fmri_views(part@) == standing_as(self@, l, s, i as int),
            decreases list.len() - i,
        {
            proof {
                assert(l[i as int] == list@[i as int]@);
            }
            if self.standing_of(&list[i]) == s {
                let ghost before = part@;
                part.push(list[i].clone());
                proof {
                    assert(fmri_views(part@) =~= fmri_views(before).push(l[i as int]));
                }
            }
            i += 1;
        }
        if part.len() > 0 {
            proof {
                assert(fmri_views(part@).len() > 0);
            }
            let problem = self.validity_problem_of(s, DependTypes::RequireAny(part), t, package);
            found.push(problem);
            proof {
                assert(problem_views(found@) =~= start + seq![problem@]);
            }
        } else {
            proof {
                assert(fmri_views(part@).len() == 0);
                assert(start + Seq::<ProblemView>::empty() =~= start);
            }
        }
    }
}

impl Dependency {
    /// Takes a depend action and strips its identifiers of their publishers.
    pub fn new(d_type: &DependTypes) -> (r: Self)
        ensures
            r@ == without_publishers(d_type@),
    {
        Dependency(
            match d_type {
                DependTypes::Require(f) => DependTypes::Require(strip_publisher(f)),
                DependTypes::Optional(f) => DependTypes::Optional(strip_publisher(f)),
                DependTypes::Incorporate(f) => DependTypes::Incorporate(strip_publisher(f)),
                DependTypes::RequireAny(l) => {
                    let mut out: Vec<Fmri> = Vec::new();
                    let mut i: usize = 0;
                    while i < l.len()
                        invariant
                            i <= l.len(),
                            out.len() == i,
                            forall|k: int| 0 <= k < i ==> (#[trigger] out@[k])@ == unpublished(l@[k]@),
                        decreases l.len() - i,
                    {
                        out.push(strip_publisher(&l[i]));
                        i += 1;
                    }
                    proof {
                        assert(fmri_views(out@) =~= fmri_views(l@).map_values(
                            |f: FmriView| unpublished(f),
                        ));
                    }
                    DependTypes::RequireAny(out)
                },
                DependTypes::Conditional(f, p) => DependTypes::Conditional(
                    strip_publisher(f),
                    strip_publisher(p),
                ),
                DependTypes::Group(f) => DependTypes::Group(strip_publisher(f)),
            },
        )
    }

    pub fn get(self) -> (r: DependTypes)
        ensures
            r@ == self@,
    {
        self.0
    }

    pub fn get_ref(&self) -> (r: &DependTypes)
        ensures
            r@ == self@,
    {
        &self.0
    }

    /// The depend action, to change it in place.
    pub fn get_ref_mut(&mut self) -> (r: &mut DependTypes)
        ensures
            *r == old(self).0,
            final(self).0 == *final(r),
    {
        &mut self.0
    }

    /// Whether both are the same dependency.
    pub fn same(&self, other: &Dependency) -> (r: bool)
        ensures
            r == (self@ == other@),
    {
        self.0.same(&other.0)
    }

    /// Checks the dependency, declared by `package` in the context
    /// `dependency_type`, against the graph, and hands what is wrong with it
    /// to the list of problems.
    pub fn check_dependency_validity(
        &self,
        components: &Components,
        problems: &mut Problems,
        package: &Package,
        dependency_type: DependencyTypes,
    )
        requires
            components.wf(),
        ensures
            final(problems)@ == added_all(
                old(problems)@,
                validity_problems(components@, self@, dependency_type, package@),
            ),
    {
        let mut found: Vec<Problem> = Vec::new();
        let t = dependency_type;
        proof {
            assert(problem_views(found@) =~= Seq::<ProblemView>::empty());
        }
        match &self.0 {
            DependTypes::Require(f) => {
                components.single_problem_into(&mut found, f, self.0.clone(), false, t, package);
            },
            DependTypes::Optional(f) => {
                components.single_problem_into(&mut found, f, self.0.clone(), false, t, package);
            },
            DependTypes::Incorporate(f) => {
                components.single_problem_into(&mut found, f, self.0.clone(), true, t, package);
            },
            DependTypes::RequireAny(l) => {
                components.any_problem_into(&mut found, l, Standing::Obsolete, t, package);
                components.any_problem_into(&mut found, l, Standing::PartlyObsolete, t, package);
                components.any_problem_into(&mut found, l, Standing::Missing, t, package);
            },
            DependTypes::Conditional(f, q) => {
                components.single_problem_into(
                    &mut found,
                    f,
                    DependTypes::Conditional(f.clone(), Fmri::none()),
                    false,
                    t,
                    package,
                );
                components.single_problem_into(
                    &mut found,
                    q,
                    DependTypes::Conditional(Fmri::none(), q.clone()),
                    false,
                    t,
                    package,
                );
            },
            DependTypes::Group(f) => {
                components.single_problem_into(&mut found, f, self.0.clone(), false, t, package);
            },
        }
        proof {
            assert(problem_views(found@) =~= validity_problems(
                components@,
                self@,
                dependency_type,
                package@,
            ));
        }
        let ghost all = problem_views(found@);
        let mut i: usize = 0;
        while i < found.len()
            invariant
                i <= found.len(),
                all == problem_views(found@),
                problems@ == added_all(old(problems)@, all.take(i as int)),
            decreases found.len() - i,
        {
            proof {
                assert(all.take(i + 1).drop_last() =~= all.take(i as int));
                assert(all.take(i + 1).last() == found@[i as int]@);
            }
            problems.add_problem(found[i].clone());
            i += 1;
        }
        proof {
            assert(all.take(found@.len() as int) =~= all);
        }
    }
}

} // verus!
