//! The grid of validated samples: construction, lookup, and insertion.

use vstd::prelude::*;
use crate::num::Num;
use crate::math::{
    views_of, strictly_increasing, monotonically_increasing, lower_index,
    lemma_lower_index_unique, insert_pos, lemma_insert_pos_props,
    lemma_insert_keeps_increasing, lemma_views_of_insert, pair_views, batch_insert,
    in_domain_of, interp_at, one_to_one,
};

verus! {

/// Everything that can go wrong while building, extending or querying a grid.
#[derive(Clone, Copy, PartialEq, Eq, Structural, Debug)]
pub enum InterpolationError {
    /// Zero samples were supplied at construction.
    InvalidNumberOfPoints,
    /// A duplicate x coordinate was detected.
    NotOneToOne,
    /// The x coordinates are not strictly increasing.
    NotMonotonicallyIncreasing,
    /// The coordinate sequences differ in length.
    SizeMismatch,
    /// A query coordinate lies outside the grid's domain.
    OutOfBounds,
}

/// One known point: the value `y` at the coordinate `x`.
#[derive(Clone, Copy, PartialEq, Eq, Structural, Debug)]
pub struct Sample {
    pub x: Num,
    pub y: Num,
}

/// The validated samples: `ys[i]` is the value known at coordinate `xs[i]`,
/// and the coordinates are kept strictly increasing, so the mapping is one
/// to one and the bracketing pair of any in-domain query is found by binary
/// search in logarithmically many comparisons.
#[derive(Clone, Debug)]
pub struct InterpolationGrid {
    pub xs: Vec<Num>,
    pub ys: Vec<Num>,
}

impl InterpolationGrid {
    /// The coordinates, as mathematical integers in grid order.
    pub open spec fn x_seq(&self) -> Seq<int> {
        views_of(self.xs@)
    }

    /// The values, as mathematical integers in grid order.
    pub open spec fn y_seq(&self) -> Seq<int> {
        views_of(self.ys@)
    }

    /// The grid's invariant: as many values as coordinates, at least one
    /// sample, and strictly increasing coordinates.
    pub open spec fn wf(&self) -> bool {
        &&& self.xs@.len() == self.ys@.len()
        &&& self.xs@.len() >= 1
        &&& strictly_increasing(self.x_seq())
    }

    /// The smallest coordinate the grid knows.
    pub open spec fn min_x(&self) -> int {
        self.x_seq()[0]
    }

    /// The largest coordinate the grid knows.
    pub open spec fn max_x(&self) -> int {
        self.x_seq()[self.x_seq().len() - 1]
    }

    /// Whether `x` lies in the closed interval the samples cover.
    pub open spec fn in_domain(&self, x: int) -> bool {
        self.min_x() <= x <= self.max_x()
    }

    /// Whether some sample sits exactly at coordinate `x`.
    pub open spec fn has_x(&self, x: int) -> bool {
        self.x_seq().contains(x)
    }

    /// Builds a grid from equal-length, strictly increasing coordinates and
    /// their values. Validation is all-or-nothing: on any failure no grid
    /// exists, and the error names the first check that failed, in the
    /// order: size mismatch, empty input, ordering, duplicate coordinates.
    pub fn init_grid(xs: Vec<Num>, ys: Vec<Num>) -> (r: Result<InterpolationGrid, InterpolationError>)
        ensures
            xs@.len() != ys@.len()
                ==> r == Err::<InterpolationGrid, InterpolationError>(InterpolationError::SizeMismatch),
            xs@.len() == ys@.len() && xs@.len() == 0
                ==> r == Err::<InterpolationGrid, InterpolationError>(InterpolationError::InvalidNumberOfPoints),
            xs@.len() == ys@.len() && xs@.len() >= 1 && !strictly_increasing(views_of(xs@))
                ==> r == Err::<InterpolationGrid, InterpolationError>(InterpolationError::NotMonotonicallyIncreasing),
            xs@.len() == ys@.len() && xs@.len() >= 1 && strictly_increasing(views_of(xs@))
                ==> (r matches Ok(g) && g.wf() && g.x_seq() == views_of(xs@) && g.y_seq() == views_of(ys@)),
    {
        if xs.len() != ys.len() {
            return Err(InterpolationError::SizeMismatch);
        }
        if xs.len() == 0 {
            return Err(InterpolationError::InvalidNumberOfPoints);
        }
        if !monotonically_increasing(&xs) {
            return Err(InterpolationError::NotMonotonicallyIncreasing);
        }
        proof {
            assert forall|i: int, j: int| 0 <= i < j < views_of(xs@).len()
                implies views_of(xs@)[i] != views_of(xs@)[j] by {
                assert(views_of(xs@)[i] < views_of(xs@)[j]);
            }
        }
        create_map(xs, ys)
    }

    /// Exact membership test for a coordinate.
    pub fn contains_x(&self, x: Num) -> (r: bool)
        requires
            self.wf(),
        ensures
            r == self.has_x(x@),
    {
        let n: usize = self.xs.len();
        let mut k: usize = 0;
        while k < n
            invariant
                n == self.xs@.len(),
                k <= n,
                forall|j: int| 0 <= j < k ==> views_of(self.xs@)[j] != x@,
            decreases n - k,
        {
            if self.xs[k].micros() == x.micros() {
                assert(self.x_seq()[k as int] == x@);
                return true;
            }
            k += 1;
        }
        assert(!self.has_x(x@)) by {
            assert(forall|j: int| 0 <= j < self.x_seq().len() ==> self.x_seq()[j] != x@);
        }
        false
    }

    /// The domain extremes: the smallest and largest known coordinate.
    pub fn bounds(&self) -> (r: (Num, Num))
        requires
            self.wf(),
        ensures
            r.0@ == self.min_x(),
            r.1@ == self.max_x(),
    {
        (self.xs[0], self.xs[self.xs.len() - 1])
    }

    /// Binary search for the left end of the bracket: the index of the last
    /// coordinate at or below `x`.
    fn find_lower(&self, x: Num) -> (i: usize)
        requires
            self.wf(),
            self.in_domain(x@),
        ensures
            i < self.xs@.len(),
            i as int == lower_index(self.x_seq(), x@),
            self.x_seq()[i as int] <= x@,
            i as int == self.x_seq().len() - 1 || x@ < self.x_seq()[i as int + 1],
    {
        let n: usize = self.xs.len();
        let mut i1: usize = 0;
        let mut i2: usize = n - 1;
        while i1 != i2
            invariant
                self.wf(),
                n == self.xs@.len(),
                i1 <= i2 < n,
                self.x_seq()[i1 as int] <= x@,
                i2 as int == n - 1 || x@ < self.x_seq()[i2 as int + 1],
            decreases i2 - i1,
        {
            let mid: usize = i1 + (i2 - i1 + 1) / 2;
            if self.xs[mid].le(&x) {
                i1 = mid;
            } else {
                i2 = mid - 1;
            }
        }
        proof {
            lemma_lower_index_unique(self.x_seq(), x@, i1 as int);
        }
        i1
    }

    /// The two adjacent samples whose coordinates enclose `x`, with
    /// `left.x <= x <= right.x`. On an exact hit both ends are the matching
    /// sample; outside the domain the lookup is rejected.
    pub fn bracket(&self, x: Num) -> (r: Result<(Sample, Sample), InterpolationError>)
        requires
            self.wf(),
        ensures
            !self.in_domain(x@)
                ==> r == Err::<(Sample, Sample), InterpolationError>(InterpolationError::OutOfBounds),
            self.in_domain(x@) ==> (r matches Ok(b) && {
                let i = lower_index(self.x_seq(), x@);
                &&& b.0.x@ == self.x_seq()[i]
                &&& b.0.y@ == self.y_seq()[i]
                &&& b.0.x@ <= x@ <= b.1.x@
                &&& (self.x_seq()[i] == x@ ==> b.1 == b.0)
                &&& (self.x_seq()[i] != x@ ==> b.1.x@ == self.x_seq()[i + 1] && b.1.y@ == self.y_seq()[i + 1])
            }),
    {
        if !self.in_x_bounds(x) {
            return Err(InterpolationError::OutOfBounds);
        }
        let n: usize = self.xs.len();
        let i = self.find_lower(x);
        let left = Sample { x: self.xs[i], y: self.ys[i] };
        if self.xs[i].micros() == x.micros() {
            Ok((left, left))
        } else {
            assert(i < n - 1) by {
                assert(self.x_seq()[i as int] != x@);
                assert(self.x_seq()[i as int] <= x@ <= self.x_seq()[n - 1]);
            }
            let right = Sample { x: self.xs[i + 1], y: self.ys[i + 1] };
            Ok((left, right))
        }
    }

    /// Inserts one sample at the position its coordinate orders it to,
    /// re-establishing the invariant. A duplicate coordinate is rejected
    /// and the grid is left exactly as it was.
    pub fn insert(&mut self, x: Num, y: Num) -> (r: Result<(), InterpolationError>)
        requires
            old(self).wf(),
        ensures
            final(self).wf(),
            old(self).has_x(x@) ==> {
                &&& r == Err::<(), InterpolationError>(InterpolationError::NotOneToOne)
                &&& final(self).x_seq() == old(self).x_seq()
                &&& final(self).y_seq() == old(self).y_seq()
            },
            !old(self).has_x(x@) ==> {
                &&& r == Ok::<(), InterpolationError>(())
                &&& final(self).x_seq() == old(self).x_seq().insert(insert_pos(old(self).x_seq(), x@), x@)
                &&& final(self).y_seq() == old(self).y_seq().insert(insert_pos(old(self).x_seq(), x@), y@)
            },
    {
        let n: usize = self.xs.len();
        let mut p: usize = 0;
        while p < n && self.xs[p].lt(&x)
            invariant
                self.wf(),
                *self == *old(self),
                n == self.xs@.len(),
                p <= n,
                forall|j: int| 0 <= j < p ==> views_of(self.xs@)[j] < x@,
            decreases n - p,
        {
            p += 1;
        }
        if p < n && self.xs[p].micros() == x.micros() {
            assert(self.has_x(x@)) by {
                assert(self.x_seq()[p as int] == x@);
            }
            return Err(InterpolationError::NotOneToOne);
        }
        proof {
            let s = self.x_seq();
            assert(forall|j: int| p <= j < s.len() ==> x@ < #[trigger] s[j]) by {
                if (p as int) < s.len() {
                    assert(x@ <= s[p as int]);
                    assert(s[p as int] != x@);
                    assert(forall|j: int| p < j < s.len() ==> s[p as int] < #[trigger] s[j]);
                }
            }
            assert(!self.has_x(x@)) by {
                assert(forall|j: int| 0 <= j < s.len() ==> s[j] != x@);
            }
            lemma_insert_pos_props(s, x@);
            let q = insert_pos(s, x@);
            assert(p as int == q) by {
                if (p as int) < q {
                    assert(s[p as int] < x@);
                } else if q < p as int {
                    assert(x@ <= s[q]);
                    assert(s[q] < x@);
                }
            }
            lemma_insert_keeps_increasing(s, x@);
            lemma_views_of_insert(self.xs@, p as int, x);
            lemma_views_of_insert(self.ys@, p as int, y);
        }
        self.xs.insert(p, x);
        self.ys.insert(p, y);
        Ok(())
    }

    /// Inserts a batch of samples, one at a time and all-or-nothing: if any
    /// coordinate in the batch duplicates one already present (or inserted
    /// earlier in the same batch), the grid is left exactly as it was before
    /// the call and the first failure is reported.
    pub fn insert_many(&mut self, pairs: Vec<(Num, Num)>) -> (r: Result<(), InterpolationError>)
        requires
            old(self).wf(),
        ensures
            final(self).wf(),
            match batch_insert(old(self).x_seq(), old(self).y_seq(), pair_views(pairs@)) {
                Some(seqs) => {
                    &&& r == Ok::<(), InterpolationError>(())
                    &&& final(self).x_seq() == seqs.0
                    &&& final(self).y_seq() == seqs.1
                },
                None => {
                    &&& r == Err::<(), InterpolationError>(InterpolationError::NotOneToOne)
                    &&& final(self).x_seq() == old(self).x_seq()
                    &&& final(self).y_seq() == old(self).y_seq()
                },
            },
    {
        let mut work = InterpolationGrid { xs: copy_nums(&self.xs), ys: copy_nums(&self.ys) };
        let n: usize = pairs.len();
        let mut k: usize = 0;
        proof {
            assert(pair_views(pairs@).skip(0) =~= pair_views(pairs@));
        }
        while k < n
            invariant
                old(self).wf(),
                work.wf(),
                n == pairs@.len(),
                k <= n,
                batch_insert(old(self).x_seq(), old(self).y_seq(), pair_views(pairs@))
                    == batch_insert(work.x_seq(), work.y_seq(), pair_views(pairs@).skip(k as int)),
            decreases n - k,
        {
            let pr = pairs[k];
            proof {
                assert(pair_views(pairs@).skip(k as int)[0] == (pr.0@, pr.1@));
                assert(pair_views(pairs@).skip(k as int).drop_first()
                    =~= pair_views(pairs@).skip(k as int + 1));
            }
            let ghost before = work;
            match work.insert(pr.0, pr.1) {
                Err(e) => {
                    proof {
                        assert(before.has_x(pr.0@));
                        assert(batch_insert(before.x_seq(), before.y_seq(),
                            pair_views(pairs@).skip(k as int)) is None);
                    }
                    return Err(e);
                },
                Ok(()) => {},
            }
            k += 1;
        }
        proof {
            assert(pair_views(pairs@).skip(n as int) =~= Seq::<(int, int)>::empty());
        }
        self.xs = work.xs;
        self.ys = work.ys;
        Ok(())
    }

    /// Whether the query coordinate lies within the domain extremes.
    pub fn in_x_bounds(&self, x: Num) -> (r: bool)
        requires
            self.wf(),
        ensures
            r == self.in_domain(x@),
    {
        let b = self.bounds();
        b.0.le(&x) && x.le(&b.1)
    }
}

/// The capability set every interpolation strategy offers over a grid:
/// evaluating one or many queries without touching the grid, and extending
/// the grid with one or many samples under its atomicity guarantees.
/// Strategies differing only in how they blend the bracketing samples can
/// stand in for one another behind this interface.
pub trait Interpolation: Sized {
    /// The coordinates of the strategy's grid, in order, as integers.
    spec fn sample_xs(&self) -> Seq<int>;

    /// The values of the strategy's grid, in order, as integers.
    spec fn sample_ys(&self) -> Seq<int>;

    /// The strategy's invariant: its grid is well formed.
    spec fn wf(&self) -> bool;

    /// A well formed strategy holds equally many strictly increasing
    /// coordinates and values, and at least one sample.
    proof fn wf_facts(&self)
        requires
            self.wf(),
        ensures
            self.sample_xs().len() == self.sample_ys().len(),
            self.sample_xs().len() >= 1,
            strictly_increasing(self.sample_xs()),
    ;

    /// Evaluates the grid at `x`: the interpolated value when `x` lies in
    /// the domain, and a rejection (never an extrapolation) outside it.
    fn get_value(&self, x: Num) -> (r: Result<Num, InterpolationError>)
        requires
            self.wf(),
        ensures
            in_domain_of(self.sample_xs(), x@)
                ==> (r matches Ok(y) && y@ == interp_at(self.sample_xs(), self.sample_ys(), x@)),
            !in_domain_of(self.sample_xs(), x@)
                ==> r == Err::<Num, InterpolationError>(InterpolationError::OutOfBounds),
    ;

    /// Evaluates the grid at every query in order, failing on the first
    /// out-of-domain query without returning any partial results.
    fn get_values(&self, qs: Vec<Num>) -> (r: Result<Vec<Num>, InterpolationError>)
        requires
            self.wf(),
        ensures
            (forall|j: int| 0 <= j < qs@.len() ==> in_domain_of(self.sample_xs(), #[trigger] views_of(qs@)[j]))
                ==> (r matches Ok(v) && v@.len() == qs@.len()
                    && (forall|j: int| 0 <= j < qs@.len()
                        ==> #[trigger] views_of(v@)[j] == interp_at(self.sample_xs(), self.sample_ys(), views_of(qs@)[j]))),
            (exists|j: int| 0 <= j < qs@.len() && !in_domain_of(self.sample_xs(), #[trigger] views_of(qs@)[j]))
                ==> r == Err::<Vec<Num>, InterpolationError>(InterpolationError::OutOfBounds),
    ;

    /// Inserts one sample into the grid, mirroring the grid's own
    /// guarantees: a duplicate coordinate is rejected and nothing changes.
    fn insert_value(&mut self, x: Num, y: Num) -> (r: Result<(), InterpolationError>)
        requires
            old(self).wf(),
        ensures
            final(self).wf(),
            old(self).sample_xs().contains(x@) ==> {
                &&& r == Err::<(), InterpolationError>(InterpolationError::NotOneToOne)
                &&& final(self).sample_xs() == old(self).sample_xs()
                &&& final(self).sample_ys() == old(self).sample_ys()
            },
            !old(self).sample_xs().contains(x@) ==> {
                &&& r == Ok::<(), InterpolationError>(())
                &&& final(self).sample_xs()
                    == old(self).sample_xs().insert(insert_pos(old(self).sample_xs(), x@), x@)
                &&& final(self).sample_ys()
                    == old(self).sample_ys().insert(insert_pos(old(self).sample_xs(), x@), y@)
            },
    ;

    /// Inserts a batch of samples all-or-nothing, mirroring the grid's own
    /// guarantees: on any duplicate the grid is left exactly as it was.
    fn insert_values(&mut self, pairs: Vec<(Num, Num)>) -> (r: Result<(), InterpolationError>)
        requires
            old(self).wf(),
        ensures
            final(self).wf(),
            match batch_insert(old(self).sample_xs(), old(self).sample_ys(), pair_views(pairs@)) {
                Some(seqs) => {
                    &&& r == Ok::<(), InterpolationError>(())
                    &&& final(self).sample_xs() == seqs.0
                    &&& final(self).sample_ys() == seqs.1
                },
                None => {
                    &&& r == Err::<(), InterpolationError>(InterpolationError::NotOneToOne)
                    &&& final(self).sample_xs() == old(self).sample_xs()
                    &&& final(self).sample_ys() == old(self).sample_ys()
                },
            },
    ;
}

impl PartialEq for InterpolationGrid {
    /// Two grids are equal when they hold the same samples in the same
    /// order.
    fn eq(&self, other: &InterpolationGrid) -> (r: bool) {
        if self.xs.len() != other.xs.len() || self.ys.len() != other.ys.len() {
            proof {
                if self.xs@.len() != other.xs@.len() {
                    assert(self.x_seq().len() != other.x_seq().len());
                } else {
                    assert(self.y_seq().len() != other.y_seq().len());
                }
            }
            return false;
        }
        let n: usize = self.xs.len();
        let mut k: usize = 0;
        while k < n
            invariant
                n == self.xs@.len(),
                n == other.xs@.len(),
                k <= n,
                forall|j: int| 0 <= j < k ==> views_of(self.xs@)[j] == views_of(other.xs@)[j],
            decreases n - k,
        {
            if self.xs[k].micros() != other.xs[k].micros() {
                assert(self.x_seq()[k as int] != other.x_seq()[k as int]);
                return false;
            }
            k += 1;
        }
        let m: usize = self.ys.len();
        let mut k2: usize = 0;
        while k2 < m
            invariant
                m == self.ys@.len(),
                m == other.ys@.len(),
                k2 <= m,
                forall|j: int| 0 <= j < k2 ==> views_of(self.ys@)[j] == views_of(other.ys@)[j],
            decreases m - k2,
        {
            if self.ys[k2].micros() != other.ys[k2].micros() {
                assert(self.y_seq()[k2 as int] != other.y_seq()[k2 as int]);
                return false;
            }
            k2 += 1;
        }
        proof {
            assert(self.x_seq() =~= other.x_seq());
            assert(self.y_seq() =~= other.y_seq());
        }
        true
    }
}

impl vstd::std_specs::cmp::PartialEqSpecImpl for InterpolationGrid {
    open spec fn obeys_eq_spec() -> bool {
        true
    }

    open spec fn eq_spec(&self, other: &InterpolationGrid) -> bool {
        self.x_seq() == other.x_seq() && self.y_seq() == other.y_seq()
    }
}

/// Copies a vector of numbers element by element.
fn copy_nums(v: &Vec<Num>) -> (r: Vec<Num>)
    ensures
        r@ == v@,
{
    let mut r: Vec<Num> = Vec::new();
    let mut k: usize = 0;
    while k < v.len()
        invariant
            k <= v@.len(),
            r@ == v@.subrange(0, k as int),
        decreases v@.len() - k,
    {
        r.push(v[k]);
        proof {
            assert(r@ =~= v@.subrange(0, k as int + 1));
        }
        k += 1;
    }
    proof {
        assert(r@ =~= v@);
    }
    r
}

/// Builds the grid's keyed sample store from the given pairs, in the given
/// order. This is the defensive one-to-one check behind
/// [`InterpolationGrid::init_grid`]: a duplicate coordinate is rejected —
/// never silently overwritten — and exactly that is reported, whatever the
/// ordering of the input. The store is ready for lookups (well formed) when
/// the coordinates were additionally nonempty and strictly increasing,
/// which `init_grid` has validated before calling here.
pub fn create_map(xs: Vec<Num>, ys: Vec<Num>) -> (r: Result<InterpolationGrid, InterpolationError>)
    requires
        xs@.len() == ys@.len(),
    ensures
        !one_to_one(views_of(xs@))
            ==> r == Err::<InterpolationGrid, InterpolationError>(InterpolationError::NotOneToOne),
        one_to_one(views_of(xs@))
            ==> (r matches Ok(g) && g.xs@ == xs@ && g.ys@ == ys@
                && (xs@.len() >= 1 && strictly_increasing(views_of(xs@)) ==> g.wf())),
{
    let n: usize = xs.len();
    let mut i: usize = 0;
    while i < n
        invariant
            n == xs@.len(),
            i <= n,
            forall|a: int, b: int|
                #![trigger views_of(xs@)[a], views_of(xs@)[b]]
                0 <= a < i && a < b < n ==> views_of(xs@)[a] != views_of(xs@)[b],
        decreases n - i,
    {
        let mut j: usize = i + 1;
        while j < n
            invariant
                n == xs@.len(),
                i < j <= n,
                i < n,
                forall|b: int| i < b < j ==> views_of(xs@)[i as int] != #[trigger] views_of(xs@)[b],
            decreases n - j,
        {
            if xs[i].micros() == xs[j].micros() {
                assert(views_of(xs@)[i as int] == views_of(xs@)[j as int]);
                return Err(InterpolationError::NotOneToOne);
            }
            j += 1;
        }
        i += 1;
    }
    Ok(InterpolationGrid { xs, ys })
}

} // verus!
