//! The ordering predicate over sample coordinates, with the specification
//! functions and lemmas that the grid's contracts are stated over.

use vstd::prelude::*;
use crate::num::Num;

verus! {

/// The sequence of views of a sequence of numbers.
pub open spec fn views_of(s: Seq<Num>) -> Seq<int> {
    Seq::new(s.len(), |i: int| s[i]@)
}

/// Every element is strictly below every later element.
pub open spec fn strictly_increasing(s: Seq<int>) -> bool {
    forall|i: int, j: int| 0 <= i < j < s.len() ==> s[i] < s[j]
}

/// No two elements are equal: the sequence maps positions to values one to
/// one, whatever order the values come in.
pub open spec fn one_to_one(s: Seq<int>) -> bool {
    forall|i: int, j: int| 0 <= i < j < s.len() ==> s[i] != s[j]
}

/// A strict increase between every pair of elements follows from a strict
/// increase between every pair of consecutive elements.
pub proof fn lemma_adjacent_implies_pairwise(s: Seq<int>)
    requires
        forall|i: int| 0 <= i < s.len() - 1 ==> #[trigger] s[i] < s[i + 1],
    ensures
        strictly_increasing(s),
{
    assert forall|i: int, j: int| 0 <= i < j < s.len() implies s[i] < s[j] by {
        lemma_increase_chains(s, i, j);
    }
}

proof fn lemma_increase_chains(s: Seq<int>, i: int, j: int)
    requires
        forall|k: int| 0 <= k < s.len() - 1 ==> #[trigger] s[k] < s[k + 1],
        0 <= i < j < s.len(),
    ensures
        s[i] < s[j],
    decreases j - i,
{
    if i + 1 < j {
        lemma_increase_chains(s, i, j - 1);
        assert(s[j - 1] < s[j]);
    } else {
        assert(s[i] < s[i + 1]);
    }
}

/// The index of the last element at or below `x`: the left end of the
/// bracket around `x` in a strictly increasing sequence that starts at or
/// below `x`.
pub open spec fn lower_index(s: Seq<int>, x: int) -> int
    recommends
        s.len() >= 1,
        s[0] <= x,
    decreases s.len(),
{
    if s.len() <= 1 {
        0
    } else if s[s.len() - 1] <= x {
        s.len() - 1
    } else {
        lower_index(s.drop_last(), x)
    }
}

/// What `lower_index` returns: an index into the sequence whose element is
/// at or below `x`, and whose successor (if any) is above `x`.
pub proof fn lemma_lower_index_props(s: Seq<int>, x: int)
    requires
        strictly_increasing(s),
        s.len() >= 1,
        s[0] <= x,
    ensures
        0 <= lower_index(s, x) < s.len(),
        s[lower_index(s, x)] <= x,
        lower_index(s, x) < s.len() - 1 ==> x < s[lower_index(s, x) + 1],
        x < s[s.len() - 1] ==> lower_index(s, x) < s.len() - 1,
    decreases s.len(),
{
    if s.len() <= 1 {
    } else if s[s.len() - 1] <= x {
    } else {
        let t = s.drop_last();
        assert(t.len() == s.len() - 1);
        assert(forall|i: int| 0 <= i < t.len() ==> t[i] == s[i]);
        lemma_lower_index_props(t, x);
        let li = lower_index(t, x);
        if li == t.len() - 1 {
            assert(x < s[li + 1]);
        }
    }
}

/// Only one index can sit at or below `x` with its successor above `x`, so
/// any index with those properties is `lower_index`.
pub proof fn lemma_lower_index_unique(s: Seq<int>, x: int, i: int)
    requires
        strictly_increasing(s),
        s.len() >= 1,
        s[0] <= x,
        0 <= i < s.len(),
        s[i] <= x,
        i == s.len() - 1 || x < s[i + 1],
    ensures
        i == lower_index(s, x),
    decreases s.len(),
{
    if s.len() <= 1 {
    } else if s[s.len() - 1] <= x {
        if i < s.len() - 1 {
            assert(s[i + 1] <= s[s.len() - 1]);
        }
    } else {
        let t = s.drop_last();
        assert(forall|i: int| 0 <= i < t.len() ==> t[i] == s[i]);
        assert(i < s.len() - 1) by {
            assert(s[i] <= x);
            assert(x < s[s.len() - 1]);
        }
        lemma_lower_index_unique(t, x, i);
    }
}

/// Where a fresh coordinate `x` belongs in a strictly increasing sequence:
/// the count of elements below `x`.
pub open spec fn insert_pos(s: Seq<int>, x: int) -> int
    decreases s.len(),
{
    if s.len() == 0 {
        0
    } else if s[0] < x {
        1 + insert_pos(s.drop_first(), x)
    } else {
        0
    }
}

/// What `insert_pos` returns: a position such that everything before it is
/// below `x` and everything at or after it is at or above `x`.
pub proof fn lemma_insert_pos_props(s: Seq<int>, x: int)
    requires
        strictly_increasing(s),
    ensures
        0 <= insert_pos(s, x) <= s.len(),
        forall|j: int| 0 <= j < insert_pos(s, x) ==> s[j] < x,
        forall|j: int| insert_pos(s, x) <= j < s.len() ==> x <= s[j],
    decreases s.len(),
{
    if s.len() == 0 {
    } else if s[0] < x {
        let t = s.drop_first();
        assert(forall|i: int| 0 <= i < t.len() ==> t[i] == s[i + 1]);
        lemma_insert_pos_props(t, x);
        let p = insert_pos(s, x);
        assert(p == 1 + insert_pos(t, x));
        assert forall|j: int| 0 <= j < p implies s[j] < x by {
            if j > 0 {
                assert(t[j - 1] < x);
            }
        }
        assert forall|j: int| p <= j < s.len() implies x <= s[j] by {
            assert(x <= t[j - 1]);
        }
    } else {
        assert(forall|j: int| 0 < j < s.len() ==> s[0] < #[trigger] s[j]);
    }
}

/// Inserting a coordinate at its `insert_pos` keeps the sequence strictly
/// increasing, provided the coordinate is not already present.
pub proof fn lemma_insert_keeps_increasing(s: Seq<int>, x: int)
    requires
        strictly_increasing(s),
        !s.contains(x),
    ensures
        strictly_increasing(s.insert(insert_pos(s, x), x)),
{
    lemma_insert_pos_props(s, x);
    let p = insert_pos(s, x);
    let t = s.insert(p, x);
    assert(forall|j: int| p <= j < s.len() ==> x <= s[j]);
    assert(forall|j: int| p <= j < s.len() ==> s[j] != x) by {
        assert(forall|j: int| 0 <= j < s.len() ==> s[j] == s.index(j));
    }
    assert forall|i: int, j: int| 0 <= i < j < t.len() implies t[i] < t[j] by {
        assert(forall|k: int| 0 <= k < p ==> t[k] == s[k]);
        assert(t[p] == x);
        assert(forall|k: int| p < k < t.len() ==> t[k] == s[k - 1]);
        if j < p {
        } else if i > p {
        } else if i == p {
            assert(x <= s[j - 1] && s[j - 1] != x);
        } else if j == p {
            assert(s[i] < x);
        } else {
            // i < p < j
            assert(s[i] < x);
            assert(x <= s[j - 1] && s[j - 1] != x);
        }
    }
}

/// Mapping a sequence of numbers to views commutes with inserting one.
pub proof fn lemma_views_of_insert(s: Seq<Num>, p: int, n: Num)
    requires
        0 <= p <= s.len(),
    ensures
        views_of(s.insert(p, n)) == views_of(s).insert(p, n@),
{
    assert(views_of(s.insert(p, n)) =~= views_of(s).insert(p, n@));
}

/// The views of a sequence of coordinate/value pairs.
pub open spec fn pair_views(s: Seq<(Num, Num)>) -> Seq<(int, int)> {
    Seq::new(s.len(), |i: int| (s[i].0@, s[i].1@))
}

/// The grids reachable by inserting a batch of samples one at a time:
/// `Some` of the final coordinate and value sequences when every insertion
/// finds a fresh coordinate, `None` as soon as one duplicates.
pub open spec fn batch_insert(xs: Seq<int>, ys: Seq<int>, pairs: Seq<(int, int)>) -> Option<(Seq<int>, Seq<int>)>
    decreases pairs.len(),
{
    if pairs.len() == 0 {
        Some((xs, ys))
    } else if xs.contains(pairs[0].0) {
        None
    } else {
        let p = insert_pos(xs, pairs[0].0);
        batch_insert(xs.insert(p, pairs[0].0), ys.insert(p, pairs[0].1), pairs.drop_first())
    }
}

/// The value linearly interpolated between the samples `(x0, y0)` and
/// `(x1, y1)` at the coordinate `x`, rounded toward `y0` when the exact
/// blend falls between two representable numbers.
pub open spec fn interp_value(x0: int, y0: int, x1: int, y1: int, x: int) -> int
    recommends
        x0 < x1,
        x0 <= x <= x1,
{
    if y1 >= y0 {
        y0 + ((y1 - y0) * (x - x0)) / (x1 - x0)
    } else {
        y0 - ((y0 - y1) * (x - x0)) / (x1 - x0)
    }
}

/// The value a grid with coordinates `xs` and values `ys` holds at the
/// in-domain coordinate `x`: the stored value on an exact hit, otherwise the
/// linear blend of the two bracketing samples.
pub open spec fn interp_at(xs: Seq<int>, ys: Seq<int>, x: int) -> int
    recommends
        xs.len() >= 1,
        xs.len() == ys.len(),
        xs[0] <= x <= xs[xs.len() - 1],
{
    let i = lower_index(xs, x);
    if xs[i] == x {
        ys[i]
    } else {
        interp_value(xs[i], ys[i], xs[i + 1], ys[i + 1], x)
    }
}

/// Whether `x` lies in the closed interval covered by the coordinates `xs`.
pub open spec fn in_domain_of(xs: Seq<int>, x: int) -> bool {
    xs.len() >= 1 && xs[0] <= x <= xs[xs.len() - 1]
}

/// An exact hit returns the stored value: whenever some sample of a well
/// formed grid sits exactly at the query coordinate, the value interpolated
/// there is that sample's stored value, untouched by any blending.
pub proof fn lemma_exact_hit(xs: Seq<int>, ys: Seq<int>, x: int, j: int)
    requires
        strictly_increasing(xs),
        xs.len() == ys.len(),
        0 <= j < xs.len(),
        xs[j] == x,
    ensures
        interp_at(xs, ys, x) == ys[j],
{
    assert(xs[0] <= xs[j]);
    if j < xs.len() - 1 {
        assert(xs[j] < xs[j + 1]);
    }
    lemma_lower_index_unique(xs, x, j);
}

/// Whether a sequence of coordinates is monotonically (strictly) increasing:
/// true exactly when every consecutive pair of elements increases, which for
/// a strict order is the same as every pair of elements increasing.
///
/// Every consecutive pair takes part in the comparison, so a single drop
/// anywhere in the sequence is detected. Sequences of length zero or one are
/// vacuously increasing.
pub fn monotonically_increasing(vals: &Vec<Num>) -> (r: bool)
    ensures
        r == strictly_increasing(views_of(vals@)),
        r == (forall|i: int| 0 <= i < vals@.len() - 1 ==> #[trigger] views_of(vals@)[i] < views_of(vals@)[i + 1]),
{
    let n: usize = vals.len();
    let mut k: usize = 1;
    while k < n
        invariant
            1 <= k,
            k <= n || n == 0,
            n == vals@.len(),
            forall|i: int| 0 <= i < k - 1 ==> #[trigger] views_of(vals@)[i] < views_of(vals@)[i + 1],
        decreases n - k,
    {
        if !vals[k - 1].lt(&vals[k]) {
            assert(!(views_of(vals@)[k - 1] < views_of(vals@)[k - 1 + 1]));
            assert(!strictly_increasing(views_of(vals@)));
            return false;
        }
        k += 1;
    }
    proof {
        lemma_adjacent_implies_pairwise(views_of(vals@));
    }
    true
}

} // verus!
