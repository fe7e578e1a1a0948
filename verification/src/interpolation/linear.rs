//! Linear interpolation between the two samples bracketing a query.

use vstd::prelude::*;
use crate::num::Num;
use crate::math::{
    views_of, strictly_increasing, in_domain_of, interp_at, interp_value,
    lemma_lower_index_props,
};
use crate::interpolation::interface::{Interpolation, InterpolationError, InterpolationGrid};
use vstd::arithmetic::div_mod::{lemma_div_is_ordered, lemma_div_multiples_vanish};

verus! {

/// The straight-line strategy: between two bracketing samples the value
/// changes at the constant rate that connects them.
pub struct LinearInterpolation {
    pub grid: InterpolationGrid,
}

impl LinearInterpolation {
    /// Builds the strategy over a freshly validated grid; the checks and
    /// errors are those of [`InterpolationGrid::init_grid`].
    pub fn from(xs: Vec<Num>, ys: Vec<Num>) -> (r: Result<LinearInterpolation, InterpolationError>)
        ensures
            xs@.len() != ys@.len()
                ==> r == Err::<LinearInterpolation, InterpolationError>(InterpolationError::SizeMismatch),
            xs@.len() == ys@.len() && xs@.len() == 0
                ==> r == Err::<LinearInterpolation, InterpolationError>(InterpolationError::InvalidNumberOfPoints),
            xs@.len() == ys@.len() && xs@.len() >= 1 && !strictly_increasing(views_of(xs@))
                ==> r == Err::<LinearInterpolation, InterpolationError>(InterpolationError::NotMonotonicallyIncreasing),
            xs@.len() == ys@.len() && xs@.len() >= 1 && strictly_increasing(views_of(xs@))
                ==> (r matches Ok(li) && li.wf()
                    && li.sample_xs() == views_of(xs@) && li.sample_ys() == views_of(ys@)),
    {
        match InterpolationGrid::init_grid(xs, ys) {
            Ok(grid) => Ok(LinearInterpolation { grid }),
            Err(e) => Err(e),
        }
    }
}

/// The value on the straight line through `(x0, y0)` and `(x1, y1)` at the
/// coordinate `x` between them, rounded toward `y0`. All arithmetic runs on
/// unsigned 128-bit magnitudes, which the 64-bit inputs can never overflow.
fn lerp(x0: Num, y0: Num, x1: Num, y1: Num, x: Num) -> (r: Num)
    requires
        x0@ < x1@,
        x0@ <= x@ <= x1@,
    ensures
        r@ == interp_value(x0@, y0@, x1@, y1@, x@),
{
    let x0w: i128 = x0.micros() as i128;
    let x1w: i128 = x1.micros() as i128;
    let xw: i128 = x.micros() as i128;
    let y0w: i128 = y0.micros() as i128;
    let y1w: i128 = y1.micros() as i128;
    let dx: u128 = (x1w - x0w) as u128;
    let dq: u128 = (xw - x0w) as u128;
    assert(dq <= dx);
    if y1.micros() >= y0.micros() {
        let dy: u128 = (y1w - y0w) as u128;
        assert(dy * dq < 0xffffffffffffffffffffffffffffffff) by (nonlinear_arith)
            requires
                dy < 0x10000000000000000,
                dq < 0x10000000000000000,
        ;
        let prod: u128 = dy * dq;
        let q: u128 = prod / dx;
        proof {
            assert(dy * dq <= dy * dx) by (nonlinear_arith)
                requires
                    dq <= dx,
                    0 <= dy,
            ;
            lemma_div_is_ordered(prod as int, (dy * dx) as int, dx as int);
            lemma_div_multiples_vanish(dy as int, dx as int);
            assert((dy * dx) as int == (dx as int) * (dy as int)) by (nonlinear_arith);
            assert(q <= dy);
        }
        let res: i128 = y0w + q as i128;
        assert(y0w <= res <= y1w);
        Num::from_micros(res as i64)
    } else {
        let dy: u128 = (y0w - y1w) as u128;
        assert(dy * dq < 0xffffffffffffffffffffffffffffffff) by (nonlinear_arith)
            requires
                dy < 0x10000000000000000,
                dq < 0x10000000000000000,
        ;
        let prod: u128 = dy * dq;
        let q: u128 = prod / dx;
        proof {
            assert(dy * dq <= dy * dx) by (nonlinear_arith)
                requires
                    dq <= dx,
                    0 <= dy,
            ;
            lemma_div_is_ordered(prod as int, (dy * dx) as int, dx as int);
            lemma_div_multiples_vanish(dy as int, dx as int);
            assert((dy * dx) as int == (dx as int) * (dy as int)) by (nonlinear_arith);
            assert(q <= dy);
        }
        let res: i128 = y0w - q as i128;
        assert(y1w <= res <= y0w);
        Num::from_micros(res as i64)
    }
}

impl Interpolation for LinearInterpolation {
    open spec fn sample_xs(&self) -> Seq<int> {
        self.grid.x_seq()
    }

    open spec fn sample_ys(&self) -> Seq<int> {
        self.grid.y_seq()
    }

    open spec fn wf(&self) -> bool {
        self.grid.wf()
    }

    proof fn wf_facts(&self) {
    }

    fn get_value(&self, x: Num) -> (r: Result<Num, InterpolationError>) {
        match self.grid.bracket(x) {
            Err(e) => Err(e),
            Ok(b) => {
                let (left, right) = b;
                proof {
                    lemma_lower_index_props(self.grid.x_seq(), x@);
                }
                if left.x.micros() == right.x.micros() {
                    Ok(left.y)
                } else {
                    Ok(lerp(left.x, left.y, right.x, right.y, x))
                }
            },
        }
    }

    fn get_values(&self, qs: Vec<Num>) -> (r: Result<Vec<Num>, InterpolationError>) {
        let mut out: Vec<Num> = Vec::new();
        let n: usize = qs.len();
        let mut k: usize = 0;
        while k < n
            invariant
                self.wf(),
                n == qs@.len(),
                k <= n,
                out@.len() == k,
                forall|j: int| 0 <= j < k ==> in_domain_of(self.sample_xs(), #[trigger] views_of(qs@)[j]),
                forall|j: int| 0 <= j < k
                    ==> #[trigger] views_of(out@)[j]
                        == interp_at(self.sample_xs(), self.sample_ys(), views_of(qs@)[j]),
            decreases n - k,
        {
            match self.get_value(qs[k]) {
                Err(e) => {
                    assert(!in_domain_of(self.sample_xs(), views_of(qs@)[k as int]));
                    return Err(e);
                },
                Ok(y) => {
                    let ghost prev = out@;
                    out.push(y);
                    proof {
                        assert forall|j: int| 0 <= j < k + 1 implies #[trigger] views_of(out@)[j]
                            == interp_at(self.sample_xs(), self.sample_ys(), views_of(qs@)[j]) by {
                            if j < k {
                                assert(out@[j] == prev[j]);
                                assert(views_of(prev)[j]
                                    == interp_at(self.sample_xs(), self.sample_ys(), views_of(qs@)[j]));
                            } else {
                                assert(out@[j] == y);
                            }
                        }
                    }
                },
            }
            k += 1;
        }
        Ok(out)
    }

    fn insert_value(&mut self, x: Num, y: Num) -> (r: Result<(), InterpolationError>) {
        self.grid.insert(x, y)
    }

    fn insert_values(&mut self, pairs: Vec<(Num, Num)>) -> (r: Result<(), InterpolationError>) {
        self.grid.insert_many(pairs)
    }
}

} // verus!
