//! Exact fixed-point numbers used for sample coordinates and values.
//!
//! A [`Num`] counts millionths of a unit in a signed 64-bit integer, so the
//! decimal literals that callers typically supply (such as 1.111) have an
//! exact representation, ordering agrees with integer ordering, and there is
//! no value that fails to compare (nothing like a floating-point NaN can be
//! constructed). The view of a `Num` is its count of millionths as a
//! mathematical integer; every contract in this crate is stated over views.

use vstd::prelude::*;

verus! {

/// How many fixed-point steps make one unit.
pub const MICROS_PER_UNIT: i64 = 1_000_000;

/// An exact fixed-point number: `micros` millionths of a unit.
#[derive(Clone, Copy, PartialEq, Eq, Structural, Hash, Debug)]
pub struct Num {
    pub micros: i64,
}

impl View for Num {
    type V = int;

    open spec fn view(&self) -> int {
        self.micros as int
    }
}

impl Num {
    /// Builds the number holding exactly `micros` millionths of a unit.
    pub fn from_micros(micros: i64) -> (r: Num)
        ensures
            r@ == micros as int,
    {
        Num { micros }
    }

    /// Builds the whole number `units`; convenient for integer-valued samples.
    pub fn from_units(units: i32) -> (r: Num)
        ensures
            r@ == units as int * MICROS_PER_UNIT as int,
    {
        Num { micros: (units as i64) * MICROS_PER_UNIT }
    }

    /// The number of millionths this value holds.
    pub fn micros(&self) -> (r: i64)
        ensures
            r as int == self@,
    {
        self.micros
    }

    /// Strict order test, matching the order of the views.
    pub fn lt(&self, other: &Num) -> (r: bool)
        ensures
            r == (self@ < other@),
    {
        self.micros < other.micros
    }

    /// Non-strict order test, matching the order of the views.
    pub fn le(&self, other: &Num) -> (r: bool)
        ensures
            r == (self@ <= other@),
    {
        self.micros <= other.micros
    }
}

} // verus!
