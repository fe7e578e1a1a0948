//! One-dimensional linear interpolation over a validated grid of samples.
//!
//! A grid owns a set of (x, y) samples whose x coordinates are strictly
//! increasing; a strategy locates the pair of samples bracketing a query
//! coordinate and blends their values. Coordinates are exact fixed-point
//! numbers ([`num::Num`]), so every contract states the returned value
//! precisely.

pub mod interpolation;
pub mod math;
pub mod num;
