//! The interpolation grid and the strategies that evaluate queries over it.

pub mod interface;
pub mod linear;
