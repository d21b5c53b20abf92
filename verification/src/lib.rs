//! Currency-tagged monetary values: an exact rational ("dense") amount, an
//! integral minor-unit ("discrete") amount, lossless conversion between the
//! two, and a rounding engine that tracks the exact remainder lost by
//! rounding.

pub mod rational;
pub mod currency;
pub mod dense;
pub mod discrete;
pub mod codec;
