//! Implied volatilities for batches of option contracts, and the interest
//! rate that put-call parity implies.
//!
//! A volatility is searched for in lanes of eight contracts at a time.
//! This library holds the control of that work: which batches are
//! accepted, how a batch falls into lanes, how a root search proceeds and
//! ends, and how the solved lanes come together in input order. It never
//! computes with a price or a volatility. Such a value is handed in and
//! out as the 32 bits of a single-precision number, which the library only
//! compares; the arithmetic of the pricing model is the caller's and
//! enters as closures.

pub mod bs32x8;
pub mod consts;
pub mod ieee;
pub mod lane;
pub mod read_hist;
pub mod solver;
pub mod vol32x8;
