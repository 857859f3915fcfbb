//! An exact, boundary-aware algebra over one-dimensional numeric ranges.
//!
//! A [`interval::Interval`] is a single contiguous range over the extended
//! number line, with independently open or closed endpoints.  A
//! [`multi_interval::MultiInterval`] is an ordered, disjoint union of such
//! ranges, supporting set-style intersection and complement (logical
//! negation) over the full line, including both infinities.
//!
//! Every operation is a pure function over immutable values, and each one
//! carries a contract describing exactly what it returns.  The algebraic
//! laws of the complement and intersection operators are stated and proved
//! in [`laws`].

pub mod extended;
pub mod interval;
pub mod ir_to_ntuple;
pub mod laws;
pub mod multi_interval;
