//! Planning and bookkeeping for scanning a truncated Weierstrass-style
//! cosine series f(x) = sum of a^i * cos(b^i * pi * x) over a range of
//! sample points.
//!
//! The floating-point arithmetic itself (powers, cosines, sums) lives with
//! the caller; this crate holds the decisions that surround it and proves
//! them correct:
//!
//! - [`truncate`]: how many leading terms of the series may be used once
//!   some power table entry would overflow, and that this truncation is
//!   monotone in the scan's magnitude bound;
//! - [`schedule`]: how the sample indices are split into contiguous chunks
//!   for parallel evaluation, and that the emitted order of samples does
//!   not depend on the chunk size;
//! - [`run`]: the step order of one evaluation run — every chunk in plan
//!   order, then exactly one flush, then nothing more;
//! - [`record`]: the `f(<x>) = <value>` output line format, with an
//!   unambiguous parser for reading records back.

pub mod record;
pub mod run;
pub mod schedule;
pub mod truncate;
