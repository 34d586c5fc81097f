//! Divisor-weighted logarithmic sums and record scanning.
//!
//! For a positive integer `n`, the quantity z(n) is the sum of ln(d)/d over
//! every positive divisor d of n, and tau(n) is the number of those divisors.
//! A scan over n = 1..max_n reports "record" values of n, where z(n) or the
//! ratio z(n)/ln(tau(n)) strictly exceeds every value seen before.
//!
//! This crate verifies the integer core of that computation: the
//! divisor-pair enumeration (each divisor of n produced exactly once, so
//! that tau and the z sum are taken over exactly the right terms), and the
//! classification of a scan step into its record event. The floating-point
//! sums themselves, which Verus does not model, are left to the caller, who
//! folds ln(d)/d over the enumerated divisors.

pub mod divisor;
pub mod records;
