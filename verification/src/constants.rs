use vstd::prelude::*;

verus! {

pub const MAX_DEPTH: u8 = 10;

pub const MAX_CONCURRENT_LICENSES: u8 = 10;

pub const N_WORKERS: u8 = 1;

pub const CONCURRENT_LICENSES: u8 = MAX_CONCURRENT_LICENSES / N_WORKERS;

/// Wall-clock budget for the whole contest run, in milliseconds.
pub const TIME_LIMIT_MS: u128 = 600 * 1000;

/// Estimated cost of a single dig request, in milliseconds.
pub const AVG_DIG_MS: u128 = 2;

} // verus!
