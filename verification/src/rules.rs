use vstd::prelude::*;

verus! {

/// The run-wide parameters: grid stripe handed to each worker, worker count,
/// license cap and depth limit.
#[derive(Debug, Clone, Copy, PartialEq, Eq, Structural)]
pub struct Rules {
    pub w: u64,
    pub h: u64,
    pub n_workers: u64,
    pub max_concurrent_licenses: u8,
    pub max_depth: u8,
}

impl Rules {
    /// What the scheduling logic needs of the parameters: a positive depth
    /// limit that leaves `max_depth + 1` representable.
    pub open spec fn wf(self) -> bool {
        1 <= self.max_depth < u8::MAX
    }

    /// The contest defaults: a 3500x3500 grid cut into `n_workers` vertical
    /// stripes, depths one to ten.
    pub fn new(n_workers: u64) -> (r: Rules)
        requires
            1 <= n_workers,
        ensures
            r == (Rules {
                w: (3500 as int / n_workers as int) as u64,
                h: 3500u64,
                n_workers,
                max_concurrent_licenses: 7u8,
                max_depth: 10u8,
            }),
            r.wf(),
    {
        Rules {
            w: 3500 / n_workers,
            h: 3500,
            n_workers,
            max_concurrent_licenses: 7,
            max_depth: 10,
        }
    }
}

} // verus!
