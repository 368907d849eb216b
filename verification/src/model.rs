use vstd::prelude::*;
use crate::dto::Dig;
use crate::heap::HeapOrd;

verus! {

/// Tokens dug out of one cell at one depth, waiting to be cashed.
#[derive(Debug, PartialEq, Eq, Clone)]
pub struct Treasure {
    pub depth: u8,
    pub treasures: Vec<String>,
}

/// Treasures are cashed deepest first: deeper digs pay more coins.
impl HeapOrd for Treasure {
    open spec fn hwf(self) -> bool {
        true
    }

    open spec fn key(self) -> int {
        self.depth as int
    }

    fn key_of(&self) -> (k: u128) {
        self.depth as u128
    }
}

/// What the treasure queue's order means: from any queue of treasures, `pop`
/// takes the element at `best_idx`, and that element lies at maximal depth;
/// ties go to the one pushed last.
pub proof fn lemma_treasure_pop_max_depth(s: Seq<Treasure>)
    requires
        s.len() > 0,
    ensures
        forall|i: int|
            0 <= i < s.len() ==> #[trigger] (s[i].depth as int)
                <= s[crate::heap::best_idx(s)].depth,
{
    crate::heap::lemma_best_idx(s);
    assert forall|i: int| 0 <= i < s.len() implies #[trigger] (s[i].depth as int)
        <= s[crate::heap::best_idx(s)].depth by {
        assert(s[i].key() <= s[crate::heap::best_idx(s)].key());
    }
}

/// One cell, dug down to `depth - 1` so far, with `remaining` treasures
/// known to be left in it.
#[derive(Debug, Clone, Copy, PartialEq, Eq, Structural)]
pub struct PendingDig {
    pub x: u64,
    pub y: u64,
    pub depth: u8,
    pub remaining: u64,
}

impl PendingDig {
    pub fn new(x: u64, y: u64, remaining: u64) -> (r: PendingDig)
        ensures
            r == (PendingDig { x, y, depth: 1u8, remaining }),
    {
        PendingDig { x, y, depth: 1, remaining }
    }

    pub fn to_dig(self, license_id: u64) -> (r: Dig)
        ensures
            r == (Dig { license_id, pos_x: self.x, pos_y: self.y, depth: self.depth }),
    {
        Dig { license_id, pos_x: self.x, pos_y: self.y, depth: self.depth }
    }

    /// The cell as it is re-enqueued after a dig that brought up `excavated`
    /// treasures: one level deeper, the yield deducted; `None` when the depth
    /// limit is reached or nothing worthwhile is left.
    pub open spec fn spec_next_level(self, max_depth: u8, excavated: u64) -> Option<PendingDig> {
        if self.depth < max_depth && self.remaining > excavated {
            Some(
                PendingDig {
                    x: self.x,
                    y: self.y,
                    depth: (self.depth + 1) as u8,
                    remaining: (self.remaining - excavated) as u64,
                },
            )
        } else {
            None
        }
    }

    pub fn next_level(&self, max_depth: u8, excavated: u64) -> (r: Option<PendingDig>)
        ensures
            r == self.spec_next_level(max_depth, excavated),
            r is Some <==> (self.depth < max_depth && self.remaining > excavated),
            r is Some ==> r.unwrap().depth == self.depth + 1 && r.unwrap().remaining
                == self.remaining - excavated,
    {
        if self.depth < max_depth && self.remaining > excavated {
            Some(
                PendingDig {
                    x: self.x,
                    y: self.y,
                    depth: self.depth + 1,
                    remaining: self.remaining - excavated,
                },
            )
        } else {
            None
        }
    }
}

/// A cell is re-enqueued only while its depth is under the limit, and each
/// re-enqueue raises the depth by one, so starting from depth `d` a cell is
/// re-enqueued at most `max_depth - d` times before `next_level` returns
/// `None`: the measure `max_depth - depth` strictly shrinks and never goes
/// below zero.
pub proof fn lemma_next_level_terminates(pd: PendingDig, max_depth: u8, excavated: u64)
    requires
        pd.spec_next_level(max_depth, excavated) is Some,
    ensures
        0 <= max_depth - pd.spec_next_level(max_depth, excavated).unwrap().depth < max_depth
            - pd.depth,
{
}

/// A cell whose yield so far left it strictly shallower than `max_depth` and
/// with treasure unaccounted for is re-enqueued, and with a strictly smaller
/// `remaining` whenever the dig brought anything up.
pub proof fn lemma_next_level_shrinks(pd: PendingDig, max_depth: u8, excavated: u64)
    requires
        0 < excavated,
        pd.spec_next_level(max_depth, excavated) is Some,
    ensures
        pd.spec_next_level(max_depth, excavated).unwrap().remaining < pd.remaining,
{
}

/// A cell already at the depth limit is never re-enqueued, whatever is left
/// in it and whatever the dig returned.
pub proof fn lemma_max_depth_never_requeued(pd: PendingDig, max_depth: u8, excavated: u64)
    requires
        pd.depth >= max_depth,
    ensures
        pd.spec_next_level(max_depth, excavated) is None,
{
}

/// What the dig queue's order means: from any queue of pending digs, `pop`
/// takes the element at `best_idx`, and that element has maximal
/// `remaining * depth`; ties go to the one pushed last.
pub proof fn lemma_dig_pop_max_yield(s: Seq<PendingDig>)
    requires
        s.len() > 0,
    ensures
        forall|i: int|
            0 <= i < s.len() ==> #[trigger] (s[i].remaining * s[i].depth)
                <= s[crate::heap::best_idx(s)].remaining * s[crate::heap::best_idx(s)].depth,
{
    crate::heap::lemma_best_idx(s);
    assert forall|i: int| 0 <= i < s.len() implies #[trigger] (s[i].remaining * s[i].depth)
        <= s[crate::heap::best_idx(s)].remaining * s[crate::heap::best_idx(s)].depth by {
        assert(s[i].key() <= s[crate::heap::best_idx(s)].key());
    }
}

/// PendingDigs are prioritised by expected yield times depth: deeper digs
/// pay more per treasure.
impl HeapOrd for PendingDig {
    open spec fn hwf(self) -> bool {
        true
    }

    open spec fn key(self) -> int {
        self.remaining * self.depth
    }

    fn key_of(&self) -> (k: u128) {
        proof {
            assert((self.remaining as int) * (self.depth as int) <= u128::MAX)
                by (nonlinear_arith)
                requires
                    self.remaining <= u64::MAX,
                    self.depth <= u8::MAX,
            ;
        }
        (self.remaining as u128) * (self.depth as u128)
    }
}

} // verus!
