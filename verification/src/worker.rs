use vstd::prelude::*;
use crate::constants::TIME_LIMIT_MS;
use crate::dto::{Area, Explore, License};
use crate::heap::{best_idx, HeapOrd, PriorityVec};
use crate::model::PendingDig;
use crate::rules::Rules;

verus! {

/// Sum over every queued element of `s`: an element at depth `d` stands for
/// the `max_depth + 1 - d` dig levels still ahead of it. This is the hint a
/// worker sends along with a license-expiry report.
pub open spec fn hint_sum(s: Seq<PendingDig>, max_depth: u8) -> int
    decreases s.len(),
{
    if s.len() == 0 {
        0
    } else {
        hint_sum(s.drop_last(), max_depth) + (max_depth + 1 - s.last().depth)
    }
}

pub proof fn lemma_hint_sum_nonneg(s: Seq<PendingDig>, max_depth: u8)
    requires
        forall|j: int| 0 <= j < s.len() ==> (#[trigger] s[j]).depth <= max_depth,
    ensures
        hint_sum(s, max_depth) >= 0,
    decreases s.len(),
{
    if s.len() > 0 {
        assert(forall|j: int| 0 <= j < s.len() - 1 ==> (#[trigger] s.drop_last()[j]) == s[j]);
        lemma_hint_sum_nonneg(s.drop_last(), max_depth);
    }
}

/// With every depth at most `max_depth`, each element contributes a
/// non-negative term, so every prefix sum sits between zero and the whole
/// sum.
pub proof fn lemma_hint_sum_prefix(s: Seq<PendingDig>, max_depth: u8, i: int)
    requires
        0 <= i <= s.len(),
        forall|j: int| 0 <= j < s.len() ==> (#[trigger] s[j]).depth <= max_depth,
    ensures
        0 <= hint_sum(s.subrange(0, i), max_depth) <= hint_sum(s, max_depth),
    decreases s.len() - i,
{
    assert(forall|j: int| 0 <= j < i ==> (#[trigger] s.subrange(0, i)[j]) == s[j]);
    lemma_hint_sum_nonneg(s.subrange(0, i), max_depth);
    if i == s.len() {
        assert(s.subrange(0, i) =~= s);
    } else {
        assert(s.subrange(0, i + 1).drop_last() =~= s.subrange(0, i));
        assert(s.subrange(0, i + 1).last() == s[i]);
        lemma_hint_sum_prefix(s, max_depth, i + 1);
    }
}

/// Sum of the amounts the judge reported so far for one subdivision.
pub open spec fn seq_sum(s: Seq<u64>) -> int
    decreases s.len(),
{
    if s.len() == 0 {
        0
    } else {
        seq_sum(s.drop_last()) + s.last()
    }
}

/// The in-flight subdivision of one popped `Explore`: its parts, how many
/// have been queried, and the treasure accounted for so far. `recorded`
/// remembers the amounts the judge reported, one per queried part.
pub struct Subdivision {
    pub parent_amount: u64,
    pub areas: Vec<Area>,
    pub next: usize,
    pub cum: u64,
    pub recorded: Ghost<Seq<u64>>,
}

impl Subdivision {
    pub open spec fn wf(self) -> bool {
        &&& 1 <= self.areas@.len()
        &&& self.next <= self.areas@.len() - 1
        &&& forall|i: int| 0 <= i < self.areas@.len() ==> (#[trigger] self.areas@[i]).wf()
        &&& self.next == self.recorded@.len()
        &&& self.cum == seq_sum(self.recorded@)
    }

    /// What the synthetic entry for the last, unqueried part will carry.
    pub open spec fn spec_residual_amount(self) -> int {
        if self.parent_amount > self.cum {
            self.parent_amount - self.cum
        } else {
            0
        }
    }

    /// The next part to query: every part but the last is queried in order,
    /// stopping early once the amounts seen account for the whole parent.
    pub fn next_query(&self) -> (r: Option<Area>)
        requires
            self.wf(),
        ensures
            r is Some <==> (self.next < self.areas@.len() - 1 && self.cum != self.parent_amount),
            r is Some ==> r.unwrap() == self.areas@[self.next as int],
    {
        if self.next < self.areas.len() - 1 && self.cum != self.parent_amount {
            Some(self.areas[self.next])
        } else {
            None
        }
    }

    /// Record the amount the judge reported for the part `next_query`
    /// returned; a part with treasure in it is handed back to be enqueued.
    pub fn record(&mut self, amount: u64) -> (r: Option<Explore>)
        requires
            old(self).wf(),
            old(self).next < old(self).areas@.len() - 1,
            old(self).cum + amount <= u64::MAX,
        ensures
            final(self).wf(),
            final(self).areas@ == old(self).areas@,
            final(self).parent_amount == old(self).parent_amount,
            final(self).next == old(self).next + 1,
            final(self).recorded@ == old(self).recorded@.push(amount),
            final(self).cum == old(self).cum + amount,
            amount > 0 ==> r == Some(
                Explore { area: old(self).areas@[old(self).next as int], amount },
            ),
            amount == 0 ==> r is None,
    {
        let _n: usize = self.areas.len();
        let area = self.areas[self.next];
        self.next = self.next + 1;
        self.cum = self.cum + amount;
        self.recorded = Ghost(self.recorded@.push(amount));
        proof {
            assert(self.recorded@.drop_last() =~= old(self).recorded@);
        }
        if amount > 0 {
            Some(Explore { area, amount })
        } else {
            None
        }
    }

    /// Attribute whatever the queried parts did not account for to the last,
    /// unqueried part, as a synthetic `Explore`.
    pub fn residual(&self) -> (r: Option<Explore>)
        requires
            self.wf(),
        ensures
            self.parent_amount > self.cum ==> r == Some(
                Explore {
                    area: self.areas@.last(),
                    amount: (self.parent_amount - self.cum) as u64,
                },
            ),
            self.parent_amount <= self.cum ==> r is None,
    {
        if self.parent_amount > self.cum {
            Some(
                Explore {
                    area: self.areas[self.areas.len() - 1],
                    amount: self.parent_amount - self.cum,
                },
            )
        } else {
            None
        }
    }
}

/// Conservation: the amounts recorded for the queried parts plus the
/// synthetic residual handed to the last part sum to exactly the parent's
/// amount, as long as the parts seen did not overshoot it — subdividing
/// loses no treasure.
pub proof fn lemma_subdivision_conserves(sub: Subdivision)
    requires
        sub.wf(),
        sub.cum <= sub.parent_amount,
    ensures
        seq_sum(sub.recorded@) + sub.spec_residual_amount() == sub.parent_amount,
{
}

/// A worker's scheduling state: what to explore, what to dig, and the
/// licenses it holds. The judge calls themselves happen outside; every
/// decision between them is made here.
pub struct Worker {
    pub rules: Rules,
    pub explore_heap: PriorityVec<Explore>,
    pub dig_heap: PriorityVec<PendingDig>,
    pub licenses: Vec<License>,
}

impl Worker {
    pub open spec fn wf(self) -> bool {
        &&& self.rules.wf()
        &&& self.explore_heap.wf()
        &&& self.dig_heap.wf()
        &&& forall|i: int|
            0 <= i < self.dig_heap@.len() ==> 1 <= (#[trigger] self.dig_heap@[i]).depth
                <= self.rules.max_depth
    }

    pub fn new(rules: Rules, explore_heap: PriorityVec<Explore>) -> (r: Worker)
        requires
            rules.wf(),
            explore_heap.wf(),
        ensures
            r.rules == rules,
            r.explore_heap@ == explore_heap@,
            r.dig_heap@ == Seq::<PendingDig>::empty(),
            r.licenses@ == Seq::<License>::empty(),
            r.wf(),
    {
        Worker { rules, explore_heap, dig_heap: PriorityVec::new(), licenses: Vec::new() }
    }

    /// Drive exploration one step: pop the densest entry; a unit cell goes
    /// straight onto the dig queue, anything larger starts a subdivision the
    /// caller must query part by part.
    pub fn explore_step(&mut self) -> (r: Option<Subdivision>)
        requires
            old(self).wf(),
        ensures
            final(self).wf(),
            final(self).rules == old(self).rules,
            final(self).licenses@ == old(self).licenses@,
            old(self).explore_heap@.len() == 0 ==> r is None && final(self).explore_heap@
                == old(self).explore_heap@ && final(self).dig_heap@ == old(self).dig_heap@,
            old(self).explore_heap@.len() > 0 ==> {
                let e = old(self).explore_heap@[best_idx(old(self).explore_heap@)];
                &&& final(self).explore_heap@ == old(self).explore_heap@.remove(
                    best_idx(old(self).explore_heap@),
                )
                &&& (e.area.spec_size() == 1 ==> r is None && final(self).dig_heap@ == old(
                    self,
                ).dig_heap@.push(
                    PendingDig {
                        x: e.area.pos_x,
                        y: e.area.pos_y,
                        depth: 1u8,
                        remaining: e.amount,
                    },
                ))
                &&& (e.area.spec_size() != 1 ==> final(self).dig_heap@ == old(self).dig_heap@ && (
                r matches Some(sub) && sub.wf() && sub.parent_amount == e.amount && sub.areas@
                    == e.area.spec_divide() && sub.next == 0 && sub.cum == 0))
            },
    {
        let ghost old_dig = self.dig_heap@;
        let ghost old_explore = self.explore_heap@;
        match self.explore_heap.pop() {
            None => None,
            Some(e) => {
                proof {
                    assert(old_explore[best_idx(old_explore)].hwf());
                }
                if e.area.size() == 1 {
                    self.dig_heap.push(PendingDig::new(e.area.pos_x, e.area.pos_y, e.amount));
                    proof {
                        assert forall|i: int| 0 <= i < self.dig_heap@.len() implies 1 <= (
                        #[trigger] self.dig_heap@[i]).depth <= self.rules.max_depth by {
                            if i < self.dig_heap@.len() - 1 {
                                assert(self.dig_heap@[i] == old_dig[i]);
                            }
                        }
                    }
                    None
                } else {
                    let areas = e.area.divide();
                    Some(
                        Subdivision {
                            parent_amount: e.amount,
                            areas,
                            next: 0,
                            cum: 0,
                            recorded: Ghost(Seq::empty()),
                        },
                    )
                }
            },
        }
    }

    /// Put an explored part (or the synthetic residual) onto the explore
    /// queue.
    pub fn explore_enqueue(&mut self, e: Explore)
        requires
            old(self).wf(),
            e.area.wf(),
        ensures
            final(self).wf(),
            final(self).explore_heap@ == old(self).explore_heap@.push(e),
            final(self).dig_heap@ == old(self).dig_heap@,
            final(self).licenses@ == old(self).licenses@,
            final(self).rules == old(self).rules,
    {
        self.explore_heap.push(e);
    }

    /// Pop the most promising pending dig, if any.
    pub fn dig_pop(&mut self) -> (r: Option<PendingDig>)
        requires
            old(self).wf(),
        ensures
            final(self).wf(),
            final(self).rules == old(self).rules,
            final(self).explore_heap@ == old(self).explore_heap@,
            final(self).licenses@ == old(self).licenses@,
            old(self).dig_heap@.len() == 0 ==> r is None && final(self).dig_heap@ == old(
                self,
            ).dig_heap@,
            old(self).dig_heap@.len() > 0 ==> {
                let b = best_idx(old(self).dig_heap@);
                &&& r == Some(old(self).dig_heap@[b])
                &&& final(self).dig_heap@ == old(self).dig_heap@.remove(b)
                &&& 1 <= old(self).dig_heap@[b].depth <= old(self).rules.max_depth
                &&& forall|i: int|
                    0 <= i < old(self).dig_heap@.len() ==> #[trigger] old(self).dig_heap@[i].key()
                        <= old(self).dig_heap@[b].key()
            },
    {
        let ghost old_dig = self.dig_heap@;
        let r = self.dig_heap.pop();
        proof {
            if old_dig.len() > 0 {
                crate::heap::lemma_best_idx(old_dig);
                let b = best_idx(old_dig);
                assert forall|i: int| 0 <= i < self.dig_heap@.len() implies 1 <= (
                #[trigger] self.dig_heap@[i]).depth <= self.rules.max_depth by {
                    if i < b {
                        assert(self.dig_heap@[i] == old_dig[i]);
                    } else {
                        assert(self.dig_heap@[i] == old_dig[i + 1]);
                    }
                }
            }
        }
        r
    }

    /// Put a pending dig back: either no license was at hand (the worker then
    /// asks accounting for more) or the dig call itself failed and will be
    /// retried on a later tick.
    pub fn dig_defer(&mut self, pd: PendingDig)
        requires
            old(self).wf(),
            1 <= pd.depth <= old(self).rules.max_depth,
        ensures
            final(self).wf(),
            final(self).dig_heap@ == old(self).dig_heap@.push(pd),
            final(self).explore_heap@ == old(self).explore_heap@,
            final(self).licenses@ == old(self).licenses@,
            final(self).rules == old(self).rules,
    {
        let ghost old_dig = self.dig_heap@;
        self.dig_heap.push(pd);
        proof {
            assert forall|i: int| 0 <= i < self.dig_heap@.len() implies 1 <= (
            #[trigger] self.dig_heap@[i]).depth <= self.rules.max_depth by {
                if i < self.dig_heap@.len() - 1 {
                    assert(self.dig_heap@[i] == old_dig[i]);
                }
            }
        }
    }

    /// Put a license back on the stack, untouched: the dig it was popped for
    /// never reached the judge.
    pub fn license_restore(&mut self, lic: License)
        requires
            old(self).wf(),
        ensures
            final(self).wf(),
            final(self).licenses@ == old(self).licenses@.push(lic),
            final(self).dig_heap@ == old(self).dig_heap@,
            final(self).explore_heap@ == old(self).explore_heap@,
            final(self).rules == old(self).rules,
    {
        self.licenses.push(lic);
    }

    /// Pop a license to dig with, most recently added first.
    pub fn license_pop(&mut self) -> (r: Option<License>)
        requires
            old(self).wf(),
        ensures
            final(self).wf(),
            final(self).dig_heap@ == old(self).dig_heap@,
            final(self).explore_heap@ == old(self).explore_heap@,
            final(self).rules == old(self).rules,
            old(self).licenses@.len() == 0 ==> r is None && final(self).licenses@ == old(
                self,
            ).licenses@,
            old(self).licenses@.len() > 0 ==> r == Some(old(self).licenses@.last())
                && final(self).licenses@ == old(self).licenses@.drop_last(),
    {
        self.licenses.pop()
    }

    /// Extend the license stack by whatever accounting sent back — possibly
    /// nothing, in which case the worker will simply ask again.
    pub fn add_licenses(&mut self, incoming: Vec<License>)
        requires
            old(self).wf(),
        ensures
            final(self).wf(),
            final(self).licenses@ == old(self).licenses@ + incoming@,
            final(self).dig_heap@ == old(self).dig_heap@,
            final(self).explore_heap@ == old(self).explore_heap@,
            final(self).rules == old(self).rules,
    {
        let mut incoming = incoming;
        self.licenses.append(&mut incoming);
    }

    /// The backlog hint reported with a license expiry: the dig levels still
    /// queued.
    pub fn pending_digs(&self) -> (r: u64)
        requires
            self.wf(),
            hint_sum(self.dig_heap@, self.rules.max_depth) <= u64::MAX,
        ensures
            r == hint_sum(self.dig_heap@, self.rules.max_depth),
    {
        let ghost s = self.dig_heap@;
        let ghost md = self.rules.max_depth;
        let mut sum: u64 = 0;
        let mut i: usize = 0;
        while i < self.dig_heap.len()
            invariant
                self.wf(),
                s == self.dig_heap@,
                md == self.rules.max_depth,
                hint_sum(s, md) <= u64::MAX,
                i <= s.len(),
                sum == hint_sum(s.subrange(0, i as int), md),
            decreases s.len() - i,
        {
            let pd = self.dig_heap.get(i);
            proof {
                assert(1 <= s[i as int].depth <= md);
                lemma_hint_sum_prefix(s, md, i + 1);
                assert(s.subrange(0, i + 1).drop_last() =~= s.subrange(0, i as int));
                assert(s.subrange(0, i + 1).last() == s[i as int]);
            }
            sum = sum + (self.rules.max_depth + 1 - pd.depth) as u64;
            i = i + 1;
        }
        proof {
            assert(s.subrange(0, s.len() as int) =~= s);
        }
        sum
    }

    /// Whether the expiry hint, with room for the one entry a dig may add,
    /// still fits in a `u64` — the bound `apply_dig_result` and
    /// `pending_digs` require. An unverified caller can test this before
    /// calling them; on the contest grid it never fails.
    pub fn hint_fits(&self) -> (r: bool)
        requires
            self.wf(),
        ensures
            r == (hint_sum(self.dig_heap@, self.rules.max_depth) + self.rules.max_depth
                <= u64::MAX),
    {
        let ghost s = self.dig_heap@;
        let ghost md = self.rules.max_depth;
        let mut sum: u128 = 0;
        let mut i: usize = 0;
        while i < self.dig_heap.len()
            invariant
                self.wf(),
                s == self.dig_heap@,
                md == self.rules.max_depth,
                i <= s.len(),
                sum == hint_sum(s.subrange(0, i as int), md),
                sum <= i * 255,
            decreases s.len() - i,
        {
            let pd = self.dig_heap.get(i);
            proof {
                assert(1 <= s[i as int].depth <= md);
                assert(s.subrange(0, i + 1).drop_last() =~= s.subrange(0, i as int));
                assert(s.subrange(0, i + 1).last() == s[i as int]);
            }
            sum = sum + (self.rules.max_depth + 1 - pd.depth) as u128;
            i = i + 1;
        }
        proof {
            assert(s.subrange(0, s.len() as int) =~= s);
        }
        sum + (self.rules.max_depth as u128) <= u64::MAX as u128
    }

    /// Apply the outcome of a dig that reached the judge: `found` treasures
    /// came up for cell `pd` using license `lic`. The cell is re-enqueued one
    /// level deeper exactly when the depth limit is not yet reached and
    /// treasure is still unaccounted for; the dig is counted against the
    /// license, which returns to the stack exactly while still valid —
    /// otherwise the worker must report the expiry to accounting, with the
    /// returned backlog hint.
    pub fn apply_dig_result(&mut self, pd: PendingDig, lic: License, found: u64) -> (r: Option<
        u64,
    >)
        requires
            old(self).wf(),
            1 <= pd.depth <= old(self).rules.max_depth,
            lic.is_valid(),
            hint_sum(old(self).dig_heap@, old(self).rules.max_depth) + old(self).rules.max_depth
                <= u64::MAX,
        ensures
            final(self).wf(),
            final(self).rules == old(self).rules,
            final(self).explore_heap@ == old(self).explore_heap@,
            final(self).dig_heap@ == (match pd.spec_next_level(old(self).rules.max_depth, found) {
                Some(next) => old(self).dig_heap@.push(next),
                None => old(self).dig_heap@,
            }),
            r is None <==> lic.dig_used + 1 < lic.dig_allowed,
            lic.dig_used + 1 < lic.dig_allowed ==> final(self).licenses@ == old(
                self,
            ).licenses@.push(
                License {
                    id: lic.id,
                    dig_allowed: lic.dig_allowed,
                    dig_used: (lic.dig_used + 1) as u8,
                },
            ),
            lic.dig_used + 1 >= lic.dig_allowed ==> final(self).licenses@ == old(self).licenses@
                && r == Some(hint_sum(final(self).dig_heap@, old(self).rules.max_depth) as u64),
    {
        let ghost old_dig = self.dig_heap@;
        let ghost md = self.rules.max_depth;
        let mut lic = lic;
        if let Some(next) = pd.next_level(self.rules.max_depth, found) {
            self.dig_heap.push(next);
        }
        proof {
            assert forall|i: int| 0 <= i < self.dig_heap@.len() implies 1 <= (
            #[trigger] self.dig_heap@[i]).depth <= md by {
                if i < old_dig.len() {
                    assert(self.dig_heap@[i] == old_dig[i]);
                }
            }
            if self.dig_heap@.len() > old_dig.len() {
                assert(self.dig_heap@.drop_last() =~= old_dig);
                assert(hint_sum(self.dig_heap@, md) == hint_sum(old_dig, md) + (md + 1
                    - self.dig_heap@.last().depth));
            }
            lemma_hint_sum_nonneg(self.dig_heap@, md);
        }
        let still_valid = lic.increment();
        if still_valid {
            self.licenses.push(lic);
            None
        } else {
            Some(self.pending_digs())
        }
    }
}

/// Every part of `parts`, in order, wrapped as an `Explore` carrying
/// `amount`.
pub open spec fn with_amount(parts: Seq<Area>, amount: u64) -> Seq<Explore>
    decreases parts.len(),
{
    if parts.len() == 0 {
        Seq::empty()
    } else {
        with_amount(parts.drop_last(), amount).push(Explore { area: parts.last(), amount })
    }
}

/// The start-up sweep over a worker's coarse seed areas: queries areas whose
/// treasure count is still unknown, subdivides what does not fit the
/// remaining wall-clock budget (or whose query failed), and finally keeps
/// entries only until their accumulated estimated cost exceeds that budget.
pub struct InitExplorer {
    /// Areas still awaiting a judge answer; the amount of an unanswered area
    /// counts as the largest possible.
    pub frontier: PriorityVec<Explore>,
    /// Answered and individually affordable entries.
    pub selected: PriorityVec<Explore>,
    /// Entries kept within the cumulative budget.
    pub picked: PriorityVec<Explore>,
    pub cum_cost: u128,
}

impl InitExplorer {
    pub open spec fn wf(self) -> bool {
        &&& self.frontier.wf()
        &&& self.selected.wf()
        &&& self.picked.wf()
    }

    pub fn new(areas: &Vec<Area>) -> (r: InitExplorer)
        requires
            forall|i: int| 0 <= i < areas@.len() ==> (#[trigger] areas@[i]).wf(),
        ensures
            r.wf(),
            r.frontier@ == with_amount(areas@, u64::MAX),
            r.selected@ == Seq::<Explore>::empty(),
            r.picked@ == Seq::<Explore>::empty(),
            r.cum_cost == 0,
    {
        let mut frontier: PriorityVec<Explore> = PriorityVec::new();
        let mut i: usize = 0;
        while i < areas.len()
            invariant
                forall|j: int| 0 <= j < areas@.len() ==> (#[trigger] areas@[j]).wf(),
                i <= areas@.len(),
                frontier.wf(),
                frontier@ == with_amount(areas@.subrange(0, i as int), u64::MAX),
            decreases areas@.len() - i,
        {
            frontier.push(Explore { area: areas[i], amount: u64::MAX });
            proof {
                assert(areas@.subrange(0, i + 1).drop_last() =~= areas@.subrange(0, i as int));
                assert(areas@.subrange(0, i + 1).last() == areas@[i as int]);
            }
            i = i + 1;
        }
        proof {
            assert(areas@.subrange(0, areas@.len() as int) =~= areas@);
        }
        InitExplorer {
            frontier,
            selected: PriorityVec::new(),
            picked: PriorityVec::new(),
            cum_cost: 0,
        }
    }

    /// Pop the densest area still awaiting a judge answer.
    pub fn next_unknown(&mut self) -> (r: Option<Explore>)
        requires
            old(self).wf(),
        ensures
            final(self).wf(),
            final(self).selected@ == old(self).selected@,
            final(self).picked@ == old(self).picked@,
            final(self).cum_cost == old(self).cum_cost,
            old(self).frontier@.len() == 0 ==> r is None && final(self).frontier@ == old(
                self,
            ).frontier@,
            old(self).frontier@.len() > 0 ==> {
                let b = best_idx(old(self).frontier@);
                &&& r == Some(old(self).frontier@[b])
                &&& old(self).frontier@[b].area.wf()
                &&& final(self).frontier@ == old(self).frontier@.remove(b)
            },
    {
        let ghost old_frontier = self.frontier@;
        let r = self.frontier.pop();
        proof {
            if old_frontier.len() > 0 {
                assert(old_frontier[best_idx(old_frontier)].hwf());
            }
        }
        r
    }

    fn enqueue_parts(&mut self, parts: &Vec<Area>, amount: u64)
        requires
            old(self).wf(),
            forall|i: int| 0 <= i < parts@.len() ==> (#[trigger] parts@[i]).wf(),
        ensures
            final(self).wf(),
            final(self).frontier@ == old(self).frontier@ + with_amount(parts@, amount),
            final(self).selected@ == old(self).selected@,
            final(self).picked@ == old(self).picked@,
            final(self).cum_cost == old(self).cum_cost,
    {
        let ghost base = self.frontier@;
        let mut i: usize = 0;
        while i < parts.len()
            invariant
                forall|j: int| 0 <= j < parts@.len() ==> (#[trigger] parts@[j]).wf(),
                i <= parts@.len(),
                self.wf(),
                self.frontier@ == base + with_amount(parts@.subrange(0, i as int), amount),
                self.selected@ == old(self).selected@,
                self.picked@ == old(self).picked@,
                self.cum_cost == old(self).cum_cost,
            decreases parts@.len() - i,
        {
            self.frontier.push(Explore { area: parts[i], amount });
            proof {
                assert(parts@.subrange(0, i + 1).drop_last() =~= parts@.subrange(0, i as int));
                assert(parts@.subrange(0, i + 1).last() == parts@[i as int]);
                assert(base + with_amount(parts@.subrange(0, i + 1), amount) =~= (base
                    + with_amount(parts@.subrange(0, i as int), amount)).push(
                    Explore { area: parts@[i as int], amount },
                ));
            }
            i = i + 1;
        }
        proof {
            assert(parts@.subrange(0, parts@.len() as int) =~= parts@);
        }
    }

    /// Sort one judge answer for `queried`: an answer with nothing in it is
    /// discarded, never enqueued; an affordable one is kept; an unaffordable
    /// one goes back onto the frontier subdivided, keeping its reported
    /// amount; a failed query goes back subdivided with the amount again
    /// unknown.
    pub fn on_explored(
        &mut self,
        queried: Area,
        result: Option<Explore>,
        elapsed_ms: u128,
        max_depth: u8,
    )
        requires
            old(self).wf(),
            queried.wf(),
            result matches Some(e) ==> e.area.wf(),
            elapsed_ms <= TIME_LIMIT_MS,
        ensures
            final(self).wf(),
            final(self).picked@ == old(self).picked@,
            final(self).cum_cost == old(self).cum_cost,
            match result {
                Some(e) => {
                    &&& (e.amount == 0 ==> final(self).selected@ == old(self).selected@
                        && final(self).frontier@ == old(self).frontier@)
                    &&& (e.amount > 0 && e.spec_cost(max_depth) < TIME_LIMIT_MS - elapsed_ms
                        ==> final(self).selected@ == old(self).selected@.push(e)
                        && final(self).frontier@ == old(self).frontier@)
                    &&& (e.amount > 0 && e.spec_cost(max_depth) >= TIME_LIMIT_MS - elapsed_ms
                        ==> final(self).selected@ == old(self).selected@
                        && final(self).frontier@ == old(self).frontier@ + with_amount(
                        e.area.spec_divide(),
                        e.amount,
                    ))
                },
                None => final(self).selected@ == old(self).selected@ && final(self).frontier@
                    == old(self).frontier@ + with_amount(queried.spec_divide(), u64::MAX),
            },
    {
        match result {
            Some(e) => {
                if e.amount == 0 {
                    // an empty area is dropped, not enqueued
                } else if e.is_managable(elapsed_ms, max_depth) {
                    self.selected.push(e);
                } else {
                    let parts = e.area.divide();
                    self.enqueue_parts(&parts, e.amount);
                }
            },
            None => {
                let parts = queried.divide();
                self.enqueue_parts(&parts, u64::MAX);
            },
        }
    }

    /// One step of the budget cut: pop the densest answered entry; keep it if
    /// it still fits the wall clock, adding its cost to the running total.
    /// Returns true when the sweep is over: no entries are left, or the
    /// running total has passed the remaining budget.
    pub fn budget_step(&mut self, elapsed_ms: u128, max_depth: u8) -> (done: bool)
        requires
            old(self).wf(),
            elapsed_ms <= TIME_LIMIT_MS,
            old(self).cum_cost <= TIME_LIMIT_MS,
        ensures
            final(self).wf(),
            final(self).frontier@ == old(self).frontier@,
            !done ==> final(self).cum_cost <= TIME_LIMIT_MS,
            old(self).selected@.len() == 0 ==> done && final(self).selected@ == old(
                self,
            ).selected@ && final(self).picked@ == old(self).picked@ && final(self).cum_cost == old(
                self,
            ).cum_cost,
            old(self).selected@.len() > 0 ==> {
                let e = old(self).selected@[best_idx(old(self).selected@)];
                &&& final(self).selected@ == old(self).selected@.remove(
                    best_idx(old(self).selected@),
                )
                &&& (e.spec_cost(max_depth) < TIME_LIMIT_MS - elapsed_ms ==> final(self).cum_cost
                    == old(self).cum_cost + e.spec_cost(max_depth) && final(self).picked@ == old(
                    self,
                ).picked@.push(e) && done == (final(self).cum_cost > TIME_LIMIT_MS - elapsed_ms))
                &&& (e.spec_cost(max_depth) >= TIME_LIMIT_MS - elapsed_ms ==> final(self).cum_cost
                    == old(self).cum_cost && final(self).picked@ == old(self).picked@ && !done)
            },
    {
        let ghost old_selected = self.selected@;
        match self.selected.pop() {
            None => true,
            Some(e) => {
                proof {
                    assert(old_selected[best_idx(old_selected)].hwf());
                }
                if e.is_managable(elapsed_ms, max_depth) {
                    let c = e.cost(max_depth);
                    self.cum_cost = self.cum_cost + c;
                    self.picked.push(e);
                    let remaining: u128 = TIME_LIMIT_MS - elapsed_ms;
                    self.cum_cost > remaining
                } else {
                    false
                }
            },
        }
    }
}

} // verus!
