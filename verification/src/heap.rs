use vstd::prelude::*;

verus! {

/// Priority of the elements a `PriorityVec` hands out.
pub trait HeapOrd: Sized {
    /// What must hold of an element before its priority can be computed.
    spec fn hwf(self) -> bool;

    /// The priority itself; `pop` yields an element of maximum key.
    spec fn key(self) -> int;

    fn key_of(&self) -> (k: u128)
        requires
            self.hwf(),
        ensures
            k as int == self.key(),
    ;
}

/// The index `pop` takes its element from: the position of the maximum key,
/// and among equal keys the greatest such position, so that ties go to the
/// element pushed last.
pub open spec fn best_idx<T: HeapOrd>(s: Seq<T>) -> int
    decreases s.len(),
{
    if s.len() <= 1 {
        0
    } else if s.last().key() >= s[best_idx(s.drop_last())].key() {
        s.len() - 1
    } else {
        best_idx(s.drop_last())
    }
}

/// `best_idx` points at an element of maximum key, and everything after it
/// is strictly smaller.
pub proof fn lemma_best_idx<T: HeapOrd>(s: Seq<T>)
    requires
        s.len() > 0,
    ensures
        0 <= best_idx(s) < s.len(),
        forall|i: int| 0 <= i < s.len() ==> #[trigger] s[i].key() <= s[best_idx(s)].key(),
        forall|i: int| best_idx(s) < i < s.len() ==> #[trigger] s[i].key() < s[best_idx(s)].key(),
    decreases s.len(),
{
    if s.len() > 1 {
        lemma_best_idx(s.drop_last());
        assert(forall|i: int| 0 <= i < s.len() - 1 ==> #[trigger] s[i].key() == s.drop_last()[i].key());
    }
}

/// Max-priority queue over a plain vector: `push` appends, `pop` removes the
/// element `best_idx` points at.
pub struct PriorityVec<T: HeapOrd> {
    items: Vec<T>,
}

impl<T: HeapOrd> View for PriorityVec<T> {
    type V = Seq<T>;

    closed spec fn view(&self) -> Seq<T> {
        self.items@
    }
}

impl<T: HeapOrd> PriorityVec<T> {
    pub open spec fn wf(self) -> bool {
        forall|i: int| 0 <= i < self@.len() ==> (#[trigger] self@[i]).hwf()
    }

    pub fn new() -> (r: Self)
        ensures
            r@ == Seq::<T>::empty(),
            r.wf(),
    {
        PriorityVec { items: Vec::new() }
    }

    pub fn len(&self) -> (r: usize)
        ensures
            r == self@.len(),
    {
        self.items.len()
    }

    pub fn is_empty(&self) -> (r: bool)
        ensures
            r == (self@.len() == 0),
    {
        self.items.len() == 0
    }

    pub fn get(&self, i: usize) -> (r: &T)
        requires
            i < self@.len(),
        ensures
            *r == self@[i as int],
    {
        &self.items[i]
    }

    pub fn push(&mut self, item: T)
        requires
            old(self).wf(),
            item.hwf(),
        ensures
            final(self)@ == old(self)@.push(item),
            final(self).wf(),
    {
        self.items.push(item);
        proof {
            assert forall|i: int| 0 <= i < self@.len() implies (#[trigger] self@[i]).hwf() by {
                if i < self@.len() - 1 {
                    assert(self@[i] == old(self)@[i]);
                } else {
                    assert(self@[i] == item);
                }
            }
        }
    }

    /// Remove and return an element of maximum key; among equal keys the one
    /// pushed last. The rest keep their order.
    pub fn pop(&mut self) -> (r: Option<T>)
        requires
            old(self).wf(),
        ensures
            final(self).wf(),
            old(self)@.len() == 0 ==> r is None && final(self)@ == old(self)@,
            old(self)@.len() > 0 ==> {
                let b = best_idx(old(self)@);
                &&& 0 <= b < old(self)@.len()
                &&& r == Some(old(self)@[b])
                &&& final(self)@ == old(self)@.remove(b)
                &&& forall|i: int|
                    0 <= i < old(self)@.len() ==> #[trigger] old(self)@[i].key()
                        <= old(self)@[b].key()
            },
    {
        if self.items.len() == 0 {
            return None;
        }
        let ghost s = self.items@;
        let mut best: usize = 0;
        let mut i: usize = 1;
        while i < self.items.len()
            invariant
                self.items@ == s,
                forall|j: int| 0 <= j < s.len() ==> (#[trigger] s[j]).hwf(),
                0 < i <= s.len(),
                best < i,
                best == best_idx(s.subrange(0, i as int)),
            decreases s.len() - i,
        {
            proof {
                assert(s.subrange(0, i + 1 as int).drop_last() =~= s.subrange(0, i as int));
                assert(s.subrange(0, i + 1 as int).last() == s[i as int]);
            }
            if self.items[i].key_of() >= self.items[best].key_of() {
                best = i;
            }
            i = i + 1;
        }
        proof {
            assert(s.subrange(0, s.len() as int) =~= s);
            lemma_best_idx(s);
        }
        let item = self.items.remove(best);
        Some(item)
    }

    /// Empty the queue, handing every element out in storage order.
    pub fn drain_all(&mut self) -> (r: Vec<T>)
        requires
            old(self).wf(),
        ensures
            r@ == old(self)@,
            final(self)@ == Seq::<T>::empty(),
            final(self).wf(),
    {
        let mut out: Vec<T> = Vec::new();
        core::mem::swap(&mut self.items, &mut out);
        out
    }
}

} // verus!
