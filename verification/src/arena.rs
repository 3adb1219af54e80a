//! A compacting slot arena: inserted elements get a stable index, removal
//! leaves a tombstoned hole, and an explicit compaction pass reclaims holes
//! and renumbers the survivors densely, preserving their order.

use vstd::prelude::*;

verus! {

/// Number of occupied slots in a slot sequence.
pub open spec fn count_live<T>(s: Seq<Option<T>>) -> nat
    decreases s.len(),
{
    if s.len() == 0 {
        0
    } else {
        count_live(s.drop_last()) + if s.last() is Some {
            1nat
        } else {
            0nat
        }
    }
}

/// The live payloads of a slot sequence, in slot order.
pub open spec fn live_list<T>(s: Seq<Option<T>>) -> Seq<T>
    decreases s.len(),
{
    if s.len() == 0 {
        Seq::empty()
    } else {
        match s.last() {
            Some(t) => live_list(s.drop_last()).push(t),
            None => live_list(s.drop_last()),
        }
    }
}

/// The live `(index, payload)` pairs of a slot sequence, in slot order.
pub open spec fn live_pairs<T>(s: Seq<Option<T>>) -> Seq<(usize, T)>
    decreases s.len(),
{
    if s.len() == 0 {
        Seq::empty()
    } else {
        match s.last() {
            Some(t) => live_pairs(s.drop_last()).push((((s.len() - 1) as usize), t)),
            None => live_pairs(s.drop_last()),
        }
    }
}

pub proof fn lemma_count_live_le_len<T>(s: Seq<Option<T>>)
    ensures
        count_live(s) <= s.len(),
    decreases s.len(),
{
    if s.len() > 0 {
        lemma_count_live_le_len(s.drop_last());
    }
}

/// Appending a slot extends all three live views in the evident way.
pub proof fn lemma_live_push<T>(s: Seq<Option<T>>, v: Option<T>)
    ensures
        count_live(s.push(v)) == count_live(s) + if v is Some {
            1nat
        } else {
            0nat
        },
        live_list(s.push(v)) == match v {
            Some(t) => live_list(s).push(t),
            None => live_list(s),
        },
        live_pairs(s.push(v)) == match v {
            Some(t) => live_pairs(s).push(((s.len() as usize), t)),
            None => live_pairs(s),
        },
{
    assert(s.push(v).drop_last() =~= s);
    assert(s.push(v).last() == v);
}

/// Overwriting one slot changes the live count by the evident amount.
pub proof fn lemma_count_live_update<T>(s: Seq<Option<T>>, i: int, v: Option<T>)
    requires
        0 <= i < s.len(),
    ensures
        count_live(s.update(i, v)) == count_live(s) - (if s[i] is Some {
            1int
        } else {
            0int
        }) + (if v is Some {
            1int
        } else {
            0int
        }),
    decreases s.len(),
{
    let t = s.update(i, v);
    if i == s.len() - 1 {
        assert(t.drop_last() =~= s.drop_last());
    } else {
        assert(t.drop_last() =~= s.drop_last().update(i, v));
        lemma_count_live_update(s.drop_last(), i, v);
    }
}

/// A fully live slot sequence has live count equal to its length, and
/// conversely a sequence whose live count is its length has no holes.
pub proof fn lemma_count_live_full<T>(s: Seq<Option<T>>)
    ensures
        count_live(s) == s.len() <==> forall|i: int| 0 <= i < s.len() ==> s[i] is Some,
    decreases s.len(),
{
    if s.len() > 0 {
        lemma_count_live_full(s.drop_last());
        lemma_count_live_le_len(s.drop_last());
        if count_live(s) == s.len() {
            assert forall|i: int| 0 <= i < s.len() implies s[i] is Some by {
                if i < s.len() - 1 {
                    assert(s.drop_last()[i] == s[i]);
                }
            }
        }
        if forall|i: int| 0 <= i < s.len() ==> s[i] is Some {
            assert forall|i: int| 0 <= i < s.drop_last().len() implies s.drop_last()[i]
                is Some by {
                assert(s.drop_last()[i] == s[i]);
            }
        }
    }
}

/// A sequence with no holes is its own live list.
pub proof fn lemma_live_list_full<T>(s: Seq<Option<T>>)
    requires
        forall|i: int| 0 <= i < s.len() ==> s[i] is Some,
    ensures
        live_list(s).len() == s.len(),
        forall|i: int| 0 <= i < s.len() ==> s[i] == Some(#[trigger] live_list(s)[i]),
    decreases s.len(),
{
    if s.len() > 0 {
        assert forall|i: int| 0 <= i < s.drop_last().len() implies s.drop_last()[i] is Some by {
            assert(s.drop_last()[i] == s[i]);
        }
        lemma_live_list_full(s.drop_last());
        assert forall|i: int| 0 <= i < s.len() implies s[i] == Some(
            #[trigger] live_list(s)[i],
        ) by {
            if i < s.len() - 1 {
                assert(s.drop_last()[i] == s[i]);
            }
        }
    }
}

/// Each live pair points at its own slot, within bounds.
pub proof fn lemma_live_pairs_sound<T>(s: Seq<Option<T>>)
    requires
        s.len() <= usize::MAX,
    ensures
        live_pairs(s).len() == count_live(s),
        live_list(s).len() == count_live(s),
        forall|k: int|
            0 <= k < live_pairs(s).len() ==> (#[trigger] live_pairs(s)[k]).0 < s.len() && s[
            live_pairs(s)[k].0 as int] == Some(live_pairs(s)[k].1),
        forall|k: int|
            0 <= k < live_pairs(s).len() ==> (#[trigger] live_pairs(s)[k]).1 == live_list(s)[k],
        forall|k: int, l: int|
            0 <= k < l < live_pairs(s).len() ==> (#[trigger] live_pairs(s)[k]).0 < (
            #[trigger] live_pairs(s)[l]).0,
    decreases s.len(),
{
    if s.len() > 0 {
        lemma_live_pairs_sound(s.drop_last());
        assert forall|k: int| 0 <= k < live_pairs(s).len() implies (#[trigger] live_pairs(
            s,
        )[k]).0 < s.len() && s[live_pairs(s)[k].0 as int] == Some(live_pairs(s)[k].1) by {
            if k < live_pairs(s.drop_last()).len() {
                let i = live_pairs(s.drop_last())[k].0 as int;
                assert(s.drop_last()[i] == s[i]);
            }
        }
    }
}

/// In a sequence with no holes, the live pairs are the slots themselves.
pub proof fn lemma_live_pairs_full<T>(s: Seq<Option<T>>)
    requires
        s.len() <= usize::MAX,
        forall|i: int| 0 <= i < s.len() ==> s[i] is Some,
    ensures
        live_pairs(s).len() == s.len(),
        forall|k: int|
            0 <= k < s.len() ==> #[trigger] live_pairs(s)[k] == ((k as usize), s[k]->Some_0),
    decreases s.len(),
{
    if s.len() > 0 {
        assert forall|i: int| 0 <= i < s.drop_last().len() implies s.drop_last()[i] is Some by {
            assert(s.drop_last()[i] == s[i]);
        }
        lemma_live_pairs_full(s.drop_last());
        assert forall|k: int| 0 <= k < s.len() implies #[trigger] live_pairs(s)[k] == ((k as usize),
        s[k]->Some_0) by {
            if k < s.len() - 1 {
                assert(s.drop_last()[k] == s[k]);
            }
        }
    }
}

/// Every occupied slot shows up among the live pairs.
pub proof fn lemma_live_pairs_complete<T>(s: Seq<Option<T>>, i: int)
    requires
        s.len() <= usize::MAX,
        0 <= i < s.len(),
        s[i] is Some,
    ensures
        exists|k: int|
            0 <= k < live_pairs(s).len() && (#[trigger] live_pairs(s)[k]) == ((i as usize),
            s[i]->Some_0),
    decreases s.len(),
{
    if i == s.len() - 1 {
        let k = live_pairs(s).len() - 1;
        assert(live_pairs(s)[k] == ((i as usize), s[i]->Some_0));
    } else {
        assert(s.drop_last()[i] == s[i]);
        lemma_live_pairs_complete(s.drop_last(), i);
        let k = choose|k: int|
            0 <= k < live_pairs(s.drop_last()).len() && (#[trigger] live_pairs(s.drop_last())[k])
                == ((i as usize), s[i]->Some_0);
        assert(live_pairs(s)[k] == ((i as usize), s[i]->Some_0));
    }
}

/// A sparse collection with stable indices: `add` appends and returns the new
/// slot's index, `remove` tombstones a slot, `gc` compacts away the
/// tombstones, renumbering the survivors in order.
#[derive(Clone, PartialEq, Eq, Debug)]
pub struct Arena<T> {
    pub slots: Vec<Option<T>>,
    pub n_live: usize,
}

impl<T: Copy> Arena<T> {
    /// The cached live count matches the slots.
    pub open spec fn wf(self) -> bool {
        self.n_live == count_live(self.slots@)
    }

    pub fn new() -> (r: Arena<T>)
        ensures
            r.wf(),
            r.slots@.len() == 0,
            r.n_live == 0,
    {
        Arena { slots: Vec::new(), n_live: 0 }
    }

    /// Insert an element; it is stored in a fresh slot at the end, whose
    /// index is returned and stays valid until the element is removed.
    pub fn add(&mut self, t: T) -> (i: usize)
        requires
            old(self).wf(),
            old(self).slots@.len() < usize::MAX,
        ensures
            final(self).wf(),
            i == old(self).slots@.len(),
            final(self).slots@ == old(self).slots@.push(Some(t)),
            final(self).n_live == old(self).n_live + 1,
    {
        proof {
            lemma_count_live_le_len(self.slots@);
            lemma_live_push(self.slots@, Some(t));
        }
        let i = self.slots.len();
        self.slots.push(Some(t));
        self.n_live = self.n_live + 1;
        i
    }

    /// Remove the element in slot `i`, leaving a hole; `None` when the slot
    /// is out of range or already free.
    pub fn remove(&mut self, i: usize) -> (r: Option<T>)
        requires
            old(self).wf(),
        ensures
            final(self).wf(),
            i < old(self).slots@.len() && old(self).slots@[i as int] is Some ==> r == old(
                self,
            ).slots@[i as int] && final(self).slots@ == old(self).slots@.update(i as int, None)
                && final(self).n_live == old(self).n_live - 1,
            !(i < old(self).slots@.len() && old(self).slots@[i as int] is Some) ==> r is None
                && *final(self) == *old(self),
    {
        if i < self.slots.len() {
            match self.slots[i] {
                Some(t) => {
                    proof {
                        lemma_count_live_update(self.slots@, i as int, None);
                    }
                    self.slots.set(i, None);
                    self.n_live = self.n_live - 1;
                    Some(t)
                },
                None => None,
            }
        } else {
            None
        }
    }

    /// Replace the payload of an occupied slot, keeping it occupied.
    pub fn set(&mut self, i: usize, t: T)
        requires
            old(self).wf(),
            i < old(self).slots@.len(),
            old(self).slots@[i as int] is Some,
        ensures
            final(self).wf(),
            final(self).slots@ == old(self).slots@.update(i as int, Some(t)),
            final(self).n_live == old(self).n_live,
    {
        proof {
            lemma_count_live_update(self.slots@, i as int, Some(t));
        }
        self.slots.set(i, Some(t));
    }

    /// Read slot `i`; `None` when out of range or free.
    pub fn get(&self, i: usize) -> (r: Option<T>)
        ensures
            r == if i < self.slots@.len() {
                self.slots@[i as int]
            } else {
                None::<T>
            },
    {
        if i < self.slots.len() {
            self.slots[i]
        } else {
            None
        }
    }

    /// Number of live elements.
    pub fn len(&self) -> (r: usize)
        ensures
            r == self.n_live,
    {
        self.n_live
    }

    /// Number of tombstoned slots awaiting compaction.
    pub fn num_free(&self) -> (r: usize)
        requires
            self.wf(),
        ensures
            r == self.slots@.len() - self.n_live,
    {
        proof {
            lemma_count_live_le_len(self.slots@);
        }
        self.slots.len() - self.n_live
    }

    /// Number of slots, live and free together.
    pub fn num_slots(&self) -> (r: usize)
        ensures
            r == self.slots@.len(),
    {
        self.slots.len()
    }

    /// The live `(index, element)` pairs in slot order.
    pub fn iter(&self) -> (r: Vec<(usize, T)>)
        ensures
            r@ == live_pairs(self.slots@),
    {
        let mut r: Vec<(usize, T)> = Vec::new();
        let mut i: usize = 0;
        let n = self.slots.len();
        while i < n
            invariant
                i <= n,
                n == self.slots@.len(),
                r@ == live_pairs(self.slots@.take(i as int)),
            decreases n - i,
        {
            proof {
                assert(self.slots@.take(i + 1) =~= self.slots@.take(i as int).push(
                    self.slots@[i as int],
                ));
                lemma_live_push(self.slots@.take(i as int), self.slots@[i as int]);
            }
            match self.slots[i] {
                Some(t) => {
                    r.push((i, t));
                },
                None => {},
            }
            i = i + 1;
        }
        proof {
            assert(self.slots@.take(n as int) =~= self.slots@);
        }
        r
    }

    /// Compaction: drop the holes and renumber the survivors densely, in
    /// their original order. Existing indices are invalidated; the caller is
    /// responsible for resynchronising any external references.
    pub fn gc(&mut self)
        requires
            old(self).wf(),
        ensures
            final(self).wf(),
            final(self).n_live == old(self).n_live,
            final(self).slots@.len() == old(self).n_live,
            forall|k: int|
                0 <= k < final(self).slots@.len() ==> final(self).slots@[k] == Some(
                    live_list(old(self).slots@)[k],
                ),
    {
        let mut out: Vec<Option<T>> = Vec::new();
        let mut i: usize = 0;
        let n = self.slots.len();
        while i < n
            invariant
                i <= n,
                n == self.slots@.len(),
                out@ =~= live_list(self.slots@.take(i as int)).map_values(
                    (|t: T| Some(t)),
                ),
            decreases n - i,
        {
            proof {
                assert(self.slots@.take(i + 1) =~= self.slots@.take(i as int).push(
                    self.slots@[i as int],
                ));
                lemma_live_push(self.slots@.take(i as int), self.slots@[i as int]);
            }
            match self.slots[i] {
                Some(t) => {
                    out.push(Some(t));
                    proof {
                        assert(out@ =~= live_list(self.slots@.take(i + 1)).map_values(
                            (|t: T| Some(t)),
                        ));
                    }
                },
                None => {},
            }
            i = i + 1;
        }
        proof {
            assert(self.slots@.take(n as int) =~= self.slots@);
            lemma_live_pairs_sound(self.slots@);
        }
        self.slots = out;
        proof {
            lemma_count_live_full(self.slots@);
        }
    }
}

} // verus!
