//! Call/response correlation.
//!
//! Outstanding calls over the multiplexed socket are kept as a table from
//! call id to a single-use response slot.  Ids are drawn from a counter
//! scoped to one transport session, so every id handed out is unused among
//! the calls still in flight.  A matching response takes its slot out of the
//! table exactly once; a disconnect drains every slot so each waiting caller
//! can be told the connection was lost.
//!
//! The slot type is the caller's business: the engine stores whatever stands
//! for "the one place this response goes".

use vstd::prelude::*;

verus! {

/// The map a sequence of (id, slot) pairs describes: later pairs shadow
/// earlier ones, and under [`Correlator::wf`] no id occurs twice.
pub open spec fn pairs_map<S>(s: Seq<(u64, S)>) -> Map<u64, S>
    decreases s.len(),
{
    if s.len() == 0 {
        Map::empty()
    } else {
        pairs_map(s.drop_last()).insert(s.last().0, s.last().1)
    }
}

/// No id occurs twice.
pub open spec fn pair_ids_unique<S>(s: Seq<(u64, S)>) -> bool {
    forall|i: int, j: int| 0 <= i < j < s.len() ==> (#[trigger] s[i]).0 != (#[trigger] s[j]).0
}

/// The domain of the pair map is exactly the ids of the sequence.
proof fn lemma_pairs_map_dom<S>(s: Seq<(u64, S)>)
    ensures
        forall|id: u64| #[trigger]
            pairs_map(s).dom().contains(id) <==> exists|i: int|
                0 <= i < s.len() && (#[trigger] s[i]).0 == id,
    decreases s.len(),
{
    if s.len() > 0 {
        lemma_pairs_map_dom(s.drop_last());
        assert forall|id: u64| #[trigger] pairs_map(s).dom().contains(id) implies exists|i: int|
            0 <= i < s.len() && (#[trigger] s[i]).0 == id by {
            if s.last().0 == id {
                assert(s[s.len() - 1].0 == id);
            } else {
                assert(pairs_map(s.drop_last()).dom().contains(id));
                let i = choose|i: int|
                    0 <= i < s.drop_last().len() && (#[trigger] s.drop_last()[i]).0 == id;
                assert(s[i].0 == id);
            }
        }
        assert forall|id: u64|
            exists|i: int| 0 <= i < s.len() && (#[trigger] s[i]).0 == id implies #[trigger]
        pairs_map(s).dom().contains(id) by {
            let i = choose|i: int| 0 <= i < s.len() && (#[trigger] s[i]).0 == id;
            if i < s.len() - 1 {
                assert((#[trigger] s.drop_last()[i]).0 == id);
                assert(pairs_map(s.drop_last()).dom().contains(id));
            }
        }
    }
}

/// Each pair of a unique-id sequence is what its map reads at its id.
proof fn lemma_pairs_map_entry<S>(s: Seq<(u64, S)>, i: int)
    requires
        pair_ids_unique(s),
        0 <= i < s.len(),
    ensures
        pairs_map(s).dom().contains(s[i].0),
        pairs_map(s)[s[i].0] == s[i].1,
    decreases s.len(),
{
    if i == s.len() - 1 {
        lemma_pairs_map_dom(s);
    } else {
        assert forall|a: int, b: int| 0 <= a < b < s.drop_last().len() implies (#[trigger] s
            .drop_last()[a]).0 != (#[trigger] s.drop_last()[b]).0 by {
            assert(s.drop_last()[a] == s[a] && s.drop_last()[b] == s[b]);
        }
        lemma_pairs_map_entry(s.drop_last(), i);
        assert(s.drop_last()[i] == s[i]);
        assert(s[i].0 != s.last().0);
    }
}

/// Taking the pair at `i` out of a unique-id sequence removes its id from
/// the map and nothing else.
proof fn lemma_pairs_map_remove<S>(s: Seq<(u64, S)>, i: int)
    requires
        pair_ids_unique(s),
        0 <= i < s.len(),
    ensures
        pairs_map(s.remove(i)) == pairs_map(s).remove(s[i].0),
    decreases s.len(),
{
    lemma_pairs_map_dom(s.drop_last());
    if i == s.len() - 1 {
        assert(s.remove(i) =~= s.drop_last());
        assert(!pairs_map(s.drop_last()).dom().contains(s[i].0));
        assert(pairs_map(s.drop_last()).insert(s.last().0, s.last().1).remove(s[i].0)
            =~= pairs_map(s.drop_last()));
    } else {
        assert forall|a: int, b: int| 0 <= a < b < s.drop_last().len() implies (#[trigger] s
            .drop_last()[a]).0 != (#[trigger] s.drop_last()[b]).0 by {
            assert(s.drop_last()[a] == s[a] && s.drop_last()[b] == s[b]);
        }
        assert(s.drop_last()[i] == s[i]);
        lemma_pairs_map_remove(s.drop_last(), i);
        assert(s.remove(i).drop_last() =~= s.drop_last().remove(i));
        assert(s.remove(i).last() == s.last());
        assert(pairs_map(s.remove(i)) == pairs_map(s.drop_last().remove(i)).insert(
            s.last().0,
            s.last().1,
        ));
        assert(s[i].0 != s.last().0);
        assert(pairs_map(s.drop_last()).remove(s[i].0).insert(s.last().0, s.last().1)
            =~= pairs_map(s.drop_last()).insert(s.last().0, s.last().1).remove(s[i].0));
    }
}

/// The table of calls in flight.
pub struct Correlator<S> {
    next_id: u64,
    pending: Vec<(u64, S)>,
}

impl<S> View for Correlator<S> {
    type V = Map<u64, S>;

    closed spec fn view(&self) -> Map<u64, S> {
        pairs_map(self.pending@)
    }
}

impl<S> Correlator<S> {
    /// The id the next call will get.
    pub closed spec fn counter(&self) -> u64 {
        self.next_id
    }

    /// Ids are unique, and every id in flight was handed out before.
    pub closed spec fn wf(&self) -> bool {
        pair_ids_unique(self.pending@) && forall|i: int|
            0 <= i < self.pending@.len() ==> (#[trigger] self.pending@[i]).0 < self.next_id
    }

    /// An empty table.
    pub fn new() -> (r: Correlator<S>)
        ensures
            r.wf(),
            r@ == Map::<u64, S>::empty(),
            r.counter() == 0,
    {
        Correlator { next_id: 0, pending: Vec::new() }
    }

    /// The id the next call will get, without allocating it.
    pub fn peek_next_id(&self) -> (r: u64)
        ensures
            r == self.counter(),
    {
        self.next_id
    }

    /// Allocates a fresh id, unused among the calls in flight.  The counter
    /// is wide enough that a session cannot run it out.
    pub fn next_id(&mut self) -> (id: u64)
        requires
            old(self).wf(),
            old(self).counter() < u64::MAX,
        ensures
            final(self).wf(),
            id == old(self).counter(),
            final(self)@ == old(self)@,
            final(self).counter() == id + 1,
            !final(self)@.dom().contains(id),
    {
        let id = self.next_id;
        self.next_id = self.next_id + 1;
        proof {
            lemma_pairs_map_dom(self.pending@);
        }
        id
    }

    /// Stores the response slot of call `id`.
    pub fn register(&mut self, id: u64, slot: S)
        requires
            old(self).wf(),
            !old(self)@.dom().contains(id),
            id < old(self).counter(),
        ensures
            final(self).wf(),
            final(self)@ == old(self)@.insert(id, slot),
            final(self).counter() == old(self).counter(),
    {
        proof {
            lemma_pairs_map_dom(self.pending@);
        }
        let ghost prev = self.pending@;
        self.pending.push((id, slot));
        proof {
            assert(self.pending@.drop_last() =~= prev);
            assert forall|a: int, b: int|
                0 <= a < b < self.pending@.len() implies (#[trigger] self.pending@[a]).0
                != (#[trigger] self.pending@[b]).0 by {
                if b == self.pending@.len() - 1 {
                    assert(self.pending@[a] == prev[a]);
                }
            }
        }
    }

    /// Hands back the slot of call `id` and forgets the call; a response
    /// whose id has no pending call yields nothing and changes nothing.
    #[verifier::loop_isolation(false)]
    pub fn resolve(&mut self, id: u64) -> (r: Option<S>)
        requires
            old(self).wf(),
        ensures
            final(self).wf(),
            final(self).counter() == old(self).counter(),
            match r {
                Some(slot) => old(self)@.dom().contains(id) && slot == old(self)@[id]
                    && final(self)@ == old(self)@.remove(id),
                None => !old(self)@.dom().contains(id) && final(self)@ == old(self)@,
            },
    {
        proof {
            lemma_pairs_map_dom(self.pending@);
        }
        let n = self.pending.len();
        let mut i: usize = 0;
        while i < n
            invariant
                i <= n,
                n == self.pending@.len(),
                forall|j: int| 0 <= j < i ==> (#[trigger] self.pending@[j]).0 != id,
                self.wf(),
                self.pending@ == old(self).pending@,
                self.counter() == old(self).counter(),
            decreases n - i,
        {
            if self.pending[i].0 == id {
                proof {
                    lemma_pairs_map_entry(self.pending@, i as int);
                    lemma_pairs_map_remove(self.pending@, i as int);
                }
                let ghost prev = self.pending@;
                let pair = self.pending.remove(i);
                proof {
                    assert forall|a: int, b: int|
                        0 <= a < b < self.pending@.len() implies (#[trigger] self.pending@[a]).0
                        != (#[trigger] self.pending@[b]).0 by {
                        let a0: int = if a < i as int {
                            a
                        } else {
                            a + 1
                        };
                        let b0: int = if b < i as int {
                            b
                        } else {
                            b + 1
                        };
                        assert(self.pending@[a] == prev[a0] && self.pending@[b] == prev[b0]);
                    }
                    assert forall|j: int| 0 <= j < self.pending@.len() implies (#[trigger] self
                        .pending@[j]).0 < self.next_id by {
                        let j0: int = if j < i as int {
                            j
                        } else {
                            j + 1
                        };
                        assert(self.pending@[j] == prev[j0]);
                    }
                }
                return Some(pair.1);
            }
            i = i + 1;
        }
        None
    }

    /// Empties the table and hands back every outstanding call with its
    /// slot, so the caller can fail each one: invoked on disconnect.
    pub fn fail_all(&mut self) -> (r: Vec<(u64, S)>)
        requires
            old(self).wf(),
        ensures
            final(self).wf(),
            final(self)@ == Map::<u64, S>::empty(),
            final(self).counter() == old(self).counter(),
            pairs_map(r@) == old(self)@,
            pair_ids_unique(r@),
            forall|i: int| 0 <= i < r@.len() ==> old(self)@.dom().contains((#[trigger] r@[i]).0),
            forall|id: u64| #[trigger]
                old(self)@.dom().contains(id) ==> exists|i: int|
                    0 <= i < r@.len() && (#[trigger] r@[i]).0 == id && r@[i].1 == old(self)@[id],
    {
        let mut out: Vec<(u64, S)> = Vec::new();
        core::mem::swap(&mut self.pending, &mut out);
        proof {
            lemma_pairs_map_dom(out@);
            assert forall|id: u64| #[trigger] old(self)@.dom().contains(id) implies exists|i: int|
                0 <= i < out@.len() && (#[trigger] out@[i]).0 == id && out@[i].1 == old(self)@[id] by {
                let i = choose|i: int| 0 <= i < out@.len() && (#[trigger] out@[i]).0 == id;
                lemma_pairs_map_entry(out@, i);
            }
        }
        out
    }
}

} // verus!