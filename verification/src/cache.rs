//! The status cache: last-known state per subsystem.
//!
//! A concurrent-looking map from [`SubsystemKey`] to its current JSON-shaped
//! value.  Patches are applied with merge-patch semantics; the whole table is
//! cleared on disconnect and re-seeded on the next successful bootstrap.  The
//! consumer task is the only writer and processes events strictly one at a
//! time, so the cache itself is a plain owned structure behind the engine.

use vstd::prelude::*;

use crate::topic::KeyModel;
use crate::topic::SubsystemKey;
use crate::value::clone_value;
use crate::value::jv_wf;
use crate::value::merge_value;
use crate::value::spec_merge;
use crate::value::view_value;
use crate::value::Jv;
use crate::value::JsonValue;

verus! {

/// The map a sequence of cache entries describes: later entries shadow
/// earlier ones, and under [`StatusCache::wf`] no key occurs twice.
pub open spec fn cache_view(s: Seq<(SubsystemKey, JsonValue)>) -> Map<KeyModel, Jv>
    decreases s.len(),
{
    if s.len() == 0 {
        Map::empty()
    } else {
        cache_view(s.drop_last()).insert(s.last().0@, view_value(s.last().1))
    }
}

/// A key's current value, or the empty object for a key not yet seen: the
/// target a merge-patch is applied to.
pub open spec fn merge_target(m: Map<KeyModel, Jv>, k: KeyModel) -> Jv {
    if m.dom().contains(k) {
        m[k]
    } else {
        Jv::Obj(Seq::empty())
    }
}

/// What a cache holds after merging `p` under key `k` into `m`.
pub open spec fn cache_after_merge(m: Map<KeyModel, Jv>, k: KeyModel, p: Jv) -> Map<KeyModel, Jv> {
    m.insert(k, spec_merge(merge_target(m, k), p))
}

/// A key of the entry sequence, by index.
pub open spec fn entry_keys_unique(s: Seq<(SubsystemKey, JsonValue)>) -> bool {
    forall|i: int, j: int| 0 <= i < j < s.len() ==> (#[trigger] s[i]).0@ != (#[trigger] s[j]).0@
}

/// The domain of the entry map is exactly the entry keys.
proof fn lemma_cache_view_dom(s: Seq<(SubsystemKey, JsonValue)>)
    ensures
        forall|k: KeyModel| #[trigger]
            cache_view(s).dom().contains(k) <==> exists|i: int|
                0 <= i < s.len() && (#[trigger] s[i]).0@ == k,
    decreases s.len(),
{
    if s.len() > 0 {
        lemma_cache_view_dom(s.drop_last());
        assert forall|k: KeyModel| #[trigger] cache_view(s).dom().contains(k) implies exists|i: int|
            0 <= i < s.len() && (#[trigger] s[i]).0@ == k by {
            if s.last().0@ == k {
                assert(s[s.len() - 1].0@ == k);
            } else {
                assert(cache_view(s.drop_last()).dom().contains(k));
                let i = choose|i: int|
                    0 <= i < s.drop_last().len() && (#[trigger] s.drop_last()[i]).0@ == k;
                assert(s[i].0@ == k);
            }
        }
        assert forall|k: KeyModel|
            exists|i: int| 0 <= i < s.len() && (#[trigger] s[i]).0@ == k implies #[trigger]
        cache_view(s).dom().contains(k) by {
            let i = choose|i: int| 0 <= i < s.len() && (#[trigger] s[i]).0@ == k;
            if i < s.len() - 1 {
                assert((#[trigger] s.drop_last()[i]).0@ == k);
                assert(cache_view(s.drop_last()).dom().contains(k));
            }
        }
    }
}

/// Each entry of a unique-keyed sequence is what its map reads at its key.
proof fn lemma_cache_view_entry(s: Seq<(SubsystemKey, JsonValue)>, i: int)
    requires
        entry_keys_unique(s),
        0 <= i < s.len(),
    ensures
        cache_view(s).dom().contains(s[i].0@),
        cache_view(s)[s[i].0@] == view_value(s[i].1),
    decreases s.len(),
{
    if i == s.len() - 1 {
        lemma_cache_view_dom(s);
    } else {
        assert forall|a: int, b: int| 0 <= a < b < s.drop_last().len() implies (#[trigger] s
            .drop_last()[a]).0@ != (#[trigger] s.drop_last()[b]).0@ by {
            assert(s.drop_last()[a] == s[a] && s.drop_last()[b] == s[b]);
        }
        lemma_cache_view_entry(s.drop_last(), i);
        assert(s.drop_last()[i] == s[i]);
        assert(s[i].0@ != s.last().0@);
    }
}

/// Sequences equal entry by entry in the model describe the same map.
proof fn lemma_cache_view_congruent(
    s1: Seq<(SubsystemKey, JsonValue)>,
    s2: Seq<(SubsystemKey, JsonValue)>,
)
    requires
        s1.len() == s2.len(),
        forall|i: int|
            0 <= i < s1.len() ==> (#[trigger] s1[i]).0@ == (#[trigger] s2[i]).0@ && view_value(
                s1[i].1,
            ) == view_value(s2[i].1),
    ensures
        cache_view(s1) == cache_view(s2),
    decreases s1.len(),
{
    if s1.len() > 0 {
        lemma_cache_view_congruent(s1.drop_last(), s2.drop_last());
        assert(s1[s1.len() - 1].0@ == s2[s2.len() - 1].0@);
        assert(view_value(s1[s1.len() - 1].1) == view_value(s2[s2.len() - 1].1));
    }
}

/// Replacing the entry at `i` with one of the same key updates the map at
/// that key and nothing else.
proof fn lemma_cache_view_update(
    s: Seq<(SubsystemKey, JsonValue)>,
    i: int,
    p: (SubsystemKey, JsonValue),
)
    requires
        entry_keys_unique(s),
        0 <= i < s.len(),
        p.0@ == s[i].0@,
    ensures
        cache_view(s.update(i, p)) == cache_view(s).insert(p.0@, view_value(p.1)),
    decreases s.len(),
{
    let t = s.update(i, p);
    if i == s.len() - 1 {
        assert(t.drop_last() =~= s.drop_last());
        assert(cache_view(t) == cache_view(s.drop_last()).insert(p.0@, view_value(p.1)));
        assert(cache_view(s.drop_last()).insert(s.last().0@, view_value(s.last().1)).insert(
            p.0@,
            view_value(p.1),
        ) =~= cache_view(s.drop_last()).insert(p.0@, view_value(p.1)));
    } else {
        assert forall|a: int, b: int| 0 <= a < b < s.drop_last().len() implies (#[trigger] s
            .drop_last()[a]).0@ != (#[trigger] s.drop_last()[b]).0@ by {
            assert(s.drop_last()[a] == s[a] && s.drop_last()[b] == s[b]);
        }
        assert(s.drop_last()[i] == s[i]);
        lemma_cache_view_update(s.drop_last(), i, p);
        assert(t.drop_last() =~= s.drop_last().update(i, p));
        assert(t.last() == s.last());
        assert(cache_view(t) == cache_view(s.drop_last().update(i, p)).insert(
            s.last().0@,
            view_value(s.last().1),
        ));
        assert(s[i].0@ != s.last().0@);
        assert(cache_view(s.drop_last()).insert(p.0@, view_value(p.1)).insert(
            s.last().0@,
            view_value(s.last().1),
        ) =~= cache_view(s.drop_last()).insert(s.last().0@, view_value(s.last().1)).insert(
            p.0@,
            view_value(p.1),
        ));
    }
}

/// The status cache.
pub struct StatusCache {
    entries: Vec<(SubsystemKey, JsonValue)>,
}

impl View for StatusCache {
    type V = Map<KeyModel, Jv>;

    closed spec fn view(&self) -> Map<KeyModel, Jv> {
        cache_view(self.entries@)
    }
}

impl StatusCache {
    /// At most one entry per key, and every stored value is well-formed.
    pub closed spec fn wf(&self) -> bool {
        entry_keys_unique(self.entries@) && forall|i: int|
            0 <= i < self.entries@.len() ==> jv_wf(view_value((#[trigger] self.entries@[i]).1))
    }

    /// An empty cache.
    pub fn new() -> (r: StatusCache)
        ensures
            r.wf(),
            r@ == Map::<KeyModel, Jv>::empty(),
    {
        StatusCache { entries: Vec::new() }
    }

    /// Empties the cache: called on disconnect, and again just before a
    /// bootstrap re-seeds it.
    pub fn clear(&mut self)
        ensures
            final(self).wf(),
            final(self)@ == Map::<KeyModel, Jv>::empty(),
    {
        self.entries.clear();
    }

    /// Applies the merge-patch `patch` to the entry of `key`, inserting an
    /// empty object first when the key is new.
    #[verifier::loop_isolation(false)]
    pub fn merge(&mut self, key: SubsystemKey, patch: &JsonValue)
        requires
            old(self).wf(),
            jv_wf(view_value(*patch)),
        ensures
            final(self).wf(),
            final(self)@ == cache_after_merge(old(self)@, key@, view_value(*patch)),
    {
        proof {
            lemma_cache_view_dom(self.entries@);
        }
        let n = self.entries.len();
        let mut i: usize = 0;
        while i < n
            invariant
                i <= n,
                n == self.entries@.len(),
                forall|j: int| 0 <= j < i ==> (#[trigger] self.entries@[j]).0@ != key@,
                self.wf(),
                self.entries@ == old(self).entries@,
            decreases n - i,
        {
            if self.entries[i].0.same_key(&key) {
                proof {
                    lemma_cache_view_entry(self.entries@, i as int);
                    assert(jv_wf(view_value(self.entries@[i as int].1)));
                }
                let cur = clone_value(&self.entries[i].1);
                let merged = merge_value(cur, patch);
                let ghost prev = self.entries@;
                let p = (key, merged);
                self.entries[i] = p;
                proof {
                    assert(self.entries@ == prev.update(i as int, self.entries@[i as int]));
                    lemma_cache_view_update(prev, i as int, self.entries@[i as int]);
                    assert forall|a: int, b: int|
                        0 <= a < b < self.entries@.len() implies (#[trigger] self.entries@[a]).0@
                        != (#[trigger] self.entries@[b]).0@ by {
                        assert(self.entries@[a].0@ == prev[a].0@);
                        assert(self.entries@[b].0@ == prev[b].0@);
                    }
                    assert forall|j: int| 0 <= j < self.entries@.len() implies jv_wf(
                        view_value((#[trigger] self.entries@[j]).1),
                    ) by {
                        if j != i as int {
                            assert(self.entries@[j] == prev[j]);
                        }
                    }
                    assert(final(self)@ =~= cache_after_merge(old(self)@, key@, view_value(*patch)));
                }
                return ;
            }
            i = i + 1;
        }
        let target = JsonValue::Obj(Vec::new());
        proof {
            assert(crate::value::view_fields(Seq::<(String, JsonValue)>::empty()) =~= Seq::<
                (Seq<char>, Jv),
            >::empty());
            assert(view_value(target) == Jv::Obj(Seq::empty()));
            assert(jv_wf(view_value(target)));
        }
        let merged = merge_value(target, patch);
        let ghost prev = self.entries@;
        self.entries.push((key, merged));
        proof {
            assert(!old(self)@.dom().contains(key@));
            assert(self.entries@.drop_last() =~= prev);
            assert(cache_view(self.entries@) == cache_view(prev).insert(key@, view_value(merged)));
            assert forall|a: int, b: int|
                0 <= a < b < self.entries@.len() implies (#[trigger] self.entries@[a]).0@
                != (#[trigger] self.entries@[b]).0@ by {
                if b == self.entries@.len() - 1 {
                    assert(self.entries@[a] == prev[a]);
                }
            }
            assert forall|j: int| 0 <= j < self.entries@.len() implies jv_wf(
                view_value((#[trigger] self.entries@[j]).1),
            ) by {
                if j != self.entries@.len() - 1 {
                    assert(self.entries@[j] == prev[j]);
                }
            }
            assert(final(self)@ =~= cache_after_merge(old(self)@, key@, view_value(*patch)));
        }
    }

    /// Replaces the entry of `key` wholesale, inserting it when new: used
    /// for feeds that always push their full state.
    #[verifier::loop_isolation(false)]
    pub fn put(&mut self, key: SubsystemKey, value: JsonValue)
        requires
            old(self).wf(),
            jv_wf(view_value(value)),
        ensures
            final(self).wf(),
            final(self)@ == old(self)@.insert(key@, view_value(value)),
    {
        proof {
            lemma_cache_view_dom(self.entries@);
        }
        let n = self.entries.len();
        let mut i: usize = 0;
        while i < n
            invariant
                i <= n,
                n == self.entries@.len(),
                forall|j: int| 0 <= j < i ==> (#[trigger] self.entries@[j]).0@ != key@,
                self.wf(),
                self.entries@ == old(self).entries@,
            decreases n - i,
        {
            if self.entries[i].0.same_key(&key) {
                let ghost prev = self.entries@;
                let p = (key, value);
                self.entries[i] = p;
                proof {
                    assert(self.entries@ == prev.update(i as int, self.entries@[i as int]));
                    lemma_cache_view_update(prev, i as int, self.entries@[i as int]);
                    assert forall|a: int, b: int|
                        0 <= a < b < self.entries@.len() implies (#[trigger] self.entries@[a]).0@
                        != (#[trigger] self.entries@[b]).0@ by {
                        assert(self.entries@[a].0@ == prev[a].0@);
                        assert(self.entries@[b].0@ == prev[b].0@);
                    }
                    assert forall|j: int| 0 <= j < self.entries@.len() implies jv_wf(
                        view_value((#[trigger] self.entries@[j]).1),
                    ) by {
                        if j != i as int {
                            assert(self.entries@[j] == prev[j]);
                        }
                    }
                }
                return ;
            }
            i = i + 1;
        }
        let ghost prev = self.entries@;
        self.entries.push((key, value));
        proof {
            assert(self.entries@.drop_last() =~= prev);
            assert forall|a: int, b: int|
                0 <= a < b < self.entries@.len() implies (#[trigger] self.entries@[a]).0@
                != (#[trigger] self.entries@[b]).0@ by {
                if b == self.entries@.len() - 1 {
                    assert(self.entries@[a] == prev[a]);
                }
            }
            assert forall|j: int| 0 <= j < self.entries@.len() implies jv_wf(
                view_value((#[trigger] self.entries@[j]).1),
            ) by {
                if j != self.entries@.len() - 1 {
                    assert(self.entries@[j] == prev[j]);
                }
            }
        }
    }

    /// The value stored under `key`, if any.
    #[verifier::loop_isolation(false)]
    pub fn lookup(&self, key: &SubsystemKey) -> (r: Option<&JsonValue>)
        requires
            self.wf(),
        ensures
            match r {
                Some(v) => self@.dom().contains(key@) && view_value(*v) == self@[key@],
                None => !self@.dom().contains(key@),
            },
    {
        proof {
            lemma_cache_view_dom(self.entries@);
        }
        let n = self.entries.len();
        let mut i: usize = 0;
        while i < n
            invariant
                i <= n,
                n == self.entries@.len(),
                forall|j: int| 0 <= j < i ==> (#[trigger] self.entries@[j]).0@ != key@,
            decreases n - i,
        {
            if self.entries[i].0.same_key(key) {
                proof {
                    lemma_cache_view_entry(self.entries@, i as int);
                }
                return Some(&self.entries[i].1);
            }
            i = i + 1;
        }
        None
    }

    /// A point-in-time copy of every entry, safe to walk while the cache
    /// moves on.  Each key appears at most once, and the copy reads exactly
    /// as the cache did.
    #[verifier::loop_isolation(false)]
    pub fn snapshot(&self) -> (r: Vec<(SubsystemKey, JsonValue)>)
        requires
            self.wf(),
        ensures
            cache_view(r@) == self@,
            entry_keys_unique(r@),
            forall|i: int|
                0 <= i < r@.len() ==> self@.dom().contains((#[trigger] r@[i]).0@)
                    && self@[r@[i].0@] == view_value(r@[i].1) && jv_wf(view_value(r@[i].1)),
            r@.len() == 0 <==> self@.dom() =~= Set::<KeyModel>::empty(),
    {
        let n = self.entries.len();
        let mut out: Vec<(SubsystemKey, JsonValue)> = Vec::new();
        let mut i: usize = 0;
        while i < n
            invariant
                i <= n,
                n == self.entries@.len(),
                out@.len() == i as int,
                forall|j: int|
                    0 <= j < i ==> (#[trigger] out@[j]).0@ == self.entries@[j].0@ && view_value(
                        out@[j].1,
                    ) == view_value(self.entries@[j].1),
                self.wf(),
            decreases n - i,
        {
            let k = self.entries[i].0.duplicate();
            let v = clone_value(&self.entries[i].1);
            out.push((k, v));
            i = i + 1;
        }
        proof {
            lemma_cache_view_congruent(out@, self.entries@);
            lemma_cache_view_dom(self.entries@);
            assert forall|j: int| 0 <= j < out@.len() implies self@.dom().contains(
                (#[trigger] out@[j]).0@,
            ) && self@[out@[j].0@] == view_value(out@[j].1) && jv_wf(view_value(out@[j].1)) by {
                lemma_cache_view_entry(self.entries@, j);
            }
            if out@.len() == 0 {
                assert(self@.dom() =~= Set::<KeyModel>::empty());
            } else {
                assert(self@.dom().contains(out@[0].0@));
            }
        }
        out
    }
}

} // verus!