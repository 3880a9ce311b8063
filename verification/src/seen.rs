//! Bounded record of recently seen message identifiers.
//!
//! The cache suppresses duplicate deliveries and redundant re-floods: a frame
//! whose identifier is already present is discarded. It is bounded; when full,
//! the oldest entry is evicted first, so deduplication is guaranteed only
//! while an identifier remains in the window.

use vstd::prelude::*;
use crate::codec::MsgId;

verus! {

pub struct SeenCache {
    ids: Vec<MsgId>,
    cap: usize,
}

impl View for SeenCache {
    type V = Seq<MsgId>;

    closed spec fn view(&self) -> Seq<MsgId> {
        self.ids@
    }
}

/// What inserting an identifier does to the cache's contents: nothing if it
/// is already present; otherwise it is appended, evicting the oldest entry
/// when the cache is full.
pub open spec fn seen_insert(s: Seq<MsgId>, id: MsgId, cap: nat) -> Seq<MsgId> {
    if s.contains(id) {
        s
    } else if s.len() < cap {
        s.push(id)
    } else {
        s.drop_first().push(id)
    }
}

/// Law: recording an identifier always leaves it recorded, whether the cache
/// had room or evicted its oldest entry for it.
pub proof fn lemma_seen_insert_records(s: Seq<MsgId>, id: MsgId, cap: nat)
    ensures
        seen_insert(s, id, cap).contains(id),
{
    if s.contains(id) {
    } else if s.len() < cap {
        assert(s.push(id)[s.len() as int] == id);
    } else {
        let r = s.drop_first().push(id);
        assert(r[r.len() - 1] == id);
    }
}

/// The cache contents after receiving a sequence of identifiers, oldest
/// first.
pub open spec fn run_seen(seen0: Seq<MsgId>, ids: Seq<MsgId>, cap: nat) -> Seq<MsgId>
    decreases ids.len(),
{
    if ids.len() == 0 {
        seen0
    } else {
        seen_insert(run_seen(seen0, ids.drop_last(), cap), ids.last(), cap)
    }
}

/// Whether the receive at position `k` delivers: its identifier is not yet
/// in the cache when it arrives.
pub open spec fn delivered_at(seen0: Seq<MsgId>, ids: Seq<MsgId>, cap: nat, k: int) -> bool
    recommends
        0 <= k < ids.len(),
{
    !run_seen(seen0, ids.take(k), cap).contains(ids[k])
}

proof fn lemma_run_seen_len(seen0: Seq<MsgId>, ids: Seq<MsgId>, cap: nat)
    requires
        cap >= 1,
    ensures
        run_seen(seen0, ids, cap).len() <= seen0.len() + ids.len(),
    decreases ids.len(),
{
    if ids.len() > 0 {
        lemma_run_seen_len(seen0, ids.drop_last(), cap);
        let prev = run_seen(seen0, ids.drop_last(), cap);
        let id = ids.last();
        if !prev.contains(id) && prev.len() >= cap {
            assert(prev.drop_first().push(id).len() == prev.len());
        }
    }
}

proof fn lemma_insert_keeps_members(s: Seq<MsgId>, id: MsgId, cap: nat, x: MsgId)
    requires
        s.len() < cap,
        s.contains(x),
    ensures
        seen_insert(s, id, cap).contains(x),
{
    if !s.contains(id) {
        let i = choose|i: int| 0 <= i < s.len() && s[i] == x;
        assert(s.push(id)[i] == x);
    }
}

proof fn lemma_contains_up_to(seen0: Seq<MsgId>, ids: Seq<MsgId>, cap: nat, x: MsgId, m1: int, m2: int)
    requires
        cap >= 1,
        seen0.len() + ids.len() <= cap,
        0 <= m1 <= m2 <= ids.len(),
        run_seen(seen0, ids.take(m1), cap).contains(x),
    ensures
        run_seen(seen0, ids.take(m2), cap).contains(x),
    decreases m2 - m1,
{
    if m1 < m2 {
        lemma_contains_up_to(seen0, ids, cap, x, m1, m2 - 1);
        let prev = run_seen(seen0, ids.take(m2 - 1), cap);
        assert(ids.take(m2).drop_last() =~= ids.take(m2 - 1));
        assert(ids.take(m2).last() == ids[m2 - 1]);
        lemma_run_seen_len(seen0, ids.take(m2 - 1), cap);
        assert(prev.len() < cap);
        lemma_insert_keeps_members(prev, ids[m2 - 1], cap, x);
    }
}

proof fn lemma_insert_members(s: Seq<MsgId>, id: MsgId, cap: nat, x: MsgId)
    requires
        cap >= 1,
        seen_insert(s, id, cap).contains(x),
    ensures
        s.contains(x) || x == id,
{
    let r = seen_insert(s, id, cap);
    if !s.contains(id) {
        let i = choose|i: int| 0 <= i < r.len() && r[i] == x;
        if s.len() < cap {
            if i < s.len() {
                assert(s[i] == x);
            }
        } else {
            if i < r.len() - 1 {
                assert(s.drop_first()[i] == x);
                assert(s[i + 1] == x);
            }
        }
    }
}

proof fn lemma_run_seen_members(seen0: Seq<MsgId>, ids: Seq<MsgId>, cap: nat, x: MsgId)
    requires
        cap >= 1,
        run_seen(seen0, ids, cap).contains(x),
    ensures
        seen0.contains(x) || ids.contains(x),
    decreases ids.len(),
{
    if ids.len() > 0 {
        lemma_insert_members(run_seen(seen0, ids.drop_last(), cap), ids.last(), cap, x);
        if x == ids.last() {
            assert(ids[ids.len() - 1] == x);
        } else if run_seen(seen0, ids.drop_last(), cap).contains(x) {
            lemma_run_seen_members(seen0, ids.drop_last(), cap, x);
            if ids.drop_last().contains(x) {
                let i = choose|i: int| 0 <= i < ids.drop_last().len() && ids.drop_last()[i] == x;
                assert(ids[i] == x);
            }
        }
    }
}

/// Law: the first copy of a fresh message identifier to arrive is delivered:
/// a receive whose identifier is not initially cached and has not arrived
/// before is never discarded. With the at-most-once law below, a node that
/// is sent a published message delivers it exactly once.
pub proof fn lemma_first_receive_delivers(seen0: Seq<MsgId>, ids: Seq<MsgId>, cap: nat, k: int)
    requires
        cap >= 1,
        0 <= k < ids.len(),
        !seen0.contains(ids[k]),
        forall|j: int| 0 <= j < k ==> ids[j] != ids[k],
    ensures
        delivered_at(seen0, ids, cap, k),
{
    if run_seen(seen0, ids.take(k), cap).contains(ids[k]) {
        lemma_run_seen_members(seen0, ids.take(k), cap, ids[k]);
        if ids.take(k).contains(ids[k]) {
            let j = choose|j: int| 0 <= j < ids.take(k).len() && ids.take(k)[j] == ids[k];
            assert(ids[j] == ids[k]);
        }
    }
}

/// Law: a node delivers a given message identifier at most once, over any
/// sequence of received frames and whatever order the flood graph's cycles
/// bring them in, as long as the cache window is not exhausted (its capacity
/// covers the identifiers received). Two receives of the same identifier are
/// never both delivered: once one is, the identifier is recorded and every
/// later copy is discarded as a duplicate.
pub proof fn lemma_at_most_one_delivery(
    seen0: Seq<MsgId>,
    ids: Seq<MsgId>,
    cap: nat,
    j: int,
    k: int,
)
    requires
        seen0.len() + ids.len() <= cap,
        0 <= j < k < ids.len(),
        ids[j] == ids[k],
    ensures
        !(delivered_at(seen0, ids, cap, j) && delivered_at(seen0, ids, cap, k)),
{
    if delivered_at(seen0, ids, cap, j) {
        let after_j = run_seen(seen0, ids.take(j + 1), cap);
        assert(ids.take(j + 1).drop_last() =~= ids.take(j));
        assert(ids.take(j + 1).last() == ids[j]);
        lemma_seen_insert_records(run_seen(seen0, ids.take(j), cap), ids[j], cap);
        assert(after_j.contains(ids[j]));
        lemma_contains_up_to(seen0, ids, cap, ids[j], j + 1, k);
        assert(run_seen(seen0, ids.take(k), cap).contains(ids[k]));
    }
}

impl SeenCache {
    /// The configured bound; the cache never holds more identifiers.
    pub closed spec fn spec_cap(&self) -> nat {
        self.cap as nat
    }

    pub closed spec fn wf(&self) -> bool {
        self.cap >= 1 && self.ids@.len() <= self.cap
    }

    pub fn new(cap: usize) -> (r: SeenCache)
        requires
            cap >= 1,
        ensures
            r.wf(),
            r@ == Seq::<MsgId>::empty(),
            r.spec_cap() == cap,
    {
        SeenCache { ids: Vec::new(), cap }
    }

    pub fn contains(&self, id: MsgId) -> (r: bool)
        ensures
            r == self@.contains(id),
    {
        let mut i: usize = 0;
        while i < self.ids.len()
            invariant
                i <= self.ids@.len(),
                forall|t: int| 0 <= t < i ==> self.ids@[t] != id,
            decreases self.ids@.len() - i,
        {
            if self.ids[i] == id {
                return true;
            }
            i += 1;
        }
        false
    }

    /// Records an identifier, evicting the oldest when the bound is reached.
    pub fn insert(&mut self, id: MsgId)
        requires
            old(self).wf(),
        ensures
            final(self).wf(),
            final(self)@ == seen_insert(old(self)@, id, old(self).spec_cap()),
            final(self).spec_cap() == old(self).spec_cap(),
            final(self)@.contains(id),
    {
        if self.contains(id) {
            return;
        }
        if self.ids.len() == self.cap {
            self.ids.remove(0);
            proof {
                assert(self.ids@ =~= old(self).ids@.drop_first());
            }
        }
        self.ids.push(id);
        proof {
            assert(self.ids@[self.ids@.len() - 1] == id);
        }
    }
}

} // verus!
