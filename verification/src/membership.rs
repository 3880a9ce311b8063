//! Per-topic partial view: the set of peers a node floods each topic's
//! messages to.
//!
//! The view is fed by discovery: a discovered peer is added to every
//! subscribed topic, and an expired peer is removed from all topics unless a
//! live connection still vouches for it. Each topic's peer list is bounded;
//! when full, the oldest entry is evicted first.

use vstd::prelude::*;
use crate::PeerId;

verus! {

pub struct TopicPeers {
    pub topic: Vec<u8>,
    pub peers: Vec<PeerId>,
}

pub struct PartialView {
    entries: Vec<TopicPeers>,
    max_peers: usize,
}

/// The peer list of the first entry for a topic, if any.
pub open spec fn find_topic(s: Seq<TopicPeers>, t: Seq<u8>) -> Option<Seq<PeerId>>
    decreases s.len(),
{
    if s.len() == 0 {
        None
    } else if s[0].topic@ == t {
        Some(s[0].peers@)
    } else {
        find_topic(s.drop_first(), t)
    }
}

/// What adding a peer does to one topic's list: nothing if already present;
/// otherwise appended, evicting the oldest when the bound is reached.
pub open spec fn view_insert(peers: Seq<PeerId>, p: PeerId, cap: nat) -> Seq<PeerId> {
    if peers.contains(p) {
        peers
    } else if peers.len() < cap {
        peers.push(p)
    } else {
        peers.drop_first().push(p)
    }
}

/// Pairwise-distinct peers: a flood list never names a peer twice, so one
/// flood sends each recipient the message at most once.
pub open spec fn distinct_peers(s: Seq<PeerId>) -> bool {
    forall|i: int, j: int| 0 <= i < j < s.len() ==> s[i] != s[j]
}

/// One topic's list with every occurrence of a peer removed.
pub open spec fn retain_not(s: Seq<PeerId>, p: PeerId) -> Seq<PeerId>
    decreases s.len(),
{
    if s.len() == 0 {
        Seq::empty()
    } else {
        retain_not(s.drop_last(), p) + (if s.last() == p {
            Seq::<PeerId>::empty()
        } else {
            seq![s.last()]
        })
    }
}

/// Removal is exact: the removed peer is gone, every other peer stays.
pub proof fn lemma_retain_not(s: Seq<PeerId>, p: PeerId)
    ensures
        !retain_not(s, p).contains(p),
        forall|q: PeerId| q != p ==> (retain_not(s, p).contains(q) == s.contains(q)),
        retain_not(s, p).len() <= s.len(),
    decreases s.len(),
{
    if s.len() == 0 {
    } else {
        lemma_retain_not(s.drop_last(), p);
        let r = retain_not(s, p);
        let rh = retain_not(s.drop_last(), p);
        assert forall|q: PeerId| r.contains(q) implies (q == s.last() || rh.contains(q)) by {
            let i = choose|i: int| 0 <= i < r.len() && r[i] == q;
            if i < rh.len() {
                assert(rh[i] == q);
            }
        }
        assert forall|q: PeerId| q != p && s.contains(q) implies r.contains(q) by {
            if q == s.last() {
                assert(r[r.len() - 1] == q);
            } else {
                let i = choose|i: int| 0 <= i < s.len() && s[i] == q;
                if i < s.len() - 1 {
                    assert(s.drop_last()[i] == q);
                    assert(s.drop_last().contains(q));
                    assert(rh.contains(q));
                    let j = choose|j: int| 0 <= j < rh.len() && rh[j] == q;
                    assert(r[j] == q);
                } else {
                    assert(s.last() == q);
                }
            }
        }
        assert forall|q: PeerId| q != p && r.contains(q) implies s.contains(q) by {
            if q == s.last() {
                assert(s[s.len() - 1] == q);
            } else {
                assert(rh.contains(q) ==> s.drop_last().contains(q));
                if rh.contains(q) {
                    let i = choose|i: int| 0 <= i < s.drop_last().len() && s.drop_last()[i] == q;
                    assert(s[i] == q);
                }
            }
        }
    }
}

impl PartialView {
    /// The bound on each topic's peer list.
    pub closed spec fn spec_max_peers(&self) -> nat {
        self.max_peers as nat
    }

    /// The peer list flooded for a topic; empty when the topic is unknown.
    pub open spec fn spec_peers_of(&self, t: Seq<u8>) -> Seq<PeerId> {
        match find_topic(self.entries_view(), t) {
            Some(ps) => ps,
            None => Seq::empty(),
        }
    }

    /// Whether the view tracks a topic at all.
    pub open spec fn has_topic(&self, t: Seq<u8>) -> bool {
        find_topic(self.entries_view(), t) is Some
    }

    pub closed spec fn entries_view(&self) -> Seq<TopicPeers> {
        self.entries@
    }

    pub closed spec fn wf(&self) -> bool {
        &&& self.max_peers >= 1
        &&& forall|i: int|
            0 <= i < self.entries@.len() ==> (#[trigger] self.entries@[i]).peers@.len()
                <= self.max_peers
        &&& forall|i: int|
            0 <= i < self.entries@.len() ==> distinct_peers(
                (#[trigger] self.entries@[i]).peers@,
            )
        &&& forall|i: int, j: int|
            0 <= i < j < self.entries@.len() ==> (#[trigger] self.entries@[i]).topic@ != (
            #[trigger] self.entries@[j]).topic@
    }

    /// Every flood list a well-formed view hands out is duplicate-free.
    pub proof fn lemma_peers_of_distinct(&self, t: Seq<u8>)
        requires
            self.wf(),
        ensures
            distinct_peers(self.spec_peers_of(t)),
    {
        lemma_find_topic_some(self.entries@, t);
    }

    pub fn new(max_peers: usize) -> (r: PartialView)
        requires
            max_peers >= 1,
        ensures
            r.wf(),
            r.entries_view() == Seq::<TopicPeers>::empty(),
            r.spec_max_peers() == max_peers,
            forall|t: Seq<u8>| r.spec_peers_of(t) == Seq::<PeerId>::empty(),
    {
        let r = PartialView { entries: Vec::new(), max_peers };
        proof {
            assert(forall|t: Seq<u8>| find_topic(r.entries@, t) is None);
        }
        r
    }
}

/// A found peer list is some entry's list.
pub proof fn lemma_find_topic_some(s: Seq<TopicPeers>, t: Seq<u8>)
    ensures
        match find_topic(s, t) {
            Some(ps) => exists|j: int|
                0 <= j < s.len() && (#[trigger] s[j]).topic@ == t && s[j].peers@ == ps,
            None => true,
        },
    decreases s.len(),
{
    if s.len() == 0 {
    } else if s[0].topic@ == t {
        assert((s[0]).topic@ == t && s[0].peers@ == s[0].peers@);
    } else {
        let d = s.drop_first();
        lemma_find_topic_some(d, t);
        if find_topic(d, t) is Some {
            let ps = find_topic(d, t)->Some_0;
            let j = choose|j: int| 0 <= j < d.len() && (#[trigger] d[j]).topic@ == t && d[j].peers@
                == ps;
            assert((s[j + 1]).topic@ == t && s[j + 1].peers@ == ps);
        }
    }
}

/// Removing occurrences of a peer keeps the rest pairwise distinct.
pub proof fn lemma_retain_not_distinct(s: Seq<PeerId>, p: PeerId)
    requires
        distinct_peers(s),
    ensures
        distinct_peers(retain_not(s, p)),
    decreases s.len(),
{
    if s.len() == 0 {
    } else {
        let d = s.drop_last();
        assert(distinct_peers(d)) by {
            assert forall|i: int, j: int| 0 <= i < j < d.len() implies d[i] != d[j] by {
                assert(d[i] == s[i] && d[j] == s[j]);
            }
        }
        lemma_retain_not_distinct(d, p);
        if s.last() != p {
            lemma_retain_not(d, p);
            assert(!d.contains(s.last())) by {
                if d.contains(s.last()) {
                    let i = choose|i: int| 0 <= i < d.len() && d[i] == s.last();
                    assert(s[i] == s[s.len() - 1]);
                }
            }
            let r = retain_not(s, p);
            let rh = retain_not(d, p);
            assert forall|i: int, j: int| 0 <= i < j < r.len() implies r[i] != r[j] by {
                if j < rh.len() {
                    assert(r[i] == rh[i] && r[j] == rh[j]);
                } else {
                    assert(r[j] == s.last());
                    assert(r[i] == rh[i]);
                    assert(rh.contains(rh[i]));
                }
            }
        } else {
            assert(retain_not(s, p) + Seq::<PeerId>::empty() =~= retain_not(s, p));
            assert(retain_not(s, p) =~= retain_not(d, p));
        }
    }
}

/// Adding a peer keeps a flood list pairwise distinct.
pub proof fn lemma_view_insert_distinct(s: Seq<PeerId>, p: PeerId, cap: nat)
    requires
        cap >= 1,
        distinct_peers(s),
    ensures
        distinct_peers(view_insert(s, p, cap)),
{
    if s.contains(p) {
    } else if s.len() < cap {
        let r = s.push(p);
        assert forall|i: int, j: int| 0 <= i < j < r.len() implies r[i] != r[j] by {
            if j == r.len() - 1 {
                assert(s.contains(s[i]));
            }
        }
    } else {
        let d = s.drop_first();
        let r = d.push(p);
        assert forall|i: int, j: int| 0 <= i < j < r.len() implies r[i] != r[j] by {
            if j == r.len() - 1 {
                assert(d[i] == s[i + 1]);
                assert(s.contains(s[i + 1]));
            } else {
                assert(d[i] == s[i + 1] && d[j] == s[j + 1]);
            }
        }
    }
}

/// A topic is absent exactly when no entry names it.
pub proof fn lemma_find_topic_none(s: Seq<TopicPeers>, t: Seq<u8>)
    ensures
        (find_topic(s, t) is None) == (forall|j: int|
            0 <= j < s.len() ==> (#[trigger] s[j]).topic@ != t),
    decreases s.len(),
{
    if s.len() == 0 {
    } else {
        let d = s.drop_first();
        lemma_find_topic_none(d, t);
        if s[0].topic@ == t {
            assert(!(forall|j: int| 0 <= j < s.len() ==> (#[trigger] s[j]).topic@ != t)) by {
                assert((s[0]).topic@ == t);
            }
        } else {
            if forall|j: int| 0 <= j < d.len() ==> (#[trigger] d[j]).topic@ != t {
                assert forall|j: int| 0 <= j < s.len() implies (#[trigger] s[j]).topic@ != t by {
                    if j > 0 {
                        assert(d[j - 1] == s[j]);
                    }
                }
            } else {
                let j = choose|j: int| 0 <= j < d.len() && (#[trigger] d[j]).topic@ == t;
                assert((s[j + 1]).topic@ == t);
                assert(!(forall|j2: int| 0 <= j2 < s.len() ==> (#[trigger] s[j2]).topic@ != t));
            }
        }
    }
}

proof fn lemma_find_topic_skip(s: Seq<TopicPeers>, t: Seq<u8>, i: int)
    requires
        0 <= i <= s.len(),
        forall|j: int| 0 <= j < i ==> (#[trigger] s[j]).topic@ != t,
    ensures
        find_topic(s, t) == find_topic(s.subrange(i, s.len() as int), t),
    decreases i,
{
    if i == 0 {
        assert(s.subrange(0, s.len() as int) =~= s);
    } else {
        lemma_find_topic_skip(s, t, i - 1);
        let sub = s.subrange(i - 1, s.len() as int);
        assert(sub[0] == s[i - 1]);
        assert(sub.drop_first() =~= s.subrange(i, s.len() as int));
    }
}

/// Replacing one entry with another for the same topic changes only that
/// topic's list.
proof fn lemma_find_topic_update(s: Seq<TopicPeers>, i: int, e: TopicPeers)
    requires
        0 <= i < s.len(),
        e.topic@ == s[i].topic@,
        forall|a: int, b: int|
            0 <= a < b < s.len() ==> (#[trigger] s[a]).topic@ != (#[trigger] s[b]).topic@,
    ensures
        find_topic(s.update(i, e), s[i].topic@) == Some(e.peers@),
        forall|t: Seq<u8>|
            t != s[i].topic@ ==> #[trigger] find_topic(s.update(i, e), t) == find_topic(s, t),
    decreases i,
{
    let s2 = s.update(i, e);
    if i == 0 {
        assert(s2[0] == e);
        assert(find_topic(s2, s[0].topic@) == Some(e.peers@));
        assert(s2.drop_first() =~= s.drop_first());
        assert forall|t: Seq<u8>| t != s[0].topic@ implies #[trigger] find_topic(s2, t)
            == find_topic(s, t) by {
            assert(s2[0].topic@ == s[0].topic@);
        }
    } else {
        let d = s.drop_first();
        assert(s2[0] == s[0]);
        assert(s2.drop_first() =~= d.update(i - 1, e));
        assert(d[i - 1] == s[i]);
        assert forall|a: int, b: int|
            0 <= a < b < d.len() implies (#[trigger] d[a]).topic@ != (#[trigger] d[b]).topic@ by {
            assert(d[a] == s[a + 1]);
            assert(d[b] == s[b + 1]);
        }
        lemma_find_topic_update(d, i - 1, e);
        assert(s[0].topic@ != s[i].topic@);
        assert(find_topic(s2, s[i].topic@) == find_topic(d.update(i - 1, e), s[i].topic@));
        assert forall|t: Seq<u8>| t != s[i].topic@ implies #[trigger] find_topic(s2, t)
            == find_topic(s, t) by {
            if t == s[0].topic@ {
                assert(find_topic(s2, t) == Some(s[0].peers@));
                assert(find_topic(s, t) == Some(s[0].peers@));
            } else {
                assert(find_topic(s2, t) == find_topic(d.update(i - 1, e), t));
                assert(find_topic(d.update(i - 1, e), t) == find_topic(d, t));
                assert(find_topic(s, t) == find_topic(d, t));
            }
        }
    }
}

/// Appending an entry leaves every already-present topic's list unchanged.
proof fn lemma_find_topic_push(s: Seq<TopicPeers>, e: TopicPeers)
    ensures
        forall|t: Seq<u8>|
            #[trigger] find_topic(s.push(e), t) == (match find_topic(s, t) {
                Some(ps) => Some(ps),
                None => if e.topic@ == t {
                    Some(e.peers@)
                } else {
                    None
                },
            }),
    decreases s.len(),
{
    if s.len() == 0 {
        assert forall|t: Seq<u8>| true implies #[trigger] find_topic(s.push(e), t) == (
        match find_topic(s, t) {
            Some(ps) => Some(ps),
            None => if e.topic@ == t {
                Some(e.peers@)
            } else {
                None
            },
        }) by {
            assert(s.push(e)[0] == e);
            assert(s.push(e).drop_first() =~= Seq::<TopicPeers>::empty());
            assert(find_topic(Seq::<TopicPeers>::empty(), t) is None);
            assert(find_topic(s, t) is None);
        }
    } else {
        let d = s.drop_first();
        lemma_find_topic_push(d, e);
        assert(s.push(e)[0] == s[0]);
        assert(s.push(e).drop_first() =~= d.push(e));
        assert forall|t: Seq<u8>| true implies #[trigger] find_topic(s.push(e), t) == (
        match find_topic(s, t) {
            Some(ps) => Some(ps),
            None => if e.topic@ == t {
                Some(e.peers@)
            } else {
                None
            },
        }) by {
            if t == s[0].topic@ {
                assert(find_topic(s.push(e), t) == Some(s[0].peers@));
            } else {
                assert(find_topic(s.push(e), t) == find_topic(d.push(e), t));
                assert(find_topic(s, t) == find_topic(d, t));
            }
        }
    }
}

/// Transforming every entry's peer list pointwise transforms every topic's
/// list pointwise.
proof fn lemma_find_topic_map(s1: Seq<TopicPeers>, s2: Seq<TopicPeers>, p: PeerId)
    requires
        s1.len() == s2.len(),
        forall|j: int|
            0 <= j < s1.len() ==> (#[trigger] s2[j]).topic@ == (#[trigger] s1[j]).topic@ && s2[j].peers@
                == retain_not(s1[j].peers@, p),
    ensures
        forall|t: Seq<u8>|
            #[trigger] find_topic(s2, t) == (match find_topic(s1, t) {
                Some(ps) => Some(retain_not(ps, p)),
                None => None,
            }),
    decreases s1.len(),
{
    if s1.len() == 0 {
    } else {
        let d1 = s1.drop_first();
        let d2 = s2.drop_first();
        assert forall|j: int| 0 <= j < d1.len() implies (#[trigger] d2[j]).topic@ == (
        #[trigger] d1[j]).topic@ && d2[j].peers@ == retain_not(d1[j].peers@, p) by {
            assert(d1[j] == s1[j + 1]);
            assert(d2[j] == s2[j + 1]);
        }
        lemma_find_topic_map(d1, d2, p);
        assert(s2[0].topic@ == s1[0].topic@);
        assert forall|t: Seq<u8>| true implies #[trigger] find_topic(s2, t) == (
        match find_topic(s1, t) {
            Some(ps) => Some(retain_not(ps, p)),
            None => None,
        }) by {
            if t == s1[0].topic@ {
                assert(find_topic(s1, t) == Some(s1[0].peers@));
                assert(find_topic(s2, t) == Some(s2[0].peers@));
                assert(s2[0].peers@ == retain_not(s1[0].peers@, p));
            } else {
                assert(find_topic(s1, t) == find_topic(d1, t));
                assert(find_topic(s2, t) == find_topic(d2, t));
            }
        }
    }
}

pub(crate) fn copy_bytes(b: &Vec<u8>) -> (r: Vec<u8>)
    ensures
        r@ == b@,
{
    vstd::slice::slice_to_vec(b.as_slice())
}

pub(crate) fn bytes_eq(a: &Vec<u8>, b: &Vec<u8>) -> (r: bool)
    ensures
        r == (a@ == b@),
{
    if a.len() != b.len() {
        return false;
    }
    let mut i: usize = 0;
    while i < a.len()
        invariant
            a@.len() == b@.len(),
            i <= a@.len(),
            forall|j: int| 0 <= j < i ==> a@[j] == b@[j],
        decreases a@.len() - i,
    {
        if a[i] != b[i] {
            return false;
        }
        i += 1;
    }
    proof {
        assert(a@ =~= b@);
    }
    true
}

fn peers_contains(v: &Vec<PeerId>, p: PeerId) -> (r: bool)
    ensures
        r == v@.contains(p),
{
    let mut i: usize = 0;
    while i < v.len()
        invariant
            i <= v@.len(),
            forall|j: int| 0 <= j < i ==> v@[j] != p,
        decreases v@.len() - i,
    {
        if v[i] == p {
            return true;
        }
        i += 1;
    }
    false
}

#[verifier::loop_isolation(false)]
pub(crate) fn retain_peers(v: &Vec<PeerId>, p: PeerId) -> (r: Vec<PeerId>)
    ensures
        r@ == retain_not(v@, p),
{
    let mut out: Vec<PeerId> = Vec::new();
    let mut i: usize = 0;
    while i < v.len()
        invariant
            i <= v@.len(),
            out@ == retain_not(v@.subrange(0, i as int), p),
        decreases v@.len() - i,
    {
        let ghost pre = v@.subrange(0, i as int);
        let ghost cur = v@.subrange(0, i as int + 1);
        proof {
            assert(cur.drop_last() =~= pre);
            assert(cur.last() == v@[i as int]);
        }
        if v[i] != p {
            out.push(v[i]);
            proof {
                assert(retain_not(pre, p) + seq![v@[i as int]] =~= retain_not(pre, p).push(
                    v@[i as int],
                ));
            }
        } else {
            proof {
                assert(retain_not(pre, p) + Seq::<PeerId>::empty() =~= retain_not(pre, p));
            }
        }
        i += 1;
    }
    proof {
        assert(v@.subrange(0, v@.len() as int) =~= v@);
    }
    out
}

fn copy_peers(v: &Vec<PeerId>) -> (r: Vec<PeerId>)
    ensures
        r@ == v@,
{
    let mut out: Vec<PeerId> = Vec::new();
    let mut i: usize = 0;
    while i < v.len()
        invariant
            i <= v@.len(),
            out@ == v@.subrange(0, i as int),
        decreases v@.len() - i,
    {
        out.push(v[i]);
        proof {
            assert(v@.subrange(0, i as int).push(v@[i as int]) =~= v@.subrange(0, i as int + 1));
        }
        i += 1;
    }
    proof {
        assert(v@.subrange(0, v@.len() as int) =~= v@);
    }
    out
}

impl PartialView {
    #[verifier::loop_isolation(false)]
    fn find_index(&self, topic: &Vec<u8>) -> (r: Option<usize>)
        ensures
            match r {
                Some(i) => i < self.entries_view().len() && self.entries_view()[i as int].topic@
                    == topic@ && find_topic(self.entries_view(), topic@) == Some(
                    self.entries_view()[i as int].peers@,
                ),
                None => find_topic(self.entries_view(), topic@) is None,
            },
    {
        let mut i: usize = 0;
        while i < self.entries.len()
            invariant
                i <= self.entries@.len(),
                forall|j: int| 0 <= j < i ==> (#[trigger] self.entries@[j]).topic@ != topic@,
            decreases self.entries@.len() - i,
        {
            if bytes_eq(&self.entries[i].topic, topic) {
                proof {
                    lemma_find_topic_skip(self.entries@, topic@, i as int);
                    let sub = self.entries@.subrange(i as int, self.entries@.len() as int);
                    assert(sub[0] == self.entries@[i as int]);
                }
                return Some(i);
            }
            i += 1;
        }
        proof {
            lemma_find_topic_skip(self.entries@, topic@, self.entries@.len() as int);
        }
        None
    }

    /// The peers currently flooded for a topic (empty if the topic is not
    /// tracked).
    pub fn peers_of(&self, topic: &Vec<u8>) -> (r: Vec<PeerId>)
        ensures
            r@ == self.spec_peers_of(topic@),
    {
        match self.find_index(topic) {
            Some(i) => copy_peers(&self.entries[i].peers),
            None => Vec::new(),
        }
    }

    /// Starts tracking a topic (with no peers yet); idempotent, and no other
    /// topic's list changes.
    pub fn ensure_topic(&mut self, topic: &Vec<u8>)
        requires
            old(self).wf(),
        ensures
            final(self).wf(),
            final(self).spec_max_peers() == old(self).spec_max_peers(),
            final(self).has_topic(topic@),
            final(self).spec_peers_of(topic@) == old(self).spec_peers_of(topic@),
            forall|t: Seq<u8>|
                t != topic@ ==> #[trigger] find_topic(final(self).entries_view(), t) == find_topic(
                    old(self).entries_view(),
                    t,
                ),
    {
        match self.find_index(topic) {
            Some(_) => {},
            None => {
                proof {
                    lemma_find_topic_none(self.entries@, topic@);
                }
                let e = TopicPeers { topic: copy_bytes(topic), peers: Vec::new() };
                let ghost ge = e;
                let ghost before = self.entries@;
                self.entries.push(e);
                proof {
                    lemma_find_topic_push(before, ge);
                    assert forall|a: int, b: int|
                        0 <= a < b < self.entries@.len() implies (#[trigger] self.entries@[a]).topic@
                        != (#[trigger] self.entries@[b]).topic@ by {
                        if b < before.len() {
                            assert(self.entries@[a] == before[a]);
                            assert(self.entries@[b] == before[b]);
                        } else {
                            assert(self.entries@[a] == before[a]);
                            assert(self.entries@[b] == ge);
                        }
                    }
                }
            },
        }
    }

    /// Adds a peer to one topic's flood list: a no-op if the peer is already
    /// there or the topic is untracked; evicts the oldest peer when the list
    /// is full. No other topic changes.
    pub fn add_peer(&mut self, topic: &Vec<u8>, peer: PeerId)
        requires
            old(self).wf(),
        ensures
            final(self).wf(),
            final(self).spec_max_peers() == old(self).spec_max_peers(),
            old(self).has_topic(topic@) ==> final(self).spec_peers_of(topic@) == view_insert(
                old(self).spec_peers_of(topic@),
                peer,
                old(self).spec_max_peers(),
            ),
            !old(self).has_topic(topic@) ==> final(self).entries_view() == old(
                self,
            ).entries_view(),
            forall|t: Seq<u8>|
                t != topic@ ==> #[trigger] find_topic(final(self).entries_view(), t) == find_topic(
                    old(self).entries_view(),
                    t,
                ),
            final(self).has_topic(topic@) == old(self).has_topic(topic@),
    {
        match self.find_index(topic) {
            None => {},
            Some(i) => {
                let ghost s_old = self.entries@;
                let mut entry = self.entries.remove(i);
                if !peers_contains(&entry.peers, peer) {
                    if entry.peers.len() == self.max_peers {
                        entry.peers.remove(0);
                        proof {
                            assert(entry.peers@ =~= s_old[i as int].peers@.drop_first());
                        }
                    }
                    entry.peers.push(peer);
                }
                let ghost ge = entry;
                self.entries.insert(i, entry);
                proof {
                    assert(self.entries@ =~= s_old.update(i as int, ge));
                    lemma_find_topic_update(s_old, i as int, ge);
                    assert(ge.peers@ == view_insert(
                        s_old[i as int].peers@,
                        peer,
                        old(self).spec_max_peers(),
                    ));
                    assert forall|a: int, b: int|
                        0 <= a < b < self.entries@.len() implies (#[trigger] self.entries@[a]).topic@
                        != (#[trigger] self.entries@[b]).topic@ by {
                        assert(self.entries@[a].topic@ == s_old[a].topic@);
                        assert(self.entries@[b].topic@ == s_old[b].topic@);
                    }
                    assert forall|j: int| 0 <= j < self.entries@.len() implies distinct_peers(
                        (#[trigger] self.entries@[j]).peers@,
                    ) by {
                        if j == i as int {
                            lemma_view_insert_distinct(
                                s_old[j].peers@,
                                peer,
                                old(self).spec_max_peers(),
                            );
                        } else {
                            assert(self.entries@[j] == s_old[j]);
                        }
                    }
                }
            },
        }
    }

    /// Removes a peer from every topic's flood list; every other peer keeps
    /// its place.
    #[verifier::loop_isolation(false)]
    pub fn remove_peer(&mut self, peer: PeerId)
        requires
            old(self).wf(),
        ensures
            final(self).wf(),
            final(self).spec_max_peers() == old(self).spec_max_peers(),
            forall|t: Seq<u8>|
                #[trigger] final(self).spec_peers_of(t) == retain_not(
                    old(self).spec_peers_of(t),
                    peer,
                ),
            forall|t: Seq<u8>| #[trigger] final(self).has_topic(t) == old(self).has_topic(t),
    {
        let ghost s_old = self.entries@;
        let mut i: usize = 0;
        while i < self.entries.len()
            invariant
                i <= self.entries@.len(),
                self.entries@.len() == s_old.len(),
                self.max_peers == old(self).max_peers,
                forall|j: int|
                    0 <= j < s_old.len() ==> (#[trigger] self.entries@[j]).topic@
                        == s_old[j].topic@,
                forall|j: int|
                    0 <= j < i ==> (#[trigger] self.entries@[j]).peers@ == retain_not(
                        s_old[j].peers@,
                        peer,
                    ),
                forall|j: int|
                    i <= j < s_old.len() ==> (#[trigger] self.entries@[j]).peers@
                        == s_old[j].peers@,
            decreases s_old.len() - i,
        {
            let ghost before = self.entries@;
            let mut entry = self.entries.remove(i);
            let filtered = retain_peers(&entry.peers, peer);
            entry.peers = filtered;
            let ghost ge = entry;
            self.entries.insert(i, entry);
            proof {
                assert(self.entries@ =~= before.update(i as int, ge));
            }
            i += 1;
        }
        proof {
            lemma_find_topic_map(s_old, self.entries@, peer);
            assert forall|t: Seq<u8>| true implies #[trigger] self.spec_peers_of(t) == retain_not(
                old(self).spec_peers_of(t),
                peer,
            ) by {
                if find_topic(s_old, t) is None {
                    assert(retain_not(Seq::<PeerId>::empty(), peer) =~= Seq::<PeerId>::empty());
                }
            }
            assert forall|j: int| 0 <= j < self.entries@.len() implies (
            #[trigger] self.entries@[j]).peers@.len() <= self.max_peers by {
                assert(old(self).entries@[j] == s_old[j]);
                assert(s_old[j].peers@.len() <= self.max_peers);
                lemma_retain_not(s_old[j].peers@, peer);
            }
            assert forall|a: int, b: int|
                0 <= a < b < self.entries@.len() implies (#[trigger] self.entries@[a]).topic@ != (
            #[trigger] self.entries@[b]).topic@ by {
                assert(old(self).entries@[a] == s_old[a]);
                assert(old(self).entries@[b] == s_old[b]);
            }
            assert forall|j: int| 0 <= j < self.entries@.len() implies distinct_peers(
                (#[trigger] self.entries@[j]).peers@,
            ) by {
                assert(old(self).entries@[j] == s_old[j]);
                lemma_retain_not_distinct(s_old[j].peers@, peer);
            }
        }
    }
}

} // verus!
