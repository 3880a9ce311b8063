//! The gossip engine: topic subscription, message flooding with
//! deduplication, discovery-driven membership, and the event-loop transition.
//!
//! The engine is the single-threaded core of the event loop. Each call takes
//! one event (an inbound frame, a discovery notice, an application command)
//! to completion and returns the actions the unverified shell must perform:
//! frames to send and typed events to hand to collaborators. The engine never
//! does I/O itself and none of its operations can fail fatally: a malformed
//! frame is counted and dropped, a duplicate is discarded silently.

use vstd::prelude::*;
use crate::PeerId;
use crate::codec::{
    decode_frame, encode_frame, spec_decode_frame, spec_encode_frame, MessageView, MsgId,
    NetworkMessage,
};
use crate::membership::{
    bytes_eq, find_topic, retain_not, retain_peers, view_insert, PartialView,
};
use crate::seen::{seen_insert, SeenCache};

verus! {

/// Why a publish did not go out: the topic's partial view is empty (the
/// message is dropped, the caller informed), or the command queue is full.
#[derive(Clone, Copy, PartialEq, Eq, Structural, Debug)]
pub enum PublishError {
    NoRecipients,
    Busy,
}

/// A typed event for an external collaborator, produced by dispatching a
/// decoded message: wallet updates go to the wallet state, transactions to
/// the blockchain state, peer lists to membership.
#[derive(Debug, PartialEq, Eq)]
pub enum AppEvent {
    WalletState { address: Vec<u8>, balance_nanos: u64 },
    BlockchainTx { from: Vec<u8>, to: Vec<u8>, amount_nanos: u64, chain_type: Vec<u8> },
    Peers { peers: Vec<Vec<u8>> },
}

/// Mathematical model of an `AppEvent`.
pub ghost enum AppEventView {
    WalletState { address: Seq<u8>, balance_nanos: u64 },
    BlockchainTx { from: Seq<u8>, to: Seq<u8>, amount_nanos: u64, chain_type: Seq<u8> },
    Peers { peers: Seq<Seq<u8>> },
}

impl View for AppEvent {
    type V = AppEventView;

    open spec fn view(&self) -> AppEventView {
        match self {
            AppEvent::WalletState { address, balance_nanos } => AppEventView::WalletState {
                address: address@,
                balance_nanos: *balance_nanos,
            },
            AppEvent::BlockchainTx { from, to, amount_nanos, chain_type } => {
                AppEventView::BlockchainTx {
                    from: from@,
                    to: to@,
                    amount_nanos: *amount_nanos,
                    chain_type: chain_type@,
                }
            },
            AppEvent::Peers { peers } => AppEventView::Peers {
                peers: Seq::new(peers@.len(), |i: int| peers@[i]@),
            },
        }
    }
}

/// Where each message variant is routed; the match is exhaustive, so adding
/// a variant forces a compile-time update here.
pub open spec fn spec_dispatch(m: MessageView) -> AppEventView {
    match m {
        MessageView::WalletUpdate { address, balance_nanos } => AppEventView::WalletState {
            address,
            balance_nanos,
        },
        MessageView::Transaction { from, to, amount_nanos, chain_type } => {
            AppEventView::BlockchainTx { from, to, amount_nanos, chain_type }
        },
        MessageView::PeerDiscovery { peers } => AppEventView::Peers { peers },
    }
}

/// Routes a decoded message to the collaborator it belongs to.
pub fn dispatch(message: NetworkMessage) -> (r: AppEvent)
    ensures
        r@ == spec_dispatch(message@),
{
    match message {
        NetworkMessage::WalletUpdate { address, balance_nanos } => AppEvent::WalletState {
            address,
            balance_nanos,
        },
        NetworkMessage::Transaction { from, to, amount_nanos, chain_type } => {
            AppEvent::BlockchainTx { from, to, amount_nanos, chain_type }
        },
        NetworkMessage::PeerDiscovery { peers } => AppEvent::Peers { peers },
    }
}

/// What a publish hands back on success: the assigned identifier, the peers
/// to send to, and the encoded frame.
#[derive(Debug)]
pub struct Flood {
    pub id: MsgId,
    pub recipients: Vec<PeerId>,
    pub frame: Vec<u8>,
}

/// The outcome of receiving one raw frame.
#[derive(Debug)]
pub enum Receipt {
    /// The frame did not decode; it is dropped and counted, never fatal.
    Malformed,
    /// The identifier was already seen; discarded silently.
    Duplicate,
    /// A fresh message: deliver it locally and relay it to the topic's peers
    /// other than the one that sent it here.
    Delivered { message: NetworkMessage, topic: Vec<u8>, relay: Vec<PeerId> },
}

/// One event the loop waits on: a transport frame, a discovery notice, an
/// application command, or a stop signal.
#[derive(Debug)]
pub enum Event {
    Frame { sender: PeerId, bytes: Vec<u8> },
    Discovered { peer: PeerId },
    Expired { peer: PeerId, still_connected: bool },
    PublishRequest { topic: Vec<u8>, message: NetworkMessage },
    Shutdown,
    TransportFailed,
}

/// One action the shell performs after a step: send a frame to each
/// recipient, hand a typed event to a collaborator, report a failed publish,
/// or stop the loop.
#[derive(Debug)]
pub enum Action {
    Flood { recipients: Vec<PeerId>, frame: Vec<u8> },
    Deliver { event: AppEvent },
    PublishFailed { error: PublishError },
    Stop,
}

pub struct Engine {
    /// This node's own identity, used to stamp published messages.
    pub local_peer: PeerId,
    /// Topics this node is interested in; pairwise distinct.
    pub subscriptions: Vec<Vec<u8>>,
    /// Per-topic flood targets, fed by discovery.
    pub view: PartialView,
    /// Recently seen message identifiers, for deduplication.
    pub seen: SeenCache,
    /// Sequence number for the next published message.
    pub next_seq: u64,
    /// How many malformed frames were dropped, for observability only.
    pub decode_errors: u64,
}

impl Engine {
    pub open spec fn wf(&self) -> bool {
        &&& self.view.wf()
        &&& self.seen.wf()
        &&& forall|i: int, j: int|
            0 <= i < j < self.subscriptions@.len() ==> (#[trigger] self.subscriptions@[i])@ != (
            #[trigger] self.subscriptions@[j])@
        &&& forall|i: int|
            0 <= i < self.subscriptions@.len() ==> self.view.has_topic(
                (#[trigger] self.subscriptions@[i])@,
            )
    }

    /// Whether this node is subscribed to a topic.
    pub open spec fn spec_subscribed(&self, t: Seq<u8>) -> bool {
        exists|i: int|
            0 <= i < self.subscriptions@.len() && (#[trigger] self.subscriptions@[i])@ == t
    }

    /// A fresh engine: no subscriptions, no known peers, nothing seen.
    pub fn new(local_peer: PeerId, max_peers: usize, seen_cap: usize) -> (r: Engine)
        requires
            max_peers >= 1,
            seen_cap >= 1,
        ensures
            r.wf(),
            r.local_peer == local_peer,
            r.subscriptions@ == Seq::<Vec<u8>>::empty(),
            r.seen@ == Seq::<MsgId>::empty(),
            r.seen.spec_cap() == seen_cap,
            r.view.spec_max_peers() == max_peers,
            forall|t: Seq<u8>| r.view.spec_peers_of(t) == Seq::<PeerId>::empty(),
            r.next_seq == 0,
            r.decode_errors == 0,
    {
        Engine {
            local_peer,
            subscriptions: Vec::new(),
            view: PartialView::new(max_peers),
            seen: SeenCache::new(seen_cap),
            next_seq: 0,
            decode_errors: 0,
        }
    }

    fn is_subscribed(&self, topic: &Vec<u8>) -> (r: bool)
        ensures
            r == self.spec_subscribed(topic@),
    {
        let mut i: usize = 0;
        while i < self.subscriptions.len()
            invariant
                i <= self.subscriptions@.len(),
                forall|j: int| 0 <= j < i ==> (#[trigger] self.subscriptions@[j])@ != topic@,
            decreases self.subscriptions@.len() - i,
        {
            if bytes_eq(&self.subscriptions[i], topic) {
                return true;
            }
            i += 1;
        }
        false
    }

    /// Adds the topic to the interest set; idempotent. Future floods for the
    /// topic go to peers discovered from now on; no existing topic changes.
    pub fn subscribe(&mut self, topic: &Vec<u8>)
        requires
            old(self).wf(),
        ensures
            final(self).wf(),
            final(self).spec_subscribed(topic@),
            final(self).local_peer == old(self).local_peer,
            final(self).seen == old(self).seen,
            final(self).next_seq == old(self).next_seq,
            final(self).decode_errors == old(self).decode_errors,
            final(self).view.spec_max_peers() == old(self).view.spec_max_peers(),
            forall|t: Seq<u8>|
                #[trigger] final(self).view.spec_peers_of(t) == old(self).view.spec_peers_of(t),
            forall|t: Seq<u8>|
                t != topic@ ==> #[trigger] final(self).spec_subscribed(t) == old(self).spec_subscribed(t),
            old(self).spec_subscribed(topic@) ==> final(self).subscriptions@ == old(self).subscriptions@,
    {
        if self.is_subscribed(topic) {
            return;
        }
        self.view.ensure_topic(topic);
        let t = crate::membership::copy_bytes(topic);
        let ghost gt = t;
        let ghost before = self.subscriptions@;
        self.subscriptions.push(t);
        proof {
            assert(self.subscriptions@[self.subscriptions@.len() - 1] == gt);
            assert forall|i: int, j: int|
                0 <= i < j < self.subscriptions@.len() implies (
            #[trigger] self.subscriptions@[i])@ != (#[trigger] self.subscriptions@[j])@ by {
                if j < before.len() {
                    assert(self.subscriptions@[i] == before[i]);
                    assert(self.subscriptions@[j] == before[j]);
                } else {
                    assert(self.subscriptions@[i] == before[i]);
                    assert(old(self).spec_subscribed(before[i]@));
                }
            }
            assert forall|i: int| 0 <= i < self.subscriptions@.len() implies self.view.has_topic(
                (#[trigger] self.subscriptions@[i])@,
            ) by {
                if i < before.len() {
                    assert(self.subscriptions@[i] == before[i]);
                    assert(old(self).view.has_topic(before[i]@));
                }
            }
            assert forall|t2: Seq<u8>| t2 != topic@ implies #[trigger] self.spec_subscribed(t2)
                == old(self).spec_subscribed(t2) by {
                if old(self).spec_subscribed(t2) {
                    let i = choose|i: int|
                        0 <= i < before.len() && (#[trigger] before[i])@ == t2;
                    assert(self.subscriptions@[i]@ == t2);
                }
                if self.spec_subscribed(t2) {
                    let i = choose|i: int|
                        0 <= i < self.subscriptions@.len() && (#[trigger] self.subscriptions@[i])@
                            == t2;
                    assert(i < before.len());
                    assert(before[i]@ == t2);
                }
            }
        }
    }

    /// Publishes a message on a topic: stamps it with a fresh identifier,
    /// records the identifier as seen (so the node's own flood echoed back is
    /// discarded), and returns the frame with the topic's current flood list.
    /// With no recipients the state is unchanged and the caller is told.
    pub fn publish(&mut self, topic: &Vec<u8>, message: &NetworkMessage) -> (r: Result<
        Flood,
        PublishError,
    >)
        requires
            old(self).wf(),
            old(self).next_seq < u64::MAX,
        ensures
            final(self).wf(),
            final(self).local_peer == old(self).local_peer,
            final(self).subscriptions@ == old(self).subscriptions@,
            final(self).view == old(self).view,
            final(self).decode_errors == old(self).decode_errors,
            match r {
                Ok(f) => {
                    &&& old(self).view.spec_peers_of(topic@).len() > 0
                    &&& f.id == (MsgId { source: old(self).local_peer.id, seq: old(self).next_seq })
                    &&& f.recipients@ == old(self).view.spec_peers_of(topic@)
                    &&& f.frame@ == spec_encode_frame(f.id, topic@, message@)
                    &&& final(self).seen@ == seen_insert(
                        old(self).seen@,
                        f.id,
                        old(self).seen.spec_cap(),
                    )
                    &&& final(self).seen.spec_cap() == old(self).seen.spec_cap()
                    &&& final(self).next_seq == old(self).next_seq + 1
                },
                Err(e) => {
                    &&& e == PublishError::NoRecipients
                    &&& old(self).view.spec_peers_of(topic@).len() == 0
                    &&& *final(self) == *old(self)
                },
            },
    {
        let recipients = self.view.peers_of(topic);
        if recipients.len() == 0 {
            return Err(PublishError::NoRecipients);
        }
        let id = MsgId { source: self.local_peer.id, seq: self.next_seq };
        self.next_seq = self.next_seq + 1;
        let frame = encode_frame(id, topic.as_slice(), message);
        self.seen.insert(id);
        Ok(Flood { id, recipients, frame })
    }

    /// Takes one raw inbound frame to completion: drop it if malformed or
    /// already seen; otherwise record it and hand back the decoded message
    /// with the peers to relay it to (everyone on the topic but the sender).
    pub fn on_receive(&mut self, sender: PeerId, bytes: &Vec<u8>) -> (r: Receipt)
        requires
            old(self).wf(),
        ensures
            final(self).wf(),
            final(self).local_peer == old(self).local_peer,
            final(self).subscriptions@ == old(self).subscriptions@,
            final(self).view == old(self).view,
            final(self).next_seq == old(self).next_seq,
            final(self).seen.spec_cap() == old(self).seen.spec_cap(),
            match spec_decode_frame(bytes@) {
                None => {
                    &&& (r is Malformed)
                    &&& final(self).seen == old(self).seen
                    &&& final(self).decode_errors == (if old(self).decode_errors < u64::MAX {
                        old(self).decode_errors + 1int
                    } else {
                        old(self).decode_errors as int
                    })
                },
                Some((id, t, mv)) => {
                    &&& final(self).decode_errors == old(self).decode_errors
                    &&& if old(self).seen@.contains(id) {
                        &&& (r is Duplicate)
                        &&& final(self).seen == old(self).seen
                    } else {
                        &&& (r matches Receipt::Delivered { message, topic, relay } && {
                            &&& message@ == mv
                            &&& topic@ == t
                            &&& relay@ == retain_not(old(self).view.spec_peers_of(t), sender)
                        })
                        &&& final(self).seen@ == seen_insert(
                            old(self).seen@,
                            id,
                            old(self).seen.spec_cap(),
                        )
                    }
                },
            },
    {
        match decode_frame(bytes.as_slice()) {
            None => {
                if self.decode_errors < u64::MAX {
                    self.decode_errors = self.decode_errors + 1;
                }
                Receipt::Malformed
            },
            Some((id, topic, message)) => {
                if self.seen.contains(id) {
                    Receipt::Duplicate
                } else {
                    self.seen.insert(id);
                    let peers = self.view.peers_of(&topic);
                    let relay = retain_peers(&peers, sender);
                    Receipt::Delivered { message, topic, relay }
                }
            },
        }
    }

    /// A peer was discovered: add it to the flood list of every subscribed
    /// topic (a newly discovered peer takes part in all local topics).
    #[verifier::loop_isolation(false)]
    pub fn handle_discovered(&mut self, peer: PeerId)
        requires
            old(self).wf(),
        ensures
            final(self).wf(),
            final(self).local_peer == old(self).local_peer,
            final(self).subscriptions@ == old(self).subscriptions@,
            final(self).seen == old(self).seen,
            final(self).next_seq == old(self).next_seq,
            final(self).decode_errors == old(self).decode_errors,
            final(self).view.spec_max_peers() == old(self).view.spec_max_peers(),
            forall|i: int|
                0 <= i < old(self).subscriptions@.len() ==> final(self).view.spec_peers_of(
                    (#[trigger] old(self).subscriptions@[i])@,
                ) == view_insert(
                    old(self).view.spec_peers_of(old(self).subscriptions@[i]@),
                    peer,
                    old(self).view.spec_max_peers(),
                ),
            forall|t: Seq<u8>|
                !old(self).spec_subscribed(t) ==> #[trigger] find_topic(
                    final(self).view.entries_view(),
                    t,
                ) == find_topic(old(self).view.entries_view(), t),
    {
        let ghost subs = self.subscriptions@;
        let mut i: usize = 0;
        while i < self.subscriptions.len()
            invariant
                i <= subs.len(),
                self.subscriptions@ == subs,
                self.local_peer == old(self).local_peer,
                self.seen == old(self).seen,
                self.next_seq == old(self).next_seq,
                self.decode_errors == old(self).decode_errors,
                self.view.wf(),
                self.view.spec_max_peers() == old(self).view.spec_max_peers(),
                forall|j: int|
                    0 <= j < i ==> self.view.spec_peers_of((#[trigger] subs[j])@) == view_insert(
                        old(self).view.spec_peers_of(subs[j]@),
                        peer,
                        old(self).view.spec_max_peers(),
                    ),
                forall|t: Seq<u8>|
                    (forall|j: int| 0 <= j < i ==> (#[trigger] subs[j])@ != t)
                        ==> #[trigger] find_topic(self.view.entries_view(), t) == find_topic(
                        old(self).view.entries_view(),
                        t,
                    ),
                forall|t: Seq<u8>|
                    #[trigger] self.view.has_topic(t) == old(self).view.has_topic(t),
            decreases subs.len() - i,
        {
            proof {
                assert(old(self).view.has_topic(subs[i as int]@));
                assert(forall|j: int| 0 <= j < i ==> (#[trigger] subs[j])@ != subs[i as int]@);
                assert(find_topic(self.view.entries_view(), subs[i as int]@) == find_topic(
                    old(self).view.entries_view(),
                    subs[i as int]@,
                ));
            }
            // The topic is borrowed from self while the view is mutated, so
            // work on a copy of the topic bytes.
            let t = crate::membership::copy_bytes(&self.subscriptions[i]);
            self.view.add_peer(&t, peer);
            proof {
                assert forall|t2: Seq<u8>| (forall|j: int|
                    0 <= j < i + 1 ==> (#[trigger] subs[j])@ != t2) implies #[trigger] find_topic(
                    self.view.entries_view(),
                    t2,
                ) == find_topic(old(self).view.entries_view(), t2) by {
                    assert(t2 != subs[i as int]@);
                }
                assert forall|j: int| 0 <= j < i + 1 implies self.view.spec_peers_of(
                    (#[trigger] subs[j])@,
                ) == view_insert(
                    old(self).view.spec_peers_of(subs[j]@),
                    peer,
                    old(self).view.spec_max_peers(),
                ) by {
                    if j < i {
                        assert(subs[j]@ != subs[i as int]@);
                    }
                }
            }
            i += 1;
        }
    }

    /// A peer expired from discovery: unless a live transport connection
    /// still vouches for it, remove it from every topic's flood list.
    pub fn handle_expired(&mut self, peer: PeerId, still_connected: bool)
        requires
            old(self).wf(),
        ensures
            final(self).wf(),
            final(self).local_peer == old(self).local_peer,
            final(self).subscriptions@ == old(self).subscriptions@,
            final(self).seen == old(self).seen,
            final(self).next_seq == old(self).next_seq,
            final(self).decode_errors == old(self).decode_errors,
            final(self).view.spec_max_peers() == old(self).view.spec_max_peers(),
            still_connected ==> *final(self) == *old(self),
            !still_connected ==> forall|t: Seq<u8>|
                #[trigger] final(self).view.spec_peers_of(t) == retain_not(
                    old(self).view.spec_peers_of(t),
                    peer,
                ),
            forall|t: Seq<u8>|
                #[trigger] final(self).view.has_topic(t) == old(self).view.has_topic(t),
    {
        if !still_connected {
            self.view.remove_peer(peer);
        }
    }

    /// One iteration of the event loop: takes the event that became ready,
    /// handles it to completion, and returns the actions for the shell to
    /// perform. Never blocks, never panics; a malformed frame only bumps a
    /// counter, and only an explicit shutdown or a fatal transport report
    /// produces a stop action.
    pub fn step(&mut self, event: Event) -> (actions: Vec<Action>)
        requires
            old(self).wf(),
            old(self).next_seq < u64::MAX,
        ensures
            final(self).wf(),
            final(self).local_peer == old(self).local_peer,
            final(self).subscriptions@ == old(self).subscriptions@,
            match event {
                Event::Frame { sender, bytes } => {
                    &&& final(self).view == old(self).view
                    &&& final(self).next_seq == old(self).next_seq
                    &&& match spec_decode_frame(bytes@) {
                        None => {
                            &&& final(self).seen == old(self).seen
                            &&& final(self).decode_errors == (if old(self).decode_errors
                                < u64::MAX {
                                old(self).decode_errors + 1int
                            } else {
                                old(self).decode_errors as int
                            })
                            &&& actions@.len() == 0
                        },
                        Some((id, t, mv)) => {
                            &&& final(self).decode_errors == old(self).decode_errors
                            &&& if old(self).seen@.contains(id) {
                                &&& final(self).seen == old(self).seen
                                &&& actions@.len() == 0
                            } else {
                                &&& final(self).seen@ == seen_insert(
                                    old(self).seen@,
                                    id,
                                    old(self).seen.spec_cap(),
                                )
                                &&& actions@.len() == 2
                                &&& (actions@[0] matches Action::Deliver { event: ae } && ae@
                                    == spec_dispatch(mv))
                                &&& (actions@[1] matches Action::Flood { recipients, frame } && {
                                    &&& recipients@ == retain_not(
                                        old(self).view.spec_peers_of(t),
                                        sender,
                                    )
                                    &&& frame@ == bytes@
                                })
                            }
                        },
                    }
                },
                Event::Discovered { peer } => {
                    &&& actions@.len() == 0
                    &&& final(self).seen == old(self).seen
                    &&& final(self).next_seq == old(self).next_seq
                    &&& final(self).decode_errors == old(self).decode_errors
                    &&& final(self).view.spec_max_peers() == old(self).view.spec_max_peers()
                    &&& forall|i: int|
                        0 <= i < old(self).subscriptions@.len() ==> final(self).view.spec_peers_of((#[trigger] old(self).subscriptions@[i])@)
                            == view_insert(
                            old(self).view.spec_peers_of(old(self).subscriptions@[i]@),
                            peer,
                            old(self).view.spec_max_peers(),
                        )
                    &&& forall|t: Seq<u8>|
                        !old(self).spec_subscribed(t) ==> #[trigger] find_topic(
                            final(self).view.entries_view(),
                            t,
                        ) == find_topic(old(self).view.entries_view(), t)
                },
                Event::Expired { peer, still_connected } => {
                    &&& actions@.len() == 0
                    &&& final(self).seen == old(self).seen
                    &&& final(self).next_seq == old(self).next_seq
                    &&& final(self).decode_errors == old(self).decode_errors
                    &&& (still_connected ==> *final(self) == *old(self))
                    &&& (!still_connected ==> forall|t: Seq<u8>|
                        #[trigger] final(self).view.spec_peers_of(t) == retain_not(
                            old(self).view.spec_peers_of(t),
                            peer,
                        ))
                },
                Event::PublishRequest { topic, message } => {
                    &&& final(self).view == old(self).view
                    &&& final(self).decode_errors == old(self).decode_errors
                    &&& if old(self).view.spec_peers_of(topic@).len() == 0 {
                        &&& *final(self) == *old(self)
                        &&& actions@.len() == 1
                        &&& (actions@[0] matches Action::PublishFailed { error } && error
                            == PublishError::NoRecipients)
                    } else {
                        &&& actions@.len() == 1
                        &&& (actions@[0] matches Action::Flood { recipients, frame } && {
                            &&& recipients@ == old(self).view.spec_peers_of(topic@)
                            &&& frame@ == spec_encode_frame(
                                (MsgId {
                                    source: old(self).local_peer.id,
                                    seq: old(self).next_seq,
                                }),
                                topic@,
                                message@,
                            )
                        })
                        &&& final(self).seen@ == seen_insert(
                            old(self).seen@,
                            (MsgId { source: old(self).local_peer.id, seq: old(self).next_seq }),
                            old(self).seen.spec_cap(),
                        )
                        &&& final(self).next_seq == old(self).next_seq + 1
                    }
                },
                Event::Shutdown => {
                    &&& *final(self) == *old(self)
                    &&& actions@.len() == 1
                    &&& (actions@[0] is Stop)
                },
                Event::TransportFailed => {
                    &&& *final(self) == *old(self)
                    &&& actions@.len() == 1
                    &&& (actions@[0] is Stop)
                },
            },
    {
        let mut actions: Vec<Action> = Vec::new();
        match event {
            Event::Frame { sender, bytes } => {
                match self.on_receive(sender, &bytes) {
                    Receipt::Malformed => {},
                    Receipt::Duplicate => {},
                    Receipt::Delivered { message, topic: _, relay } => {
                        actions.push(Action::Deliver { event: dispatch(message) });
                        actions.push(Action::Flood { recipients: relay, frame: bytes });
                    },
                }
            },
            Event::Discovered { peer } => {
                self.handle_discovered(peer);
            },
            Event::Expired { peer, still_connected } => {
                self.handle_expired(peer, still_connected);
            },
            Event::PublishRequest { topic, message } => {
                match self.publish(&topic, &message) {
                    Ok(flood) => {
                        actions.push(
                            Action::Flood { recipients: flood.recipients, frame: flood.frame },
                        );
                    },
                    Err(error) => {
                        actions.push(Action::PublishFailed { error });
                    },
                }
            },
            Event::Shutdown => {
                actions.push(Action::Stop);
            },
            Event::TransportFailed => {
                actions.push(Action::Stop);
            },
        }
        actions
    }
}

/// Law: one flood sends a message to each peer at most once. The recipients
/// a well-formed engine floods a topic's message to are pairwise distinct,
/// for every topic — this is the per-hop half of delivering a published
/// message exactly once to each subscribed peer.
pub proof fn lemma_flood_targets_distinct(e: Engine, t: Seq<u8>)
    requires
        e.wf(),
    ensures
        crate::membership::distinct_peers(e.view.spec_peers_of(t)),
{
    e.view.lemma_peers_of_distinct(t);
}

/// Law: a peer whose discovery record expired with no live connection is
/// absent from every topic's partial view afterwards — in particular a peer
/// added by a discovery and expired without an intervening connection. The
/// hypothesis is exactly what handling the expiry guarantees.
pub proof fn lemma_expired_peer_absent(pre: Engine, post: Engine, p: PeerId)
    requires
        forall|t: Seq<u8>|
            #[trigger] post.view.spec_peers_of(t) == retain_not(pre.view.spec_peers_of(t), p),
    ensures
        forall|t: Seq<u8>| !(#[trigger] post.view.spec_peers_of(t)).contains(p),
{
    assert forall|t: Seq<u8>| !(#[trigger] post.view.spec_peers_of(t)).contains(p) by {
        crate::membership::lemma_retain_not(pre.view.spec_peers_of(t), p);
    }
}

/// Bounded queue of application commands feeding the event loop. A full
/// queue rejects new commands at once, so a slow loop cannot be forced into
/// unbounded memory growth and callers never block.
pub struct CommandQueue {
    cmds: Vec<Event>,
    cap: usize,
}

impl View for CommandQueue {
    type V = Seq<Event>;

    closed spec fn view(&self) -> Seq<Event> {
        self.cmds@
    }
}

impl CommandQueue {
    pub closed spec fn spec_cap(&self) -> nat {
        self.cap as nat
    }

    pub closed spec fn wf(&self) -> bool {
        self.cap >= 1 && self.cmds@.len() <= self.cap
    }

    pub fn new(cap: usize) -> (r: CommandQueue)
        requires
            cap >= 1,
        ensures
            r.wf(),
            r@ == Seq::<Event>::empty(),
            r.spec_cap() == cap,
    {
        CommandQueue { cmds: Vec::new(), cap }
    }

    /// Accepts a command unless the queue is full; a full queue fails fast
    /// with a busy error instead of blocking.
    pub fn enqueue(&mut self, event: Event) -> (r: Result<(), PublishError>)
        requires
            old(self).wf(),
        ensures
            final(self).wf(),
            final(self).spec_cap() == old(self).spec_cap(),
            match r {
                Ok(()) => old(self)@.len() < old(self).spec_cap() && final(self)@ == old(self)@.push(event),
                Err(e) => e == PublishError::Busy && old(self)@.len() == old(self).spec_cap()
                    && final(self)@ == old(self)@,
            },
    {
        if self.cmds.len() == self.cap {
            Err(PublishError::Busy)
        } else {
            self.cmds.push(event);
            Ok(())
        }
    }

    /// Hands back the oldest queued command, if any.
    pub fn dequeue(&mut self) -> (r: Option<Event>)
        requires
            old(self).wf(),
        ensures
            final(self).wf(),
            final(self).spec_cap() == old(self).spec_cap(),
            match r {
                Some(ev) => old(self)@.len() > 0 && ev == old(self)@[0] && final(self)@ == old(self)@.drop_first(),
                None => old(self)@.len() == 0 && final(self)@ == old(self)@,
            },
    {
        if self.cmds.len() == 0 {
            None
        } else {
            Some(self.cmds.remove(0))
        }
    }
}

} // verus!
