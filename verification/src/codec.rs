//! Wire format for gossip frames.
//!
//! A frame is the unit sent between peers: a message identifier (origin peer
//! and per-origin sequence number), the topic the message belongs to, and the
//! application payload. All variable-length fields are length-prefixed with a
//! little-endian `u64`, so decoding is unambiguous and the round trip
//! (encode then decode) is proved exact. Malformed input decodes to `None`
//! and is never fatal.
//!
//! Textual fields (addresses, chain names, topics) are carried as their
//! UTF-8 bytes; the unverified shell converts to and from `String` at the
//! boundary.

use vstd::prelude::*;
use vstd::bytes::{
    lemma_auto_spec_u64_to_from_le_bytes, spec_u64_from_le_bytes, spec_u64_to_le_bytes,
    u64_from_le_bytes, u64_to_le_bytes,
};
use vstd::slice::{slice_subrange, slice_to_vec};

verus! {

/// Identifier of a published message: the origin peer's identity and a
/// sequence number the origin assigns. Used by the seen-cache to suppress
/// duplicate deliveries and redundant re-floods.
#[derive(Clone, Copy, PartialEq, Eq, Structural, Debug, Hash)]
pub struct MsgId {
    pub source: u64,
    pub seq: u64,
}

/// Application-level gossip payloads: a closed set of variants carrying only
/// plain fields. Text is carried as UTF-8 bytes; balances and amounts are in
/// fixed-point nano units of the chain's base currency.
#[derive(Debug, PartialEq, Eq)]
pub enum NetworkMessage {
    WalletUpdate { address: Vec<u8>, balance_nanos: u64 },
    Transaction { from: Vec<u8>, to: Vec<u8>, amount_nanos: u64, chain_type: Vec<u8> },
    PeerDiscovery { peers: Vec<Vec<u8>> },
}

/// Mathematical model of a `NetworkMessage`: the same variants over `Seq<u8>`.
pub ghost enum MessageView {
    WalletUpdate { address: Seq<u8>, balance_nanos: u64 },
    Transaction { from: Seq<u8>, to: Seq<u8>, amount_nanos: u64, chain_type: Seq<u8> },
    PeerDiscovery { peers: Seq<Seq<u8>> },
}

impl View for NetworkMessage {
    type V = MessageView;

    open spec fn view(&self) -> MessageView {
        match self {
            NetworkMessage::WalletUpdate { address, balance_nanos } => MessageView::WalletUpdate {
                address: address@,
                balance_nanos: *balance_nanos,
            },
            NetworkMessage::Transaction { from, to, amount_nanos, chain_type } => {
                MessageView::Transaction {
                    from: from@,
                    to: to@,
                    amount_nanos: *amount_nanos,
                    chain_type: chain_type@,
                }
            },
            NetworkMessage::PeerDiscovery { peers } => MessageView::PeerDiscovery {
                peers: Seq::new(peers@.len(), |i: int| peers@[i]@),
            },
        }
    }
}

pub const WALLET_UPDATE_TAG: u8 = 1;

pub const TRANSACTION_TAG: u8 = 2;

pub const PEER_DISCOVERY_TAG: u8 = 3;

/// A message can be encoded when each variable-length field's length fits in
/// the `u64` length prefix; every value built in executable code satisfies it.
pub open spec fn msg_wf(m: MessageView) -> bool {
    match m {
        MessageView::WalletUpdate { address, .. } => address.len() <= u64::MAX,
        MessageView::Transaction { from, to, chain_type, .. } => from.len() <= u64::MAX
            && to.len() <= u64::MAX && chain_type.len() <= u64::MAX,
        MessageView::PeerDiscovery { peers } => peers.len() <= u64::MAX && (forall|i: int|
            0 <= i < peers.len() ==> #[trigger] peers[i].len() <= u64::MAX),
    }
}

pub open spec fn enc_u64(x: u64) -> Seq<u8> {
    spec_u64_to_le_bytes(x)
}

/// A length-prefixed byte field.
pub open spec fn enc_bytes(b: Seq<u8>) -> Seq<u8>
    recommends
        b.len() <= u64::MAX,
{
    enc_u64(b.len() as u64) + b
}

/// The concatenation of the length-prefixed encodings of each element.
pub open spec fn enc_each(l: Seq<Seq<u8>>) -> Seq<u8>
    decreases l.len(),
{
    if l.len() == 0 {
        Seq::empty()
    } else {
        enc_bytes(l[0]) + enc_each(l.drop_first())
    }
}

/// A counted list of byte fields.
pub open spec fn enc_list(l: Seq<Seq<u8>>) -> Seq<u8>
    recommends
        l.len() <= u64::MAX,
{
    enc_u64(l.len() as u64) + enc_each(l)
}

/// The byte encoding of a message: a tag byte followed by the fields in
/// declaration order.
pub open spec fn spec_encode_message(m: MessageView) -> Seq<u8> {
    match m {
        MessageView::WalletUpdate { address, balance_nanos } => seq![WALLET_UPDATE_TAG]
            + enc_bytes(address) + enc_u64(balance_nanos),
        MessageView::Transaction { from, to, amount_nanos, chain_type } => seq![TRANSACTION_TAG]
            + enc_bytes(from) + enc_bytes(to) + enc_u64(amount_nanos) + enc_bytes(chain_type),
        MessageView::PeerDiscovery { peers } => seq![PEER_DISCOVERY_TAG] + enc_list(peers),
    }
}

/// The byte encoding of a frame: message identifier, topic, then payload.
pub open spec fn spec_encode_frame(id: MsgId, topic: Seq<u8>, m: MessageView) -> Seq<u8> {
    enc_u64(id.source) + enc_u64(id.seq) + enc_bytes(topic) + spec_encode_message(m)
}

pub open spec fn dec_u64(b: Seq<u8>, i: int) -> Option<(u64, int)> {
    if 0 <= i && i + 8 <= b.len() {
        Some((spec_u64_from_le_bytes(b.subrange(i, i + 8)), i + 8))
    } else {
        None
    }
}

pub open spec fn dec_bytes(b: Seq<u8>, i: int) -> Option<(Seq<u8>, int)> {
    match dec_u64(b, i) {
        Some((n, j)) => if j + n <= b.len() {
            Some((b.subrange(j, j + n), j + n))
        } else {
            None
        },
        None => None,
    }
}

pub open spec fn dec_each(b: Seq<u8>, i: int, count: u64) -> Option<(Seq<Seq<u8>>, int)>
    decreases count,
{
    if count == 0 {
        Some((Seq::empty(), i))
    } else {
        match dec_bytes(b, i) {
            Some((x, j)) => match dec_each(b, j, (count - 1) as u64) {
                Some((rest, k)) => Some((seq![x] + rest, k)),
                None => None,
            },
            None => None,
        }
    }
}

pub open spec fn dec_msg(b: Seq<u8>, i: int) -> Option<(MessageView, int)> {
    if 0 <= i < b.len() {
        let tag = b[i];
        if tag == WALLET_UPDATE_TAG {
            match dec_bytes(b, i + 1) {
                Some((address, j)) => match dec_u64(b, j) {
                    Some((balance_nanos, k)) => Some(
                        (MessageView::WalletUpdate { address, balance_nanos }, k),
                    ),
                    None => None,
                },
                None => None,
            }
        } else if tag == TRANSACTION_TAG {
            match dec_bytes(b, i + 1) {
                Some((from, j1)) => match dec_bytes(b, j1) {
                    Some((to, j2)) => match dec_u64(b, j2) {
                        Some((amount_nanos, j3)) => match dec_bytes(b, j3) {
                            Some((chain_type, j4)) => Some(
                                (
                                    MessageView::Transaction {
                                        from,
                                        to,
                                        amount_nanos,
                                        chain_type,
                                    },
                                    j4,
                                ),
                            ),
                            None => None,
                        },
                        None => None,
                    },
                    None => None,
                },
                None => None,
            }
        } else if tag == PEER_DISCOVERY_TAG {
            match dec_u64(b, i + 1) {
                Some((count, j)) => match dec_each(b, j, count) {
                    Some((peers, k)) => Some((MessageView::PeerDiscovery { peers }, k)),
                    None => None,
                },
                None => None,
            }
        } else {
            None
        }
    } else {
        None
    }
}

/// Decoding a whole message: the payload must occupy the buffer exactly.
pub open spec fn spec_decode_message(b: Seq<u8>) -> Option<MessageView> {
    match dec_msg(b, 0) {
        Some((m, k)) => if k == b.len() {
            Some(m)
        } else {
            None
        },
        None => None,
    }
}

/// Decoding a whole frame: the fields must occupy the buffer exactly.
pub open spec fn spec_decode_frame(b: Seq<u8>) -> Option<(MsgId, Seq<u8>, MessageView)> {
    match dec_u64(b, 0) {
        Some((source, i1)) => match dec_u64(b, i1) {
            Some((seq, i2)) => match dec_bytes(b, i2) {
                Some((topic, i3)) => match dec_msg(b, i3) {
                    Some((m, i4)) => if i4 == b.len() {
                        Some((MsgId { source, seq }, topic, m))
                    } else {
                        None
                    },
                    None => None,
                },
                None => None,
            },
            None => None,
        },
        None => None,
    }
}

fn append_u64(out: &mut Vec<u8>, x: u64)
    ensures
        final(out)@ == old(out)@ + enc_u64(x),
{
    let mut bs = u64_to_le_bytes(x);
    out.append(&mut bs);
}

fn append_bytes_field(out: &mut Vec<u8>, b: &[u8])
    ensures
        final(out)@ == old(out)@ + enc_bytes(b@),
{
    append_u64(out, b.len() as u64);
    let ghost mid = out@;
    let mut i: usize = 0;
    while i < b.len()
        invariant
            i <= b.len(),
            out@ == mid + b@.subrange(0, i as int),
        decreases b.len() - i,
    {
        out.push(*vstd::slice::slice_index_get(b, i));
        proof {
            assert(mid + b@.subrange(0, i as int) + seq![b@[i as int]] =~= mid + b@.subrange(
                0,
                i as int + 1,
            ));
        }
        i += 1;
    }
    proof {
        assert(b@.subrange(0, b@.len() as int) =~= b@);
        assert(old(out)@ + enc_u64(b@.len() as u64) + b@ =~= old(out)@ + enc_bytes(b@));
    }
}

/// Appending one more element extends the element-wise encoding on the right.
proof fn lemma_enc_each_app(a: Seq<Seq<u8>>, b: Seq<Seq<u8>>)
    ensures
        enc_each(a + b) == enc_each(a) + enc_each(b),
    decreases a.len(),
{
    if a.len() == 0 {
        assert(a + b =~= b);
        assert(enc_each(a) + enc_each(b) =~= enc_each(b));
    } else {
        assert((a + b).len() > 0);
        assert((a + b)[0] == a[0]);
        assert((a + b).drop_first() =~= a.drop_first() + b);
        lemma_enc_each_app(a.drop_first(), b);
        assert(enc_bytes(a[0]) + (enc_each(a.drop_first()) + enc_each(b)) =~= (enc_bytes(a[0])
            + enc_each(a.drop_first())) + enc_each(b));
    }
}

proof fn lemma_enc_each_snoc(l: Seq<Seq<u8>>, k: int)
    requires
        0 <= k < l.len(),
    ensures
        enc_each(l.subrange(0, k + 1)) == enc_each(l.subrange(0, k)) + enc_bytes(l[k]),
{
    let single = seq![l[k]];
    assert(l.subrange(0, k + 1) =~= l.subrange(0, k) + single);
    lemma_enc_each_app(l.subrange(0, k), single);
    assert(single.drop_first() =~= Seq::<Seq<u8>>::empty());
    assert(enc_each(Seq::<Seq<u8>>::empty()) == Seq::<u8>::empty());
    assert(enc_each(single) == enc_bytes(l[k]) + Seq::<u8>::empty());
    assert(enc_bytes(l[k]) + Seq::<u8>::empty() =~= enc_bytes(l[k]));
}

/// Encodes a message to bytes; the result is exactly the specification's
/// encoding of the message's mathematical view.
pub fn encode_message(m: &NetworkMessage) -> (out: Vec<u8>)
    ensures
        out@ == spec_encode_message(m@),
{
    let mut out: Vec<u8> = Vec::new();
    match m {
        NetworkMessage::WalletUpdate { address, balance_nanos } => {
            out.push(WALLET_UPDATE_TAG);
            append_bytes_field(&mut out, address.as_slice());
            append_u64(&mut out, *balance_nanos);
            proof {
                assert(out@ =~= spec_encode_message(m@));
            }
        },
        NetworkMessage::Transaction { from, to, amount_nanos, chain_type } => {
            out.push(TRANSACTION_TAG);
            append_bytes_field(&mut out, from.as_slice());
            append_bytes_field(&mut out, to.as_slice());
            append_u64(&mut out, *amount_nanos);
            append_bytes_field(&mut out, chain_type.as_slice());
            proof {
                assert(out@ =~= spec_encode_message(m@));
            }
        },
        NetworkMessage::PeerDiscovery { peers } => {
            out.push(PEER_DISCOVERY_TAG);
            append_u64(&mut out, peers.len() as u64);
            let ghost pv = (m@)->PeerDiscovery_peers;
            let ghost head = out@;
            let mut i: usize = 0;
            while i < peers.len()
                invariant
                    i <= peers.len(),
                    pv.len() == peers@.len(),
                    forall|t: int| 0 <= t < pv.len() ==> pv[t] == #[trigger] peers@[t]@,
                    out@ == head + enc_each(pv.subrange(0, i as int)),
                decreases peers.len() - i,
            {
                append_bytes_field(&mut out, peers[i].as_slice());
                proof {
                    lemma_enc_each_snoc(pv, i as int);
                    assert(head + enc_each(pv.subrange(0, i as int)) + enc_bytes(pv[i as int])
                        =~= head + enc_each(pv.subrange(0, i as int + 1)));
                }
                i += 1;
            }
            proof {
                assert(pv.subrange(0, pv.len() as int) =~= pv);
                assert(out@ =~= spec_encode_message(m@));
            }
        },
    }
    out
}

/// Encodes a whole frame: identifier, topic, payload.
pub fn encode_frame(id: MsgId, topic: &[u8], m: &NetworkMessage) -> (out: Vec<u8>)
    ensures
        out@ == spec_encode_frame(id, topic@, m@),
{
    let mut out: Vec<u8> = Vec::new();
    append_u64(&mut out, id.source);
    append_u64(&mut out, id.seq);
    append_bytes_field(&mut out, topic);
    let mut body = encode_message(m);
    out.append(&mut body);
    proof {
        assert(out@ =~= spec_encode_frame(id, topic@, m@));
    }
    out
}

fn read_u64(b: &[u8], i: usize) -> (r: Option<(u64, usize)>)
    ensures
        match r {
            Some((x, j)) => dec_u64(b@, i as int) == Some((x, j as int)),
            None => dec_u64(b@, i as int) is None,
        },
{
    if i <= b.len() && b.len() - i >= 8 {
        let s = slice_subrange(b, i, i + 8);
        let x = u64_from_le_bytes(s);
        Some((x, i + 8))
    } else {
        None
    }
}

fn read_bytes_field(b: &[u8], i: usize) -> (r: Option<(Vec<u8>, usize)>)
    ensures
        match r {
            Some((x, j)) => dec_bytes(b@, i as int) == Some((x@, j as int)),
            None => dec_bytes(b@, i as int) is None,
        },
{
    match read_u64(b, i) {
        Some((n, j)) => {
            if n <= (b.len() - j) as u64 {
                let end = j + (n as usize);
                let s = slice_subrange(b, j, end);
                Some((slice_to_vec(s), end))
            } else {
                None
            }
        },
        None => None,
    }
}

#[verifier::loop_isolation(false)]
fn read_msg(b: &[u8], i: usize) -> (r: Option<(NetworkMessage, usize)>)
    ensures
        match r {
            Some((m, k)) => dec_msg(b@, i as int) == Some((m@, k as int)),
            None => dec_msg(b@, i as int) is None,
        },
{
    if i >= b.len() {
        return None;
    }
    let tag = *vstd::slice::slice_index_get(b, i);
    if tag == WALLET_UPDATE_TAG {
        match read_bytes_field(b, i + 1) {
            Some((address, j)) => match read_u64(b, j) {
                Some((balance_nanos, k)) => Some(
                    (NetworkMessage::WalletUpdate { address, balance_nanos }, k),
                ),
                None => None,
            },
            None => None,
        }
    } else if tag == TRANSACTION_TAG {
        match read_bytes_field(b, i + 1) {
            Some((from, j1)) => match read_bytes_field(b, j1) {
                Some((to, j2)) => match read_u64(b, j2) {
                    Some((amount_nanos, j3)) => match read_bytes_field(b, j3) {
                        Some((chain_type, j4)) => Some(
                            (
                                NetworkMessage::Transaction {
                                    from,
                                    to,
                                    amount_nanos,
                                    chain_type,
                                },
                                j4,
                            ),
                        ),
                        None => None,
                    },
                    None => None,
                },
                None => None,
            },
            None => None,
        }
    } else if tag == PEER_DISCOVERY_TAG {
        match read_u64(b, i + 1) {
            Some((count, start)) => {
                let mut peers: Vec<Vec<u8>> = Vec::new();
                let ghost mut gpeers: Seq<Seq<u8>> = Seq::empty();
                let mut cur: usize = start;
                let mut remaining: u64 = count;
                proof {
                    assert(gpeers + Seq::<Seq<u8>>::empty() =~= gpeers);
                }
                while remaining > 0
                    invariant
                        peers@.len() == gpeers.len(),
                        forall|t: int| 0 <= t < gpeers.len() ==> #[trigger] peers@[t]@ == gpeers[t],
                        (match dec_each(b@, cur as int, remaining) {
                            Some((rest, end)) => dec_each(b@, start as int, count) == Some(
                                (gpeers + rest, end),
                            ),
                            None => dec_each(b@, start as int, count) is None,
                        }),
                    decreases remaining,
                {
                    match read_bytes_field(b, cur) {
                        Some((x, nxt)) => {
                            proof {
                                let old_g = gpeers;
                                gpeers = gpeers.push(x@);
                                assert forall|rest: Seq<Seq<u8>>|
                                    true implies old_g + (seq![x@] + rest) =~= gpeers + rest by {
                                }
                            }
                            peers.push(x);
                            cur = nxt;
                            remaining = remaining - 1;
                        },
                        None => {
                            proof {
                                assert(dec_each(b@, cur as int, remaining) is None);
                                assert(dec_each(b@, start as int, count) is None);
                            }
                            return None;
                        },
                    }
                }
                proof {
                    assert(dec_each(b@, cur as int, 0u64) == Some(
                        (Seq::<Seq<u8>>::empty(), cur as int),
                    ));
                    assert(gpeers + Seq::<Seq<u8>>::empty() =~= gpeers);
                    let mv = (NetworkMessage::PeerDiscovery { peers })@;
                    assert(mv->PeerDiscovery_peers =~= gpeers);
                }
                Some((NetworkMessage::PeerDiscovery { peers }, cur))
            },
            None => None,
        }
    } else {
        None
    }
}

/// Decodes one message that must occupy the buffer exactly; malformed or
/// trailing bytes give `None`.
pub fn decode_message(b: &[u8]) -> (r: Option<NetworkMessage>)
    ensures
        match r {
            Some(m) => spec_decode_message(b@) == Some(m@),
            None => spec_decode_message(b@) is None,
        },
{
    match read_msg(b, 0) {
        Some((m, k)) => if k == b.len() {
            Some(m)
        } else {
            None
        },
        None => None,
    }
}

/// Decodes one frame that must occupy the buffer exactly; malformed or
/// trailing bytes give `None`.
pub fn decode_frame(b: &[u8]) -> (r: Option<(MsgId, Vec<u8>, NetworkMessage)>)
    ensures
        match r {
            Some((id, topic, m)) => spec_decode_frame(b@) == Some((id, topic@, m@)),
            None => spec_decode_frame(b@) is None,
        },
{
    match read_u64(b, 0) {
        Some((source, i1)) => match read_u64(b, i1) {
            Some((seq, i2)) => match read_bytes_field(b, i2) {
                Some((topic, i3)) => match read_msg(b, i3) {
                    Some((m, i4)) => if i4 == b.len() {
                        Some((MsgId { source, seq }, topic, m))
                    } else {
                        None
                    },
                    None => None,
                },
                None => None,
            },
            None => None,
        },
        None => None,
    }
}

proof fn lemma_dec_u64_enc(pre: Seq<u8>, x: u64, post: Seq<u8>)
    ensures
        dec_u64(pre + enc_u64(x) + post, pre.len() as int) == Some((x, pre.len() as int + 8)),
{
    lemma_auto_spec_u64_to_from_le_bytes();
    let b = pre + enc_u64(x) + post;
    assert(b.subrange(pre.len() as int, pre.len() as int + 8) =~= enc_u64(x));
}

proof fn lemma_dec_bytes_enc(pre: Seq<u8>, s: Seq<u8>, post: Seq<u8>)
    requires
        s.len() <= u64::MAX,
    ensures
        dec_bytes(pre + enc_bytes(s) + post, pre.len() as int) == Some(
            (s, pre.len() as int + 8 + s.len()),
        ),
{
    lemma_auto_spec_u64_to_from_le_bytes();
    let b = pre + enc_bytes(s) + post;
    lemma_dec_u64_enc(pre, s.len() as u64, s + post);
    assert(pre + enc_u64(s.len() as u64) + (s + post) =~= b);
    assert(dec_u64(b, pre.len() as int) == Some((s.len() as u64, pre.len() as int + 8)));
    assert(b.subrange(pre.len() as int + 8, pre.len() as int + 8 + s.len()) =~= s);
}

proof fn lemma_dec_each_enc(pre: Seq<u8>, l: Seq<Seq<u8>>, post: Seq<u8>)
    requires
        l.len() <= u64::MAX,
        forall|i: int| 0 <= i < l.len() ==> #[trigger] l[i].len() <= u64::MAX,
    ensures
        dec_each(pre + enc_each(l) + post, pre.len() as int, l.len() as u64) == Some(
            (l, pre.len() as int + enc_each(l).len()),
        ),
    decreases l.len(),
{
    lemma_auto_spec_u64_to_from_le_bytes();
    let b = pre + enc_each(l) + post;
    if l.len() == 0 {
        assert(l =~= Seq::<Seq<u8>>::empty());
        assert(dec_each(b, pre.len() as int, 0u64) == Some(
            (Seq::<Seq<u8>>::empty(), pre.len() as int),
        ));
    } else {
        let x = l[0];
        let rest = l.drop_first();
        assert(enc_each(l) == enc_bytes(x) + enc_each(rest));
        lemma_dec_bytes_enc(pre, x, enc_each(rest) + post);
        assert(pre + enc_bytes(x) + (enc_each(rest) + post) =~= b);
        assert(dec_bytes(b, pre.len() as int) == Some((x, pre.len() as int + 8 + x.len())));
        lemma_dec_each_enc(pre + enc_bytes(x), rest, post);
        assert((pre + enc_bytes(x)) + enc_each(rest) + post =~= b);
        assert((pre + enc_bytes(x)).len() == pre.len() + 8 + x.len());
        assert(dec_each(b, pre.len() as int + 8 + x.len(), rest.len() as u64) == Some(
            (rest, pre.len() as int + 8 + x.len() + enc_each(rest).len()),
        ));
        assert(rest.len() as u64 == (l.len() as u64 - 1) as u64);
        assert(seq![x] + rest =~= l);
        assert(enc_each(l).len() == 8 + x.len() + enc_each(rest).len());
    }
}

#[verifier::rlimit(60)]
proof fn lemma_dec_msg_enc(pre: Seq<u8>, m: MessageView, post: Seq<u8>)
    requires
        msg_wf(m),
    ensures
        dec_msg(pre + spec_encode_message(m) + post, pre.len() as int) == Some(
            (m, pre.len() as int + spec_encode_message(m).len()),
        ),
{
    lemma_auto_spec_u64_to_from_le_bytes();
    let body = spec_encode_message(m);
    let b = pre + body + post;
    assert(b.len() == pre.len() + body.len() + post.len());
    match m {
        MessageView::WalletUpdate { address, balance_nanos } => {
            let p1 = pre + seq![WALLET_UPDATE_TAG];
            assert(b[pre.len() as int] == WALLET_UPDATE_TAG);
            lemma_dec_bytes_enc(p1, address, enc_u64(balance_nanos) + post);
            assert(p1 + enc_bytes(address) + (enc_u64(balance_nanos) + post) =~= b);
            let p2 = p1 + enc_bytes(address);
            lemma_dec_u64_enc(p2, balance_nanos, post);
            assert(p2 + enc_u64(balance_nanos) + post =~= b);
            assert(dec_bytes(b, pre.len() as int + 1) == Some((address, pre.len() as int + 9 + address.len())));
            assert(p2.len() == pre.len() + 9 + address.len());
            assert(dec_u64(b, p2.len() as int) == Some((balance_nanos, p2.len() as int + 8)));
        },
        MessageView::Transaction { from, to, amount_nanos, chain_type } => {
            let p1 = pre + seq![TRANSACTION_TAG];
            assert(b[pre.len() as int] == TRANSACTION_TAG);
            let p2 = p1 + enc_bytes(from);
            let p3 = p2 + enc_bytes(to);
            let p4 = p3 + enc_u64(amount_nanos);
            lemma_dec_bytes_enc(p1, from, enc_bytes(to) + enc_u64(amount_nanos) + enc_bytes(
                chain_type,
            ) + post);
            assert(p1 + enc_bytes(from) + (enc_bytes(to) + enc_u64(amount_nanos) + enc_bytes(
                chain_type,
            ) + post) =~= b);
            lemma_dec_bytes_enc(p2, to, enc_u64(amount_nanos) + enc_bytes(chain_type) + post);
            assert(p2 + enc_bytes(to) + (enc_u64(amount_nanos) + enc_bytes(chain_type) + post)
                =~= b);
            lemma_dec_u64_enc(p3, amount_nanos, enc_bytes(chain_type) + post);
            assert(p3 + enc_u64(amount_nanos) + (enc_bytes(chain_type) + post) =~= b);
            lemma_dec_bytes_enc(p4, chain_type, post);
            assert(p4 + enc_bytes(chain_type) + post =~= b);
            assert(p1.len() == pre.len() + 1);
            assert(p2.len() == p1.len() + 8 + from.len());
            assert(p3.len() == p2.len() + 8 + to.len());
            assert(p4.len() == p3.len() + 8);
            assert(dec_bytes(b, pre.len() as int + 1) == Some((from, p2.len() as int)));
            assert(dec_bytes(b, p2.len() as int) == Some((to, p3.len() as int)));
            assert(dec_u64(b, p3.len() as int) == Some((amount_nanos, p4.len() as int)));
            assert(dec_bytes(b, p4.len() as int) == Some(
                (chain_type, p4.len() as int + 8 + chain_type.len()),
            ));
            assert(pre.len() + body.len() == p4.len() + 8 + chain_type.len());
        },
        MessageView::PeerDiscovery { peers } => {
            let p1 = pre + seq![PEER_DISCOVERY_TAG];
            assert(b[pre.len() as int] == PEER_DISCOVERY_TAG);
            lemma_dec_u64_enc(p1, peers.len() as u64, enc_each(peers) + post);
            assert(p1 + enc_u64(peers.len() as u64) + (enc_each(peers) + post) =~= b);
            let p2 = p1 + enc_u64(peers.len() as u64);
            lemma_dec_each_enc(p2, peers, post);
            assert(p2 + enc_each(peers) + post =~= b);
            assert(p1.len() == pre.len() + 1);
            assert(p2.len() == p1.len() + 8);
            assert(dec_u64(b, pre.len() as int + 1) == Some((peers.len() as u64, p2.len() as int)));
            assert(dec_each(b, p2.len() as int, peers.len() as u64) == Some(
                (peers, p2.len() as int + enc_each(peers).len()),
            ));
            assert(pre.len() + body.len() == p2.len() + enc_each(peers).len());
        },
    }
}

/// Round trip at the message level: decoding an encoded message yields the
/// original message exactly.
pub proof fn lemma_message_round_trip(m: MessageView)
    requires
        msg_wf(m),
    ensures
        spec_decode_message(spec_encode_message(m)) == Some(m),
{
    lemma_dec_msg_enc(Seq::empty(), m, Seq::empty());
    assert(Seq::<u8>::empty() + spec_encode_message(m) + Seq::<u8>::empty() =~= spec_encode_message(
        m,
    ));
}

/// Round trip at the frame level: decoding an encoded frame yields the
/// original identifier, topic and message exactly.
pub proof fn lemma_frame_round_trip(id: MsgId, topic: Seq<u8>, m: MessageView)
    requires
        topic.len() <= u64::MAX,
        msg_wf(m),
    ensures
        spec_decode_frame(spec_encode_frame(id, topic, m)) == Some((id, topic, m)),
{
    lemma_auto_spec_u64_to_from_le_bytes();
    let b = spec_encode_frame(id, topic, m);
    lemma_dec_u64_enc(Seq::empty(), id.source, enc_u64(id.seq) + enc_bytes(topic)
        + spec_encode_message(m));
    assert(Seq::<u8>::empty() + enc_u64(id.source) + (enc_u64(id.seq) + enc_bytes(topic)
        + spec_encode_message(m)) =~= b);
    lemma_dec_u64_enc(enc_u64(id.source), id.seq, enc_bytes(topic) + spec_encode_message(m));
    assert(enc_u64(id.source) + enc_u64(id.seq) + (enc_bytes(topic) + spec_encode_message(m))
        =~= b);
    let p2 = enc_u64(id.source) + enc_u64(id.seq);
    lemma_dec_bytes_enc(p2, topic, spec_encode_message(m));
    assert(p2 + enc_bytes(topic) + spec_encode_message(m) =~= b);
    let p3 = p2 + enc_bytes(topic);
    lemma_dec_msg_enc(p3, m, Seq::empty());
    assert(p3 + spec_encode_message(m) + Seq::<u8>::empty() =~= b);
    assert(dec_u64(b, 0) == Some((id.source, 8int)));
    assert(dec_u64(b, 8) == Some((id.seq, 16int)));
    assert(p2.len() == 16);
    assert(dec_bytes(b, 16) == Some((topic, p3.len() as int)));
    assert(dec_msg(b, p3.len() as int) == Some((m, p3.len() as int + spec_encode_message(m).len())));
    assert(b.len() == p3.len() + spec_encode_message(m).len());
}

} // verus!
