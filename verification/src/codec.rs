//! The wire codec: a binary encoding of [`Message`] sent as one transport
//! frame per message.
//!
//! Layout: integers are 8-byte little-endian; a string is its UTF-8 bytes
//! preceded by their length; a peer is its username followed by the four
//! address octets; a hierarchy is a peer count followed by the peers in
//! order; a room is its name followed by its hierarchy; payloads open with a
//! one-byte variant tag. Decoding accepts exactly the encodings of messages
//! and consumes the whole frame: `decode` of `encode` returns the original
//! message.

use vstd::prelude::*;

use vstd::bytes::{
    lemma_auto_spec_u64_to_from_le_bytes, spec_u64_from_le_bytes, spec_u64_to_le_bytes,
    u64_from_le_bytes, u64_to_le_bytes,
};
use vstd::slice::{slice_subrange, slice_to_vec};
use vstd::string::StrSliceExecFns;
use vstd::utf8::{decode_utf8, encode_utf8, valid_utf8};

use crate::hierarchy::Hierarchy;
use crate::message::{ForwardPayload, ForwardPayloadView, Message, MessageView, Payload, PayloadView};
use crate::peer::{Ipv4Address, Peer, PeerView};
use crate::room::{Room, RoomView};

verus! {

/// Variant tag of `ForwardPayload::Text`.
pub const TAG_TEXT: u8 = 1;

/// Variant tag of `ForwardPayload::Notification`.
pub const TAG_NOTIFICATION: u8 = 2;

/// Variant tag of `Payload::JoinReq`.
pub const TAG_JOIN_REQ: u8 = 1;

/// Variant tag of `Payload::Sync`.
pub const TAG_SYNC: u8 = 2;

/// Variant tag of `Payload::Forward`.
pub const TAG_FORWARD: u8 = 3;

// ---------------------------------------------------------------------------
// Encoding, abstractly.
// ---------------------------------------------------------------------------

/// A byte block preceded by its length.
pub open spec fn spec_encode_chunk(b: Seq<u8>) -> Seq<u8> {
    spec_u64_to_le_bytes(b.len() as u64) + b
}

/// A string: its UTF-8 bytes, length-prefixed.
pub open spec fn spec_encode_string(s: Seq<char>) -> Seq<u8> {
    spec_encode_chunk(encode_utf8(s))
}

/// An address: its four octets.
pub open spec fn spec_encode_address(a: Ipv4Address) -> Seq<u8> {
    seq![a.octet0, a.octet1, a.octet2, a.octet3]
}

/// A peer: username, then address.
pub open spec fn spec_encode_peer(p: PeerView) -> Seq<u8> {
    spec_encode_string(p.username) + spec_encode_address(p.address)
}

/// A peer list, in order, without a count.
pub open spec fn spec_encode_peers(s: Seq<PeerView>) -> Seq<u8>
    decreases s.len(),
{
    if s.len() == 0 {
        Seq::empty()
    } else {
        spec_encode_peer(s[0]) + spec_encode_peers(s.skip(1))
    }
}

/// A hierarchy: peer count, then the peers in succession order.
pub open spec fn spec_encode_hierarchy(h: Seq<PeerView>) -> Seq<u8> {
    spec_u64_to_le_bytes(h.len() as u64) + spec_encode_peers(h)
}

/// A room: name, then hierarchy.
pub open spec fn spec_encode_room(r: RoomView) -> Seq<u8> {
    spec_encode_string(r.name) + spec_encode_hierarchy(r.hierarchy)
}

/// A user payload: variant tag, then the text.
pub open spec fn spec_encode_forward(f: ForwardPayloadView) -> Seq<u8> {
    match f {
        ForwardPayloadView::Text(s) => seq![TAG_TEXT] + spec_encode_string(s),
        ForwardPayloadView::Notification(s) => seq![TAG_NOTIFICATION] + spec_encode_string(s),
    }
}

/// A protocol payload: variant tag, then the fields in order.
pub open spec fn spec_encode_payload(p: PayloadView) -> Seq<u8> {
    match p {
        PayloadView::JoinReq(peer) => seq![TAG_JOIN_REQ] + spec_encode_peer(peer),
        PayloadView::Sync(room) => seq![TAG_SYNC] + spec_encode_room(room),
        PayloadView::Forward(peer, f) => seq![TAG_FORWARD] + spec_encode_peer(peer)
            + spec_encode_forward(f),
    }
}

/// A message frame: exactly its payload's encoding.
pub open spec fn spec_encode_message(m: MessageView) -> Seq<u8> {
    spec_encode_payload(m.payload)
}

// ---------------------------------------------------------------------------
// Encodability: every length must fit its 8-byte prefix. Every message that
// exists in memory satisfies this; the predicates make the bound explicit
// for the abstract round-trip statement.
// ---------------------------------------------------------------------------

pub open spec fn wf_string(s: Seq<char>) -> bool {
    encode_utf8(s).len() <= u64::MAX
}

pub open spec fn wf_peer(p: PeerView) -> bool {
    wf_string(p.username)
}

pub open spec fn wf_peers(s: Seq<PeerView>) -> bool {
    &&& s.len() <= u64::MAX
    &&& forall|i: int| 0 <= i < s.len() ==> wf_peer(#[trigger] s[i])
}

pub open spec fn wf_room(r: RoomView) -> bool {
    wf_string(r.name) && wf_peers(r.hierarchy)
}

pub open spec fn wf_forward(f: ForwardPayloadView) -> bool {
    match f {
        ForwardPayloadView::Text(s) => wf_string(s),
        ForwardPayloadView::Notification(s) => wf_string(s),
    }
}

pub open spec fn wf_payload(p: PayloadView) -> bool {
    match p {
        PayloadView::JoinReq(peer) => wf_peer(peer),
        PayloadView::Sync(room) => wf_room(room),
        PayloadView::Forward(peer, f) => wf_peer(peer) && wf_forward(f),
    }
}

pub open spec fn wf_message(m: MessageView) -> bool {
    wf_payload(m.payload)
}

// ---------------------------------------------------------------------------
// Decoding, abstractly: a parser over byte sequences. Each step returns the
// parsed value and the bytes that remain, or nothing when the input does not
// open with a valid encoding.
// ---------------------------------------------------------------------------

pub open spec fn spec_take_u64(b: Seq<u8>) -> Option<(u64, Seq<u8>)> {
    if b.len() >= 8 {
        Some((spec_u64_from_le_bytes(b.take(8)), b.skip(8)))
    } else {
        None
    }
}

pub open spec fn spec_take_chunk(b: Seq<u8>) -> Option<(Seq<u8>, Seq<u8>)> {
    match spec_take_u64(b) {
        Some((n, r)) => if r.len() >= n {
            Some((r.take(n as int), r.skip(n as int)))
        } else {
            None
        },
        None => None,
    }
}

pub open spec fn spec_take_string(b: Seq<u8>) -> Option<(Seq<char>, Seq<u8>)> {
    match spec_take_chunk(b) {
        Some((c, r)) => if valid_utf8(c) {
            Some((decode_utf8(c), r))
        } else {
            None
        },
        None => None,
    }
}

pub open spec fn spec_take_address(b: Seq<u8>) -> Option<(Ipv4Address, Seq<u8>)> {
    if b.len() >= 4 {
        Some(
            (
                Ipv4Address { octet0: b[0], octet1: b[1], octet2: b[2], octet3: b[3] },
                b.skip(4),
            ),
        )
    } else {
        None
    }
}

pub open spec fn spec_take_peer(b: Seq<u8>) -> Option<(PeerView, Seq<u8>)> {
    match spec_take_string(b) {
        Some((name, r)) => match spec_take_address(r) {
            Some((addr, r2)) => Some((PeerView { username: name, address: addr }, r2)),
            None => None,
        },
        None => None,
    }
}

pub open spec fn spec_take_peers(b: Seq<u8>, n: nat) -> Option<(Seq<PeerView>, Seq<u8>)>
    decreases n,
{
    if n == 0 {
        Some((Seq::empty(), b))
    } else {
        match spec_take_peer(b) {
            Some((p, r)) => match spec_take_peers(r, (n - 1) as nat) {
                Some((s, r2)) => Some((seq![p] + s, r2)),
                None => None,
            },
            None => None,
        }
    }
}

pub open spec fn spec_take_hierarchy(b: Seq<u8>) -> Option<(Seq<PeerView>, Seq<u8>)> {
    match spec_take_u64(b) {
        Some((n, r)) => spec_take_peers(r, n as nat),
        None => None,
    }
}

pub open spec fn spec_take_room(b: Seq<u8>) -> Option<(RoomView, Seq<u8>)> {
    match spec_take_string(b) {
        Some((name, r)) => match spec_take_hierarchy(r) {
            Some((h, r2)) => Some((RoomView { name, hierarchy: h }, r2)),
            None => None,
        },
        None => None,
    }
}

pub open spec fn spec_take_forward(b: Seq<u8>) -> Option<(ForwardPayloadView, Seq<u8>)> {
    if b.len() >= 1 {
        match spec_take_string(b.skip(1)) {
            Some((s, r)) => if b[0] == TAG_TEXT {
                Some((ForwardPayloadView::Text(s), r))
            } else if b[0] == TAG_NOTIFICATION {
                Some((ForwardPayloadView::Notification(s), r))
            } else {
                None
            },
            None => None,
        }
    } else {
        None
    }
}

pub open spec fn spec_take_payload(b: Seq<u8>) -> Option<(PayloadView, Seq<u8>)> {
    if b.len() >= 1 {
        let rest = b.skip(1);
        if b[0] == TAG_JOIN_REQ {
            match spec_take_peer(rest) {
                Some((p, r)) => Some((PayloadView::JoinReq(p), r)),
                None => None,
            }
        } else if b[0] == TAG_SYNC {
            match spec_take_room(rest) {
                Some((room, r)) => Some((PayloadView::Sync(room), r)),
                None => None,
            }
        } else if b[0] == TAG_FORWARD {
            match spec_take_peer(rest) {
                Some((p, r)) => match spec_take_forward(r) {
                    Some((f, r2)) => Some((PayloadView::Forward(p, f), r2)),
                    None => None,
                },
                None => None,
            }
        } else {
            None
        }
    } else {
        None
    }
}

/// What a whole frame decodes to: a message whose encoding is exactly the
/// frame, or nothing.
pub open spec fn spec_decode_message(b: Seq<u8>) -> Option<MessageView> {
    match spec_take_payload(b) {
        Some((p, r)) => if r.len() == 0 {
            Some(MessageView { payload: p })
        } else {
            None
        },
        None => None,
    }
}

// ---------------------------------------------------------------------------
// Encoding, executably. Each step appends one element's encoding to the
// output frame.
// ---------------------------------------------------------------------------

fn encode_u64_into(x: u64, out: &mut Vec<u8>)
    ensures
        final(out)@ == old(out)@ + spec_u64_to_le_bytes(x),
{
    let mut b = u64_to_le_bytes(x);
    out.append(&mut b);
}

fn encode_string_into(s: &String, out: &mut Vec<u8>)
    ensures
        final(out)@ == old(out)@ + spec_encode_string(s@),
        wf_string(s@),
{
    let ghost before = out@;
    let mut b = s.as_str().as_bytes_vec();
    let n = b.len();
    proof {
        assert(n <= u64::MAX);
    }
    encode_u64_into(n as u64, out);
    out.append(&mut b);
    proof {
        assert(final(out)@ =~= before + spec_encode_string(s@));
    }
}

fn encode_address_into(a: Ipv4Address, out: &mut Vec<u8>)
    ensures
        final(out)@ == old(out)@ + spec_encode_address(a),
{
    out.push(a.octet0);
    out.push(a.octet1);
    out.push(a.octet2);
    out.push(a.octet3);
    proof {
        assert(final(out)@ =~= old(out)@ + spec_encode_address(a));
    }
}

fn encode_peer_into(p: &Peer, out: &mut Vec<u8>)
    ensures
        final(out)@ == old(out)@ + spec_encode_peer(p@),
        wf_peer(p@),
{
    encode_string_into(&p.username, out);
    encode_address_into(p.address, out);
    proof {
        assert(final(out)@ =~= old(out)@ + spec_encode_peer(p@));
    }
}

/// Appending one peer to an encoded peer list encodes the appended list.
proof fn lemma_encode_peers_push(s: Seq<PeerView>, p: PeerView)
    ensures
        spec_encode_peers(s.push(p)) == spec_encode_peers(s) + spec_encode_peer(p),
    decreases s.len(),
{
    if s.len() == 0 {
        let t = s.push(p);
        assert(t[0] == p);
        assert(t.skip(1) =~= Seq::<PeerView>::empty());
        assert(spec_encode_peers(Seq::<PeerView>::empty()) == Seq::<u8>::empty());
        assert(spec_encode_peers(t) == spec_encode_peer(p) + Seq::<u8>::empty());
        assert(spec_encode_peers(s) == Seq::<u8>::empty());
        assert(spec_encode_peers(t) =~= spec_encode_peers(s) + spec_encode_peer(p));
    } else {
        assert(s.push(p).skip(1) =~= s.skip(1).push(p));
        lemma_encode_peers_push(s.skip(1), p);
        assert(s.push(p)[0] == s[0]);
        assert(spec_encode_peers(s.push(p)) == spec_encode_peer(s[0]) + spec_encode_peers(
            s.skip(1).push(p),
        ));
        assert(spec_encode_peers(s.push(p)) =~= spec_encode_peers(s) + spec_encode_peer(p));
    }
}

#[verifier::loop_isolation(false)]
fn encode_hierarchy_into(h: &Hierarchy, out: &mut Vec<u8>)
    ensures
        final(out)@ == old(out)@ + spec_encode_hierarchy(h@),
        wf_peers(h@),
{
    let ghost before = out@;
    let count = h.0.len();
    proof {
        assert(h@.len() == h.0@.len());
        assert(count <= u64::MAX);
    }
    encode_u64_into(count as u64, out);
    let mut i: usize = 0;
    while i < h.0.len()
        invariant
            i <= h.0.len(),
            out@ == before + spec_u64_to_le_bytes(h@.len() as u64) + spec_encode_peers(
                h@.take(i as int),
            ),
            forall|k: int| 0 <= k < i ==> wf_peer(#[trigger] h@[k]),
        decreases h.0.len() - i,
    {
        let ghost mid = out@;
        encode_peer_into(&h.0[i], out);
        proof {
            assert(h@[i as int] == h.0@[i as int]@);
            assert(h@.take(i + 1) =~= h@.take(i as int).push(h@[i as int]));
            lemma_encode_peers_push(h@.take(i as int), h@[i as int]);
            assert(out@ =~= before + spec_u64_to_le_bytes(h@.len() as u64) + spec_encode_peers(
                h@.take(i + 1),
            ));
        }
        i = i + 1;
    }
    proof {
        assert(h@.take(h.0.len() as int) =~= h@);
        assert(out@ =~= before + spec_encode_hierarchy(h@));
    }
}

fn encode_room_into(r: &Room, out: &mut Vec<u8>)
    ensures
        final(out)@ == old(out)@ + spec_encode_room(r@),
        wf_room(r@),
{
    encode_string_into(&r.name, out);
    encode_hierarchy_into(&r.hierarchy, out);
    proof {
        assert(final(out)@ =~= old(out)@ + spec_encode_room(r@));
    }
}

fn encode_forward_into(f: &ForwardPayload, out: &mut Vec<u8>)
    ensures
        final(out)@ == old(out)@ + spec_encode_forward(f@),
        wf_forward(f@),
{
    match f {
        ForwardPayload::Text(s) => {
            out.push(TAG_TEXT);
            encode_string_into(s, out);
        },
        ForwardPayload::Notification(s) => {
            out.push(TAG_NOTIFICATION);
            encode_string_into(s, out);
        },
    }
    proof {
        assert(final(out)@ =~= old(out)@ + spec_encode_forward(f@));
    }
}

fn encode_payload_into(p: &Payload, out: &mut Vec<u8>)
    ensures
        final(out)@ == old(out)@ + spec_encode_payload(p@),
        wf_payload(p@),
{
    match p {
        Payload::JoinReq(peer) => {
            out.push(TAG_JOIN_REQ);
            encode_peer_into(peer, out);
        },
        Payload::Sync(room) => {
            out.push(TAG_SYNC);
            encode_room_into(room, out);
        },
        Payload::Forward(peer, f) => {
            out.push(TAG_FORWARD);
            encode_peer_into(peer, out);
            encode_forward_into(f, out);
        },
    }
    proof {
        assert(final(out)@ =~= old(out)@ + spec_encode_payload(p@));
    }
}

// ---------------------------------------------------------------------------
// Decoding, executably. Each step walks an index over the frame and agrees
// with the abstract parser on the bytes from that index on.
// ---------------------------------------------------------------------------

/// Relies on `String::from_utf8`: it succeeds exactly on valid UTF-8 input
/// and yields the string that those bytes encode.
#[verifier::external_body]
fn string_from_utf8(bytes: Vec<u8>) -> (r: Option<String>)
    ensures
        r matches Some(s) ==> valid_utf8(bytes@) && s@ == decode_utf8(bytes@),
        r is None ==> !valid_utf8(bytes@),
{
    String::from_utf8(bytes).ok()
}

/// Skipping twice is skipping the sum.
proof fn lemma_skip_skip<T>(s: Seq<T>, i: int, j: int)
    requires
        0 <= i,
        0 <= j,
        i + j <= s.len(),
    ensures
        s.skip(i).skip(j) == s.skip(i + j),
{
    assert(s.skip(i).skip(j) =~= s.skip(i + j));
}

fn take_u64(b: &[u8], i: usize) -> (r: Option<(u64, usize)>)
    requires
        i <= b@.len(),
    ensures
        match r {
            Some((x, j)) => {
                &&& i <= j <= b@.len()
                &&& spec_take_u64(b@.skip(i as int)) == Some((x, b@.skip(j as int)))
            },
            None => spec_take_u64(b@.skip(i as int)) is None,
        },
{
    if b.len() - i >= 8 {
        let s = slice_subrange(b, i, i + 8);
        let x = u64_from_le_bytes(s);
        proof {
            assert(b@.skip(i as int).take(8) =~= b@.subrange(i as int, i + 8));
            lemma_skip_skip(b@, i as int, 8);
        }
        Some((x, i + 8))
    } else {
        None
    }
}

fn take_chunk(b: &[u8], i: usize) -> (r: Option<(Vec<u8>, usize)>)
    requires
        i <= b@.len(),
    ensures
        match r {
            Some((c, j)) => {
                &&& i <= j <= b@.len()
                &&& spec_take_chunk(b@.skip(i as int)) == Some((c@, b@.skip(j as int)))
            },
            None => spec_take_chunk(b@.skip(i as int)) is None,
        },
{
    match take_u64(b, i) {
        Some((n, j)) => {
            if n <= (b.len() - j) as u64 {
                let m = n as usize;
                let c = slice_to_vec(slice_subrange(b, j, j + m));
                proof {
                    assert(b@.skip(j as int).take(n as int) =~= b@.subrange(j as int, j + m));
                    lemma_skip_skip(b@, j as int, m as int);
                }
                Some((c, j + m))
            } else {
                None
            }
        },
        None => None,
    }
}

fn take_string(b: &[u8], i: usize) -> (r: Option<(String, usize)>)
    requires
        i <= b@.len(),
    ensures
        match r {
            Some((s, j)) => {
                &&& i <= j <= b@.len()
                &&& spec_take_string(b@.skip(i as int)) == Some((s@, b@.skip(j as int)))
            },
            None => spec_take_string(b@.skip(i as int)) is None,
        },
{
    match take_chunk(b, i) {
        Some((c, j)) => match string_from_utf8(c) {
            Some(s) => Some((s, j)),
            None => None,
        },
        None => None,
    }
}

fn take_address(b: &[u8], i: usize) -> (r: Option<(Ipv4Address, usize)>)
    requires
        i <= b@.len(),
    ensures
        match r {
            Some((a, j)) => {
                &&& i <= j <= b@.len()
                &&& spec_take_address(b@.skip(i as int)) == Some((a, b@.skip(j as int)))
            },
            None => spec_take_address(b@.skip(i as int)) is None,
        },
{
    if b.len() - i >= 4 {
        let a = Ipv4Address { octet0: b[i], octet1: b[i + 1], octet2: b[i + 2], octet3: b[i + 3] };
        proof {
            lemma_skip_skip(b@, i as int, 4);
        }
        Some((a, i + 4))
    } else {
        None
    }
}

fn take_peer(b: &[u8], i: usize) -> (r: Option<(Peer, usize)>)
    requires
        i <= b@.len(),
    ensures
        match r {
            Some((p, j)) => {
                &&& i <= j <= b@.len()
                &&& spec_take_peer(b@.skip(i as int)) == Some((p@, b@.skip(j as int)))
            },
            None => spec_take_peer(b@.skip(i as int)) is None,
        },
{
    match take_string(b, i) {
        Some((username, j)) => match take_address(b, j) {
            Some((address, k)) => Some((Peer { username, address }, k)),
            None => None,
        },
        None => None,
    }
}

fn take_peers(b: &[u8], i: usize, n: u64) -> (r: Option<(Vec<Peer>, usize)>)
    requires
        i <= b@.len(),
    ensures
        match r {
            Some((v, j)) => {
                &&& i <= j <= b@.len()
                &&& spec_take_peers(b@.skip(i as int), n as nat) == Some(
                    (v@.map_values(|p: Peer| p@), b@.skip(j as int)),
                )
            },
            None => spec_take_peers(b@.skip(i as int), n as nat) is None,
        },
    decreases n,
{
    if n == 0 {
        let v: Vec<Peer> = Vec::new();
        proof {
            assert(v@.map_values(|p: Peer| p@) =~= Seq::<PeerView>::empty());
        }
        Some((v, i))
    } else {
        match take_peer(b, i) {
            Some((p, j)) => match take_peers(b, j, n - 1) {
                Some((mut v, k)) => {
                    let ghost tail = v@.map_values(|q: Peer| q@);
                    v.insert(0, p);
                    proof {
                        assert(v@.map_values(|q: Peer| q@) =~= seq![p@] + tail);
                    }
                    Some((v, k))
                },
                None => None,
            },
            None => None,
        }
    }
}

fn take_hierarchy(b: &[u8], i: usize) -> (r: Option<(Hierarchy, usize)>)
    requires
        i <= b@.len(),
    ensures
        match r {
            Some((h, j)) => {
                &&& i <= j <= b@.len()
                &&& spec_take_hierarchy(b@.skip(i as int)) == Some((h@, b@.skip(j as int)))
            },
            None => spec_take_hierarchy(b@.skip(i as int)) is None,
        },
{
    match take_u64(b, i) {
        Some((n, j)) => match take_peers(b, j, n) {
            Some((v, k)) => Some((Hierarchy(v), k)),
            None => None,
        },
        None => None,
    }
}

fn take_room(b: &[u8], i: usize) -> (r: Option<(Room, usize)>)
    requires
        i <= b@.len(),
    ensures
        match r {
            Some((room, j)) => {
                &&& i <= j <= b@.len()
                &&& spec_take_room(b@.skip(i as int)) == Some((room@, b@.skip(j as int)))
            },
            None => spec_take_room(b@.skip(i as int)) is None,
        },
{
    match take_string(b, i) {
        Some((name, j)) => match take_hierarchy(b, j) {
            Some((hierarchy, k)) => Some((Room { name, hierarchy }, k)),
            None => None,
        },
        None => None,
    }
}

fn take_forward(b: &[u8], i: usize) -> (r: Option<(ForwardPayload, usize)>)
    requires
        i <= b@.len(),
    ensures
        match r {
            Some((f, j)) => {
                &&& i <= j <= b@.len()
                &&& spec_take_forward(b@.skip(i as int)) == Some((f@, b@.skip(j as int)))
            },
            None => spec_take_forward(b@.skip(i as int)) is None,
        },
{
    if b.len() - i >= 1 {
        let tag = b[i];
        proof {
            lemma_skip_skip(b@, i as int, 1);
        }
        if tag == TAG_TEXT {
            match take_string(b, i + 1) {
                Some((s, j)) => Some((ForwardPayload::Text(s), j)),
                None => None,
            }
        } else if tag == TAG_NOTIFICATION {
            match take_string(b, i + 1) {
                Some((s, j)) => Some((ForwardPayload::Notification(s), j)),
                None => None,
            }
        } else {
            proof {
                if spec_take_forward(b@.skip(i as int)) is Some {
                    assert(b@.skip(i as int)[0] == tag);
                    assert(false);
                }
            }
            None
        }
    } else {
        None
    }
}

fn take_payload(b: &[u8], i: usize) -> (r: Option<(Payload, usize)>)
    requires
        i <= b@.len(),
    ensures
        match r {
            Some((p, j)) => {
                &&& i <= j <= b@.len()
                &&& spec_take_payload(b@.skip(i as int)) == Some((p@, b@.skip(j as int)))
            },
            None => spec_take_payload(b@.skip(i as int)) is None,
        },
{
    if b.len() - i >= 1 {
        let tag = b[i];
        proof {
            lemma_skip_skip(b@, i as int, 1);
        }
        if tag == TAG_JOIN_REQ {
            match take_peer(b, i + 1) {
                Some((p, j)) => Some((Payload::JoinReq(p), j)),
                None => None,
            }
        } else if tag == TAG_SYNC {
            match take_room(b, i + 1) {
                Some((room, j)) => Some((Payload::Sync(room), j)),
                None => None,
            }
        } else if tag == TAG_FORWARD {
            match take_peer(b, i + 1) {
                Some((p, j)) => match take_forward(b, j) {
                    Some((f, k)) => Some((Payload::Forward(p, f), k)),
                    None => None,
                },
                None => None,
            }
        } else {
            proof {
                if spec_take_payload(b@.skip(i as int)) is Some {
                    assert(b@.skip(i as int)[0] == tag);
                    assert(false);
                }
            }
            None
        }
    } else {
        None
    }
}

/// Decode one wire frame. Returns the message whose encoding is exactly
/// `bytes`, or `None` when `bytes` is not the encoding of any message.
pub fn decode(bytes: &[u8]) -> (r: Option<Message>)
    ensures
        match r {
            Some(m) => spec_decode_message(bytes@) == Some(m@),
            None => spec_decode_message(bytes@) is None,
        },
{
    proof {
        assert(bytes@.skip(0) =~= bytes@);
    }
    match take_payload(bytes, 0) {
        Some((payload, j)) => {
            if j == bytes.len() {
                proof {
                    assert(bytes@.skip(j as int) =~= Seq::<u8>::empty());
                }
                Some(Message { payload })
            } else {
                proof {
                    assert(bytes@.skip(j as int).len() > 0);
                }
                None
            }
        },
        None => None,
    }
}

/// Encode a message as one wire frame.
pub fn encode(m: &Message) -> (r: Vec<u8>)
    ensures
        r@ == spec_encode_message(m@),
        wf_message(m@),
{
    let mut out: Vec<u8> = Vec::new();
    encode_payload_into(&m.payload, &mut out);
    proof {
        assert(out@ =~= spec_encode_message(m@));
    }
    out
}

// ---------------------------------------------------------------------------
// Round trip: the abstract parser inverts the abstract encoder, layer by
// layer, for every message whose lengths fit their 8-byte prefixes (which
// `encode` establishes for every message it is given).
// ---------------------------------------------------------------------------

proof fn lemma_take_u64_enc(x: u64, rest: Seq<u8>)
    ensures
        spec_take_u64(spec_u64_to_le_bytes(x) + rest) == Some((x, rest)),
{
    lemma_auto_spec_u64_to_from_le_bytes();
    let e = spec_u64_to_le_bytes(x);
    let b = e + rest;
    assert(b.take(8) =~= e);
    assert(b.skip(8) =~= rest);
}

proof fn lemma_take_chunk_enc(c: Seq<u8>, rest: Seq<u8>)
    requires
        c.len() <= u64::MAX,
    ensures
        spec_take_chunk(spec_encode_chunk(c) + rest) == Some((c, rest)),
{
    let n = c.len() as u64;
    let b = spec_encode_chunk(c) + rest;
    assert(b =~= spec_u64_to_le_bytes(n) + (c + rest));
    lemma_take_u64_enc(n, c + rest);
    assert((c + rest).take(n as int) =~= c);
    assert((c + rest).skip(n as int) =~= rest);
}

proof fn lemma_take_string_enc(s: Seq<char>, rest: Seq<u8>)
    requires
        wf_string(s),
    ensures
        spec_take_string(spec_encode_string(s) + rest) == Some((s, rest)),
{
    lemma_take_chunk_enc(encode_utf8(s), rest);
    vstd::utf8::encode_utf8_valid_utf8(s);
    vstd::utf8::encode_utf8_decode_utf8(s);
}

proof fn lemma_take_address_enc(a: Ipv4Address, rest: Seq<u8>)
    ensures
        spec_take_address(spec_encode_address(a) + rest) == Some((a, rest)),
{
    let b = spec_encode_address(a) + rest;
    assert(b[0] == a.octet0);
    assert(b[1] == a.octet1);
    assert(b[2] == a.octet2);
    assert(b[3] == a.octet3);
    assert(b.skip(4) =~= rest);
}

proof fn lemma_take_peer_enc(p: PeerView, rest: Seq<u8>)
    requires
        wf_peer(p),
    ensures
        spec_take_peer(spec_encode_peer(p) + rest) == Some((p, rest)),
{
    let b = spec_encode_peer(p) + rest;
    assert(b =~= spec_encode_string(p.username) + (spec_encode_address(p.address) + rest));
    lemma_take_string_enc(p.username, spec_encode_address(p.address) + rest);
    lemma_take_address_enc(p.address, rest);
    assert((PeerView { username: p.username, address: p.address }) =~= p);
}

proof fn lemma_take_peers_enc(s: Seq<PeerView>, rest: Seq<u8>)
    requires
        forall|i: int| 0 <= i < s.len() ==> wf_peer(#[trigger] s[i]),
    ensures
        spec_take_peers(spec_encode_peers(s) + rest, s.len()) == Some((s, rest)),
    decreases s.len(),
{
    if s.len() == 0 {
        assert(spec_encode_peers(s) + rest =~= rest);
        assert(s =~= Seq::<PeerView>::empty());
    } else {
        let tail = s.skip(1);
        let b = spec_encode_peers(s) + rest;
        assert(b =~= spec_encode_peer(s[0]) + (spec_encode_peers(tail) + rest));
        lemma_take_peer_enc(s[0], spec_encode_peers(tail) + rest);
        assert(forall|i: int| 0 <= i < tail.len() ==> wf_peer(#[trigger] tail[i])) by {
            assert(forall|i: int| 0 <= i < tail.len() ==> tail[i] == s[i + 1]);
        }
        lemma_take_peers_enc(tail, rest);
        assert(seq![s[0]] + tail =~= s);
    }
}

proof fn lemma_take_hierarchy_enc(h: Seq<PeerView>, rest: Seq<u8>)
    requires
        wf_peers(h),
    ensures
        spec_take_hierarchy(spec_encode_hierarchy(h) + rest) == Some((h, rest)),
{
    let n = h.len() as u64;
    let b = spec_encode_hierarchy(h) + rest;
    assert(b =~= spec_u64_to_le_bytes(n) + (spec_encode_peers(h) + rest));
    lemma_take_u64_enc(n, spec_encode_peers(h) + rest);
    assert(n as nat == h.len());
    lemma_take_peers_enc(h, rest);
}

proof fn lemma_take_room_enc(r: RoomView, rest: Seq<u8>)
    requires
        wf_room(r),
    ensures
        spec_take_room(spec_encode_room(r) + rest) == Some((r, rest)),
{
    let b = spec_encode_room(r) + rest;
    assert(b =~= spec_encode_string(r.name) + (spec_encode_hierarchy(r.hierarchy) + rest));
    lemma_take_string_enc(r.name, spec_encode_hierarchy(r.hierarchy) + rest);
    lemma_take_hierarchy_enc(r.hierarchy, rest);
    assert((RoomView { name: r.name, hierarchy: r.hierarchy }) =~= r);
}

proof fn lemma_take_forward_enc(f: ForwardPayloadView, rest: Seq<u8>)
    requires
        wf_forward(f),
    ensures
        spec_take_forward(spec_encode_forward(f) + rest) == Some((f, rest)),
{
    let b = spec_encode_forward(f) + rest;
    match f {
        ForwardPayloadView::Text(s) => {
            assert(b[0] == TAG_TEXT);
            assert(b.skip(1) =~= spec_encode_string(s) + rest);
            lemma_take_string_enc(s, rest);
        },
        ForwardPayloadView::Notification(s) => {
            assert(b[0] == TAG_NOTIFICATION);
            assert(b.skip(1) =~= spec_encode_string(s) + rest);
            lemma_take_string_enc(s, rest);
        },
    }
}

proof fn lemma_take_payload_enc(p: PayloadView, rest: Seq<u8>)
    requires
        wf_payload(p),
    ensures
        spec_take_payload(spec_encode_payload(p) + rest) == Some((p, rest)),
{
    let b = spec_encode_payload(p) + rest;
    match p {
        PayloadView::JoinReq(peer) => {
            assert(b[0] == TAG_JOIN_REQ);
            assert(b.skip(1) =~= spec_encode_peer(peer) + rest);
            lemma_take_peer_enc(peer, rest);
        },
        PayloadView::Sync(room) => {
            assert(b[0] == TAG_SYNC);
            assert(b.skip(1) =~= spec_encode_room(room) + rest);
            lemma_take_room_enc(room, rest);
        },
        PayloadView::Forward(peer, f) => {
            assert(b[0] == TAG_FORWARD);
            assert(b.skip(1) =~= spec_encode_peer(peer) + (spec_encode_forward(f) + rest));
            lemma_take_peer_enc(peer, spec_encode_forward(f) + rest);
            lemma_take_forward_enc(f, rest);
        },
    }
}

// ---------------------------------------------------------------------------
// Soundness: a frame the abstract parser accepts is exactly the encoding of
// the value it returns, layer by layer, so decoding accepts nothing but
// encodings.
// ---------------------------------------------------------------------------

proof fn lemma_take_u64_sound(b: Seq<u8>, x: u64, r: Seq<u8>)
    requires
        spec_take_u64(b) == Some((x, r)),
    ensures
        b == spec_u64_to_le_bytes(x) + r,
{
    lemma_auto_spec_u64_to_from_le_bytes();
    assert(b.take(8).len() == 8);
    assert(spec_u64_to_le_bytes(x) == b.take(8));
    assert(b =~= b.take(8) + b.skip(8));
}

proof fn lemma_take_chunk_sound(b: Seq<u8>, c: Seq<u8>, r: Seq<u8>)
    requires
        spec_take_chunk(b) == Some((c, r)),
    ensures
        b == spec_encode_chunk(c) + r,
        c.len() <= u64::MAX,
{
    let pair = spec_take_u64(b)->Some_0;
    let n = pair.0;
    let r1 = pair.1;
    lemma_take_u64_sound(b, n, r1);
    assert(c == r1.take(n as int));
    assert(c.len() == n as int);
    assert(c.len() as u64 == n);
    assert(r1 =~= c + r);
    assert(b =~= spec_encode_chunk(c) + r);
}

proof fn lemma_take_string_sound(b: Seq<u8>, v: Seq<char>, r: Seq<u8>)
    requires
        spec_take_string(b) == Some((v, r)),
    ensures
        b == spec_encode_string(v) + r,
        wf_string(v),
{
    let pair = spec_take_chunk(b)->Some_0;
    let c = pair.0;
    lemma_take_chunk_sound(b, c, r);
    vstd::utf8::decode_utf8_encode_utf8(c);
}

proof fn lemma_take_address_sound(b: Seq<u8>, a: Ipv4Address, r: Seq<u8>)
    requires
        spec_take_address(b) == Some((a, r)),
    ensures
        b == spec_encode_address(a) + r,
{
    assert(b =~= spec_encode_address(a) + b.skip(4));
}

proof fn lemma_take_peer_sound(b: Seq<u8>, p: PeerView, r: Seq<u8>)
    requires
        spec_take_peer(b) == Some((p, r)),
    ensures
        b == spec_encode_peer(p) + r,
        wf_peer(p),
{
    let pair = spec_take_string(b)->Some_0;
    let r1 = pair.1;
    lemma_take_string_sound(b, p.username, r1);
    lemma_take_address_sound(r1, p.address, r);
    assert(b =~= spec_encode_peer(p) + r);
}

proof fn lemma_take_peers_sound(b: Seq<u8>, n: nat, s: Seq<PeerView>, r: Seq<u8>)
    requires
        spec_take_peers(b, n) == Some((s, r)),
    ensures
        b == spec_encode_peers(s) + r,
        s.len() == n,
        forall|i: int| 0 <= i < s.len() ==> wf_peer(#[trigger] s[i]),
    decreases n,
{
    if n == 0 {
        assert(s =~= Seq::<PeerView>::empty());
        assert(b =~= spec_encode_peers(s) + r);
    } else {
        let pair = spec_take_peer(b)->Some_0;
        let p = pair.0;
        let r1 = pair.1;
        let pair2 = spec_take_peers(r1, (n - 1) as nat)->Some_0;
        let s2 = pair2.0;
        lemma_take_peer_sound(b, p, r1);
        lemma_take_peers_sound(r1, (n - 1) as nat, s2, r);
        assert(s == seq![p] + s2);
        assert(s[0] == p);
        assert(s.skip(1) =~= s2);
        assert(spec_encode_peers(s) == spec_encode_peer(s[0]) + spec_encode_peers(s.skip(1)));
        assert(b =~= spec_encode_peers(s) + r);
        assert forall|i: int| 0 <= i < s.len() implies wf_peer(#[trigger] s[i]) by {
            if i > 0 {
                assert(s[i] == s2[i - 1]);
            }
        }
    }
}

proof fn lemma_take_hierarchy_sound(b: Seq<u8>, h: Seq<PeerView>, r: Seq<u8>)
    requires
        spec_take_hierarchy(b) == Some((h, r)),
    ensures
        b == spec_encode_hierarchy(h) + r,
        wf_peers(h),
{
    let pair = spec_take_u64(b)->Some_0;
    let n = pair.0;
    let r1 = pair.1;
    lemma_take_u64_sound(b, n, r1);
    lemma_take_peers_sound(r1, n as nat, h, r);
    assert(h.len() as u64 == n);
    assert(b =~= spec_encode_hierarchy(h) + r);
}

proof fn lemma_take_room_sound(b: Seq<u8>, v: RoomView, r: Seq<u8>)
    requires
        spec_take_room(b) == Some((v, r)),
    ensures
        b == spec_encode_room(v) + r,
        wf_room(v),
{
    let pair = spec_take_string(b)->Some_0;
    let r1 = pair.1;
    lemma_take_string_sound(b, v.name, r1);
    lemma_take_hierarchy_sound(r1, v.hierarchy, r);
    assert(b =~= spec_encode_room(v) + r);
}

proof fn lemma_take_forward_sound(b: Seq<u8>, f: ForwardPayloadView, r: Seq<u8>)
    requires
        spec_take_forward(b) == Some((f, r)),
    ensures
        b == spec_encode_forward(f) + r,
        wf_forward(f),
{
    let rest = b.skip(1);
    match f {
        ForwardPayloadView::Text(s) => {
            lemma_take_string_sound(rest, s, r);
            assert(b =~= seq![TAG_TEXT] + (spec_encode_string(s) + r));
            assert(b =~= spec_encode_forward(f) + r);
        },
        ForwardPayloadView::Notification(s) => {
            lemma_take_string_sound(rest, s, r);
            assert(b =~= seq![TAG_NOTIFICATION] + (spec_encode_string(s) + r));
            assert(b =~= spec_encode_forward(f) + r);
        },
    }
}

#[verifier::spinoff_prover]
#[verifier::rlimit(50)]
proof fn lemma_take_payload_sound(b: Seq<u8>, p: PayloadView, r: Seq<u8>)
    requires
        spec_take_payload(b) == Some((p, r)),
    ensures
        b == spec_encode_payload(p) + r,
        wf_payload(p),
{
    let rest = b.skip(1);
    match p {
        PayloadView::JoinReq(peer) => {
            lemma_take_peer_sound(rest, peer, r);
            assert(b =~= seq![TAG_JOIN_REQ] + (spec_encode_peer(peer) + r));
            assert(b =~= spec_encode_payload(p) + r);
        },
        PayloadView::Sync(room) => {
            lemma_take_room_sound(rest, room, r);
            assert(b =~= seq![TAG_SYNC] + (spec_encode_room(room) + r));
            assert(b =~= spec_encode_payload(p) + r);
        },
        PayloadView::Forward(peer, f) => {
            let pair = spec_take_peer(rest)->Some_0;
            let r1 = pair.1;
            lemma_take_peer_sound(rest, peer, r1);
            lemma_take_forward_sound(r1, f, r);
            assert(b =~= seq![TAG_FORWARD] + (spec_encode_peer(peer) + (spec_encode_forward(f)
                + r)));
            assert(b =~= spec_encode_payload(p) + r);
        },
    }
}

/// Decoding accepts nothing but encodings: a whole frame the parser accepts
/// is exactly the encoding of the message it returns. Together with
/// [`lemma_decode_encode`], the decoder accepts exactly the encodings of
/// messages.
pub proof fn lemma_encode_decode(b: Seq<u8>, m: MessageView)
    requires
        spec_decode_message(b) == Some(m),
    ensures
        spec_encode_message(m) == b,
        wf_message(m),
{
    let pair = spec_take_payload(b)->Some_0;
    let r = pair.1;
    lemma_take_payload_sound(b, m.payload, r);
    assert(r =~= Seq::<u8>::empty());
    assert(spec_encode_payload(m.payload) + r =~= spec_encode_payload(m.payload));
}

/// Round trip: decoding the encoding of any message yields that message
/// back. Every message held in memory satisfies `wf_message` (its string
/// and list lengths fit in their 8-byte prefixes), and `encode` establishes
/// that bound for its argument.
pub proof fn lemma_decode_encode(m: MessageView)
    requires
        wf_message(m),
    ensures
        spec_decode_message(spec_encode_message(m)) == Some(m),
{
    let b = spec_encode_message(m);
    assert(b =~= spec_encode_payload(m.payload) + Seq::<u8>::empty());
    lemma_take_payload_enc(m.payload, Seq::<u8>::empty());
    assert((MessageView { payload: m.payload }) =~= m);
}

} // verus!
