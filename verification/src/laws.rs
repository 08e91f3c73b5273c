//! The protocol's laws, proved once and for all over the transition
//! relation [`spec_step`]. Each law quantifies over every state and input
//! its statement allows; the corresponding concrete scenarios live in the
//! test suite.

use vstd::prelude::*;

use vstd::multiset::Multiset;

use crate::event::{ActionView, EventView};
use crate::message::{ForwardPayloadView, MessageView, PayloadView};
use crate::peer::PeerView;
use crate::room::RoomView;
use crate::state::{
    covered, forward_msg, join_req_msg, spec_broadcast, spec_step, sync_msg, AdminView,
    ManagerView, MemberView, StateView,
};

verus! {

/// Accepting a join: an admin receiving `JoinReq(p)` on connection `cid`
/// appends `p` to its hierarchy, records `peers[cid] = p`, and sends
/// exactly one `Sync` of the grown room, to `cid` alone — never a
/// broadcast, whatever clients are registered.
pub proof fn lemma_admin_accepts_join(
    s: ManagerView,
    st: AdminView,
    p: PeerView,
    cid: u32,
    name: Seq<char>,
)
    requires
        s.state == StateView::Admin(st),
    ensures
        ({
            let e = EventView::Message(MessageView { payload: PayloadView::JoinReq(p) }, cid);
            let (s2, acts) = spec_step(s, e, name);
            let room2 = RoomView { name: st.room.name, hierarchy: st.room.hierarchy.push(p) };
            &&& s2.state == StateView::Admin(
                AdminView { room: room2, clients: st.clients, peers: st.peers.insert(cid, p) },
            )
            &&& s2.peer == s.peer
            &&& s2.history == s.history
            &&& acts == seq![ActionView::Send(cid, sync_msg(room2))]
        }),
{
}

/// Broadcast fan-out: an admin receiving `Forward(author, f)` appends
/// `(author, f)` to the history, leaves its role state untouched, and sends
/// the identical message to every registered client, one send per client,
/// in registry order.
pub proof fn lemma_admin_forward_fanout(
    s: ManagerView,
    st: AdminView,
    author: PeerView,
    f: ForwardPayloadView,
    cid: u32,
    name: Seq<char>,
)
    requires
        s.state == StateView::Admin(st),
    ensures
        ({
            let m = forward_msg(author, f);
            let (s2, acts) = spec_step(s, EventView::Message(m, cid), name);
            &&& s2.state == s.state
            &&& s2.peer == s.peer
            &&& s2.history == s.history.push((author, f))
            &&& acts == spec_broadcast(st.clients, m)
            &&& acts.len() == st.clients.len()
            &&& forall|k: int|
                0 <= k < acts.len() ==> acts[k] == ActionView::Send(st.clients[k], m)
        }),
{
    let m = forward_msg(author, f);
    let acts = spec_step(s, EventView::Message(m, cid), name).1;
    assert(forall|k: int|
        0 <= k < acts.len() ==> acts[k] == ActionView::Send(st.clients[k], m));
}

/// Member resync: a member receiving `Sync(room2)` replaces its room
/// exactly with `room2`, discarding any prior value; nothing else moves and
/// nothing is sent.
pub proof fn lemma_member_resync(
    s: ManagerView,
    st: MemberView,
    room2: RoomView,
    cid: u32,
    name: Seq<char>,
)
    requires
        s.state == StateView::Member(st),
    ensures
        spec_step(s, EventView::Message(sync_msg(room2), cid), name) == (
            ManagerView {
                state: StateView::Member(MemberView { room: room2, admin: st.admin }),
                peer: s.peer,
                history: s.history,
            },
            Seq::<ActionView>::empty(),
        ),
{
}

/// Failover determinism: when a member's admin connection closes and at
/// least one candidate remains, the hierarchy advances by one, and the new
/// front alone decides the outcome. The local peer either is that front and
/// promotes itself to admin with fresh, empty registries, or it is not and
/// attempts a connection to the front's address, greeting it with a join
/// request.
pub proof fn lemma_failover_determinism(s: ManagerView, st: MemberView, name: Seq<char>)
    requires
        s.state == StateView::Member(st),
        st.room.hierarchy.len() >= 2,
    ensures
        ({
            let (s2, acts) = spec_step(s, EventView::Closed(st.admin), name);
            let advanced = st.room.hierarchy.skip(1);
            let leader = advanced[0];
            let room2 = RoomView { name: st.room.name, hierarchy: advanced };
            &&& s2.peer == s.peer
            &&& s2.history == s.history
            &&& leader == s.peer ==> s2.state == StateView::Admin(
                AdminView { room: room2, clients: Seq::empty(), peers: Map::empty() },
            ) && acts == Seq::<ActionView>::empty()
            &&& leader != s.peer ==> s2.state == StateView::Connect(None) && acts == seq![
                ActionView::Connect(leader.address, join_req_msg(s.peer)),
            ]
        }),
{
}

/// Failover with no candidate left: when a member's admin connection closes
/// and the hierarchy holds at most the failed leader, the loss of
/// membership is surfaced to the operator and the peer restarts from the
/// initial role.
pub proof fn lemma_failover_exhausted(s: ManagerView, st: MemberView, name: Seq<char>)
    requires
        s.state == StateView::Member(st),
        st.room.hierarchy.len() <= 1,
    ensures
        spec_step(s, EventView::Closed(st.admin), name) == (
            ManagerView { state: StateView::Initial, peer: s.peer, history: s.history },
            seq![ActionView::MembershipLost],
        ),
{
}

/// How often a peer occurs in a hierarchy.
pub open spec fn multiplicity(h: Seq<PeerView>, p: PeerView) -> nat {
    h.to_multiset().count(p)
}

/// The hierarchy invariant: the local peer appears at most once in the room
/// the current role owns. Roles without a room hold no hierarchy.
pub open spec fn local_at_most_once(s: ManagerView) -> bool {
    match s.state {
        StateView::Admin(a) => multiplicity(a.room.hierarchy, s.peer) <= 1,
        StateView::Member(m) => multiplicity(m.room.hierarchy, s.peer) <= 1,
        _ => true,
    }
}

/// What the invariant asks of an incoming event: a join request never
/// carries the local identity (a peer does not join itself), and a room
/// snapshot arriving in a `Sync` lists the local peer at most once (its
/// admin maintains the same invariant for every member).
pub open spec fn event_respects_identity(s: ManagerView, e: EventView) -> bool {
    match e {
        EventView::Message(m, _) => match m.payload {
            PayloadView::JoinReq(p) => p != s.peer,
            PayloadView::Sync(room) => multiplicity(room.hierarchy, s.peer) <= 1,
            _ => true,
        },
        _ => true,
    }
}

/// Every transition preserves the hierarchy invariant: starting a room
/// seeds the hierarchy with exactly one copy of the local peer, joins
/// append only other peers, disconnects and failover only remove entries,
/// and synchronized snapshots are held to the invariant on arrival.
pub proof fn lemma_local_at_most_once_preserved(s: ManagerView, e: EventView, name: Seq<char>)
    requires
        local_at_most_once(s),
        event_respects_identity(s, e),
    ensures
        local_at_most_once(spec_step(s, e, name).0),
{
    broadcast use vstd::seq_lib::group_to_multiset_ensures;
    broadcast use vstd::multiset::group_multiset_properties;

    let s2 = spec_step(s, e, name).0;
    match (s.state, e) {
        (StateView::Initial, EventView::StartRoom) => {
            let h = seq![s.peer];
            assert(h =~= Seq::<PeerView>::empty().push(s.peer));
            assert(Seq::<PeerView>::empty().to_multiset() =~= Multiset::<PeerView>::empty());
            assert(multiplicity(h, s.peer) == 1);
        },
        (StateView::Admin(st), EventView::Message(m, cid)) => {
            match m.payload {
                PayloadView::JoinReq(p) => {
                    let h = st.room.hierarchy;
                    assert(h.push(p).to_multiset() =~= h.to_multiset().insert(p));
                    assert(multiplicity(h.push(p), s.peer) == multiplicity(h, s.peer));
                },
                _ => {},
            }
        },
        (StateView::Admin(st), EventView::Closed(cid)) => {
            if st.peers.contains_key(cid) {
                let h = st.room.hierarchy;
                let gone = st.peers[cid];
                crate::hierarchy::lemma_last_index_of(h, gone);
                let i = crate::hierarchy::last_index_of(h, gone);
                if i >= 0 {
                    assert(h.remove(i).to_multiset() =~= h.to_multiset().remove(h[i]));
                    assert(multiplicity(h.remove(i), s.peer) <= multiplicity(h, s.peer));
                }
            }
        },
        (StateView::Member(st), EventView::Closed(cid)) => {
            if cid == st.admin && st.room.hierarchy.len() >= 2 {
                let h = st.room.hierarchy;
                assert(h.skip(1) =~= h.remove(0));
                assert(h.remove(0).to_multiset() =~= h.to_multiset().remove(h[0]));
                assert(multiplicity(h.skip(1), s.peer) <= multiplicity(h, s.peer));
            }
        },
        _ => {},
    }
}

/// Unmatched transition safety: an event that no row of the transition
/// table acts on leaves the state exactly unchanged and emits no action.
pub proof fn lemma_unmatched_no_op(s: ManagerView, e: EventView, name: Seq<char>)
    requires
        !covered(s.state, e),
    ensures
        spec_step(s, e, name) == (s, Seq::<ActionView>::empty()),
{
    assert(spec_step(s, e, name).0 =~~= s);
}

} // verus!
