//! The role state machine: the single owner of all protocol state.
//!
//! [`StateManager::handle`] is the one mutator. It consumes one [`Event`] at
//! a time, run to completion before the next, and returns the [`Action`]s
//! (sends, connection attempts, operator reports) that the collaborators
//! perform. The whole transition relation is written down once, abstractly,
//! as [`spec_step`]; `handle` is proved to implement it.

use vstd::prelude::*;

use std::collections::HashMap;

use crate::event::{views_of_actions, Action, ActionView, Event, EventView};
use crate::hierarchy::{remove_last_match, Hierarchy};
use crate::message::{
    ForwardPayload, ForwardPayloadView, Message, MessageView, Payload, PayloadView,
};
use crate::peer::{Peer, PeerView};
use crate::room::{Room, RoomView};
use crate::room_name::{random_room_name, spec_room_name, WORD_CHOICES};

verus! {

broadcast use vstd::std_specs::hash::group_hash_axioms;

// ---------------------------------------------------------------------------
// Roles, executably and abstractly.
// ---------------------------------------------------------------------------

/// Abstract value of the admin role's state.
#[verifier::ext_equal]
pub struct AdminView {
    pub room: RoomView,
    pub clients: Seq<u32>,
    pub peers: Map<u32, PeerView>,
}

/// Abstract value of the member role's state.
#[verifier::ext_equal]
pub struct MemberView {
    pub room: RoomView,
    pub admin: u32,
}

/// Abstract value of the current role.
#[verifier::ext_equal]
pub enum StateView {
    Initial,
    Discover,
    Connect(Option<u32>),
    Admin(AdminView),
    Member(MemberView),
    Leaving,
}

/// Reserved for a discovery phase; no transition reaches it.
#[derive(Debug)]
pub struct DiscoverState {}

/// An outbound join in progress. `admin` is the connection identifier of
/// the admin candidate once the dial has succeeded and its `Open` event has
/// arrived, and `None` while the dial is still in flight.
#[derive(Debug)]
pub struct ConnectState {
    pub admin: Option<u32>,
}

/// The admin role: the room, the registry of open client connections, and
/// the registry from connection identifier to the peer that joined on it.
#[derive(Debug)]
pub struct AdminState {
    pub room: Room,
    pub clients: Vec<u32>,
    pub peers: HashMap<u32, Peer>,
}

impl AdminState {
    /// A fresh admin state owning `room`, with empty registries.
    pub fn new(room: Room) -> (r: AdminState)
        ensures
            r.room@ == room@,
            r.clients@ == Seq::<u32>::empty(),
            r.peers@ == Map::<u32, Peer>::empty(),
    {
        AdminState { room, clients: Vec::new(), peers: HashMap::new() }
    }
}

/// The member role: the room snapshot last synchronized from the admin, and
/// the admin connection's identifier.
#[derive(Debug)]
pub struct MemberState {
    pub room: Room,
    pub admin: u32,
}

/// The current role. `Initial` is the start state; `Discover` and `Leaving`
/// are reserved and no transition reaches or leaves them.
#[derive(Debug)]
pub enum State {
    Initial,
    Discover(DiscoverState),
    Connect(ConnectState),
    Admin(AdminState),
    Member(MemberState),
    Leaving,
}

/// The abstract value of a peer registry.
pub open spec fn views_of_peers(m: Map<u32, Peer>) -> Map<u32, PeerView> {
    m.map_values(|p: Peer| p@)
}

impl View for State {
    type V = StateView;

    open spec fn view(&self) -> StateView {
        match self {
            State::Initial => StateView::Initial,
            State::Discover(_) => StateView::Discover,
            State::Connect(c) => StateView::Connect(c.admin),
            State::Admin(a) => StateView::Admin(
                AdminView {
                    room: a.room@,
                    clients: a.clients@,
                    peers: views_of_peers(a.peers@),
                },
            ),
            State::Member(m) => StateView::Member(MemberView { room: m.room@, admin: m.admin }),
            State::Leaving => StateView::Leaving,
        }
    }
}

// ---------------------------------------------------------------------------
// The state manager and its abstract value.
// ---------------------------------------------------------------------------

/// Abstract value of a [`StateManager`].
#[verifier::ext_equal]
pub struct ManagerView {
    pub state: StateView,
    pub peer: PeerView,
    pub history: Seq<(PeerView, ForwardPayloadView)>,
}

/// The abstract values of the broadcast history, in order.
pub open spec fn views_of_history(h: Seq<(Peer, ForwardPayload)>) -> Seq<
    (PeerView, ForwardPayloadView),
> {
    h.map_values(|e: (Peer, ForwardPayload)| (e.0@, e.1@))
}

/// The role state machine: current role, local identity, and the broadcast
/// history.
#[derive(Debug)]
pub struct StateManager {
    pub state: State,
    pub peer: Peer,
    pub history: Vec<(Peer, ForwardPayload)>,
}

impl View for StateManager {
    type V = ManagerView;

    open spec fn view(&self) -> ManagerView {
        ManagerView {
            state: self.state@,
            peer: self.peer@,
            history: views_of_history(self.history@),
        }
    }
}

// ---------------------------------------------------------------------------
// The transition relation, abstractly.
// ---------------------------------------------------------------------------

/// The join request this peer greets an admin with.
pub open spec fn join_req_msg(p: PeerView) -> MessageView {
    MessageView { payload: PayloadView::JoinReq(p) }
}

/// A full room-state snapshot message.
pub open spec fn sync_msg(r: RoomView) -> MessageView {
    MessageView { payload: PayloadView::Sync(r) }
}

/// A relayed user payload tagged with its author.
pub open spec fn forward_msg(p: PeerView, f: ForwardPayloadView) -> MessageView {
    MessageView { payload: PayloadView::Forward(p, f) }
}

/// `s` with every occurrence of `x` removed, order otherwise kept.
pub open spec fn remove_all(s: Seq<u32>, x: u32) -> Seq<u32>
    decreases s.len(),
{
    if s.len() == 0 {
        s
    } else {
        let rest = remove_all(s.drop_last(), x);
        if s.last() == x {
            rest
        } else {
            rest.push(s.last())
        }
    }
}

/// One send of `m` to every registered client, in registry order.
pub open spec fn spec_broadcast(clients: Seq<u32>, m: MessageView) -> Seq<ActionView> {
    clients.map_values(|c: u32| ActionView::Send(c, m))
}

/// One broadcast step: appending the send to client `i` extends the
/// broadcast over one more registered client.
proof fn lemma_broadcast_push(
    acts: Seq<Action>,
    clients: Seq<u32>,
    i: int,
    x: Action,
    m: MessageView,
)
    requires
        views_of_actions(acts) == spec_broadcast(clients.take(i), m),
        0 <= i < clients.len(),
        x@ == ActionView::Send(clients[i], m),
    ensures
        views_of_actions(acts.push(x)) == spec_broadcast(clients.take(i + 1), m),
{
    let lhs = views_of_actions(acts.push(x));
    let rhs = spec_broadcast(clients.take(i + 1), m);
    assert(views_of_actions(acts).len() == acts.len());
    assert(clients.take(i).len() == i);
    assert(spec_broadcast(clients.take(i), m).len() == clients.take(i).len());
    assert(acts.len() == i);
    assert(lhs.len() == i + 1);
    assert(rhs.len() == i + 1);
    assert forall|k: int| 0 <= k < lhs.len() implies lhs[k] == rhs[k] by {
        assert(rhs[k] == ActionView::Send(clients.take(i + 1)[k], m));
        assert(clients.take(i + 1)[k] == clients[k]);
        if k < i {
            assert(acts.push(x)[k] == acts[k]);
            assert(lhs[k] == views_of_actions(acts)[k]);
            assert(views_of_actions(acts)[k] == spec_broadcast(clients.take(i), m)[k]);
            assert(spec_broadcast(clients.take(i), m)[k] == ActionView::Send(
                clients.take(i)[k],
                m,
            ));
            assert(clients.take(i)[k] == clients[k]);
        } else {
            assert(k == i);
            assert(acts.push(x)[k] == x);
            assert(lhs[k] == x@);
        }
    }
    assert(lhs =~= rhs);
}

/// The whole transition relation: what one dequeued event does to the
/// manager, and which actions it emits, in order.
///
/// `fresh_name` is the display name a `StartRoom` transition gives the new
/// room; the name generator draws it at random, so it enters the relation
/// as a parameter. No other transition reads it.
///
/// Any pair not matched below is a non-fatal unmatched transition: the
/// state is left unchanged and no action is emitted.
pub open spec fn spec_step(s: ManagerView, e: EventView, fresh_name: Seq<char>) -> (
    ManagerView,
    Seq<ActionView>,
) {
    match (s.state, e) {
        (StateView::Initial, EventView::StartRoom) => {
            let room = RoomView { name: fresh_name, hierarchy: seq![s.peer] };
            let admin = AdminView { room, clients: Seq::empty(), peers: Map::empty() };
            (
                ManagerView { state: StateView::Admin(admin), peer: s.peer, history: s.history },
                Seq::empty(),
            )
        },
        (StateView::Initial, EventView::JoinSend(addr)) => (
            s,
            seq![ActionView::Connect(addr, join_req_msg(s.peer))],
        ),
        (StateView::Initial, EventView::Open(h)) => (
            ManagerView { state: StateView::Connect(Some(h)), peer: s.peer, history: s.history },
            Seq::empty(),
        ),
        (StateView::Connect(adm), EventView::Message(m, _cid)) => match (adm, m.payload) {
            (Some(a), PayloadView::Sync(room)) => (
                ManagerView {
                    state: StateView::Member(MemberView { room, admin: a }),
                    peer: s.peer,
                    history: s.history,
                },
                Seq::empty(),
            ),
            _ => (s, Seq::empty()),
        },
        (StateView::Connect(adm), EventView::Open(h)) => {
            if adm is None {
                (
                    ManagerView {
                        state: StateView::Connect(Some(h)),
                        peer: s.peer,
                        history: s.history,
                    },
                    Seq::empty(),
                )
            } else {
                (s, Seq::empty())
            }
        },
        (StateView::Admin(st), EventView::Message(m, cid)) => match m.payload {
            PayloadView::JoinReq(p) => {
                let room = RoomView {
                    name: st.room.name,
                    hierarchy: st.room.hierarchy.push(p),
                };
                let admin = AdminView {
                    room,
                    clients: st.clients,
                    peers: st.peers.insert(cid, p),
                };
                (
                    ManagerView {
                        state: StateView::Admin(admin),
                        peer: s.peer,
                        history: s.history,
                    },
                    seq![ActionView::Send(cid, sync_msg(room))],
                )
            },
            PayloadView::Forward(p, f) => (
                ManagerView {
                    state: s.state,
                    peer: s.peer,
                    history: s.history.push((p, f)),
                },
                spec_broadcast(st.clients, m),
            ),
            _ => (s, Seq::empty()),
        },
        (StateView::Admin(st), EventView::Open(h)) => {
            let admin = AdminView { room: st.room, clients: st.clients.push(h), peers: st.peers };
            (
                ManagerView { state: StateView::Admin(admin), peer: s.peer, history: s.history },
                Seq::empty(),
            )
        },
        (StateView::Admin(st), EventView::Closed(cid)) => {
            let kept = remove_all(st.clients, cid);
            if st.peers.contains_key(cid) {
                let room = RoomView {
                    name: st.room.name,
                    hierarchy: remove_last_match(st.room.hierarchy, st.peers[cid]),
                };
                let admin = AdminView { room, clients: kept, peers: st.peers.remove(cid) };
                (
                    ManagerView {
                        state: StateView::Admin(admin),
                        peer: s.peer,
                        history: s.history,
                    },
                    spec_broadcast(kept, sync_msg(room)),
                )
            } else {
                let admin = AdminView { room: st.room, clients: kept, peers: st.peers };
                (
                    ManagerView {
                        state: StateView::Admin(admin),
                        peer: s.peer,
                        history: s.history,
                    },
                    Seq::empty(),
                )
            }
        },
        (StateView::Admin(st), EventView::SubmitMessage(f)) => (
            ManagerView {
                state: s.state,
                peer: s.peer,
                history: s.history.push((s.peer, f)),
            },
            spec_broadcast(st.clients, forward_msg(s.peer, f)),
        ),
        (StateView::Member(st), EventView::Message(m, _cid)) => match m.payload {
            PayloadView::Sync(room) => (
                ManagerView {
                    state: StateView::Member(MemberView { room, admin: st.admin }),
                    peer: s.peer,
                    history: s.history,
                },
                Seq::empty(),
            ),
            PayloadView::Forward(p, f) => (
                ManagerView {
                    state: s.state,
                    peer: s.peer,
                    history: s.history.push((p, f)),
                },
                Seq::empty(),
            ),
            _ => (s, Seq::empty()),
        },
        (StateView::Member(st), EventView::Closed(cid)) => {
            if cid == st.admin {
                let h = st.room.hierarchy;
                if h.len() <= 1 {
                    (
                        ManagerView {
                            state: StateView::Initial,
                            peer: s.peer,
                            history: s.history,
                        },
                        seq![ActionView::MembershipLost],
                    )
                } else {
                    let advanced = h.skip(1);
                    let leader = advanced[0];
                    let room = RoomView { name: st.room.name, hierarchy: advanced };
                    if leader == s.peer {
                        let admin = AdminView {
                            room,
                            clients: Seq::empty(),
                            peers: Map::empty(),
                        };
                        (
                            ManagerView {
                                state: StateView::Admin(admin),
                                peer: s.peer,
                                history: s.history,
                            },
                            Seq::empty(),
                        )
                    } else {
                        (
                            ManagerView {
                                state: StateView::Connect(None),
                                peer: s.peer,
                                history: s.history,
                            },
                            seq![ActionView::Connect(leader.address, join_req_msg(s.peer))],
                        )
                    }
                }
            } else {
                (s, Seq::empty())
            }
        },
        (StateView::Member(st), EventView::SubmitMessage(f)) => (
            s,
            seq![ActionView::Send(st.admin, forward_msg(s.peer, f))],
        ),
        _ => (s, Seq::empty()),
    }
}

/// The `(state, event)` pairs on which the transition table acts: every
/// other pair is an unmatched transition.
pub open spec fn covered(s: StateView, e: EventView) -> bool {
    ||| (s is Initial && (e is StartRoom || e is JoinSend || e is Open))
    ||| (s matches StateView::Connect(adm) && (adm is Some && (e matches EventView::Message(m, _)
        && m.payload is Sync)))
    ||| (s matches StateView::Connect(adm) && (adm is None && e is Open))
    ||| (s is Admin && (e matches EventView::Message(m, _) && (m.payload is JoinReq
        || m.payload is Forward)))
    ||| (s is Admin && (e is Open || e is Closed || e is SubmitMessage))
    ||| (s is Member && (e matches EventView::Message(m, _) && (m.payload is Sync
        || m.payload is Forward)))
    ||| (s matches StateView::Member(st) && (e matches EventView::Closed(cid) && cid == st.admin))
    ||| (s is Member && e is SubmitMessage)
}

/// `spec_step` took `s` by `e` to exactly `s2` with exactly `acts`.
pub open spec fn step_to(
    s: ManagerView,
    e: EventView,
    fresh_name: Seq<char>,
    s2: ManagerView,
    acts: Seq<ActionView>,
) -> bool {
    spec_step(s, e, fresh_name) == (s2, acts)
}

/// Only a `StartRoom` transition reads the fresh room name.
pub proof fn lemma_step_name_irrelevant(
    s: ManagerView,
    e: EventView,
    n1: Seq<char>,
    n2: Seq<char>,
)
    requires
        !(e is StartRoom),
    ensures
        spec_step(s, e, n1) == spec_step(s, e, n2),
{
}

// ---------------------------------------------------------------------------
// The state manager, executably.
// ---------------------------------------------------------------------------

impl StateManager {
    /// A fresh manager for the given local identity: no role yet, empty
    /// history.
    pub fn new(peer: Peer) -> (r: StateManager)
        ensures
            r@ == (ManagerView {
                state: StateView::Initial,
                peer: peer@,
                history: Seq::empty(),
            }),
    {
        let r = StateManager { state: State::Initial, peer, history: Vec::new() };
        proof {
            assert(views_of_history(r.history@) =~= Seq::<(PeerView, ForwardPayloadView)>::empty());
        }
        r
    }

    /// The broadcast history: every `(author, payload)` observed or relayed
    /// so far, in order. Read-only snapshot for the front end.
    pub fn history(&self) -> (r: &Vec<(Peer, ForwardPayload)>)
        ensures
            views_of_history(r@) == self@.history,
    {
        &self.history
    }

    /// The membership list, when the current role owns a room: the admin's
    /// own hierarchy, or the member's last synchronized snapshot.
    pub fn peers(&self) -> (r: Option<&Hierarchy>)
        ensures
            match r {
                Some(h) => {
                    &&& match self@.state {
                        StateView::Admin(a) => h@ == a.room.hierarchy,
                        StateView::Member(m) => h@ == m.room.hierarchy,
                        _ => false,
                    }
                },
                None => !(self@.state is Admin) && !(self@.state is Member),
            },
    {
        match &self.state {
            State::Admin(a) => Some(&a.room.hierarchy),
            State::Member(m) => Some(&m.room.hierarchy),
            _ => None,
        }
    }

    /// Whether the transition table acts on `event` in the current role.
    /// A dequeued event this returns `false` for is an unmatched
    /// transition: `handle` leaves the state unchanged and emits nothing,
    /// and the caller may log it.
    pub fn covers(&self, event: &Event) -> (r: bool)
        ensures
            r == covered(self@.state, event@),
    {
        match (&self.state, event) {
            (State::Initial, Event::StartRoom) => true,
            (State::Initial, Event::JoinSend(_)) => true,
            (State::Initial, Event::Open(_)) => true,
            (State::Connect(cs), Event::Message(msg, _)) => cs.admin.is_some() && matches!(
                msg.payload,
                Payload::Sync(_),
            ),
            (State::Connect(cs), Event::Open(_)) => cs.admin.is_none(),
            (State::Admin(_), Event::Message(msg, _)) => matches!(
                msg.payload,
                Payload::JoinReq(_) | Payload::Forward(_, _),
            ),
            (State::Admin(_), Event::Open(_)) => true,
            (State::Admin(_), Event::Closed(_)) => true,
            (State::Admin(_), Event::SubmitMessage(_)) => true,
            (State::Member(_), Event::Message(msg, _)) => matches!(
                msg.payload,
                Payload::Sync(_) | Payload::Forward(_, _),
            ),
            (State::Member(ms), Event::Closed(cid)) => *cid == ms.admin,
            (State::Member(_), Event::SubmitMessage(_)) => true,
            _ => false,
        }
    }

    /// React to one dequeued event: mutate the state and return the actions
    /// to perform, in order. This implements `spec_step` exactly; the fresh
    /// room name is the one existentially quantified degree of freedom, and
    /// only a `StartRoom` event reads it.
    #[verifier::loop_isolation(false)]
    pub fn handle(&mut self, event: Event) -> (r: Vec<Action>)
        ensures
            exists|name: Seq<char>|
                #[trigger] step_to(old(self)@, event@, name, final(self)@, views_of_actions(r@)),
            !(event@ is StartRoom) ==> step_to(
                old(self)@,
                event@,
                Seq::empty(),
                final(self)@,
                views_of_actions(r@),
            ),
            event@ is StartRoom && old(self)@.state is Initial ==> exists|i: int, j: int, k: int|
                {
                    &&& 0 <= i < WORD_CHOICES
                    &&& 0 <= j < WORD_CHOICES
                    &&& 0 <= k < WORD_CHOICES
                    &&& #[trigger] step_to(
                        old(self)@,
                        event@,
                        spec_room_name(i, j, k),
                        final(self)@,
                        views_of_actions(r@),
                    )
                },
    {
        let ghost s0 = self@;
        let ghost e0 = event@;
        let ghost mut wname: Seq<char> = Seq::empty();
        let mut st = State::Initial;
        core::mem::swap(&mut st, &mut self.state);
        let mut actions: Vec<Action> = Vec::new();
        proof {
            assert(views_of_actions(actions@) =~= Seq::<ActionView>::empty());
        }
        match (st, event) {
            (State::Initial, Event::StartRoom) => {
                let name = random_room_name();
                proof {
                    wname = name@;
                }
                let ghost (wi, wj, wk): (int, int, int) = choose|i: int, j: int, k: int|
                    0 <= i < WORD_CHOICES && 0 <= j < WORD_CHOICES && 0 <= k < WORD_CHOICES
                        && name@ == spec_room_name(i, j, k);
                let room = Room::new(name, self.peer.clone());
                self.state = State::Admin(AdminState::new(room));
                proof {
                    assert(views_of_peers(Map::<u32, Peer>::empty()) =~= Map::<
                        u32,
                        PeerView,
                    >::empty());
                    assert(self@ =~~= spec_step(s0, e0, wname).0);
                    assert(step_to(s0, e0, wname, self@, views_of_actions(actions@)));
                    assert(0 <= wi < WORD_CHOICES && 0 <= wj < WORD_CHOICES && 0 <= wk
                        < WORD_CHOICES && wname == spec_room_name(wi, wj, wk));
                    assert(step_to(
                        s0,
                        e0,
                        spec_room_name(wi, wj, wk),
                        self@,
                        views_of_actions(actions@),
                    ));
                }
            },
            (State::Initial, Event::JoinSend(addr)) => {
                let greeting = Message::new(Payload::JoinReq(self.peer.clone()));
                actions.push(Action::Connect(addr, greeting));
                self.state = State::Initial;
                proof {
                    assert(views_of_actions(actions@) =~~= spec_step(s0, e0, wname).1);
                    assert(self@ =~~= spec_step(s0, e0, wname).0);
                    assert(step_to(s0, e0, wname, self@, views_of_actions(actions@)));
                }
            },
            (State::Initial, Event::Open(h)) => {
                self.state = State::Connect(ConnectState { admin: Some(h) });
                proof {
                    assert(self@ =~~= spec_step(s0, e0, wname).0);
                    assert(step_to(s0, e0, wname, self@, views_of_actions(actions@)));
                }
            },
            (State::Connect(cs), Event::Message(msg, _cid)) => {
                match msg.payload {
                    Payload::Sync(room) => {
                        match cs.admin {
                            Some(a) => {
                                self.state = State::Member(MemberState { room, admin: a });
                            },
                            None => {
                                self.state = State::Connect(cs);
                            },
                        }
                    },
                    _ => {
                        self.state = State::Connect(cs);
                    },
                }
                proof {
                    assert(self@ =~~= spec_step(s0, e0, wname).0);
                    assert(step_to(s0, e0, wname, self@, views_of_actions(actions@)));
                }
            },
            (State::Connect(cs), Event::Open(h)) => {
                match cs.admin {
                    None => {
                        self.state = State::Connect(ConnectState { admin: Some(h) });
                    },
                    Some(_) => {
                        self.state = State::Connect(cs);
                    },
                }
                proof {
                    assert(self@ =~~= spec_step(s0, e0, wname).0);
                    assert(step_to(s0, e0, wname, self@, views_of_actions(actions@)));
                }
            },
            (State::Admin(mut a), Event::Message(msg, cid)) => {
                match msg.payload {
                    Payload::JoinReq(p) => {
                        let ghost peers0 = views_of_peers(a.peers@);
                        let ghost pv = p@;
                        a.room.hierarchy.push(p.clone());
                        a.peers.insert(cid, p);
                        proof {
                            assert(views_of_peers(a.peers@) =~= peers0.insert(cid, pv));
                        }
                        let sync = Message::new(Payload::Sync(a.room.clone()));
                        actions.push(Action::Send(cid, sync));
                        self.state = State::Admin(a);
                        proof {
                            assert(views_of_actions(actions@) =~~= spec_step(s0, e0, wname).1);
                            assert(self@ =~~= spec_step(s0, e0, wname).0);
                            assert(step_to(s0, e0, wname, self@, views_of_actions(actions@)));
                        }
                    },
                    Payload::Forward(p, f) => {
                        let ghost pv = p@;
                        let ghost fv = f@;
                        self.history.push((p.clone(), f.clone()));
                        proof {
                            assert(views_of_history(self.history@) =~= s0.history.push((pv, fv)));
                        }
                        let fwd = Message::new(Payload::Forward(p, f));
                        let mut i: usize = 0;
                        while i < a.clients.len()
                            invariant
                                i <= a.clients.len(),
                                views_of_actions(actions@) =~= spec_broadcast(
                                    a.clients@.take(i as int),
                                    fwd@,
                                ),
                            decreases a.clients.len() - i,
                        {
                            let ghost acts0 = actions@;
                            let c = a.clients[i];
                            let item = Action::Send(c, fwd.clone());
                            proof {
                                assert(item@ == ActionView::Send(a.clients@[i as int], fwd@));
                            }
                            actions.push(item);
                            proof {
                                lemma_broadcast_push(acts0, a.clients@, i as int, item, fwd@);
                            }
                            i = i + 1;
                        }
                        proof {
                            assert(a.clients@.take(a.clients@.len() as int) =~= a.clients@);
                        }
                        self.state = State::Admin(a);
                        proof {
                            assert(views_of_actions(actions@) =~~= spec_step(s0, e0, wname).1);
                            assert(self@ =~~= spec_step(s0, e0, wname).0);
                            assert(step_to(s0, e0, wname, self@, views_of_actions(actions@)));
                        }
                    },
                    _ => {
                        self.state = State::Admin(a);
                        proof {
                            assert(self@ =~~= spec_step(s0, e0, wname).0);
                            assert(step_to(s0, e0, wname, self@, views_of_actions(actions@)));
                        }
                    },
                }
            },
            (State::Admin(mut a), Event::Open(h)) => {
                a.clients.push(h);
                self.state = State::Admin(a);
                proof {
                    assert(self@ =~~= spec_step(s0, e0, wname).0);
                    assert(step_to(s0, e0, wname, self@, views_of_actions(actions@)));
                }
            },
            (State::Admin(mut a), Event::Closed(cid)) => {
                let mut kept: Vec<u32> = Vec::new();
                let mut i: usize = 0;
                while i < a.clients.len()
                    invariant
                        i <= a.clients.len(),
                        kept@ == remove_all(a.clients@.take(i as int), cid),
                    decreases a.clients.len() - i,
                {
                    let c = a.clients[i];
                    let ghost kept0 = kept@;
                    if c != cid {
                        kept.push(c);
                    }
                    proof {
                        assert(a.clients@.take(i + 1).drop_last() =~= a.clients@.take(i as int));
                        assert(a.clients@.take(i + 1).last() == c);
                        assert(kept@ == remove_all(a.clients@.take(i + 1), cid));
                    }
                    i = i + 1;
                }
                proof {
                    assert(a.clients@.take(a.clients@.len() as int) =~= a.clients@);
                }
                let ghost peers0 = views_of_peers(a.peers@);
                match a.peers.remove(&cid) {
                    Some(gone) => {
                        proof {
                            assert(views_of_peers(a.peers@) =~= peers0.remove(cid));
                            assert(peers0.contains_key(cid) && peers0[cid] == gone@);
                        }
                        a.room.hierarchy.remove(&gone);
                        a.clients = kept;
                        let sync = Message::new(Payload::Sync(a.room.clone()));
                        let mut j: usize = 0;
                        while j < a.clients.len()
                            invariant
                                j <= a.clients.len(),
                                views_of_actions(actions@) =~= spec_broadcast(
                                    a.clients@.take(j as int),
                                    sync@,
                                ),
                            decreases a.clients.len() - j,
                        {
                            let ghost acts0 = actions@;
                            let c = a.clients[j];
                            let item = Action::Send(c, sync.clone());
                            proof {
                                assert(item@ == ActionView::Send(a.clients@[j as int], sync@));
                            }
                            actions.push(item);
                            proof {
                                lemma_broadcast_push(acts0, a.clients@, j as int, item, sync@);
                            }
                            j = j + 1;
                        }
                        proof {
                            assert(a.clients@.take(a.clients@.len() as int) =~= a.clients@);
                        }
                        self.state = State::Admin(a);
                        proof {
                            assert(views_of_actions(actions@) =~~= spec_step(s0, e0, wname).1);
                            assert(self@ =~~= spec_step(s0, e0, wname).0);
                            assert(step_to(s0, e0, wname, self@, views_of_actions(actions@)));
                        }
                    },
                    None => {
                        proof {
                            assert(views_of_peers(a.peers@) =~= peers0);
                            assert(!peers0.contains_key(cid));
                        }
                        a.clients = kept;
                        self.state = State::Admin(a);
                        proof {
                            assert(self@ =~~= spec_step(s0, e0, wname).0);
                            assert(step_to(s0, e0, wname, self@, views_of_actions(actions@)));
                        }
                    },
                }
            },
            (State::Admin(a), Event::SubmitMessage(f)) => {
                self.history.push((self.peer.clone(), f.clone()));
                proof {
                    assert(views_of_history(self.history@) =~= s0.history.push(
                        (s0.peer, f@),
                    ));
                }
                let fwd = Message::new(Payload::Forward(self.peer.clone(), f));
                let mut i: usize = 0;
                while i < a.clients.len()
                    invariant
                        i <= a.clients.len(),
                        views_of_actions(actions@) =~= spec_broadcast(
                            a.clients@.take(i as int),
                            fwd@,
                        ),
                    decreases a.clients.len() - i,
                {
                    let ghost acts0 = actions@;
                    let c = a.clients[i];
                    let item = Action::Send(c, fwd.clone());
                    proof {
                        assert(item@ == ActionView::Send(a.clients@[i as int], fwd@));
                    }
                    actions.push(item);
                    proof {
                        lemma_broadcast_push(acts0, a.clients@, i as int, item, fwd@);
                    }
                    i = i + 1;
                }
                proof {
                    assert(a.clients@.take(a.clients@.len() as int) =~= a.clients@);
                }
                self.state = State::Admin(a);
                proof {
                    assert(views_of_actions(actions@) =~~= spec_step(s0, e0, wname).1);
                    assert(self@ =~~= spec_step(s0, e0, wname).0);
                    assert(step_to(s0, e0, wname, self@, views_of_actions(actions@)));
                }
            },
            (State::Member(m), Event::Message(msg, _cid)) => {
                match msg.payload {
                    Payload::Sync(room) => {
                        self.state = State::Member(MemberState { room, admin: m.admin });
                    },
                    Payload::Forward(p, f) => {
                        let ghost pv = p@;
                        let ghost fv = f@;
                        self.history.push((p, f));
                        proof {
                            assert(views_of_history(self.history@) =~= s0.history.push((pv, fv)));
                        }
                        self.state = State::Member(m);
                    },
                    _ => {
                        self.state = State::Member(m);
                    },
                }
                proof {
                    assert(self@ =~~= spec_step(s0, e0, wname).0);
                    assert(step_to(s0, e0, wname, self@, views_of_actions(actions@)));
                }
            },
            (State::Member(mut m), Event::Closed(cid)) => {
                if cid == m.admin {
                    match m.room.hierarchy.next_leader() {
                        None => {
                            actions.push(Action::MembershipLost);
                            self.state = State::Initial;
                            proof {
                                assert(views_of_actions(actions@) =~~= spec_step(
                                    s0,
                                    e0,
                                    wname,
                                ).1);
                                assert(self@ =~~= spec_step(s0, e0, wname).0);
                                assert(step_to(
                                    s0,
                                    e0,
                                    wname,
                                    self@,
                                    views_of_actions(actions@),
                                ));
                            }
                        },
                        Some(leader) => {
                            if leader == self.peer {
                                self.state = State::Admin(AdminState::new(m.room));
                                proof {
                                    assert(views_of_peers(Map::<u32, Peer>::empty()) =~= Map::<
                                        u32,
                                        PeerView,
                                    >::empty());
                                    assert(self@ =~~= spec_step(s0, e0, wname).0);
                                    assert(step_to(
                                        s0,
                                        e0,
                                        wname,
                                        self@,
                                        views_of_actions(actions@),
                                    ));
                                }
                            } else {
                                let greeting = Message::new(
                                    Payload::JoinReq(self.peer.clone()),
                                );
                                actions.push(Action::Connect(leader.addr(), greeting));
                                self.state = State::Connect(ConnectState { admin: None });
                                proof {
                                    assert(views_of_actions(actions@) =~~= spec_step(
                                        s0,
                                        e0,
                                        wname,
                                    ).1);
                                    assert(self@ =~~= spec_step(s0, e0, wname).0);
                                    assert(step_to(
                                        s0,
                                        e0,
                                        wname,
                                        self@,
                                        views_of_actions(actions@),
                                    ));
                                }
                            }
                        },
                    }
                } else {
                    self.state = State::Member(m);
                    proof {
                        assert(self@ =~~= spec_step(s0, e0, wname).0);
                        assert(step_to(s0, e0, wname, self@, views_of_actions(actions@)));
                    }
                }
            },
            (State::Member(m), Event::SubmitMessage(f)) => {
                let fwd = Message::new(Payload::Forward(self.peer.clone(), f));
                actions.push(Action::Send(m.admin, fwd));
                self.state = State::Member(m);
                proof {
                    assert(views_of_actions(actions@) =~~= spec_step(s0, e0, wname).1);
                    assert(self@ =~~= spec_step(s0, e0, wname).0);
                    assert(step_to(s0, e0, wname, self@, views_of_actions(actions@)));
                }
            },
            (prev, _) => {
                self.state = prev;
                proof {
                    assert(self@ =~~= spec_step(s0, e0, wname).0);
                    assert(step_to(s0, e0, wname, self@, views_of_actions(actions@)));
                }
            },
        }
        actions
    }
}

} // verus!
