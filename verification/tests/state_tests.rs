use vlawn::event::{Action, Event};
use vlawn::hierarchy::Hierarchy;
use vlawn::message::{ForwardPayload, Message, Payload};
use vlawn::peer::{Ipv4Address, Peer};
use vlawn::room::Room;
use vlawn::state::{State, StateManager};

fn addr(d: u8) -> Ipv4Address {
    Ipv4Address { octet0: 10, octet1: 0, octet2: 0, octet3: d }
}

fn peer(name: &str, d: u8) -> Peer {
    Peer::new(name.to_string(), addr(d))
}

fn text(s: &str) -> ForwardPayload {
    ForwardPayload::Text(s.to_string())
}

/// Drive a fresh manager into the member role holding `room`, synchronized
/// over connection `admin_conn`.
fn member_with(room: Room, me: Peer, admin_conn: u32) -> StateManager {
    let mut m = StateManager::new(me);
    assert!(m.handle(Event::Open(admin_conn)).is_empty());
    let acts = m.handle(Event::Message(Message::new(Payload::Sync(room)), admin_conn));
    assert!(acts.is_empty());
    m
}

#[test]
fn start_room_makes_admin_seeded_with_self() {
    let me = peer("me", 1);
    let mut m = StateManager::new(me.clone());
    let acts = m.handle(Event::StartRoom);
    assert!(acts.is_empty());
    match &m.state {
        State::Admin(a) => {
            assert_eq!(a.room.hierarchy.0, vec![me]);
            assert!(!a.room.name.is_empty());
            assert!(a.clients.is_empty());
            assert!(a.peers.is_empty());
        },
        other => panic!("expected admin role, got {:?}", other),
    }
}

#[test]
fn join_send_connects_with_join_req_greeting() {
    let me = peer("me", 1);
    let mut m = StateManager::new(me.clone());
    let acts = m.handle(Event::JoinSend(addr(9)));
    assert_eq!(
        acts,
        vec![Action::Connect(addr(9), Message::new(Payload::JoinReq(me)))]
    );
    assert!(matches!(m.state, State::Initial));
}

#[test]
fn open_in_initial_becomes_connecting() {
    let mut m = StateManager::new(peer("me", 1));
    assert!(m.handle(Event::Open(4)).is_empty());
    match &m.state {
        State::Connect(c) => assert_eq!(c.admin, Some(4)),
        other => panic!("expected connecting role, got {:?}", other),
    }
}

#[test]
fn sync_while_connecting_joins_the_room() {
    let me = peer("me", 2);
    let room = Room {
        name: "r".to_string(),
        hierarchy: Hierarchy(vec![peer("admin", 1), me.clone()]),
    };
    let m = member_with(room.clone(), me, 4);
    match &m.state {
        State::Member(ms) => {
            assert_eq!(ms.room, room);
            assert_eq!(ms.admin, 4);
        },
        other => panic!("expected member role, got {:?}", other),
    }
}

#[test]
fn admin_accepts_join_with_exactly_one_sync() {
    let me = peer("admin", 1);
    let mut m = StateManager::new(me.clone());
    m.handle(Event::StartRoom);
    let joiner = peer("bob", 2);
    let acts = m.handle(Event::Message(Message::new(Payload::JoinReq(joiner.clone())), 7));
    match &m.state {
        State::Admin(a) => {
            assert_eq!(a.room.hierarchy.0, vec![me, joiner.clone()]);
            assert_eq!(a.peers.get(&7), Some(&joiner));
            assert_eq!(a.peers.len(), 1);
            let expected_sync = Message::new(Payload::Sync(a.room.clone()));
            assert_eq!(acts, vec![Action::Send(7, expected_sync)]);
        },
        other => panic!("expected admin role, got {:?}", other),
    }
}

#[test]
fn admin_forward_fans_out_to_all_clients() {
    let mut m = StateManager::new(peer("admin", 1));
    m.handle(Event::StartRoom);
    m.handle(Event::Open(1));
    m.handle(Event::Open(2));
    m.handle(Event::Open(3));
    let author = peer("carol", 3);
    let fwd = Message::new(Payload::Forward(author.clone(), text("hi")));
    let acts = m.handle(Event::Message(fwd.clone(), 9));
    assert_eq!(m.history().len(), 1);
    assert_eq!(m.history()[0], (author, text("hi")));
    assert_eq!(
        acts,
        vec![
            Action::Send(1, fwd.clone()),
            Action::Send(2, fwd.clone()),
            Action::Send(3, fwd),
        ]
    );
}

#[test]
fn admin_open_registers_client() {
    let mut m = StateManager::new(peer("admin", 1));
    m.handle(Event::StartRoom);
    assert!(m.handle(Event::Open(11)).is_empty());
    match &m.state {
        State::Admin(a) => assert_eq!(a.clients, vec![11]),
        other => panic!("expected admin role, got {:?}", other),
    }
}

#[test]
fn admin_closed_removes_peer_and_rebroadcasts_sync() {
    let me = peer("admin", 1);
    let mut m = StateManager::new(me.clone());
    m.handle(Event::StartRoom);
    m.handle(Event::Open(7));
    let joiner = peer("bob", 2);
    m.handle(Event::Message(Message::new(Payload::JoinReq(joiner.clone())), 7));
    m.handle(Event::Open(8));
    let acts = m.handle(Event::Closed(7));
    match &m.state {
        State::Admin(a) => {
            assert_eq!(a.room.hierarchy.0, vec![me]);
            assert_eq!(a.peers.get(&7), None);
            assert_eq!(a.clients, vec![8]);
            let expected_sync = Message::new(Payload::Sync(a.room.clone()));
            assert_eq!(acts, vec![Action::Send(8, expected_sync)]);
        },
        other => panic!("expected admin role, got {:?}", other),
    }
}

#[test]
fn admin_closed_of_unjoined_connection_only_unregisters_it() {
    let mut m = StateManager::new(peer("admin", 1));
    m.handle(Event::StartRoom);
    m.handle(Event::Open(5));
    let acts = m.handle(Event::Closed(5));
    assert!(acts.is_empty());
    match &m.state {
        State::Admin(a) => assert!(a.clients.is_empty()),
        other => panic!("expected admin role, got {:?}", other),
    }
}

#[test]
fn admin_submit_appends_history_and_broadcasts() {
    let me = peer("admin", 1);
    let mut m = StateManager::new(me.clone());
    m.handle(Event::StartRoom);
    m.handle(Event::Open(1));
    m.handle(Event::Open(2));
    let acts = m.handle(Event::SubmitMessage(text("hello")));
    assert_eq!(m.history()[0], (me.clone(), text("hello")));
    let fwd = Message::new(Payload::Forward(me, text("hello")));
    assert_eq!(acts, vec![Action::Send(1, fwd.clone()), Action::Send(2, fwd)]);
}

#[test]
fn member_resync_replaces_room_wholesale() {
    let me = peer("me", 2);
    let room1 = Room {
        name: "one".to_string(),
        hierarchy: Hierarchy(vec![peer("admin", 1), me.clone()]),
    };
    let mut m = member_with(room1, me.clone(), 4);
    let room2 = Room {
        name: "two".to_string(),
        hierarchy: Hierarchy(vec![peer("admin", 1), me, peer("dan", 5)]),
    };
    let acts = m.handle(Event::Message(Message::new(Payload::Sync(room2.clone())), 4));
    assert!(acts.is_empty());
    match &m.state {
        State::Member(ms) => {
            assert_eq!(ms.room, room2);
            assert_eq!(ms.admin, 4);
        },
        other => panic!("expected member role, got {:?}", other),
    }
}

#[test]
fn member_forward_appends_history_without_rebroadcast() {
    let me = peer("me", 2);
    let room = Room {
        name: "r".to_string(),
        hierarchy: Hierarchy(vec![peer("admin", 1), me.clone()]),
    };
    let mut m = member_with(room, me, 4);
    let author = peer("carol", 3);
    let acts = m.handle(Event::Message(
        Message::new(Payload::Forward(author.clone(), text("hey"))),
        4,
    ));
    assert!(acts.is_empty());
    assert_eq!(m.history()[0], (author, text("hey")));
}

#[test]
fn member_submit_sends_forward_to_admin() {
    let me = peer("me", 2);
    let room = Room {
        name: "r".to_string(),
        hierarchy: Hierarchy(vec![peer("admin", 1), me.clone()]),
    };
    let mut m = member_with(room, me.clone(), 4);
    let acts = m.handle(Event::SubmitMessage(text("up")));
    let fwd = Message::new(Payload::Forward(me, text("up")));
    assert_eq!(acts, vec![Action::Send(4, fwd)]);
    assert!(m.history().is_empty());
}

#[test]
fn failover_promotes_self_when_next_in_line() {
    let admin = peer("admin", 1);
    let b = peer("b", 2);
    let c = peer("c", 3);
    let room = Room {
        name: "r".to_string(),
        hierarchy: Hierarchy(vec![admin, b.clone(), c.clone()]),
    };
    let mut m = member_with(room, b.clone(), 5);
    let acts = m.handle(Event::Closed(5));
    assert!(acts.is_empty());
    match &m.state {
        State::Admin(a) => {
            assert_eq!(a.room.hierarchy.0, vec![b, c]);
            assert_eq!(a.room.name, "r");
            assert!(a.clients.is_empty());
            assert!(a.peers.is_empty());
        },
        other => panic!("expected admin role, got {:?}", other),
    }
}

#[test]
fn failover_reconnects_to_new_front_when_not_next_in_line() {
    let admin = peer("admin", 1);
    let b = peer("b", 2);
    let c = peer("c", 3);
    let room = Room {
        name: "r".to_string(),
        hierarchy: Hierarchy(vec![admin, b.clone(), c.clone()]),
    };
    let mut m = member_with(room, c.clone(), 5);
    let acts = m.handle(Event::Closed(5));
    assert_eq!(
        acts,
        vec![Action::Connect(b.addr(), Message::new(Payload::JoinReq(c)))]
    );
    match &m.state {
        State::Connect(cs) => assert_eq!(cs.admin, None),
        other => panic!("expected connecting role, got {:?}", other),
    }
}

#[test]
fn failover_with_no_candidate_reports_membership_lost() {
    let me = peer("me", 2);
    let room = Room {
        name: "r".to_string(),
        hierarchy: Hierarchy(vec![peer("admin", 1)]),
    };
    let mut m = member_with(room, me, 5);
    let acts = m.handle(Event::Closed(5));
    assert_eq!(acts, vec![Action::MembershipLost]);
    assert!(matches!(m.state, State::Initial));
}

#[test]
fn member_ignores_close_of_other_connections() {
    let me = peer("me", 2);
    let room = Room {
        name: "r".to_string(),
        hierarchy: Hierarchy(vec![peer("admin", 1), me.clone()]),
    };
    let mut m = member_with(room.clone(), me, 5);
    let acts = m.handle(Event::Closed(9));
    assert!(acts.is_empty());
    match &m.state {
        State::Member(ms) => assert_eq!(ms.room, room),
        other => panic!("expected member role, got {:?}", other),
    }
}

#[test]
fn unmatched_events_leave_state_unchanged() {
    let mut m = StateManager::new(peer("me", 1));
    assert!(m.handle(Event::Closed(3)).is_empty());
    assert!(m.handle(Event::SubmitMessage(text("lost"))).is_empty());
    assert!(m
        .handle(Event::Message(Message::new(Payload::JoinReq(peer("x", 9))), 3))
        .is_empty());
    assert!(matches!(m.state, State::Initial));
    assert!(m.history().is_empty());
    assert!(m.peers().is_none());
}

#[test]
fn admin_ignores_start_room_and_sync() {
    let me = peer("admin", 1);
    let mut m = StateManager::new(me.clone());
    m.handle(Event::StartRoom);
    let room_before = match &m.state {
        State::Admin(a) => a.room.clone(),
        other => panic!("expected admin role, got {:?}", other),
    };
    assert!(m.handle(Event::StartRoom).is_empty());
    let stray = Room { name: "x".to_string(), hierarchy: Hierarchy(Vec::new()) };
    assert!(m
        .handle(Event::Message(Message::new(Payload::Sync(stray)), 2))
        .is_empty());
    match &m.state {
        State::Admin(a) => assert_eq!(a.room, room_before),
        other => panic!("expected admin role, got {:?}", other),
    }
}

#[test]
fn member_ignores_join_req_messages() {
    let me = peer("me", 2);
    let room = Room {
        name: "r".to_string(),
        hierarchy: Hierarchy(vec![peer("admin", 1), me.clone()]),
    };
    let mut m = member_with(room.clone(), me, 5);
    let acts = m.handle(Event::Message(Message::new(Payload::JoinReq(peer("x", 9))), 5));
    assert!(acts.is_empty());
    match &m.state {
        State::Member(ms) => assert_eq!(ms.room, room),
        other => panic!("expected member role, got {:?}", other),
    }
}

#[test]
fn peers_surface_follows_the_role() {
    let me = peer("me", 1);
    let mut m = StateManager::new(me.clone());
    assert!(m.peers().is_none());
    m.handle(Event::StartRoom);
    let h = m.peers().expect("admin role owns a room");
    assert_eq!(h.0, vec![me]);
}

#[test]
fn sync_while_dial_in_flight_is_ignored() {
    let admin = peer("admin", 1);
    let b = peer("b", 2);
    let c = peer("c", 3);
    let room = Room {
        name: "r".to_string(),
        hierarchy: Hierarchy(vec![admin, b, c.clone()]),
    };
    let mut m = member_with(room.clone(), c, 5);
    m.handle(Event::Closed(5));
    // the reconnect dial is still in flight: no admin handle yet
    let acts = m.handle(Event::Message(Message::new(Payload::Sync(room)), 6));
    assert!(acts.is_empty());
    match &m.state {
        State::Connect(cs) => assert_eq!(cs.admin, None),
        other => panic!("expected connecting role, got {:?}", other),
    }
}

#[test]
fn failover_rejoin_runs_through_connecting_to_member() {
    let admin = peer("admin", 1);
    let b = peer("b", 2);
    let c = peer("c", 3);
    let room = Room {
        name: "r".to_string(),
        hierarchy: Hierarchy(vec![admin, b.clone(), c.clone()]),
    };
    let mut m = member_with(room, c.clone(), 5);
    let acts = m.handle(Event::Closed(5));
    assert_eq!(
        acts,
        vec![Action::Connect(b.addr(), Message::new(Payload::JoinReq(c.clone())))]
    );
    // the dial succeeds and its handle is registered under 6
    assert!(m.handle(Event::Open(6)).is_empty());
    match &m.state {
        State::Connect(cs) => assert_eq!(cs.admin, Some(6)),
        other => panic!("expected connecting role, got {:?}", other),
    }
    // the new admin answers with the advanced room
    let room2 = Room {
        name: "r".to_string(),
        hierarchy: Hierarchy(vec![b, c]),
    };
    let acts = m.handle(Event::Message(Message::new(Payload::Sync(room2.clone())), 6));
    assert!(acts.is_empty());
    match &m.state {
        State::Member(ms) => {
            assert_eq!(ms.room, room2);
            assert_eq!(ms.admin, 6);
        },
        other => panic!("expected member role, got {:?}", other),
    }
}

#[test]
fn covers_names_the_acting_transitions() {
    let me = peer("me", 1);
    let mut m = StateManager::new(me.clone());
    assert!(m.covers(&Event::StartRoom));
    assert!(m.covers(&Event::JoinSend(addr(9))));
    assert!(!m.covers(&Event::Closed(3)));
    assert!(!m.covers(&Event::SubmitMessage(text("x"))));
    m.handle(Event::StartRoom);
    assert!(!m.covers(&Event::StartRoom));
    assert!(m.covers(&Event::Closed(3)));
    assert!(m.covers(&Event::SubmitMessage(text("x"))));
    assert!(!m.covers(&Event::Message(
        Message::new(Payload::Sync(Room {
            name: "x".to_string(),
            hierarchy: Hierarchy(Vec::new()),
        })),
        2,
    )));
    assert!(m.covers(&Event::Message(Message::new(Payload::JoinReq(peer("p", 2))), 2)));
}
