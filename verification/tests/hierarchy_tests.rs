use vlawn::hierarchy::Hierarchy;
use vlawn::peer::{Ipv4Address, Peer};

fn peer(name: &str, d: u8) -> Peer {
    Peer::new(
        name.to_string(),
        Ipv4Address { octet0: 10, octet1: 0, octet2: 0, octet3: d },
    )
}

#[test]
fn new_seeds_with_local_peer() {
    let me = peer("me", 1);
    let h = Hierarchy::new(me.clone());
    assert_eq!(h.0, vec![me]);
}

#[test]
fn push_then_remove_restores_previous_state() {
    let mut h = Hierarchy(vec![peer("a", 1), peer("b", 2)]);
    let before = h.clone();
    let p = peer("c", 3);
    h.push(p.clone());
    assert_eq!(h.0.len(), 3);
    h.remove(&p);
    assert_eq!(h, before);
}

#[test]
fn push_then_remove_restores_even_with_duplicate() {
    let p = peer("a", 1);
    let mut h = Hierarchy(vec![p.clone(), peer("b", 2)]);
    let before = h.clone();
    h.push(p.clone());
    h.remove(&p);
    assert_eq!(h, before);
}

#[test]
fn remove_absent_peer_is_a_no_op() {
    let mut h = Hierarchy(vec![peer("a", 1), peer("b", 2)]);
    let before = h.clone();
    h.remove(&peer("z", 9));
    assert_eq!(h, before);
}

#[test]
fn next_leader_advances_front_and_returns_new_front() {
    let a = peer("a", 1);
    let b = peer("b", 2);
    let c = peer("c", 3);
    let mut h = Hierarchy(vec![a, b.clone(), c.clone()]);
    let next = h.next_leader();
    assert_eq!(next, Some(b.clone()));
    assert_eq!(h.0, vec![b, c]);
}

#[test]
fn next_leader_on_singleton_exhausts_the_hierarchy() {
    let mut h = Hierarchy(vec![peer("a", 1)]);
    assert_eq!(h.next_leader(), None);
    assert_eq!(h.0.len(), 0);
}

#[test]
fn next_leader_on_empty_returns_none() {
    let mut h = Hierarchy(Vec::new());
    assert_eq!(h.next_leader(), None);
    assert_eq!(h.0.len(), 0);
}

#[test]
fn len_counts_peers() {
    let h = Hierarchy(vec![peer("a", 1), peer("b", 2)]);
    assert_eq!(h.len(), 2);
}
