//! A room: a display name paired with the membership hierarchy. The room is
//! the unit of state owned by the admin and synchronized wholesale to
//! joining or resynchronizing members.

use vstd::prelude::*;

use crate::hierarchy::Hierarchy;
use crate::peer::{Peer, PeerView};

verus! {

/// The abstract value of a [`Room`].
#[verifier::ext_equal]
pub struct RoomView {
    pub name: Seq<char>,
    pub hierarchy: Seq<PeerView>,
}

/// Named container pairing a display name with a [`Hierarchy`].
#[derive(Debug)]
pub struct Room {
    pub name: String,
    pub hierarchy: Hierarchy,
}

impl View for Room {
    type V = RoomView;

    open spec fn view(&self) -> RoomView {
        RoomView { name: self.name@, hierarchy: self.hierarchy@ }
    }
}

impl Room {
    /// A fresh room under the given display name, its hierarchy seeded with
    /// the peer that starts it.
    pub fn new(name: String, local: Peer) -> (r: Room)
        ensures
            r@ == (RoomView { name: name@, hierarchy: seq![local@] }),
    {
        Room { name, hierarchy: Hierarchy::new(local) }
    }
}

impl Clone for Room {
    fn clone(&self) -> (r: Self)
        ensures
            r@ == self@,
    {
        Room { name: self.name.clone(), hierarchy: self.hierarchy.clone() }
    }
}

impl PartialEq for Room {
    fn eq(&self, other: &Self) -> (r: bool) {
        self.name == other.name && self.hierarchy == other.hierarchy
    }
}

impl vstd::std_specs::cmp::PartialEqSpecImpl for Room {
    open spec fn obeys_eq_spec() -> bool {
        true
    }

    open spec fn eq_spec(&self, other: &Self) -> bool {
        self@ == other@
    }
}

} // verus!
