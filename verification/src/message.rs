//! The wire model: the envelope exchanged between peers over a connection.
//! A [`Message`] carries one [`Payload`]; a `Forward` payload additionally
//! carries the user-authored [`ForwardPayload`] it relays.

use vstd::prelude::*;

use crate::peer::{Peer, PeerView};
use crate::room::{Room, RoomView};

verus! {

/// The abstract value of a [`ForwardPayload`].
#[verifier::ext_equal]
pub enum ForwardPayloadView {
    Text(Seq<char>),
    Notification(Seq<char>),
}

/// A user-originated payload: chat text, or a notification line.
#[derive(Debug)]
pub enum ForwardPayload {
    Text(String),
    Notification(String),
}

impl View for ForwardPayload {
    type V = ForwardPayloadView;

    open spec fn view(&self) -> ForwardPayloadView {
        match self {
            ForwardPayload::Text(s) => ForwardPayloadView::Text(s@),
            ForwardPayload::Notification(s) => ForwardPayloadView::Notification(s@),
        }
    }
}

impl Clone for ForwardPayload {
    fn clone(&self) -> (r: Self)
        ensures
            r@ == self@,
    {
        match self {
            ForwardPayload::Text(s) => ForwardPayload::Text(s.clone()),
            ForwardPayload::Notification(s) => ForwardPayload::Notification(s.clone()),
        }
    }
}

impl PartialEq for ForwardPayload {
    fn eq(&self, other: &Self) -> (r: bool) {
        match (self, other) {
            (ForwardPayload::Text(a), ForwardPayload::Text(b)) => *a == *b,
            (ForwardPayload::Notification(a), ForwardPayload::Notification(b)) => *a == *b,
            _ => false,
        }
    }
}

impl vstd::std_specs::cmp::PartialEqSpecImpl for ForwardPayload {
    open spec fn obeys_eq_spec() -> bool {
        true
    }

    open spec fn eq_spec(&self, other: &Self) -> bool {
        self@ == other@
    }
}

/// The abstract value of a [`Payload`].
#[verifier::ext_equal]
pub enum PayloadView {
    JoinReq(PeerView),
    Sync(RoomView),
    Forward(PeerView, ForwardPayloadView),
}

/// The protocol payload variants.
///
/// - `JoinReq(peer)`: sent by a joining peer immediately after connecting.
/// - `Sync(room)`: full room-state snapshot sent by the admin to a newly
///   joined or resynchronizing peer, and broadcast after a hierarchy change.
/// - `Forward(author, payload)`: a user-originated payload tagged with its
///   author, relayed by the admin to all connected clients.
#[derive(Debug)]
pub enum Payload {
    JoinReq(Peer),
    Sync(Room),
    Forward(Peer, ForwardPayload),
}

impl View for Payload {
    type V = PayloadView;

    open spec fn view(&self) -> PayloadView {
        match self {
            Payload::JoinReq(p) => PayloadView::JoinReq(p@),
            Payload::Sync(r) => PayloadView::Sync(r@),
            Payload::Forward(p, fp) => PayloadView::Forward(p@, fp@),
        }
    }
}

impl Clone for Payload {
    fn clone(&self) -> (r: Self)
        ensures
            r@ == self@,
    {
        match self {
            Payload::JoinReq(p) => Payload::JoinReq(p.clone()),
            Payload::Sync(room) => Payload::Sync(room.clone()),
            Payload::Forward(p, fp) => Payload::Forward(p.clone(), fp.clone()),
        }
    }
}

impl PartialEq for Payload {
    fn eq(&self, other: &Self) -> (r: bool) {
        match (self, other) {
            (Payload::JoinReq(a), Payload::JoinReq(b)) => *a == *b,
            (Payload::Sync(a), Payload::Sync(b)) => *a == *b,
            (Payload::Forward(a, x), Payload::Forward(b, y)) => *a == *b && *x == *y,
            _ => false,
        }
    }
}

impl vstd::std_specs::cmp::PartialEqSpecImpl for Payload {
    open spec fn obeys_eq_spec() -> bool {
        true
    }

    open spec fn eq_spec(&self, other: &Self) -> bool {
        self@ == other@
    }
}

/// The abstract value of a [`Message`].
#[verifier::ext_equal]
pub struct MessageView {
    pub payload: PayloadView,
}

/// The wire envelope: one payload per transport frame.
#[derive(Debug)]
pub struct Message {
    pub payload: Payload,
}

impl View for Message {
    type V = MessageView;

    open spec fn view(&self) -> MessageView {
        MessageView { payload: self.payload@ }
    }
}

impl Message {
    pub fn new(payload: Payload) -> (r: Message)
        ensures
            r@ == (MessageView { payload: payload@ }),
    {
        Message { payload }
    }
}

impl Clone for Message {
    fn clone(&self) -> (r: Self)
        ensures
            r@ == self@,
    {
        Message { payload: self.payload.clone() }
    }
}

impl PartialEq for Message {
    fn eq(&self, other: &Self) -> (r: bool) {
        self.payload == other.payload
    }
}

impl vstd::std_specs::cmp::PartialEqSpecImpl for Message {
    open spec fn obeys_eq_spec() -> bool {
        true
    }

    open spec fn eq_spec(&self, other: &Self) -> bool {
        self@ == other@
    }
}

} // verus!
