//! The event surface between the protocol core and its collaborators.
//!
//! The transport and the terminal front end produce [`Event`]s; the state
//! machine consumes them one at a time and answers with [`Action`]s, which
//! the collaborators perform. Connections appear here only as stable `u32`
//! identifiers: the registry from identifier to live transport handle stays
//! outside the core.

use vstd::prelude::*;

use crate::message::{ForwardPayload, ForwardPayloadView, Message, MessageView};
use crate::peer::Ipv4Address;

verus! {

/// The abstract value of an [`Event`].
#[verifier::ext_equal]
pub enum EventView {
    Closed(u32),
    Message(MessageView, u32),
    Open(u32),
    JoinSend(Ipv4Address),
    SubmitMessage(ForwardPayloadView),
    StartRoom,
}

/// One internal event, dequeued and handled to completion before the next.
#[derive(Debug)]
pub enum Event {
    /// The connection registered under the identifier has closed.
    Closed(u32),
    /// A decoded frame arrived on the connection with the given identifier.
    Message(Message, u32),
    /// An outbound connection attempt succeeded and its handle was
    /// registered under the given identifier.
    Open(u32),
    /// Ask the state machine to join the room hosted at the address.
    JoinSend(Ipv4Address),
    /// The local user submitted a payload.
    SubmitMessage(ForwardPayload),
    /// Start a fresh room with the local peer as its admin.
    StartRoom,
}

impl View for Event {
    type V = EventView;

    open spec fn view(&self) -> EventView {
        match self {
            Event::Closed(c) => EventView::Closed(*c),
            Event::Message(m, c) => EventView::Message(m@, *c),
            Event::Open(c) => EventView::Open(*c),
            Event::JoinSend(a) => EventView::JoinSend(*a),
            Event::SubmitMessage(f) => EventView::SubmitMessage(f@),
            Event::StartRoom => EventView::StartRoom,
        }
    }
}

/// The abstract value of an [`Action`].
#[verifier::ext_equal]
pub enum ActionView {
    Send(u32, MessageView),
    Connect(Ipv4Address, MessageView),
    MembershipLost,
}

/// One side effect requested from the collaborators. Sends carry the full
/// wire message; the transport encodes it as one frame.
#[derive(Debug)]
pub enum Action {
    /// Send the message on the connection registered under the identifier.
    /// A send to a dead or unknown handle is logged and dropped; cleanup
    /// waits for the matching `Closed` event.
    Send(u32, Message),
    /// Open a connection to the address (all peers listen on one fixed
    /// port); once it is open, send the greeting over it and enqueue
    /// `Open` with the new connection's identifier.
    Connect(Ipv4Address, Message),
    /// Failover found no leader candidate left: an unrecoverable
    /// membership state, surfaced to the operator.
    MembershipLost,
}

impl View for Action {
    type V = ActionView;

    open spec fn view(&self) -> ActionView {
        match self {
            Action::Send(c, m) => ActionView::Send(*c, m@),
            Action::Connect(a, m) => ActionView::Connect(*a, m@),
            Action::MembershipLost => ActionView::MembershipLost,
        }
    }
}

impl PartialEq for Action {
    fn eq(&self, other: &Self) -> (r: bool) {
        match (self, other) {
            (Action::Send(c, m), Action::Send(d, n)) => *c == *d && *m == *n,
            (Action::Connect(a, m), Action::Connect(b, n)) => *a == *b && *m == *n,
            (Action::MembershipLost, Action::MembershipLost) => true,
            _ => false,
        }
    }
}

impl vstd::std_specs::cmp::PartialEqSpecImpl for Action {
    open spec fn obeys_eq_spec() -> bool {
        true
    }

    open spec fn eq_spec(&self, other: &Self) -> bool {
        self@ == other@
    }
}

/// The abstract values of a list of actions, in order.
pub open spec fn views_of_actions(s: Seq<Action>) -> Seq<ActionView> {
    s.map_values(|a: Action| a@)
}

} // verus!
