//! The data the relay works on: addresses, clients, events and the write
//! actions the dispatcher asks for, together with their ghost models.

use vstd::prelude::*;

verus! {

/// A client's network address, held as plain integers so that two addresses
/// can be compared in contracts. An IPv4 address fits in `ip_lo`; an IPv6
/// address uses both halves.
#[derive(Clone, Copy, PartialEq, Eq, Structural, Debug)]
pub struct Address {
    pub ip_hi: u64,
    pub ip_lo: u64,
    pub port: u16,
}

/// A connected client: its address and an opaque token under which the
/// surrounding process keeps the outbound write handle of its socket.
#[derive(Clone, Copy, PartialEq, Eq, Structural, Debug)]
pub struct Client {
    pub address: Address,
    pub handle: u64,
}

impl Client {
    /// Builds a client record from its address and handle token.
    pub fn new(address: Address, handle: u64) -> (c: Client)
        ensures
            c.address == address,
            c.handle == handle,
    {
        Client { address, handle }
    }
}

/// One event on the dispatcher's inbound queue, produced by a connection
/// handler.
pub enum Event {
    /// A new connection was accepted and its handler has started.
    Connected { client: Client },
    /// The connection closed or failed; emitted exactly once per handler.
    Disconnected { address: Address },
    /// A payload read from the client, already stripped and decoded.
    Message { address: Address, text: Vec<u8> },
}

/// Ghost model of an [`Event`], with the payload as a byte sequence.
pub enum EventModel {
    Connected { client: Client },
    Disconnected { address: Address },
    Message { address: Address, text: Seq<u8> },
}

impl View for Event {
    type V = EventModel;

    open spec fn view(&self) -> EventModel {
        match self {
            Event::Connected { client } => EventModel::Connected { client: *client },
            Event::Disconnected { address } => EventModel::Disconnected { address: *address },
            Event::Message { address, text } => EventModel::Message {
                address: *address,
                text: text@,
            },
        }
    }
}

/// One outbound write the dispatcher asks the surrounding process to perform
/// on a client's socket.
pub enum Action {
    /// Write the fixed welcome banner to the newly admitted client.
    Banner { client: Client },
    /// Relay a message payload to this recipient.
    Relay { client: Client, text: Vec<u8> },
}

/// Ghost model of an [`Action`], with the payload as a byte sequence.
pub enum ActionModel {
    Banner { client: Client },
    Relay { client: Client, text: Seq<u8> },
}

impl View for Action {
    type V = ActionModel;

    open spec fn view(&self) -> ActionModel {
        match self {
            Action::Banner { client } => ActionModel::Banner { client: *client },
            Action::Relay { client, text } => ActionModel::Relay {
                client: *client,
                text: text@,
            },
        }
    }
}

/// The ghost models of a sequence of actions, in order.
pub open spec fn actions_model(s: Seq<Action>) -> Seq<ActionModel> {
    s.map_values(|a: Action| a@)
}

/// The bytes of the fixed welcome banner, `"Thanks for connecting\n"`.
pub open spec fn banner_bytes() -> Seq<u8> {
    seq![
        0x54u8, 0x68u8, 0x61u8, 0x6eu8, 0x6bu8, 0x73u8, 0x20u8, 0x66u8, 0x6fu8, 0x72u8, 0x20u8,
        0x63u8, 0x6fu8, 0x6eu8, 0x6eu8, 0x65u8, 0x63u8, 0x74u8, 0x69u8, 0x6eu8, 0x67u8, 0x0au8,
    ]
}

/// The welcome banner as a byte vector, ready to be written to a socket.
pub fn welcome_banner() -> (r: Vec<u8>)
    ensures
        r@ == banner_bytes(),
{
    let mut v: Vec<u8> = Vec::new();
    v.push(0x54);
    v.push(0x68);
    v.push(0x61);
    v.push(0x6e);
    v.push(0x6b);
    v.push(0x73);
    v.push(0x20);
    v.push(0x66);
    v.push(0x6f);
    v.push(0x72);
    v.push(0x20);
    v.push(0x63);
    v.push(0x6f);
    v.push(0x6e);
    v.push(0x6e);
    v.push(0x65);
    v.push(0x63);
    v.push(0x74);
    v.push(0x69);
    v.push(0x6e);
    v.push(0x67);
    v.push(0x0a);
    proof {
        assert(v@ =~= banner_bytes());
    }
    v
}

} // verus!
