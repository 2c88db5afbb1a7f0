//! Laws of whole dispatcher runs: what holds after any sequence of events is
//! fed to [`crate::dispatch::step`], starting from an empty registry. The
//! spec functions here fold the per-event specifications over a sequence;
//! the proof functions state the relay's guarantees over such runs.

use vstd::prelude::*;
use crate::types::ActionModel;
use crate::types::Client;
use crate::types::EventModel;
use crate::types::Address;
use crate::registry::addr_in;
use crate::registry::without_addr;
use crate::registry::lemma_without_addr;
use crate::registry::lemma_contains_push;
use crate::registry::lemma_addr_in_push;
use crate::dispatch::step_registry;
use crate::dispatch::step_actions;
use crate::dispatch::relays_to;

verus! {

/// The registry contents after a whole sequence of events, starting from an
/// empty registry.
pub open spec fn run_registry(events: Seq<EventModel>) -> Seq<Client>
    decreases events.len(),
{
    if events.len() == 0 {
        Seq::empty()
    } else {
        step_registry(run_registry(events.drop_last()), events.last())
    }
}

/// Every write a whole sequence of events asks for, in order.
pub open spec fn run_actions(events: Seq<EventModel>) -> Seq<ActionModel>
    decreases events.len(),
{
    if events.len() == 0 {
        Seq::empty()
    } else {
        run_actions(events.drop_last()) + step_actions(
            run_registry(events.drop_last()),
            events.last(),
        )
    }
}

/// Whether `e` is a connection-lifecycle event rather than a payload.
pub open spec fn is_lifecycle(e: EventModel) -> bool {
    e matches EventModel::Connected { .. } || e matches EventModel::Disconnected { .. }
}

/// Connects minus disconnects for address `a` over `events`.
pub open spec fn net_count(events: Seq<EventModel>, a: Address) -> int
    decreases events.len(),
{
    if events.len() == 0 {
        0
    } else {
        net_count(events.drop_last(), a) + (match events.last() {
            EventModel::Connected { client } => if client.address == a {
                1int
            } else {
                0int
            },
            EventModel::Disconnected { address } => if address == a {
                (-1int)
            } else {
                0int
            },
            EventModel::Message { .. } => 0int,
        })
    }
}

/// Whether `events` respects the connection lifecycle of address `a`: no
/// prefix disconnects `a` while it is not connected or connects it twice.
pub open spec fn lifecycle_consistent(events: Seq<EventModel>, a: Address) -> bool {
    forall|i: int| 0 <= i <= events.len() ==> 0 <= #[trigger] net_count(events.take(i), a) <= 1
}

/// The registry's key set tracks net connection counts: over any sequence of
/// `Connected`/`Disconnected` events that respects the lifecycle of address
/// `a`, the registry holds `a` exactly when `a`'s connects exceed its
/// disconnects by one.
pub proof fn lemma_registry_tracks_net_count(events: Seq<EventModel>, a: Address)
    requires
        forall|i: int| 0 <= i < events.len() ==> is_lifecycle(#[trigger] events[i]),
        lifecycle_consistent(events, a),
    ensures
        addr_in(run_registry(events), a) <==> net_count(events, a) == 1,
    decreases events.len(),
{
    if events.len() > 0 {
        let t = events.drop_last();
        let e = events.last();
        assert forall|i: int| 0 <= i <= t.len() implies 0 <= #[trigger] net_count(t.take(i), a)
            <= 1 by {
            assert(t.take(i) =~= events.take(i));
            assert(0 <= net_count(events.take(i), a) <= 1);
        }
        lemma_registry_tracks_net_count(t, a);
        let reg = run_registry(t);
        assert(events.take(events.len() as int) =~= events);
        assert(events.take(t.len() as int) =~= t);
        assert(0 <= net_count(t, a) <= 1);
        assert(0 <= net_count(events, a) <= 1);
        match e {
            EventModel::Connected { client } => {
                lemma_without_addr(reg, client.address);
                lemma_addr_in_push(without_addr(reg, client.address), client, a);
            },
            EventModel::Disconnected { address } => {
                lemma_without_addr(reg, address);
            },
            EventModel::Message { .. } => {},
        }
    }
}

/// Banner actions for client `c` in `acts`.
pub open spec fn banner_count(acts: Seq<ActionModel>, c: Client) -> int
    decreases acts.len(),
{
    if acts.len() == 0 {
        0
    } else {
        banner_count(acts.drop_last(), c) + if acts.last() == (ActionModel::Banner { client: c }) {
            1int
        } else {
            0int
        }
    }
}

/// Admissions of client `c` in `events`.
pub open spec fn connect_count(events: Seq<EventModel>, c: Client) -> int
    decreases events.len(),
{
    if events.len() == 0 {
        0
    } else {
        connect_count(events.drop_last(), c) + if events.last() == (EventModel::Connected {
            client: c,
        }) {
            1int
        } else {
            0int
        }
    }
}

/// Banner counting distributes over concatenation.
pub proof fn lemma_banner_count_concat(a: Seq<ActionModel>, b: Seq<ActionModel>, c: Client)
    ensures
        banner_count(a + b, c) == banner_count(a, c) + banner_count(b, c),
    decreases b.len(),
{
    if b.len() == 0 {
        assert(a + b =~= a);
    } else {
        lemma_banner_count_concat(a, b.drop_last(), c);
        assert((a + b).drop_last() =~= a + b.drop_last());
        assert((a + b).last() == b.last());
    }
}

/// Relay actions carry no banner.
pub proof fn lemma_relays_have_no_banner(s: Seq<Client>, text: Seq<u8>, c: Client)
    ensures
        banner_count(relays_to(s, text), c) == 0,
    decreases s.len(),
{
    if s.len() > 0 {
        lemma_relays_have_no_banner(s.drop_last(), text, c);
        assert(relays_to(s, text).drop_last() =~= relays_to(s.drop_last(), text));
        assert(relays_to(s, text).last() == (ActionModel::Relay { client: s.last(), text }));
    }
}

/// The welcome banner is written exactly once per admission: over any run,
/// the banner actions for client `c` are as many as the `Connected` events
/// admitting `c`.
pub proof fn lemma_banner_once_per_admission(events: Seq<EventModel>, c: Client)
    ensures
        banner_count(run_actions(events), c) == connect_count(events, c),
    decreases events.len(),
{
    if events.len() > 0 {
        let t = events.drop_last();
        let e = events.last();
        let stepped = step_actions(run_registry(t), e);
        lemma_banner_once_per_admission(t, c);
        lemma_banner_count_concat(run_actions(t), stepped, c);
        assert(events.drop_last() == t);
        match e {
            EventModel::Connected { client } => {
                assert(banner_count(stepped, c) == if client == c {
                    1int
                } else {
                    0int
                }) by {
                    assert(stepped.last() == (ActionModel::Banner { client }));
                    assert(stepped.drop_last() =~= Seq::<ActionModel>::empty());
                    assert(banner_count(stepped.drop_last(), c) == 0);
                }
                assert(connect_count(events, c) == connect_count(t, c) + if client == c {
                    1int
                } else {
                    0int
                });
            },
            EventModel::Disconnected { .. } => {
                assert(banner_count(stepped, c) == 0);
                assert(connect_count(events, c) == connect_count(t, c));
            },
            EventModel::Message { address, text } => {
                lemma_relays_have_no_banner(without_addr(run_registry(t), address), text, c);
                assert(connect_count(events, c) == connect_count(t, c));
            },
        }
    }
}

/// Every registered client's banner already stands among the run's actions.
pub proof fn lemma_registered_have_banner(events: Seq<EventModel>, c: Client)
    requires
        run_registry(events).contains(c),
    ensures
        exists|j: int| 0 <= j < run_actions(events).len() && run_actions(events)[j]
            == (ActionModel::Banner { client: c }),
    decreases events.len(),
{
    let acts = run_actions(events);
    if events.len() == 0 {
    } else {
        let t = events.drop_last();
        let e = events.last();
        let preg = run_registry(t);
        let pacts = run_actions(t);
        match e {
            EventModel::Connected { client } => {
                lemma_contains_push(without_addr(preg, client.address), client);
                if c == client {
                    assert(acts[pacts.len() as int] == (ActionModel::Banner { client: c }));
                } else {
                    assert(without_addr(preg, client.address).contains(c));
                    lemma_without_addr(preg, client.address);
                    lemma_registered_have_banner(t, c);
                    let j = choose|j: int| 0 <= j < pacts.len() && pacts[j]
                        == (ActionModel::Banner { client: c });
                    assert(acts[j] == (ActionModel::Banner { client: c }));
                }
            },
            EventModel::Disconnected { address } => {
                lemma_without_addr(preg, address);
                assert(preg.contains(c));
                lemma_registered_have_banner(t, c);
                let j = choose|j: int| 0 <= j < pacts.len() && pacts[j] == (ActionModel::Banner {
                    client: c,
                });
                assert(acts[j] == (ActionModel::Banner { client: c }));
            },
            EventModel::Message { .. } => {
                lemma_registered_have_banner(t, c);
                let j = choose|j: int| 0 <= j < pacts.len() && pacts[j] == (ActionModel::Banner {
                    client: c,
                });
                assert(acts[j] == (ActionModel::Banner { client: c }));
            },
        }
    }
}

/// No relay reaches a client before its banner: wherever a run's actions
/// relay a payload to client `c`, a banner to `c` stands strictly earlier.
pub proof fn lemma_banner_before_relay(events: Seq<EventModel>, i: int, c: Client)
    requires
        0 <= i < run_actions(events).len(),
        run_actions(events)[i] matches ActionModel::Relay { client: rc, .. } && rc == c,
    ensures
        exists|j: int| 0 <= j < i && run_actions(events)[j] == (ActionModel::Banner { client: c }),
    decreases events.len(),
{
    let acts = run_actions(events);
    if events.len() == 0 {
    } else {
        let t = events.drop_last();
        let e = events.last();
        let preg = run_registry(t);
        let pacts = run_actions(t);
        if i < pacts.len() {
            assert(acts[i] == pacts[i]);
            lemma_banner_before_relay(t, i, c);
            let j = choose|j: int| 0 <= j < i && pacts[j] == (ActionModel::Banner { client: c });
            assert(acts[j] == (ActionModel::Banner { client: c }));
        } else {
            match e {
                EventModel::Connected { client } => {
                    assert(acts[i] == (ActionModel::Banner { client }));
                },
                EventModel::Disconnected { .. } => {
                    assert(false);
                },
                EventModel::Message { address, text } => {
                    let w = without_addr(preg, address);
                    let k: int = i - pacts.len();
                    assert(acts[i] == relays_to(w, text)[k]);
                    assert(relays_to(w, text)[k] == (ActionModel::Relay { client: w[k], text }));
                    assert(w[k] == c);
                    assert(w.contains(c));
                    lemma_without_addr(preg, address);
                    assert(preg.contains(c));
                    lemma_registered_have_banner(t, c);
                    let j = choose|j: int| 0 <= j < pacts.len() && pacts[j]
                        == (ActionModel::Banner { client: c });
                    assert(acts[j] == (ActionModel::Banner { client: c }));
                },
            }
        }
    }
}

/// A message's recipients are exactly the snapshot minus the sender: the
/// writes a `Message` event asks for relay its payload to every client of
/// the registry snapshot whose address is not the sender's, and to no other.
pub proof fn lemma_message_recipients(s: Seq<Client>, a: Address, text: Seq<u8>, c: Client)
    ensures
        (exists|i: int| 0 <= i < step_actions(s, EventModel::Message { address: a, text }).len()
            && step_actions(s, EventModel::Message { address: a, text })[i] == (ActionModel::Relay {
            client: c,
            text,
        })) <==> s.contains(c) && c.address != a,
{
    let w = without_addr(s, a);
    let acts = step_actions(s, EventModel::Message { address: a, text });
    lemma_without_addr(s, a);
    if exists|i: int| 0 <= i < acts.len() && acts[i] == (ActionModel::Relay { client: c, text }) {
        let i = choose|i: int| 0 <= i < acts.len() && acts[i] == (ActionModel::Relay {
            client: c,
            text,
        });
        assert(acts[i] == (ActionModel::Relay { client: w[i], text }));
        assert(w[i] == c);
        assert(w.contains(c));
    }
    if s.contains(c) && c.address != a {
        assert(w.contains(c));
        let i = choose|i: int| 0 <= i < w.len() && w[i] == c;
        assert(acts[i] == (ActionModel::Relay { client: c, text }));
    }
}

} // verus!
