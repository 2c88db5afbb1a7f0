//! The dispatcher: the single owner of the registry. For each event it
//! mutates the registry and returns the outbound writes to perform, in
//! order. The surrounding process runs the event loop, feeds events in
//! arrival order, and carries the returned actions out; a failed write is
//! its business to log and never reaches back into this logic.

use vstd::prelude::*;
use crate::types::Action;
use crate::types::ActionModel;
use crate::types::Client;
use crate::types::Event;
use crate::types::EventModel;
use crate::types::actions_model;
use crate::registry::Registry;
use crate::registry::addr_in;
use crate::registry::without_addr;

verus! {

/// The registry contents after inserting `c`: any stale entry for the same
/// address gone, `c` admitted last.
pub open spec fn spec_insert(s: Seq<Client>, c: Client) -> Seq<Client> {
    without_addr(s, c.address).push(c)
}

/// The registry contents after one event.
pub open spec fn step_registry(s: Seq<Client>, e: EventModel) -> Seq<Client> {
    match e {
        EventModel::Connected { client } => spec_insert(s, client),
        EventModel::Disconnected { address } => without_addr(s, address),
        EventModel::Message { .. } => s,
    }
}

/// One `Relay` action per client of `s`, in order, all carrying `text`.
pub open spec fn relays_to(s: Seq<Client>, text: Seq<u8>) -> Seq<ActionModel> {
    s.map_values(|c: Client| ActionModel::Relay { client: c, text })
}

/// The writes one event asks for: the banner to a newly admitted client, or
/// the payload to every registered client except the sender.
pub open spec fn step_actions(s: Seq<Client>, e: EventModel) -> Seq<ActionModel> {
    match e {
        EventModel::Connected { client } => seq![ActionModel::Banner { client }],
        EventModel::Disconnected { .. } => Seq::empty(),
        EventModel::Message { address, text } => relays_to(without_addr(s, address), text),
    }
}

/// Handles one event: updates the registry as `step_registry` says and
/// returns exactly the writes of `step_actions`, in order. In particular a
/// `Disconnected` event for an unregistered address leaves the registry
/// unchanged, and a `Message` event never mutates it.
pub fn step(registry: &mut Registry, event: Event) -> (actions: Vec<Action>)
    requires
        old(registry).wf(),
    ensures
        final(registry).wf(),
        final(registry)@ == step_registry(old(registry)@, event@),
        actions_model(actions@) == step_actions(old(registry)@, event@),
        event@ matches EventModel::Disconnected { address } && !addr_in(old(registry)@, address)
            ==> final(registry)@ == old(registry)@,
        event@ matches EventModel::Message { .. } ==> final(registry)@ == old(registry)@,
{
    match event {
        Event::Connected { client } => {
            registry.insert(client);
            let mut actions: Vec<Action> = Vec::new();
            actions.push(Action::Banner { client });
            proof {
                assert(actions_model(actions@) =~= seq![ActionModel::Banner { client }]);
            }
            actions
        },
        Event::Disconnected { address } => {
            registry.remove(address);
            let actions: Vec<Action> = Vec::new();
            proof {
                assert(actions_model(actions@) =~= Seq::<ActionModel>::empty());
            }
            actions
        },
        Event::Message { address, text } => {
            let recipients = registry.recipients(address);
            let ghost targets = recipients@;
            let n = recipients.len();
            let mut actions: Vec<Action> = Vec::new();
            let mut i: usize = 0;
            proof {
                assert(actions_model(actions@) =~~= relays_to(targets.take(0), text@));
            }
            while i < n
                invariant
                    n == targets.len(),
                    recipients@ == targets,
                    i <= n,
                    actions_model(actions@) == relays_to(targets.take(i as int), text@),
                decreases n - i,
            {
                let payload = copy_bytes(&text);
                let target = recipients[i];
                let ghost prev = actions@;
                actions.push(Action::Relay { client: target, text: payload });
                proof {
                    let cur = relays_to(targets.take(i + 1), text@);
                    assert(actions_model(prev).len() == prev.len());
                    assert(relays_to(targets.take(i as int), text@).len() == i);
                    assert(prev.len() == i);
                    assert(actions@ == prev.push(Action::Relay { client: target, text: payload }));
                    assert forall|k: int| 0 <= k < actions@.len() implies actions_model(
                        actions@,
                    )[k] == cur[k] by {
                        if k < i {
                            assert(actions@[k] == prev[k]);
                            assert(actions_model(prev)[k] == relays_to(
                                targets.take(i as int),
                                text@,
                            )[k]);
                            assert(targets.take(i + 1)[k] == targets.take(i as int)[k]);
                        } else {
                            assert(actions@[k] == (Action::Relay { client: target, text: payload }));
                            assert(targets.take(i + 1)[k] == targets[i as int]);
                        }
                    }
                    assert(actions_model(actions@) =~= cur);
                }
                i += 1;
            }
            proof {
                assert(targets.take(n as int) =~= targets);
            }
            actions
        },
    }
}

/// A fresh copy of a byte vector, for handing the same payload to several
/// recipients.
fn copy_bytes(v: &Vec<u8>) -> (r: Vec<u8>)
    ensures
        r@ == v@,
{
    let n = v.len();
    let mut out: Vec<u8> = Vec::new();
    let mut i: usize = 0;
    while i < n
        invariant
            n == v@.len(),
            i <= n,
            out@ == v@.take(i as int),
        decreases n - i,
    {
        out.push(v[i]);
        proof {
            assert(v@.take(i as int).push(v@[i as int]) =~= v@.take(i + 1));
        }
        i += 1;
    }
    proof {
        assert(v@.take(n as int) =~= v@);
    }
    out
}

} // verus!
