//! The per-connection handler's logic: what one read cycle turns into. The
//! surrounding process performs the blocking read and reports its outcome;
//! this module decides which event, if any, the handler emits and whether it
//! terminates.

use vstd::prelude::*;
use crate::types::Address;
use crate::types::Event;
use crate::types::EventModel;
use crate::utf8::check_utf8;
use crate::utf8::is_utf8;

verus! {

/// The bytes of `s` with every control byte (value below `0x20`) removed,
/// in order.
pub open spec fn strip_ctl(s: Seq<u8>) -> Seq<u8>
    decreases s.len(),
{
    if s.len() == 0 {
        Seq::empty()
    } else if s.last() < 0x20 {
        strip_ctl(s.drop_last())
    } else {
        strip_ctl(s.drop_last()).push(s.last())
    }
}

/// No control byte survives stripping: every byte of `strip_ctl(s)` is at
/// least `0x20`, whatever control bytes were interspersed in `s`.
pub proof fn lemma_strip_ctl_no_control(s: Seq<u8>)
    ensures
        forall|i: int| 0 <= i < strip_ctl(s).len() ==> strip_ctl(s)[i] >= 0x20,
    decreases s.len(),
{
    if s.len() > 0 {
        let t = s.drop_last();
        lemma_strip_ctl_no_control(t);
        if s.last() >= 0x20 {
            assert forall|i: int| 0 <= i < strip_ctl(s).len() implies strip_ctl(s)[i]
                >= 0x20 by {
                if i < strip_ctl(t).len() {
                    assert(strip_ctl(s)[i] == strip_ctl(t)[i]);
                } else {
                    assert(strip_ctl(s)[i] == s.last());
                }
            }
        }
    }
}

/// Stripping keeps every byte that is not a control byte: a sequence with no
/// control bytes passes through unchanged.
pub proof fn lemma_strip_ctl_clean_identity(s: Seq<u8>)
    requires
        forall|i: int| 0 <= i < s.len() ==> s[i] >= 0x20,
    ensures
        strip_ctl(s) == s,
    decreases s.len(),
{
    if s.len() > 0 {
        lemma_strip_ctl_clean_identity(s.drop_last());
        assert(strip_ctl(s.drop_last()).push(s.last()) =~= s);
    }
}

/// What one blocking read on the connection yielded, as reported by the
/// surrounding process.
pub enum ReadOutcome {
    /// The read returned these bytes (more than zero of them).
    Data { bytes: Vec<u8> },
    /// The read returned zero bytes: the peer closed the connection.
    Closed,
    /// The read failed with an error.
    Failed,
}

/// What the handler does after one read cycle.
pub enum HandlerStep {
    /// Forward this event to the dispatcher and keep reading.
    Emit { event: Event },
    /// Drop this read cycle (the payload was not valid text) and keep
    /// reading.
    Skip,
    /// Forward this event to the dispatcher and terminate the handler.
    Stop { event: Event },
}

/// Removes every control byte from `bytes`.
pub fn strip_control(bytes: &Vec<u8>) -> (r: Vec<u8>)
    ensures
        r@ == strip_ctl(bytes@),
{
    let ghost s = bytes@;
    let n = bytes.len();
    let mut out: Vec<u8> = Vec::new();
    let mut i: usize = 0;
    while i < n
        invariant
            n == s.len(),
            bytes@ == s,
            i <= n,
            out@ == strip_ctl(s.take(i as int)),
        decreases n - i,
    {
        let b = bytes[i];
        proof {
            assert(s.take(i + 1).drop_last() =~= s.take(i as int));
            assert(s.take(i + 1).last() == s[i as int]);
        }
        if b >= 0x20 {
            out.push(b);
        }
        i += 1;
    }
    proof {
        assert(s.take(n as int) =~= s);
    }
    out
}

/// The handler's reaction to one read cycle on the connection belonging to
/// `address`: a closed or failed read emits exactly one `Disconnected` event
/// and terminates the handler; data is stripped of control bytes, then
/// emitted as a `Message` when it decodes as text and dropped when it does
/// not.
pub fn on_read(address: Address, outcome: ReadOutcome) -> (r: HandlerStep)
    ensures
        match outcome {
            ReadOutcome::Data { bytes } => {
                if is_utf8(strip_ctl(bytes@)) {
                    r matches HandlerStep::Emit { event } && event@ == (EventModel::Message {
                        address,
                        text: strip_ctl(bytes@),
                    })
                } else {
                    r matches HandlerStep::Skip
                }
            },
            ReadOutcome::Closed => r matches HandlerStep::Stop { event } && event@
                == (EventModel::Disconnected { address }),
            ReadOutcome::Failed => r matches HandlerStep::Stop { event } && event@
                == (EventModel::Disconnected { address }),
        },
{
    match outcome {
        ReadOutcome::Data { bytes } => {
            let text = strip_control(&bytes);
            if check_utf8(&text) {
                HandlerStep::Emit { event: Event::Message { address, text } }
            } else {
                HandlerStep::Skip
            }
        },
        ReadOutcome::Closed => HandlerStep::Stop { event: Event::Disconnected { address } },
        ReadOutcome::Failed => HandlerStep::Stop { event: Event::Disconnected { address } },
    }
}

} // verus!
