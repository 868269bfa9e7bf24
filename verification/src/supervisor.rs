//! Decision logic of the process supervisor: one send operation as a
//! state machine over the worker slot, with a single bounded
//! restart-and-resend cycle and no further retries.

use crate::json_text::{json_quote, json_quoted};
use vstd::prelude::*;
use vstd::string::*;

verus! {

/// Milliseconds the supervisor settles after a respawn before the
/// original message is resent.
pub const SETTLE_DELAY_MS: u64 = 300;

/// Where one send operation stands. The runner performs the phase's
/// action and feeds the outcome back through [`send_step`].
#[derive(Clone, Copy, Debug, PartialEq, Eq, Structural)]
pub enum SendPhase {
    /// Look whether the slot holds a worker.
    CheckWorker,
    /// Ask the held worker whether it has exited.
    ProbeLiveness,
    /// Write the message to the worker's input pipe.
    WriteMessage,
    /// The slot was cleared; spawn the one replacement worker.
    SpawnReplacement,
    /// Wait the fixed settle delay behind a successful respawn.
    SettleDelay,
    /// Write the original message once to the replacement worker.
    ResendMessage,
    /// The message was delivered.
    Done,
    /// The operation failed; no further attempt is made.
    Failed,
}

/// The outcome the runner reports for the current phase's action.
#[derive(Clone, Copy, Debug, PartialEq, Eq, Structural)]
pub enum SendEvent {
    /// Whether the slot holds a worker.
    WorkerPresent(bool),
    /// Whether the held worker has exited.
    WorkerExited(bool),
    /// Whether the write reached the worker.
    WriteOutcome(bool),
    /// Whether the replacement worker spawned.
    SpawnOutcome(bool),
    /// The settle delay elapsed.
    Settled,
    /// Whether the resent message reached the replacement.
    ResendOutcome(bool),
}

/// The transition relation of one send operation. An event that does
/// not answer the current phase leaves the phase unchanged.
pub open spec fn spec_send_step(p: SendPhase, e: SendEvent) -> SendPhase {
    match (p, e) {
        (SendPhase::CheckWorker, SendEvent::WorkerPresent(present)) => if present {
            SendPhase::ProbeLiveness
        } else {
            SendPhase::SpawnReplacement
        },
        (SendPhase::ProbeLiveness, SendEvent::WorkerExited(exited)) => if exited {
            SendPhase::SpawnReplacement
        } else {
            SendPhase::WriteMessage
        },
        (SendPhase::WriteMessage, SendEvent::WriteOutcome(ok)) => if ok {
            SendPhase::Done
        } else {
            SendPhase::SpawnReplacement
        },
        (SendPhase::SpawnReplacement, SendEvent::SpawnOutcome(ok)) => if ok {
            SendPhase::SettleDelay
        } else {
            SendPhase::Failed
        },
        (SendPhase::SettleDelay, SendEvent::Settled) => SendPhase::ResendMessage,
        (SendPhase::ResendMessage, SendEvent::ResendOutcome(ok)) => if ok {
            SendPhase::Done
        } else {
            SendPhase::Failed
        },
        _ => p,
    }
}

/// Advance one send operation by the outcome of its current action.
pub fn send_step(p: SendPhase, e: SendEvent) -> (r: SendPhase)
    ensures
        r == spec_send_step(p, e),
{
    match (p, e) {
        (SendPhase::CheckWorker, SendEvent::WorkerPresent(present)) => if present {
            SendPhase::ProbeLiveness
        } else {
            SendPhase::SpawnReplacement
        },
        (SendPhase::ProbeLiveness, SendEvent::WorkerExited(exited)) => if exited {
            SendPhase::SpawnReplacement
        } else {
            SendPhase::WriteMessage
        },
        (SendPhase::WriteMessage, SendEvent::WriteOutcome(ok)) => if ok {
            SendPhase::Done
        } else {
            SendPhase::SpawnReplacement
        },
        (SendPhase::SpawnReplacement, SendEvent::SpawnOutcome(ok)) => if ok {
            SendPhase::SettleDelay
        } else {
            SendPhase::Failed
        },
        (SendPhase::SettleDelay, SendEvent::Settled) => SendPhase::ResendMessage,
        (SendPhase::ResendMessage, SendEvent::ResendOutcome(ok)) => if ok {
            SendPhase::Done
        } else {
            SendPhase::Failed
        },
        _ => p,
    }
}

/// How many spawns a send operation may still perform from a phase:
/// one before the replacement phase, none from it on.
pub open spec fn spawn_budget(p: SendPhase) -> int {
    match p {
        SendPhase::CheckWorker => 1,
        SendPhase::ProbeLiveness => 1,
        SendPhase::WriteMessage => 1,
        SendPhase::SpawnReplacement => 0,
        SendPhase::SettleDelay => 0,
        SendPhase::ResendMessage => 0,
        SendPhase::Done => 0,
        SendPhase::Failed => 0,
    }
}

/// Whether an event is the outcome of the action a phase performs.
pub open spec fn event_answers(p: SendPhase, e: SendEvent) -> bool {
    match (p, e) {
        (SendPhase::CheckWorker, SendEvent::WorkerPresent(_)) => true,
        (SendPhase::ProbeLiveness, SendEvent::WorkerExited(_)) => true,
        (SendPhase::WriteMessage, SendEvent::WriteOutcome(_)) => true,
        (SendPhase::SpawnReplacement, SendEvent::SpawnOutcome(_)) => true,
        (SendPhase::SettleDelay, SendEvent::Settled) => true,
        (SendPhase::ResendMessage, SendEvent::ResendOutcome(_)) => true,
        _ => false,
    }
}

/// A phase sequence one send operation can pass through: it starts at
/// the worker check and each phase follows its predecessor under the
/// outcome of that phase's own action.
pub open spec fn valid_send_trace(t: Seq<SendPhase>, evs: Seq<SendEvent>) -> bool {
    &&& t.len() == evs.len() + 1
    &&& t.len() > 0
    &&& t[0] == SendPhase::CheckWorker
    &&& forall|i: int| 0 <= i < evs.len() ==> #[trigger] event_answers(t[i], evs[i])
    &&& forall|i: int| 0 <= i < evs.len() ==> #[trigger] t[i + 1] == spec_send_step(t[i], evs[i])
}

/// How often a trace stands in the replacement phase, which is where
/// the runner spawns a worker.
pub open spec fn count_spawn_phases(t: Seq<SendPhase>) -> int
    decreases t.len(),
{
    if t.len() == 0 {
        0
    } else {
        count_spawn_phases(t.drop_last()) + if t.last() == SendPhase::SpawnReplacement {
            1int
        } else {
            0int
        }
    }
}

/// A step pays one unit of spawn budget for each visit of the
/// replacement phase and never regains any.
pub proof fn lemma_send_step_budget(p: SendPhase, e: SendEvent)
    requires
        event_answers(p, e),
    ensures
        spawn_budget(spec_send_step(p, e)) + (if spec_send_step(p, e)
            == SendPhase::SpawnReplacement {
            1int
        } else {
            0int
        }) <= spawn_budget(p),
{
}

proof fn lemma_send_trace_budget(t: Seq<SendPhase>, evs: Seq<SendEvent>)
    requires
        valid_send_trace(t, evs),
    ensures
        count_spawn_phases(t) + spawn_budget(t.last()) <= 1,
    decreases t.len(),
{
    if t.len() == 1 {
        assert(t.drop_last() =~= Seq::<SendPhase>::empty());
        assert(count_spawn_phases(Seq::<SendPhase>::empty()) == 0);
        assert(t.last() == SendPhase::CheckWorker);
    } else {
        let t2 = t.drop_last();
        let evs2 = evs.drop_last();
        assert(valid_send_trace(t2, evs2)) by {
            assert(t2[0] == t[0]);
            assert(forall|i: int|
                0 <= i < evs2.len() ==> #[trigger] event_answers(t2[i], evs2[i])) by {
                assert(forall|i: int|
                    0 <= i < evs2.len() ==> t2[i] == t[i] && evs2[i] == evs[i]);
            }
            assert(forall|i: int|
                0 <= i < evs2.len() ==> #[trigger] t2[i + 1] == spec_send_step(t2[i], evs2[i]))
                by {
                assert(forall|i: int|
                    0 <= i < evs2.len() ==> t2[i + 1] == t[i + 1] && t2[i] == t[i] && evs2[i]
                        == evs[i]);
            }
        }
        lemma_send_trace_budget(t2, evs2);
        let prev = t2.last();
        let last = t.last();
        assert(last == spec_send_step(prev, evs.last()) && event_answers(prev, evs.last())) by {
            assert(t[t.len() - 1] == spec_send_step(t[t.len() - 2], evs[evs.len() - 1]));
            assert(event_answers(t[evs.len() - 1], evs[evs.len() - 1]));
        }
        lemma_send_step_budget(prev, evs.last());
        assert(count_spawn_phases(t) == count_spawn_phases(t2) + (if last
            == SendPhase::SpawnReplacement {
            1int
        } else {
            0int
        }));
    }
}

/// One send operation spawns at most one replacement worker, however
/// it runs and ends.
pub proof fn lemma_send_single_respawn(t: Seq<SendPhase>, evs: Seq<SendEvent>)
    requires
        valid_send_trace(t, evs),
    ensures
        count_spawn_phases(t) <= 1,
{
    lemma_send_trace_budget(t, evs);
}

/// A successful respawn leads through the settle delay to exactly one
/// resend of the original message; a failed respawn, or a failed
/// resend, ends the operation with no further attempt.
pub proof fn lemma_respawn_outcome()
    ensures
        spec_send_step(SendPhase::SpawnReplacement, SendEvent::SpawnOutcome(true))
            == SendPhase::SettleDelay,
        spec_send_step(SendPhase::SettleDelay, SendEvent::Settled) == SendPhase::ResendMessage,
        spec_send_step(SendPhase::SpawnReplacement, SendEvent::SpawnOutcome(false))
            == SendPhase::Failed,
        spec_send_step(SendPhase::ResendMessage, SendEvent::ResendOutcome(false))
            == SendPhase::Failed,
        spec_send_step(SendPhase::ResendMessage, SendEvent::ResendOutcome(true))
            == SendPhase::Done,
        forall|e: SendEvent| spec_send_step(SendPhase::Failed, e) == SendPhase::Failed,
        forall|e: SendEvent| spec_send_step(SendPhase::Done, e) == SendPhase::Done,
{
}

/// The cancellation message for a request, as it is written to the
/// worker: a JSON object naming the request and the cancel kind.
pub open spec fn spec_cancel_message(request_id: Seq<char>) -> Seq<char> {
    "{\"requestId\":"@ + json_quoted(request_id) + ",\"type\":\"cancel_stream\"}"@
}

/// Write the cancellation message for a request.
pub fn cancel_stream_message(request_id: &str) -> (r: String)
    ensures
        r@ == spec_cancel_message(request_id@),
{
    let q = json_quote(request_id);
    let mut s = "{\"requestId\":".to_owned();
    s.append(q.as_str());
    s.append(",\"type\":\"cancel_stream\"}");
    proof {
        assert(s@ =~= spec_cancel_message(request_id@));
    }
    s
}

/// Whether a worker output line is relayed: blank lines and lines that
/// do not open a JSON object are skipped before parsing is tried.
pub open spec fn spec_line_relayed(line: Seq<char>) -> bool {
    line.len() > 0 && line[0] == '{'
}

proof fn lemma_first_byte_is_brace(s: Seq<char>)
    requires
        s.len() > 0,
    ensures
        vstd::utf8::encode_utf8(s).len() > 0,
        (vstd::utf8::encode_utf8(s)[0] == 0x7b) <==> (s[0] == '{'),
{
    let c = s[0] as u32;
    let first = vstd::utf8::encode_scalar(c);
    assert(vstd::utf8::encode_utf8(s) == first + vstd::utf8::encode_utf8(s.drop_first()));
    if vstd::utf8::has_width_1_encoding(c) {
        assert(first[0] == vstd::utf8::leading_byte_width_1(c));
        assert((c & 0x7F) as u8 == 0x7b <==> c == 0x7b) by (bit_vector)
            requires
                c <= 0x7F,
        ;
        assert('{' as u32 == 0x7b);
        vstd::utf8::char_u32_cast(s[0], c);
        vstd::utf8::char_u32_cast('{', 0x7b);
        assert(c == 0x7b <==> s[0] == '{');
    } else if vstd::utf8::has_width_2_encoding(c) {
        let z = ((c >> 6) & 0x1F) as u8;
        assert((0xC0u8 | z) != 0x7b) by (bit_vector);
    } else if vstd::utf8::has_width_3_encoding(c) {
        let z = ((c >> 12) & 0x0F) as u8;
        assert((0xE0u8 | z) != 0x7b) by (bit_vector);
    } else {
        let z = ((c >> 18) & 0x7) as u8;
        assert((0xF0u8 | z) != 0x7b) by (bit_vector);
    }
}

/// Decide whether a trimmed worker output line is handed to the
/// parser or skipped.
pub fn line_relayed(line: &str) -> (r: bool)
    ensures
        r == spec_line_relayed(line@),
{
    broadcast use vstd::slice::group_slice_axioms;

    let bytes = line.as_bytes();
    if bytes.len() == 0 {
        proof {
            if line@.len() > 0 {
                lemma_first_byte_is_brace(line@);
            }
        }
        return false;
    }
    let b = bytes[0];
    proof {
        lemma_first_byte_is_brace(line@);
    }
    b == 0x7b
}

} // verus!
