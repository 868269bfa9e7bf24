//! Decision logic of the gateway supervisor: idempotent warmup as a
//! state machine with attach-versus-spawn ownership, a bounded
//! reachability poll, and the version gate on the runtime binary.

use crate::cost::{digits_end, digits_to_value, digits_val, is_digit, scan_digits};
use vstd::prelude::*;
use vstd::string::*;

verus! {

/// How often the warmup polls reachability after a spawn.
pub const MAX_GATEWAY_POLLS: u32 = 10;

/// Milliseconds between two reachability polls.
pub const GATEWAY_POLL_INTERVAL_MS: u64 = 500;

/// Smallest runtime major version the gateway accepts.
pub const MIN_NODE_MAJOR: u32 = 22;

/// Where the warmup stands. The runner performs the phase's action
/// and feeds the outcome back through [`gateway_step`].
#[derive(Clone, Copy, Debug, PartialEq, Eq, Structural)]
pub enum GatewayPhase {
    /// Probe the fixed endpoint for an existing instance.
    ProbeExisting,
    /// Resolve a runtime binary of a supported version.
    ResolveRuntime,
    /// Check that the companion binary is installed.
    LocateCompanion,
    /// Spawn the gateway, once.
    SpawnGateway,
    /// Poll reachability after the spawn; `attempts` polls failed so far.
    Poll { attempts: u32 },
    /// An existing instance is reused; it is not owned and never killed.
    Attached,
    /// A spawned instance runs; it is owned and killed at shutdown.
    Started,
    /// Warmup failed before a spawn; the error is reported.
    Unavailable,
}

/// The outcome the runner reports for the current phase's action.
#[derive(Clone, Copy, Debug, PartialEq, Eq, Structural)]
pub enum GatewayEvent {
    /// Whether the endpoint answered the probe.
    Reachable(bool),
    /// Whether a supported runtime binary was found.
    RuntimeFound(bool),
    /// Whether the companion binary is installed.
    CompanionFound(bool),
    /// Whether the spawn succeeded.
    SpawnOutcome(bool),
    /// Whether a poll of the endpoint answered.
    PollResult(bool),
}

/// Whether the warmup ends owning the instance: true only when this
/// supervisor spawned it.
pub open spec fn gateway_owned(p: GatewayPhase) -> bool {
    p == GatewayPhase::Started
}

/// The transition relation of the warmup. A poll that fails after the
/// last allowed attempt still ends in `Started`: the warmup is
/// best-effort, not a precondition.
pub open spec fn spec_gateway_step(p: GatewayPhase, e: GatewayEvent) -> GatewayPhase {
    match (p, e) {
        (GatewayPhase::ProbeExisting, GatewayEvent::Reachable(up)) => if up {
            GatewayPhase::Attached
        } else {
            GatewayPhase::ResolveRuntime
        },
        (GatewayPhase::ResolveRuntime, GatewayEvent::RuntimeFound(ok)) => if ok {
            GatewayPhase::LocateCompanion
        } else {
            GatewayPhase::Unavailable
        },
        (GatewayPhase::LocateCompanion, GatewayEvent::CompanionFound(ok)) => if ok {
            GatewayPhase::SpawnGateway
        } else {
            GatewayPhase::Unavailable
        },
        (GatewayPhase::SpawnGateway, GatewayEvent::SpawnOutcome(ok)) => if ok {
            GatewayPhase::Poll { attempts: 0 }
        } else {
            GatewayPhase::Unavailable
        },
        (GatewayPhase::Poll { attempts }, GatewayEvent::PollResult(up)) => if up {
            GatewayPhase::Started
        } else if attempts + 1 >= MAX_GATEWAY_POLLS {
            GatewayPhase::Started
        } else {
            GatewayPhase::Poll { attempts: (attempts + 1) as u32 }
        },
        _ => p,
    }
}

/// Advance the warmup by the outcome of its current action.
pub fn gateway_step(p: GatewayPhase, e: GatewayEvent) -> (r: GatewayPhase)
    ensures
        r == spec_gateway_step(p, e),
{
    match (p, e) {
        (GatewayPhase::ProbeExisting, GatewayEvent::Reachable(up)) => if up {
            GatewayPhase::Attached
        } else {
            GatewayPhase::ResolveRuntime
        },
        (GatewayPhase::ResolveRuntime, GatewayEvent::RuntimeFound(ok)) => if ok {
            GatewayPhase::LocateCompanion
        } else {
            GatewayPhase::Unavailable
        },
        (GatewayPhase::LocateCompanion, GatewayEvent::CompanionFound(ok)) => if ok {
            GatewayPhase::SpawnGateway
        } else {
            GatewayPhase::Unavailable
        },
        (GatewayPhase::SpawnGateway, GatewayEvent::SpawnOutcome(ok)) => if ok {
            GatewayPhase::Poll { attempts: 0 }
        } else {
            GatewayPhase::Unavailable
        },
        (GatewayPhase::Poll { attempts }, GatewayEvent::PollResult(up)) => if up {
            GatewayPhase::Started
        } else if attempts >= MAX_GATEWAY_POLLS - 1 {
            GatewayPhase::Started
        } else {
            GatewayPhase::Poll { attempts: attempts + 1 }
        },
        _ => p,
    }
}

/// Whether an event is the outcome of the action a phase performs.
pub open spec fn gateway_event_answers(p: GatewayPhase, e: GatewayEvent) -> bool {
    match (p, e) {
        (GatewayPhase::ProbeExisting, GatewayEvent::Reachable(_)) => true,
        (GatewayPhase::ResolveRuntime, GatewayEvent::RuntimeFound(_)) => true,
        (GatewayPhase::LocateCompanion, GatewayEvent::CompanionFound(_)) => true,
        (GatewayPhase::SpawnGateway, GatewayEvent::SpawnOutcome(_)) => true,
        (GatewayPhase::Poll { .. }, GatewayEvent::PollResult(_)) => true,
        _ => false,
    }
}

/// A poll counter never reaches the cap.
pub open spec fn gateway_phase_wf(p: GatewayPhase) -> bool {
    match p {
        GatewayPhase::Poll { attempts } => attempts < MAX_GATEWAY_POLLS,
        _ => true,
    }
}

/// A phase sequence the warmup can pass through: it starts at the
/// probe and each phase follows its predecessor under the outcome of
/// that phase's own action.
pub open spec fn valid_gateway_trace(t: Seq<GatewayPhase>, evs: Seq<GatewayEvent>) -> bool {
    &&& t.len() == evs.len() + 1
    &&& t.len() > 0
    &&& t[0] == GatewayPhase::ProbeExisting
    &&& forall|i: int| 0 <= i < evs.len() ==> #[trigger] gateway_event_answers(t[i], evs[i])
    &&& forall|i: int|
        0 <= i < evs.len() ==> #[trigger] t[i + 1] == spec_gateway_step(t[i], evs[i])
}

/// How often a trace stands in the spawn phase.
pub open spec fn count_gateway_spawns(t: Seq<GatewayPhase>) -> int
    decreases t.len(),
{
    if t.len() == 0 {
        0
    } else {
        count_gateway_spawns(t.drop_last()) + if t.last() == GatewayPhase::SpawnGateway {
            1int
        } else {
            0int
        }
    }
}

/// How often a trace stands in a poll phase.
pub open spec fn count_gateway_polls(t: Seq<GatewayPhase>) -> int
    decreases t.len(),
{
    if t.len() == 0 {
        0
    } else {
        count_gateway_polls(t.drop_last()) + if t.last() is Poll {
            1int
        } else {
            0int
        }
    }
}

/// Spawns a warmup may still perform from a phase.
pub open spec fn gateway_spawn_budget(p: GatewayPhase) -> int {
    match p {
        GatewayPhase::ProbeExisting => 1,
        GatewayPhase::ResolveRuntime => 1,
        GatewayPhase::LocateCompanion => 1,
        _ => 0,
    }
}

/// Poll phases a warmup may still enter from a phase.
pub open spec fn gateway_poll_budget(p: GatewayPhase) -> int {
    match p {
        GatewayPhase::ProbeExisting => MAX_GATEWAY_POLLS as int,
        GatewayPhase::ResolveRuntime => MAX_GATEWAY_POLLS as int,
        GatewayPhase::LocateCompanion => MAX_GATEWAY_POLLS as int,
        GatewayPhase::SpawnGateway => MAX_GATEWAY_POLLS as int,
        GatewayPhase::Poll { attempts } => MAX_GATEWAY_POLLS as int - 1 - attempts,
        _ => 0,
    }
}

proof fn lemma_gateway_step_budget(p: GatewayPhase, e: GatewayEvent)
    requires
        gateway_event_answers(p, e),
        gateway_phase_wf(p),
    ensures
        gateway_phase_wf(spec_gateway_step(p, e)),
        gateway_spawn_budget(spec_gateway_step(p, e)) + (if spec_gateway_step(p, e)
            == GatewayPhase::SpawnGateway {
            1int
        } else {
            0int
        }) <= gateway_spawn_budget(p),
        gateway_poll_budget(spec_gateway_step(p, e)) + (if spec_gateway_step(p, e) is Poll {
            1int
        } else {
            0int
        }) <= gateway_poll_budget(p),
{
}

proof fn lemma_gateway_trace_budget(t: Seq<GatewayPhase>, evs: Seq<GatewayEvent>)
    requires
        valid_gateway_trace(t, evs),
    ensures
        gateway_phase_wf(t.last()),
        count_gateway_spawns(t) + gateway_spawn_budget(t.last()) <= 1,
        count_gateway_polls(t) + gateway_poll_budget(t.last()) <= MAX_GATEWAY_POLLS as int,
    decreases t.len(),
{
    if t.len() == 1 {
        assert(t.drop_last() =~= Seq::<GatewayPhase>::empty());
        assert(count_gateway_spawns(Seq::<GatewayPhase>::empty()) == 0);
        assert(count_gateway_polls(Seq::<GatewayPhase>::empty()) == 0);
        assert(t.last() == GatewayPhase::ProbeExisting);
    } else {
        let t2 = t.drop_last();
        let evs2 = evs.drop_last();
        assert(valid_gateway_trace(t2, evs2)) by {
            assert(t2[0] == t[0]);
            assert(forall|i: int|
                0 <= i < evs2.len() ==> #[trigger] gateway_event_answers(t2[i], evs2[i])) by {
                assert(forall|i: int|
                    0 <= i < evs2.len() ==> t2[i] == t[i] && evs2[i] == evs[i]);
            }
            assert(forall|i: int|
                0 <= i < evs2.len() ==> #[trigger] t2[i + 1] == spec_gateway_step(t2[i], evs2[i]))
                by {
                assert(forall|i: int|
                    0 <= i < evs2.len() ==> t2[i + 1] == t[i + 1] && t2[i] == t[i] && evs2[i]
                        == evs[i]);
            }
        }
        lemma_gateway_trace_budget(t2, evs2);
        let prev = t2.last();
        let last = t.last();
        assert(last == spec_gateway_step(prev, evs.last()) && gateway_event_answers(
            prev,
            evs.last(),
        )) by {
            assert(t[t.len() - 1] == spec_gateway_step(t[t.len() - 2], evs[evs.len() - 1]));
            assert(gateway_event_answers(t[evs.len() - 1], evs[evs.len() - 1]));
        }
        lemma_gateway_step_budget(prev, evs.last());
        assert(count_gateway_spawns(t) == count_gateway_spawns(t2) + (if last
            == GatewayPhase::SpawnGateway {
            1int
        } else {
            0int
        }));
        assert(count_gateway_polls(t) == count_gateway_polls(t2) + (if last is Poll {
            1int
        } else {
            0int
        }));
    }
}

/// A warmup spawns at most once and polls at most the fixed number of
/// times, however it runs and ends.
pub proof fn lemma_gateway_bounded(t: Seq<GatewayPhase>, evs: Seq<GatewayEvent>)
    requires
        valid_gateway_trace(t, evs),
    ensures
        count_gateway_spawns(t) <= 1,
        count_gateway_polls(t) <= MAX_GATEWAY_POLLS as int,
{
    lemma_gateway_trace_budget(t, evs);
}

/// A warmup that finds the endpoint already reachable attaches at
/// once: it ends unowned, and no later phase exists, so no spawn and
/// no poll is ever performed.
pub proof fn lemma_gateway_attach(t: Seq<GatewayPhase>, evs: Seq<GatewayEvent>)
    requires
        valid_gateway_trace(t, evs),
        evs.len() >= 1,
        evs[0] == GatewayEvent::Reachable(true),
    ensures
        t.len() == 2,
        t.last() == GatewayPhase::Attached,
        !gateway_owned(t.last()),
        count_gateway_spawns(t) == 0,
        count_gateway_polls(t) == 0,
    decreases t.len(),
{
    let ghost i0: int = 0;
    assert(t[i0 + 1] == spec_gateway_step(t[i0], evs[i0]));
    assert(t[1] == GatewayPhase::Attached);
    if evs.len() > 1 {
        let ghost i1: int = 1;
        assert(gateway_event_answers(t[i1], evs[i1]));
        assert(false);
    }
    assert(t.drop_last().drop_last() =~= Seq::<GatewayPhase>::empty());
    assert(t.drop_last().last() == GatewayPhase::ProbeExisting);
    assert(t.last() == GatewayPhase::Attached);
    assert(count_gateway_spawns(t) == count_gateway_spawns(t.drop_last()));
    assert(count_gateway_spawns(t.drop_last()) == count_gateway_spawns(
        t.drop_last().drop_last(),
    ));
    assert(count_gateway_spawns(Seq::<GatewayPhase>::empty()) == 0);
    assert(count_gateway_polls(t) == count_gateway_polls(t.drop_last()));
    assert(count_gateway_polls(t.drop_last()) == count_gateway_polls(
        t.drop_last().drop_last(),
    ));
    assert(count_gateway_polls(Seq::<GatewayPhase>::empty()) == 0);
}

/// ASCII whitespace, as version output is trimmed.
pub open spec fn is_ws(b: u8) -> bool {
    b == 0x20 || b == 0x09 || b == 0x0a || b == 0x0d
}

/// First index at or after `i` that holds no whitespace.
pub open spec fn ws_start(h: Seq<u8>, i: int) -> int
    decreases h.len() - i,
    when 0 <= i <= h.len()
{
    if i >= h.len() {
        i
    } else if is_ws(h[i]) {
        ws_start(h, i + 1)
    } else {
        i
    }
}

/// Index past the last non-whitespace byte before `j`.
pub open spec fn ws_end(h: Seq<u8>, j: int) -> int
    decreases j,
    when 0 <= j <= h.len()
{
    if j <= 0 {
        0
    } else if is_ws(h[j - 1]) {
        ws_end(h, j - 1)
    } else {
        j
    }
}

/// First index in `[i, b)` holding a dot, or `b`.
pub open spec fn upto_dot(h: Seq<u8>, i: int, b: int) -> int
    decreases b - i,
{
    if i >= b {
        b
    } else if h[i] == 0x2e {
        i
    } else {
        upto_dot(h, i + 1, b)
    }
}

/// The major version a runtime's version text names: the text
/// trimmed, a leading `v` dropped, and the digits before the first
/// dot read as a number. Absent when those digits are missing, mixed
/// with other characters, or too large for the version type.
pub open spec fn spec_node_major(h: Seq<u8>) -> Option<u32> {
    let a0 = ws_start(h, 0);
    let b = ws_end(h, h.len() as int);
    if a0 >= b {
        None
    } else {
        let a = if h[a0] == 0x76 {
            a0 + 1
        } else {
            a0
        };
        let d = upto_dot(h, a, b);
        if d <= a {
            None
        } else if !(forall|k: int| a <= k < d ==> is_digit(#[trigger] h[k])) {
            None
        } else {
            let v = digits_val(h, a, d);
            if v > u32::MAX as int {
                None
            } else {
                Some(v as u32)
            }
        }
    }
}

proof fn lemma_ws_start(h: Seq<u8>, i: int)
    requires
        0 <= i <= h.len(),
    ensures
        i <= ws_start(h, i) <= h.len(),
        ws_start(h, i) < h.len() ==> !is_ws(h[ws_start(h, i)]),
    decreases h.len() - i,
{
    if i < h.len() && is_ws(h[i]) {
        lemma_ws_start(h, i + 1);
    }
}

proof fn lemma_ws_end(h: Seq<u8>, j: int)
    requires
        0 <= j <= h.len(),
    ensures
        0 <= ws_end(h, j) <= j,
        ws_end(h, j) > 0 ==> !is_ws(h[ws_end(h, j) - 1]),
    decreases j,
{
    if j > 0 && is_ws(h[j - 1]) {
        lemma_ws_end(h, j - 1);
    }
}

proof fn lemma_upto_dot(h: Seq<u8>, i: int, b: int)
    requires
        0 <= i <= b <= h.len(),
    ensures
        i <= upto_dot(h, i, b) <= b,
        upto_dot(h, i, b) < b ==> h[upto_dot(h, i, b)] == 0x2e,
        forall|k: int| i <= k < upto_dot(h, i, b) ==> #[trigger] h[k] != 0x2e,
    decreases b - i,
{
    if i < b && h[i] != 0x2e {
        lemma_upto_dot(h, i + 1, b);
    }
}

fn ws_start_exec(h: &[u8], i: usize) -> (r: usize)
    requires
        i <= h@.len(),
    ensures
        r == ws_start(h@, i as int),
        i <= r <= h@.len(),
{
    broadcast use vstd::slice::group_slice_axioms;

    let n = h.len();
    let mut j = i;
    loop
        invariant
            n == h@.len(),
            i <= j <= n,
            ws_start(h@, i as int) == ws_start(h@, j as int),
        decreases n - j,
    {
        if j >= n {
            return j;
        }
        let b = h[j];
        if !(b == 0x20 || b == 0x09 || b == 0x0a || b == 0x0d) {
            return j;
        }
        j = j + 1;
    }
}

fn ws_end_exec(h: &[u8]) -> (r: usize)
    ensures
        r == ws_end(h@, h@.len() as int),
        r <= h@.len(),
{
    broadcast use vstd::slice::group_slice_axioms;

    let mut j = h.len();
    loop
        invariant
            j <= h@.len(),
            ws_end(h@, h@.len() as int) == ws_end(h@, j as int),
        decreases j,
    {
        if j == 0 {
            return 0;
        }
        let b = h[j - 1];
        if !(b == 0x20 || b == 0x09 || b == 0x0a || b == 0x0d) {
            return j;
        }
        j = j - 1;
    }
}

fn upto_dot_exec(h: &[u8], i: usize, b: usize) -> (r: usize)
    requires
        i <= b <= h@.len(),
    ensures
        r == upto_dot(h@, i as int, b as int),
        i <= r <= b,
{
    broadcast use vstd::slice::group_slice_axioms;

    proof {
        lemma_upto_dot(h@, i as int, b as int);
    }
    let mut j = i;
    loop
        invariant
            i <= j <= b <= h@.len(),
            upto_dot(h@, i as int, b as int) == upto_dot(h@, j as int, b as int),
        decreases b - j,
    {
        if j >= b {
            return j;
        }
        if h[j] == 0x2e {
            return j;
        }
        j = j + 1;
    }
}

/// The major version named by a runtime's version text, as
/// [`spec_node_major`] reads it.
pub fn node_major_version(s: &str) -> (r: Option<u32>)
    ensures
        r == spec_node_major(s.spec_bytes()),
{
    broadcast use vstd::slice::group_slice_axioms;

    let h = s.as_bytes();
    let a0 = ws_start_exec(h, 0);
    let b = ws_end_exec(h);
    if a0 >= b {
        return None;
    }
    let a = if h[a0] == 0x76 {
        a0 + 1
    } else {
        a0
    };
    let d = upto_dot_exec(h, a, b);
    if d <= a {
        return None;
    }
    let de = scan_digits(h, a);
    if de < d {
        proof {
            crate::cost::lemma_digits_range(h@, a as int);
            assert(!is_digit(h@[digits_end(h@, a as int)]));
        }
        return None;
    }
    proof {
        crate::cost::lemma_digits_range(h@, a as int);
    }
    let v = digits_to_value(h, a, d, crate::cost::COST_UNIT_CAP);
    proof {
        crate::cost::lemma_pow10_concrete();
    }
    if v > 0xffff_ffff {
        proof {
            assert(digits_val(h@, a as int, d as int) > u32::MAX as int);
        }
        return None;
    }
    proof {
        assert(digits_val(h@, a as int, d as int) == v as int);
    }
    Some(v as u32)
}

/// Whether a version text names a runtime the gateway accepts.
pub fn node_version_supported(s: &str) -> (r: bool)
    ensures
        r == match spec_node_major(s.spec_bytes()) {
            Some(m) => m >= MIN_NODE_MAJOR,
            None => false,
        },
{
    match node_major_version(s) {
        Some(m) => m >= MIN_NODE_MAJOR,
        None => false,
    }
}

/// The major version a directory entry of installed runtimes names.
pub open spec fn spec_entry_major(s: String) -> Option<u32> {
    spec_node_major(vstd::utf8::encode_utf8(s@))
}

/// Pick an installed runtime of the highest supported major version:
/// the index of an entry whose major is supported and not exceeded by
/// any other supported entry, or nothing when no entry is supported.
pub fn best_node_version(names: &Vec<String>) -> (r: Option<usize>)
    ensures
        match r {
            Some(i) => {
                &&& i < names@.len()
                &&& match spec_entry_major(names@[i as int]) {
                    Some(m) => m >= MIN_NODE_MAJOR && forall|j: int|
                        0 <= j < names@.len() ==> match #[trigger] spec_entry_major(names@[j]) {
                            Some(mj) => mj <= m || mj < MIN_NODE_MAJOR,
                            None => true,
                        },
                    None => false,
                }
            },
            None => forall|j: int|
                0 <= j < names@.len() ==> match #[trigger] spec_entry_major(names@[j]) {
                    Some(mj) => mj < MIN_NODE_MAJOR,
                    None => true,
                },
        },
{
    let mut best: Option<(u32, usize)> = None;
    let n = names.len();
    let mut j: usize = 0;
    while j < n
        invariant
            n == names@.len(),
            0 <= j <= n,
            match best {
                Some((m, i)) => {
                    &&& i < j
                    &&& spec_entry_major(names@[i as int]) == Some(m)
                    &&& m >= MIN_NODE_MAJOR
                    &&& forall|k: int|
                        0 <= k < j ==> match #[trigger] spec_entry_major(names@[k]) {
                            Some(mk) => mk <= m || mk < MIN_NODE_MAJOR,
                            None => true,
                        }
                },
                None => forall|k: int|
                    0 <= k < j ==> match #[trigger] spec_entry_major(names@[k]) {
                        Some(mk) => mk < MIN_NODE_MAJOR,
                        None => true,
                    },
            },
        decreases n - j,
    {
        let m = node_major_version(names[j].as_str());
        match m {
            Some(mj) => {
                if mj >= MIN_NODE_MAJOR {
                    best = match best {
                        Some((mb, ib)) => if mj > mb {
                            Some((mj, j))
                        } else {
                            Some((mb, ib))
                        },
                        None => Some((mj, j)),
                    };
                }
            },
            None => {},
        }
        j = j + 1;
    }
    match best {
        Some((_, i)) => Some(i),
        None => None,
    }
}

/// Path of the companion binary under a home directory.
pub fn openclaw_binary_path(home: &str) -> (r: String)
    ensures
        r@ == home@ + "/.cafelua/openclaw/node_modules/.bin/openclaw"@,
{
    let mut s = home.to_owned();
    s.append("/.cafelua/openclaw/node_modules/.bin/openclaw");
    s
}

/// Path of the gateway's configuration file under a home directory.
pub fn openclaw_config_path(home: &str) -> (r: String)
    ensures
        r@ == home@ + "/.cafelua/openclaw/openclaw.json"@,
{
    let mut s = home.to_owned();
    s.append("/.cafelua/openclaw/openclaw.json");
    s
}

/// The actionable error reported when the companion binary is not
/// installed, naming the expected install step.
pub fn gateway_install_hint(bin: &str) -> (r: String)
    ensures
        r@ == "OpenClaw not installed at "@ + bin@
            + ". Run: config/scripts/setup-openclaw.sh"@,
{
    let mut s = "OpenClaw not installed at ".to_owned();
    s.append(bin);
    s.append(". Run: config/scripts/setup-openclaw.sh");
    proof {
        assert(s@ =~= "OpenClaw not installed at "@ + bin@
            + ". Run: config/scripts/setup-openclaw.sh"@);
    }
    s
}

} // verus!
