//! Audit trail of curated worker events: size-bounded payloads, an
//! append-only event store, filtered queries and aggregation.

use crate::text::{lex_le, str_le};
use vstd::prelude::*;
use vstd::string::*;
use vstd::utf8::*;

verus! {

/// One immutable audit record. Identifiers are assigned by the store
/// and strictly increase with insertion order.
#[derive(Debug)]
pub struct AuditEvent {
    pub id: i64,
    pub timestamp: String,
    pub request_id: String,
    pub event_type: String,
    pub tool_name: Option<String>,
    pub tool_call_id: Option<String>,
    pub tier: Option<i32>,
    pub success: Option<bool>,
    pub payload: Option<String>,
}

impl Clone for AuditEvent {
    /// A copy of the record, equal to it field by field.
    fn clone(&self) -> (r: Self)
        ensures
            r == *self,
    {
        AuditEvent {
            id: self.id,
            timestamp: self.timestamp.clone(),
            request_id: self.request_id.clone(),
            event_type: self.event_type.clone(),
            tool_name: clone_opt_string(&self.tool_name),
            tool_call_id: clone_opt_string(&self.tool_call_id),
            tier: self.tier,
            success: self.success,
            payload: clone_opt_string(&self.payload),
        }
    }
}

fn clone_opt_string(o: &Option<String>) -> (r: Option<String>)
    ensures
        r == *o,
{
    match o {
        Some(s) => Some(s.clone()),
        None => None,
    }
}

/// Conjunctive predicates over stored events, plus pagination.
#[derive(Debug)]
pub struct AuditFilter {
    pub request_id: Option<String>,
    pub event_type: Option<String>,
    pub tool_name: Option<String>,
    pub from: Option<String>,
    pub to: Option<String>,
    pub limit: Option<u32>,
    pub offset: Option<u32>,
}

impl Default for AuditFilter {
    /// The filter with no predicates and default pagination.
    fn default() -> (r: Self)
        ensures
            r.request_id is None,
            r.event_type is None,
            r.tool_name is None,
            r.from is None,
            r.to is None,
            r.limit is None,
            r.offset is None,
    {
        AuditFilter {
            request_id: None,
            event_type: None,
            tool_name: None,
            from: None,
            to: None,
            limit: None,
            offset: None,
        }
    }
}

/// Page size used when a query names no limit.
pub const DEFAULT_LIMIT: u32 = 100;

/// Hard cap on a query's page size, whatever limit was asked for.
pub const MAX_LIMIT: u32 = 1000;

/// The append-only store of audit events. Its view is the sequence of
/// stored events in insertion order.
#[derive(Debug)]
pub struct AuditLog {
    events: Vec<AuditEvent>,
}

impl View for AuditLog {
    type V = Seq<AuditEvent>;

    closed spec fn view(&self) -> Seq<AuditEvent> {
        self.events@
    }
}

/// Whether an event satisfies every predicate a filter supplies; the
/// time range is inclusive on both ends and compares timestamps as
/// byte strings.
pub open spec fn matches_filter(e: AuditEvent, f: AuditFilter) -> bool {
    &&& match f.request_id {
        Some(r) => e.request_id@ == r@,
        None => true,
    }
    &&& match f.event_type {
        Some(t) => e.event_type@ == t@,
        None => true,
    }
    &&& match f.tool_name {
        Some(t) => match e.tool_name {
            Some(n) => n@ == t@,
            None => false,
        },
        None => true,
    }
    &&& match f.from {
        Some(fr) => lex_le(encode_utf8(fr@), encode_utf8(e.timestamp@)),
        None => true,
    }
    &&& match f.to {
        Some(to) => lex_le(encode_utf8(e.timestamp@), encode_utf8(to@)),
        None => true,
    }
}

/// The page size a filter settles on: the requested limit, defaulted
/// and hard-capped.
pub open spec fn spec_limit(f: AuditFilter) -> int {
    let l = match f.limit {
        Some(l) => l as int,
        None => DEFAULT_LIMIT as int,
    };
    if l > MAX_LIMIT as int {
        MAX_LIMIT as int
    } else {
        l
    }
}

/// The number of leading result rows a filter skips.
pub open spec fn spec_offset(f: AuditFilter) -> int {
    match f.offset {
        Some(o) => o as int,
        None => 0,
    }
}

/// What a query returns: the stored events newest first, those that
/// match the filter, paged by offset and limit.
pub open spec fn spec_query(events: Seq<AuditEvent>, f: AuditFilter) -> Seq<AuditEvent> {
    let filtered = events.reverse().filter(|e: AuditEvent| matches_filter(e, f));
    let off = if spec_offset(f) > filtered.len() {
        filtered.len() as int
    } else {
        spec_offset(f)
    };
    let cnt = if spec_limit(f) > filtered.len() - off {
        filtered.len() - off
    } else {
        spec_limit(f)
    };
    filtered.subrange(off, off + cnt)
}

/// The store's invariant: the `i`th inserted event carries identifier
/// `i + 1`, so identifiers strictly increase with insertion order.
pub open spec fn wf_log(events: Seq<AuditEvent>) -> bool {
    forall|i: int| 0 <= i < events.len() ==> #[trigger] events[i].id == i + 1
}

impl AuditLog {
    /// Whether the store satisfies its invariant.
    pub open spec fn wf(&self) -> bool {
        wf_log(self@)
    }

    /// A fresh, empty store.
    pub fn new() -> (r: AuditLog)
        ensures
            r.wf(),
            r@.len() == 0,
    {
        AuditLog { events: Vec::new() }
    }

    /// How many events the store holds.
    pub fn len(&self) -> (r: usize)
        ensures
            r == self@.len(),
    {
        self.events.len()
    }
}

/// Highest identifier the store can assign; insertion fails beyond it.
pub const MAX_EVENT_ID: i64 = 0x7fff_ffff_ffff_ffff;

/// Append an event with the given timestamp. The store assigns the
/// next identifier; every other field is stored as passed. Fails only
/// when the identifier space is exhausted.
#[allow(clippy::too_many_arguments)]
pub fn insert_event_at(
    log: &mut AuditLog,
    timestamp: &str,
    request_id: &str,
    event_type: &str,
    tool_name: Option<&str>,
    tool_call_id: Option<&str>,
    tier: Option<i32>,
    success: Option<bool>,
    payload: Option<&str>,
) -> (r: Result<(), String>)
    requires
        old(log).wf(),
    ensures
        final(log).wf(),
        r is Ok <==> old(log)@.len() < MAX_EVENT_ID,
        r is Ok ==> {
            &&& final(log)@.len() == old(log)@.len() + 1
            &&& final(log)@ == old(log)@.push(final(log)@.last())
            &&& final(log)@.last().id == old(log)@.len() + 1
            &&& final(log)@.last().timestamp@ == timestamp@
            &&& final(log)@.last().request_id@ == request_id@
            &&& final(log)@.last().event_type@ == event_type@
            &&& opt_str_view(final(log)@.last().tool_name) == opt_view(tool_name)
            &&& opt_str_view(final(log)@.last().tool_call_id) == opt_view(tool_call_id)
            &&& final(log)@.last().tier == tier
            &&& final(log)@.last().success == success
            &&& opt_str_view(final(log)@.last().payload) == opt_view(payload)
        },
        r is Err ==> final(log)@ == old(log)@,
{
    if log.events.len() as u64 >= MAX_EVENT_ID as u64 {
        return Err(err_string("audit store is full"));
    }
    let id = log.events.len() as i64 + 1;
    let event = AuditEvent {
        id,
        timestamp: timestamp.to_owned(),
        request_id: request_id.to_owned(),
        event_type: event_type.to_owned(),
        tool_name: opt_to_owned(tool_name),
        tool_call_id: opt_to_owned(tool_call_id),
        tier,
        success,
        payload: opt_to_owned(payload),
    };
    log.events.push(event);
    Ok(())
}

/// Append an event stamped with the current wall-clock time. The
/// store assigns the next identifier and the timestamp; every other
/// field is stored as passed. Fails only when the identifier space is
/// exhausted.
#[allow(clippy::too_many_arguments)]
pub fn insert_event(
    log: &mut AuditLog,
    request_id: &str,
    event_type: &str,
    tool_name: Option<&str>,
    tool_call_id: Option<&str>,
    tier: Option<i32>,
    success: Option<bool>,
    payload: Option<&str>,
) -> (r: Result<(), String>)
    requires
        old(log).wf(),
    ensures
        final(log).wf(),
        r is Ok <==> old(log)@.len() < MAX_EVENT_ID,
        r is Ok ==> {
            &&& final(log)@.len() == old(log)@.len() + 1
            &&& final(log)@ == old(log)@.push(final(log)@.last())
            &&& final(log)@.last().id == old(log)@.len() + 1
            &&& (exists|ms: u64|
                final(log)@.last().timestamp@ == crate::clock::spec_timestamp(ms))
            &&& final(log)@.last().request_id@ == request_id@
            &&& final(log)@.last().event_type@ == event_type@
            &&& opt_str_view(final(log)@.last().tool_name) == opt_view(tool_name)
            &&& opt_str_view(final(log)@.last().tool_call_id) == opt_view(tool_call_id)
            &&& final(log)@.last().tier == tier
            &&& final(log)@.last().success == success
            &&& opt_str_view(final(log)@.last().payload) == opt_view(payload)
        },
        r is Err ==> final(log)@ == old(log)@,
{
    let ts = crate::clock::now_timestamp();
    insert_event_at(
        log,
        ts.as_str(),
        request_id,
        event_type,
        tool_name,
        tool_call_id,
        tier,
        success,
        payload,
    )
}

/// The character sequences of an optional owned string.
pub open spec fn opt_str_view(o: Option<String>) -> Option<Seq<char>> {
    match o {
        Some(s) => Some(s@),
        None => None,
    }
}

/// The character sequences of an optional borrowed string.
pub open spec fn opt_view(o: Option<&str>) -> Option<Seq<char>> {
    match o {
        Some(s) => Some(s@),
        None => None,
    }
}

fn opt_to_owned(o: Option<&str>) -> (r: Option<String>)
    ensures
        opt_str_view(r) == opt_view(o),
{
    match o {
        Some(s) => Some(s.to_owned()),
        None => None,
    }
}

fn err_string(msg: &str) -> (r: String)
    ensures
        r@ == msg@,
{
    msg.to_owned()
}

/// Whether an event satisfies every predicate of the filter.
pub fn event_matches(e: &AuditEvent, f: &AuditFilter) -> (r: bool)
    ensures
        r == matches_filter(*e, *f),
{
    match &f.request_id {
        Some(rid) => {
            if !e.request_id.eq(rid) {
                return false;
            }
        },
        None => {},
    }
    match &f.event_type {
        Some(et) => {
            if !e.event_type.eq(et) {
                return false;
            }
        },
        None => {},
    }
    match &f.tool_name {
        Some(tn) => {
            match &e.tool_name {
                Some(n) => {
                    if !n.eq(tn) {
                        return false;
                    }
                },
                None => {
                    return false;
                },
            }
        },
        None => {},
    }
    match &f.from {
        Some(fr) => {
            if !str_le(fr.as_str(), e.timestamp.as_str()) {
                return false;
            }
        },
        None => {},
    }
    match &f.to {
        Some(to) => {
            if !str_le(e.timestamp.as_str(), to.as_str()) {
                return false;
            }
        },
        None => {},
    }
    true
}

/// All supplied predicates applied conjunctively, newest event first,
/// paged by the filter's offset and its defaulted, hard-capped limit.
pub fn query_events(log: &AuditLog, filter: &AuditFilter) -> (r: Result<Vec<AuditEvent>, String>)
    ensures
        r is Ok,
        r matches Ok(events) ==> events@ == spec_query(log@, *filter),
{
    let ghost pred = |e: AuditEvent| matches_filter(e, *filter);
    let mut filtered: Vec<AuditEvent> = Vec::new();
    let n = log.events.len();
    let mut i: usize = n;
    proof {
        assert(log@.subrange(n as int, n as int).reverse() =~= Seq::<AuditEvent>::empty());
        reveal(Seq::filter);
        assert(filtered@ =~= log@.subrange(n as int, n as int).reverse().filter(pred));
    }
    while i > 0
        invariant
            n == log@.len(),
            0 <= i <= n,
            filtered@ == log@.subrange(i as int, n as int).reverse().filter(pred),
            pred == (|e: AuditEvent| matches_filter(e, *filter)),
        decreases i,
    {
        i = i - 1;
        let ghost prev = log@.subrange(i as int + 1, n as int).reverse();
        let e = &log.events[i];
        let m = event_matches(e, filter);
        if m {
            filtered.push(e.clone());
        }
        proof {
            let cur = log@.subrange(i as int, n as int).reverse();
            assert(cur =~= prev.push(log@[i as int]));
            reveal(Seq::filter);
            assert(cur.drop_last() =~= prev);
            assert(cur.last() == log@[i as int]);
        }
    }
    proof {
        assert(log@.subrange(0, n as int) =~= log@);
    }
    // page the filtered rows by offset, then by the capped limit
    let offset = match filter.offset {
        Some(o) => o as usize,
        None => 0,
    };
    let limit_raw = match filter.limit {
        Some(l) => l,
        None => DEFAULT_LIMIT,
    };
    let limit = if limit_raw > MAX_LIMIT {
        MAX_LIMIT as usize
    } else {
        limit_raw as usize
    };
    let off = if offset > filtered.len() {
        filtered.len()
    } else {
        offset
    };
    let cnt = if limit > filtered.len() - off {
        filtered.len() - off
    } else {
        limit
    };
    let end = off + cnt;
    let mut out: Vec<AuditEvent> = Vec::new();
    let mut j: usize = off;
    while j < end
        invariant
            end == off + cnt,
            off + cnt <= filtered@.len(),
            off <= j <= off + cnt,
            out@ == filtered@.subrange(off as int, j as int),
        decreases off + cnt - j,
    {
        out.push(filtered[j].clone());
        proof {
            assert(out@ =~= filtered@.subrange(off as int, j as int + 1));
        }
        j = j + 1;
    }
    proof {
        assert(out@ =~= spec_query(log@, *filter));
    }
    Ok(out)
}

/// Byte cap on a free-form payload text before the truncation marker.
pub const MAX_PAYLOAD_BYTES: usize = 4096;

/// The marker appended to a payload that was cut at the byte cap.
pub open spec fn trunc_marker() -> Seq<char> {
    "...[truncated]"@
}

/// The largest index at or below `cap` that falls on a character
/// boundary of `bytes`.
pub open spec fn trunc_cut(bytes: Seq<u8>, cap: int) -> int
    recommends
        valid_utf8(bytes),
    decreases cap,
{
    if cap <= 0 {
        0
    } else if is_char_boundary(bytes, cap) {
        cap
    } else {
        trunc_cut(bytes, cap - 1)
    }
}

/// UTF-8 encoding distributes over concatenation of character sequences.
pub proof fn lemma_encode_utf8_concat(a: Seq<char>, b: Seq<char>)
    ensures
        encode_utf8(a + b) == encode_utf8(a) + encode_utf8(b),
    decreases a.len(),
{
    if a.len() == 0 {
        assert(a + b =~= b);
        assert(encode_utf8(a) + encode_utf8(b) =~= encode_utf8(b));
    } else {
        assert((a + b).drop_first() =~= a.drop_first() + b);
        lemma_encode_utf8_concat(a.drop_first(), b);
        assert(encode_utf8(a + b) =~= encode_utf8(a) + encode_utf8(b)) by {
            assert((a + b)[0] == a[0]);
            assert(encode_utf8(a + b) == encode_scalar((a + b)[0] as u32) + encode_utf8(
                (a + b).drop_first(),
            ));
            assert(encode_utf8(a) == encode_scalar(a[0] as u32) + encode_utf8(a.drop_first()));
        }
    }
}

proof fn lemma_trunc_cut_bounds(bytes: Seq<u8>, cap: int)
    requires
        valid_utf8(bytes),
        0 <= cap <= bytes.len(),
    ensures
        0 <= trunc_cut(bytes, cap) <= cap,
        is_char_boundary(bytes, trunc_cut(bytes, cap)),
    decreases cap,
{
    broadcast use vstd::utf8::is_char_boundary_start_end_of_seq;

    if cap <= 0 {
    } else if is_char_boundary(bytes, cap) {
    } else {
        lemma_trunc_cut_bounds(bytes, cap - 1);
    }
}

/// What `truncate_payload` returns: the text unchanged when it fits the
/// byte cap, else the longest prefix that ends on a character boundary
/// at or below the cap, with the truncation marker appended.
pub open spec fn spec_truncate_payload(s: Seq<char>) -> Seq<char> {
    let bytes = encode_utf8(s);
    if bytes.len() <= MAX_PAYLOAD_BYTES {
        s
    } else {
        decode_utf8(bytes.subrange(0, trunc_cut(bytes, MAX_PAYLOAD_BYTES as int))) + trunc_marker()
    }
}

/// Cut a payload down to the byte cap on a character boundary, marking
/// the cut; a payload within the cap is returned unchanged.
pub fn truncate_payload(payload: &str) -> (r: String)
    ensures
        r@ == spec_truncate_payload(payload@),
        encode_utf8(r@).len() <= MAX_PAYLOAD_BYTES + trunc_marker().len(),
        payload.spec_bytes().len() > MAX_PAYLOAD_BYTES ==> encode_utf8(r@) == payload.spec_bytes()
            .subrange(
            0,
            trunc_cut(payload.spec_bytes(), MAX_PAYLOAD_BYTES as int),
        ) + encode_utf8(trunc_marker()),
{
    broadcast use vstd::utf8::group_utf8_lib;
    broadcast use vstd::slice::group_slice_axioms;

    proof {
        reveal_strlit("...[truncated]");
        assert(is_ascii_chars(trunc_marker()));
        is_ascii_chars_encode_utf8(trunc_marker());
        assert(trunc_marker().len() == 14);
    }
    let ghost bytes = payload.spec_bytes();
    let n = payload.as_bytes().len();
    proof {
        assert(n == bytes.len());
    }
    if n <= MAX_PAYLOAD_BYTES {
        payload.to_owned()
    } else {
        let mut end: usize = MAX_PAYLOAD_BYTES;
        proof {
            lemma_trunc_cut_bounds(bytes, MAX_PAYLOAD_BYTES as int);
        }
        while end > 0 && !payload.is_char_boundary(end)
            invariant
                0 <= end <= MAX_PAYLOAD_BYTES < bytes.len(),
                bytes == payload.spec_bytes(),
                valid_utf8(bytes),
                trunc_cut(bytes, MAX_PAYLOAD_BYTES as int) == trunc_cut(bytes, end as int),
            decreases end,
        {
            end = end - 1;
        }
        proof {
            lemma_trunc_cut_bounds(bytes, MAX_PAYLOAD_BYTES as int);
            if end == 0 {
                broadcast use vstd::utf8::is_char_boundary_start_end_of_seq;

            }
            assert(is_char_boundary(bytes, end as int));
            assert(end as int == trunc_cut(bytes, MAX_PAYLOAD_BYTES as int));
        }
        let (prefix, _) = payload.split_at(end);
        let mut r = prefix.to_owned();
        r.append("...[truncated]");
        proof {
            let cut = end as int;
            assert(prefix.spec_bytes() == bytes.subrange(0, cut));
            assert(r@ == prefix@ + trunc_marker());
            lemma_encode_utf8_concat(prefix@, trunc_marker());
            assert(encode_utf8(r@) == prefix.spec_bytes() + encode_utf8(trunc_marker()));
            vstd::utf8::decode_utf8_split(bytes, cut);
            assert(decode_utf8(bytes.subrange(0, cut)) == prefix@) by {
                assert(decode_utf8(prefix.spec_bytes()) == prefix@);
            }
        }
        r
    }
}

/// Aggregates over the whole store. The cost total is carried in
/// microunits, as [`crate::cost`] models it.
#[derive(Debug)]
pub struct AuditStats {
    pub total_events: u64,
    pub by_event_type: Vec<(String, u64)>,
    pub by_tool_name: Vec<(String, u64)>,
    pub total_cost_micros: u128,
}

/// The distinct event kinds of a store, in first-appearance order.
pub open spec fn spec_kind_keys(events: Seq<AuditEvent>) -> Seq<Seq<char>>
    decreases events.len(),
{
    if events.len() == 0 {
        Seq::empty()
    } else {
        let p = spec_kind_keys(events.drop_last());
        let t = events.last().event_type@;
        if p.contains(t) {
            p
        } else {
            p.push(t)
        }
    }
}

/// How many events of the store carry the given kind.
pub open spec fn count_kind(events: Seq<AuditEvent>, t: Seq<char>) -> int {
    events.filter(|e: AuditEvent| e.event_type@ == t).len() as int
}

/// The distinct tool names of a store, in first-appearance order;
/// events without a tool name contribute none.
pub open spec fn spec_tool_keys(events: Seq<AuditEvent>) -> Seq<Seq<char>>
    decreases events.len(),
{
    if events.len() == 0 {
        Seq::empty()
    } else {
        let p = spec_tool_keys(events.drop_last());
        match events.last().tool_name {
            Some(n) => if p.contains(n@) {
                p
            } else {
                p.push(n@)
            },
            None => p,
        }
    }
}

/// How many events of the store carry the given tool name.
pub open spec fn count_tool(events: Seq<AuditEvent>, t: Seq<char>) -> int {
    events.filter(
        |e: AuditEvent|
            match e.tool_name {
                Some(n) => n@ == t,
                None => false,
            },
    ).len() as int
}

/// Microunit cost one event contributes: the numeric `cost` member
/// of a usage event's payload, zero for every other event, for a
/// payload that is not a JSON document, and for a missing or
/// non-numeric member.
pub open spec fn spec_event_cost(e: AuditEvent) -> int {
    if e.event_type@ == "usage"@ {
        match e.payload {
            Some(p) => match crate::jsonval::json_top_num(p@, "cost"@) {
                Some(ct) => crate::cost::spec_decimal_micros(encode_utf8(ct)),
                None => 0,
            },
            None => 0,
        }
    } else {
        0
    }
}

/// Summed microunit cost of a store's usage events.
pub open spec fn spec_total_cost(events: Seq<AuditEvent>) -> int
    decreases events.len(),
{
    if events.len() == 0 {
        0
    } else {
        spec_total_cost(events.drop_last()) + spec_event_cost(events.last())
    }
}

/// Whether a vector of strings holds one with the given characters.
fn contains_string(keys: &Vec<String>, t: &str) -> (r: bool)
    ensures
        r == keys@.map_values(|s: String| s@).contains(t@),
{
    let ghost mapped = keys@.map_values(|s: String| s@);
    let n = keys.len();
    let mut i: usize = 0;
    while i < n
        invariant
            n == keys@.len(),
            mapped == keys@.map_values(|s: String| s@),
            0 <= i <= n,
            forall|j: int| 0 <= j < i ==> mapped[j] != t@,
        decreases n - i,
    {
        if crate::text::str_eq(keys[i].as_str(), t) {
            proof {
                assert(mapped[i as int] == keys@[i as int]@);
            }
            return true;
        }
        i = i + 1;
    }
    proof {
        assert forall|j: int| 0 <= j < mapped.len() implies mapped[j] != t@ by {}
    }
    false
}

/// How many stored events carry the given kind.
fn count_events_with_kind(log: &AuditLog, t: &str) -> (r: u64)
    ensures
        r as int == count_kind(log@, t@),
{
    let n = log.events.len();
    let mut c: u64 = 0;
    let mut i: usize = 0;
    proof {
        reveal(Seq::filter);
        assert(log@.subrange(0, 0) =~= Seq::<AuditEvent>::empty());
    }
    while i < n
        invariant
            n == log@.len(),
            0 <= i <= n,
            c as int == count_kind(log@.subrange(0, i as int), t@),
            c <= i,
        decreases n - i,
    {
        let ghost prefix = log@.subrange(0, i as int);
        let ghost prefix2 = log@.subrange(0, i as int + 1);
        let hit = crate::text::str_eq(log.events[i].event_type.as_str(), t);
        proof {
            reveal(Seq::filter);
            assert(prefix2.drop_last() =~= prefix);
            assert(prefix2.last() == log@[i as int]);
            broadcast use vstd::seq_lib::group_seq_lib_default;

            prefix.lemma_filter_len(|e: AuditEvent| e.event_type@ == t@);
        }
        if hit {
            c = c + 1;
        }
        i = i + 1;
    }
    proof {
        assert(log@.subrange(0, n as int) =~= log@);
    }
    c
}

/// How many stored events carry the given tool name.
fn count_events_with_tool(log: &AuditLog, t: &str) -> (r: u64)
    ensures
        r as int == count_tool(log@, t@),
{
    let n = log.events.len();
    let mut c: u64 = 0;
    let mut i: usize = 0;
    proof {
        reveal(Seq::filter);
        assert(log@.subrange(0, 0) =~= Seq::<AuditEvent>::empty());
    }
    while i < n
        invariant
            n == log@.len(),
            0 <= i <= n,
            c as int == count_tool(log@.subrange(0, i as int), t@),
            c <= i,
        decreases n - i,
    {
        let ghost prefix = log@.subrange(0, i as int);
        let ghost prefix2 = log@.subrange(0, i as int + 1);
        let hit = match &log.events[i].tool_name {
            Some(n2) => crate::text::str_eq(n2.as_str(), t),
            None => false,
        };
        proof {
            reveal(Seq::filter);
            assert(prefix2.drop_last() =~= prefix);
            assert(prefix2.last() == log@[i as int]);
            broadcast use vstd::seq_lib::group_seq_lib_default;

            prefix.lemma_filter_len(
                |e: AuditEvent|
                    match e.tool_name {
                        Some(n3) => n3@ == t@,
                        None => false,
                    },
            );
        }
        if hit {
            c = c + 1;
        }
        i = i + 1;
    }
    proof {
        assert(log@.subrange(0, n as int) =~= log@);
    }
    c
}

/// Total row count, counts grouped by kind and by tool name, and the
/// summed microunit cost of usage events.
pub fn query_stats(log: &AuditLog) -> (r: Result<AuditStats, String>)
    ensures
        r is Ok,
        r matches Ok(s) ==> {
            &&& s.total_events as int == log@.len()
            &&& s.by_event_type@.map_values(|p: (String, u64)| p.0@) == spec_kind_keys(log@)
            &&& forall|k: int|
                0 <= k < s.by_event_type@.len() ==> #[trigger] s.by_event_type@[k].1 as int
                    == count_kind(log@, s.by_event_type@[k].0@)
            &&& s.by_tool_name@.map_values(|p: (String, u64)| p.0@) == spec_tool_keys(log@)
            &&& forall|k: int|
                0 <= k < s.by_tool_name@.len() ==> #[trigger] s.by_tool_name@[k].1 as int
                    == count_tool(log@, s.by_tool_name@[k].0@)
            &&& s.total_cost_micros as int == spec_total_cost(log@)
        },
{
    let n = log.events.len();
    let total_events = n as u64;

    // distinct event kinds, in first-appearance order
    let mut kind_keys: Vec<String> = Vec::new();
    let mut i: usize = 0;
    proof {
        assert(log@.subrange(0, 0) =~= Seq::<AuditEvent>::empty());
        assert(kind_keys@.map_values(|s: String| s@) =~= spec_kind_keys(log@.subrange(0, 0)));
    }
    while i < n
        invariant
            n == log@.len(),
            0 <= i <= n,
            kind_keys@.map_values(|s: String| s@) == spec_kind_keys(log@.subrange(0, i as int)),
        decreases n - i,
    {
        let ghost prefix = log@.subrange(0, i as int);
        let ghost prefix2 = log@.subrange(0, i as int + 1);
        let t = &log.events[i].event_type;
        let seen = contains_string(&kind_keys, t.as_str());
        if !seen {
            kind_keys.push(t.clone());
        }
        proof {
            assert(prefix2.drop_last() =~= prefix);
            assert(prefix2.last() == log@[i as int]);
            assert(kind_keys@.map_values(|s: String| s@) =~= spec_kind_keys(prefix2));
        }
        i = i + 1;
    }
    proof {
        assert(log@.subrange(0, n as int) =~= log@);
    }

    // distinct tool names, in first-appearance order
    let mut tool_keys: Vec<String> = Vec::new();
    let mut i2: usize = 0;
    proof {
        assert(log@.subrange(0, 0) =~= Seq::<AuditEvent>::empty());
        assert(tool_keys@.map_values(|s: String| s@) =~= spec_tool_keys(log@.subrange(0, 0)));
    }
    while i2 < n
        invariant
            n == log@.len(),
            0 <= i2 <= n,
            tool_keys@.map_values(|s: String| s@) == spec_tool_keys(log@.subrange(0, i2 as int)),
        decreases n - i2,
    {
        let ghost prefix = log@.subrange(0, i2 as int);
        let ghost prefix2 = log@.subrange(0, i2 as int + 1);
        match &log.events[i2].tool_name {
            Some(t) => {
                let seen = contains_string(&tool_keys, t.as_str());
                if !seen {
                    tool_keys.push(t.clone());
                }
            },
            None => {},
        }
        proof {
            assert(prefix2.drop_last() =~= prefix);
            assert(prefix2.last() == log@[i2 as int]);
            assert(tool_keys@.map_values(|s: String| s@) =~= spec_tool_keys(prefix2));
        }
        i2 = i2 + 1;
    }
    proof {
        assert(log@.subrange(0, n as int) =~= log@);
    }

    // count the events under each kind key
    let mut by_event_type: Vec<(String, u64)> = Vec::new();
    let mut k: usize = 0;
    while k < kind_keys.len()
        invariant
            0 <= k <= kind_keys@.len(),
            by_event_type@.len() == k,
            forall|j: int|
                0 <= j < k ==> #[trigger] by_event_type@[j].0@ == kind_keys@[j]@
                    && by_event_type@[j].1 as int == count_kind(log@, kind_keys@[j]@),
        decreases kind_keys@.len() - k,
    {
        let key = &kind_keys[k];
        let c = count_events_with_kind(log, key.as_str());
        let ghost old_pairs = by_event_type@;
        by_event_type.push((key.clone(), c));
        proof {
            assert forall|j: int| 0 <= j < k + 1 implies #[trigger] by_event_type@[j].0@
                == kind_keys@[j]@ && by_event_type@[j].1 as int == count_kind(
                log@,
                kind_keys@[j]@,
            ) by {
                if j == k {
                    assert(by_event_type@[j].0@ == kind_keys@[k as int]@);
                } else {
                    assert(by_event_type@[j] == old_pairs[j]);
                    assert(old_pairs[j].0@ == kind_keys@[j]@ && old_pairs[j].1 as int
                        == count_kind(log@, kind_keys@[j]@));
                }
            }
        }
        k = k + 1;
    }

    // count the events under each tool key
    let mut by_tool_name: Vec<(String, u64)> = Vec::new();
    let mut k2: usize = 0;
    while k2 < tool_keys.len()
        invariant
            0 <= k2 <= tool_keys@.len(),
            by_tool_name@.len() == k2,
            forall|j: int|
                0 <= j < k2 ==> #[trigger] by_tool_name@[j].0@ == tool_keys@[j]@
                    && by_tool_name@[j].1 as int == count_tool(log@, tool_keys@[j]@),
        decreases tool_keys@.len() - k2,
    {
        let key = &tool_keys[k2];
        let c = count_events_with_tool(log, key.as_str());
        let ghost old_pairs = by_tool_name@;
        by_tool_name.push((key.clone(), c));
        proof {
            assert forall|j: int| 0 <= j < k2 + 1 implies #[trigger] by_tool_name@[j].0@
                == tool_keys@[j]@ && by_tool_name@[j].1 as int == count_tool(
                log@,
                tool_keys@[j]@,
            ) by {
                if j == k2 {
                    assert(by_tool_name@[j].0@ == tool_keys@[k2 as int]@);
                } else {
                    assert(by_tool_name@[j] == old_pairs[j]);
                    assert(old_pairs[j].0@ == tool_keys@[j]@ && old_pairs[j].1 as int
                        == count_tool(log@, tool_keys@[j]@));
                }
            }
        }
        k2 = k2 + 1;
    }

    // summed microunit cost over usage payloads
    let mut total_cost_micros: u128 = 0;
    let mut i3: usize = 0;
    proof {
        assert(log@.subrange(0, 0) =~= Seq::<AuditEvent>::empty());
    }
    while i3 < n
        invariant
            n == log@.len(),
            0 <= i3 <= n,
            total_cost_micros as int == spec_total_cost(log@.subrange(0, i3 as int)),
            total_cost_micros as int <= (i3 as int) * 1_000_000_000_000_999_999,
        decreases n - i3,
    {
        let ghost prefix = log@.subrange(0, i3 as int);
        let ghost prefix2 = log@.subrange(0, i3 as int + 1);
        let e = &log.events[i3];
        let is_usage = crate::text::str_eq(e.event_type.as_str(), "usage");
        let c: u64 = if is_usage {
            match &e.payload {
                Some(p) => match crate::jsonval::json_get_top_num(p.as_str(), "cost") {
                    Some(ct) => crate::cost::decimal_micros(ct.as_str()),
                    None => 0,
                },
                None => 0,
            }
        } else {
            0
        };
        proof {
            assert(prefix2.drop_last() =~= prefix);
            assert(prefix2.last() == log@[i3 as int]);
            assert(c as int == spec_event_cost(log@[i3 as int]));
            assert(crate::cost::cost_micros_bound() == 1_000_000_000_000_999_999);
            assert(c as int <= 1_000_000_000_000_999_999);
            assert((i3 as int + 1) * 1_000_000_000_000_999_999 == (i3 as int)
                * 1_000_000_000_000_999_999 + 1_000_000_000_000_999_999) by (nonlinear_arith);
            assert((i3 as int) * 1_000_000_000_000_999_999 <= (0xffff_ffff_ffff_ffffint)
                * 1_000_000_000_000_999_999) by (nonlinear_arith)
                requires
                    0 <= i3 <= 0xffff_ffff_ffff_ffff,
            ;
        }
        total_cost_micros = total_cost_micros + c as u128;
        i3 = i3 + 1;
    }
    proof {
        assert(log@.subrange(0, n as int) =~= log@);
    }

    Ok(
        AuditStats {
            total_events,
            by_event_type,
            by_tool_name,
            total_cost_micros,
        },
    )
}

/// Law: a query returns only events that match its filter; with a
/// request identifier supplied, every returned event carries it,
/// whatever other events are interleaved in the store.
pub proof fn lemma_query_only_matching(events: Seq<AuditEvent>, f: AuditFilter, k: int)
    requires
        0 <= k < spec_query(events, f).len(),
    ensures
        matches_filter(spec_query(events, f)[k], f),
        f.request_id matches Some(rid) ==> spec_query(events, f)[k].request_id@ == rid@,
{
    broadcast use vstd::seq_lib::group_seq_lib_default;

    let pred = |e: AuditEvent| matches_filter(e, f);
    let filtered = events.reverse().filter(pred);
    events.reverse().lemma_filter_pred(pred, spec_query(events, f).len() - 1 - k + k);
    let off = if spec_offset(f) > filtered.len() {
        filtered.len() as int
    } else {
        spec_offset(f)
    };
    assert(spec_query(events, f)[k] == filtered[off + k]);
    events.reverse().lemma_filter_pred(pred, off + k);
}

proof fn lemma_filter_all(s: Seq<AuditEvent>, pred: spec_fn(AuditEvent) -> bool)
    requires
        forall|k: int| 0 <= k < s.len() ==> pred(#[trigger] s[k]),
    ensures
        s.filter(pred) == s,
    decreases s.len(),
{
    reveal(Seq::filter);
    if s.len() > 0 {
        lemma_filter_all(s.drop_last(), pred);
        assert(s.drop_last().push(s.last()) =~= s);
    }
}

/// Law: with no predicates, a zero offset and a limit that covers the
/// store, a query returns every stored event, newest first: the `k`th
/// returned event carries identifier `len - k`, so identifiers are
/// strictly descending.
pub proof fn lemma_query_all_descending(events: Seq<AuditEvent>, f: AuditFilter)
    requires
        wf_log(events),
        f.request_id is None,
        f.event_type is None,
        f.tool_name is None,
        f.from is None,
        f.to is None,
        spec_offset(f) == 0,
        spec_limit(f) >= events.len(),
    ensures
        spec_query(events, f).len() == events.len(),
        forall|k: int|
            0 <= k < events.len() ==> #[trigger] spec_query(events, f)[k].id == events.len() - k,
        forall|k: int|
            0 <= k < events.len() - 1 ==> #[trigger] spec_query(events, f)[k].id > spec_query(
                events,
                f,
            )[k + 1].id,
{
    let pred = |e: AuditEvent| matches_filter(e, f);
    let rev = events.reverse();
    lemma_filter_all(rev, pred);
    assert(spec_query(events, f) =~= rev);
    assert forall|k: int| 0 <= k < events.len() implies #[trigger] spec_query(events, f)[k].id
        == events.len() - k by {
        assert(rev[k] == events[events.len() - 1 - k]);
    }
}

/// How many entries of a key list hold the given key.
pub open spec fn occurrences(keys: Seq<Seq<char>>, t: Seq<char>) -> int
    decreases keys.len(),
{
    if keys.len() == 0 {
        0
    } else {
        occurrences(keys.drop_last(), t) + if keys.last() == t {
            1int
        } else {
            0int
        }
    }
}

/// The summed per-kind counts over a key list.
pub open spec fn sum_kind_counts(events: Seq<AuditEvent>, keys: Seq<Seq<char>>) -> int
    decreases keys.len(),
{
    if keys.len() == 0 {
        0
    } else {
        sum_kind_counts(events, keys.drop_last()) + count_kind(events, keys.last())
    }
}

proof fn lemma_count_kind_push(s: Seq<AuditEvent>, e: AuditEvent, t: Seq<char>)
    ensures
        count_kind(s.push(e), t) == count_kind(s, t) + (if e.event_type@ == t {
            1int
        } else {
            0int
        }),
{
    reveal(Seq::filter);
    broadcast use vstd::seq_lib::group_seq_lib_default;

    assert(s.push(e).drop_last() =~= s);
    assert(s.push(e).last() == e);
    s.lemma_filter_len(|x: AuditEvent| x.event_type@ == t);
}

proof fn lemma_sum_counts_push(s: Seq<AuditEvent>, e: AuditEvent, keys: Seq<Seq<char>>)
    ensures
        sum_kind_counts(s.push(e), keys) == sum_kind_counts(s, keys) + occurrences(
            keys,
            e.event_type@,
        ),
    decreases keys.len(),
{
    if keys.len() > 0 {
        lemma_sum_counts_push(s, e, keys.drop_last());
        lemma_count_kind_push(s, e, keys.last());
    }
}

proof fn lemma_kind_keys_contains(s: Seq<AuditEvent>, t: Seq<char>)
    ensures
        spec_kind_keys(s).contains(t) <==> (exists|i: int|
            0 <= i < s.len() && #[trigger] s[i].event_type@ == t),
    decreases s.len(),
{
    if s.len() > 0 {
        lemma_kind_keys_contains(s.drop_last(), t);
        let p = spec_kind_keys(s.drop_last());
        if spec_kind_keys(s).contains(t) {
            if s.last().event_type@ == t {
                assert(s[s.len() - 1].event_type@ == t);
            } else {
                assert(p.contains(t)) by {
                    if !p.contains(t) {
                        assert(spec_kind_keys(s) == p.push(s.last().event_type@)
                            || spec_kind_keys(s) == p);
                        let j = choose|j: int|
                            0 <= j < spec_kind_keys(s).len() && spec_kind_keys(s)[j] == t;
                        if spec_kind_keys(s) == p.push(s.last().event_type@) {
                            assert(j < p.len() || spec_kind_keys(s)[j] == s.last().event_type@);
                        }
                    }
                }
                let i = choose|i: int|
                    0 <= i < s.drop_last().len() && #[trigger] s.drop_last()[i].event_type@ == t;
                assert(s[i].event_type@ == t);
            }
        }
        if exists|i: int| 0 <= i < s.len() && #[trigger] s[i].event_type@ == t {
            let i = choose|i: int| 0 <= i < s.len() && #[trigger] s[i].event_type@ == t;
            if i == s.len() - 1 {
                if !p.contains(t) {
                    assert(spec_kind_keys(s).last() == t);
                }
            } else {
                assert(s.drop_last()[i].event_type@ == t);
                assert(p.contains(t));
                if p.contains(t) {
                    let j = choose|j: int| 0 <= j < p.len() && p[j] == t;
                    if spec_kind_keys(s) == p {
                    } else {
                        assert(spec_kind_keys(s)[j] == t);
                    }
                }
            }
        }
    }
}

proof fn lemma_kind_keys_distinct(s: Seq<AuditEvent>)
    ensures
        spec_kind_keys(s).no_duplicates(),
    decreases s.len(),
{
    if s.len() > 0 {
        lemma_kind_keys_distinct(s.drop_last());
        let p = spec_kind_keys(s.drop_last());
        let t = s.last().event_type@;
        if !p.contains(t) {
            assert forall|i: int, j: int|
                0 <= i < p.push(t).len() && 0 <= j < p.push(t).len() && i != j implies p.push(t)[i]
                != p.push(t)[j] by {
                if i < p.len() && j < p.len() {
                } else if i < p.len() {
                    assert(p[i] == p.push(t)[i]);
                } else if j < p.len() {
                    assert(p[j] == p.push(t)[j]);
                }
            }
        }
    }
}

proof fn lemma_occurrences_nodup(keys: Seq<Seq<char>>, t: Seq<char>)
    requires
        keys.no_duplicates(),
    ensures
        occurrences(keys, t) == if keys.contains(t) {
            1int
        } else {
            0int
        },
    decreases keys.len(),
{
    if keys.len() > 0 {
        let p = keys.drop_last();
        assert(p.no_duplicates()) by {
            assert(forall|i: int, j: int|
                0 <= i < p.len() && 0 <= j < p.len() && i != j ==> keys[i] == p[i] && keys[j]
                    == p[j]);
        }
        lemma_occurrences_nodup(p, t);
        if keys.last() == t {
            assert(!p.contains(t)) by {
                if p.contains(t) {
                    let j = choose|j: int| 0 <= j < p.len() && p[j] == t;
                    assert(keys[j] == keys[keys.len() - 1]);
                }
            }
            assert(keys.contains(t)) by {
                assert(keys[keys.len() - 1] == t);
            }
        } else {
            if keys.contains(t) {
                let j = choose|j: int| 0 <= j < keys.len() && keys[j] == t;
                assert(j < p.len());
                assert(p[j] == t);
                assert(p.contains(t));
            } else {
                if p.contains(t) {
                    let j = choose|j: int| 0 <= j < p.len() && p[j] == t;
                    assert(keys[j] == t);
                }
            }
        }
    }
}

proof fn lemma_count_kind_absent(s: Seq<AuditEvent>, t: Seq<char>)
    requires
        forall|i: int| 0 <= i < s.len() ==> #[trigger] s[i].event_type@ != t,
    ensures
        count_kind(s, t) == 0,
    decreases s.len(),
{
    reveal(Seq::filter);
    if s.len() > 0 {
        assert(forall|i: int|
            0 <= i < s.drop_last().len() ==> #[trigger] s.drop_last()[i].event_type@ != t);
        lemma_count_kind_absent(s.drop_last(), t);
        assert(s.last() == s[s.len() - 1]);
    }
}

/// Law: the counts grouped by kind cover the whole store; summed over
/// the distinct kinds, they equal the total event count.
pub proof fn lemma_kind_counts_total(events: Seq<AuditEvent>)
    ensures
        sum_kind_counts(events, spec_kind_keys(events)) == events.len(),
    decreases events.len(),
{
    if events.len() == 0 {
    } else {
        let s = events.drop_last();
        let e = events.last();
        let t = e.event_type@;
        lemma_kind_counts_total(s);
        let pk = spec_kind_keys(s);
        assert(s.push(e) =~= events);
        if pk.contains(t) {
            assert(spec_kind_keys(events) == pk);
            lemma_sum_counts_push(s, e, pk);
            lemma_kind_keys_distinct(s);
            lemma_occurrences_nodup(pk, t);
        } else {
            assert(spec_kind_keys(events) == pk.push(t));
            lemma_sum_counts_push(s, e, pk);
            lemma_kind_keys_distinct(s);
            lemma_occurrences_nodup(pk, t);
            assert(sum_kind_counts(events, pk.push(t)) == sum_kind_counts(events, pk)
                + count_kind(events, t)) by {
                assert(pk.push(t).drop_last() =~= pk);
            }
            assert(count_kind(s, t) == 0) by {
                lemma_kind_keys_contains(s, t);
                assert(forall|i: int| 0 <= i < s.len() ==> #[trigger] s[i].event_type@ != t);
                lemma_count_kind_absent(s, t);
            }
            lemma_count_kind_push(s, e, t);
        }
    }
}

/// Law: the grouped counts a stats query reports sum to its reported
/// total: each pair counts one distinct kind, and together they cover
/// every stored event.
pub proof fn lemma_stats_counts_cover(events: Seq<AuditEvent>, pairs: Seq<(String, u64)>)
    requires
        pairs.map_values(|p: (String, u64)| p.0@) == spec_kind_keys(events),
        forall|k: int|
            0 <= k < pairs.len() ==> #[trigger] pairs[k].1 as int == count_kind(
                events,
                pairs[k].0@,
            ),
    ensures
        sum_pair_counts(pairs) == events.len(),
    decreases pairs.len(),
{
    lemma_kind_counts_total(events);
    lemma_sum_pairs_eq(events, pairs, spec_kind_keys(events));
}

/// The summed counts of a stats result's pair list.
pub open spec fn sum_pair_counts(pairs: Seq<(String, u64)>) -> int
    decreases pairs.len(),
{
    if pairs.len() == 0 {
        0
    } else {
        sum_pair_counts(pairs.drop_last()) + pairs.last().1 as int
    }
}

proof fn lemma_sum_pairs_eq(events: Seq<AuditEvent>, pairs: Seq<(String, u64)>, keys: Seq<Seq<char>>)
    requires
        pairs.map_values(|p: (String, u64)| p.0@) == keys,
        forall|k: int|
            0 <= k < pairs.len() ==> #[trigger] pairs[k].1 as int == count_kind(
                events,
                pairs[k].0@,
            ),
    ensures
        sum_pair_counts(pairs) == sum_kind_counts(events, keys),
    decreases pairs.len(),
{
    assert(pairs.map_values(|p: (String, u64)| p.0@).len() == pairs.len());
    if pairs.len() > 0 {
        let p2 = pairs.drop_last();
        let k2 = keys.drop_last();
        let m2 = p2.map_values(|p: (String, u64)| p.0@);
        let mk = pairs.map_values(|p: (String, u64)| p.0@);
        assert(m2 =~= k2) by {
            assert forall|i: int| 0 <= i < m2.len() implies m2[i] == k2[i] by {
                assert(m2[i] == p2[i].0@);
                assert(p2[i] == pairs[i]);
                assert(mk[i] == pairs[i].0@);
                assert(k2[i] == keys[i]);
            }
        }
        lemma_sum_pairs_eq(events, p2, k2);
        assert(pairs.last().1 as int == count_kind(events, pairs.last().0@)) by {
            assert(pairs[pairs.len() - 1].1 as int == count_kind(
                events,
                pairs[pairs.len() - 1].0@,
            ));
        }
        assert(keys.last() == pairs.last().0@) by {
            assert(pairs.map_values(|p: (String, u64)| p.0@)[pairs.len() - 1] == pairs[pairs.len()
                - 1].0@);
        }
    }
}

} // verus!
