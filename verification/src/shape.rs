//! Shaping of worker output into audit records: the closed allow-list
//! of audited kinds, and the bounded, whitelisted payload each kind
//! stores.

use crate::audit::{
    insert_event, opt_str_view, spec_truncate_payload, truncate_payload, AuditEvent, AuditLog,
    MAX_EVENT_ID,
};
use crate::clock::{spec_digits, u64_to_dec};
use crate::json_text::{json_quote, json_quoted};
use crate::jsonval::{
    json_get_top_bool, json_get_top_i64, json_get_top_num, json_get_top_str, json_get_top_text,
    json_get_top_u64, json_is_doc, json_parses, json_to_text, json_top_bool, json_top_i64,
    json_top_num, json_top_str, json_top_text, json_top_u64,
};
use crate::text::str_eq;
use vstd::prelude::*;
use vstd::string::*;

verus! {

/// The closed set of audited worker event kinds; everything else is
/// relayed but never audited.
#[derive(Clone, Copy, Debug, PartialEq, Eq, Structural)]
pub enum EventKind {
    ToolUse,
    ToolResult,
    ApprovalRequest,
    Usage,
    ErrorEvent,
    Passthrough,
}

/// Which audited kind an event type names, if any.
pub open spec fn spec_classify(t: Seq<char>) -> EventKind {
    if t == "tool_use"@ {
        EventKind::ToolUse
    } else if t == "tool_result"@ {
        EventKind::ToolResult
    } else if t == "approval_request"@ {
        EventKind::ApprovalRequest
    } else if t == "usage"@ {
        EventKind::Usage
    } else if t == "error"@ {
        EventKind::ErrorEvent
    } else {
        EventKind::Passthrough
    }
}

/// Classify an event type against the allow-list.
pub fn classify_event(t: &str) -> (k: EventKind)
    ensures
        k == spec_classify(t@),
{
    if str_eq(t, "tool_use") {
        EventKind::ToolUse
    } else if str_eq(t, "tool_result") {
        EventKind::ToolResult
    } else if str_eq(t, "approval_request") {
        EventKind::ApprovalRequest
    } else if str_eq(t, "usage") {
        EventKind::Usage
    } else if str_eq(t, "error") {
        EventKind::ErrorEvent
    } else {
        EventKind::Passthrough
    }
}

/// The whitelisted fields one audited event stores, one variant per
/// audited kind plus the decision recorded on the send path.
#[derive(Debug)]
pub enum AuditPayload {
    ToolUse { args_json: String },
    ToolResult { output: String, error: Option<String> },
    ApprovalRequest { args_json: String, description: String },
    Usage { input_tokens: u64, output_tokens: u64, cost_json: String, model: String },
    ErrorEvent { message: String },
    Decision { decision: String },
}

/// The payload text stored for each shape: a JSON object holding only
/// the whitelisted fields, keys in sorted order, free-form text
/// quoted, and a tool result's output cut at the byte cap.
pub open spec fn spec_compose_payload(p: AuditPayload) -> Seq<char> {
    match p {
        AuditPayload::ToolUse { args_json } => "{\"args\":"@ + args_json@ + "}"@,
        AuditPayload::ToolResult { output, error } => match error {
            Some(e) => "{\"error\":"@ + json_quoted(e@) + ",\"output\":"@ + json_quoted(
                spec_truncate_payload(output@),
            ) + "}"@,
            None => "{\"output\":"@ + json_quoted(spec_truncate_payload(output@)) + "}"@,
        },
        AuditPayload::ApprovalRequest { args_json, description } => "{\"args\":"@ + args_json@
            + ",\"description\":"@ + json_quoted(description@) + "}"@,
        AuditPayload::Usage { input_tokens, output_tokens, cost_json, model } => "{\"cost\":"@
            + cost_json@ + ",\"inputTokens\":"@ + spec_digits(input_tokens as int) + ",\"model\":"@
            + json_quoted(model@) + ",\"outputTokens\":"@ + spec_digits(output_tokens as int)
            + "}"@,
        AuditPayload::ErrorEvent { message } => "{\"message\":"@ + json_quoted(message@) + "}"@,
        AuditPayload::Decision { decision } => "{\"decision\":"@ + json_quoted(decision@) + "}"@,
    }
}

/// The string member under a top-level key of a message, or a default
/// when the message carries none.
pub open spec fn top_str_or(s: Seq<char>, key: Seq<char>, dflt: Seq<char>) -> Seq<char> {
    match json_top_str(s, key) {
        Some(t) => t,
        None => dflt,
    }
}

/// Write one payload shape as its stored text.
pub fn compose_payload(p: &AuditPayload) -> (r: String)
    ensures
        r@ == spec_compose_payload(*p),
{
    match p {
        AuditPayload::ToolUse { args_json } => {
            let mut s = "{\"args\":".to_owned();
            s.append(args_json.as_str());
            s.append("}");
            proof {
                assert(s@ =~= spec_compose_payload(*p));
            }
            s
        },
        AuditPayload::ToolResult { output, error } => {
            let out = truncate_payload(output.as_str());
            let qout = json_quote(out.as_str());
            match error {
                Some(e) => {
                    let qe = json_quote(e.as_str());
                    let mut s = "{\"error\":".to_owned();
                    s.append(qe.as_str());
                    s.append(",\"output\":");
                    s.append(qout.as_str());
                    s.append("}");
                    proof {
                        assert(s@ =~= spec_compose_payload(*p));
                    }
                    s
                },
                None => {
                    let mut s = "{\"output\":".to_owned();
                    s.append(qout.as_str());
                    s.append("}");
                    proof {
                        assert(s@ =~= spec_compose_payload(*p));
                    }
                    s
                },
            }
        },
        AuditPayload::ApprovalRequest { args_json, description } => {
            let qd = json_quote(description.as_str());
            let mut s = "{\"args\":".to_owned();
            s.append(args_json.as_str());
            s.append(",\"description\":");
            s.append(qd.as_str());
            s.append("}");
            proof {
                assert(s@ =~= spec_compose_payload(*p));
            }
            s
        },
        AuditPayload::Usage { input_tokens, output_tokens, cost_json, model } => {
            let it = u64_to_dec(*input_tokens);
            let ot = u64_to_dec(*output_tokens);
            let qm = json_quote(model.as_str());
            let mut s = "{\"cost\":".to_owned();
            s.append(cost_json.as_str());
            s.append(",\"inputTokens\":");
            s.append(it.as_str());
            s.append(",\"model\":");
            s.append(qm.as_str());
            s.append(",\"outputTokens\":");
            s.append(ot.as_str());
            s.append("}");
            proof {
                assert(s@ =~= spec_compose_payload(*p));
            }
            s
        },
        AuditPayload::ErrorEvent { message } => {
            let qm = json_quote(message.as_str());
            let mut s = "{\"message\":".to_owned();
            s.append(qm.as_str());
            s.append("}");
            proof {
                assert(s@ =~= spec_compose_payload(*p));
            }
            s
        },
        AuditPayload::Decision { decision } => {
            let qd = json_quote(decision.as_str());
            let mut s = "{\"decision\":".to_owned();
            s.append(qd.as_str());
            s.append("}");
            proof {
                assert(s@ =~= spec_compose_payload(*p));
            }
            s
        },
    }
}

/// The compact member text under a top-level key of a line, or a
/// default when the line carries none.
pub open spec fn top_text_or(s: Seq<char>, key: Seq<char>, dflt: Seq<char>) -> Seq<char> {
    match json_top_text(s, key) {
        Some(t) => t,
        None => dflt,
    }
}

/// The numeric member's text under a top-level key of a line, or a
/// default when the line carries no number there.
pub open spec fn top_num_or(s: Seq<char>, key: Seq<char>, dflt: Seq<char>) -> Seq<char> {
    match json_top_num(s, key) {
        Some(t) => t,
        None => dflt,
    }
}

/// The unsigned member under a top-level key of a line, or a default.
pub open spec fn top_u64_or(s: Seq<char>, key: Seq<char>, dflt: u64) -> u64 {
    match json_top_u64(s, key) {
        Some(x) => x,
        None => dflt,
    }
}

/// The payload text stored for a line of the given audited event
/// type: the whitelisted members of that kind lifted from the line,
/// with the documented defaults where a member is absent.
pub open spec fn spec_line_payload(line: Seq<char>, t: Seq<char>) -> Seq<char> {
    match spec_classify(t) {
        EventKind::ToolUse => "{\"args\":"@ + top_text_or(line, "args"@, "null"@) + "}"@,
        EventKind::ToolResult => {
            let out = spec_truncate_payload(top_str_or(line, "output"@, Seq::<char>::empty()));
            match json_top_str(line, "error"@) {
                Some(e) => "{\"error\":"@ + json_quoted(e) + ",\"output\":"@ + json_quoted(out)
                    + "}"@,
                None => "{\"output\":"@ + json_quoted(out) + "}"@,
            }
        },
        EventKind::ApprovalRequest => "{\"args\":"@ + top_text_or(line, "args"@, "null"@)
            + ",\"description\":"@ + json_quoted(
            top_str_or(line, "description"@, Seq::<char>::empty()),
        ) + "}"@,
        EventKind::Usage => "{\"cost\":"@ + top_num_or(line, "cost"@, "0.0"@)
            + ",\"inputTokens\":"@ + spec_digits(top_u64_or(line, "inputTokens"@, 0) as int)
            + ",\"model\":"@ + json_quoted(top_str_or(line, "model"@, Seq::<char>::empty()))
            + ",\"outputTokens\":"@ + spec_digits(top_u64_or(line, "outputTokens"@, 0) as int)
            + "}"@,
        EventKind::ErrorEvent => "{\"message\":"@ + json_quoted(
            top_str_or(line, "message"@, Seq::<char>::empty()),
        ) + "}"@,
        EventKind::Passthrough => Seq::<char>::empty(),
    }
}

/// Shape the payload stored for a worker line of the given event
/// type: the whitelisted members of its kind, absent exactly for an
/// unaudited kind.
pub fn build_payload(event_type: &str, line: &str) -> (r: Option<String>)
    ensures
        r is None <==> spec_classify(event_type@) is Passthrough,
        r matches Some(p) ==> p@ == spec_line_payload(line@, event_type@),
{
    let kind = classify_event(event_type);
    proof {
        reveal_strlit("");
        assert(""@ =~= Seq::<char>::empty());
    }
    let shape: AuditPayload = match kind {
        EventKind::ToolUse => {
            let args_json = match json_get_top_text(line, "args") {
                Some(t) => t,
                None => "null".to_owned(),
            };
            proof {
                assert(args_json@ == top_text_or(line@, "args"@, "null"@));
            }
            AuditPayload::ToolUse { args_json }
        },
        EventKind::ToolResult => {
            let output = match json_get_top_str(line, "output") {
                Some(t) => t,
                None => "".to_owned(),
            };
            let error = json_get_top_str(line, "error");
            proof {
                assert(output@ == top_str_or(line@, "output"@, Seq::<char>::empty()));
            }
            AuditPayload::ToolResult { output, error }
        },
        EventKind::ApprovalRequest => {
            let args_json = match json_get_top_text(line, "args") {
                Some(t) => t,
                None => "null".to_owned(),
            };
            let description = match json_get_top_str(line, "description") {
                Some(t) => t,
                None => "".to_owned(),
            };
            proof {
                assert(args_json@ == top_text_or(line@, "args"@, "null"@));
                assert(description@ == top_str_or(line@, "description"@, Seq::<char>::empty()));
            }
            AuditPayload::ApprovalRequest { args_json, description }
        },
        EventKind::Usage => {
            let input_tokens = match json_get_top_u64(line, "inputTokens") {
                Some(n) => n,
                None => 0,
            };
            let output_tokens = match json_get_top_u64(line, "outputTokens") {
                Some(n) => n,
                None => 0,
            };
            let cost_json = match json_get_top_num(line, "cost") {
                Some(t) => t,
                None => "0.0".to_owned(),
            };
            let model = match json_get_top_str(line, "model") {
                Some(t) => t,
                None => "".to_owned(),
            };
            proof {
                assert(cost_json@ == top_num_or(line@, "cost"@, "0.0"@));
                assert(model@ == top_str_or(line@, "model"@, Seq::<char>::empty()));
            }
            AuditPayload::Usage { input_tokens, output_tokens, cost_json, model }
        },
        EventKind::ErrorEvent => {
            let message = match json_get_top_str(line, "message") {
                Some(t) => t,
                None => "".to_owned(),
            };
            proof {
                assert(message@ == top_str_or(line@, "message"@, Seq::<char>::empty()));
            }
            AuditPayload::ErrorEvent { message }
        },
        EventKind::Passthrough => {
            return None;
        },
    };
    let text = compose_payload(&shape);
    proof {
        assert(text@ == spec_line_payload(line@, event_type@));
    }
    Some(text)
}

fn opt_as_deref(o: &Option<String>) -> (r: Option<&str>)
    ensures
        crate::audit::opt_view(r) == crate::audit::opt_str_view(*o),
{
    match o {
        Some(s) => Some(s.as_str()),
        None => None,
    }
}

/// The shape every audited event lifted from a worker line has: the
/// line's type member is its kind, its fields are the line's members
/// with the documented defaults, and its payload is the composed text
/// of its kind.
pub open spec fn audited_event_shape(e: AuditEvent, line: Seq<char>) -> bool {
    &&& json_top_str(line, "type"@) == Some(e.event_type@)
    &&& !(spec_classify(e.event_type@) is Passthrough)
    &&& e.request_id@ == top_str_or(line, "requestId"@, Seq::<char>::empty())
    &&& opt_str_view(e.tool_name) == json_top_str(line, "toolName"@)
    &&& opt_str_view(e.tool_call_id) == json_top_str(line, "toolCallId"@)
    &&& (e.tier is Some <==> json_top_i64(line, "tier"@) is Some)
    &&& (match json_top_i64(line, "tier"@) {
        Some(x) => i32::MIN <= x <= i32::MAX ==> e.tier == Some(x as i32),
        None => true,
    })
    &&& e.success == json_top_bool(line, "success"@)
    &&& match e.payload {
        Some(p) => p@ == spec_line_payload(line, e.event_type@),
        None => false,
    }
}

/// Admit one worker line to the audit trail: the store grows by one
/// exactly when the line's top-level `type` member names an audited
/// kind (and an identifier remains), and the appended event lifts the
/// line's members as [`audited_event_shape`] states. Returns whether
/// the line is one well-formed JSON document; the relay forwards
/// exactly those. Insertion failure is absorbed: the store is then
/// left unchanged.
pub fn log_worker_line(log: &mut AuditLog, line: &str) -> (relayed: bool)
    requires
        old(log).wf(),
    ensures
        final(log).wf(),
        relayed == json_is_doc(line@),
        old(log)@.len() <= final(log)@.len() <= old(log)@.len() + 1,
        final(log)@.len() == old(log)@.len() + 1 <==> ((match json_top_str(line@, "type"@) {
            Some(t) => !(spec_classify(t) is Passthrough),
            None => false,
        }) && old(log)@.len() < MAX_EVENT_ID),
        final(log)@.len() == old(log)@.len() ==> final(log)@ == old(log)@,
        final(log)@.len() == old(log)@.len() + 1 ==> {
            &&& final(log)@ == old(log)@.push(final(log)@.last())
            &&& final(log)@.last().id == old(log)@.len() + 1
            &&& audited_event_shape(final(log)@.last(), line@)
        },
{
    let relayed = json_parses(line);
    let et = match json_get_top_str(line, "type") {
        Some(t) => t,
        None => {
            return relayed;
        },
    };
    let kind = classify_event(et.as_str());
    if kind == EventKind::Passthrough {
        return relayed;
    }
    let request_id = match json_get_top_str(line, "requestId") {
        Some(s) => s,
        None => "".to_owned(),
    };
    let tool_name = json_get_top_str(line, "toolName");
    let tool_call_id = json_get_top_str(line, "toolCallId");
    let tier: Option<i32> = match json_get_top_i64(line, "tier") {
        Some(x) => Some(#[verifier::truncate] (x as i32)),
        None => None,
    };
    let success = json_get_top_bool(line, "success");
    let payload = build_payload(et.as_str(), line);
    proof {
        reveal_strlit("");
        assert(""@ =~= Seq::<char>::empty());
        assert(request_id@ == top_str_or(line@, "requestId"@, Seq::<char>::empty()));
    }
    let r = insert_event(
        log,
        request_id.as_str(),
        et.as_str(),
        opt_as_deref(&tool_name),
        opt_as_deref(&tool_call_id),
        tier,
        success,
        opt_as_deref(&payload),
    );
    proof {
        if r is Ok {
            assert(payload is Some);
            assert(audited_event_shape(log@.last(), line@));
        }
    }
    relayed
}

/// Record one worker chunk in the audit store if its kind is audited;
/// an unaudited chunk, or one without a string `type`, leaves the
/// store untouched. The chunk is rendered back to text and admitted
/// through [`log_worker_line`], so every appended event has the
/// audited shape of that text. Insertion failure is absorbed: the
/// store is then left unchanged.
pub fn maybe_log_event(log: &mut AuditLog, chunk: &serde_json::Value)
    requires
        old(log).wf(),
    ensures
        final(log).wf(),
        old(log)@.len() <= final(log)@.len() <= old(log)@.len() + 1,
        final(log)@.len() == old(log)@.len() ==> final(log)@ == old(log)@,
        final(log)@.len() == old(log)@.len() + 1 ==> {
            &&& final(log)@ == old(log)@.push(final(log)@.last())
            &&& final(log)@.last().id == old(log)@.len() + 1
            &&& !(spec_classify(final(log)@.last().event_type@) is Passthrough)
            &&& exists|l: Seq<char>| audited_event_shape(final(log)@.last(), l)
        },
{
    let text = json_to_text(chunk);
    let ghost tv = text@;
    let _ = log_worker_line(log, text.as_str());
    proof {
        if log@.len() == old(log)@.len() + 1 {
            assert(audited_event_shape(log@.last(), tv));
        }
    }
}


/// Record the decision of an outbound approval response before it is
/// written to the worker: the store grows by one exactly when the
/// message's top-level `type` member is the string
/// `approval_response` (and the identifier space is not exhausted),
/// and the appended event carries the message's request id, tool
/// name, tool-call id and decision. Any other message leaves the
/// store untouched.
pub fn audit_outbound_message(log: &mut AuditLog, message: &str)
    requires
        old(log).wf(),
    ensures
        final(log).wf(),
        old(log)@.len() <= final(log)@.len() <= old(log)@.len() + 1,
        final(log)@.len() == old(log)@.len() + 1 <==> (json_top_str(message@, "type"@) == Some(
            "approval_response"@,
        ) && old(log)@.len() < MAX_EVENT_ID),
        final(log)@.len() == old(log)@.len() ==> final(log)@ == old(log)@,
        final(log)@.len() == old(log)@.len() + 1 ==> {
            &&& final(log)@ == old(log)@.push(final(log)@.last())
            &&& final(log)@.last().id == old(log)@.len() + 1
            &&& final(log)@.last().event_type@ == "approval_decision"@
            &&& final(log)@.last().request_id@ == top_str_or(
                message@,
                "requestId"@,
                Seq::<char>::empty(),
            )
            &&& opt_str_view(final(log)@.last().tool_name) == json_top_str(message@, "toolName"@)
            &&& opt_str_view(final(log)@.last().tool_call_id) == json_top_str(
                message@,
                "toolCallId"@,
            )
            &&& final(log)@.last().tier is None
            &&& final(log)@.last().success is None
            &&& match final(log)@.last().payload {
                Some(p) => p@ == "{\"decision\":"@ + json_quoted(
                    top_str_or(message@, "decision"@, Seq::<char>::empty()),
                ) + "}"@,
                None => false,
            }
        },
{
    let mt = json_get_top_str(message, "type");
    let is_resp = match &mt {
        Some(t) => str_eq(t.as_str(), "approval_response"),
        None => false,
    };
    if !is_resp {
        return ;
    }
    let request_id = match json_get_top_str(message, "requestId") {
        Some(s) => s,
        None => "".to_owned(),
    };
    let tool_name = json_get_top_str(message, "toolName");
    let tool_call_id = json_get_top_str(message, "toolCallId");
    let decision = match json_get_top_str(message, "decision") {
        Some(s) => s,
        None => "".to_owned(),
    };
    proof {
        reveal_strlit("");
        assert(""@ =~= Seq::<char>::empty());
        assert(request_id@ == top_str_or(message@, "requestId"@, Seq::<char>::empty()));
        assert(decision@ == top_str_or(message@, "decision"@, Seq::<char>::empty()));
    }
    let ghost dv = decision@;
    let payload = compose_payload(&AuditPayload::Decision { decision });
    proof {
        assert(payload@ == "{\"decision\":"@ + json_quoted(dv) + "}"@);
    }
    let _ = insert_event(
        log,
        request_id.as_str(),
        "approval_decision",
        opt_as_deref(&tool_name),
        opt_as_deref(&tool_call_id),
        None,
        None,
        Some(payload.as_str()),
    );
}

} // verus!
