//! The supervisor's single-restart send cycle and the gateway warmup
//! machine, walked through their scenarios.

use naia_shell::gateway::{
    best_node_version, gateway_install_hint, gateway_step, node_major_version,
    node_version_supported, openclaw_binary_path, openclaw_config_path, GatewayEvent,
    GatewayPhase, MAX_GATEWAY_POLLS,
};
use naia_shell::supervisor::{cancel_stream_message, line_relayed, send_step, SendEvent, SendPhase};

#[test]
fn send_delivers_when_worker_alive() {
    let mut p = SendPhase::CheckWorker;
    p = send_step(p, SendEvent::WorkerPresent(true));
    assert_eq!(p, SendPhase::ProbeLiveness);
    p = send_step(p, SendEvent::WorkerExited(false));
    assert_eq!(p, SendPhase::WriteMessage);
    p = send_step(p, SendEvent::WriteOutcome(true));
    assert_eq!(p, SendPhase::Done);
}

#[test]
fn killed_worker_triggers_exactly_one_respawn() {
    // worker found dead: one respawn, settle, resend, delivered
    let mut p = SendPhase::CheckWorker;
    let mut spawns = 0;
    p = send_step(p, SendEvent::WorkerPresent(true));
    p = send_step(p, SendEvent::WorkerExited(true));
    if p == SendPhase::SpawnReplacement {
        spawns += 1;
    }
    assert_eq!(p, SendPhase::SpawnReplacement);
    p = send_step(p, SendEvent::SpawnOutcome(true));
    assert_eq!(p, SendPhase::SettleDelay);
    p = send_step(p, SendEvent::Settled);
    assert_eq!(p, SendPhase::ResendMessage);
    p = send_step(p, SendEvent::ResendOutcome(true));
    assert_eq!(p, SendPhase::Done);
    assert_eq!(spawns, 1);
}

#[test]
fn failed_respawn_fails_send_without_retry() {
    let mut p = SendPhase::CheckWorker;
    p = send_step(p, SendEvent::WorkerPresent(true));
    p = send_step(p, SendEvent::WorkerExited(true));
    p = send_step(p, SendEvent::SpawnOutcome(false));
    assert_eq!(p, SendPhase::Failed);
    // terminal: nothing moves it again
    for e in [
        SendEvent::WorkerPresent(true),
        SendEvent::SpawnOutcome(true),
        SendEvent::WriteOutcome(true),
    ] {
        assert_eq!(send_step(SendPhase::Failed, e), SendPhase::Failed);
    }
}

#[test]
fn failed_resend_fails_send() {
    let mut p = SendPhase::SpawnReplacement;
    p = send_step(p, SendEvent::SpawnOutcome(true));
    p = send_step(p, SendEvent::Settled);
    p = send_step(p, SendEvent::ResendOutcome(false));
    assert_eq!(p, SendPhase::Failed);
}

#[test]
fn write_failure_routes_through_respawn() {
    let mut p = SendPhase::CheckWorker;
    p = send_step(p, SendEvent::WorkerPresent(true));
    p = send_step(p, SendEvent::WorkerExited(false));
    p = send_step(p, SendEvent::WriteOutcome(false));
    assert_eq!(p, SendPhase::SpawnReplacement);
}

#[test]
fn cancel_request_formats_correctly() {
    let request_id = "req-123";
    let s = cancel_stream_message(request_id);
    assert!(s.contains("cancel_stream"));
    assert!(s.contains("req-123"));
}

#[test]
fn cancel_message_exact_text() {
    assert_eq!(
        cancel_stream_message("req-1"),
        r#"{"requestId":"req-1","type":"cancel_stream"}"#
    );
}

#[test]
fn gateway_reachable_attaches_without_spawn() {
    let p = gateway_step(GatewayPhase::ProbeExisting, GatewayEvent::Reachable(true));
    assert_eq!(p, GatewayPhase::Attached);
}

#[test]
fn gateway_spawns_once_and_polls_bounded() {
    let mut p = GatewayPhase::ProbeExisting;
    p = gateway_step(p, GatewayEvent::Reachable(false));
    assert_eq!(p, GatewayPhase::ResolveRuntime);
    p = gateway_step(p, GatewayEvent::RuntimeFound(true));
    assert_eq!(p, GatewayPhase::LocateCompanion);
    p = gateway_step(p, GatewayEvent::CompanionFound(true));
    assert_eq!(p, GatewayPhase::SpawnGateway);
    p = gateway_step(p, GatewayEvent::SpawnOutcome(true));

    // every poll fails: the warmup still ends started, after at most
    // the fixed number of polls
    let mut polls = 0;
    while let GatewayPhase::Poll { .. } = p {
        polls += 1;
        p = gateway_step(p, GatewayEvent::PollResult(false));
        assert!(polls <= MAX_GATEWAY_POLLS);
    }
    assert_eq!(p, GatewayPhase::Started);
    assert_eq!(polls, MAX_GATEWAY_POLLS);
}

#[test]
fn gateway_poll_success_ends_early() {
    let mut p = gateway_step(GatewayPhase::SpawnGateway, GatewayEvent::SpawnOutcome(true));
    p = gateway_step(p, GatewayEvent::PollResult(false));
    p = gateway_step(p, GatewayEvent::PollResult(true));
    assert_eq!(p, GatewayPhase::Started);
}

#[test]
fn gateway_missing_companion_is_unavailable() {
    let p = gateway_step(GatewayPhase::LocateCompanion, GatewayEvent::CompanionFound(false));
    assert_eq!(p, GatewayPhase::Unavailable);
    let p = gateway_step(GatewayPhase::ResolveRuntime, GatewayEvent::RuntimeFound(false));
    assert_eq!(p, GatewayPhase::Unavailable);
    let p = gateway_step(GatewayPhase::SpawnGateway, GatewayEvent::SpawnOutcome(false));
    assert_eq!(p, GatewayPhase::Unavailable);
}

#[test]
fn node_version_parsing() {
    assert_eq!(node_major_version("v22.3.0\n"), Some(22));
    assert_eq!(node_major_version("22.3.0"), Some(22));
    assert_eq!(node_major_version("  v24.0.1  "), Some(24));
    assert_eq!(node_major_version("v9"), Some(9));
    assert_eq!(node_major_version(""), None);
    assert_eq!(node_major_version("v"), None);
    assert_eq!(node_major_version("abc"), None);
    assert_eq!(node_major_version("v1x.2"), None);
    assert_eq!(node_major_version("v99999999999999999999.1"), None);
}

#[test]
fn node_version_gate() {
    assert!(node_version_supported("v22.0.0"));
    assert!(node_version_supported("v23.1.0\n"));
    assert!(!node_version_supported("v21.9.0"));
    assert!(!node_version_supported("v9.0.0"));
    assert!(!node_version_supported("junk"));
}

#[test]
fn companion_paths_derived_from_home() {
    assert_eq!(
        openclaw_binary_path("/home/u"),
        "/home/u/.cafelua/openclaw/node_modules/.bin/openclaw"
    );
    assert_eq!(
        openclaw_config_path("/home/u"),
        "/home/u/.cafelua/openclaw/openclaw.json"
    );
}

#[test]
fn install_hint_names_path_and_step() {
    let hint = gateway_install_hint("/home/u/.cafelua/openclaw/node_modules/.bin/openclaw");
    assert!(hint.contains("/home/u/.cafelua/openclaw/node_modules/.bin/openclaw"));
    assert!(hint.contains("setup-openclaw.sh"));
}

#[test]
fn relay_skips_blank_and_non_object_lines() {
    assert!(!line_relayed(""));
    assert!(!line_relayed("ready"));
    assert!(!line_relayed("[1,2]"));
    assert!(line_relayed("{\"type\":\"text\"}"));
    assert!(!line_relayed("\u{ac00}json"));
}

#[test]
fn best_node_version_picks_highest_supported() {
    let names: Vec<String> = ["v20.1.0", "v24.0.1", "v22.3.0", "junk"]
        .iter()
        .map(|s| s.to_string())
        .collect();
    let i = best_node_version(&names).unwrap();
    assert_eq!(names[i], "v24.0.1");

    let too_old: Vec<String> = ["v20.1.0", "v18.0.0"].iter().map(|s| s.to_string()).collect();
    assert!(best_node_version(&too_old).is_none());
    assert!(best_node_version(&Vec::new()).is_none());
}
