use node_agent::command::{passthrough_reply, systemctl_outcome, CommandResult};
use node_agent::handlers::{
    action_arg, command_failure_message, failure_message, interfaces_reply, memory_failure_message,
    service_reply, spawn_failure_message, success_message, telemetry_success_message,
    ServiceAction, TelemetryEndpoint,
};

fn result(ok: bool, stdout: &[u8], stderr: &[u8]) -> CommandResult {
    CommandResult {
        exit_succeeded: ok,
        stdout: stdout.to_vec(),
        stderr: stderr.to_vec(),
    }
}

#[test]
fn status_success_carries_trimmed_stdout() {
    let r = result(true, b"  active (running)\n", b"");
    assert_eq!(systemctl_outcome(&r), Ok(b"active (running)".to_vec()));
}

#[test]
fn status_success_with_blank_stdout_is_empty() {
    let r = result(true, b"  \n\t\n", b"");
    assert_eq!(systemctl_outcome(&r), Ok(b"".to_vec()));
}

#[test]
fn status_failure_carries_stderr() {
    let r = result(false, b"", b"unit not found\n");
    match systemctl_outcome(&r) {
        Err(e) => assert_eq!(e, b"unit not found\n".to_vec()),
        _ => panic!("expected Err"),
    }
}

#[test]
fn service_status_reply_populates_status_on_zero_exit() {
    let r = result(true, b"active\n", b"");
    let reply = service_reply(ServiceAction::Status, &r);
    assert!(reply.ok);
    assert_eq!(reply.message, "NGINX status fetched successfully");
    assert_eq!(reply.status, Some(b"active".to_vec()));
    assert_eq!(reply.error, None);
}

#[test]
fn service_status_reply_carries_empty_status_on_zero_exit_with_blank_output() {
    let r = result(true, b"   \n", b"");
    let reply = service_reply(ServiceAction::Status, &r);
    assert!(reply.ok);
    assert_eq!(reply.status, Some(b"".to_vec()));
    assert_eq!(reply.error, None);
}

#[test]
fn service_status_reply_populates_error_on_nonzero_exit() {
    let r = result(false, b"", b"boom");
    let reply = service_reply(ServiceAction::Status, &r);
    assert!(!reply.ok);
    assert_eq!(reply.message, "Failed to fetch NGINX status");
    assert_eq!(reply.status, None);
    assert_eq!(reply.error, Some(b"boom".to_vec()));
}

#[test]
fn start_reply_messages() {
    let ok = service_reply(ServiceAction::Start, &result(true, b"", b""));
    assert_eq!(ok.message, "Successfully started NGINX");
    let failed = service_reply(ServiceAction::Start, &result(false, b"", b"no"));
    assert_eq!(failed.message, "Failed to start NGINX");
}

#[test]
fn action_words_match_the_service_manager() {
    assert_eq!(action_arg(ServiceAction::Start), "start");
    assert_eq!(action_arg(ServiceAction::Stop), "stop");
    assert_eq!(action_arg(ServiceAction::Reload), "reload");
    assert_eq!(action_arg(ServiceAction::Restart), "restart");
    assert_eq!(action_arg(ServiceAction::Status), "status");
}

#[test]
fn every_action_has_both_messages() {
    for a in [
        ServiceAction::Start,
        ServiceAction::Stop,
        ServiceAction::Reload,
        ServiceAction::Restart,
        ServiceAction::Status,
    ] {
        assert!(success_message(a).len() > 0);
        assert!(failure_message(a).len() > 0);
    }
}

#[test]
fn telemetry_wordings_are_pinned() {
    assert_eq!(
        telemetry_success_message(TelemetryEndpoint::MemoryInfo),
        "Memory information fetched successfully"
    );
    assert_eq!(
        telemetry_success_message(TelemetryEndpoint::MemoryUsage),
        "Memory usage information fetched successfully"
    );
    assert_eq!(
        telemetry_success_message(TelemetryEndpoint::CpuInfo),
        "CPU information fetched successfully"
    );
    assert_eq!(
        telemetry_success_message(TelemetryEndpoint::CpuUsage),
        "CPU usage information fetched successfully"
    );
    assert_eq!(
        telemetry_success_message(TelemetryEndpoint::Interfaces),
        "Interfaces fetched successfully"
    );
    assert_eq!(
        telemetry_success_message(TelemetryEndpoint::NetworkStats),
        "Network stats fetched successfully"
    );
    assert_eq!(
        telemetry_success_message(TelemetryEndpoint::Traceroute),
        "Traceroute completed successfully"
    );
    assert_eq!(
        telemetry_success_message(TelemetryEndpoint::Speedtest),
        "Speedtest completed successfully"
    );
    assert_eq!(spawn_failure_message(), "Failed to execute");
    assert_eq!(command_failure_message(), "Command failed");
    assert_eq!(memory_failure_message(), "Failed to fetch memory information");
}

#[test]
fn passthrough_success_returns_raw_stdout() {
    let r = result(true, b"hop 1\nhop 2\n", b"");
    assert_eq!(passthrough_reply(&r), Ok(b"hop 1\nhop 2\n".to_vec()));
}

#[test]
fn passthrough_failure_returns_stderr() {
    let r = result(false, b"partial", b"network unreachable");
    assert_eq!(passthrough_reply(&r), Err(b"network unreachable".to_vec()));
}

#[test]
fn interfaces_reply_parses_on_success() {
    let r = result(true, b"1: lo: <LOOPBACK>\n    inet 127.0.0.1/8\n", b"");
    match interfaces_reply(&r) {
        Ok(v) => {
            assert_eq!(v.len(), 1);
            assert_eq!(v[0].name, b"lo".to_vec());
        }
        Err(_) => panic!("expected parsed interfaces"),
    }
}

#[test]
fn interfaces_reply_propagates_stderr_on_failure() {
    let r = result(false, b"", b"ip: not found");
    match interfaces_reply(&r) {
        Err(e) => assert_eq!(e, b"ip: not found".to_vec()),
        Ok(_) => panic!("expected Err"),
    }
}
