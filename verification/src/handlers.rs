//! Handler orchestration: the decisions each endpoint makes once its input
//! (a command result or pseudo-file content) is in hand.

use vstd::prelude::*;
use crate::command::CommandResult;
use crate::ifaces::{interface_records, parse_interfaces, NetworkInterface};
use crate::text::{bytes_copy, trim_spec};

verus! {

/// The service-control actions the agent can ask of the managed service.
#[derive(Clone, Copy, PartialEq, Eq, Structural)]
pub enum ServiceAction {
    Start,
    Stop,
    Reload,
    Restart,
    Status,
}

/// The argument word the service manager is invoked with.
pub open spec fn action_arg_spec(a: ServiceAction) -> Seq<char> {
    match a {
        ServiceAction::Start => "start"@,
        ServiceAction::Stop => "stop"@,
        ServiceAction::Reload => "reload"@,
        ServiceAction::Restart => "restart"@,
        ServiceAction::Status => "status"@,
    }
}

/// The argument word an action passes to the service manager.
pub fn action_arg(a: ServiceAction) -> (r: &'static str)
    ensures
        r@ == action_arg_spec(a),
{
    match a {
        ServiceAction::Start => "start",
        ServiceAction::Stop => "stop",
        ServiceAction::Reload => "reload",
        ServiceAction::Restart => "restart",
        ServiceAction::Status => "status",
    }
}

/// The message a successful action is reported with.
pub open spec fn success_message_spec(a: ServiceAction) -> Seq<char> {
    match a {
        ServiceAction::Start => "Successfully started NGINX"@,
        ServiceAction::Stop => "Successfully stopped NGINX"@,
        ServiceAction::Reload => "Successfully reloaded NGINX"@,
        ServiceAction::Restart => "Successfully restarted NGINX"@,
        ServiceAction::Status => "NGINX status fetched successfully"@,
    }
}

/// The message a failed action is reported with.
pub open spec fn failure_message_spec(a: ServiceAction) -> Seq<char> {
    match a {
        ServiceAction::Start => "Failed to start NGINX"@,
        ServiceAction::Stop => "Failed to stop NGINX"@,
        ServiceAction::Reload => "Failed to reload NGINX"@,
        ServiceAction::Restart => "Failed to restart NGINX"@,
        ServiceAction::Status => "Failed to fetch NGINX status"@,
    }
}

/// The response a service-control endpoint sends: whether the action
/// succeeded, the message reporting it, the trimmed command output on
/// success, and the captured standard error on failure.
pub struct ServiceReply {
    pub ok: bool,
    pub message: &'static str,
    pub status: Option<Vec<u8>>,
    pub error: Option<Vec<u8>>,
}

/// Builds the response of a service-control endpoint from the finished
/// invocation: on success the action's success message with the trimmed
/// standard output attached, also when that output is empty; on failure the
/// action's failure message with the captured standard error.
pub fn service_reply(a: ServiceAction, result: &CommandResult) -> (r: ServiceReply)
    ensures
        r.ok == result@.exit_succeeded,
        result@.exit_succeeded ==> r.message@ == success_message_spec(a) && r.error is None && (
        r.status matches Some(s) && s@ == trim_spec(result@.stdout)),
        !result@.exit_succeeded ==> r.message@ == failure_message_spec(a) && r.status is None && (
        r.error matches Some(e) && e@ == result@.stderr),
{
    match crate::command::systemctl_outcome(result) {
        Ok(out) => ServiceReply {
            ok: true,
            message: success_message(a),
            status: Some(out),
            error: None,
        },
        Err(e) => ServiceReply {
            ok: false,
            message: failure_message(a),
            status: None,
            error: Some(e),
        },
    }
}

/// The message a successful action is reported with.
pub fn success_message(a: ServiceAction) -> (r: &'static str)
    ensures
        r@ == success_message_spec(a),
{
    match a {
        ServiceAction::Start => "Successfully started NGINX",
        ServiceAction::Stop => "Successfully stopped NGINX",
        ServiceAction::Reload => "Successfully reloaded NGINX",
        ServiceAction::Restart => "Successfully restarted NGINX",
        ServiceAction::Status => "NGINX status fetched successfully",
    }
}

/// The message a failed action is reported with.
pub fn failure_message(a: ServiceAction) -> (r: &'static str)
    ensures
        r@ == failure_message_spec(a),
{
    match a {
        ServiceAction::Start => "Failed to start NGINX",
        ServiceAction::Stop => "Failed to stop NGINX",
        ServiceAction::Reload => "Failed to reload NGINX",
        ServiceAction::Restart => "Failed to restart NGINX",
        ServiceAction::Status => "Failed to fetch NGINX status",
    }
}

/// The telemetry and diagnostic endpoints whose response wording is fixed.
#[derive(Clone, Copy, PartialEq, Eq, Structural)]
pub enum TelemetryEndpoint {
    MemoryInfo,
    MemoryUsage,
    CpuInfo,
    CpuUsage,
    Interfaces,
    NetworkStats,
    Traceroute,
    Speedtest,
}

/// The message a telemetry endpoint reports success with.
pub open spec fn telemetry_success_message_spec(e: TelemetryEndpoint) -> Seq<char> {
    match e {
        TelemetryEndpoint::MemoryInfo => "Memory information fetched successfully"@,
        TelemetryEndpoint::MemoryUsage => "Memory usage information fetched successfully"@,
        TelemetryEndpoint::CpuInfo => "CPU information fetched successfully"@,
        TelemetryEndpoint::CpuUsage => "CPU usage information fetched successfully"@,
        TelemetryEndpoint::Interfaces => "Interfaces fetched successfully"@,
        TelemetryEndpoint::NetworkStats => "Network stats fetched successfully"@,
        TelemetryEndpoint::Traceroute => "Traceroute completed successfully"@,
        TelemetryEndpoint::Speedtest => "Speedtest completed successfully"@,
    }
}

/// The message a telemetry endpoint reports success with.
pub fn telemetry_success_message(e: TelemetryEndpoint) -> (r: &'static str)
    ensures
        r@ == telemetry_success_message_spec(e),
{
    match e {
        TelemetryEndpoint::MemoryInfo => "Memory information fetched successfully",
        TelemetryEndpoint::MemoryUsage => "Memory usage information fetched successfully",
        TelemetryEndpoint::CpuInfo => "CPU information fetched successfully",
        TelemetryEndpoint::CpuUsage => "CPU usage information fetched successfully",
        TelemetryEndpoint::Interfaces => "Interfaces fetched successfully",
        TelemetryEndpoint::NetworkStats => "Network stats fetched successfully",
        TelemetryEndpoint::Traceroute => "Traceroute completed successfully",
        TelemetryEndpoint::Speedtest => "Speedtest completed successfully",
    }
}

/// The message of a response whose command could not be started, and of a
/// pseudo-file that could not be read.
pub open spec fn spawn_failure_message_spec() -> Seq<char> {
    "Failed to execute"@
}

/// The message of a response whose command could not be started.
pub fn spawn_failure_message() -> (r: &'static str)
    ensures
        r@ == spawn_failure_message_spec(),
{
    "Failed to execute"
}

/// The message of a response whose command started but exited non-zero.
pub open spec fn command_failure_message_spec() -> Seq<char> {
    "Command failed"@
}

/// The message of a response whose command started but exited non-zero.
pub fn command_failure_message() -> (r: &'static str)
    ensures
        r@ == command_failure_message_spec(),
{
    "Command failed"
}

/// The message of a failed firmware memory report.
pub open spec fn memory_failure_message_spec() -> Seq<char> {
    "Failed to fetch memory information"@
}

/// The message of a failed firmware memory report.
pub fn memory_failure_message() -> (r: &'static str)
    ensures
        r@ == memory_failure_message_spec(),
{
    "Failed to fetch memory information"
}

/// Builds the response of the interface-listing endpoint from the finished
/// invocation: on success the parsed interface records, on failure the
/// captured standard error.
pub fn interfaces_reply(result: &CommandResult) -> (r: Result<Vec<NetworkInterface>, Vec<u8>>)
    ensures
        result@.exit_succeeded ==> (r matches Ok(v) && v@.len() == interface_records(
            result@.stdout,
        ).len() && (forall|k: int|
            0 <= k < v@.len() ==> v@[k]@ == interface_records(result@.stdout)[k])),
        !result@.exit_succeeded ==> (r matches Err(e) && e@ == result@.stderr),
{
    if result.exit_succeeded {
        Ok(parse_interfaces(result.stdout.as_slice()))
    } else {
        Err(bytes_copy(result.stderr.as_slice()))
    }
}

/// The arguments a passthrough endpoint forwards: the body's `args` entries
/// that are strings, in order; entries of any other kind are dropped.
pub open spec fn passthrough_args_spec(items: Seq<Option<Seq<u8>>>) -> Seq<Seq<u8>>
    decreases items.len(),
{
    if items.len() == 0 {
        Seq::empty()
    } else {
        let rest = passthrough_args_spec(items.drop_first());
        match items[0] {
            Some(s) => seq![s] + rest,
            None => rest,
        }
    }
}

/// Selects the string entries of a request's argument array, in order:
/// `None` stands for an entry that was not a string and is dropped.
pub fn passthrough_args(items: Vec<Option<Vec<u8>>>) -> (r: Vec<Vec<u8>>)
    ensures
        r@.len() == passthrough_args_spec(item_views(items@)).len(),
        forall|k: int|
            0 <= k < r@.len() ==> r@[k]@ == passthrough_args_spec(item_views(items@))[k],
{
    let ghost iv = item_views(items@);
    let mut r: Vec<Vec<u8>> = Vec::new();
    let ghost mut done: Seq<Seq<u8>> = Seq::empty();
    proof {
        assert(iv.skip(0) =~= iv);
    }
    for i in 0..items.len()
        invariant
            iv == item_views(items@),
            iv.len() == items@.len(),
            done.len() == r@.len(),
            forall|k: int| 0 <= k < r@.len() ==> r@[k]@ == done[k],
            passthrough_args_spec(iv) == done + passthrough_args_spec(iv.skip(i as int)),
    {
        proof {
            assert(iv.skip(i as int)[0] == iv[i as int]);
            assert(iv.skip(i as int).drop_first() =~= iv.skip(i + 1));
            assert(iv[i as int] == (match items@[i as int] {
                Some(v) => Some(v@),
                None => None,
            }));
        }
        match &items[i] {
            Some(s) => {
                let c = bytes_copy(s.as_slice());
                proof {
                    done = done.push(c@);
                }
                r.push(c);
            },
            None => {},
        }
    }
    proof {
        assert(iv.skip(items@.len() as int) =~= Seq::<Option<Seq<u8>>>::empty());
        assert(passthrough_args_spec(iv) == done);
    }
    r
}

/// The views of an executable argument list.
pub open spec fn item_views(items: Seq<Option<Vec<u8>>>) -> Seq<Option<Seq<u8>>> {
    items.map_values(
        |o: Option<Vec<u8>>|
            match o {
                Some(v) => Some(v@),
                None => None,
            },
    )
}

} // verus!
