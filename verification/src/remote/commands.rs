//! Commands that a remote client gives to the host's windows, and their answers.

use crate::remote::{ErrorCode, RpcError};
use vstd::prelude::*;

verus! {

/// How long the host has for an answer, in seconds.
pub const COMMAND_TIMEOUT: u64 = 60;

/// A command to the host's windows. `S` says which tab to open, `M` how to close one.
#[derive(Debug)]
pub enum HostCommand<S, M> {
    ActivateWorkspace { workspace_id: i64 },
    CreateTab { workspace_id: i64, spec: S },
    CloseTab { workspace_id: i64, tab_id: u64, mode: M },
    WriteAttachment { workspace_id: i64, tab_id: u64, name: String, bytes: Vec<u8> },
}

/// What became of a command that was sent.
#[derive(Debug)]
pub enum Delivery<T> {
    /// Nobody takes commands any more.
    NotSent,
    /// The host dropped the command without an answer.
    Dropped,
    /// The time for an answer ran out.
    TimedOut,
    Answered(Result<T, RpcError>),
}

impl<S, M> HostCommand<S, M> {
    /// The method that the command belongs to.
    pub fn method(&self) -> (s: &'static str)
        ensures
            s@ == (match *self {
                HostCommand::ActivateWorkspace { .. } => "workspace.activate"@,
                HostCommand::CreateTab { .. } => "tabs.create"@,
                HostCommand::CloseTab { .. } => "tabs.close"@,
                HostCommand::WriteAttachment { .. } => "attachment.write"@,
            }),
    {
        match self {
            HostCommand::ActivateWorkspace { .. } => "workspace.activate",
            HostCommand::CreateTab { .. } => "tabs.create",
            HostCommand::CloseTab { .. } => "tabs.close",
            HostCommand::WriteAttachment { .. } => "attachment.write",
        }
    }
}

/// What the client is told of a command that got no answer.
pub open spec fn failure_text<T>(method: Seq<char>, delivery: Delivery<T>) -> Seq<char> {
    method + (match delivery {
        Delivery::NotSent => ": host UI is not available"@,
        Delivery::Dropped => ": host cancelled the command"@,
        _ => ": timed out waiting for the host"@,
    })
}

/// The answer that the client gets: the host's own, or an internal error that names the method.
pub fn settle<T>(method: &str, delivery: Delivery<T>) -> (r: Result<T, RpcError>)
    ensures
        match delivery {
            Delivery::Answered(answer) => r == answer,
            _ => r matches Err(e) && e.code == ErrorCode::Internal && e.message@ == failure_text(
                method@,
                delivery,
            ),
        },
{
    let mut message = method.to_owned();
    match delivery {
        Delivery::Answered(answer) => {
            return answer;
        },
        Delivery::NotSent => {
            message.append(": host UI is not available");
        },
        Delivery::Dropped => {
            message.append(": host cancelled the command");
        },
        Delivery::TimedOut => {
            message.append(": timed out waiting for the host");
        },
    }
    Err(RpcError { code: ErrorCode::Internal, message })
}

/// Every failure names the method, and no two ways to fail read the same.
pub proof fn law_failures_differ<T>(
    method: Seq<char>,
    not_sent: Delivery<T>,
    dropped: Delivery<T>,
    late: Delivery<T>,
)
    requires
        not_sent is NotSent,
        dropped is Dropped,
        !(late is NotSent) && !(late is Dropped),
    ensures
        method.is_prefix_of(failure_text(method, not_sent)),
        method.is_prefix_of(failure_text(method, dropped)),
        method.is_prefix_of(failure_text(method, late)),
        failure_text(method, not_sent) != failure_text(method, dropped),
        failure_text(method, not_sent) != failure_text(method, late),
        failure_text(method, dropped) != failure_text(method, late),
{
    let a = ": host UI is not available"@;
    let b = ": host cancelled the command"@;
    let c = ": timed out waiting for the host"@;
    reveal_strlit(": host UI is not available");
    reveal_strlit(": host cancelled the command");
    reveal_strlit(": timed out waiting for the host");
    assert(a.len() == 26 && b.len() == 28 && c.len() == 32);
    assert((method + a).len() != (method + b).len());
    assert((method + a).len() != (method + c).len());
    assert((method + b).len() != (method + c).len());
}

} // verus!
