//! The owner-side dispatch loop as a state machine.
//!
//! The embedding program performs the outside work — polling the listener,
//! running a requested script, writing a reply connection — and feeds each
//! outcome back as an event. Every decision between those steps is made
//! here and verified: what a decoded command leads to, that one malformed
//! message only logs a fault and returns the loop to `Idle`, that a reply is
//! addressed to the identity embedded in the request, and that after `Exit`
//! is decoded no further command is ever accepted.

use vstd::prelude::*;
use crate::command::{Command, ReciverCommand};
use crate::codec::{decode_command, encode_reciver_command, is_command_encoding,
    spec_decode_command, spec_encode_reciver_command};
use crate::ipc::Error;

verus! {

/// Where the dispatch loop stands between two events.
#[derive(Debug)]
pub enum DispatchState {
    /// No pending connection; the loop polls the listener.
    Idle,
    /// One connection's bytes have been read and await decoding.
    Decoding(Vec<u8>),
    /// A decoded command is being acted on (for `Exec`, the script runs in
    /// the host between the `RunScript` action and the `ScriptDone` event).
    Acting(Command),
    /// A reply is ready to be delivered back to the originating identity.
    Replying { dest: String, reply: ReciverCommand },
    /// Terminal: reached only by a decoded `Exit`; nothing is accepted here.
    Stopped,
}

/// What the embedding program reports to the loop.
#[derive(Debug)]
pub enum LoopEvent {
    /// The listener was polled: one connection's bytes, or none waiting.
    Polled(Option<Vec<u8>>),
    /// Take the next internal step.
    Advance,
    /// The requested script finished, with its printed result or an error.
    ScriptDone(Result<String, String>),
}

/// What the embedding program must do next.
#[derive(Debug)]
pub enum LoopAction {
    /// Nothing; poll again.
    Continue,
    /// Log a per-message fault and carry on: one bad sender never stops the
    /// loop.
    LogFault(Error),
    /// Log a script failure and carry on; no reply is sent.
    LogScriptError(String),
    /// Hand the forwarded invocation arguments to the host for re-parsing.
    StoreArgs(Vec<String>),
    /// Run this script on behalf of the named caller, then report
    /// `ScriptDone`.
    RunScript { app_id: String, script: String },
    /// Open one connection to `dest` and write this already-encoded reply;
    /// a delivery failure is logged, never fatal.
    SendReply { dest: String, payload: Vec<u8> },
    /// Stop accepting and run the shutdown sequence.
    BeginShutdown,
}

/// One transition of the dispatch loop. The ensures clause is the whole
/// machine: each state/event pair determines the next state and the action,
/// and every unexpected pair leaves the state alone.
pub fn step(s: DispatchState, e: LoopEvent) -> (r: (DispatchState, LoopAction))
    ensures
        match s {
            DispatchState::Idle => match e {
                LoopEvent::Polled(Some(bytes)) => r.0 matches DispatchState::Decoding(b2)
                    && b2@ == bytes@ && r.1 is Continue,
                _ => r.0 is Idle && r.1 is Continue,
            },
            DispatchState::Decoding(bytes) => match e {
                LoopEvent::Advance => {
                    if is_command_encoding(bytes@) {
                        &&& r.0 matches DispatchState::Acting(c)
                        &&& Some(c@) == spec_decode_command(bytes@)
                        &&& r.1 is Continue
                    } else {
                        &&& r.0 is Idle
                        &&& r.1 matches LoopAction::LogFault(er) && er is DecodeError
                    }
                },
                _ => r.0 matches DispatchState::Decoding(b2) && b2@ == bytes@
                    && r.1 is Continue,
            },
            DispatchState::Acting(cmd) => match (cmd, e) {
                (Command::Args(v), LoopEvent::Advance) => r.0 is Idle && (r.1 matches
                    LoopAction::StoreArgs(v2) && v2.deep_view() == v.deep_view()),
                (Command::Exit, LoopEvent::Advance) => r.0 is Stopped
                    && r.1 is BeginShutdown,
                (Command::Exec { app_id, script }, LoopEvent::Advance) => (r.0 matches
                    DispatchState::Acting(c2) && c2@ == cmd@) && (r.1 matches
                    LoopAction::RunScript { app_id: a2, script: s2 } && a2@ == app_id@
                    && s2@ == script@),
                (Command::Exec { app_id, script }, LoopEvent::ScriptDone(Ok(res))) => (r.0
                    matches DispatchState::Replying { dest, reply } && dest@ == app_id@
                    && (reply matches ReciverCommand::ExecResult { result } && result@
                    == res@)) && r.1 is Continue,
                (Command::Exec { app_id, script }, LoopEvent::ScriptDone(Err(m))) => r.0
                    is Idle && (r.1 matches LoopAction::LogScriptError(m2) && m2@ == m@),
                (c, _) => (r.0 matches DispatchState::Acting(c2) && c2@ == c@)
                    && r.1 is Continue,
            },
            DispatchState::Replying { dest, reply } => match e {
                LoopEvent::Advance => r.0 is Idle && (r.1 matches LoopAction::SendReply {
                    dest: d2,
                    payload,
                } && d2@ == dest@ && payload@ == spec_encode_reciver_command(reply@)),
                _ => (r.0 matches DispatchState::Replying { dest: d2, reply: c2 } && d2@
                    == dest@ && c2@ == reply@) && r.1 is Continue,
            },
            // After `Exit` was decoded, no event is acted on and no further
            // command is ever accepted.
            DispatchState::Stopped => r.0 is Stopped && r.1 is Continue,
        },
{
    match s {
        DispatchState::Idle => match e {
            LoopEvent::Polled(Some(bytes)) => (
                DispatchState::Decoding(bytes),
                LoopAction::Continue,
            ),
            _ => (DispatchState::Idle, LoopAction::Continue),
        },
        DispatchState::Decoding(bytes) => match e {
            LoopEvent::Advance => {
                let blen: usize = bytes.len();
                match decode_command(bytes.as_slice()) {
                    Ok(cmd) => {
                        proof {
                            assert(usize::MAX <= u64::MAX) by (nonlinear_arith);
                            assert(is_command_encoding(bytes@));
                            let c2 = choose|c2: crate::command::CommandView|
                                crate::codec::spec_encode_command(c2) == bytes@;
                            crate::codec::lemma_encode_command_injective(cmd@, c2);
                        }
                        (DispatchState::Acting(cmd), LoopAction::Continue)
                    },
                    Err(er) => (DispatchState::Idle, LoopAction::LogFault(er)),
                }
            },
            _ => (DispatchState::Decoding(bytes), LoopAction::Continue),
        },
        DispatchState::Acting(cmd) => match (cmd, e) {
            (Command::Args(v), LoopEvent::Advance) => (
                DispatchState::Idle,
                LoopAction::StoreArgs(v),
            ),
            (Command::Exit, LoopEvent::Advance) => (
                DispatchState::Stopped,
                LoopAction::BeginShutdown,
            ),
            (Command::Exec { app_id, script }, LoopEvent::Advance) => {
                let action_app_id = app_id.clone();
                let action_script = script.clone();
                (
                    DispatchState::Acting(Command::Exec { app_id, script }),
                    LoopAction::RunScript { app_id: action_app_id, script: action_script },
                )
            },
            (Command::Exec { app_id, script }, LoopEvent::ScriptDone(Ok(res))) => (
                DispatchState::Replying {
                    dest: app_id,
                    reply: ReciverCommand::ExecResult { result: res },
                },
                LoopAction::Continue,
            ),
            (Command::Exec { app_id, script }, LoopEvent::ScriptDone(Err(m))) => (
                DispatchState::Idle,
                LoopAction::LogScriptError(m),
            ),
            (c, _) => (DispatchState::Acting(c), LoopAction::Continue),
        },
        DispatchState::Replying { dest, reply } => match e {
            LoopEvent::Advance => {
                let payload = encode_reciver_command(&reply);
                (
                    DispatchState::Idle,
                    LoopAction::SendReply { dest, payload },
                )
            },
            _ => (DispatchState::Replying { dest, reply }, LoopAction::Continue),
        },
        DispatchState::Stopped => (DispatchState::Stopped, LoopAction::Continue),
    }
}

/// One step of the graceful shutdown sequence.
#[derive(Debug)]
pub enum ShutdownStep {
    /// Accept no further connections.
    StopAccepting,
    /// Deliver the reply that was in flight when `Exit` arrived.
    FlushReply { dest: String, payload: Vec<u8> },
    /// Ask the spawned child process to exit.
    SignalChild,
    /// Wait for the child to exit before the owner terminates.
    AwaitChild,
    /// Terminate the owner process itself.
    ExitProcess,
}

/// The graceful shutdown ordering: stop accepting, flush any pending
/// reply, signal the spawned child, await it, and only then exit. The
/// returned sequence is exactly this order for whichever of the optional
/// steps apply.
pub fn shutdown_steps(pending_reply: Option<(String, ReciverCommand)>, has_child: bool) -> (r:
    Vec<ShutdownStep>)
    ensures
        r@.len() == 2 + (if pending_reply is Some { 1int } else { 0int }) + (if has_child {
            2int
        } else {
            0int
        }),
        r@[0] is StopAccepting,
        r@[r@.len() - 1] is ExitProcess,
        pending_reply matches Some((d, c)) ==> (r@[1] matches ShutdownStep::FlushReply {
            dest,
            payload,
        } && dest@ == d@ && payload@ == spec_encode_reciver_command(c@)),
        has_child ==> {
            let base = if pending_reply is Some { 2int } else { 1int };
            r@[base] is SignalChild && r@[base + 1] is AwaitChild
        },
{
    let mut steps: Vec<ShutdownStep> = Vec::new();
    steps.push(ShutdownStep::StopAccepting);
    match pending_reply {
        Some((dest, reply)) => {
            let payload = encode_reciver_command(&reply);
            steps.push(ShutdownStep::FlushReply { dest, payload });
        },
        None => {},
    }
    if has_child {
        steps.push(ShutdownStep::SignalChild);
        steps.push(ShutdownStep::AwaitChild);
    }
    steps.push(ShutdownStep::ExitProcess);
    steps
}

/// Forwarding correctness: an argument list a sender encodes is decoded by
/// the owner as the identical list — the round-trip law specialised to
/// `Args`.
pub proof fn lemma_forwarding_correct(args: Seq<Seq<char>>)
    requires
        crate::codec::spec_encode_command(crate::command::CommandView::Args(args)).len()
            <= u64::MAX,
    ensures
        spec_decode_command(
            crate::codec::spec_encode_command(crate::command::CommandView::Args(args)),
        ) == Some(crate::command::CommandView::Args(args)),
{
    crate::codec::lemma_command_round_trip(crate::command::CommandView::Args(args));
}

/// Reply routing, codec half: the reply an owner encodes for result `r` is
/// decoded by the caller's listener as exactly `ExecResult { result: r }`.
/// That it is addressed to the requesting identity is the `step` contract
/// for `Replying`; carrying it across processes is the transport's work.
pub proof fn lemma_reply_routing(result: Seq<char>)
    requires
        spec_encode_reciver_command(
            crate::command::ReciverCommandView::ExecResult { result },
        ).len() <= u64::MAX,
    ensures
        crate::codec::spec_decode_reciver_command(
            spec_encode_reciver_command(
                crate::command::ReciverCommandView::ExecResult { result },
            ),
        ) == Some(crate::command::ReciverCommandView::ExecResult { result }),
{
    crate::codec::lemma_reciver_command_round_trip(
        crate::command::ReciverCommandView::ExecResult { result },
    );
}

} // verus!
