use better_control_panel::codec::{decode_reciver_command, encode_command};
use better_control_panel::command::{Command, ReciverCommand};
use better_control_panel::dispatch::{shutdown_steps, step, DispatchState, LoopAction, LoopEvent,
    ShutdownStep};
use better_control_panel::ipc::Error;

#[test]
fn idle_stays_idle_without_a_connection() {
    let (s, a) = step(DispatchState::Idle, LoopEvent::Polled(None));
    assert!(matches!(s, DispatchState::Idle));
    assert!(matches!(a, LoopAction::Continue));
}

#[test]
fn forwarded_args_reach_the_handler_identically() {
    // A sender forwards `Args(["--script", "1+1"])`; the owner decodes the
    // identical sequence and hands it out for re-parsing.
    let sent = vec!["--script".to_string(), "1+1".to_string()];
    let wire = encode_command(&Command::Args(sent.clone()));
    let (s, a) = step(DispatchState::Idle, LoopEvent::Polled(Some(wire)));
    assert!(matches!(a, LoopAction::Continue));
    let (s, a) = step(s, LoopEvent::Advance);
    assert!(matches!(a, LoopAction::Continue));
    assert!(matches!(&s, DispatchState::Acting(Command::Args(v)) if *v == sent));
    let (s, a) = step(s, LoopEvent::Advance);
    assert!(matches!(s, DispatchState::Idle));
    match a {
        LoopAction::StoreArgs(v) => assert_eq!(v, sent),
        other => panic!("expected StoreArgs, got {other:?}"),
    }
}

#[test]
fn malformed_message_logs_and_returns_to_idle() {
    // Garbage bytes on an accepted connection: a logged decode error, and
    // the loop is back in `Idle`, able to take the next connection.
    let garbage = vec![0xffu8, 0x00, 0x13, 0x37];
    let (s, _) = step(DispatchState::Idle, LoopEvent::Polled(Some(garbage)));
    let (s, a) = step(s, LoopEvent::Advance);
    assert!(matches!(s, DispatchState::Idle));
    assert!(matches!(a, LoopAction::LogFault(Error::DecodeError(_))));
    // The next well-formed connection is accepted and dispatched.
    let wire = encode_command(&Command::Args(vec![]));
    let (s, _) = step(s, LoopEvent::Polled(Some(wire)));
    let (s, _) = step(s, LoopEvent::Advance);
    assert!(matches!(s, DispatchState::Acting(Command::Args(_))));
}

#[test]
fn exec_reply_is_routed_to_the_requesting_identity() {
    // Process A sends `Exec { app_id: A, script }`; the owner computes "2"
    // and the reply goes out addressed to A, carrying ExecResult { "2" }.
    let a_identity = "console_0.1.0_alice".to_string();
    let wire = encode_command(&Command::Exec {
        app_id: a_identity.clone(),
        script: "1+1".to_string(),
    });
    let (s, _) = step(DispatchState::Idle, LoopEvent::Polled(Some(wire)));
    let (s, _) = step(s, LoopEvent::Advance);
    let (s, a) = step(s, LoopEvent::Advance);
    match a {
        LoopAction::RunScript { app_id, script } => {
            assert_eq!(app_id, a_identity);
            assert_eq!(script, "1+1");
        },
        other => panic!("expected RunScript, got {other:?}"),
    }
    let (s, _) = step(s, LoopEvent::ScriptDone(Ok("2".to_string())));
    let (s, a) = step(s, LoopEvent::Advance);
    assert!(matches!(s, DispatchState::Idle));
    match a {
        LoopAction::SendReply { dest, payload } => {
            assert_eq!(dest, a_identity);
            assert_eq!(
                decode_reciver_command(&payload).unwrap(),
                ReciverCommand::ExecResult { result: "2".to_string() }
            );
        },
        other => panic!("expected SendReply, got {other:?}"),
    }
}

#[test]
fn script_failure_is_logged_without_a_reply() {
    let wire = encode_command(&Command::Exec {
        app_id: "a".to_string(),
        script: "oops(".to_string(),
    });
    let (s, _) = step(DispatchState::Idle, LoopEvent::Polled(Some(wire)));
    let (s, _) = step(s, LoopEvent::Advance);
    let (s, a) = step(s, LoopEvent::ScriptDone(Err("syntax error".to_string())));
    assert!(matches!(s, DispatchState::Idle));
    assert!(matches!(a, LoopAction::LogScriptError(m) if m == "syntax error"));
}

#[test]
fn exit_stops_the_loop_and_nothing_is_accepted_after_it() {
    let wire = encode_command(&Command::Exit);
    let (s, _) = step(DispatchState::Idle, LoopEvent::Polled(Some(wire)));
    let (s, a) = step(s, LoopEvent::Advance);
    assert!(matches!(s, DispatchState::Acting(Command::Exit)));
    assert!(matches!(a, LoopAction::Continue));
    let (s, a) = step(s, LoopEvent::Advance);
    assert!(matches!(s, DispatchState::Stopped));
    assert!(matches!(a, LoopAction::BeginShutdown));
    // A connection arriving after Exit is never acted on.
    let late = encode_command(&Command::Args(vec!["late".to_string()]));
    let (s, a) = step(s, LoopEvent::Polled(Some(late)));
    assert!(matches!(s, DispatchState::Stopped));
    assert!(matches!(a, LoopAction::Continue));
    let (s, a) = step(s, LoopEvent::Advance);
    assert!(matches!(s, DispatchState::Stopped));
    assert!(matches!(a, LoopAction::Continue));
}

#[test]
fn shutdown_order_with_child_and_pending_reply() {
    let reply = ReciverCommand::ExecResult { result: "done".to_string() };
    let steps = shutdown_steps(Some(("caller".to_string(), reply.clone())), true);
    assert_eq!(steps.len(), 5);
    assert!(matches!(steps[0], ShutdownStep::StopAccepting));
    match &steps[1] {
        ShutdownStep::FlushReply { dest, payload } => {
            assert_eq!(dest, "caller");
            assert_eq!(decode_reciver_command(payload).unwrap(), reply);
        },
        other => panic!("expected FlushReply, got {other:?}"),
    }
    assert!(matches!(steps[2], ShutdownStep::SignalChild));
    assert!(matches!(steps[3], ShutdownStep::AwaitChild));
    assert!(matches!(steps[4], ShutdownStep::ExitProcess));
}

#[test]
fn shutdown_order_with_child_only() {
    let steps = shutdown_steps(None, true);
    assert_eq!(steps.len(), 4);
    assert!(matches!(steps[0], ShutdownStep::StopAccepting));
    assert!(matches!(steps[1], ShutdownStep::SignalChild));
    assert!(matches!(steps[2], ShutdownStep::AwaitChild));
    assert!(matches!(steps[3], ShutdownStep::ExitProcess));
}

#[test]
fn shutdown_order_bare() {
    let steps = shutdown_steps(None, false);
    assert_eq!(steps.len(), 2);
    assert!(matches!(steps[0], ShutdownStep::StopAccepting));
    assert!(matches!(steps[1], ShutdownStep::ExitProcess));
}
