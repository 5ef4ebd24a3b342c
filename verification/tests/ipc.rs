use better_control_panel::ident::{app_id, resolve_user, Identity, IdentityError};
use better_control_panel::ipc::{classify_acquire, startup_exit_code, startup_role, BindOutcome,
    Error, LockOutcome, StartupDecision};

#[test]
fn identity_key_is_deterministic() {
    let a = app_id("console", "0.1.0", "alice");
    let b = app_id("console", "0.1.0", "alice");
    assert_eq!(a, "console_0.1.0_alice");
    assert_eq!(a, b);
}

#[test]
fn identity_key_separates_versions_and_users() {
    assert_ne!(app_id("console", "0.1.0", "alice"), app_id("console", "0.2.0", "alice"));
    assert_ne!(app_id("console", "0.1.0", "alice"), app_id("console", "0.1.0", "bob"));
    assert_ne!(app_id("console", "0.1.0", "alice"), app_id("server", "0.1.0", "alice"));
}

#[test]
fn socket_name_appends_suffix() {
    let id = Identity::new("gui".to_string(), "1.2.3".to_string(), "bob".to_string());
    assert_eq!(id.key(), "gui_1.2.3_bob");
    assert_eq!(id.socket_name(), "gui_1.2.3_bob.sock");
}

#[test]
fn missing_user_fails_fast() {
    assert_eq!(resolve_user(None), Err(IdentityError::UserUnavailable));
    assert_eq!(resolve_user(Some(String::new())), Err(IdentityError::UserUnavailable));
    assert_eq!(resolve_user(Some("carol".to_string())), Ok("carol".to_string()));
    assert!(!IdentityError::UserUnavailable.message().is_empty());
}

#[test]
fn winning_the_lock_and_binding_grants_ownership() {
    let r = classify_acquire(LockOutcome::Acquired, Some(BindOutcome::Bound));
    assert_eq!(r, Ok(()));
}

#[test]
fn held_lock_routes_to_the_sender_role() {
    let r = classify_acquire(LockOutcome::Held, None);
    assert_eq!(r, Err(Error::AlreadyRunning));
    assert_eq!(startup_role(r), StartupDecision::ForwardToOwner);
}

#[test]
fn racing_processes_yield_at_most_one_owner() {
    // The OS lock grants one of the two racers; the loser observes it held.
    let winner = classify_acquire(LockOutcome::Acquired, Some(BindOutcome::Bound));
    let loser = classify_acquire(LockOutcome::Held, None);
    assert!(winner.is_ok());
    assert!(!loser.is_ok());
    assert_eq!(loser, Err(Error::AlreadyRunning));
}

#[test]
fn stale_socket_is_addr_in_use_not_already_running() {
    // The lock was won, yet the endpoint is occupied: a stale socket file.
    let r = classify_acquire(
        LockOutcome::Acquired,
        Some(BindOutcome::AddrInUse("address in use".to_string())),
    );
    assert_eq!(r, Err(Error::AddrInUseError("address in use".to_string())));
    assert_ne!(r, Err(Error::AlreadyRunning));
}

#[test]
fn every_bind_failure_keeps_its_kind() {
    let r = classify_acquire(LockOutcome::Acquired, Some(BindOutcome::NameFault("n".into())));
    assert_eq!(r, Err(Error::ToNsNameError("n".into())));
    let r = classify_acquire(LockOutcome::Acquired, Some(BindOutcome::CreateFault("c".into())));
    assert_eq!(r, Err(Error::ListenerCreateError("c".into())));
    let r = classify_acquire(
        LockOutcome::Acquired,
        Some(BindOutcome::NonBlockingFault("nb".into())),
    );
    assert_eq!(r, Err(Error::SetNonBlockingError("nb".into())));
    let r = classify_acquire(LockOutcome::Fault("perm".into()), None);
    assert_eq!(r, Err(Error::SingleInstanceError("perm".into())));
}

#[test]
fn startup_decisions_and_exit_codes() {
    assert_eq!(startup_role(Ok(())), StartupDecision::BecomeOwner);
    let e = Error::AddrInUseError("x".into());
    assert_eq!(startup_role(Err(e.clone())), StartupDecision::Fail(e.clone()));
    assert_eq!(startup_exit_code(&Error::AlreadyRunning), 0);
    assert_ne!(startup_exit_code(&e), 0);
}

#[test]
fn error_messages_describe_the_variant() {
    assert_eq!(
        Error::DecodeError("bad tag".to_string()).message(),
        "failed to decode: bad tag"
    );
    assert_eq!(Error::AlreadyRunning.message(), "the application is already running");
    assert_eq!(
        Error::AddrInUseError("in use".to_string()).message(),
        "address in use error: in use"
    );
    assert_eq!(
        Error::ConnectError("refused".to_string()).message(),
        "failed to connect: refused"
    );
}
