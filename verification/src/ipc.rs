//! Instance-uniqueness decisions and the error taxonomy of the messaging
//! layer.
//!
//! The operating-system steps themselves (taking the single-instance lock,
//! binding the local socket) are performed by the embedding program; their
//! outcomes are handed to `classify_acquire` as plain values, and every
//! routing decision made from them is verified here. In particular a bind
//! failure while holding the lock is kept distinct from the lock being held
//! by another live process: the first is a fatal startup error, the second
//! the normal signal to become a sender instead.

use vstd::prelude::*;
use vstd::string::StringExecFns;

verus! {

/// Discriminated failure of one operation of the messaging layer. Every
/// variant carries the underlying condition as plain text; none of them is
/// ever surfaced as a panic.
#[derive(Debug, Clone, PartialEq)]
pub enum Error {
    /// The OS single-instance primitive failed for a reason other than
    /// contention; fatal at startup.
    SingleInstanceError(String),
    /// Another live process already owns the identity. Not a fault: the
    /// normal signal to switch to the sender role.
    AlreadyRunning,
    /// The socket name derived from the identity was not accepted.
    ToNsNameError(String),
    /// The endpoint was already bound although this process holds the
    /// instance lock: a stale socket or a race, fatal at startup.
    AddrInUseError(String),
    /// The listener could not be created for another reason.
    ListenerCreateError(String),
    /// The listener refused non-blocking accept mode.
    SetNonBlockingError(String),
    /// A payload could not be encoded.
    EncodeError(String),
    /// Received bytes were not one well-formed message.
    DecodeError(String),
    /// No owner could be reached at the endpoint.
    ConnectError(String),
    /// The transport failed while writing one message.
    WriteError(String),
    /// The transport failed while reading one message.
    ReadError(String),
}

/// The descriptive text of an error: a fixed phrase for the variant,
/// followed by the carried condition.
pub open spec fn spec_message(e: Error) -> Seq<char> {
    match e {
        Error::SingleInstanceError(m) => "failed to new SingleInstance: "@ + m@,
        Error::AlreadyRunning => "the application is already running"@,
        Error::ToNsNameError(m) => "failed to convert to ns name: "@ + m@,
        Error::AddrInUseError(m) => "address in use error: "@ + m@,
        Error::ListenerCreateError(m) => "failed to create listener: "@ + m@,
        Error::SetNonBlockingError(m) => "failed to set non blocking: "@ + m@,
        Error::EncodeError(m) => "failed to encode: "@ + m@,
        Error::DecodeError(m) => "failed to decode: "@ + m@,
        Error::ConnectError(m) => "failed to connect: "@ + m@,
        Error::WriteError(m) => "failed to write: "@ + m@,
        Error::ReadError(m) => "failed to read: "@ + m@,
    }
}

impl Error {
    /// Render the error for a report or a log line.
    pub fn message(&self) -> (r: String)
        ensures
            r@ == spec_message(*self),
    {
        match self {
            Error::SingleInstanceError(m) => {
                let mut s = String::from_str("failed to new SingleInstance: ");
                s.append(m.as_str());
                s
            },
            Error::AlreadyRunning => String::from_str("the application is already running"),
            Error::ToNsNameError(m) => {
                let mut s = String::from_str("failed to convert to ns name: ");
                s.append(m.as_str());
                s
            },
            Error::AddrInUseError(m) => {
                let mut s = String::from_str("address in use error: ");
                s.append(m.as_str());
                s
            },
            Error::ListenerCreateError(m) => {
                let mut s = String::from_str("failed to create listener: ");
                s.append(m.as_str());
                s
            },
            Error::SetNonBlockingError(m) => {
                let mut s = String::from_str("failed to set non blocking: ");
                s.append(m.as_str());
                s
            },
            Error::EncodeError(m) => {
                let mut s = String::from_str("failed to encode: ");
                s.append(m.as_str());
                s
            },
            Error::DecodeError(m) => {
                let mut s = String::from_str("failed to decode: ");
                s.append(m.as_str());
                s
            },
            Error::ConnectError(m) => {
                let mut s = String::from_str("failed to connect: ");
                s.append(m.as_str());
                s
            },
            Error::WriteError(m) => {
                let mut s = String::from_str("failed to write: ");
                s.append(m.as_str());
                s
            },
            Error::ReadError(m) => {
                let mut s = String::from_str("failed to read: ");
                s.append(m.as_str());
                s
            },
        }
    }
}

/// Outcome of probing the OS single-instance primitive for an identity.
#[derive(Debug, Clone, PartialEq)]
pub enum LockOutcome {
    /// This process now holds the lock.
    Acquired,
    /// A live process elsewhere holds the lock.
    Held,
    /// The primitive itself failed (permissions and the like).
    Fault(String),
}

/// Outcome of binding the listener endpoint after winning the lock.
#[derive(Debug, Clone, PartialEq)]
pub enum BindOutcome {
    /// The endpoint is bound and accepts in non-blocking mode.
    Bound,
    /// The address was in use although the lock was won.
    AddrInUse(String),
    /// The socket name was refused.
    NameFault(String),
    /// Listener creation failed for another reason.
    CreateFault(String),
    /// The listener could not be switched to non-blocking accepts.
    NonBlockingFault(String),
}

/// The decision `classify_acquire` makes from the two probe outcomes.
pub open spec fn spec_classify_acquire(lock: LockOutcome, bind: Option<BindOutcome>) -> Result<
    (),
    Error,
> {
    match lock {
        LockOutcome::Fault(m) => Result::Err(Error::SingleInstanceError(m)),
        LockOutcome::Held => Result::Err(Error::AlreadyRunning),
        LockOutcome::Acquired => match bind {
            Option::None => Result::Ok(()),
            Option::Some(BindOutcome::Bound) => Result::Ok(()),
            Option::Some(BindOutcome::AddrInUse(m)) => Result::Err(Error::AddrInUseError(m)),
            Option::Some(BindOutcome::NameFault(m)) => Result::Err(Error::ToNsNameError(m)),
            Option::Some(BindOutcome::CreateFault(m)) => Result::Err(Error::ListenerCreateError(m)),
            Option::Some(BindOutcome::NonBlockingFault(m)) => Result::Err(
                Error::SetNonBlockingError(m),
            ),
        },
    }
}

/// Decide the outcome of the owner path from what the OS reported: the lock
/// probe first, then — only when the lock was won — the bind steps. `Ok`
/// grants exclusive ownership of the identity; `Err(AlreadyRunning)` routes
/// the caller to the sender role; every other error is fatal at startup.
pub fn classify_acquire(lock: LockOutcome, bind: Option<BindOutcome>) -> (r: Result<(), Error>)
    requires
        lock is Acquired <==> bind is Some,
    ensures
        r == spec_classify_acquire(lock, bind),
        r is Ok <==> lock is Acquired && bind == Some(BindOutcome::Bound),
{
    match lock {
        LockOutcome::Fault(m) => Err(Error::SingleInstanceError(m)),
        LockOutcome::Held => Err(Error::AlreadyRunning),
        LockOutcome::Acquired => match bind {
            None => Ok(()),
            Some(BindOutcome::Bound) => Ok(()),
            Some(BindOutcome::AddrInUse(m)) => Err(Error::AddrInUseError(m)),
            Some(BindOutcome::NameFault(m)) => Err(Error::ToNsNameError(m)),
            Some(BindOutcome::CreateFault(m)) => Err(Error::ListenerCreateError(m)),
            Some(BindOutcome::NonBlockingFault(m)) => Err(Error::SetNonBlockingError(m)),
        },
    }
}

/// What a freshly started process does after probing for ownership.
#[derive(Debug, Clone, PartialEq)]
pub enum StartupDecision {
    /// Run the dispatch loop as the unique owner.
    BecomeOwner,
    /// Forward the command set to the existing owner and exit gracefully.
    ForwardToOwner,
    /// Report the error and exit non-zero.
    Fail(Error),
}

/// The single top-level decision point for startup: ownership on success,
/// the sender role on `AlreadyRunning`, failure on everything else.
pub fn startup_role(acquire: Result<(), Error>) -> (r: StartupDecision)
    ensures
        acquire is Ok ==> r == StartupDecision::BecomeOwner,
        acquire == Result::<(), Error>::Err(Error::AlreadyRunning) ==> r
            == StartupDecision::ForwardToOwner,
        forall|e: Error|
            acquire == Result::<(), Error>::Err(e) && e != Error::AlreadyRunning ==> r
                == StartupDecision::Fail(e),
{
    match acquire {
        Ok(()) => StartupDecision::BecomeOwner,
        Err(Error::AlreadyRunning) => StartupDecision::ForwardToOwner,
        Err(e) => StartupDecision::Fail(e),
    }
}

/// Process exit status for a startup outcome: zero exactly on the graceful
/// handoff to an existing owner, non-zero on every startup fault.
pub fn startup_exit_code(e: &Error) -> (r: i32)
    ensures
        r == 0 <==> *e == Error::AlreadyRunning,
{
    match e {
        Error::AlreadyRunning => 0,
        _ => 1,
    }
}

/// Single-ownership: the OS lock admits at most one holder, so of two
/// processes racing to acquire the same identity at most one is granted
/// ownership, and one that found the lock held is routed to the sender
/// role, never to a fatal error.
pub proof fn lemma_single_ownership(
    l1: LockOutcome,
    b1: Option<BindOutcome>,
    l2: LockOutcome,
    b2: Option<BindOutcome>,
)
    requires
        !(l1 is Acquired && l2 is Acquired),
        l1 is Acquired <==> b1 is Some,
        l2 is Acquired <==> b2 is Some,
    ensures
        !(spec_classify_acquire(l1, b1) is Ok && spec_classify_acquire(l2, b2) is Ok),
        l1 is Held ==> spec_classify_acquire(l1, b1) == Result::<(), Error>::Err(
            Error::AlreadyRunning,
        ),
{
}

/// An endpoint collision is distinguishable from a second instance: a bind
/// failure with the address in use, observed while holding the instance
/// lock, is classified as `AddrInUseError`, never as `AlreadyRunning`.
pub proof fn lemma_addr_in_use_distinct(m: String)
    ensures
        spec_classify_acquire(LockOutcome::Acquired, Some(BindOutcome::AddrInUse(m)))
            == Result::<(), Error>::Err(Error::AddrInUseError(m)),
        spec_classify_acquire(LockOutcome::Acquired, Some(BindOutcome::AddrInUse(m)))
            != Result::<(), Error>::Err(Error::AlreadyRunning),
{
}

} // verus!
