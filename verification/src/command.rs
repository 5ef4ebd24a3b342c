//! The typed command protocol carried over the messaging layer: the request
//! commands a second launch forwards to the running owner, the reply commands
//! an owner sends back, and the structured log record that can be forwarded
//! to a display process.

use vstd::prelude::*;

verus! {

/// Severity of one log record, from most to least severe.
#[derive(Debug, Clone, Copy, PartialEq, Eq, Structural)]
pub enum Level {
    Error,
    Warn,
    Info,
    Debug,
    Trace,
}

/// Immutable snapshot of one log event, created at emission time and
/// forwarded verbatim. The timestamp is kept as milliseconds since the Unix
/// epoch so the record is a plain value independent of any clock library.
#[derive(Debug, Clone, PartialEq)]
pub struct LogMessageBuf {
    pub thread_name: Option<String>,
    pub thread_id: Option<String>,
    pub level: Level,
    pub message: String,
    pub local_time: i64,
    pub module: Option<String>,
    pub file: Option<String>,
    pub line: Option<u32>,
}

/// Mathematical value of a `LogMessageBuf`: every text field as a sequence
/// of characters.
#[verifier::ext_equal]
pub struct LogMessageBufView {
    pub thread_name: Option<Seq<char>>,
    pub thread_id: Option<Seq<char>>,
    pub level: Level,
    pub message: Seq<char>,
    pub local_time: i64,
    pub module: Option<Seq<char>>,
    pub file: Option<Seq<char>>,
    pub line: Option<u32>,
}

pub open spec fn view_of_opt_string(o: Option<String>) -> Option<Seq<char>> {
    match o {
        Option::Some(s) => Option::Some(s@),
        Option::None => Option::None,
    }
}

impl View for LogMessageBuf {
    type V = LogMessageBufView;

    open spec fn view(&self) -> LogMessageBufView {
        LogMessageBufView {
            thread_name: view_of_opt_string(self.thread_name),
            thread_id: view_of_opt_string(self.thread_id),
            level: self.level,
            message: self.message@,
            local_time: self.local_time,
            module: view_of_opt_string(self.module),
            file: view_of_opt_string(self.file),
            line: self.line,
        }
    }
}

/// A request sent to the single running owner of an identity.
#[derive(Debug, Clone, PartialEq)]
pub enum Command {
    /// Run a script on behalf of the caller; `app_id` is the caller's own
    /// identity key, used to route the reply back.
    Exec { app_id: String, script: String },
    /// Forward raw invocation arguments for owner-side re-parsing.
    Args(Vec<String>),
    /// Request graceful shutdown of the owner.
    Exit,
}

/// Mathematical value of a `Command`.
#[verifier::ext_equal]
pub enum CommandView {
    Exec { app_id: Seq<char>, script: Seq<char> },
    Args(Seq<Seq<char>>),
    Exit,
}

impl View for Command {
    type V = CommandView;

    open spec fn view(&self) -> CommandView {
        match self {
            Command::Exec { app_id, script } => CommandView::Exec {
                app_id: app_id@,
                script: script@,
            },
            Command::Args(args) => CommandView::Args(args.deep_view()),
            Command::Exit => CommandView::Exit,
        }
    }
}

/// A reply or notification delivered to the process that originated a
/// request (or to a display process, for `Log`).
#[derive(Debug, Clone, PartialEq)]
pub enum ReciverCommand {
    /// Forward a structured log record to another process.
    Log { app_id: String, message: LogMessageBuf },
    /// Reply carrying the result of an `Exec` request.
    ExecResult { result: String },
    /// Forward raw invocation arguments for re-parsing.
    Args(Vec<String>),
    /// Request the receiver to shut down.
    Exit,
}

/// Mathematical value of a `ReciverCommand`.
#[verifier::ext_equal]
pub enum ReciverCommandView {
    Log { app_id: Seq<char>, message: LogMessageBufView },
    ExecResult { result: Seq<char> },
    Args(Seq<Seq<char>>),
    Exit,
}

impl View for ReciverCommand {
    type V = ReciverCommandView;

    open spec fn view(&self) -> ReciverCommandView {
        match self {
            ReciverCommand::Log { app_id, message } => ReciverCommandView::Log {
                app_id: app_id@,
                message: message@,
            },
            ReciverCommand::ExecResult { result } => ReciverCommandView::ExecResult {
                result: result@,
            },
            ReciverCommand::Args(args) => ReciverCommandView::Args(args.deep_view()),
            ReciverCommand::Exit => ReciverCommandView::Exit,
        }
    }
}

} // verus!
