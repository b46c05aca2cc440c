//! The harness's error type and its messages.
use vstd::prelude::*;
use std::io::Error as IoError;
use sled::Error as SledError;
use git2::Error as GitLibError;
use anyhow::Error as AnyError;
use crate::text::{concat, concat3, u64_to_decimal, decimal};

verus! {

#[verifier::external_type_specification]
#[verifier::external_body]
pub struct ExIoError(IoError);

#[verifier::external_type_specification]
#[verifier::external_body]
pub struct ExSledError(SledError);

#[verifier::external_type_specification]
#[verifier::external_body]
pub struct ExGitError(GitLibError);

#[verifier::external_type_specification]
#[verifier::external_body]
pub struct ExAnyhowError(AnyError);

/// The error type of every fallible operation of the harness.
#[derive(Debug)]
pub enum Error {
    Io(IoError),
    Sled(SledError),
    Git(GitLibError),
    StateCorrupted { key: String, reason: String },
    StateNotFound(String),
    GitError(String),
    ToolExecution { command: String, stderr: String },
    HookBlocked { reason: String },
    SessionLimitExceeded { turns: u32 },
    Validation(String),
    Config(String),
    Agent(String),
    Other(AnyError),
}

pub type Result<T> = core::result::Result<T, Error>;

/// The message of an error whose payload is the library's own, or `None`
/// for an error that carries an outside error value.
pub open spec fn own_message(e: Error) -> Option<Seq<char>> {
    match e {
        Error::StateCorrupted { key, reason } => Some(
            "State corrupted for key '"@ + key@ + "': "@ + reason@,
        ),
        Error::StateNotFound(s) => Some("State not found: "@ + s@),
        Error::GitError(s) => Some("Git operation failed: "@ + s@),
        Error::ToolExecution { command, stderr } => Some(
            "Tool execution failed: "@ + command@ + " - "@ + stderr@,
        ),
        Error::HookBlocked { reason } => Some("Hook blocked: "@ + reason@),
        Error::SessionLimitExceeded { turns } => Some(
            "Session limit exceeded: "@ + decimal(turns as nat) + " turns"@,
        ),
        Error::Validation(s) => Some("Validation failed: "@ + s@),
        Error::Config(s) => Some("Configuration error: "@ + s@),
        Error::Agent(s) => Some("Agent error: "@ + s@),
        _ => None,
    }
}

/// The fixed text that starts the message of an error carrying an outside
/// error value (the outside value's own description follows it).
pub open spec fn outside_prefix(e: Error) -> Seq<char> {
    match e {
        Error::Io(_) => "IO error: "@,
        Error::Sled(_) => "Sled error: "@,
        Error::Git(_) => "Git error: "@,
        _ => Seq::empty(),
    }
}

/// `m` is the message of `e`: the library's own text for an error whose
/// content is the library's, else the fixed prefix followed by the outside
/// value's `Display` text (for `Other`, that text alone).
pub open spec fn is_message_of(e: Error, m: Seq<char>) -> bool {
    match e {
        Error::Io(x) => exists|d: String|
            vstd::string::to_string_from_display_ensures::<IoError>(&x, d) && m == "IO error: "@
                + d@,
        Error::Sled(x) => exists|d: String|
            vstd::string::to_string_from_display_ensures::<SledError>(&x, d) && m
                == "Sled error: "@ + d@,
        Error::Git(x) => exists|d: String|
            vstd::string::to_string_from_display_ensures::<GitLibError>(&x, d) && m
                == "Git error: "@ + d@,
        Error::Other(x) => exists|d: String|
            vstd::string::to_string_from_display_ensures::<AnyError>(&x, d) && m == d@,
        _ => own_message(e) == Some(m),
    }
}

impl Error {
    /// The `StateCorrupted` error for a stored entry that could not be used.
    pub fn state_corrupted(key: String, reason: String) -> (e: Error)
        ensures
            e == (Error::StateCorrupted { key, reason }),
    {
        Error::StateCorrupted { key, reason }
    }

    /// The `ToolExecution` error for a command that failed with output on
    /// its error stream.
    pub fn tool_execution(command: String, stderr: String) -> (e: Error)
        ensures
            e == (Error::ToolExecution { command, stderr }),
    {
        Error::ToolExecution { command, stderr }
    }

    /// The human-readable message of the error.
    pub fn message(&self) -> (m: String)
        ensures
            own_message(*self) matches Some(text) ==> m@ == text,
            own_message(*self) is None ==> m@.take(outside_prefix(*self).len() as int)
                == outside_prefix(*self),
            is_message_of(*self, m@),
    {
        match self {
            Error::Io(e) => concat("IO error: ", e.to_string().as_str()),
            Error::Sled(e) => concat("Sled error: ", e.to_string().as_str()),
            Error::Git(e) => concat("Git error: ", e.to_string().as_str()),
            Error::StateCorrupted { key, reason } => {
                let head = concat3("State corrupted for key '", key.as_str(), "': ");
                concat(head.as_str(), reason.as_str())
            },
            Error::StateNotFound(s) => concat("State not found: ", s.as_str()),
            Error::GitError(s) => concat("Git operation failed: ", s.as_str()),
            Error::ToolExecution { command, stderr } => {
                let head = concat3("Tool execution failed: ", command.as_str(), " - ");
                concat(head.as_str(), stderr.as_str())
            },
            Error::HookBlocked { reason } => concat("Hook blocked: ", reason.as_str()),
            Error::SessionLimitExceeded { turns } => {
                let n = u64_to_decimal(*turns as u64);
                concat3("Session limit exceeded: ", n.as_str(), " turns")
            },
            Error::Validation(s) => concat("Validation failed: ", s.as_str()),
            Error::Config(s) => concat("Configuration error: ", s.as_str()),
            Error::Agent(s) => concat("Agent error: ", s.as_str()),
            Error::Other(e) => e.to_string(),
        }
    }
}

impl From<IoError> for Error {
    fn from(e: IoError) -> (r: Error) {
        Error::Io(e)
    }
}

impl vstd::std_specs::convert::FromSpecImpl<IoError> for Error {
    open spec fn obeys_from_spec() -> bool {
        true
    }

    open spec fn from_spec(v: IoError) -> Error {
        Error::Io(v)
    }
}

impl From<SledError> for Error {
    fn from(e: SledError) -> (r: Error) {
        Error::Sled(e)
    }
}

impl vstd::std_specs::convert::FromSpecImpl<SledError> for Error {
    open spec fn obeys_from_spec() -> bool {
        true
    }

    open spec fn from_spec(v: SledError) -> Error {
        Error::Sled(v)
    }
}

impl From<GitLibError> for Error {
    fn from(e: GitLibError) -> (r: Error) {
        Error::Git(e)
    }
}

impl vstd::std_specs::convert::FromSpecImpl<GitLibError> for Error {
    open spec fn obeys_from_spec() -> bool {
        true
    }

    open spec fn from_spec(v: GitLibError) -> Error {
        Error::Git(v)
    }
}

impl From<AnyError> for Error {
    fn from(e: AnyError) -> (r: Error) {
        Error::Other(e)
    }
}

impl vstd::std_specs::convert::FromSpecImpl<AnyError> for Error {
    open spec fn obeys_from_spec() -> bool {
        true
    }

    open spec fn from_spec(v: AnyError) -> Error {
        Error::Other(v)
    }
}

} // verus!
