//! Errors of the NDP proxy daemon.  Each carries the message of the error
//! that caused it, if any, as text; `causes` lists the chain that is logged.

use vstd::prelude::*;
use vstd::string::StringExecFns;

verus! {

/// What can stop the NDP proxy daemon.
#[derive(Debug)]
pub enum Error {
    /// The pid file is locked by another instance.
    AlreadyRunning { filename: String },
    /// Reading or writing the named file failed, for the given cause.
    FileIo { name: String, cause: String },
    /// A socket operation failed, for the given cause.
    LinuxNetworkError { cause: String },
    /// Dropping privileges failed, for the given cause.
    PrivDrop { cause: String },
    /// Setting the secure bits failed, for the given cause.
    SecurebitsError { cause: String },
    /// Waiting for a signal failed, for the given cause.
    SignalIOError { cause: String },
}

/// The message of the error itself.
pub open spec fn error_message(e: Error) -> Seq<char> {
    match e {
        Error::AlreadyRunning { filename } => "another instance already running: failed locking "@
            + filename@,
        Error::FileIo { name, .. } => "io error on file "@ + name@,
        Error::LinuxNetworkError { .. } => "io error"@,
        Error::PrivDrop { .. } => "privilege dropping error"@,
        Error::SecurebitsError { .. } => "setting securebits failed"@,
        Error::SignalIOError { .. } => "waiting for signal failed"@,
    }
}

/// The message of the error's cause, if it has one.
pub open spec fn error_cause(e: Error) -> Option<Seq<char>> {
    match e {
        Error::AlreadyRunning { .. } => None,
        Error::FileIo { cause, .. } => Some(cause@),
        Error::LinuxNetworkError { cause } => Some(cause@),
        Error::PrivDrop { cause } => Some(cause@),
        Error::SecurebitsError { cause } => Some(cause@),
        Error::SignalIOError { cause } => Some(cause@),
    }
}

impl Error {
    /// The message of the error itself (what it displays as).
    pub fn message(&self) -> (res: String)
        ensures
            res@ == error_message(*self),
    {
        match self {
            Error::AlreadyRunning { filename } => {
                let mut out = String::from_str("another instance already running: failed locking ");
                out.append(filename.as_str());
                out
            },
            Error::FileIo { name, .. } => {
                let mut out = String::from_str("io error on file ");
                out.append(name.as_str());
                out
            },
            Error::LinuxNetworkError { .. } => String::from_str("io error"),
            Error::PrivDrop { .. } => String::from_str("privilege dropping error"),
            Error::SecurebitsError { .. } => String::from_str("setting securebits failed"),
            Error::SignalIOError { .. } => String::from_str("waiting for signal failed"),
        }
    }

    /// The chain of messages that is logged for the error: its own, then
    /// that of its cause, if it has one.
    pub fn causes(&self) -> (res: Vec<String>)
        ensures
            error_cause(*self) is None ==> res@.len() == 1,
            error_cause(*self) matches Some(c) ==> res@.len() == 2 && res@[1]@ == c,
            res@[0]@ == error_message(*self),
    {
        let mut res: Vec<String> = Vec::new();
        res.push(self.message());
        match self {
            Error::AlreadyRunning { .. } => {},
            Error::FileIo { cause, .. } => res.push(String::from_str(cause.as_str())),
            Error::LinuxNetworkError { cause } => res.push(String::from_str(cause.as_str())),
            Error::PrivDrop { cause } => res.push(String::from_str(cause.as_str())),
            Error::SecurebitsError { cause } => res.push(String::from_str(cause.as_str())),
            Error::SignalIOError { cause } => res.push(String::from_str(cause.as_str())),
        }
        res
    }
}

} // verus!
