//! The library's error type. Each variant carries the text that explains the
//! failure; `describe` renders the message shown to an operator.
use vstd::prelude::*;

use crate::text::{append, append_str, chars_of, decimal, decimal_chars, string_of};

verus! {

#[derive(Debug, Clone, PartialEq, Eq)]
pub enum Error {
    Cli(String),
    ConfigRead { path: String, message: String },
    ConfigSyntax { path: String, line: usize, message: String },
    Config(String),
    Io(String),
    Protocol(String),
    Service(String),
    DiagnosticUnavailable(String),
    UnsupportedPlatform(String),
}

pub type Result<T> = core::result::Result<T, Error>;

/// The operator-facing rendering of an error.
pub open spec fn error_text(e: Error) -> Seq<char> {
    match e {
        Error::Cli(m) => "invalid arguments: "@ + m@,
        Error::ConfigRead { path, message } => "could not read the configuration file "@ + path@
            + ": "@ + message@,
        Error::ConfigSyntax { path, line, message } => "invalid configuration in "@ + path@
            + ":"@ + decimal(line as nat) + ": "@ + message@,
        Error::Config(m) => "invalid configuration: "@ + m@,
        Error::Io(m) => "I/O error: "@ + m@,
        Error::Protocol(m) => "control channel error: "@ + m@,
        Error::Service(m) => "Windows service error: "@ + m@,
        Error::DiagnosticUnavailable(m) => "diagnostic capability unavailable: "@ + m@,
        Error::UnsupportedPlatform(m) => "this operation is not supported on the current platform: "@
            + m@,
    }
}

impl Error {
    /// The message an operator sees for this error.
    pub fn describe(&self) -> (r: String)
        ensures
            r@ == error_text(*self),
    {
        let mut out: Vec<char> = Vec::new();
        match self {
            Error::Cli(m) => {
                append_str(&mut out, "invalid arguments: ");
                append_str(&mut out, m.as_str());
            },
            Error::ConfigRead { path, message } => {
                append_str(&mut out, "could not read the configuration file ");
                append_str(&mut out, path.as_str());
                append_str(&mut out, ": ");
                append_str(&mut out, message.as_str());
            },
            Error::ConfigSyntax { path, line, message } => {
                append_str(&mut out, "invalid configuration in ");
                append_str(&mut out, path.as_str());
                append_str(&mut out, ":");
                let digits = decimal_chars(*line as u64);
                append(&mut out, &digits);
                append_str(&mut out, ": ");
                append_str(&mut out, message.as_str());
            },
            Error::Config(m) => {
                append_str(&mut out, "invalid configuration: ");
                append_str(&mut out, m.as_str());
            },
            Error::Io(m) => {
                append_str(&mut out, "I/O error: ");
                append_str(&mut out, m.as_str());
            },
            Error::Protocol(m) => {
                append_str(&mut out, "control channel error: ");
                append_str(&mut out, m.as_str());
            },
            Error::Service(m) => {
                append_str(&mut out, "Windows service error: ");
                append_str(&mut out, m.as_str());
            },
            Error::DiagnosticUnavailable(m) => {
                append_str(&mut out, "diagnostic capability unavailable: ");
                append_str(&mut out, m.as_str());
            },
            Error::UnsupportedPlatform(m) => {
                append_str(&mut out, "this operation is not supported on the current platform: ");
                append_str(&mut out, m.as_str());
            },
        }
        string_of(&out)
    }
}

/// An owned copy of a string slice.
pub fn owned(s: &str) -> (r: String)
    ensures
        r@ == s@,
{
    let cs = chars_of(s);
    string_of(&cs)
}

} // verus!
