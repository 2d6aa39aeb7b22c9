//! The library's error type: which part of a conversion failed, with the exit code and
//! the short code that the command line reports for it.
use vstd::prelude::*;
use crate::text::{append, string_of};

verus! {

/// Why a conversion failed.
#[derive(Debug, Clone, PartialEq, Eq)]
pub enum Error {
    /// A file or folder could not be read or written; `message` is the system's report.
    Io { path: String, message: String },
    /// NBT (or JSON) data could not be decoded or encoded.
    Nbt { context: String, message: String },
    /// The input is not a world that can be converted.
    InvalidWorld(String),
    /// The requested target version is unknown or cannot be targeted.
    UnsupportedTarget(String),
    /// The output folder cannot be used.
    Output(String),
}

/// The short code of each kind of error.
pub open spec fn code_spec(e: Error) -> Seq<char> {
    match e {
        Error::Io { .. } => "E10"@,
        Error::Nbt { .. } => "E20"@,
        Error::InvalidWorld(_) => "E30"@,
        Error::UnsupportedTarget(_) => "E40"@,
        Error::Output(_) => "E50"@,
    }
}

/// The process exit code of each kind of error.
pub open spec fn exit_code_spec(e: Error) -> i32 {
    match e {
        Error::Io { .. } => 10,
        Error::Nbt { .. } => 20,
        Error::InvalidWorld(_) => 30,
        Error::UnsupportedTarget(_) => 40,
        Error::Output(_) => 50,
    }
}

/// The text of an error, as the command line prints it after its code.
pub open spec fn message_spec(e: Error) -> Seq<char> {
    match e {
        Error::Io { path, message } => "I/O error ("@ + path@ + "): "@ + message@,
        Error::Nbt { context, message } => "NBT error ("@ + context@ + "): "@ + message@,
        Error::InvalidWorld(m) => "invalid world: "@ + m@,
        Error::UnsupportedTarget(m) => "unsupported target version: "@ + m@,
        Error::Output(m) => "output folder error: "@ + m@,
    }
}

impl Error {
    /// An I/O error on `path`, with the system's description of what went wrong.
    pub fn io(path: &str, source: &str) -> (r: Error)
        ensures
            r matches Error::Io { path: p, message: m } && p@ == path@ && m@ == source@,
    {
        Error::Io { path: string_of(path), message: string_of(source) }
    }

    /// An NBT error in `context` (a file name, usually).
    pub fn nbt(context: &str, message: &str) -> (r: Error)
        ensures
            r matches Error::Nbt { context: c, message: m } && c@ == context@ && m@ == message@,
    {
        Error::Nbt { context: string_of(context), message: string_of(message) }
    }

    /// The short code of the error (`E10` to `E50`).
    pub fn code(&self) -> (r: &'static str)
        ensures
            r@ == code_spec(*self),
    {
        match self {
            Error::Io { .. } => "E10",
            Error::Nbt { .. } => "E20",
            Error::InvalidWorld(_) => "E30",
            Error::UnsupportedTarget(_) => "E40",
            Error::Output(_) => "E50",
        }
    }

    /// The process exit code for the error (10 to 50).
    pub fn exit_code(&self) -> (r: i32)
        ensures
            r == exit_code_spec(*self),
    {
        match self {
            Error::Io { .. } => 10,
            Error::Nbt { .. } => 20,
            Error::InvalidWorld(_) => 30,
            Error::UnsupportedTarget(_) => 40,
            Error::Output(_) => 50,
        }
    }

    /// The error's text.
    pub fn message(&self) -> (r: String)
        ensures
            r@ == message_spec(*self),
    {
        match self {
            Error::Io { path, message } => {
                let mut r = string_of("I/O error (");
                append(&mut r, path.as_str());
                append(&mut r, "): ");
                append(&mut r, message.as_str());
                r
            },
            Error::Nbt { context, message } => {
                let mut r = string_of("NBT error (");
                append(&mut r, context.as_str());
                append(&mut r, "): ");
                append(&mut r, message.as_str());
                r
            },
            Error::InvalidWorld(m) => {
                let mut r = string_of("invalid world: ");
                append(&mut r, m.as_str());
                r
            },
            Error::UnsupportedTarget(m) => {
                let mut r = string_of("unsupported target version: ");
                append(&mut r, m.as_str());
                r
            },
            Error::Output(m) => {
                let mut r = string_of("output folder error: ");
                append(&mut r, m.as_str());
                r
            },
        }
    }
}

/// Every kind of error has its own exit code, ten times the number in its short code.
pub proof fn lemma_codes_agree(e: Error)
    ensures
        code_spec(e) == seq!['E', (('0' as int) + exit_code_spec(e) / 10) as char, '0'],
{
    reveal_strlit("E10");
    reveal_strlit("E20");
    reveal_strlit("E30");
    reveal_strlit("E40");
    reveal_strlit("E50");
    match e {
        Error::Io { .. } => assert(code_spec(e) =~= seq!['E', '1', '0']),
        Error::Nbt { .. } => assert(code_spec(e) =~= seq!['E', '2', '0']),
        Error::InvalidWorld(_) => assert(code_spec(e) =~= seq!['E', '3', '0']),
        Error::UnsupportedTarget(_) => assert(code_spec(e) =~= seq!['E', '4', '0']),
        Error::Output(_) => assert(code_spec(e) =~= seq!['E', '5', '0']),
    }
}

} // verus!
