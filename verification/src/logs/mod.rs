//! The kinds of log message.
use vstd::prelude::*;

verus! {

/// The kind of a log message.
#[derive(Clone, Copy, Debug, PartialEq, Eq, Structural)]
pub enum Log {
    Success,
    Error,
    Info,
    Warn,
}

impl Log {
    /// The label that a message of this kind is printed with.
    pub fn label(&self) -> (r: &'static str)
        ensures
            r@ == match self {
                Log::Success => "OK"@,
                Log::Error => "Error"@,
                Log::Info => "Info"@,
                Log::Warn => "Warn"@,
            },
    {
        match self {
            Log::Success => "OK",
            Log::Error => "Error",
            Log::Info => "Info",
            Log::Warn => "Warn",
        }
    }
}

} // verus!
