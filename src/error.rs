use vstd::prelude::*;

use crate::text::{push_str, string_of};

verus! {

/// An error for the user: what kind of failure, and a message.
#[derive(Debug)]
pub struct JanitorError {
    pub kind: String,
    pub message: String,
}

impl JanitorError {
    pub fn new(kind: &str, message: &str) -> (r: JanitorError)
        ensures
            r.kind@ == kind@,
            r.message@ == message@,
    {
        JanitorError { kind: String::from_str(kind), message: String::from_str(message) }
    }

    /// An error with a message only; its kind is `unknown`.
    pub fn from_message(message: &str) -> (r: JanitorError)
        ensures
            r.kind@ == "unknown"@,
            r.message@ == message@,
    {
        JanitorError::new("unknown", message)
    }

    /// An input or output failure, from the text of the I/O error.
    pub fn io(message: &str) -> (r: JanitorError)
        ensures
            r.kind@ == "io"@,
            r.message@ == message@,
    {
        JanitorError::new("io", message)
    }

    /// `Error type <kind> occurred with message <message>`.
    pub fn describe(&self) -> (r: String)
        ensures
            r@ == "Error type "@ + self.kind@ + " occurred with message "@ + self.message@,
    {
        let mut out: Vec<char> = Vec::new();
        push_str(&mut out, "Error type ");
        push_str(&mut out, self.kind.as_str());
        push_str(&mut out, " occurred with message ");
        push_str(&mut out, self.message.as_str());
        string_of(out.as_slice())
    }
}

} // verus!
