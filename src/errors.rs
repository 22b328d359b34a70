use vstd::prelude::*;
use vstd::string::StringExecFns;

verus! {

/// A character sequence that no lexical rule matches.
#[derive(Clone, Debug)]
pub struct LexicalError {
    /// Byte offset of the offending character.
    pub position: usize,
    /// The offending character.
    pub offending_text: String,
}

/// An error of the surrounding program.
#[derive(Debug)]
pub enum LokiError {
    Internal(String),
}

impl LokiError {
    /// The text shown to a user.
    pub fn message(&self) -> (r: String)
        ensures
            match self {
                LokiError::Internal(m) => r@ == "LOKI ERROR: "@ + m@,
            },
    {
        match self {
            LokiError::Internal(m) => {
                let mut r = String::from_str("LOKI ERROR: ");
                r.append(m.as_str());
                r
            },
        }
    }
}

} // verus!
