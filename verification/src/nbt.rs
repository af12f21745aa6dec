//! The errors of reading and writing named binary tags.

use vstd::prelude::*;

verus! {

/// What went wrong.
#[derive(Clone, Debug, PartialEq, Eq)]
pub enum Error {
    /// What a data structure reported while it was written or read.
    Message(String),
    /// The input ended too early.
    Eof,
    /// A value without content was to be written; the format has none.
    NoUnitType,
}

impl Error {
    /// The error that reports `msg`.
    pub fn custom(msg: &str) -> (e: Error)
        ensures
            e matches Error::Message(m) && m@ == msg@,
    {
        Error::Message(String::from_str(msg))
    }

    /// What the error says.
    pub open spec fn spec_message(self) -> Seq<char> {
        match self {
            Error::Message(m) => m@,
            Error::Eof => "unexpected end of input"@,
            Error::NoUnitType => "there is no none type in NBT"@,
        }
    }

    /// What the error says.
    pub fn message(&self) -> (s: String)
        ensures
            s@ == self.spec_message(),
    {
        match self {
            Error::Message(m) => m.clone(),
            Error::Eof => String::from_str("unexpected end of input"),
            Error::NoUnitType => String::from_str("there is no none type in NBT"),
        }
    }
}

} // verus!
