//! Why a kernel report could not be read.
use vstd::prelude::*;

verus! {

/// A report did not hold what the monitor looks for in it.
pub enum InfoError {
    /// The word was not among the report's words.
    NotFound(String),
    /// The word was the report's last word: no value follows it.
    NoValue(String),
    /// The text where a number belongs is not a number of the needed type.
    NotANumber(String),
    /// The text where an amount belongs is not an integer numeral that
    /// fits `u64`; it may still be a floating-point numeral.
    NotAnInteger(String),
    /// The sum of two numbers of the report does not fit its type.
    TooLarge,
}

/// What an `InfoError` says, over character sequences.
pub enum Fault {
    NotFound(Seq<char>),
    NoValue(Seq<char>),
    NotANumber(Seq<char>),
    NotAnInteger(Seq<char>),
    TooLarge,
}

impl View for InfoError {
    type V = Fault;

    open spec fn view(&self) -> Fault {
        match self {
            InfoError::NotFound(w) => Fault::NotFound(w@),
            InfoError::NoValue(w) => Fault::NoValue(w@),
            InfoError::NotANumber(t) => Fault::NotANumber(t@),
            InfoError::NotAnInteger(t) => Fault::NotAnInteger(t@),
            InfoError::TooLarge => Fault::TooLarge,
        }
    }
}

} // verus!
