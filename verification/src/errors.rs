use vstd::prelude::*;

verus! {

/// The closed failure taxonomy of the precompile core.
///
/// Every failure that can arise while dispatching, decoding or validating a
/// call maps to exactly one of these kinds, and each kind carries a stable
/// nonzero wire code; the code zero is reserved for success. Callers branch
/// on these codes, so the mapping is part of the wire contract.
#[derive(Clone, Copy, PartialEq, Eq, Structural, Debug)]
pub enum Error {
    /// The payload is shorter than the 4-byte selector.
    WrongSelectorLength,
    /// The 4-byte prefix is not present in the operation registry.
    UnknownSelector,
    /// The argument tuple does not decode under the operation's schema, or a
    /// decoded word is not a valid encoding for its slot.
    ParseDataFailed,
    /// A decoded index or parameter violates its declared range.
    InputOutOfBound,
    /// Parallel dynamic fields of a verification call disagree in length.
    MismatchedLengths,
}

/// The wire code of each failure kind.
pub open spec fn code_of(e: Error) -> u8 {
    match e {
        Error::WrongSelectorLength => 1,
        Error::UnknownSelector => 2,
        Error::ParseDataFailed => 3,
        Error::InputOutOfBound => 4,
        Error::MismatchedLengths => 5,
    }
}

impl Error {
    /// The stable nonzero byte written into the output buffer for this failure.
    pub fn code(&self) -> (c: u8)
        ensures
            c == code_of(*self),
            c != 0,
    {
        match self {
            Error::WrongSelectorLength => 1,
            Error::UnknownSelector => 2,
            Error::ParseDataFailed => 3,
            Error::InputOutOfBound => 4,
            Error::MismatchedLengths => 5,
        }
    }
}

/// No two failure kinds share a wire code, and no kind uses the success code.
pub proof fn lemma_codes_distinct(a: Error, b: Error)
    ensures
        code_of(a) != 0,
        code_of(a) == code_of(b) ==> a == b,
{
}

} // verus!
