use vstd::prelude::*;

verus! {

/// The errors that the contract's operations report.
#[derive(Copy, Clone, Debug, PartialEq, Eq, Structural, PartialOrd, Ord)]
pub enum Error {
    InvalidInput,
    AlreadyExists,
    NotFound,
    ContractPaused,
    AlreadyPaused,
    NotPaused,
    Unauthorized,
    InsufficientBalance,
    InvalidAmount,
}

impl Error {
    /// The numeric code under which the host reports this error.
    pub open spec fn spec_code(self) -> u32 {
        match self {
            Error::InvalidInput => 1,
            Error::AlreadyExists => 2,
            Error::NotFound => 3,
            Error::ContractPaused => 4,
            Error::AlreadyPaused => 5,
            Error::NotPaused => 6,
            Error::Unauthorized => 7,
            Error::InsufficientBalance => 8,
            Error::InvalidAmount => 9,
        }
    }

    /// The numeric code under which the host reports this error.
    pub fn code(&self) -> (c: u32)
        ensures
            c == self.spec_code(),
    {
        match self {
            Error::InvalidInput => 1,
            Error::AlreadyExists => 2,
            Error::NotFound => 3,
            Error::ContractPaused => 4,
            Error::AlreadyPaused => 5,
            Error::NotPaused => 6,
            Error::Unauthorized => 7,
            Error::InsufficientBalance => 8,
            Error::InvalidAmount => 9,
        }
    }

    /// The error with the given numeric code, if there is one.
    pub fn from_code(code: u32) -> (r: Option<Error>)
        ensures
            match r {
                Some(e) => e.spec_code() == code,
                None => code < 1 || code > 9,
            },
    {
        match code {
            1 => Some(Error::InvalidInput),
            2 => Some(Error::AlreadyExists),
            3 => Some(Error::NotFound),
            4 => Some(Error::ContractPaused),
            5 => Some(Error::AlreadyPaused),
            6 => Some(Error::NotPaused),
            7 => Some(Error::Unauthorized),
            8 => Some(Error::InsufficientBalance),
            9 => Some(Error::InvalidAmount),
            _ => None,
        }
    }
}

} // verus!
