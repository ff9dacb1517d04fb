//! The closed set of failures.
use vstd::prelude::*;
use crate::text::{decimal, push_decimal};

verus! {

/// What can go wrong when reading UUID text or Base58 text.
#[derive(Debug, Clone, PartialEq)]
pub enum B58UUIDError {
    /// A hex group of UUID text did not parse; the message gives its position.
    InvalidUUID(String),
    /// Base58 text was empty, held a character outside the alphabet, or began
    /// with too many zero-symbols.
    InvalidBase58(String),
    /// UUID text without its hyphens did not have the expected length.
    InvalidLength { expected: usize, got: usize },
    /// The decoded value does not fit in 128 bits.
    Overflow,
}

/// The mathematical value of a `B58UUIDError`.
pub enum ErrorView {
    InvalidUUID(Seq<char>),
    InvalidBase58(Seq<char>),
    InvalidLength { expected: nat, got: nat },
    Overflow,
}

impl View for B58UUIDError {
    type V = ErrorView;

    open spec fn view(&self) -> ErrorView {
        match self {
            B58UUIDError::InvalidUUID(m) => ErrorView::InvalidUUID(m@),
            B58UUIDError::InvalidBase58(m) => ErrorView::InvalidBase58(m@),
            B58UUIDError::InvalidLength { expected, got } => ErrorView::InvalidLength {
                expected: *expected as nat,
                got: *got as nat,
            },
            B58UUIDError::Overflow => ErrorView::Overflow,
        }
    }
}

/// The diagnostic text of an error.
pub open spec fn message_of(e: ErrorView) -> Seq<char> {
    match e {
        ErrorView::InvalidUUID(m) => "Invalid UUID: "@ + m,
        ErrorView::InvalidBase58(m) => "Invalid Base58: "@ + m,
        ErrorView::InvalidLength { expected, got } => "Invalid length: expected "@ + decimal(
            expected,
        ) + ", got "@ + decimal(got),
        ErrorView::Overflow => "Arithmetic overflow: value exceeds maximum UUID value"@,
    }
}

impl B58UUIDError {
    /// The diagnostic text of this error.
    pub fn message(&self) -> (r: String)
        ensures
            r@ == message_of(self@),
    {
        match self {
            B58UUIDError::InvalidUUID(m) => {
                let mut s = String::from_str("Invalid UUID: ");
                s.append(m.as_str());
                s
            },
            B58UUIDError::InvalidBase58(m) => {
                let mut s = String::from_str("Invalid Base58: ");
                s.append(m.as_str());
                s
            },
            B58UUIDError::InvalidLength { expected, got } => {
                let mut s = String::from_str("Invalid length: expected ");
                push_decimal(&mut s, *expected);
                s.append(", got ");
                push_decimal(&mut s, *got);
                s
            },
            B58UUIDError::Overflow => String::from_str(
                "Arithmetic overflow: value exceeds maximum UUID value",
            ),
        }
    }
}

} // verus!
