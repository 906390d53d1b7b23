//! The codec's error taxonomy. Every failure is reported to the caller;
//! nothing is retried inside the codec.

use vstd::prelude::*;

verus! {

/// An enumeration of errors that can occur during deserialization.
#[derive(Debug)]
pub enum DeserializationError {
    /// Fewer bytes were available than a read required. The first count is
    /// how many bytes the read needed, the second how many were there.
    UnexpectedByteCount(u64, u64),
    /// A byte payload declared as a string held an invalid UTF-8 sequence.
    InvalidString,
    /// A decoded value could not be converted into the caller's requested
    /// target type; carries a description of the failed conversion.
    InvalidValue(String),
}

impl PartialEq for DeserializationError {
    fn eq(&self, other: &Self) -> bool {
        match (self, other) {
            (
                DeserializationError::UnexpectedByteCount(expected, actual),
                DeserializationError::UnexpectedByteCount(expected2, actual2),
            ) => *expected == *expected2 && *actual == *actual2,
            (DeserializationError::InvalidString, DeserializationError::InvalidString) => true,
            (
                DeserializationError::InvalidValue(message),
                DeserializationError::InvalidValue(message2),
            ) => String::eq(message, message2),
            _ => false,
        }
    }
}

impl vstd::std_specs::cmp::PartialEqSpecImpl for DeserializationError {
    open spec fn obeys_eq_spec() -> bool {
        true
    }

    open spec fn eq_spec(&self, other: &Self) -> bool {
        match (self, other) {
            (
                DeserializationError::UnexpectedByteCount(expected, actual),
                DeserializationError::UnexpectedByteCount(expected2, actual2),
            ) => expected == expected2 && actual == actual2,
            (DeserializationError::InvalidString, DeserializationError::InvalidString) => true,
            (
                DeserializationError::InvalidValue(message),
                DeserializationError::InvalidValue(message2),
            ) => message@ == message2@,
            _ => false,
        }
    }
}

} // verus!
