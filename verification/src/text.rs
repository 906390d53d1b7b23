//! Length-prefixed UTF-8 string encode and decode, built on the scalar
//! codec for the length prefix.

use crate::error::DeserializationError;
use crate::le::{le_bytes, le_value, lemma_pow256_values};
use crate::scalar::{consume, push_le, read_le};
use vstd::prelude::*;
use vstd::string::StrSliceExecFns;
use vstd::utf8::{decode_utf8, encode_utf8, valid_utf8};

verus! {

/// The wire encoding of a string: an eight-byte little-endian length
/// prefix holding the UTF-8 payload's byte count, then the payload.
pub open spec fn spec_string_enc(s: Seq<char>) -> Seq<u8> {
    le_bytes(encode_utf8(s).len(), 8) + encode_utf8(s)
}

/// The outcome of removing one string from the front of a byte buffer:
/// the decoded characters or the error, paired with the bytes left behind.
/// A missing length prefix leaves the buffer untouched; any later failure
/// leaves the prefix, and the payload it declared, consumed.
pub open spec fn spec_take_string(b: Seq<u8>) -> (Result<
    Seq<char>,
    DeserializationError,
>, Seq<u8>) {
    if b.len() < 8 {
        (Err(DeserializationError::UnexpectedByteCount(8, b.len() as u64)), b)
    } else {
        let declared = le_value(b.take(8));
        let rest = b.skip(8);
        if declared > rest.len() {
            (
                Err(
                    DeserializationError::UnexpectedByteCount(declared as u64, rest.len() as u64),
                ),
                rest,
            )
        } else {
            let payload = rest.take(declared as int);
            let tail = rest.skip(declared as int);
            if valid_utf8(payload) {
                (Ok(decode_utf8(payload)), tail)
            } else {
                (Err(DeserializationError::InvalidString), tail)
            }
        }
    }
}

/// Relies on `String::from_utf8`: it returns the string decoded from the
/// given bytes exactly when they are a valid UTF-8 sequence, and reports
/// the encoding fault otherwise.
#[verifier::external_body]
fn string_from_utf8(bytes: Vec<u8>) -> (r: Option<String>)
    ensures
        r is Some <==> valid_utf8(bytes@),
        r matches Some(s) ==> s@ == decode_utf8(bytes@),
{
    String::from_utf8(bytes).ok()
}

/// Removes the first `n` bytes from the front of the buffer and hands
/// them back as their own vector.
fn take_front(buffer: &mut Vec<u8>, n: usize) -> (front: Vec<u8>)
    requires
        n <= old(buffer)@.len(),
    ensures
        front@ == old(buffer)@.take(n as int),
        final(buffer)@ == old(buffer)@.skip(n as int),
{
    let mut rest = buffer.split_off(n);
    core::mem::swap(buffer, &mut rest);
    proof {
        assert(old(buffer)@.subrange(n as int, old(buffer)@.len() as int) =~= old(
            buffer,
        )@.skip(n as int));
        assert(old(buffer)@.subrange(0, n as int) =~= old(buffer)@.take(n as int));
    }
    rest
}

/// Appends the string's wire encoding to the buffer: the eight-byte
/// little-endian byte count of its UTF-8 form, then the UTF-8 bytes.
pub fn serialize_string(value: &str, buffer: &mut Vec<u8>)
    ensures
        final(buffer)@ == old(buffer)@ + spec_string_enc(value@),
{
    proof {
        lemma_pow256_values();
    }
    let mut payload = value.as_bytes_vec();
    push_le(buffer, payload.len() as u128, 8);
    buffer.append(&mut payload);
    proof {
        assert(old(buffer)@ + le_bytes(encode_utf8(value@).len(), 8) + encode_utf8(value@) =~= old(
            buffer,
        )@ + spec_string_enc(value@));
    }
}

/// Removes the next string value from the front of the buffer. A buffer
/// too short for the length prefix is left unchanged; after the prefix is
/// read, its declared payload is consumed whether or not decoding
/// succeeds, and a payload longer than the remaining buffer fails with the
/// declared and the available byte counts.
pub fn deserialize_string(buffer: &mut Vec<u8>) -> (r: Result<String, DeserializationError>)
    ensures
        final(buffer)@ == spec_take_string(old(buffer)@).1,
        (match spec_take_string(old(buffer)@).0 {
            Ok(chars) => r matches Ok(s) && s@ == chars,
            Err(e) => r matches Err(e2) && e2 == e,
        }),
{
    proof {
        lemma_pow256_values();
    }
    if buffer.len() < 8 {
        return Err(DeserializationError::UnexpectedByteCount(8, buffer.len() as u64));
    }
    let declared = read_le(buffer, 8) as u64;
    consume(buffer, 8);
    if declared > buffer.len() as u64 {
        return Err(DeserializationError::UnexpectedByteCount(declared, buffer.len() as u64));
    }
    let payload = take_front(buffer, declared as usize);
    match string_from_utf8(payload) {
        Some(text) => Ok(text),
        None => Err(DeserializationError::InvalidString),
    }
}

} // verus!
