//! Fixed-width little-endian encode and decode of the integer scalars.
//!
//! Serialization appends the value's bytes to the end of the buffer and
//! cannot fail. Deserialization reads the leading bytes, removes them from
//! the front of the buffer, and is all-or-nothing: on failure the buffer is
//! left untouched.

use crate::error::DeserializationError;
use crate::le::{
    le_bytes, le_value, lemma_le_bytes_step, lemma_pow256_increases, lemma_pow256_values, pow256,
    signed_of, unsigned_of,
};
use vstd::arithmetic::div_mod::lemma_div_denominator;
use vstd::prelude::*;
use vstd::string::StringExecFns;

verus! {

/// Appends the `n`-byte little-endian encoding of `v` to the buffer.
pub(crate) fn push_le(buffer: &mut Vec<u8>, v: u128, n: usize)
    requires
        n <= 16,
        (v as nat) < pow256(n as nat),
    ensures
        final(buffer)@ == old(buffer)@ + le_bytes(v as nat, n as nat),
{
    let ghost whole: nat = v as nat;
    let mut x: u128 = v;
    let mut i: usize = 0;
    proof {
        assert(old(buffer)@ + le_bytes(whole, 0) =~= old(buffer)@);
        assert(whole / 1 == whole);
    }
    while i < n
        invariant
            i <= n,
            n <= 16,
            buffer@ == old(buffer)@ + le_bytes(whole, i as nat),
            x as nat == whole / pow256(i as nat),
        decreases n - i,
    {
        proof {
            lemma_le_bytes_step(whole, i as nat);
            assert((old(buffer)@ + le_bytes(whole, i as nat)).push(
                ((whole / pow256(i as nat)) % 256) as u8,
            ) =~= old(buffer)@ + le_bytes(whole, (i + 1) as nat));
            assert(pow256((i + 1) as nat) == 256 * pow256(i as nat));
            crate::le::lemma_pow256_pos(i as nat);
            lemma_div_denominator(whole as int, pow256(i as nat) as int, 256);
        }
        buffer.push((x % 256) as u8);
        x = x / 256;
        i = i + 1;
    }
}

/// Reads the first `n` bytes of the buffer as a little-endian value,
/// without consuming them.
pub(crate) fn read_le(buffer: &Vec<u8>, n: usize) -> (r: u128)
    requires
        n <= 16,
        n <= buffer@.len(),
    ensures
        r as nat == le_value(buffer@.take(n as int)),
        (r as nat) < pow256(n as nat),
{
    let mut value: u128 = 0;
    let mut i: usize = n;
    while i > 0
        invariant
            i <= n,
            n <= 16,
            n <= buffer@.len(),
            value as nat == le_value(buffer@.subrange(i as int, n as int)),
            (value as nat) < pow256((n - i) as nat),
        decreases i,
    {
        i = i - 1;
        proof {
            assert(buffer@.subrange(i as int, n as int).drop_first() =~= buffer@.subrange(
                i + 1,
                n as int,
            ));
            assert(pow256((n - i) as nat) == 256 * pow256((n - i - 1) as nat));
            lemma_pow256_increases((n - i) as nat, 16);
            lemma_pow256_values();
        }
        value = value * 256 + (buffer[i] as u128);
    }
    proof {
        assert(buffer@.subrange(0, n as int) =~= buffer@.take(n as int));
    }
    value
}

/// Removes the first `n` bytes from the front of the buffer.
pub(crate) fn consume(buffer: &mut Vec<u8>, n: usize)
    requires
        n <= old(buffer)@.len(),
    ensures
        final(buffer)@ == old(buffer)@.skip(n as int),
{
    let rest = buffer.split_off(n);
    *buffer = rest;
    proof {
        assert(old(buffer)@.subrange(n as int, old(buffer)@.len() as int) =~= old(
            buffer,
        )@.skip(n as int));
    }
}

/// Reads an `n`-byte little-endian value from the front of the buffer and
/// consumes its bytes; when the buffer is shorter than `n`, reports the
/// shortfall and leaves the buffer unchanged.
fn take_le(buffer: &mut Vec<u8>, n: usize) -> (r: Result<u128, DeserializationError>)
    requires
        1 <= n <= 16,
    ensures
        old(buffer)@.len() < n ==> (r matches Err(e) && e == DeserializationError::UnexpectedByteCount(
            n as u64,
            old(buffer)@.len() as u64,
        ) && final(buffer)@ == old(buffer)@),
        old(buffer)@.len() >= n ==> (r matches Ok(v) && v as nat == le_value(
            old(buffer)@.take(n as int),
        ) && (v as nat) < pow256(n as nat) && final(buffer)@ == old(buffer)@.skip(n as int)),
{
    if buffer.len() < n {
        return Err(DeserializationError::UnexpectedByteCount(n as u64, buffer.len() as u64));
    }
    let value = read_le(buffer, n);
    consume(buffer, n);
    Ok(value)
}

/// Appends the given numeric value to the buffer.
pub fn serialize_u8(value: u8, buffer: &mut Vec<u8>)
    ensures
        final(buffer)@ == old(buffer)@ + le_bytes(value as nat, 1),
{
    proof {
        lemma_pow256_values();
    }
    push_le(buffer, value as u128, 1);
}

/// Appends the given numeric value to the buffer.
pub fn serialize_u16(value: u16, buffer: &mut Vec<u8>)
    ensures
        final(buffer)@ == old(buffer)@ + le_bytes(value as nat, 2),
{
    proof {
        lemma_pow256_values();
    }
    push_le(buffer, value as u128, 2);
}

/// Appends the given numeric value to the buffer.
pub fn serialize_u32(value: u32, buffer: &mut Vec<u8>)
    ensures
        final(buffer)@ == old(buffer)@ + le_bytes(value as nat, 4),
{
    proof {
        lemma_pow256_values();
    }
    push_le(buffer, value as u128, 4);
}

/// Appends the given numeric value to the buffer.
pub fn serialize_u64(value: u64, buffer: &mut Vec<u8>)
    ensures
        final(buffer)@ == old(buffer)@ + le_bytes(value as nat, 8),
{
    proof {
        lemma_pow256_values();
    }
    push_le(buffer, value as u128, 8);
}

/// Appends the given numeric value to the buffer.
pub fn serialize_u128(value: u128, buffer: &mut Vec<u8>)
    ensures
        final(buffer)@ == old(buffer)@ + le_bytes(value as nat, 16),
{
    proof {
        lemma_pow256_values();
    }
    push_le(buffer, value, 16);
}

/// Appends the given numeric value to the buffer, as the fixed eight-byte
/// length-field width of the wire format.
pub fn serialize_usize(value: usize, buffer: &mut Vec<u8>)
    ensures
        final(buffer)@ == old(buffer)@ + le_bytes(value as nat, 8),
{
    proof {
        lemma_pow256_values();
    }
    push_le(buffer, value as u128, 8);
}

/// Appends the given numeric value to the buffer, in two's complement.
pub fn serialize_i8(value: i8, buffer: &mut Vec<u8>)
    ensures
        final(buffer)@ == old(buffer)@ + le_bytes(unsigned_of(value as int, 1), 1),
{
    proof {
        lemma_pow256_values();
    }
    let unsigned: u8 = if value >= 0 {
        value as u8
    } else {
        (((value as i16) + 0x100) as u8)
    };
    push_le(buffer, unsigned as u128, 1);
}

/// Appends the given numeric value to the buffer, in two's complement.
pub fn serialize_i16(value: i16, buffer: &mut Vec<u8>)
    ensures
        final(buffer)@ == old(buffer)@ + le_bytes(unsigned_of(value as int, 2), 2),
{
    proof {
        lemma_pow256_values();
    }
    let unsigned: u16 = if value >= 0 {
        value as u16
    } else {
        (((value as i32) + 0x1_0000) as u16)
    };
    push_le(buffer, unsigned as u128, 2);
}

/// Appends the given numeric value to the buffer, in two's complement.
pub fn serialize_i32(value: i32, buffer: &mut Vec<u8>)
    ensures
        final(buffer)@ == old(buffer)@ + le_bytes(unsigned_of(value as int, 4), 4),
{
    proof {
        lemma_pow256_values();
    }
    let unsigned: u32 = if value >= 0 {
        value as u32
    } else {
        (((value as i64) + 0x1_0000_0000) as u32)
    };
    push_le(buffer, unsigned as u128, 4);
}

/// Appends the given numeric value to the buffer, in two's complement.
pub fn serialize_i64(value: i64, buffer: &mut Vec<u8>)
    ensures
        final(buffer)@ == old(buffer)@ + le_bytes(unsigned_of(value as int, 8), 8),
{
    proof {
        lemma_pow256_values();
    }
    let unsigned: u64 = if value >= 0 {
        value as u64
    } else {
        (((value as i128) + 0x1_0000_0000_0000_0000) as u64)
    };
    push_le(buffer, unsigned as u128, 8);
}

/// Appends the given numeric value to the buffer, in two's complement.
pub fn serialize_i128(value: i128, buffer: &mut Vec<u8>)
    ensures
        final(buffer)@ == old(buffer)@ + le_bytes(unsigned_of(value as int, 16), 16),
{
    proof {
        lemma_pow256_values();
    }
    let unsigned: u128 = if value >= 0 {
        value as u128
    } else {
        ((value - i128::MIN) as u128) + 0x8000_0000_0000_0000_0000_0000_0000_0000
    };
    push_le(buffer, unsigned, 16);
}

/// Appends the given numeric value to the buffer, in two's complement, as
/// the fixed eight-byte length-field width of the wire format.
pub fn serialize_isize(value: isize, buffer: &mut Vec<u8>)
    ensures
        final(buffer)@ == old(buffer)@ + le_bytes(unsigned_of(value as int, 8), 8),
{
    proof {
        lemma_pow256_values();
    }
    let unsigned: u64 = if value >= 0 {
        value as u64
    } else {
        (((value as i128) + 0x1_0000_0000_0000_0000) as u64)
    };
    push_le(buffer, unsigned as u128, 8);
}

/// Removes the next numeric value from the front of the buffer. If the
/// buffer holds fewer bytes than the value needs, the buffer is unchanged
/// and an error is returned.
pub fn deserialize_u8(buffer: &mut Vec<u8>) -> (r: Result<u8, DeserializationError>)
    ensures
        old(buffer)@.len() < 1 ==> (r matches Err(e) && e == DeserializationError::UnexpectedByteCount(
            1,
            old(buffer)@.len() as u64,
        ) && final(buffer)@ == old(buffer)@),
        old(buffer)@.len() >= 1 ==> (r matches Ok(v) && v as nat == le_value(old(buffer)@.take(1))
            && final(buffer)@ == old(buffer)@.skip(1)),
{
    proof {
        lemma_pow256_values();
    }
    match take_le(buffer, 1) {
        Ok(raw) => Ok(raw as u8),
        Err(e) => Err(e),
    }
}

/// Removes the next numeric value from the front of the buffer. If the
/// buffer holds fewer bytes than the value needs, the buffer is unchanged
/// and an error is returned.
pub fn deserialize_u16(buffer: &mut Vec<u8>) -> (r: Result<u16, DeserializationError>)
    ensures
        old(buffer)@.len() < 2 ==> (r matches Err(e) && e == DeserializationError::UnexpectedByteCount(
            2,
            old(buffer)@.len() as u64,
        ) && final(buffer)@ == old(buffer)@),
        old(buffer)@.len() >= 2 ==> (r matches Ok(v) && v as nat == le_value(old(buffer)@.take(2))
            && final(buffer)@ == old(buffer)@.skip(2)),
{
    proof {
        lemma_pow256_values();
    }
    match take_le(buffer, 2) {
        Ok(raw) => Ok(raw as u16),
        Err(e) => Err(e),
    }
}

/// Removes the next numeric value from the front of the buffer. If the
/// buffer holds fewer bytes than the value needs, the buffer is unchanged
/// and an error is returned.
pub fn deserialize_u32(buffer: &mut Vec<u8>) -> (r: Result<u32, DeserializationError>)
    ensures
        old(buffer)@.len() < 4 ==> (r matches Err(e) && e == DeserializationError::UnexpectedByteCount(
            4,
            old(buffer)@.len() as u64,
        ) && final(buffer)@ == old(buffer)@),
        old(buffer)@.len() >= 4 ==> (r matches Ok(v) && v as nat == le_value(old(buffer)@.take(4))
            && final(buffer)@ == old(buffer)@.skip(4)),
{
    proof {
        lemma_pow256_values();
    }
    match take_le(buffer, 4) {
        Ok(raw) => Ok(raw as u32),
        Err(e) => Err(e),
    }
}

/// Removes the next numeric value from the front of the buffer. If the
/// buffer holds fewer bytes than the value needs, the buffer is unchanged
/// and an error is returned.
pub fn deserialize_u64(buffer: &mut Vec<u8>) -> (r: Result<u64, DeserializationError>)
    ensures
        old(buffer)@.len() < 8 ==> (r matches Err(e) && e == DeserializationError::UnexpectedByteCount(
            8,
            old(buffer)@.len() as u64,
        ) && final(buffer)@ == old(buffer)@),
        old(buffer)@.len() >= 8 ==> (r matches Ok(v) && v as nat == le_value(old(buffer)@.take(8))
            && final(buffer)@ == old(buffer)@.skip(8)),
{
    proof {
        lemma_pow256_values();
    }
    match take_le(buffer, 8) {
        Ok(raw) => Ok(raw as u64),
        Err(e) => Err(e),
    }
}

/// Removes the next numeric value from the front of the buffer. If the
/// buffer holds fewer bytes than the value needs, the buffer is unchanged
/// and an error is returned.
pub fn deserialize_u128(buffer: &mut Vec<u8>) -> (r: Result<u128, DeserializationError>)
    ensures
        old(buffer)@.len() < 16 ==> (r matches Err(e) && e
            == DeserializationError::UnexpectedByteCount(16, old(buffer)@.len() as u64) && final(buffer)@ == old(buffer)@),
        old(buffer)@.len() >= 16 ==> (r matches Ok(v) && v as nat == le_value(old(buffer)@.take(16))
            && final(buffer)@ == old(buffer)@.skip(16)),
{
    take_le(buffer, 16)
}

/// Removes the next numeric value from the front of the buffer, reading the
/// fixed eight-byte length-field width of the wire format. If the buffer
/// holds fewer than eight bytes, or the value does not fit in `usize`, the
/// buffer is unchanged and an error is returned.
pub fn deserialize_usize(buffer: &mut Vec<u8>) -> (r: Result<usize, DeserializationError>)
    ensures
        old(buffer)@.len() < 8 ==> (r matches Err(e) && e == DeserializationError::UnexpectedByteCount(
            8,
            old(buffer)@.len() as u64,
        ) && final(buffer)@ == old(buffer)@),
        old(buffer)@.len() >= 8 && le_value(old(buffer)@.take(8)) <= usize::MAX ==> (r matches Ok(v)
            && v as nat == le_value(old(buffer)@.take(8)) && final(buffer)@ == old(buffer)@.skip(8)),
        old(buffer)@.len() >= 8 && le_value(old(buffer)@.take(8)) > usize::MAX ==> (r matches Err(e)
            && e matches DeserializationError::InvalidValue(_) && final(buffer)@ == old(buffer)@),
{
    proof {
        lemma_pow256_values();
    }
    if buffer.len() < 8 {
        return Err(DeserializationError::UnexpectedByteCount(8, buffer.len() as u64));
    }
    let raw = read_le(buffer, 8);
    if raw > usize::MAX as u128 {
        return Err(
            DeserializationError::InvalidValue(
                String::from_str("length does not fit in a pointer-sized integer"),
            ),
        );
    }
    consume(buffer, 8);
    Ok(raw as usize)
}

/// Removes the next numeric value from the front of the buffer, decoding
/// two's complement. If the buffer holds fewer bytes than the value needs,
/// the buffer is unchanged and an error is returned.
pub fn deserialize_i8(buffer: &mut Vec<u8>) -> (r: Result<i8, DeserializationError>)
    ensures
        old(buffer)@.len() < 1 ==> (r matches Err(e) && e == DeserializationError::UnexpectedByteCount(
            1,
            old(buffer)@.len() as u64,
        ) && final(buffer)@ == old(buffer)@),
        old(buffer)@.len() >= 1 ==> (r matches Ok(v) && v as int == signed_of(
            le_value(old(buffer)@.take(1)),
            1,
        ) && final(buffer)@ == old(buffer)@.skip(1)),
{
    proof {
        lemma_pow256_values();
    }
    match take_le(buffer, 1) {
        Ok(raw) => {
            let narrow = raw as u8;
            if narrow < 0x80 {
                Ok(narrow as i8)
            } else {
                Ok((((narrow as i16) - 0x100) as i8))
            }
        },
        Err(e) => Err(e),
    }
}

/// Removes the next numeric value from the front of the buffer, decoding
/// two's complement. If the buffer holds fewer bytes than the value needs,
/// the buffer is unchanged and an error is returned.
pub fn deserialize_i16(buffer: &mut Vec<u8>) -> (r: Result<i16, DeserializationError>)
    ensures
        old(buffer)@.len() < 2 ==> (r matches Err(e) && e == DeserializationError::UnexpectedByteCount(
            2,
            old(buffer)@.len() as u64,
        ) && final(buffer)@ == old(buffer)@),
        old(buffer)@.len() >= 2 ==> (r matches Ok(v) && v as int == signed_of(
            le_value(old(buffer)@.take(2)),
            2,
        ) && final(buffer)@ == old(buffer)@.skip(2)),
{
    proof {
        lemma_pow256_values();
    }
    match take_le(buffer, 2) {
        Ok(raw) => {
            let narrow = raw as u16;
            if narrow < 0x8000 {
                Ok(narrow as i16)
            } else {
                Ok((((narrow as i32) - 0x1_0000) as i16))
            }
        },
        Err(e) => Err(e),
    }
}

/// Removes the next numeric value from the front of the buffer, decoding
/// two's complement. If the buffer holds fewer bytes than the value needs,
/// the buffer is unchanged and an error is returned.
pub fn deserialize_i32(buffer: &mut Vec<u8>) -> (r: Result<i32, DeserializationError>)
    ensures
        old(buffer)@.len() < 4 ==> (r matches Err(e) && e == DeserializationError::UnexpectedByteCount(
            4,
            old(buffer)@.len() as u64,
        ) && final(buffer)@ == old(buffer)@),
        old(buffer)@.len() >= 4 ==> (r matches Ok(v) && v as int == signed_of(
            le_value(old(buffer)@.take(4)),
            4,
        ) && final(buffer)@ == old(buffer)@.skip(4)),
{
    proof {
        lemma_pow256_values();
    }
    match take_le(buffer, 4) {
        Ok(raw) => {
            let narrow = raw as u32;
            if narrow < 0x8000_0000 {
                Ok(narrow as i32)
            } else {
                Ok((((narrow as i64) - 0x1_0000_0000) as i32))
            }
        },
        Err(e) => Err(e),
    }
}

/// Removes the next numeric value from the front of the buffer, decoding
/// two's complement. If the buffer holds fewer bytes than the value needs,
/// the buffer is unchanged and an error is returned.
pub fn deserialize_i64(buffer: &mut Vec<u8>) -> (r: Result<i64, DeserializationError>)
    ensures
        old(buffer)@.len() < 8 ==> (r matches Err(e) && e == DeserializationError::UnexpectedByteCount(
            8,
            old(buffer)@.len() as u64,
        ) && final(buffer)@ == old(buffer)@),
        old(buffer)@.len() >= 8 ==> (r matches Ok(v) && v as int == signed_of(
            le_value(old(buffer)@.take(8)),
            8,
        ) && final(buffer)@ == old(buffer)@.skip(8)),
{
    proof {
        lemma_pow256_values();
    }
    match take_le(buffer, 8) {
        Ok(raw) => {
            let narrow = raw as u64;
            if narrow < 0x8000_0000_0000_0000 {
                Ok(narrow as i64)
            } else {
                Ok((((narrow as i128) - 0x1_0000_0000_0000_0000) as i64))
            }
        },
        Err(e) => Err(e),
    }
}

/// Removes the next numeric value from the front of the buffer, decoding
/// two's complement. If the buffer holds fewer bytes than the value needs,
/// the buffer is unchanged and an error is returned.
pub fn deserialize_i128(buffer: &mut Vec<u8>) -> (r: Result<i128, DeserializationError>)
    ensures
        old(buffer)@.len() < 16 ==> (r matches Err(e) && e
            == DeserializationError::UnexpectedByteCount(16, old(buffer)@.len() as u64) && final(buffer)@ == old(buffer)@),
        old(buffer)@.len() >= 16 ==> (r matches Ok(v) && v as int == signed_of(
            le_value(old(buffer)@.take(16)),
            16,
        ) && final(buffer)@ == old(buffer)@.skip(16)),
{
    proof {
        lemma_pow256_values();
    }
    match take_le(buffer, 16) {
        Ok(raw) => {
            if raw < 0x8000_0000_0000_0000_0000_0000_0000_0000 {
                Ok(raw as i128)
            } else {
                Ok(
                    (((raw - 0x8000_0000_0000_0000_0000_0000_0000_0000) as i128) + i128::MIN),
                )
            }
        },
        Err(e) => Err(e),
    }
}

/// Removes the next numeric value from the front of the buffer, reading the
/// fixed eight-byte length-field width of the wire format and decoding
/// two's complement. If the buffer holds fewer than eight bytes, or the
/// value does not fit in `isize`, the buffer is unchanged and an error is
/// returned.
pub fn deserialize_isize(buffer: &mut Vec<u8>) -> (r: Result<isize, DeserializationError>)
    ensures
        old(buffer)@.len() < 8 ==> (r matches Err(e) && e == DeserializationError::UnexpectedByteCount(
            8,
            old(buffer)@.len() as u64,
        ) && final(buffer)@ == old(buffer)@),
        old(buffer)@.len() >= 8 && isize::MIN <= signed_of(le_value(old(buffer)@.take(8)), 8)
            <= isize::MAX ==> (r matches Ok(v) && v as int == signed_of(
            le_value(old(buffer)@.take(8)),
            8,
        ) && final(buffer)@ == old(buffer)@.skip(8)),
        old(buffer)@.len() >= 8 && !(isize::MIN <= signed_of(le_value(old(buffer)@.take(8)), 8)
            <= isize::MAX) ==> (r matches Err(e) && e matches DeserializationError::InvalidValue(_)
            && final(buffer)@ == old(buffer)@),
{
    proof {
        lemma_pow256_values();
    }
    if buffer.len() < 8 {
        return Err(DeserializationError::UnexpectedByteCount(8, buffer.len() as u64));
    }
    let raw = read_le(buffer, 8) as u64;
    let signed: i128 = if raw < 0x8000_0000_0000_0000 {
        raw as i128
    } else {
        (raw as i128) - 0x1_0000_0000_0000_0000
    };
    if signed < isize::MIN as i128 || signed > isize::MAX as i128 {
        return Err(
            DeserializationError::InvalidValue(
                String::from_str("value does not fit in a pointer-sized integer"),
            ),
        );
    }
    consume(buffer, 8);
    Ok(signed as isize)
}

} // verus!
