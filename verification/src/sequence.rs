//! Length-prefixed homogeneous sequences of strings, built on the string
//! codec: an eight-byte little-endian element count, then each element's
//! string encoding in order.

use crate::error::DeserializationError;
use crate::le::{le_bytes, le_value, lemma_pow256_values};
use crate::scalar::{consume, push_le, read_le};
use crate::text::{deserialize_string, serialize_string, spec_string_enc, spec_take_string};
use vstd::prelude::*;

verus! {

/// The concatenation of the wire encodings of the given strings, in order.
pub open spec fn spec_strings_enc(items: Seq<Seq<char>>) -> Seq<u8>
    decreases items.len(),
{
    if items.len() == 0 {
        Seq::empty()
    } else {
        spec_string_enc(items[0]) + spec_strings_enc(items.drop_first())
    }
}

/// The wire encoding of a sequence of strings: an eight-byte little-endian
/// element count, then the elements' encodings.
pub open spec fn spec_vec_enc(items: Seq<Seq<char>>) -> Seq<u8> {
    le_bytes(items.len(), 8) + spec_strings_enc(items)
}

/// The outcome of removing `count` strings from the front of a byte
/// buffer: the decoded elements in order, or the error of the first
/// element that failed, paired with the bytes left behind at that point.
pub open spec fn spec_take_strings(b: Seq<u8>, count: nat) -> (Result<
    Seq<Seq<char>>,
    DeserializationError,
>, Seq<u8>)
    decreases count,
{
    if count == 0 {
        (Ok(Seq::empty()), b)
    } else {
        let first = spec_take_string(b);
        match first.0 {
            Err(e) => (Err(e), first.1),
            Ok(chars) => {
                let rest = spec_take_strings(first.1, (count - 1) as nat);
                match rest.0 {
                    Err(e) => (Err(e), rest.1),
                    Ok(items) => (Ok(seq![chars] + items), rest.1),
                }
            },
        }
    }
}

/// The outcome of removing a whole sequence of strings from the front of
/// a byte buffer: the element count is read first, then that many strings.
pub open spec fn spec_take_vec(b: Seq<u8>) -> (Result<
    Seq<Seq<char>>,
    DeserializationError,
>, Seq<u8>) {
    if b.len() < 8 {
        (Err(DeserializationError::UnexpectedByteCount(8, b.len() as u64)), b)
    } else {
        spec_take_strings(b.skip(8), le_value(b.take(8)))
    }
}

/// Encoding one more string appends its encoding to the row.
proof fn lemma_strings_enc_push(items: Seq<Seq<char>>, n: int)
    requires
        0 <= n < items.len(),
    ensures
        spec_strings_enc(items.take(n + 1)) == spec_strings_enc(items.take(n)) + spec_string_enc(
            items[n],
        ),
    decreases n,
{
    if n == 0 {
        assert(items.take(1).drop_first() =~= Seq::<Seq<char>>::empty());
        assert(items.take(0) =~= Seq::<Seq<char>>::empty());
        assert(spec_string_enc(items[0]) + Seq::<u8>::empty() =~= spec_string_enc(items[0]));
        assert(Seq::<u8>::empty() + spec_string_enc(items[0]) =~= spec_string_enc(items[0]));
    } else {
        lemma_strings_enc_push(items.drop_first(), n - 1);
        assert(items.take(n + 1).drop_first() =~= items.drop_first().take(n));
        assert(items.take(n).drop_first() =~= items.drop_first().take(n - 1));
        assert((spec_string_enc(items[0]) + spec_strings_enc(items.drop_first().take(n - 1)))
            + spec_string_enc(items[n]) =~= spec_string_enc(items[0]) + (spec_strings_enc(
            items.drop_first().take(n - 1),
        ) + spec_string_enc(items[n])));
    }
}

/// Appends the collection's wire encoding to the buffer: the eight-byte
/// little-endian element count, then each element's string encoding in
/// order.
pub fn serialize_vec(value: &Vec<String>, buffer: &mut Vec<u8>)
    ensures
        final(buffer)@ == old(buffer)@ + spec_vec_enc(value.deep_view()),
{
    proof {
        lemma_pow256_values();
    }
    push_le(buffer, value.len() as u128, 8);
    let ghost views: Seq<Seq<char>> = value.deep_view();
    let mut i: usize = 0;
    proof {
        assert(views.take(0) =~= Seq::<Seq<char>>::empty());
        assert((old(buffer)@ + le_bytes(views.len(), 8)) + Seq::<u8>::empty() =~= old(buffer)@
            + le_bytes(views.len(), 8));
    }
    while i < value.len()
        invariant
            i <= value.len(),
            views == value.deep_view(),
            buffer@ == (old(buffer)@ + le_bytes(views.len(), 8)) + spec_strings_enc(
                views.take(i as int),
            ),
        decreases value.len() - i,
    {
        serialize_string(value[i].as_str(), buffer);
        proof {
            assert(views[i as int] == value[i as int]@);
            lemma_strings_enc_push(views, i as int);
            assert(((old(buffer)@ + le_bytes(views.len(), 8)) + spec_strings_enc(
                views.take(i as int),
            )) + spec_string_enc(views[i as int]) =~= (old(buffer)@ + le_bytes(views.len(), 8))
                + (spec_strings_enc(views.take(i as int)) + spec_string_enc(views[i as int])));
        }
        i = i + 1;
    }
    proof {
        assert(views.take(value.len() as int) =~= views);
        assert((old(buffer)@ + le_bytes(views.len(), 8)) + spec_strings_enc(views) =~= old(
            buffer,
        )@ + spec_vec_enc(views));
    }
}

/// Removes the next collection of strings from the front of the buffer.
/// The element count is read first; then that many strings are decoded in
/// order. On the first element failure the error is reported as-is, and
/// the buffer is left exactly where that element's decode stopped.
pub fn deserialize_vec(buffer: &mut Vec<u8>) -> (r: Result<Vec<String>, DeserializationError>)
    ensures
        final(buffer)@ == spec_take_vec(old(buffer)@).1,
        (match spec_take_vec(old(buffer)@).0 {
            Ok(items) => r matches Ok(v) && v.deep_view() == items,
            Err(e) => r matches Err(e2) && e2 == e,
        }),
{
    proof {
        lemma_pow256_values();
    }
    if buffer.len() < 8 {
        return Err(DeserializationError::UnexpectedByteCount(8, buffer.len() as u64));
    }
    let count = read_le(buffer, 8) as u64;
    consume(buffer, 8);
    let ghost start: Seq<u8> = buffer@;
    let mut result: Vec<String> = Vec::new();
    let mut i: u64 = 0;
    proof {
        assert(result.deep_view() =~= Seq::<Seq<char>>::empty());
        let rest = spec_take_strings(buffer@, count as nat);
        match rest.0 {
            Ok(items) => {
                assert(Seq::<Seq<char>>::empty() + items =~= items);
            },
            Err(_) => {},
        }
    }
    while i < count
        invariant
            i <= count,
            old(buffer)@.len() >= 8,
            start == old(buffer)@.skip(8),
            count as nat == le_value(old(buffer)@.take(8)),
            spec_take_strings(start, count as nat) == ({
                let rest = spec_take_strings(buffer@, (count - i) as nat);
                match rest.0 {
                    Ok(items) => (
                        Ok::<Seq<Seq<char>>, DeserializationError>(result.deep_view() + items),
                        rest.1,
                    ),
                    Err(e) => (Err::<Seq<Seq<char>>, DeserializationError>(e), rest.1),
                }
            }),
        decreases count - i,
    {
        let ghost before: Seq<u8> = buffer@;
        let ghost prior: Seq<Seq<char>> = result.deep_view();
        match deserialize_string(buffer) {
            Ok(text) => {
                result.push(text);
                i = i + 1;
                proof {
                    assert(result.deep_view() =~= prior.push(text@));
                    let rest = spec_take_strings(buffer@, (count - i) as nat);
                    match rest.0 {
                        Ok(items) => {
                            assert(prior + (seq![text@] + items) =~= prior.push(text@) + items);
                        },
                        Err(_) => {},
                    }
                }
            },
            Err(e) => {
                proof {
                    let first = spec_take_string(before);
                    assert(spec_take_strings(before, (count - i) as nat) == (
                        Err::<Seq<Seq<char>>, DeserializationError>(e),
                        first.1,
                    ));
                }
                return Err(e);
            },
        }
    }
    proof {
        assert(result.deep_view() + Seq::<Seq<char>>::empty() =~= result.deep_view());
    }
    Ok(result)
}

} // verus!
