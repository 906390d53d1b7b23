//! The codec's round-trip laws: decoding an encoding recovers the encoded
//! value exactly, and leaves exactly the bytes that followed it.

use crate::le::{
    le_bytes, le_value, lemma_le_bytes_len, lemma_le_round_trip, pow256,
};
use crate::sequence::{spec_strings_enc, spec_take_strings, spec_take_vec, spec_vec_enc};
use crate::text::{spec_string_enc, spec_take_string};
use vstd::prelude::*;
use vstd::utf8::{decode_utf8, encode_utf8, encode_utf8_decode_utf8, encode_utf8_valid_utf8};

verus! {

/// A scalar round-trips: the `w`-byte little-endian encoding of a value
/// below `256^w`, followed by any other bytes, reads back as that value,
/// and the bytes that followed it are exactly what is left.
pub proof fn lemma_scalar_round_trip(v: nat, w: nat, rest: Seq<u8>)
    requires
        v < pow256(w),
    ensures
        (le_bytes(v, w) + rest).take(w as int) == le_bytes(v, w),
        le_value((le_bytes(v, w) + rest).take(w as int)) == v,
        (le_bytes(v, w) + rest).skip(w as int) == rest,
{
    lemma_le_bytes_len(v, w);
    assert((le_bytes(v, w) + rest).take(w as int) =~= le_bytes(v, w));
    assert((le_bytes(v, w) + rest).skip(w as int) =~= rest);
    lemma_le_round_trip(v, w);
}

/// A UTF-8 encoding takes at most four bytes for each character.
pub proof fn lemma_encode_utf8_len(s: Seq<char>)
    ensures
        encode_utf8(s).len() <= 4 * s.len(),
    decreases s.len(),
{
    if s.len() > 0 {
        lemma_encode_utf8_len(s.drop_first());
        assert(vstd::utf8::encode_scalar(s[0] as u32).len() <= 4);
    }
}

/// A string round-trips: decoding a buffer that starts with the wire
/// encoding of any string yields that string back and leaves exactly the
/// bytes that followed the encoding.
pub proof fn lemma_string_round_trip(s: Seq<char>, rest: Seq<u8>)
    requires
        encode_utf8(s).len() < pow256(8),
    ensures
        spec_take_string(spec_string_enc(s) + rest) == (
            Ok::<Seq<char>, crate::error::DeserializationError>(s),
            rest,
        ),
{
    let enc = encode_utf8(s);
    let b = spec_string_enc(s) + rest;
    lemma_le_bytes_len(enc.len(), 8);
    assert(b.take(8) =~= le_bytes(enc.len(), 8));
    lemma_le_round_trip(enc.len(), 8);
    assert(b.skip(8) =~= enc + rest);
    assert((enc + rest).take(enc.len() as int) =~= enc);
    assert((enc + rest).skip(enc.len() as int) =~= rest);
    encode_utf8_valid_utf8(s);
    encode_utf8_decode_utf8(s);
}

/// A row of string encodings round-trips: decoding that many strings from
/// a buffer that starts with the row yields the strings in order and
/// leaves exactly the bytes that followed the row.
pub proof fn lemma_strings_round_trip(items: Seq<Seq<char>>, rest: Seq<u8>)
    requires
        forall|j: int|
            0 <= j < items.len() ==> #[trigger] encode_utf8(items[j]).len() < pow256(8),
    ensures
        spec_take_strings(spec_strings_enc(items) + rest, items.len()) == (
            Ok::<Seq<Seq<char>>, crate::error::DeserializationError>(items),
            rest,
        ),
    decreases items.len(),
{
    if items.len() == 0 {
        assert(spec_strings_enc(items) + rest =~= rest);
        assert(items =~= Seq::<Seq<char>>::empty());
    } else {
        let tail_enc = spec_strings_enc(items.drop_first()) + rest;
        assert(spec_strings_enc(items) + rest =~= spec_string_enc(items[0]) + tail_enc);
        lemma_string_round_trip(items[0], tail_enc);
        assert(forall|j: int|
            0 <= j < items.drop_first().len() ==> #[trigger] encode_utf8(
                items.drop_first()[j],
            ).len() < pow256(8)) by {
            assert(forall|j: int|
                0 <= j < items.drop_first().len() ==> items.drop_first()[j] == items[j + 1]);
        }
        lemma_strings_round_trip(items.drop_first(), rest);
        assert(seq![items[0]] + items.drop_first() =~= items);
    }
}

/// A sequence of strings round-trips: decoding a buffer that starts with
/// the wire encoding of any sequence yields that sequence back and leaves
/// exactly the bytes that followed the encoding.
pub proof fn lemma_vec_round_trip(items: Seq<Seq<char>>, rest: Seq<u8>)
    requires
        items.len() < pow256(8),
        forall|j: int|
            0 <= j < items.len() ==> #[trigger] encode_utf8(items[j]).len() < pow256(8),
    ensures
        spec_take_vec(spec_vec_enc(items) + rest) == (
            Ok::<Seq<Seq<char>>, crate::error::DeserializationError>(items),
            rest,
        ),
{
    let b = spec_vec_enc(items) + rest;
    lemma_le_bytes_len(items.len(), 8);
    assert(b.take(8) =~= le_bytes(items.len(), 8));
    lemma_le_round_trip(items.len(), 8);
    assert(b.skip(8) =~= spec_strings_enc(items) + rest);
    lemma_strings_round_trip(items, rest);
}

} // verus!
