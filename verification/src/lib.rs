//! A minimal length-prefixed binary encoding layer.
//!
//! The codec converts integer scalars, UTF-8 strings, and homogeneous
//! sequences of strings to and from a flat byte buffer. Every multi-byte
//! integer on the wire is little-endian; every variable-length payload is
//! preceded by a pointer-sized little-endian length prefix. Deserialize
//! operations consume exactly the bytes they need from the front of the
//! buffer and leave the remainder intact, so heterogeneous records can be
//! decoded sequentially without a cursor object.

use vstd::prelude::*;

pub mod error;
pub mod frame;
pub mod laws;
pub mod le;
pub mod scalar;
pub mod sequence;
pub mod text;

pub use error::DeserializationError;
pub use frame::finalize_serialization;
pub use sequence::{deserialize_vec, serialize_vec};
pub use text::{deserialize_string, serialize_string};
pub use scalar::{
    deserialize_i128, deserialize_i16, deserialize_i32, deserialize_i64, deserialize_i8,
    deserialize_isize, deserialize_u128, deserialize_u16, deserialize_u32, deserialize_u64,
    deserialize_u8, deserialize_usize, serialize_i128, serialize_i16, serialize_i32, serialize_i64,
    serialize_i8, serialize_isize, serialize_u128, serialize_u16, serialize_u32, serialize_u64,
    serialize_u8, serialize_usize,
};
