//! Stored records and their encoding.
//!
//! A record type lists its fields in a fixed order; [`encode`] and
//! [`decode`] turn a record into the bytes stored for it and back. A stored
//! record takes at most [`MAX_RECORD_SIZE`] bytes.

use vstd::prelude::*;
use crate::codec::{
    decode_fields, encode_fields, fields_bytes, is_encoding, kinds_of,
    lemma_fields_bytes_injective, record_bytes, all_writable, values_of, Field, FieldValue, Kind,
};
use crate::error::{corrupt, corrupt_wording, size_exceeded, size_exceeded_wording, Error};
use crate::region::RegionId;

verus! {

/// The most bytes that a stored record may take.
pub const MAX_RECORD_SIZE: usize = 1024;

/// A type of record that can be stored.
pub trait Record: View + Sized {
    /// The tag byte that the encoding of a record of this type starts with.
    spec fn tag() -> u8;

    /// The kinds of the fields of a record, in the order they are written.
    spec fn schema() -> Seq<Kind>;

    /// The fields of a record, in the order they are written.
    spec fn fields(value: Self::V) -> Seq<FieldValue>;

    /// The key under which a record is stored.
    spec fn key(value: Self::V) -> u64;

    /// How messages call a record of this type.
    spec fn label() -> Seq<char>;

    /// The region of the backing memory that holds the records of this
    /// type.
    spec fn region() -> RegionId;

    fn tag_byte() -> (tag: u8)
        ensures
            tag == Self::tag(),
    ;

    fn kinds() -> (kinds: Vec<Kind>)
        ensures
            kinds@ == Self::schema(),
    ;

    fn name() -> (name: &'static str)
        ensures
            name@ == Self::label(),
    ;

    fn region_id() -> (region: RegionId)
        ensures
            region == Self::region(),
    ;

    fn key_of(&self) -> (key: u64)
        ensures
            key == Self::key(self@),
    ;

    fn to_fields(&self) -> (fields: Vec<Field>)
        ensures
            values_of(fields@) == Self::fields(self@),
    ;

    fn from_fields(fields: Vec<Field>) -> (record: Self)
        requires
            kinds_of(values_of(fields@)) == Self::schema(),
        ensures
            Self::fields(record@) == values_of(fields@),
    ;

    /// The fields of every record are of the kinds that the schema lists.
    proof fn lemma_schema(value: Self::V)
        ensures
            kinds_of(Self::fields(value)) == Self::schema(),
    ;

    /// Records with the same fields are the same record.
    proof fn lemma_fields_injective(a: Self::V, b: Self::V)
        requires
            Self::fields(a) == Self::fields(b),
        ensures
            a == b,
    ;
}

/// The view of an optional text.
pub open spec fn text_view(text: Option<String>) -> Option<Seq<char>> {
    match text {
        Some(t) => Some(t@),
        None => None,
    }
}

/// A record is valid when each of its texts is short enough for its length
/// to be written. Every record that exists in memory is.
pub open spec fn valid<T: Record>(value: T::V) -> bool {
    all_writable(T::fields(value))
}

/// The bytes that a record is written as: its tag, then its fields.
pub open spec fn encoding<T: Record>(value: T::V) -> Seq<u8> {
    record_bytes(T::tag(), T::fields(value))
}

/// The record can be stored: its encoding is not longer than a stored record
/// may be.
pub open spec fn fits<T: Record>(value: T::V) -> bool {
    encoding::<T>(value).len() <= MAX_RECORD_SIZE
}

/// `bytes` is the encoding of the valid record `value`.
pub open spec fn encodes<T: Record>(value: T::V, bytes: Seq<u8>) -> bool {
    valid::<T>(value) && encoding::<T>(value) == bytes
}

/// The record that `bytes` is the encoding of, if there is one.
pub open spec fn decoding<T: Record>(bytes: Seq<u8>) -> Option<T::V> {
    if exists|value: T::V| encodes::<T>(value, bytes) {
        Some(choose|value: T::V| encodes::<T>(value, bytes))
    } else {
        None
    }
}

/// Two valid records with the same encoding are the same record.
pub proof fn lemma_encoding_injective<T: Record>(a: T::V, b: T::V)
    requires
        valid::<T>(a),
        valid::<T>(b),
        encoding::<T>(a) == encoding::<T>(b),
    ensures
        a == b,
{
    T::lemma_schema(a);
    T::lemma_schema(b);
    let tag = seq![T::tag()];
    assert(fields_bytes(T::fields(a)) == (tag + fields_bytes(T::fields(a))).skip(1));
    assert(fields_bytes(T::fields(b)) == (tag + fields_bytes(T::fields(b))).skip(1));
    lemma_fields_bytes_injective(T::fields(a), T::fields(b));
    T::lemma_fields_injective(a, b);
}

/// Decoding undoes encoding: the encoding of a valid record is decoded to
/// that record.
pub proof fn lemma_round_trip<T: Record>(value: T::V)
    requires
        valid::<T>(value),
    ensures
        decoding::<T>(encoding::<T>(value)) == Some(value),
{
    let bytes = encoding::<T>(value);
    assert(encodes::<T>(value, bytes));
    let found = choose|other: T::V| encodes::<T>(other, bytes);
    lemma_encoding_injective::<T>(found, value);
}

/// What is decoded from bytes is a valid record that is encoded as those
/// bytes: only encodings are decoded.
pub proof fn lemma_decoding_sound<T: Record>(bytes: Seq<u8>)
    requires
        decoding::<T>(bytes) is Some,
    ensures
        encodes::<T>(decoding::<T>(bytes).unwrap(), bytes),
{
}

/// Encodes the record to be stored under `key`.
///
/// Fails with `SizeExceeded` exactly when the encoding is longer than
/// [`MAX_RECORD_SIZE`] bytes.
pub fn encode<T: Record>(key: u64, record: &T) -> (result: Result<Vec<u8>, Error>)
    ensures
        valid::<T>(record@),
        match result {
            Ok(bytes) => fits::<T>(record@) && bytes@ == encoding::<T>(record@),
            Err(error) => {
                &&& !fits::<T>(record@)
                &&& error is SizeExceeded
                &&& error.message() == size_exceeded_wording(T::label(), key)
            },
        },
{
    let fields = record.to_fields();
    let mut bytes: Vec<u8> = Vec::new();
    bytes.push(T::tag_byte());
    let mut body = encode_fields(&fields);
    bytes.append(&mut body);
    assert(bytes@ == encoding::<T>(record@));
    if bytes.len() > MAX_RECORD_SIZE {
        Err(size_exceeded(T::name(), key))
    } else {
        Ok(bytes)
    }
}

/// Decodes the bytes stored under `key`.
///
/// Fails with `CorruptRecord` exactly when the bytes are not the encoding of
/// a record of this type.
pub fn decode<T: Record>(key: u64, bytes: &[u8]) -> (result: Result<T, Error>)
    ensures
        match result {
            Ok(record) => decoding::<T>(bytes@) == Some(record@),
            Err(error) => {
                &&& decoding::<T>(bytes@) is None
                &&& error is CorruptRecord
                &&& error.message() == corrupt_wording(T::label(), key)
            },
        },
{
    if bytes.len() == 0 || bytes[0] != T::tag_byte() {
        proof {
            assert forall|value: T::V| !encodes::<T>(value, bytes@) by {
                assert(encoding::<T>(value)[0] == T::tag());
            }
        }
        return Err(corrupt(T::name(), key));
    }
    let kinds = T::kinds();
    match decode_fields(&kinds, bytes, 1) {
        Some(fields) => {
            let ghost values = values_of(fields@);
            let record = T::from_fields(fields);
            proof {
                assert(bytes@ == seq![T::tag()] + bytes@.skip(1));
                assert(encodes::<T>(record@, bytes@));
                let found = choose|value: T::V| encodes::<T>(value, bytes@);
                lemma_encoding_injective::<T>(found, record@);
            }
            Ok(record)
        },
        None => {
            proof {
                assert forall|value: T::V| !encodes::<T>(value, bytes@) by {
                    if encodes::<T>(value, bytes@) {
                        T::lemma_schema(value);
                        assert(fields_bytes(T::fields(value)) == encoding::<T>(value).skip(1));
                        assert(is_encoding(T::schema(), T::fields(value), bytes@.skip(1)));
                    }
                }
            }
            Err(corrupt(T::name(), key))
        },
    }
}

} // verus!
