//! The byte format of stored records.
//!
//! A record is written as one tag byte, which names the record type, and then
//! its fields in a fixed order. Every field is self-delimiting:
//!
//! | kind             | bytes                                                   |
//! |------------------|---------------------------------------------------------|
//! | `Byte`           | the byte                                                |
//! | `Word32`         | four bytes, little-endian                               |
//! | `Word64`         | eight bytes, little-endian                              |
//! | `Flag`           | `0` for false, `1` for true                             |
//! | `OptionalWord64` | `0`, or `1` and then the word                           |
//! | `Text`           | the length of the UTF-8 form as a `Word64`, then the form |
//!
//! Decoding accepts exactly the byte strings that encoding produces.

use vstd::prelude::*;
use vstd::bytes::*;
use vstd::slice::*;
use vstd::string::*;
use vstd::utf8::*;

verus! {

/// The shape of one field.
#[derive(Clone, Copy, Debug, PartialEq, Eq)]
pub enum Kind {
    Byte,
    Word32,
    Word64,
    Flag,
    OptionalWord64,
    Text,
}

/// One field of a record.
pub enum Field {
    Byte(u8),
    Word32(u32),
    Word64(u64),
    Flag(bool),
    OptionalWord64(Option<u64>),
    Text(String),
}

/// What a [`Field`] holds, as a mathematical value.
pub enum FieldValue {
    Byte(u8),
    Word32(u32),
    Word64(u64),
    Flag(bool),
    OptionalWord64(Option<u64>),
    Text(Seq<char>),
}

impl View for Field {
    type V = FieldValue;

    open spec fn view(&self) -> FieldValue {
        match self {
            Field::Byte(b) => FieldValue::Byte(*b),
            Field::Word32(w) => FieldValue::Word32(*w),
            Field::Word64(w) => FieldValue::Word64(*w),
            Field::Flag(b) => FieldValue::Flag(*b),
            Field::OptionalWord64(w) => FieldValue::OptionalWord64(*w),
            Field::Text(s) => FieldValue::Text(s@),
        }
    }
}

/// The values of a list of fields.
pub open spec fn values_of(fields: Seq<Field>) -> Seq<FieldValue> {
    Seq::new(fields.len(), |i: int| fields[i]@)
}

pub open spec fn kind_of(value: FieldValue) -> Kind {
    match value {
        FieldValue::Byte(_) => Kind::Byte,
        FieldValue::Word32(_) => Kind::Word32,
        FieldValue::Word64(_) => Kind::Word64,
        FieldValue::Flag(_) => Kind::Flag,
        FieldValue::OptionalWord64(_) => Kind::OptionalWord64,
        FieldValue::Text(_) => Kind::Text,
    }
}

/// The kinds of a list of values, in order.
pub open spec fn kinds_of(values: Seq<FieldValue>) -> Seq<Kind> {
    Seq::new(values.len(), |i: int| kind_of(values[i]))
}

/// A value can be written when the length of its text fits the length word.
/// Every text that a `String` holds does.
pub open spec fn writable(value: FieldValue) -> bool {
    value matches FieldValue::Text(s) ==> encode_utf8(s).len() <= u64::MAX
}

pub open spec fn all_writable(values: Seq<FieldValue>) -> bool {
    forall|i: int| 0 <= i < values.len() ==> writable(#[trigger] values[i])
}

/// The bytes of one field.
pub open spec fn field_bytes(value: FieldValue) -> Seq<u8> {
    match value {
        FieldValue::Byte(b) => seq![b],
        FieldValue::Word32(w) => spec_u32_to_le_bytes(w),
        FieldValue::Word64(w) => spec_u64_to_le_bytes(w),
        FieldValue::Flag(b) => seq![if b { 1u8 } else { 0u8 }],
        FieldValue::OptionalWord64(None) => seq![0u8],
        FieldValue::OptionalWord64(Some(w)) => seq![1u8] + spec_u64_to_le_bytes(w),
        FieldValue::Text(s) => spec_u64_to_le_bytes(encode_utf8(s).len() as u64) + encode_utf8(s),
    }
}

/// The bytes of a list of fields: those of each field, one after the other.
pub open spec fn fields_bytes(values: Seq<FieldValue>) -> Seq<u8>
    decreases values.len(),
{
    if values.len() == 0 {
        Seq::empty()
    } else {
        field_bytes(values[0]) + fields_bytes(values.drop_first())
    }
}

/// The bytes of a record with the given tag and fields.
pub open spec fn record_bytes(tag: u8, values: Seq<FieldValue>) -> Seq<u8> {
    seq![tag] + fields_bytes(values)
}

/// `values` is a list of writable fields of the kinds that `schema` gives,
/// and `bytes` is what it is written as.
pub open spec fn is_encoding(schema: Seq<Kind>, values: Seq<FieldValue>, bytes: Seq<u8>) -> bool {
    &&& kinds_of(values) == schema
    &&& all_writable(values)
    &&& fields_bytes(values) == bytes
}

/// Reads one field of the given kind from the front of `bytes`: the field
/// and the number of bytes it takes, or `None` where no field of that kind
/// stands there.
spec fn parse_field(kind: Kind, bytes: Seq<u8>) -> Option<(FieldValue, nat)> {
    match kind {
        Kind::Byte => if bytes.len() >= 1 {
            Some((FieldValue::Byte(bytes[0]), 1))
        } else {
            None
        },
        Kind::Word32 => if bytes.len() >= 4 {
            Some((FieldValue::Word32(spec_u32_from_le_bytes(bytes.subrange(0, 4))), 4))
        } else {
            None
        },
        Kind::Word64 => if bytes.len() >= 8 {
            Some((FieldValue::Word64(spec_u64_from_le_bytes(bytes.subrange(0, 8))), 8))
        } else {
            None
        },
        Kind::Flag => if bytes.len() >= 1 && bytes[0] <= 1 {
            Some((FieldValue::Flag(bytes[0] == 1), 1))
        } else {
            None
        },
        Kind::OptionalWord64 => if bytes.len() >= 1 && bytes[0] == 0 {
            Some((FieldValue::OptionalWord64(None), 1))
        } else if bytes.len() >= 9 && bytes[0] == 1 {
            Some(
                (
                    FieldValue::OptionalWord64(
                        Some(spec_u64_from_le_bytes(bytes.subrange(1, 9))),
                    ),
                    9,
                ),
            )
        } else {
            None
        },
        Kind::Text => if bytes.len() >= 8 {
            let n = spec_u64_from_le_bytes(bytes.subrange(0, 8)) as int;
            if bytes.len() >= 8 + n && valid_utf8(bytes.subrange(8, 8 + n)) {
                Some((FieldValue::Text(decode_utf8(bytes.subrange(8, 8 + n))), (8 + n) as nat))
            } else {
                None
            }
        } else {
            None
        },
    }
}

/// A field that was written is read back, whatever follows it.
proof fn lemma_parse_written(value: FieldValue, tail: Seq<u8>)
    requires
        writable(value),
    ensures
        parse_field(kind_of(value), field_bytes(value) + tail) == Some(
            (value, field_bytes(value).len()),
        ),
{
    lemma_auto_spec_u32_to_from_le_bytes();
    lemma_auto_spec_u64_to_from_le_bytes();
    let own = field_bytes(value);
    let all = own + tail;
    match value {
        FieldValue::Byte(b) => {},
        FieldValue::Word32(w) => {
            assert(all.subrange(0, 4) == own);
        },
        FieldValue::Word64(w) => {
            assert(all.subrange(0, 8) == own);
        },
        FieldValue::Flag(b) => {},
        FieldValue::OptionalWord64(None) => {},
        FieldValue::OptionalWord64(Some(w)) => {
            assert(all.subrange(1, 9) == spec_u64_to_le_bytes(w));
        },
        FieldValue::Text(s) => {
            let form = encode_utf8(s);
            let n = form.len() as u64;
            assert(all.subrange(0, 8) == spec_u64_to_le_bytes(n));
            assert(all.subrange(8, 8 + n) == form);
            encode_utf8_valid_utf8(s);
            encode_utf8_decode_utf8(s);
        },
    }
}

/// A field that is read is writable, of the kind asked for, and written as
/// the bytes it was read from.
proof fn lemma_written_parse(kind: Kind, bytes: Seq<u8>)
    requires
        parse_field(kind, bytes) is Some,
    ensures
        ({
            let (value, taken) = parse_field(kind, bytes).unwrap();
            &&& kind_of(value) == kind
            &&& writable(value)
            &&& taken <= bytes.len()
            &&& field_bytes(value) == bytes.subrange(0, taken as int)
        }),
{
    lemma_auto_spec_u32_to_from_le_bytes();
    lemma_auto_spec_u64_to_from_le_bytes();
    let (value, taken) = parse_field(kind, bytes).unwrap();
    match kind {
        Kind::Byte => {
            assert(field_bytes(value) == bytes.subrange(0, 1));
        },
        Kind::Word32 => {},
        Kind::Word64 => {},
        Kind::Flag => {
            assert(field_bytes(value) == bytes.subrange(0, 1));
        },
        Kind::OptionalWord64 => {
            if bytes[0] == 0 {
                assert(field_bytes(value) == bytes.subrange(0, 1));
            } else {
                assert(spec_u64_to_le_bytes(spec_u64_from_le_bytes(bytes.subrange(1, 9)))
                    == bytes.subrange(1, 9));
                assert(field_bytes(value) == bytes.subrange(0, 9));
            }
        },
        Kind::Text => {
            let n = spec_u64_from_le_bytes(bytes.subrange(0, 8));
            let form = bytes.subrange(8, 8 + n);
            decode_utf8_encode_utf8(form);
            assert(spec_u64_to_le_bytes(n) == bytes.subrange(0, 8));
            assert(field_bytes(value) == bytes.subrange(0, 8 + n));
        },
    }
}

/// Writing a list with one more field appends that field's bytes.
pub proof fn lemma_fields_bytes_push(values: Seq<FieldValue>, value: FieldValue)
    ensures
        fields_bytes(values.push(value)) == fields_bytes(values) + field_bytes(value),
    decreases values.len(),
{
    let longer = values.push(value);
    if values.len() == 0 {
        assert(longer.drop_first() == Seq::<FieldValue>::empty());
        assert(fields_bytes(longer.drop_first()) == Seq::<u8>::empty());
        assert(longer[0] == value);
        assert(field_bytes(value) + Seq::<u8>::empty() == field_bytes(value));
    } else {
        assert(longer.drop_first() == values.drop_first().push(value));
        lemma_fields_bytes_push(values.drop_first(), value);
    }
}

/// The bytes of a list are those of its first `n` fields and then those of
/// the rest.
proof fn lemma_fields_bytes_split(values: Seq<FieldValue>, n: int)
    requires
        0 <= n <= values.len(),
    ensures
        fields_bytes(values) == fields_bytes(values.take(n)) + fields_bytes(values.skip(n)),
    decreases n,
{
    if n == 0 {
        assert(values.skip(0) == values);
        assert(fields_bytes(values.take(0)) == Seq::<u8>::empty());
    } else {
        let rest = values.drop_first();
        lemma_fields_bytes_split(rest, n - 1);
        assert(values.take(n).drop_first() == rest.take(n - 1));
        assert(values.skip(n) == rest.skip(n - 1));
    }
}

/// Two lists of writable fields of the same kinds that are written alike
/// are the same list.
pub proof fn lemma_fields_bytes_injective(a: Seq<FieldValue>, b: Seq<FieldValue>)
    requires
        kinds_of(a) == kinds_of(b),
        all_writable(a),
        all_writable(b),
        fields_bytes(a) == fields_bytes(b),
    ensures
        a == b,
    decreases a.len(),
{
    assert(a.len() == kinds_of(a).len());
    assert(b.len() == kinds_of(b).len());
    if a.len() > 0 {
        let rest_a = a.drop_first();
        let rest_b = b.drop_first();
        assert(kind_of(a[0]) == kinds_of(a)[0]);
        assert(kind_of(b[0]) == kinds_of(b)[0]);
        lemma_parse_written(a[0], fields_bytes(rest_a));
        lemma_parse_written(b[0], fields_bytes(rest_b));
        let n = field_bytes(a[0]).len() as int;
        assert(fields_bytes(rest_a) == fields_bytes(a).skip(n));
        assert(fields_bytes(rest_b) == fields_bytes(b).skip(n));
        assert(kinds_of(rest_a) == kinds_of(rest_b)) by {
            assert forall|i: int| 0 <= i < rest_a.len() implies kinds_of(rest_a)[i] == kinds_of(
                rest_b,
            )[i] by {
                assert(kinds_of(a)[i + 1] == kind_of(a[i + 1]));
                assert(kinds_of(b)[i + 1] == kind_of(b[i + 1]));
                assert(rest_a[i] == a[i + 1]);
                assert(rest_b[i] == b[i + 1]);
            }
        }
        assert(all_writable(rest_a)) by {
            assert forall|i: int| 0 <= i < rest_a.len() implies writable(
                #[trigger] rest_a[i],
            ) by {
                assert(writable(a[i + 1]));
            }
        }
        assert(all_writable(rest_b)) by {
            assert forall|i: int| 0 <= i < rest_b.len() implies writable(
                #[trigger] rest_b[i],
            ) by {
                assert(writable(b[i + 1]));
            }
        }
        lemma_fields_bytes_injective(rest_a, rest_b);
        assert(a == seq![a[0]] + rest_a);
        assert(b == seq![b[0]] + rest_b);
    }
}

/// Appends the bytes of one field to `out`.
pub fn write_field(out: &mut Vec<u8>, field: &Field)
    ensures
        final(out)@ == old(out)@ + field_bytes(field@),
        writable(field@),
{
    match field {
        Field::Byte(b) => {
            out.push(*b);
            assert(out@ == old(out)@ + seq![*b]);
        },
        Field::Word32(w) => {
            let mut word = u32_to_le_bytes(*w);
            out.append(&mut word);
        },
        Field::Word64(w) => {
            let mut word = u64_to_le_bytes(*w);
            out.append(&mut word);
        },
        Field::Flag(b) => {
            let byte: u8 = if *b {
                1
            } else {
                0
            };
            out.push(byte);
            assert(out@ == old(out)@ + seq![byte]);
        },
        Field::OptionalWord64(None) => {
            out.push(0u8);
            assert(out@ == old(out)@ + seq![0u8]);
        },
        Field::OptionalWord64(Some(w)) => {
            out.push(1u8);
            let mut word = u64_to_le_bytes(*w);
            out.append(&mut word);
            assert(out@ == old(out)@ + (seq![1u8] + spec_u64_to_le_bytes(*w)));
        },
        Field::Text(s) => {
            let form = s.as_str().as_bytes();
            let mut length = u64_to_le_bytes(form.len() as u64);
            let mut copy = slice_to_vec(form);
            out.append(&mut length);
            out.append(&mut copy);
            assert(out@ == old(out)@ + (spec_u64_to_le_bytes(form@.len() as u64) + form@));
        },
    }
}

/// Writes a list of fields, one after the other.
pub fn encode_fields(fields: &Vec<Field>) -> (out: Vec<u8>)
    ensures
        out@ == fields_bytes(values_of(fields@)),
        all_writable(values_of(fields@)),
{
    let mut out: Vec<u8> = Vec::new();
    let mut i: usize = 0;
    while i < fields.len()
        invariant
            i <= fields.len(),
            out@ == fields_bytes(values_of(fields@).take(i as int)),
            all_writable(values_of(fields@).take(i as int)),
        decreases fields.len() - i,
    {
        let ghost values = values_of(fields@);
        write_field(&mut out, &fields[i]);
        proof {
            lemma_fields_bytes_push(values.take(i as int), values[i as int]);
            assert(values.take(i + 1) == values.take(i as int).push(values[i as int]));
            assert forall|j: int| 0 <= j < i + 1 implies writable(
                #[trigger] values.take(i + 1)[j],
            ) by {
                if j < i {
                    assert(values.take(i + 1)[j] == values.take(i as int)[j]);
                }
            }
        }
        i += 1;
    }
    proof {
        let values = values_of(fields@);
        assert(values.take(fields.len() as int) == values);
    }
    out
}

/// Reads one field of the given kind at position `at`: the field and the
/// position after it.
fn read_field(kind: Kind, bytes: &[u8], at: usize) -> (result: Option<(Field, usize)>)
    requires
        at <= bytes@.len(),
    ensures
        match result {
            Some((field, next)) => {
                &&& at <= next <= bytes@.len()
                &&& parse_field(kind, bytes@.skip(at as int)) == Some(
                    (field@, (next - at) as nat),
                )
            },
            None => parse_field(kind, bytes@.skip(at as int)) is None,
        },
{
    let ghost rest = bytes@.skip(at as int);
    let left: usize = bytes.len() - at;
    match kind {
        Kind::Byte => {
            if left >= 1 {
                Some((Field::Byte(bytes[at]), at + 1))
            } else {
                None
            }
        },
        Kind::Word32 => {
            if left >= 4 {
                let word = u32_from_le_bytes(slice_subrange(bytes, at, at + 4));
                assert(rest.subrange(0, 4) == bytes@.subrange(at as int, at + 4));
                Some((Field::Word32(word), at + 4))
            } else {
                None
            }
        },
        Kind::Word64 => {
            if left >= 8 {
                let word = u64_from_le_bytes(slice_subrange(bytes, at, at + 8));
                assert(rest.subrange(0, 8) == bytes@.subrange(at as int, at + 8));
                Some((Field::Word64(word), at + 8))
            } else {
                None
            }
        },
        Kind::Flag => {
            if left >= 1 && bytes[at] <= 1 {
                Some((Field::Flag(bytes[at] == 1), at + 1))
            } else {
                None
            }
        },
        Kind::OptionalWord64 => {
            if left >= 1 && bytes[at] == 0 {
                Some((Field::OptionalWord64(None), at + 1))
            } else if left >= 9 && bytes[at] == 1 {
                let word = u64_from_le_bytes(slice_subrange(bytes, at + 1, at + 9));
                assert(rest.subrange(1, 9) == bytes@.subrange(at + 1, at + 9));
                Some((Field::OptionalWord64(Some(word)), at + 9))
            } else {
                None
            }
        },
        Kind::Text => {
            if left >= 8 {
                let length = u64_from_le_bytes(slice_subrange(bytes, at, at + 8));
                assert(rest.subrange(0, 8) == bytes@.subrange(at as int, at + 8));
                if length <= (left - 8) as u64 {
                    let start: usize = at + 8;
                    let end: usize = start + length as usize;
                    assert(rest.subrange(8, 8 + length) == bytes@.subrange(
                        start as int,
                        end as int,
                    ));
                    match core::str::from_utf8(slice_subrange(bytes, start, end)) {
                        Ok(text) => {
                            proof {
                                encode_utf8_decode_utf8(text@);
                            }
                            Some((Field::Text(String::from_str(text)), end))
                        },
                        Err(_) => None,
                    }
                } else {
                    None
                }
            } else {
                None
            }
        },
    }
}

/// Reads the fields that `schema` lists from `bytes`, starting at `start`.
///
/// Returns the fields where the bytes from `start` on are what a list of
/// fields of those kinds is written as, and `None` where no such list
/// exists.
pub fn decode_fields(schema: &Vec<Kind>, bytes: &[u8], start: usize) -> (result: Option<
    Vec<Field>,
>)
    requires
        start <= bytes@.len(),
    ensures
        match result {
            Some(fields) => is_encoding(schema@, values_of(fields@), bytes@.skip(start as int)),
            None => forall|values: Seq<FieldValue>|
                !is_encoding(schema@, values, bytes@.skip(start as int)),
        },
{
    let ghost payload = bytes@.skip(start as int);
    let mut fields: Vec<Field> = Vec::new();
    let mut at: usize = start;
    let mut i: usize = 0;
    while i < schema.len()
        invariant
            i <= schema.len(),
            start <= at <= bytes@.len(),
            payload == bytes@.skip(start as int),
            fields@.len() == i,
            kinds_of(values_of(fields@)) == schema@.take(i as int),
            all_writable(values_of(fields@)),
            fields_bytes(values_of(fields@)) == payload.subrange(0, at - start),
            forall|values: Seq<FieldValue>| #[trigger]
                is_encoding(schema@, values, payload) ==> values.take(i as int) == values_of(
                    fields@,
                ),
        decreases schema.len() - i,
    {
        let ghost so_far = values_of(fields@);
        let ghost rest = bytes@.skip(at as int);
        assert(rest == payload.skip(at - start));
        match read_field(schema[i], bytes, at) {
            Some((field, next)) => {
                let ghost value = field@;
                proof {
                    lemma_written_parse(schema@[i as int], rest);
                    lemma_fields_bytes_push(so_far, value);
                    assert(rest.subrange(0, next - at) == payload.subrange(
                        at - start,
                        next - start,
                    ));
                    assert(payload.subrange(0, at - start) + payload.subrange(
                        at - start,
                        next - start,
                    ) == payload.subrange(0, next - start));
                    assert forall|values: Seq<FieldValue>| #[trigger]
                        is_encoding(schema@, values, payload) implies values.take(i + 1)
                        == so_far.push(value) by {
                        lemma_next_field(schema@, values, payload, i as int);
                        assert(values.take(i + 1) == values.take(i as int).push(
                            values[i as int],
                        ));
                    }
                }
                fields.push(field);
                proof {
                    assert(values_of(fields@) == so_far.push(value));
                    assert(schema@.take(i + 1) == schema@.take(i as int).push(schema@[i as int]));
                    assert(kinds_of(so_far.push(value)) == kinds_of(so_far).push(kind_of(value)));
                }
                at = next;
                i += 1;
            },
            None => {
                proof {
                    assert forall|values: Seq<FieldValue>| !is_encoding(
                        schema@,
                        values,
                        payload,
                    ) by {
                        if is_encoding(schema@, values, payload) {
                            lemma_next_field(schema@, values, payload, i as int);
                        }
                    }
                }
                return None;
            },
        }
    }
    if at != bytes.len() {
        proof {
            assert forall|values: Seq<FieldValue>| !is_encoding(schema@, values, payload) by {
                if is_encoding(schema@, values, payload) {
                    assert(values.len() == kinds_of(values).len());
                    assert(values.take(i as int) == values);
                }
            }
        }
        return None;
    }
    proof {
        assert(schema@.take(i as int) == schema@);
        assert(payload.subrange(0, at - start) == payload);
    }
    Some(fields)
}

/// In a list that `bytes` is the encoding of, the field at `i` is the one
/// that is read where the first `i` fields end.
proof fn lemma_next_field(schema: Seq<Kind>, values: Seq<FieldValue>, bytes: Seq<u8>, i: int)
    requires
        is_encoding(schema, values, bytes),
        0 <= i < schema.len(),
    ensures
        i < values.len(),
        fields_bytes(values.take(i)).len() <= bytes.len(),
        parse_field(schema[i], bytes.skip(fields_bytes(values.take(i)).len() as int)) == Some(
            (values[i], field_bytes(values[i]).len()),
        ),
{
    assert(values.len() == kinds_of(values).len());
    assert(kinds_of(values)[i] == kind_of(values[i]));
    lemma_fields_bytes_split(values, i);
    let head = fields_bytes(values.take(i));
    let tail = values.skip(i);
    assert(tail[0] == values[i]);
    assert(bytes.skip(head.len() as int) == fields_bytes(tail));
    lemma_parse_written(values[i], fields_bytes(tail.drop_first()));
}

// Each of the functions below takes the last field off a list, given the
// kind of that field. The arm for any other field is never reached.

/// Takes the last field off a list whose last field is a byte.
pub fn pop_byte(fields: &mut Vec<Field>) -> (byte: u8)
    requires
        old(fields)@.len() > 0,
        old(fields)@.last()@ is Byte,
    ensures
        final(fields)@ == old(fields)@.drop_last(),
        old(fields)@.last()@ == FieldValue::Byte(byte),
{
    match fields.pop() {
        Some(Field::Byte(byte)) => byte,
        _ => 0,
    }
}

/// Takes the last field off a list whose last field is a 32-bit word.
pub fn pop_word32(fields: &mut Vec<Field>) -> (word: u32)
    requires
        old(fields)@.len() > 0,
        old(fields)@.last()@ is Word32,
    ensures
        final(fields)@ == old(fields)@.drop_last(),
        old(fields)@.last()@ == FieldValue::Word32(word),
{
    match fields.pop() {
        Some(Field::Word32(word)) => word,
        _ => 0,
    }
}

/// Takes the last field off a list whose last field is a 64-bit word.
pub fn pop_word64(fields: &mut Vec<Field>) -> (word: u64)
    requires
        old(fields)@.len() > 0,
        old(fields)@.last()@ is Word64,
    ensures
        final(fields)@ == old(fields)@.drop_last(),
        old(fields)@.last()@ == FieldValue::Word64(word),
{
    match fields.pop() {
        Some(Field::Word64(word)) => word,
        _ => 0,
    }
}

/// Takes the last field off a list whose last field is a flag.
pub fn pop_flag(fields: &mut Vec<Field>) -> (flag: bool)
    requires
        old(fields)@.len() > 0,
        old(fields)@.last()@ is Flag,
    ensures
        final(fields)@ == old(fields)@.drop_last(),
        old(fields)@.last()@ == FieldValue::Flag(flag),
{
    match fields.pop() {
        Some(Field::Flag(flag)) => flag,
        _ => false,
    }
}

/// Takes the last field off a list whose last field is an optional word.
pub fn pop_optional_word64(fields: &mut Vec<Field>) -> (word: Option<u64>)
    requires
        old(fields)@.len() > 0,
        old(fields)@.last()@ is OptionalWord64,
    ensures
        final(fields)@ == old(fields)@.drop_last(),
        old(fields)@.last()@ == FieldValue::OptionalWord64(word),
{
    match fields.pop() {
        Some(Field::OptionalWord64(word)) => word,
        _ => None,
    }
}

/// Takes the last field off a list whose last field is a text.
pub fn pop_text(fields: &mut Vec<Field>) -> (text: String)
    requires
        old(fields)@.len() > 0,
        old(fields)@.last()@ is Text,
    ensures
        final(fields)@ == old(fields)@.drop_last(),
        old(fields)@.last()@ == FieldValue::Text(text@),
{
    match fields.pop() {
        Some(Field::Text(text)) => text,
        _ => String::new(),
    }
}

} // verus!
