//! Streams of fields.
//!
//! A stream is a sequence of fields written one after the other. The bytes
//! say nothing of the fields that they hold, so a reader goes by the kinds of
//! the fields, in their order. This module states what the codec does on
//! whole streams; module `round_trip` proves that reading gives back what
//! was written.
use crate::decoder::{DecoderState, Outcome};
use crate::encoder::EncoderState;
use crate::error::{bytes_too_long_message, size_too_large_message, string_too_long_message};
use crate::wire::{
    be16, be32, be64, lemma_first_bit, lemma_with_bit_reads_back, size_bytes, twos16, twos32,
    twos8, MAX_SIZE,
};
use vstd::prelude::*;
use vstd::utf8::encode_utf8;

verus! {

/// One value of a stream.
pub enum Field {
    Uint8(u8),
    Uint16(u16),
    Uint32(u32),
    Int8(i8),
    Int16(i16),
    Int32(i32),
    /// The bit pattern of a 32-bit float.
    Float32(u32),
    /// The bit pattern of a 64-bit float.
    Float64(u64),
    Bool(bool),
    Size(nat),
    Bytes(Seq<u8>),
    Text(Seq<char>),
}

/// What a reader has to know of a field to read it.
pub enum Kind {
    Uint8,
    Uint16,
    Uint32,
    Int8,
    Int16,
    Int32,
    Float32,
    Float64,
    Bool,
    Size,
    Bytes,
    Text,
}

impl Field {
    /// Whether the field can be written: a size, and the length of a byte
    /// string or of the UTF-8 encoding of a text, is at most [`MAX_SIZE`].
    pub open spec fn encodable(self) -> bool {
        match self {
            Field::Size(v) => v <= MAX_SIZE,
            Field::Bytes(v) => v.len() <= MAX_SIZE,
            Field::Text(v) => encode_utf8(v).len() <= MAX_SIZE,
            _ => true,
        }
    }

    /// The message with which the write of the field fails, where it cannot
    /// be written.
    pub open spec fn failure(self) -> Option<Seq<char>> {
        if self.encodable() {
            None
        } else {
            match self {
                Field::Size(_) => Some(size_too_large_message()),
                Field::Bytes(_) => Some(bytes_too_long_message()),
                _ => Some(string_too_long_message()),
            }
        }
    }

    /// The kind of the field.
    pub open spec fn kind(self) -> Kind {
        match self {
            Field::Uint8(_) => Kind::Uint8,
            Field::Uint16(_) => Kind::Uint16,
            Field::Uint32(_) => Kind::Uint32,
            Field::Int8(_) => Kind::Int8,
            Field::Int16(_) => Kind::Int16,
            Field::Int32(_) => Kind::Int32,
            Field::Float32(_) => Kind::Float32,
            Field::Float64(_) => Kind::Float64,
            Field::Bool(_) => Kind::Bool,
            Field::Size(_) => Kind::Size,
            Field::Bytes(_) => Kind::Bytes,
            Field::Text(_) => Kind::Text,
        }
    }
}

/// The outcome of a read, with the value as a field.
pub open spec fn as_field<T>(outcome: Outcome<T>, field: spec_fn(T) -> Field) -> Outcome<Field> {
    match outcome {
        (Ok(value), next) => (Ok(field(value)), next),
        (Err(message), next) => (Err(message), next),
    }
}

impl EncoderState {
    /// The state after a field was written.
    pub open spec fn write(self, field: Field) -> EncoderState {
        match field {
            Field::Uint8(v) => self.append(seq![v]),
            Field::Uint16(v) => self.append(be16(v)),
            Field::Uint32(v) => self.append(be32(v)),
            Field::Int8(v) => self.append(seq![twos8(v)]),
            Field::Int16(v) => self.append(be16(twos16(v))),
            Field::Int32(v) => self.append(be32(twos32(v))),
            Field::Float32(v) => self.append(be32(v)),
            Field::Float64(v) => self.append(be64(v)),
            Field::Bool(v) => self.write_bool(v),
            Field::Size(v) => self.write_size(v),
            Field::Bytes(v) => self.write_bytes(v),
            Field::Text(v) => self.write_string(v),
        }
    }
}

impl DecoderState {
    /// The outcome of reading a field of the given kind.
    pub open spec fn read(self, kind: Kind) -> Outcome<Field> {
        match kind {
            Kind::Uint8 => as_field(self.read_uint8(), |v: u8| Field::Uint8(v)),
            Kind::Uint16 => as_field(self.read_uint16(), |v: u16| Field::Uint16(v)),
            Kind::Uint32 => as_field(self.read_uint32(), |v: u32| Field::Uint32(v)),
            Kind::Int8 => as_field(self.read_int8(), |v: i8| Field::Int8(v)),
            Kind::Int16 => as_field(self.read_int16(), |v: i16| Field::Int16(v)),
            Kind::Int32 => as_field(self.read_int32(), |v: i32| Field::Int32(v)),
            Kind::Float32 => as_field(self.read_uint32(), |v: u32| Field::Float32(v)),
            Kind::Float64 => as_field(self.read_float64_bits(), |v: u64| Field::Float64(v)),
            Kind::Bool => as_field(self.read_bool(), |v: bool| Field::Bool(v)),
            Kind::Size => as_field(self.read_size(), |v: nat| Field::Size(v)),
            Kind::Bytes => as_field(self.read_bytes(), |v: Seq<u8>| Field::Bytes(v)),
            Kind::Text => as_field(self.read_string(), |v: Seq<char>| Field::Text(v)),
        }
    }
}

/// The state of an encoder after the fields were written to a fresh one, in
/// their order.
pub open spec fn written(fields: Seq<Field>) -> EncoderState
    decreases fields.len(),
{
    if fields.len() == 0 {
        EncoderState::empty()
    } else {
        written(fields.drop_last()).write(fields.last())
    }
}

/// Whether every one of the fields can be written.
pub open spec fn all_encodable(fields: Seq<Field>) -> bool {
    forall|i: int| 0 <= i < fields.len() ==> (#[trigger] fields[i]).encodable()
}

/// The kinds of the fields, in their order.
pub open spec fn kinds(fields: Seq<Field>) -> Seq<Kind> {
    Seq::new(fields.len(), |i: int| fields[i].kind())
}

/// The outcome of reading fields of the given kinds one after the other: all
/// of them, or the failure of the first read that fails.
pub open spec fn read_all(from: DecoderState, kinds: Seq<Kind>) -> Outcome<Seq<Field>>
    decreases kinds.len(),
{
    if kinds.len() == 0 {
        (Ok(Seq::empty()), from)
    } else {
        match read_all(from, kinds.drop_last()) {
            (Ok(fields), next) => match next.read(kinds.last()) {
                (Ok(field), after) => (Ok(fields.push(field)), after),
                (Err(message), after) => (Err(message), after),
            },
            (Err(message), next) => (Err(message), next),
        }
    }
}

/// The bytes that the write of a field other than a boolean appends.
pub open spec fn field_bytes(field: Field) -> Seq<u8>
    recommends
        !(field is Bool),
        field.encodable(),
{
    match field {
        Field::Uint8(v) => seq![v],
        Field::Uint16(v) => be16(v),
        Field::Uint32(v) => be32(v),
        Field::Int8(v) => seq![twos8(v)],
        Field::Int16(v) => be16(twos16(v)),
        Field::Int32(v) => be32(twos32(v)),
        Field::Float32(v) => be32(v),
        Field::Float64(v) => be64(v),
        Field::Bool(v) => Seq::empty(),
        Field::Size(v) => size_bytes(v),
        Field::Bytes(v) => size_bytes(v.len()) + v,
        Field::Text(v) => size_bytes(encode_utf8(v).len()) + encode_utf8(v),
    }
}

/// What a write does, case by case. It leaves a state that can occur. A
/// field that cannot be written leaves the bytes and the run as they are,
/// and a failure is then recorded. One that can be written leaves the
/// failure as it was; if it is no boolean its bytes are appended, at least
/// one.
pub proof fn lemma_write(before: EncoderState, field: Field)
    requires
        before.wf(),
    ensures
        before.write(field).wf(),
        !field.encodable() ==> before.write(field).bytes == before.bytes && before.write(
            field,
        ).run == before.run && before.write(field).error is Some,
        field.encodable() ==> before.write(field).error == before.error,
        field.encodable() && !(field is Bool) ==> before.write(field) == before.append(
            field_bytes(field),
        ) && field_bytes(field).len() > 0,
{
    match field {
        Field::Bool(flag) => {
            if 0 < before.run < 8 {
                lemma_with_bit_reads_back(before.bytes.last(), before.run as u8, flag);
            } else {
                lemma_first_bit(flag);
            }
        },
        _ => {},
    }
}

/// Writing fields to a fresh encoder leaves a state that can occur, and one
/// without a failure if every field can be written, and only then.
pub proof fn lemma_written(fields: Seq<Field>)
    ensures
        written(fields).wf(),
        written(fields).error is None <==> all_encodable(fields),
    decreases fields.len(),
{
    if fields.len() > 0 {
        let init = fields.drop_last();
        lemma_written(init);
        lemma_write(written(init), fields.last());
        if all_encodable(fields) {
            assert forall|i: int| 0 <= i < init.len() implies (#[trigger] init[i]).encodable() by {
                assert(fields[i].encodable());
            }
        }
        if all_encodable(init) && fields.last().encodable() {
            assert forall|i: int| 0 <= i < fields.len() implies (#[trigger] fields[i]).encodable()
            by {
                if i < init.len() {
                    assert(init[i].encodable());
                }
            }
        }
    }
}

/// The failure that is kept is the first one: where a field cannot be
/// written and all before it can, the encoder holds the failure of that
/// field, whatever was written after it.
pub proof fn lemma_first_failure(fields: Seq<Field>, first: int)
    requires
        0 <= first < fields.len(),
        !fields[first].encodable(),
        all_encodable(fields.take(first)),
    ensures
        written(fields).error == fields[first].failure(),
    decreases fields.len(),
{
    let init = fields.drop_last();
    lemma_written(init);
    lemma_write(written(init), fields.last());
    if first == fields.len() - 1 {
        assert(fields.take(first) =~= init);
    } else {
        assert(init.take(first) =~= fields.take(first));
        lemma_first_failure(init, first);
    }
}

} // verus!
