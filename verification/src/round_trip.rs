//! The round trip: what is written is read back.
//!
//! The proofs go by one relation between the two sides: a buffer *extends*
//! what an encoder has written if it starts with the encoder's bytes, where
//! a byte that is still open to booleans may have more of them in the
//! buffer. A decoder of such a buffer that stands where the encoder stands
//! reads the next field as it was written.
use crate::decoder::DecoderState;
use crate::encoder::EncoderState;
use crate::error::out_of_bounds_message;
use crate::stream::{
    all_encodable, field_bytes, kinds, lemma_write, lemma_written, read_all, written, Field, Kind,
};
use crate::wire::{
    bit_at, lemma_be16_round_trip, lemma_be32_round_trip, lemma_be64_round_trip, lemma_first_bit,
    lemma_size_round_trip, lemma_with_bit_keeps_others, lemma_with_bit_reads_back, size_bytes,
    twos16, twos32, MAX_SIZE,
};
use vstd::prelude::*;
use vstd::utf8::{encode_utf8, encode_utf8_decode_utf8, encode_utf8_valid_utf8};

verus! {

/// Whether two bytes hold the same bits at the positions below `count`.
pub open spec fn same_low_bits(left: u8, right: u8, count: nat) -> bool {
    forall|k: u8| k < count ==> #[trigger] bit_at(left, k) == bit_at(right, k)
}

/// Whether a buffer goes on from what an encoder has written: it starts with
/// the encoder's bytes, except that a byte still open to booleans may hold
/// more of them in the buffer.
pub open spec fn extends(bytes: Seq<u8>, written: EncoderState) -> bool {
    &&& written.bytes.len() <= bytes.len()
    &&& forall|i: int| 0 <= i < written.bytes.len() - 1 ==> bytes[i] == written.bytes[i]
    &&& written.bytes.len() > 0 ==> if written.run > 0 {
        same_low_bits(bytes[written.bytes.len() - 1], written.bytes.last(), written.run)
    } else {
        bytes[written.bytes.len() - 1] == written.bytes.last()
    }
}

/// The state of a decoder of the given buffer that has read what the encoder
/// has written.
pub open spec fn reader_at(bytes: Seq<u8>, written: EncoderState) -> DecoderState {
    DecoderState { bytes, cursor: written.bytes.len(), run: written.run }
}

/// A buffer that goes on from a state to which bytes were appended goes on
/// from the state before, and holds those bytes right after it.
proof fn lemma_extends_before_append(bytes: Seq<u8>, before: EncoderState, added: Seq<u8>)
    requires
        before.wf(),
        added.len() > 0,
        extends(bytes, before.append(added)),
    ensures
        extends(bytes, before),
        before.bytes.len() + added.len() <= bytes.len(),
        reader_at(bytes, before).peek(added.len()) == added,
{
    let after = before.append(added);
    // the run is closed, so the buffer holds every byte of `after` as it is
    assert forall|i: int| 0 <= i < after.bytes.len() implies bytes[i] == after.bytes[i] by {}
    assert(reader_at(bytes, before).peek(added.len()) =~= added);
}

/// A buffer that goes on from a state to which a boolean was written goes on
/// from the state before, and holds the boolean in the bit that it went to.
proof fn lemma_extends_before_bool(bytes: Seq<u8>, before: EncoderState, flag: bool)
    requires
        before.wf(),
        extends(bytes, before.write_bool(flag)),
    ensures
        extends(bytes, before),
        0 < before.run < 8 ==> bit_at(bytes[before.bytes.len() - 1], before.run as u8) == flag,
        !(0 < before.run < 8) ==> before.bytes.len() < bytes.len() && bit_at(
            bytes[before.bytes.len() as int],
            0,
        ) == flag,
{
    if 0 < before.run < 8 {
        // the boolean went into the open byte, above the bits that it held
        let last = before.bytes.len() - 1;
        let k = before.run as u8;
        lemma_with_bit_reads_back(before.bytes[last], k, flag);
        assert forall|j: u8| j < before.run implies #[trigger] bit_at(bytes[last], j) == bit_at(
            before.bytes.last(),
            j,
        ) by {
            lemma_with_bit_keeps_others(before.bytes[last], k, flag, j);
        }
    } else {
        // the boolean went into a byte of its own
        lemma_first_bit(flag);
    }
}

/// A buffer that goes on from what was written after a field also goes on
/// from what was written before it.
pub proof fn lemma_extends_before(bytes: Seq<u8>, before: EncoderState, field: Field)
    requires
        before.wf(),
        extends(bytes, before.write(field)),
    ensures
        extends(bytes, before),
{
    lemma_write(before, field);
    if field.encodable() {
        match field {
            Field::Bool(flag) => {
                lemma_extends_before_bool(bytes, before, flag);
            },
            _ => {
                lemma_extends_before_append(bytes, before, field_bytes(field));
            },
        }
    }
}

/// A write only appends. What an encoder holds after a write, failed or not,
/// goes on from what it held before: no byte is taken away, and none is
/// changed but for the bits that booleans add to a byte still open to them.
pub proof fn lemma_write_appends(before: EncoderState, field: Field)
    requires
        before.wf(),
    ensures
        extends(before.write(field).bytes, before),
{
    lemma_extends_before(before.write(field).bytes, before, field);
}

/// A read only moves forward. It leaves the bytes as they are and a state
/// that can occur, and the cursor where it was or further on.
pub proof fn lemma_read_advances(from: DecoderState, kind: Kind)
    requires
        from.wf(),
    ensures
        from.read(kind).1.wf(),
        from.read(kind).1.bytes == from.bytes,
        from.read(kind).1.cursor >= from.cursor,
{
}

/// Reading gives back what was written, field by field: a decoder that has
/// read what an encoder had written before a field reads that field next,
/// and has then read what the encoder has written after it. This holds in
/// every buffer that goes on from what the encoder has written.
pub proof fn lemma_read_after_write(bytes: Seq<u8>, before: EncoderState, field: Field)
    requires
        before.wf(),
        field.encodable(),
        extends(bytes, before.write(field)),
    ensures
        reader_at(bytes, before).read(field.kind()) == (
            Ok::<Field, Seq<char>>(field),
            reader_at(bytes, before.write(field)),
        ),
{
    let from = reader_at(bytes, before);
    let added = field_bytes(field);
    lemma_write(before, field);
    match field {
        Field::Bool(flag) => {
            lemma_extends_before_bool(bytes, before, flag);
        },
        _ => {
            lemma_extends_before_append(bytes, before, added);
            assert(from.read_fixed(added.len()) == (
                Ok::<Seq<u8>, Seq<char>>(added),
                reader_at(bytes, before.write(field)),
            ));
        },
    }
    match field {
        Field::Uint16(v) => {
            lemma_be16_round_trip(v);
        },
        Field::Uint32(v) => {
            lemma_be32_round_trip(v);
        },
        Field::Int16(v) => {
            lemma_be16_round_trip(twos16(v));
        },
        Field::Int32(v) => {
            lemma_be32_round_trip(twos32(v));
        },
        Field::Float32(v) => {
            lemma_be32_round_trip(v);
        },
        Field::Float64(v) => {
            lemma_be64_round_trip(v);
        },
        Field::Size(v) => {
            lemma_size_round_trip(v);
            assert(from.bytes[from.cursor as int] == from.peek(added.len())[0]);
        },
        Field::Bytes(v) => {
            lemma_read_after_prefixed(bytes, before, v);
        },
        Field::Text(v) => {
            lemma_read_after_prefixed(bytes, before, encode_utf8(v));
            encode_utf8_valid_utf8(v);
            encode_utf8_decode_utf8(v);
        },
        _ => {},
    }
}

/// A decoder reads back a byte string that was appended after its length.
proof fn lemma_read_after_prefixed(bytes: Seq<u8>, before: EncoderState, payload: Seq<u8>)
    requires
        before.wf(),
        payload.len() <= MAX_SIZE,
        reader_at(bytes, before).peek((size_bytes(payload.len()) + payload).len()) == size_bytes(
            payload.len(),
        ) + payload,
        before.bytes.len() + (size_bytes(payload.len()) + payload).len() <= bytes.len(),
    ensures
        reader_at(bytes, before).read_bytes() == (
            Ok::<Seq<u8>, Seq<char>>(payload),
            reader_at(bytes, before.append(size_bytes(payload.len()) + payload)),
        ),
{
    let from = reader_at(bytes, before);
    let prefix = size_bytes(payload.len());
    let whole = prefix + payload;
    lemma_size_round_trip(payload.len());
    assert(from.bytes[from.cursor as int] == from.peek(whole.len())[0]);
    assert(from.peek(prefix.len()) =~= prefix) by {
        assert forall|i: int| 0 <= i < prefix.len() implies from.peek(prefix.len())[i]
            == prefix[i] by {
            assert(from.peek(whole.len())[i] == whole[i]);
        }
    }
    let next = from.skip(prefix.len());
    assert(next.peek(payload.len()) =~= payload) by {
        assert forall|i: int| 0 <= i < payload.len() implies next.peek(payload.len())[i]
            == payload[i] by {
            assert(from.peek(whole.len())[prefix.len() + i] == whole[prefix.len() + i]);
        }
    }
}

/// Reading gives back what was written: from the start of a buffer that
/// goes on from what the fields gave, a decoder reads those fields, and has
/// then read what was written.
pub proof fn lemma_read_back(bytes: Seq<u8>, fields: Seq<Field>)
    requires
        all_encodable(fields),
        extends(bytes, written(fields)),
    ensures
        read_all(DecoderState::start(bytes), kinds(fields)) == (
            Ok::<Seq<Field>, Seq<char>>(fields),
            reader_at(bytes, written(fields)),
        ),
    decreases fields.len(),
{
    if fields.len() == 0 {
        assert(fields =~= Seq::empty());
    } else {
        let init = fields.drop_last();
        let before = written(init);
        lemma_written(init);
        lemma_extends_before(bytes, before, fields.last());
        lemma_read_back(bytes, init);
        lemma_read_after_write(bytes, before, fields.last());
        assert(kinds(fields).drop_last() =~= kinds(init));
        assert(init.push(fields.last()) =~= fields);
    }
}

/// The round trip: the bytes that a sequence of fields gives, each of which
/// can be written, are read back as those fields, and the decoder is then at
/// the end.
pub proof fn lemma_round_trip(fields: Seq<Field>)
    requires
        all_encodable(fields),
    ensures
        read_all(DecoderState::start(written(fields).bytes), kinds(fields)) == (
            Ok::<Seq<Field>, Seq<char>>(fields),
            reader_at(written(fields).bytes, written(fields)),
        ),
        reader_at(written(fields).bytes, written(fields)).at_end(),
{
    lemma_read_back(written(fields).bytes, fields);
}

/// The round trip of one value: the bytes that a fresh encoder gives for a
/// field that can be written are read back as that field, and nothing is
/// left.
pub proof fn lemma_round_trip_of_one(field: Field)
    requires
        field.encodable(),
    ensures
        ({
            let bytes = EncoderState::empty().write(field).bytes;
            let (value, next) = DecoderState::start(bytes).read(field.kind());
            value == Ok::<Field, Seq<char>>(field) && next.at_end()
        }),
{
    let after = EncoderState::empty().write(field);
    lemma_read_after_write(after.bytes, EncoderState::empty(), field);
}

/// A buffer that goes on from what the fields gave goes on from what the
/// first of them gave.
pub proof fn lemma_extends_part(bytes: Seq<u8>, fields: Seq<Field>, count: int)
    requires
        extends(bytes, written(fields)),
        0 <= count <= fields.len(),
    ensures
        extends(bytes, written(fields.take(count))),
    decreases fields.len(),
{
    if count == fields.len() {
        assert(fields.take(count) =~= fields);
    } else {
        let init = fields.drop_last();
        lemma_written(init);
        lemma_extends_before(bytes, written(init), fields.last());
        lemma_extends_part(bytes, init, count);
        assert(init.take(count) =~= fields.take(count));
    }
}

/// Whether the fields are booleans that all go into a byte which holds `run`
/// booleans already.
pub open spec fn all_join_run(run: nat, fields: Seq<Field>) -> bool {
    &&& run > 0
    &&& run + fields.len() <= 8
    &&& forall|i: int| 0 <= i < fields.len() ==> fields[i] is Bool
}

/// The fields after the first `count` add no byte to what those gave if
/// they are booleans that all go into the byte of a boolean before them, and
/// only then.
pub proof fn lemma_bytes_grow(fields: Seq<Field>, count: int)
    requires
        all_encodable(fields),
        0 <= count <= fields.len(),
    ensures
        written(fields).bytes.len() >= written(fields.take(count)).bytes.len(),
        count < fields.len() ==> (written(fields).bytes.len() == written(
            fields.take(count),
        ).bytes.len() <==> all_join_run(written(fields.take(count)).run, fields.skip(count))),
        all_join_run(written(fields.take(count)).run, fields.skip(count)) ==> written(fields).run
            == written(fields.take(count)).run + fields.len() - count,
    decreases fields.len(),
{
    let part = written(fields.take(count));
    if count == fields.len() {
        assert(fields.take(count) =~= fields);
    } else {
        let init = fields.drop_last();
        let last = fields.last();
        let mid = written(init);
        lemma_written(init);
        lemma_write(mid, last);
        lemma_bytes_grow(init, count);
        assert(init.take(count) =~= fields.take(count));
        assert(fields.skip(count).last() == last);
        if count < init.len() {
            if all_join_run(part.run, fields.skip(count)) {
                assert forall|i: int| 0 <= i < init.skip(count).len() implies init.skip(
                    count,
                )[i] is Bool by {
                    assert(fields.skip(count)[i] == init.skip(count)[i]);
                }
            }
            if all_join_run(part.run, init.skip(count)) && last is Bool && 0 < mid.run < 8 {
                assert forall|i: int| 0 <= i < fields.skip(count).len() implies fields.skip(
                    count,
                )[i] is Bool by {
                    if i < init.skip(count).len() {
                        assert(fields.skip(count)[i] == init.skip(count)[i]);
                    }
                }
            }
        }
    }
}

/// Reading fewer fields than were written gives the first of them, and
/// leaves the decoder before the end of the bytes, unless the fields that
/// were not read are booleans that all went into the byte of the last
/// boolean read: then every byte has been consumed.
pub proof fn lemma_read_part(fields: Seq<Field>, count: int)
    requires
        all_encodable(fields),
        0 <= count < fields.len(),
    ensures
        ({
            let bytes = written(fields).bytes;
            let part = fields.take(count);
            let (values, next) = read_all(DecoderState::start(bytes), kinds(part));
            &&& values == Ok::<Seq<Field>, Seq<char>>(part)
            &&& next == reader_at(bytes, written(part))
            &&& next.at_end() <==> all_join_run(written(part).run, fields.skip(count))
        }),
{
    let bytes = written(fields).bytes;
    lemma_extends_part(bytes, fields, count);
    lemma_read_back(bytes, fields.take(count));
    lemma_bytes_grow(fields, count);
}

/// A value cut short is not read. Where the bytes that are left are the
/// first bytes of a field other than a boolean, and not all of them, reading
/// the field fails as a read out of bounds.
pub proof fn lemma_truncated_read_fails(from: DecoderState, field: Field)
    requires
        from.wf(),
        field.encodable(),
        !(field is Bool),
        from.remaining() < field_bytes(field).len(),
        from.peek(from.remaining()) == field_bytes(field).take(from.remaining() as int),
    ensures
        from.read(field.kind()).0 == Err::<Field, Seq<char>>(out_of_bounds_message()),
{
    let left = from.remaining();
    match field {
        Field::Size(v) => {
            lemma_size_round_trip(v);
            if left > 0 {
                assert(from.bytes[from.cursor as int] == from.peek(left)[0]);
            }
        },
        Field::Bytes(v) => {
            lemma_truncated_prefixed(from, v);
        },
        Field::Text(v) => {
            lemma_truncated_prefixed(from, encode_utf8(v));
        },
        _ => {},
    }
}

/// A byte string cut short within or after its length is not read.
proof fn lemma_truncated_prefixed(from: DecoderState, payload: Seq<u8>)
    requires
        from.wf(),
        payload.len() <= MAX_SIZE,
        from.remaining() < (size_bytes(payload.len()) + payload).len(),
        from.peek(from.remaining()) == (size_bytes(payload.len()) + payload).take(
            from.remaining() as int,
        ),
    ensures
        from.read_bytes().0 == Err::<Seq<u8>, Seq<char>>(out_of_bounds_message()),
{
    let prefix = size_bytes(payload.len());
    let whole = prefix + payload;
    let left = from.remaining();
    lemma_size_round_trip(payload.len());
    if left > 0 {
        assert(from.bytes[from.cursor as int] == from.peek(left)[0]);
        if left >= prefix.len() {
            assert(from.peek(prefix.len()) =~= prefix) by {
                assert forall|i: int| 0 <= i < prefix.len() implies from.peek(prefix.len())[i]
                    == prefix[i] by {
                    assert(from.peek(left)[i] == whole[i]);
                }
            }
        }
    }
}

} // verus!
