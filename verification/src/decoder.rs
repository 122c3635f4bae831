//! The read side of the codec.
use crate::error::{invalid_utf8_message, out_of_bounds_message, Error};
use crate::wire::{
    bit_at, from_be16, from_be32, from_be64, from_twos16, from_twos32, from_twos8, lemma_bit_zero,
    lemma_join16, lemma_join32, lemma_join64, lemma_signed16, lemma_signed32, lemma_signed8,
    lemma_size_prefix, size_value, size_width,
};
use vstd::prelude::*;
use vstd::slice::slice_to_vec;
use vstd::utf8::{decode_utf8, encode_utf8_decode_utf8, valid_utf8};

verus! {

/// What a decoder holds, as a mathematical value.
pub struct DecoderState {
    /// The bytes to read, fixed once and for all.
    pub bytes: Seq<u8>,
    /// How many of them have been consumed.
    pub cursor: nat,
    /// How many booleans have been read from the byte before the cursor while
    /// it is still open to more: 1 to 8 right after a boolean was read, 0
    /// after anything else.
    pub run: nat,
}

/// The outcome of a read: the value or the message of the failure, and the
/// state that the decoder is left in.
pub type Outcome<T> = (Result<T, Seq<char>>, DecoderState);

impl DecoderState {
    /// The state of a decoder that has read nothing of the given bytes.
    pub open spec fn start(bytes: Seq<u8>) -> DecoderState {
        DecoderState { bytes, cursor: 0, run: 0 }
    }

    /// Whether the state can occur: the cursor lies within the bytes, and an
    /// open run has a byte before the cursor.
    pub open spec fn wf(self) -> bool {
        &&& self.cursor <= self.bytes.len()
        &&& self.run <= 8
        &&& self.run > 0 ==> self.cursor > 0
    }

    /// How many bytes are left to read.
    pub open spec fn remaining(self) -> nat {
        (self.bytes.len() - self.cursor) as nat
    }

    /// Whether every byte has been consumed.
    pub open spec fn at_end(self) -> bool {
        self.cursor >= self.bytes.len()
    }

    /// The next `n` bytes.
    pub open spec fn peek(self, n: nat) -> Seq<u8> {
        self.bytes.subrange(self.cursor as int, (self.cursor + n) as int)
    }

    /// The state after `n` bytes were consumed by a read other than that of
    /// a boolean: they close the run of booleans.
    pub open spec fn skip(self, n: nat) -> DecoderState {
        DecoderState {
            bytes: self.bytes,
            cursor: self.cursor + n,
            run: if n == 0 {
                self.run
            } else {
                0
            },
        }
    }

    /// Reading `n` bytes one after the other. With fewer than `n` left the
    /// read fails, and the bytes that were left are consumed all the same.
    pub open spec fn read_fixed(self, n: nat) -> Outcome<Seq<u8>> {
        if self.remaining() >= n {
            (Ok(self.peek(n)), self.skip(n))
        } else {
            (Err(out_of_bounds_message()), self.skip(self.remaining()))
        }
    }

    /// Reading one byte.
    pub open spec fn read_uint8(self) -> Outcome<u8> {
        match self.read_fixed(1) {
            (Ok(bytes), next) => (Ok(bytes[0]), next),
            (Err(message), next) => (Err(message), next),
        }
    }

    /// Reading a 16-bit unsigned integer.
    pub open spec fn read_uint16(self) -> Outcome<u16> {
        match self.read_fixed(2) {
            (Ok(bytes), next) => (Ok(from_be16(bytes)), next),
            (Err(message), next) => (Err(message), next),
        }
    }

    /// Reading a 32-bit unsigned integer.
    pub open spec fn read_uint32(self) -> Outcome<u32> {
        match self.read_fixed(4) {
            (Ok(bytes), next) => (Ok(from_be32(bytes)), next),
            (Err(message), next) => (Err(message), next),
        }
    }

    /// Reading the 64-bit pattern of a float: its upper half, then its lower
    /// half.
    pub open spec fn read_float64_bits(self) -> Outcome<u64> {
        match self.read_fixed(8) {
            (Ok(bytes), next) => (Ok(from_be64(bytes)), next),
            (Err(message), next) => (Err(message), next),
        }
    }

    /// Reading an 8-bit signed integer.
    pub open spec fn read_int8(self) -> Outcome<i8> {
        match self.read_uint8() {
            (Ok(v), next) => (Ok(from_twos8(v)), next),
            (Err(message), next) => (Err(message), next),
        }
    }

    /// Reading a 16-bit signed integer.
    pub open spec fn read_int16(self) -> Outcome<i16> {
        match self.read_uint16() {
            (Ok(v), next) => (Ok(from_twos16(v)), next),
            (Err(message), next) => (Err(message), next),
        }
    }

    /// Reading a 32-bit signed integer.
    pub open spec fn read_int32(self) -> Outcome<i32> {
        match self.read_uint32() {
            (Ok(v), next) => (Ok(from_twos32(v)), next),
            (Err(message), next) => (Err(message), next),
        }
    }

    /// Reading a boolean. While the byte before the cursor has given between
    /// one and seven booleans, the next one is its next bit and no byte is
    /// consumed; otherwise a byte is consumed and the boolean is its bit 0.
    pub open spec fn read_bool(self) -> Outcome<bool> {
        if 0 < self.run < 8 && 0 < self.cursor <= self.bytes.len() {
            (
                Ok(bit_at(self.bytes[self.cursor - 1], self.run as u8)),
                DecoderState { bytes: self.bytes, cursor: self.cursor, run: self.run + 1 },
            )
        } else if self.cursor < self.bytes.len() {
            (
                Ok(bit_at(self.bytes[self.cursor as int], 0)),
                DecoderState { bytes: self.bytes, cursor: self.cursor + 1, run: 1 },
            )
        } else {
            (Err(out_of_bounds_message()), self)
        }
    }

    /// Reading a size: one, two or four bytes, as the first of them tells.
    pub open spec fn read_size(self) -> Outcome<nat> {
        if self.at_end() {
            (Err(out_of_bounds_message()), self)
        } else {
            match self.read_fixed(size_width(self.bytes[self.cursor as int])) {
                (Ok(bytes), next) => (Ok(size_value(bytes)), next),
                (Err(message), next) => (Err(message), next),
            }
        }
    }

    /// Reading a byte string: a size, then that many bytes. Where fewer are
    /// left the read fails with the cursor past the size.
    pub open spec fn read_bytes(self) -> Outcome<Seq<u8>> {
        match self.read_size() {
            (Ok(size), next) => if next.remaining() >= size {
                (Ok(next.peek(size)), next.skip(size))
            } else {
                (Err(out_of_bounds_message()), next)
            },
            (Err(message), next) => (Err(message), next),
        }
    }

    /// Reading a text: a byte string that has to be UTF-8. Where it is not,
    /// the read fails with the cursor past the byte string.
    pub open spec fn read_string(self) -> Outcome<Seq<char>> {
        match self.read_bytes() {
            (Ok(bytes), next) => if valid_utf8(bytes) {
                (Ok(decode_utf8(bytes)), next)
            } else {
                (Err(invalid_utf8_message()), next)
            },
            (Err(message), next) => (Err(message), next),
        }
    }
}

/// Reads values back from the bytes that an encoder produced.
///
/// The reads have to come in the order of the writes: the bytes do not say
/// what they hold. A read never goes back: the bytes that a failed read has
/// consumed stay consumed.
pub struct Decoder {
    index: usize,
    length: usize,
    data: Vec<u8>,
    /// The value of `index` right after the byte of the last run of booleans
    /// was consumed; 0 while no boolean was read.
    bool_index: usize,
    /// The bit that the last boolean of that run came from.
    bool_shift: u8,
}

impl View for Decoder {
    type V = DecoderState;

    closed spec fn view(&self) -> DecoderState {
        DecoderState {
            bytes: self.data@,
            cursor: self.index as nat,
            run: if self.bool_index != 0 && self.bool_index == self.index {
                (self.bool_shift + 1) as nat
            } else {
                0
            },
        }
    }
}

impl Decoder {
    #[verifier::type_invariant]
    spec fn inv(&self) -> bool {
        &&& self.length == self.data@.len()
        &&& self.index <= self.length
        &&& self.bool_index <= self.index
        &&& self.bool_shift <= 7
    }

    /// A decoder at the start of the given bytes.
    pub fn new(data: Vec<u8>) -> (d: Decoder)
        ensures
            d@.wf(),
            d@ == DecoderState::start(data@),
    {
        Decoder { index: 0, length: data.len(), data: data, bool_index: 0, bool_shift: 0 }
    }

    /// Reads one byte.
    pub fn uint8(&mut self) -> (r: Result<u8, Error>)
        ensures
            final(self)@.wf(),
            match r {
                Ok(v) => old(self)@.read_uint8() == (Ok::<u8, Seq<char>>(v), final(self)@),
                Err(e) => old(self)@.read_uint8() == (Err::<u8, Seq<char>>(e@), final(self)@),
            },
    {
        proof {
            use_type_invariant(&*self);
        }
        let index = self.index;
        if index >= self.length {
            return Err(Error::out_of_bounds());
        }
        let uint8 = self.data[index];
        self.index = index + 1;
        Ok(uint8)
    }

    /// Reads a 16-bit unsigned integer, most significant byte first.
    pub fn uint16(&mut self) -> (r: Result<u16, Error>)
        ensures
            final(self)@.wf(),
            match r {
                Ok(v) => old(self)@.read_uint16() == (Ok::<u16, Seq<char>>(v), final(self)@),
                Err(e) => old(self)@.read_uint16() == (Err::<u16, Seq<char>>(e@), final(self)@),
            },
    {
        proof {
            use_type_invariant(&*self);
        }
        let high = self.uint8()?;
        let low = self.uint8()?;
        proof {
            lemma_join16(high, low);
        }
        Ok((high as u16) << 8 | (low as u16))
    }

    /// Reads a 32-bit unsigned integer, most significant byte first.
    pub fn uint32(&mut self) -> (r: Result<u32, Error>)
        ensures
            final(self)@.wf(),
            match r {
                Ok(v) => old(self)@.read_uint32() == (Ok::<u32, Seq<char>>(v), final(self)@),
                Err(e) => old(self)@.read_uint32() == (Err::<u32, Seq<char>>(e@), final(self)@),
            },
    {
        proof {
            use_type_invariant(&*self);
        }
        let b0 = self.uint8()?;
        let b1 = self.uint8()?;
        let b2 = self.uint8()?;
        let b3 = self.uint8()?;
        proof {
            lemma_join32(b0, b1, b2, b3);
        }
        Ok((b0 as u32) << 24 | (b1 as u32) << 16 | (b2 as u32) << 8 | (b3 as u32))
    }

    /// Reads an 8-bit signed integer.
    pub fn int8(&mut self) -> (r: Result<i8, Error>)
        ensures
            final(self)@.wf(),
            match r {
                Ok(v) => old(self)@.read_int8() == (Ok::<i8, Seq<char>>(v), final(self)@),
                Err(e) => old(self)@.read_int8() == (Err::<i8, Seq<char>>(e@), final(self)@),
            },
    {
        let uint8 = self.uint8()?;
        proof {
            lemma_signed8(uint8);
        }
        Ok(uint8 as i8)
    }

    /// Reads a 16-bit signed integer.
    pub fn int16(&mut self) -> (r: Result<i16, Error>)
        ensures
            final(self)@.wf(),
            match r {
                Ok(v) => old(self)@.read_int16() == (Ok::<i16, Seq<char>>(v), final(self)@),
                Err(e) => old(self)@.read_int16() == (Err::<i16, Seq<char>>(e@), final(self)@),
            },
    {
        let uint16 = self.uint16()?;
        proof {
            lemma_signed16(uint16);
        }
        Ok(uint16 as i16)
    }

    /// Reads a 32-bit signed integer.
    pub fn int32(&mut self) -> (r: Result<i32, Error>)
        ensures
            final(self)@.wf(),
            match r {
                Ok(v) => old(self)@.read_int32() == (Ok::<i32, Seq<char>>(v), final(self)@),
                Err(e) => old(self)@.read_int32() == (Err::<i32, Seq<char>>(e@), final(self)@),
            },
    {
        let uint32 = self.uint32()?;
        proof {
            lemma_signed32(uint32);
        }
        Ok(uint32 as i32)
    }

    /// Reads the bit pattern of a 32-bit float.
    pub fn float32_bits(&mut self) -> (r: Result<u32, Error>)
        ensures
            final(self)@.wf(),
            match r {
                Ok(v) => old(self)@.read_uint32() == (Ok::<u32, Seq<char>>(v), final(self)@),
                Err(e) => old(self)@.read_uint32() == (Err::<u32, Seq<char>>(e@), final(self)@),
            },
    {
        self.uint32()
    }

    /// Reads the bit pattern of a 64-bit float: its upper half, then its
    /// lower half.
    pub fn float64_bits(&mut self) -> (r: Result<u64, Error>)
        ensures
            final(self)@.wf(),
            match r {
                Ok(v) => old(self)@.read_float64_bits() == (
                    Ok::<u64, Seq<char>>(v),
                    final(self)@,
                ),
                Err(e) => old(self)@.read_float64_bits() == (
                    Err::<u64, Seq<char>>(e@),
                    final(self)@,
                ),
            },
    {
        proof {
            use_type_invariant(&*self);
        }
        let high = self.uint32()?;
        let low = self.uint32()?;
        proof {
            lemma_join64(high, low);
            let bytes = old(self)@.peek(8);
            assert(bytes.subrange(0, 4) =~= old(self)@.peek(4));
            assert(bytes.subrange(4, 8) =~= old(self)@.skip(4).peek(4));
        }
        Ok((high as u64) << 32 | (low as u64))
    }

    /// Reads a boolean. Booleans that follow each other come from one byte,
    /// up to eight of them, the first from bit 0; any other read in between
    /// makes the next boolean come from a new byte.
    pub fn bool(&mut self) -> (r: Result<bool, Error>)
        ensures
            final(self)@.wf(),
            match r {
                Ok(v) => old(self)@.read_bool() == (Ok::<bool, Seq<char>>(v), final(self)@),
                Err(e) => old(self)@.read_bool() == (Err::<bool, Seq<char>>(e@), final(self)@),
            },
    {
        proof {
            use_type_invariant(&*self);
        }
        let index = self.index;
        let bool_shift = self.bool_shift;
        if self.bool_index != 0 && self.bool_index == index && bool_shift < 7 {
            let bool_shift: u8 = bool_shift + 1;
            self.bool_shift = bool_shift;
            let bits = self.data[index - 1];
            let bool_bit: u8 = 1 << bool_shift;
            return Ok(bits & bool_bit == bool_bit);
        }
        let bits = self.uint8()?;
        proof {
            use_type_invariant(&*self);
        }
        self.bool_index = self.index;
        self.bool_shift = 0;
        proof {
            lemma_bit_zero(bits);
        }
        Ok(bits & 1 == 1)
    }

    /// Reads a size of one, two or four bytes.
    pub fn size(&mut self) -> (r: Result<usize, Error>)
        ensures
            final(self)@.wf(),
            match r {
                Ok(v) => old(self)@.read_size() == (Ok::<nat, Seq<char>>(v as nat), final(self)@),
                Err(e) => old(self)@.read_size() == (Err::<nat, Seq<char>>(e@), final(self)@),
            },
    {
        proof {
            use_type_invariant(&*self);
        }
        let first = self.uint8()?;
        proof {
            lemma_size_prefix(first);
        }
        // one byte, no signature
        if first & 128 == 0 {
            assert(old(self)@.peek(1)[0] == first);
            return Ok(first as usize);
        }
        let sig: u8 = first >> 6;
        // the bits below the signature
        let low: u8 = first & 63;
        // two bytes, signature 10
        if sig == 2 {
            let b1 = self.uint8()?;
            proof {
                lemma_join16(low, b1);
            }
            return Ok(((low as u16) << 8 | (b1 as u16)) as usize);
        }
        let b1 = self.uint8()?;
        let b2 = self.uint8()?;
        let b3 = self.uint8()?;
        proof {
            lemma_join32(low, b1, b2, b3);
        }
        Ok(((low as u32) << 24 | (b1 as u32) << 16 | (b2 as u32) << 8 | (b3 as u32)) as usize)
    }

    /// Reads a byte string: a size, then that many bytes.
    pub fn bytes(&mut self) -> (r: Result<Vec<u8>, Error>)
        ensures
            final(self)@.wf(),
            match r {
                Ok(v) => old(self)@.read_bytes() == (Ok::<Seq<u8>, Seq<char>>(v@), final(self)@),
                Err(e) => old(self)@.read_bytes() == (Err::<Seq<u8>, Seq<char>>(e@), final(self)@),
            },
    {
        let size = self.size()?;
        proof {
            use_type_invariant(&*self);
        }
        let index = self.index;
        if size > self.length - index {
            return Err(Error::out_of_bounds());
        }
        let bytes = slice_to_vec(&self.data[index..index + size]);
        self.index = index + size;
        Ok(bytes)
    }

    /// Reads a text: a byte string that has to be UTF-8.
    pub fn string(&mut self) -> (r: Result<String, Error>)
        ensures
            final(self)@.wf(),
            match r {
                Ok(v) => old(self)@.read_string() == (Ok::<Seq<char>, Seq<char>>(v@), final(self)@),
                Err(e) => old(self)@.read_string() == (
                    Err::<Seq<char>, Seq<char>>(e@),
                    final(self)@,
                ),
            },
    {
        let bytes = self.bytes()?;
        match String::from_utf8(bytes) {
            Ok(string) => {
                proof {
                    encode_utf8_decode_utf8(string@);
                }
                Ok(string)
            },
            Err(_) => Err(Error::new("Couldn't decode UTF-8 string")),
        }
    }

    /// Whether every byte has been consumed.
    pub fn end(&self) -> (r: bool)
        ensures
            r == self@.at_end(),
    {
        proof {
            use_type_invariant(self);
        }
        self.index >= self.length
    }
}

} // verus!
