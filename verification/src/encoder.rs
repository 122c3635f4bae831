//! The write side of the codec.
use crate::error::{bytes_too_long_message, size_too_large_message, string_too_long_message, Error};
use crate::wire::{
    be16, be32, be64, below_bit, bit_of, lemma_first_bit, lemma_signature16, lemma_signature32,
    lemma_split16, lemma_split32, lemma_split64, lemma_unsigned16, lemma_unsigned32,
    lemma_unsigned8, lemma_with_bit_reads_back, size_bytes, twos16, twos32, twos8, with_bit,
    MAX_SIZE,
};
use vstd::prelude::*;

verus! {

/// What an encoder holds, as a mathematical value.
pub struct EncoderState {
    /// The bytes written so far.
    pub bytes: Seq<u8>,
    /// How many booleans the last byte holds while it is still open to more:
    /// 1 to 8 right after a boolean was written, 0 after anything else.
    pub run: nat,
    /// The message of the first failed write, if there was one.
    pub error: Option<Seq<char>>,
}

impl EncoderState {
    /// The state of a fresh encoder.
    pub open spec fn empty() -> EncoderState {
        EncoderState { bytes: Seq::empty(), run: 0, error: None }
    }

    /// Whether the state can occur: a byte that is open to more booleans
    /// holds nothing above those that it has.
    pub open spec fn wf(self) -> bool {
        &&& self.run <= 8
        &&& self.run > 0 ==> self.bytes.len() > 0 && below_bit(self.bytes.last(), self.run as u8)
    }

    /// The state after the bytes of a value other than a boolean were
    /// appended: they close the run of booleans.
    pub open spec fn append(self, bytes: Seq<u8>) -> EncoderState {
        EncoderState {
            bytes: self.bytes + bytes,
            run: if bytes.len() == 0 {
                self.run
            } else {
                0
            },
            error: self.error,
        }
    }

    /// The state after a write failed: the first failure is kept, and the
    /// bytes stay as they are.
    pub open spec fn fail(self, message: Seq<char>) -> EncoderState {
        EncoderState {
            bytes: self.bytes,
            run: self.run,
            error: if self.error is None {
                Some(message)
            } else {
                self.error
            },
        }
    }

    /// The state after a boolean was written. While the last byte holds
    /// between one and seven booleans, the next one goes into its next bit;
    /// otherwise it starts a byte of its own, in bit 0.
    pub open spec fn write_bool(self, flag: bool) -> EncoderState {
        if 0 < self.run < 8 && self.bytes.len() > 0 {
            let last = self.bytes.len() - 1;
            EncoderState {
                bytes: self.bytes.update(last, with_bit(self.bytes[last], self.run as u8, flag)),
                run: self.run + 1,
                error: self.error,
            }
        } else {
            EncoderState { bytes: self.bytes.push(bit_of(flag)), run: 1, error: self.error }
        }
    }

    /// The state after a size was written: its bytes are appended, or, above
    /// the largest size, the write fails.
    pub open spec fn write_size(self, size: nat) -> EncoderState {
        if size > MAX_SIZE {
            self.fail(size_too_large_message())
        } else {
            self.append(size_bytes(size))
        }
    }

    /// The state after a byte string was written: its length as a size, then
    /// the bytes themselves; or a failed write where it is too long.
    pub open spec fn write_bytes(self, bytes: Seq<u8>) -> EncoderState {
        if bytes.len() > MAX_SIZE {
            self.fail(bytes_too_long_message())
        } else {
            self.append(size_bytes(bytes.len()) + bytes)
        }
    }

    /// The state after a text was written: as the byte string of its UTF-8
    /// encoding.
    pub open spec fn write_string(self, text: Seq<char>) -> EncoderState {
        let bytes = vstd::utf8::encode_utf8(text);
        if bytes.len() > MAX_SIZE {
            self.fail(string_too_long_message())
        } else {
            self.append(size_bytes(bytes.len()) + bytes)
        }
    }
}

/// Accumulates the bytes of a sequence of values.
///
/// Each write takes the encoder and gives it back, so that writes can be
/// chained. A write that cannot be encoded leaves the bytes as they are and
/// records its failure; [`Encoder::end`] reports the first one.
pub struct Encoder {
    data: Vec<u8>,
    /// The length of `data` right after the byte of the last run of booleans
    /// was appended; 0 while no boolean was written.
    bool_index: usize,
    /// The bit that the last boolean of that run went into.
    bool_shift: u8,
    last_error: Option<Error>,
}

impl View for Encoder {
    type V = EncoderState;

    closed spec fn view(&self) -> EncoderState {
        EncoderState {
            bytes: self.data@,
            run: if self.bool_index != 0 && self.bool_index == self.data@.len() {
                (self.bool_shift + 1) as nat
            } else {
                0
            },
            error: match self.last_error {
                Some(e) => Some(e@),
                None => None,
            },
        }
    }
}

impl Encoder {
    #[verifier::type_invariant]
    spec fn inv(&self) -> bool {
        &&& self.bool_index <= self.data@.len()
        &&& self.bool_shift <= 7
        &&& self.bool_index != 0 && self.bool_index == self.data@.len() ==> below_bit(
            self.data@.last(),
            (self.bool_shift + 1) as u8,
        )
    }

    /// An encoder that has written nothing.
    pub fn new() -> (e: Encoder)
        ensures
            e@.wf(),
            e@ == EncoderState::empty(),
    {
        Encoder { data: Vec::new(), bool_index: 0, bool_shift: 0, last_error: None }
    }

    /// Appends one byte.
    pub fn uint8(self, uint8: u8) -> (e: Encoder)
        ensures
            e@.wf(),
            e@ == self@.append(seq![uint8]),
    {
        proof {
            use_type_invariant(&self);
        }
        let Encoder { mut data, bool_index, bool_shift, last_error } = self;
        data.push(uint8);
        assert(data@ =~= self.data@ + seq![uint8]);
        Encoder { data, bool_index, bool_shift, last_error }
    }

    /// Appends a 16-bit unsigned integer, most significant byte first.
    pub fn uint16(self, uint16: u16) -> (e: Encoder)
        ensures
            e@.wf(),
            e@ == self@.append(be16(uint16)),
    {
        proof {
            use_type_invariant(&self);
            lemma_split16(uint16);
        }
        let Encoder { mut data, bool_index, bool_shift, last_error } = self;
        data.reserve(2);
        data.push((uint16 >> 8) as u8);
        data.push((uint16 & 0xFF) as u8);
        assert(data@ =~= self.data@ + be16(uint16));
        Encoder { data, bool_index, bool_shift, last_error }
    }

    /// Appends a 32-bit unsigned integer, most significant byte first.
    pub fn uint32(self, uint32: u32) -> (e: Encoder)
        ensures
            e@.wf(),
            e@ == self@.append(be32(uint32)),
    {
        proof {
            use_type_invariant(&self);
            lemma_split32(uint32);
        }
        let Encoder { mut data, bool_index, bool_shift, last_error } = self;
        data.reserve(4);
        data.push((uint32 >> 24) as u8);
        data.push(((uint32 >> 16) & 0xFF) as u8);
        data.push(((uint32 >> 8) & 0xFF) as u8);
        data.push((uint32 & 0xFF) as u8);
        assert(data@ =~= self.data@ + be32(uint32));
        Encoder { data, bool_index, bool_shift, last_error }
    }

    /// Appends an 8-bit signed integer in two's complement.
    pub fn int8(self, int8: i8) -> (e: Encoder)
        ensures
            e@.wf(),
            e@ == self@.append(seq![twos8(int8)]),
    {
        proof {
            lemma_unsigned8(int8);
        }
        self.uint8(int8 as u8)
    }

    /// Appends a 16-bit signed integer in two's complement, most significant
    /// byte first.
    pub fn int16(self, int16: i16) -> (e: Encoder)
        ensures
            e@.wf(),
            e@ == self@.append(be16(twos16(int16))),
    {
        proof {
            lemma_unsigned16(int16);
        }
        self.uint16(int16 as u16)
    }

    /// Appends a 32-bit signed integer in two's complement, most significant
    /// byte first.
    pub fn int32(self, int32: i32) -> (e: Encoder)
        ensures
            e@.wf(),
            e@ == self@.append(be32(twos32(int32))),
    {
        proof {
            lemma_unsigned32(int32);
        }
        self.uint32(int32 as u32)
    }

    /// Appends the bit pattern of a 32-bit float, as a 32-bit unsigned
    /// integer.
    pub fn float32_bits(self, bits: u32) -> (e: Encoder)
        ensures
            e@.wf(),
            e@ == self@.append(be32(bits)),
    {
        self.uint32(bits)
    }

    /// Appends the bit pattern of a 64-bit float: its upper half, then its
    /// lower half, each as a 32-bit unsigned integer.
    pub fn float64_bits(self, bits: u64) -> (e: Encoder)
        ensures
            e@.wf(),
            e@ == self@.append(be64(bits)),
    {
        proof {
            lemma_split64(bits);
        }
        let e = self.uint32((bits >> 32) as u32).uint32((bits & 0xFFFF_FFFF) as u32);
        assert(e@.bytes =~= self@.bytes + be64(bits));
        e
    }

    /// Writes a boolean. Booleans that follow each other share a byte, up to
    /// eight of them, the first in bit 0; any other write in between makes
    /// the next boolean start a new byte.
    pub fn bool(self, bool: bool) -> (e: Encoder)
        ensures
            e@.wf(),
            e@ == self@.write_bool(bool),
    {
        proof {
            use_type_invariant(&self);
        }
        let Encoder { mut data, bool_index, bool_shift, last_error } = self;
        let bool_bit: u8 = if bool { 1 } else { 0 };
        let index = data.len();
        if bool_index != 0 && bool_index == index && bool_shift < 7 {
            let shift: u8 = bool_shift + 1;
            let bits: u8 = data[index - 1] | (bool_bit << shift);
            proof {
                lemma_with_bit_reads_back(data[index - 1], shift, bool);
            }
            data[index - 1] = bits;
            return Encoder { data, bool_index, bool_shift: shift, last_error };
        }
        data.push(bool_bit);
        proof {
            lemma_first_bit(bool);
        }
        let index = data.len();
        Encoder { data, bool_index: index, bool_shift: 0, last_error }
    }

    /// Records a failed write, unless an earlier one is already recorded.
    fn defer(self, message: &str) -> (e: Encoder)
        ensures
            e@.wf(),
            e@ == self@.fail(message@),
    {
        proof {
            use_type_invariant(&self);
        }
        let Encoder { data, bool_index, bool_shift, last_error } = self;
        let last_error = match last_error {
            Some(first) => Some(first),
            None => Some(Error::new(message)),
        };
        Encoder { data, bool_index, bool_shift, last_error }
    }

    /// Writes a size in one, two or four bytes, by its magnitude. A size
    /// above [`MAX_SIZE`] is not written: the write fails.
    pub fn size(self, size: usize) -> (e: Encoder)
        ensures
            e@.wf(),
            e@ == self@.write_size(size as nat),
    {
        if size > MAX_SIZE {
            return self.defer("[size] value is too large");
        }
        if size < 0x80 {
            return self.uint8(size as u8);
        }
        if size < 0x4000 {
            proof {
                lemma_signature16(size as u16);
            }
            return self.uint16((size as u16) | 0x8000);
        }
        proof {
            lemma_signature32(size as u32);
        }
        self.uint32((size as u32) | 0xC000_0000)
    }

    /// Writes a byte string: its length as a size, then its bytes. Where the
    /// length is above [`MAX_SIZE`] nothing is written and the write fails.
    pub fn bytes(self, bytes: &[u8]) -> (e: Encoder)
        ensures
            e@.wf(),
            e@ == self@.write_bytes(bytes@),
    {
        let size = bytes.len();
        if size > MAX_SIZE {
            return self.defer("[bytes] is too long");
        }
        let e = self.size(size).raw(bytes);
        assert(e@.bytes =~= self@.bytes + (size_bytes(size as nat) + bytes@));
        e
    }

    /// Writes a text as the byte string of its UTF-8 encoding.
    pub fn string(self, string: &str) -> (e: Encoder)
        ensures
            e@.wf(),
            e@ == self@.write_string(string@),
    {
        let bytes = string.as_bytes();
        let size = bytes.len();
        if size > MAX_SIZE {
            return self.defer("[string] is too long");
        }
        let e = self.size(size).raw(bytes);
        assert(e@.bytes =~= self@.bytes + (size_bytes(size as nat) + bytes@));
        e
    }

    /// Appends bytes as they are.
    fn raw(self, bytes: &[u8]) -> (e: Encoder)
        ensures
            e@.wf(),
            e@ == self@.append(bytes@),
    {
        proof {
            use_type_invariant(&self);
        }
        let Encoder { mut data, bool_index, bool_shift, last_error } = self;
        data.extend_from_slice(bytes);
        assert(data@ =~= self.data@ + bytes@);
        Encoder { data, bool_index, bool_shift, last_error }
    }

    /// Ends the encoding: the bytes written, or the first failure among the
    /// writes.
    pub fn end(self) -> (r: Result<Vec<u8>, Error>)
        ensures
            match r {
                Ok(bytes) => self@.error is None && bytes@ == self@.bytes,
                Err(e) => self@.error == Some(e@),
            },
    {
        match self.last_error {
            Some(error) => Err(error),
            None => Ok(self.data),
        }
    }
}

} // verus!
