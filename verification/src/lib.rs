//! A compact binary codec for primitive values.
//!
//! An [`Encoder`] appends fixed-width integers, sizes, booleans, byte strings
//! and text to a growing buffer; a [`Decoder`] reads them back in the same
//! order. The stream is big-endian and carries no type tags: the reader has to
//! know the sequence of fields.
//!
//! Every function is specified over a mathematical model of the stream
//! ([`EncoderState`], [`DecoderState`]) and the wire format of module
//! [`wire`]. Module [`stream`] states what the codec does on a sequence of
//! fields, and module [`round_trip`] proves that what was written is read
//! back.
//! Module [`text`] holds the one thing that is believed and not proved: what
//! std's conversion from bytes to text does.
//!
//! Floats are not part of the verified library: it writes and reads their
//! bit patterns ([`Encoder::float32_bits`], [`Encoder::float64_bits`]).
pub mod decoder;
pub mod encoder;
pub mod error;
pub mod round_trip;
pub mod stream;
pub mod text;
pub mod wire;

pub use decoder::{Decoder, DecoderState};
pub use encoder::{Encoder, EncoderState};
pub use error::Error;
