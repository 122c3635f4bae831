//! The single error type of the codec.
use vstd::prelude::*;

verus! {

/// A failure of the codec. It carries a message and nothing else; the view of
/// an error is that message.
#[derive(Debug)]
pub struct Error(String);

/// The message of a read past the end of the buffer.
pub open spec fn out_of_bounds_message() -> Seq<char> {
    "Attempted to read out of bounds"@
}

/// The message of a text field whose bytes are not UTF-8.
pub open spec fn invalid_utf8_message() -> Seq<char> {
    "Couldn't decode UTF-8 string"@
}

/// The message of a size above the largest one the format can hold.
pub open spec fn size_too_large_message() -> Seq<char> {
    "[size] value is too large"@
}

/// The message of a byte string that is too long for its length prefix.
pub open spec fn bytes_too_long_message() -> Seq<char> {
    "[bytes] is too long"@
}

/// The message of a text that is too long for its length prefix.
pub open spec fn string_too_long_message() -> Seq<char> {
    "[string] is too long"@
}

impl View for Error {
    type V = Seq<char>;

    closed spec fn view(&self) -> Seq<char> {
        self.0@
    }
}

impl Error {
    /// An error with the given message.
    pub fn new(msg: &str) -> (e: Error)
        ensures
            e@ == msg@,
    {
        Error(msg.to_owned())
    }

    /// The error of a read past the end of the buffer.
    pub fn out_of_bounds() -> (e: Error)
        ensures
            e@ == out_of_bounds_message(),
    {
        Error::new("Attempted to read out of bounds")
    }

    /// The message of this error.
    pub fn description(&self) -> (msg: &str)
        ensures
            msg@ == self@,
    {
        self.0.as_str()
    }
}

/// The five messages of the codec are pairwise different, so an error's
/// message tells which failure occurred.
pub proof fn lemma_messages_differ()
    ensures
        out_of_bounds_message() != invalid_utf8_message(),
        out_of_bounds_message() != size_too_large_message(),
        out_of_bounds_message() != bytes_too_long_message(),
        out_of_bounds_message() != string_too_long_message(),
        invalid_utf8_message() != size_too_large_message(),
        invalid_utf8_message() != bytes_too_long_message(),
        invalid_utf8_message() != string_too_long_message(),
        size_too_large_message() != bytes_too_long_message(),
        size_too_large_message() != string_too_long_message(),
        bytes_too_long_message() != string_too_long_message(),
{
    reveal_strlit("Attempted to read out of bounds");
    reveal_strlit("Couldn't decode UTF-8 string");
    reveal_strlit("[size] value is too large");
    reveal_strlit("[bytes] is too long");
    reveal_strlit("[string] is too long");
    assert(out_of_bounds_message().len() == 31);
    assert(invalid_utf8_message().len() == 28);
    assert(size_too_large_message().len() == 25);
    assert(bytes_too_long_message().len() == 19);
    assert(string_too_long_message().len() == 20);
}

} // verus!
