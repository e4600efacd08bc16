//! Counting the characters of a whole buffer.
//!
//! A character is a Unicode scalar value in its UTF-8 encoding. An encoding
//! can span several bytes, so a buffer is decoded as a whole and never chunk
//! by chunk.
use vstd::prelude::*;
use vstd::string::{StrSliceExecFns, StringSliceAdditionalSpecFns};
use vstd::utf8::{decode_utf8, encode_utf8_decode_utf8, pop_first_scalar, valid_utf8};

verus! {

/// The number of characters of `s`: the scalar values that it encodes if it
/// is valid UTF-8, and its length in bytes if it is not.
pub open spec fn char_count(s: Seq<u8>) -> nat {
    if valid_utf8(s) {
        decode_utf8(s).len()
    } else {
        s.len()
    }
}

/// `std::str::from_utf8` succeeds on the byte sequences that are valid UTF-8
/// and on no others, and the string slice that it returns is made of the
/// bytes that it was given.
pub assume_specification[ core::str::from_utf8 ](v: &[u8]) -> (r: Result<
    &str,
    core::str::Utf8Error,
>)
    ensures
        r is Ok <==> valid_utf8(v@),
        r matches Ok(text) ==> text.spec_bytes() == v@,
;

/// A valid encoding holds no more characters than bytes.
pub proof fn lemma_decoded_no_longer(s: Seq<u8>)
    requires
        valid_utf8(s),
    ensures
        decode_utf8(s).len() <= s.len(),
    decreases s.len(),
{
    if s.len() > 0 {
        lemma_decoded_no_longer(pop_first_scalar(s));
    }
}

/// There are never more characters than bytes.
pub proof fn lemma_char_count_bounded(s: Seq<u8>)
    ensures
        char_count(s) <= s.len(),
{
    if valid_utf8(s) {
        lemma_decoded_no_longer(s);
    }
}

/// Counts the characters of `bytes`. Bytes that are not valid UTF-8 are not
/// an error: each byte then counts as one character.
pub fn count_chars(bytes: &[u8]) -> (n: usize)
    ensures
        n == char_count(bytes@),
{
    match std::str::from_utf8(bytes) {
        Ok(text) => {
            proof {
                encode_utf8_decode_utf8(text@);
            }
            text.unicode_len()
        },
        Err(_) => bytes.len(),
    }
}

} // verus!
