//! A zero-copy decoder for a length-prefixed, self-delimiting binary
//! encoding with four value shapes: signed integers, byte strings, lists,
//! and byte-string-keyed dictionaries.
//!
//! A caller picks a target type that implements [`de::Decode`] and hands a
//! byte buffer to [`parse`]; the decoder walks the grammar and builds the
//! value directly, without an intermediate tree.  Decoded byte strings
//! borrow from the input buffer rather than copying it.
use vstd::prelude::*;

pub mod de;
pub mod err;
pub mod impls;
pub mod parse;

pub use err::Error;
pub use parse::BenDecoder;

verus! {

/// The public entry point: decode a value of type `T` from the front of
/// `buf`.
///
/// A fresh engine is built over the buffer and `T` constructs itself
/// through its [`de::Decode`] implementation.  The result is pinned by
/// the type's own [`de::Decode::decode_post`] predicate, taken at the
/// start of the buffer and at the offset the decode finished on: for the
/// built-in scalar targets that predicate states the full grammar, so
/// the decoded value, each error, and its offset follow here.  Trailing
/// bytes after the decoded value are left unread.
pub fn parse<'buf, T: de::Decode<'buf>>(buf: &'buf [u8]) -> (r: Result<T, Error>)
    ensures
        r is Ok ==> buf@.len() > 0,
        exists|end: int| 0 <= end <= buf@.len() && #[trigger] T::decode_post(buf@, 0, end, r),
{
    let mut decoder = BenDecoder::new(buf);
    let r = T::decode(&mut decoder);
    proof {
        assert(T::decode_post(buf@, 0, decoder.at(), r));
    }
    r
}

} // verus!
