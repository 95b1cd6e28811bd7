//! The decode protocol: the contracts tying target types, the
//! grammar-walking decoder, and the visitors that build values.
//!
//! The decoder contract is the seam between grammar walking and value
//! construction: its four operations carry the byte-level grammar as
//! their specification, phrased over the implementing type's buffer and
//! offset.  Target types implement [`Decode`]; a type's one-shot
//! [`Visitor`] declares which shapes it accepts and pulls list elements
//! and dictionary entries through the [`List`] and [`Dict`] accessors.
use vstd::prelude::*;

use crate::err::Error;
use crate::parse::BenDecoder;
use crate::parse::{is_digit, scan_uint, Scan};
use crate::parse::{COLON, DICT_TAG, END_TAG, INT_TAG, LIST_TAG, MINUS};

verus! {

/// The four-operation decoding interface the engine implements.  Every
/// operation leaves the buffer alone and only ever moves the offset
/// forward, never past the end of the buffer; a wrong opening tag is
/// detected by peeking and leaves the offset untouched.
pub trait Decoder<'buf> {
    /// The input buffer the decoder walks.
    spec fn sbuf(&self) -> Seq<u8>;

    /// The current read offset into the buffer.
    spec fn at(&self) -> int;

    /// Decode `d`, the entries the visitor pulls, and the terminator `e`.
    fn decode_dict<V: Visitor<'buf>>(&mut self, visitor: V) -> (r: Result<V::Value, Error>)
        ensures
            final(self).sbuf() == old(self).sbuf(),
            old(self).at() <= final(self).at(),
            old(self).at() <= old(self).sbuf().len() ==> final(self).at() <= old(
                self,
            ).sbuf().len(),
            r is Ok ==> old(self).at() < final(self).at() <= old(self).sbuf().len(),
            ({
                let s = old(self).sbuf();
                let q = old(self).at();
                if q >= s.len() {
                    (r matches Err(Error::Eof)) && final(self).at() == q
                } else if s[q] != DICT_TAG {
                    (r matches Err(Error::Parse { reason, pos }) && pos == q && reason@
                        == "Expected Dict"@) && final(self).at() == q
                } else {
                    r is Ok ==> q + 2 <= final(self).at() && s[final(self).at() - 1] == END_TAG
                }
            }),
    ;

    /// Decode `l`, the elements the visitor pulls, and the terminator `e`.
    fn decode_list<V: Visitor<'buf>>(&mut self, visitor: V) -> (r: Result<V::Value, Error>)
        ensures
            final(self).sbuf() == old(self).sbuf(),
            old(self).at() <= final(self).at(),
            old(self).at() <= old(self).sbuf().len() ==> final(self).at() <= old(
                self,
            ).sbuf().len(),
            r is Ok ==> old(self).at() < final(self).at() <= old(self).sbuf().len(),
            ({
                let s = old(self).sbuf();
                let q = old(self).at();
                if q >= s.len() {
                    (r matches Err(Error::Eof)) && final(self).at() == q
                } else if s[q] != LIST_TAG {
                    (r matches Err(Error::Parse { reason, pos }) && pos == q && reason@
                        == "Expected List"@) && final(self).at() == q
                } else {
                    r is Ok ==> q + 2 <= final(self).at() && s[final(self).at() - 1] == END_TAG
                }
            }),
    ;

    /// Decode an integer: `i`, an optional minus sign, a digit run, `e`.
    fn decode_int(&mut self) -> (r: Result<i64, Error>)
        ensures
            final(self).sbuf() == old(self).sbuf(),
            old(self).at() <= final(self).at(),
            old(self).at() <= old(self).sbuf().len() ==> final(self).at() <= old(
                self,
            ).sbuf().len(),
            r is Ok ==> old(self).at() < final(self).at() <= old(self).sbuf().len(),
            ({
                let s = old(self).sbuf();
                let q = old(self).at();
                if q >= s.len() {
                    (r matches Err(Error::Eof)) && final(self).at() == q
                } else if s[q] != INT_TAG {
                    (r matches Err(Error::Parse { reason, pos }) && pos == q && reason@
                        == "Expected integer"@) && final(self).at() == q
                } else {
                    let neg = q + 2 < s.len() + 1 && s[q + 1] == MINUS;
                    let p = if neg {
                        q + 2
                    } else {
                        q + 1
                    };
                    match scan_uint(s, p, END_TAG, i64::MAX as nat) {
                        Scan::Found { v, end } => (r matches Ok(x) && x == (if neg {
                            -(v as int)
                        } else {
                            v as int
                        })) && final(self).at() == end,
                        Scan::Short { end } => (r matches Err(Error::Eof)) && final(self).at()
                            == end,
                        Scan::Stray { end } => (r matches Err(Error::Unexpected { pos }) && pos
                            == end) && final(self).at() == end,
                        Scan::TooBig { end } => (r matches Err(Error::Overflow { pos }) && pos
                            == end - 1) && final(self).at() == end,
                    }
                }
            }),
    ;

    /// Decode a byte string: a decimal length, `:`, and that many raw
    /// bytes, returned as a sub-range of the input buffer.
    fn decode_bytes(&mut self) -> (r: Result<&'buf [u8], Error>)
        ensures
            final(self).sbuf() == old(self).sbuf(),
            old(self).at() <= final(self).at(),
            old(self).at() <= old(self).sbuf().len() ==> final(self).at() <= old(
                self,
            ).sbuf().len(),
            r is Ok ==> old(self).at() < final(self).at() <= old(self).sbuf().len(),
            ({
                let s = old(self).sbuf();
                let q = old(self).at();
                if q >= s.len() {
                    (r matches Err(Error::Eof)) && final(self).at() == q
                } else if !is_digit(s[q]) {
                    (r matches Err(Error::Parse { reason, pos }) && pos == q && reason@
                        == "Expected byte string"@) && final(self).at() == q
                } else {
                    match scan_uint(s, q, COLON, usize::MAX as nat) {
                        Scan::Found { v, end } => if end + v <= s.len() {
                            (r matches Ok(b) && b@ == s.subrange(end, end + v))
                                && final(self).at() == end + v
                        } else {
                            (r matches Err(Error::Eof)) && final(self).at() == end
                        },
                        Scan::Short { end } => (r matches Err(Error::Eof)) && final(self).at()
                            == end,
                        Scan::Stray { end } => (r matches Err(Error::Unexpected { pos }) && pos
                            == end) && final(self).at() == end,
                        Scan::TooBig { end } => (r matches Err(Error::Overflow { pos }) && pos
                            == end - 1) && final(self).at() == end,
                    }
                }
            }),
    ;
}

/// A pull interface over the entries of the dictionary being decoded.
/// Pulling never moves the offset backwards and never pushes it past the
/// end of the buffer.
pub trait Dict<'buf> {
    /// The input buffer the entries come from.
    spec fn sbuf(&self) -> Seq<u8>;

    /// The current read offset into the buffer.
    spec fn at(&self) -> int;

    /// The next `(key, value)` entry, or `None` at the terminator, which
    /// is detected by peeking and left unconsumed.  The key is read as a
    /// raw byte string; only the value goes through the generic decode
    /// path.
    fn next_entry<T: Decode<'buf>>(&mut self) -> (r: Result<Option<(&'buf [u8], T)>, Error>)
        ensures
            final(self).sbuf() == old(self).sbuf(),
            old(self).at() <= final(self).at(),
            old(self).at() <= old(self).sbuf().len() ==> final(self).at() <= old(
                self,
            ).sbuf().len(),
            ({
                let s = old(self).sbuf();
                let q = old(self).at();
                if q >= s.len() {
                    (r matches Err(Error::Eof)) && final(self).at() == q
                } else if s[q] == END_TAG {
                    (r matches Ok(x) && x is None) && final(self).at() == q
                } else {
                    !(r matches Ok(x) && x is None) && (r is Ok ==> q < final(self).at())
                }
            }),
            r matches Ok(Some(e)) ==> ({
                let s = old(self).sbuf();
                let q = old(self).at();
                match scan_uint(s, q, COLON, usize::MAX as nat) {
                    Scan::Found { v, end } => end + v <= s.len() && e.0@ == s.subrange(
                        end,
                        end + v,
                    ) && end + v <= final(self).at() && T::decode_post(
                        s,
                        end + v,
                        final(self).at(),
                        Ok(e.1),
                    ),
                    _ => false,
                }
            }),
            ({
                let s = old(self).sbuf();
                let q = old(self).at();
                if q < s.len() && s[q] != END_TAG {
                    if !is_digit(s[q]) {
                        (r matches Err(Error::Parse { reason, pos }) && pos == q && reason@
                            == "Expected byte string"@) && final(self).at() == q
                    } else {
                        match scan_uint(s, q, COLON, usize::MAX as nat) {
                            Scan::Found { v, end } => if end + v > s.len() {
                                (r matches Err(Error::Eof)) && final(self).at() == end
                            } else {
                                (r matches Err(e) ==> T::decode_post(
                                    s,
                                    end + v,
                                    final(self).at(),
                                    Err(e),
                                ))
                            },
                            Scan::Short { end } => (r matches Err(Error::Eof)) && final(self).at()
                                == end,
                            Scan::Stray { end } => (r matches Err(Error::Unexpected { pos }) && pos
                                == end) && final(self).at() == end,
                            Scan::TooBig { end } => (r matches Err(Error::Overflow { pos }) && pos
                                == end - 1) && final(self).at() == end,
                        }
                    }
                } else {
                    true
                }
            }),
    ;
}

/// A pull interface over the elements of the list being decoded.
/// Pulling never moves the offset backwards and never pushes it past the
/// end of the buffer.
pub trait List<'buf> {
    /// The input buffer the elements come from.
    spec fn sbuf(&self) -> Seq<u8>;

    /// The current read offset into the buffer.
    spec fn at(&self) -> int;

    /// The next element, or `None` at the terminator, which is detected
    /// by peeking and left unconsumed.
    fn next_element<T: Decode<'buf>>(&mut self) -> (r: Result<Option<T>, Error>)
        ensures
            final(self).sbuf() == old(self).sbuf(),
            old(self).at() <= final(self).at(),
            old(self).at() <= old(self).sbuf().len() ==> final(self).at() <= old(
                self,
            ).sbuf().len(),
            ({
                let s = old(self).sbuf();
                let q = old(self).at();
                if q >= s.len() {
                    (r matches Err(Error::Eof)) && final(self).at() == q
                } else if s[q] == END_TAG {
                    (r matches Ok(x) && x is None) && final(self).at() == q
                } else {
                    match r {
                        Ok(x) => (x matches Some(v) && q < final(self).at() && T::decode_post(
                            s,
                            q,
                            final(self).at(),
                            Ok(v),
                        )),
                        Err(e) => T::decode_post(s, q, final(self).at(), Err(e)),
                    }
                }
            }),
    ;
}

/// A one-shot description of which shapes a target type accepts and how
/// the type is built from a shape's contents.  Every operation rejects
/// its shape with a type-mismatch error unless it is overridden; an
/// override may move the accessor's offset forward, but never backwards
/// and never past the end of the buffer.
pub trait Visitor<'buf>: Sized {
    /// The value the visitor builds.
    type Value;

    /// Build the value from the entries of a dictionary.
    fn visit_dict<A: Dict<'buf>>(self, v: &mut A) -> (r: Result<Self::Value, Error>)
        ensures
            final(v).sbuf() == old(v).sbuf(),
            old(v).at() <= final(v).at(),
            old(v).at() <= old(v).sbuf().len() ==> final(v).at() <= old(v).sbuf().len(),
        default_ensures
            (r matches Err(Error::Type { reason }) && reason@ == "Dict not expected"@),
            *final(v) == *old(v),
    {
        Err(Error::Type { reason: "Dict not expected" })
    }

    /// Build the value from the elements of a list.
    fn visit_list<A: List<'buf>>(self, v: &mut A) -> (r: Result<Self::Value, Error>)
        ensures
            final(v).sbuf() == old(v).sbuf(),
            old(v).at() <= final(v).at(),
            old(v).at() <= old(v).sbuf().len() ==> final(v).at() <= old(v).sbuf().len(),
        default_ensures
            (r matches Err(Error::Type { reason }) && reason@ == "List not expected"@),
            *final(v) == *old(v),
    {
        Err(Error::Type { reason: "List not expected" })
    }

    /// Build the value from a byte string.
    fn visit_bytes(self, _v: &'buf [u8]) -> (r: Result<Self::Value, Error>)
        default_ensures
            (r matches Err(Error::Type { reason }) && reason@ == "Byte string not expected"@),
    {
        Err(Error::Type { reason: "Byte string not expected" })
    }

    /// Build the value from an integer.
    fn visit_int(self, _v: i64) -> (r: Result<Self::Value, Error>)
        default_ensures
            (r matches Err(Error::Type { reason }) && reason@ == "Integer not expected"@),
    {
        Err(Error::Type { reason: "Integer not expected" })
    }
}

/// The one operation every decodable type implements: build yourself,
/// given a decoder.  Decoding leaves the buffer alone; it consumes at
/// least one byte on success and never moves the offset backwards or
/// past the end of the buffer.
///
/// The decoder argument is the concrete engine rather than a type bound
/// by [`Decoder`]: the four trait declarations of the protocol refer to
/// one another through this one, and the verifier insists that the chain
/// of references among trait declarations be broken somewhere.
pub trait Decode<'buf>: Sized {
    /// What a finished decode of this type means: walking the buffer `s`
    /// from offset `from` left the cursor at `to` and produced `r`.  A
    /// type overrides this to publish its value-level meaning — which
    /// inputs succeed, with which value, and which fail, with which
    /// error — and its `decode` is then held to it.  The default
    /// promises nothing.
    open spec fn decode_post(s: Seq<u8>, from: int, to: int, r: Result<Self, Error>) -> bool {
        true
    }

    /// Build a value of this type from the decoder's current position.
    fn decode(decoder: &mut BenDecoder<'buf>) -> (r: Result<Self, Error>)
        ensures
            final(decoder).sbuf() == old(decoder).sbuf(),
            old(decoder).at() <= final(decoder).at(),
            old(decoder).at() <= old(decoder).sbuf().len() ==> final(decoder).at() <= old(
                decoder,
            ).sbuf().len(),
            r is Ok ==> old(decoder).at() < final(decoder).at() <= old(decoder).sbuf().len(),
            Self::decode_post(old(decoder).sbuf(), old(decoder).at(), final(decoder).at(), r),
    ;
}

} // verus!
