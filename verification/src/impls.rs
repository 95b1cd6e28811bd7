//! Built-in bindings of the decode protocol: scalars, borrowed byte
//! strings and text, tuples, fixed-size arrays, and common containers.
//! The scalar bindings delegate to one decoder primitive each.  The
//! container bindings open their frame with the engine's crate-private
//! framing operations, pull elements and entries through the public
//! accessor contracts until the container ends, and let the engine
//! consume the terminator; a user-defined type reaches the same
//! accessors through the visitor protocol instead, which the verifier
//! cannot yet follow for visitors tied to the buffer's lifetime.
use std::collections::{BTreeMap, BTreeSet, HashMap, HashSet, VecDeque};
use std::hash::Hash;

use vstd::prelude::*;

use crate::de::{Decode, Decoder, Dict, List};
use crate::err::Error;
use crate::parse::{is_digit, scan_uint, Scan};
use crate::parse::{BenDecoder, COLON, DICT_TAG, END_TAG, INT_TAG, LIST_TAG, MINUS};

verus! {

impl<'buf> Decode<'buf> for &'buf [u8] {
    /// Exactly the meaning of the decoder's byte-string operation.
    open spec fn decode_post(s: Seq<u8>, from: int, to: int, r: Result<Self, Error>) -> bool {
        if from >= s.len() {
            (r matches Err(Error::Eof)) && to == from
        } else if !is_digit(s[from]) {
            (r matches Err(Error::Parse { reason, pos }) && pos == from && reason@
                == "Expected byte string"@) && to == from
        } else {
            match scan_uint(s, from, COLON, usize::MAX as nat) {
                Scan::Found { v, end } => if end + v <= s.len() {
                    (r matches Ok(b) && b@ == s.subrange(end, end + v)) && to == end + v
                } else {
                    (r matches Err(Error::Eof)) && to == end
                },
                Scan::Short { end } => (r matches Err(Error::Eof)) && to == end,
                Scan::Stray { end } => (r matches Err(Error::Unexpected { pos }) && pos == end)
                    && to == end,
                Scan::TooBig { end } => (r matches Err(Error::Overflow { pos }) && pos == end - 1)
                    && to == end,
            }
        }
    }

    /// A byte string, borrowed from the input buffer.
    fn decode(decoder: &mut BenDecoder<'buf>) -> (r: Result<Self, Error>) {
        Decoder::decode_bytes(decoder)
    }
}

impl<'buf> Decode<'buf> for i64 {
    /// Exactly the meaning of the decoder's integer operation.
    open spec fn decode_post(s: Seq<u8>, from: int, to: int, r: Result<Self, Error>) -> bool {
        if from >= s.len() {
            (r matches Err(Error::Eof)) && to == from
        } else if s[from] != INT_TAG {
            (r matches Err(Error::Parse { reason, pos }) && pos == from && reason@
                == "Expected integer"@) && to == from
        } else {
            let neg = from + 2 < s.len() + 1 && s[from + 1] == MINUS;
            let p = if neg {
                from + 2
            } else {
                from + 1
            };
            match scan_uint(s, p, END_TAG, i64::MAX as nat) {
                Scan::Found { v, end } => (r matches Ok(x) && x == (if neg {
                    -(v as int)
                } else {
                    v as int
                })) && to == end,
                Scan::Short { end } => (r matches Err(Error::Eof)) && to == end,
                Scan::Stray { end } => (r matches Err(Error::Unexpected { pos }) && pos == end)
                    && to == end,
                Scan::TooBig { end } => (r matches Err(Error::Overflow { pos }) && pos == end - 1)
                    && to == end,
            }
        }
    }

    /// An integer, passed through directly.
    fn decode(decoder: &mut BenDecoder<'buf>) -> (r: Result<Self, Error>) {
        Decoder::decode_int(decoder)
    }
}

/// Relies on std's `str::from_utf8`: it returns `Ok` exactly when the
/// bytes are valid UTF-8, and the returned text is a view of those same
/// bytes.
#[verifier::external_body]
fn bytes_as_utf8<'a>(b: &'a [u8]) -> (r: Option<&'a str>)
    ensures
        r is Some <==> vstd::utf8::valid_utf8(b@),
        r matches Some(t) ==> vstd::string::StringSliceAdditionalSpecFns::spec_bytes(t) == b@,
{
    match std::str::from_utf8(b) {
        Ok(t) => Some(t),
        Err(_) => None,
    }
}

impl<'buf> Decode<'buf> for &'buf str {
    /// The byte-string operation's meaning, with the payload validated
    /// as UTF-8: the text's encoded bytes are the payload on success,
    /// and an invalid payload is a type mismatch.
    open spec fn decode_post(s: Seq<u8>, from: int, to: int, r: Result<Self, Error>) -> bool {
        if from >= s.len() {
            (r matches Err(Error::Eof)) && to == from
        } else if !is_digit(s[from]) {
            (r matches Err(Error::Parse { reason, pos }) && pos == from && reason@
                == "Expected byte string"@) && to == from
        } else {
            match scan_uint(s, from, COLON, usize::MAX as nat) {
                Scan::Found { v, end } => if end + v <= s.len() {
                    ({
                        let payload = s.subrange(end, end + v);
                        if vstd::utf8::valid_utf8(payload) {
                            (r matches Ok(t)
                                && vstd::string::StringSliceAdditionalSpecFns::spec_bytes(t)
                                == payload) && to == end + v
                        } else {
                            (r matches Err(Error::Type { reason }) && reason@
                                == "Not a valid UTF-8 string"@) && to == end + v
                        }
                    })
                } else {
                    (r matches Err(Error::Eof)) && to == end
                },
                Scan::Short { end } => (r matches Err(Error::Eof)) && to == end,
                Scan::Stray { end } => (r matches Err(Error::Unexpected { pos }) && pos == end)
                    && to == end,
                Scan::TooBig { end } => (r matches Err(Error::Overflow { pos }) && pos == end - 1)
                    && to == end,
            }
        }
    }

    /// A byte string validated as well-formed text, borrowed from the
    /// input buffer.
    fn decode(decoder: &mut BenDecoder<'buf>) -> (r: Result<Self, Error>) {
        let bytes = Decoder::decode_bytes(decoder)?;
        match bytes_as_utf8(bytes) {
            Some(t) => Ok(t),
            None => Err(Error::Type { reason: "Not a valid UTF-8 string" }),
        }
    }
}

/// The elements `elems` were decoded one after another from `s`,
/// walking exactly from `from` to `to`: each element's own meaning
/// holds over its region, and the regions tile the walk in document
/// order — none skipped, invented, or reordered.
pub open spec fn elements_post<'buf, T: Decode<'buf>>(
    s: Seq<u8>,
    from: int,
    to: int,
    elems: Seq<T>,
) -> bool
    decreases elems.len(),
{
    if elems.len() == 0 {
        to == from
    } else {
        exists|mid: int|
            from < mid <= to && #[trigger] T::decode_post(s, from, mid, Ok(elems.first()))
                && elements_post(s, mid, to, elems.drop_first())
    }
}

/// A tiled walk grows by one element decoded at its end.
pub proof fn lemma_elements_post_push<'buf, T: Decode<'buf>>(
    s: Seq<u8>,
    from: int,
    mid: int,
    to: int,
    elems: Seq<T>,
    x: T,
)
    requires
        elements_post(s, from, mid, elems),
        from <= mid < to,
        T::decode_post(s, mid, to, Ok(x)),
    ensures
        elements_post(s, from, to, elems.push(x)),
    decreases elems.len(),
{
    if elems.len() == 0 {
        assert(elems.push(x).first() == x);
        assert(elems.push(x).drop_first() =~= Seq::<T>::empty());
        assert(T::decode_post(s, mid, to, Ok(elems.push(x).first())));
        assert(elements_post(s, to, to, elems.push(x).drop_first()));
    } else {
        let m0 = choose|m: int|
            from < m <= mid && #[trigger] T::decode_post(s, from, m, Ok(elems.first()))
                && elements_post(s, m, mid, elems.drop_first());
        lemma_elements_post_push(s, m0, mid, to, elems.drop_first(), x);
        assert(elems.push(x).first() == elems.first());
        assert(elems.push(x).drop_first() =~= elems.drop_first().push(x));
        assert(T::decode_post(s, from, m0, Ok(elems.push(x).first())));
        assert(elements_post(s, m0, to, elems.push(x).drop_first()));
    }
}

/// A list body was decoded from `from` up to a terminator, leaving the
/// cursor just past it, and `elems` are exactly the elements found.
pub open spec fn list_body_post<'buf, T: Decode<'buf>>(
    s: Seq<u8>,
    from: int,
    to: int,
    elems: Seq<T>,
) -> bool {
    exists|stop: int|
        from <= stop < s.len() && s[stop] == END_TAG && to == stop + 1
            && #[trigger] elements_post(s, from, stop, elems)
}

/// The two components of a pair were decoded back to back across
/// `[from, to)`, each with its own type's meaning.
pub open spec fn pair_elements_post<'buf, T0: Decode<'buf>, T1: Decode<'buf>>(
    s: Seq<u8>,
    from: int,
    to: int,
    v: (T0, T1),
) -> bool {
    exists|m: int|
        from < m <= to && #[trigger] T0::decode_post(s, from, m, Ok(v.0)) && T1::decode_post(
            s,
            m,
            to,
            Ok(v.1),
        )
}

/// The three components of a triple were decoded back to back across
/// `[from, to)`, each with its own type's meaning.
pub open spec fn triple_elements_post<'buf, T0: Decode<'buf>, T1: Decode<'buf>, T2: Decode<'buf>>(
    s: Seq<u8>,
    from: int,
    to: int,
    v: (T0, T1, T2),
) -> bool {
    exists|m1: int, m2: int|
        from < m1 < m2 <= to && #[trigger] T0::decode_post(s, from, m1, Ok(v.0))
            && #[trigger] T1::decode_post(s, m1, m2, Ok(v.1)) && T2::decode_post(
            s,
            m2,
            to,
            Ok(v.2),
        )
}

/// The part of decoding a framed container that the opening alone
/// decides: an empty buffer, a wrong opening tag detected by peek with
/// the cursor untouched, and a buffer that ends right after the tag.
pub open spec fn frame_entry_post<T>(
    s: Seq<u8>,
    from: int,
    to: int,
    r: Result<T, Error>,
    tag: u8,
    why: Seq<char>,
) -> bool {
    &&& from >= s.len() ==> ((r matches Err(Error::Eof)) && to == from)
    &&& (from < s.len() && s[from] != tag) ==> ((r matches Err(Error::Parse { reason, pos })
        && pos == from && reason@ == why) && to == from)
    &&& (from < s.len() && s[from] == tag && from + 1 >= s.len()) ==> ((r matches Err(Error::Eof))
        && to == from + 1)
}

impl<'buf, T: Decode<'buf>> Decode<'buf> for Vec<T> {
    /// Entry failures as the frame decides them; on success the decoded
    /// elements tile the walk from just past the opening tag to the
    /// terminator, in document order, each with its own type's meaning.
    open spec fn decode_post(s: Seq<u8>, from: int, to: int, r: Result<Self, Error>) -> bool {
        &&& frame_entry_post(s, from, to, r, LIST_TAG, "Expected List"@)
        &&& (from + 1 < s.len() && s[from] == LIST_TAG && s[from + 1] == END_TAG) ==> ((r matches Ok(v) && v@.len() == 0) && to == from
            + 2)
        &&& (r matches Ok(v) ==> list_body_post::<T>(s, from + 1, to, v@))
    }

    /// An ordered sequence, decoded from the list shape: elements are
    /// pulled in order until the end of the list.
    #[verifier::loop_isolation(false)]
    fn decode(decoder: &mut BenDecoder<'buf>) -> (r: Result<Self, Error>) {
        decoder.begin(LIST_TAG, "Expected List")?;
        let mut out: Vec<T> = Vec::new();
        loop
            invariant
                decoder.sbuf() == old(decoder).sbuf(),
                old(decoder).at() < decoder.at(),
                old(decoder).at() <= old(decoder).sbuf().len() ==> decoder.at()
                    <= decoder.sbuf().len(),
                old(decoder).at() < old(decoder).sbuf().len(),
                (old(decoder).at() + 1 < old(decoder).sbuf().len()
                    && old(decoder).sbuf()[old(decoder).at() + 1] == END_TAG) ==> (decoder.at()
                    == old(decoder).at() + 1 && out@.len() == 0),
                elements_post(
                    decoder.sbuf(),
                    old(decoder).at() + 1,
                    decoder.at(),
                    out@,
                ),
            decreases decoder.sbuf().len() - decoder.at(),
        {
            let ghost before: int = decoder.at();
            match List::next_element::<T>(decoder) {
                Ok(Some(t)) => {
                    proof {
                        lemma_elements_post_push(
                            decoder.sbuf(),
                            old(decoder).at() + 1,
                            before,
                            decoder.at(),
                            out@,
                            t,
                        );
                    }
                    out.push(t);
                },
                Ok(None) => {
                    let ghost stop: int = decoder.at();
                    return match decoder.finish() {
                        Ok(_) => {
                            proof {
                                assert(elements_post(
                                    old(decoder).sbuf(),
                                    old(decoder).at() + 1,
                                    stop,
                                    out@,
                                ));
                                assert(list_body_post::<T>(
                                    old(decoder).sbuf(),
                                    old(decoder).at() + 1,
                                    decoder.at(),
                                    out@,
                                ));
                            }
                            Ok(out)
                        },
                        Err(e) => Err(e),
                    };
                },
                Err(e) => {
                    return Err(e);
                },
            }
        }
    }
}

impl<'buf> Decode<'buf> for () {
    /// Fully pinned: only an empty list decodes; anything between the
    /// opening tag and the terminator is an unexpected character.
    open spec fn decode_post(s: Seq<u8>, from: int, to: int, r: Result<Self, Error>) -> bool {
        if from >= s.len() {
            (r matches Err(Error::Eof)) && to == from
        } else if s[from] != LIST_TAG {
            (r matches Err(Error::Parse { reason, pos }) && pos == from && reason@
                == "Expected List"@) && to == from
        } else if from + 1 >= s.len() {
            (r matches Err(Error::Eof)) && to == from + 1
        } else if s[from + 1] != END_TAG {
            (r matches Err(Error::Unexpected { pos }) && pos == from + 2) && to == from + 2
        } else {
            r is Ok && to == from + 2
        }
    }

    /// The empty tuple, decoded from an empty list.
    fn decode(decoder: &mut BenDecoder<'buf>) -> (r: Result<Self, Error>) {
        decoder.begin(LIST_TAG, "Expected List")?;
        match decoder.finish() {
            Ok(_) => Ok(()),
            Err(e) => Err(e),
        }
    }
}

impl<'buf, T0: Decode<'buf>, T1: Decode<'buf>> Decode<'buf> for (T0, T1) {
    /// Entry failures as the frame decides them; an empty list is a
    /// length mismatch with no elements found; on success the two
    /// components were decoded back to back, each with its own type's
    /// meaning, and the terminator follows them.
    open spec fn decode_post(s: Seq<u8>, from: int, to: int, r: Result<Self, Error>) -> bool {
        &&& frame_entry_post(s, from, to, r, LIST_TAG, "Expected List"@)
        &&& (from + 1 < s.len() && s[from] == LIST_TAG && s[from + 1] == END_TAG) ==> ((
        r matches Err(Error::Length { expected, actual }) && expected == 2 && actual == 0) && to
            == from + 1)
        &&& (r matches Ok(v) ==> pair_elements_post::<T0, T1>(s, from + 1, to - 1, v) && to - 1
            < s.len() && s[to - 1] == END_TAG)
    }

    /// A pair, decoded from a list of exactly two elements.  A list that
    /// ends before both are read gives a length mismatch carrying how
    /// many elements were found.
    fn decode(decoder: &mut BenDecoder<'buf>) -> (r: Result<Self, Error>)
    {
        decoder.begin(LIST_TAG, "Expected List")?;
        let x0: T0 = match List::next_element::<T0>(decoder) {
            Ok(Some(t)) => t,
            Ok(None) => {
                return Err(Error::Length { expected: 2, actual: 0 });
            },
            Err(e) => {
                return Err(e);
            },
        };
        let ghost m0: int = decoder.at();
        let x1: T1 = match List::next_element::<T1>(decoder) {
            Ok(Some(t)) => t,
            Ok(None) => {
                return Err(Error::Length { expected: 2, actual: 1 });
            },
            Err(e) => {
                return Err(e);
            },
        };
        match decoder.finish() {
            Ok(_) => {
                proof {
                    let ghost sb = old(decoder).sbuf();
                    let ghost f0 = old(decoder).at();
                    let ghost v = (x0, x1);
                    assert(f0 + 1 < m0 <= decoder.at() - 1 && T0::decode_post(
                        sb,
                        f0 + 1,
                        m0,
                        Ok(v.0),
                    ) && T1::decode_post(sb, m0, decoder.at() - 1, Ok(v.1)));
                    assert(pair_elements_post::<T0, T1>(sb, f0 + 1, decoder.at() - 1, v));
                }
                Ok((x0, x1))
            },
            Err(e) => Err(e),
        }
    }
}

impl<'buf, T0: Decode<'buf>, T1: Decode<'buf>, T2: Decode<'buf>> Decode<'buf> for (T0, T1, T2) {
    /// Entry failures as the frame decides them; an empty list is a
    /// length mismatch with no elements found; on success the three
    /// components were decoded back to back, each with its own type's
    /// meaning, and the terminator follows them.
    open spec fn decode_post(s: Seq<u8>, from: int, to: int, r: Result<Self, Error>) -> bool {
        &&& frame_entry_post(s, from, to, r, LIST_TAG, "Expected List"@)
        &&& (from + 1 < s.len() && s[from] == LIST_TAG && s[from + 1] == END_TAG) ==> ((
        r matches Err(Error::Length { expected, actual }) && expected == 3 && actual == 0) && to
            == from + 1)
        &&& (r matches Ok(v) ==> triple_elements_post::<T0, T1, T2>(s, from + 1, to - 1, v) && to
            - 1 < s.len() && s[to - 1] == END_TAG)
    }

    /// A triple, decoded from a list of exactly three elements.  A list
    /// that ends early gives a length mismatch carrying how many
    /// elements were found.
    fn decode(decoder: &mut BenDecoder<'buf>) -> (r: Result<Self, Error>)
    {
        decoder.begin(LIST_TAG, "Expected List")?;
        let x0: T0 = match List::next_element::<T0>(decoder) {
            Ok(Some(t)) => t,
            Ok(None) => {
                return Err(Error::Length { expected: 3, actual: 0 });
            },
            Err(e) => {
                return Err(e);
            },
        };
        let ghost m1: int = decoder.at();
        let x1: T1 = match List::next_element::<T1>(decoder) {
            Ok(Some(t)) => t,
            Ok(None) => {
                return Err(Error::Length { expected: 3, actual: 1 });
            },
            Err(e) => {
                return Err(e);
            },
        };
        let ghost m2: int = decoder.at();
        let x2: T2 = match List::next_element::<T2>(decoder) {
            Ok(Some(t)) => t,
            Ok(None) => {
                return Err(Error::Length { expected: 3, actual: 2 });
            },
            Err(e) => {
                return Err(e);
            },
        };
        match decoder.finish() {
            Ok(_) => {
                proof {
                    let ghost sb = old(decoder).sbuf();
                    let ghost f0 = old(decoder).at();
                    let ghost v = (x0, x1, x2);
                    assert(f0 + 1 < m1 < m2 <= decoder.at() - 1 && T0::decode_post(
                        sb,
                        f0 + 1,
                        m1,
                        Ok(v.0),
                    ) && T1::decode_post(sb, m1, m2, Ok(v.1)) && T2::decode_post(
                        sb,
                        m2,
                        decoder.at() - 1,
                        Ok(v.2),
                    ));
                    assert(triple_elements_post::<T0, T1, T2>(sb, f0 + 1, decoder.at() - 1, v));
                }
                Ok((x0, x1, x2))
            },
            Err(e) => Err(e),
        }
    }
}

impl<'buf, T: Decode<'buf>> Decode<'buf> for [T; 1] {
    /// What the frame alone decides: entry failures, and an empty list
    /// is a length mismatch with no elements found.
    open spec fn decode_post(s: Seq<u8>, from: int, to: int, r: Result<Self, Error>) -> bool {
        &&& frame_entry_post(s, from, to, r, LIST_TAG, "Expected List"@)
        &&& (from + 1 < s.len() && s[from] == LIST_TAG && s[from + 1] == END_TAG) ==> ((
        r matches Err(Error::Length { expected, actual }) && expected == 1 && actual == 0) && to
            == from + 1)
    }

    /// A one-element array, decoded from a list of exactly one element.
    /// An empty list gives a length mismatch.
    fn decode(decoder: &mut BenDecoder<'buf>) -> (r: Result<Self, Error>)
    {
        decoder.begin(LIST_TAG, "Expected List")?;
        let x0: T = match List::next_element::<T>(decoder) {
            Ok(Some(t)) => t,
            Ok(None) => {
                return Err(Error::Length { expected: 1, actual: 0 });
            },
            Err(e) => {
                return Err(e);
            },
        };
        match decoder.finish() {
            Ok(_) => Ok([x0]),
            Err(e) => Err(e),
        }
    }
}

impl<'buf, T: Decode<'buf>> Decode<'buf> for [T; 2] {
    /// What the frame alone decides: entry failures, and an empty list
    /// is a length mismatch with no elements found.
    open spec fn decode_post(s: Seq<u8>, from: int, to: int, r: Result<Self, Error>) -> bool {
        &&& frame_entry_post(s, from, to, r, LIST_TAG, "Expected List"@)
        &&& (from + 1 < s.len() && s[from] == LIST_TAG && s[from + 1] == END_TAG) ==> ((
        r matches Err(Error::Length { expected, actual }) && expected == 2 && actual == 0) && to
            == from + 1)
    }

    /// A two-element array, decoded from a list of exactly two elements.
    /// A list that ends early gives a length mismatch carrying how many
    /// elements were found.
    fn decode(decoder: &mut BenDecoder<'buf>) -> (r: Result<Self, Error>)
    {
        decoder.begin(LIST_TAG, "Expected List")?;
        let x0: T = match List::next_element::<T>(decoder) {
            Ok(Some(t)) => t,
            Ok(None) => {
                return Err(Error::Length { expected: 2, actual: 0 });
            },
            Err(e) => {
                return Err(e);
            },
        };
        let x1: T = match List::next_element::<T>(decoder) {
            Ok(Some(t)) => t,
            Ok(None) => {
                return Err(Error::Length { expected: 2, actual: 1 });
            },
            Err(e) => {
                return Err(e);
            },
        };
        match decoder.finish() {
            Ok(_) => Ok([x0, x1]),
            Err(e) => Err(e),
        }
    }
}

impl<'buf, T: Decode<'buf>> Decode<'buf> for [T; 3] {
    /// What the frame alone decides: entry failures, and an empty list
    /// is a length mismatch with no elements found.
    open spec fn decode_post(s: Seq<u8>, from: int, to: int, r: Result<Self, Error>) -> bool {
        &&& frame_entry_post(s, from, to, r, LIST_TAG, "Expected List"@)
        &&& (from + 1 < s.len() && s[from] == LIST_TAG && s[from + 1] == END_TAG) ==> ((
        r matches Err(Error::Length { expected, actual }) && expected == 3 && actual == 0) && to
            == from + 1)
    }

    /// A three-element array, decoded from a list of exactly three
    /// elements.  A list that ends early gives a length mismatch carrying
    /// how many elements were found.
    fn decode(decoder: &mut BenDecoder<'buf>) -> (r: Result<Self, Error>)
    {
        decoder.begin(LIST_TAG, "Expected List")?;
        let x0: T = match List::next_element::<T>(decoder) {
            Ok(Some(t)) => t,
            Ok(None) => {
                return Err(Error::Length { expected: 3, actual: 0 });
            },
            Err(e) => {
                return Err(e);
            },
        };
        let x1: T = match List::next_element::<T>(decoder) {
            Ok(Some(t)) => t,
            Ok(None) => {
                return Err(Error::Length { expected: 3, actual: 1 });
            },
            Err(e) => {
                return Err(e);
            },
        };
        let x2: T = match List::next_element::<T>(decoder) {
            Ok(Some(t)) => t,
            Ok(None) => {
                return Err(Error::Length { expected: 3, actual: 2 });
            },
            Err(e) => {
                return Err(e);
            },
        };
        match decoder.finish() {
            Ok(_) => Ok([x0, x1, x2]),
            Err(e) => Err(e),
        }
    }
}

impl<'buf, T: Decode<'buf>> Decode<'buf> for VecDeque<T> {
    /// Entry failures as the frame decides them; on success the decoded
    /// elements tile the walk from just past the opening tag to the
    /// terminator, in document order, each with its own type's meaning.
    open spec fn decode_post(s: Seq<u8>, from: int, to: int, r: Result<Self, Error>) -> bool {
        &&& frame_entry_post(s, from, to, r, LIST_TAG, "Expected List"@)
        &&& (from + 1 < s.len() && s[from] == LIST_TAG && s[from + 1] == END_TAG) ==> ((r matches Ok(v) && v@.len() == 0) && to == from
            + 2)
        &&& (r matches Ok(v) ==> list_body_post::<T>(s, from + 1, to, v@))
    }

    /// An ordered two-ended sequence, decoded from the list shape.
    #[verifier::loop_isolation(false)]
    fn decode(decoder: &mut BenDecoder<'buf>) -> (r: Result<Self, Error>) {
        decoder.begin(LIST_TAG, "Expected List")?;
        let mut out: VecDeque<T> = VecDeque::new();
        loop
            invariant
                decoder.sbuf() == old(decoder).sbuf(),
                old(decoder).at() < decoder.at(),
                old(decoder).at() <= old(decoder).sbuf().len() ==> decoder.at()
                    <= decoder.sbuf().len(),
                old(decoder).at() < old(decoder).sbuf().len(),
                (old(decoder).at() + 1 < old(decoder).sbuf().len()
                    && old(decoder).sbuf()[old(decoder).at() + 1] == END_TAG) ==> (decoder.at()
                    == old(decoder).at() + 1 && out@.len() == 0),
                elements_post(
                    decoder.sbuf(),
                    old(decoder).at() + 1,
                    decoder.at(),
                    out@,
                ),
            decreases decoder.sbuf().len() - decoder.at(),
        {
            let ghost before: int = decoder.at();
            match List::next_element::<T>(decoder) {
                Ok(Some(t)) => {
                    proof {
                        lemma_elements_post_push(
                            decoder.sbuf(),
                            old(decoder).at() + 1,
                            before,
                            decoder.at(),
                            out@,
                            t,
                        );
                    }
                    out.push_back(t);
                },
                Ok(None) => {
                    let ghost stop: int = decoder.at();
                    return match decoder.finish() {
                        Ok(_) => {
                            proof {
                                assert(elements_post(
                                    old(decoder).sbuf(),
                                    old(decoder).at() + 1,
                                    stop,
                                    out@,
                                ));
                                assert(list_body_post::<T>(
                                    old(decoder).sbuf(),
                                    old(decoder).at() + 1,
                                    decoder.at(),
                                    out@,
                                ));
                            }
                            Ok(out)
                        },
                        Err(e) => Err(e),
                    };
                },
                Err(e) => {
                    return Err(e);
                },
            }
        }
    }
}

impl<'buf, T: Decode<'buf> + Hash + Eq> Decode<'buf> for HashSet<T> {
    /// What the frame alone decides: entry failures, and an empty list
    /// succeeds.
    open spec fn decode_post(s: Seq<u8>, from: int, to: int, r: Result<Self, Error>) -> bool {
        &&& frame_entry_post(s, from, to, r, LIST_TAG, "Expected List"@)
        &&& (from + 1 < s.len() && s[from] == LIST_TAG && s[from + 1] == END_TAG) ==> (r is Ok && to == from
            + 2)
    }

    /// An unordered set, decoded from the list shape; a repeated element
    /// is kept once.
    #[verifier::loop_isolation(false)]
    fn decode(decoder: &mut BenDecoder<'buf>) -> (r: Result<Self, Error>) {
        decoder.begin(LIST_TAG, "Expected List")?;
        let mut out: HashSet<T> = HashSet::new();
        loop
            invariant
                decoder.sbuf() == old(decoder).sbuf(),
                old(decoder).at() < decoder.at(),
                old(decoder).at() <= old(decoder).sbuf().len() ==> decoder.at()
                    <= decoder.sbuf().len(),
                old(decoder).at() < old(decoder).sbuf().len(),
                (old(decoder).at() + 1 < old(decoder).sbuf().len()
                    && old(decoder).sbuf()[old(decoder).at() + 1] == END_TAG) ==> decoder.at()
                    == old(decoder).at() + 1,
            decreases decoder.sbuf().len() - decoder.at(),
        {
            match List::next_element::<T>(decoder) {
                Ok(Some(t)) => {
                    let _ = out.insert(t);
                },
                Ok(None) => {
                    return match decoder.finish() {
                        Ok(_) => Ok(out),
                        Err(e) => Err(e),
                    };
                },
                Err(e) => {
                    return Err(e);
                },
            }
        }
    }
}

impl<'buf, T: Decode<'buf> + Ord> Decode<'buf> for BTreeSet<T> {
    /// What the frame alone decides: entry failures, and an empty list
    /// succeeds.
    open spec fn decode_post(s: Seq<u8>, from: int, to: int, r: Result<Self, Error>) -> bool {
        &&& frame_entry_post(s, from, to, r, LIST_TAG, "Expected List"@)
        &&& (from + 1 < s.len() && s[from] == LIST_TAG && s[from + 1] == END_TAG) ==> (r is Ok && to == from
            + 2)
    }

    /// A key-ordered set, decoded from the list shape; a repeated element
    /// is kept once.
    #[verifier::loop_isolation(false)]
    fn decode(decoder: &mut BenDecoder<'buf>) -> (r: Result<Self, Error>) {
        decoder.begin(LIST_TAG, "Expected List")?;
        let mut out: BTreeSet<T> = BTreeSet::new();
        loop
            invariant
                decoder.sbuf() == old(decoder).sbuf(),
                old(decoder).at() < decoder.at(),
                old(decoder).at() <= old(decoder).sbuf().len() ==> decoder.at()
                    <= decoder.sbuf().len(),
                old(decoder).at() < old(decoder).sbuf().len(),
                (old(decoder).at() + 1 < old(decoder).sbuf().len()
                    && old(decoder).sbuf()[old(decoder).at() + 1] == END_TAG) ==> decoder.at()
                    == old(decoder).at() + 1,
            decreases decoder.sbuf().len() - decoder.at(),
        {
            match List::next_element::<T>(decoder) {
                Ok(Some(t)) => {
                    let _ = out.insert(t);
                },
                Ok(None) => {
                    return match decoder.finish() {
                        Ok(_) => Ok(out),
                        Err(e) => Err(e),
                    };
                },
                Err(e) => {
                    return Err(e);
                },
            }
        }
    }
}

impl<'buf, T: Decode<'buf>> Decode<'buf> for HashMap<&'buf [u8], T> {
    /// What the frame alone decides: entry failures, and an empty
    /// dictionary succeeds.
    open spec fn decode_post(s: Seq<u8>, from: int, to: int, r: Result<Self, Error>) -> bool {
        &&& frame_entry_post(s, from, to, r, DICT_TAG, "Expected Dict"@)
        &&& (from + 1 < s.len() && s[from] == DICT_TAG && s[from + 1] == END_TAG) ==> (r is Ok && to == from
            + 2)
    }

    /// An unordered byte-string-keyed map, decoded from the dictionary
    /// shape; on a repeated key the last entry wins.
    #[verifier::loop_isolation(false)]
    fn decode(decoder: &mut BenDecoder<'buf>) -> (r: Result<Self, Error>) {
        decoder.begin(DICT_TAG, "Expected Dict")?;
        let mut out: HashMap<&'buf [u8], T> = HashMap::new();
        loop
            invariant
                decoder.sbuf() == old(decoder).sbuf(),
                old(decoder).at() < decoder.at(),
                old(decoder).at() <= old(decoder).sbuf().len() ==> decoder.at()
                    <= decoder.sbuf().len(),
                old(decoder).at() < old(decoder).sbuf().len(),
                (old(decoder).at() + 1 < old(decoder).sbuf().len()
                    && old(decoder).sbuf()[old(decoder).at() + 1] == END_TAG) ==> decoder.at()
                    == old(decoder).at() + 1,
            decreases decoder.sbuf().len() - decoder.at(),
        {
            match Dict::next_entry::<T>(decoder) {
                Ok(Some((k, v))) => {
                    let _ = out.insert(k, v);
                },
                Ok(None) => {
                    return match decoder.finish() {
                        Ok(_) => Ok(out),
                        Err(e) => Err(e),
                    };
                },
                Err(e) => {
                    return Err(e);
                },
            }
        }
    }
}

impl<'buf, T: Decode<'buf>> Decode<'buf> for BTreeMap<&'buf [u8], T> {
    /// What the frame alone decides: entry failures, and an empty
    /// dictionary succeeds.
    open spec fn decode_post(s: Seq<u8>, from: int, to: int, r: Result<Self, Error>) -> bool {
        &&& frame_entry_post(s, from, to, r, DICT_TAG, "Expected Dict"@)
        &&& (from + 1 < s.len() && s[from] == DICT_TAG && s[from + 1] == END_TAG) ==> (r is Ok && to == from
            + 2)
    }

    /// A key-ordered byte-string-keyed map, decoded from the dictionary
    /// shape; on a repeated key the last entry wins.
    #[verifier::loop_isolation(false)]
    fn decode(decoder: &mut BenDecoder<'buf>) -> (r: Result<Self, Error>) {
        decoder.begin(DICT_TAG, "Expected Dict")?;
        let mut out: BTreeMap<&'buf [u8], T> = BTreeMap::new();
        loop
            invariant
                decoder.sbuf() == old(decoder).sbuf(),
                old(decoder).at() < decoder.at(),
                old(decoder).at() <= old(decoder).sbuf().len() ==> decoder.at()
                    <= decoder.sbuf().len(),
                old(decoder).at() < old(decoder).sbuf().len(),
                (old(decoder).at() + 1 < old(decoder).sbuf().len()
                    && old(decoder).sbuf()[old(decoder).at() + 1] == END_TAG) ==> decoder.at()
                    == old(decoder).at() + 1,
            decreases decoder.sbuf().len() - decoder.at(),
        {
            match Dict::next_entry::<T>(decoder) {
                Ok(Some((k, v))) => {
                    let _ = out.insert(k, v);
                },
                Ok(None) => {
                    return match decoder.finish() {
                        Ok(_) => Ok(out),
                        Err(e) => Err(e),
                    };
                },
                Err(e) => {
                    return Err(e);
                },
            }
        }
    }
}

} // verus!
