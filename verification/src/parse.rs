//! The grammar-walking engine: a cursor over the input buffer and the
//! byte-level primitives the decoder is built from.
use vstd::prelude::*;

use crate::de::{Decode, Decoder, Dict, List, Visitor};
use crate::err::Error;

verus! {

/// ASCII `0`, the least digit byte.
pub const DIGIT_LO: u8 = 48;

/// ASCII `9`, the greatest digit byte.
pub const DIGIT_HI: u8 = 57;

/// ASCII `-`, the sign byte of a negative integer.
pub const MINUS: u8 = 45;

/// ASCII `i`, opening an integer.
pub const INT_TAG: u8 = 105;

/// ASCII `l`, opening a list.
pub const LIST_TAG: u8 = 108;

/// ASCII `d`, opening a dictionary.
pub const DICT_TAG: u8 = 100;

/// ASCII `e`, closing an integer, list, or dictionary.
pub const END_TAG: u8 = 101;

/// ASCII `:`, separating a byte string's length from its payload.
pub const COLON: u8 = 58;

/// An ASCII decimal digit.
pub open spec fn is_digit(c: u8) -> bool {
    DIGIT_LO <= c && c <= DIGIT_HI
}

/// The numeric value of a single ASCII digit.
pub open spec fn digit_val(c: u8) -> nat
    recommends
        is_digit(c),
{
    (c - DIGIT_LO) as nat
}

/// The number denoted by a run of ASCII digits, most significant first.
pub open spec fn digits_value(s: Seq<u8>) -> nat
    decreases s.len(),
{
    if s.len() == 0 {
        0
    } else {
        digits_value(s.drop_last()) * 10 + digit_val(s.last())
    }
}

/// The first position at or after `i` holding a non-digit byte, or the end
/// of the buffer when digits run all the way out.
pub open spec fn digit_run_end(s: Seq<u8>, i: int) -> int
    decreases s.len() - i,
{
    if 0 <= i < s.len() && is_digit(s[i]) {
        digit_run_end(s, i + 1)
    } else {
        i
    }
}

/// The offset just past the digit at which a left-to-right accumulation of
/// a digit run, starting from the value `acc`, first exceeds `bound`.
/// Meaningful only while the accumulation does exceed `bound` somewhere in
/// the run; the run's own end comes back otherwise.
pub open spec fn overflow_end(s: Seq<u8>, i: int, acc: nat, bound: nat) -> int
    decreases s.len() - i,
{
    if 0 <= i < s.len() && is_digit(s[i]) {
        let acc2 = acc * 10 + digit_val(s[i]);
        if acc2 > bound {
            i + 1
        } else {
            overflow_end(s, i + 1, acc2, bound)
        }
    } else {
        i
    }
}

/// The outcome of reading a digit run and its stop byte at offset `p`:
/// the value found and the offset just past the stop byte, or the offset
/// at which reading failed, which is also where the failure is reported.
pub enum Scan {
    /// A non-empty digit run denoting `v`, then the stop byte; `end` is
    /// just past the stop byte.
    Found { v: nat, end: int },
    /// The buffer ran out at `end`, before the stop byte was seen.
    Short { end: int },
    /// A byte that is neither a digit nor the stop byte; reading stops at
    /// `end`.
    Stray { end: int },
    /// The run's value exceeds the bound; `end` is just past the first
    /// digit that pushed it over.
    TooBig { end: int },
}

/// What reading a digit run bounded by `bound`, up to the byte `stop`,
/// yields at offset `p` of `s`.  The run must open with a digit; the
/// accumulated value is checked against `bound` digit by digit, so an
/// oversized run fails at the first digit that exceeds the bound, before
/// anything after the run is looked at.
pub open spec fn scan_uint(s: Seq<u8>, p: int, stop: u8, bound: nat) -> Scan {
    let e = digit_run_end(s, p);
    let run = s.subrange(p, e);
    if p >= s.len() {
        Scan::Short { end: p }
    } else if !is_digit(s[p]) {
        Scan::Stray { end: p }
    } else if digits_value(run) > bound {
        Scan::TooBig { end: overflow_end(s, p, 0, bound) }
    } else if e >= s.len() {
        Scan::Short { end: e }
    } else if s[e] == stop {
        Scan::Found { v: digits_value(run), end: e + 1 }
    } else {
        Scan::Stray { end: e + 1 }
    }
}

/// The digit run starting at `i` consists of digits and ends at the first
/// non-digit position, within bounds.
pub proof fn lemma_digit_run_end_props(s: Seq<u8>, i: int)
    requires
        0 <= i <= s.len(),
    ensures
        i <= digit_run_end(s, i) <= s.len(),
        forall|j: int| i <= j < digit_run_end(s, i) ==> is_digit(s[j]),
        digit_run_end(s, i) < s.len() ==> !is_digit(s[digit_run_end(s, i)]),
    decreases s.len() - i,
{
    if i < s.len() && is_digit(s[i]) {
        lemma_digit_run_end_props(s, i + 1);
    }
}

/// Extending a digit run by one digit multiplies its value by ten and adds
/// the digit.
pub proof fn lemma_digits_value_extend(s: Seq<u8>, p: int, i: int)
    requires
        0 <= p <= i < s.len(),
    ensures
        digits_value(s.subrange(p, i + 1)) == digits_value(s.subrange(p, i)) * 10 + digit_val(
            s[i],
        ),
{
    let a = s.subrange(p, i + 1);
    assert(a.drop_last() =~= s.subrange(p, i));
    assert(a.last() == s[i]);
}

/// The first overflowing position of an accumulation lies within the
/// digit run it walks.
pub proof fn lemma_overflow_end_props(s: Seq<u8>, i: int, acc: nat, bound: nat)
    requires
        0 <= i <= s.len(),
    ensures
        i <= overflow_end(s, i, acc, bound) <= digit_run_end(s, i),
    decreases s.len() - i,
{
    if i < s.len() && is_digit(s[i]) {
        let acc2 = acc * 10 + digit_val(s[i]);
        if acc2 <= bound {
            lemma_overflow_end_props(s, i + 1, acc2, bound);
        } else {
            lemma_digit_run_end_props(s, i + 1);
        }
    }
}

/// A prefix of a digit run never denotes more than the whole run.
pub proof fn lemma_digits_value_prefix_le(s: Seq<u8>, p: int, a: int, b: int)
    requires
        0 <= p <= a <= b <= s.len(),
    ensures
        digits_value(s.subrange(p, a)) <= digits_value(s.subrange(p, b)),
    decreases b - a,
{
    if a < b {
        lemma_digits_value_extend(s, p, b - 1);
        lemma_digits_value_prefix_le(s, p, a, b - 1);
    }
}

/// The digit run that fills `[d, e)` exactly, with a non-digit at `e`,
/// ends at `e`.
pub proof fn lemma_digit_run_end_exact(s: Seq<u8>, d: int, e: int)
    requires
        0 <= d <= e < s.len(),
        forall|j: int| d <= j < e ==> is_digit(s[j]),
        !is_digit(s[e]),
    ensures
        digit_run_end(s, d) == e,
    decreases e - d,
{
    if d < e {
        lemma_digit_run_end_exact(s, d + 1, e);
    }
}

/// `s[p..q)` is an integer encoded as the opening tag, an optional minus
/// sign, a non-empty digit run denoting the magnitude, and the
/// terminator, with `v` the signed value it denotes.  Non-canonical
/// spellings (leading zeroes, a minus sign before zero) count as
/// encodings of the same value.
pub open spec fn int_encoded(s: Seq<u8>, p: int, q: int, v: int) -> bool {
    let neg = s[p + 1] == MINUS;
    let d = if neg {
        p + 2
    } else {
        p + 1
    };
    &&& 0 <= p
    &&& p + 2 < q <= s.len()
    &&& s[p] == INT_TAG
    &&& s[q - 1] == END_TAG
    &&& d < q - 1
    &&& forall|j: int| d <= j < q - 1 ==> is_digit(s[j])
    &&& v == (if neg {
        -(digits_value(s.subrange(d, q - 1)) as int)
    } else {
        digits_value(s.subrange(d, q - 1)) as int
    })
}

/// `s[p..q)` is a byte string encoded as a non-empty decimal length, the
/// separator, and exactly the payload `b`.
pub open spec fn bytes_encoded(s: Seq<u8>, p: int, q: int, b: Seq<u8>) -> bool {
    let m = q - b.len() - 1;
    &&& 0 <= p < m < q <= s.len()
    &&& forall|j: int| p <= j < m ==> is_digit(s[j])
    &&& s[m] == COLON
    &&& digits_value(s.subrange(p, m)) == b.len()
    &&& b == s.subrange(m + 1, q)
}

/// An encoded integer decodes to exactly its value: at the digit run of
/// an encoding whose magnitude is within the 64-bit signed range, the
/// scan finds that magnitude and stops just past the terminator.
/// Together with the contract of the decoder's integer operation this
/// pins the decoded value to `v` and the cursor to `q`.
pub proof fn lemma_int_encoding_decodes(s: Seq<u8>, p: int, q: int, v: int)
    requires
        int_encoded(s, p, q, v),
        -(i64::MAX as int) <= v <= i64::MAX as int,
    ensures
        ({
            let neg = s[p + 1] == MINUS;
            let d = if neg {
                p + 2
            } else {
                p + 1
            };
            scan_uint(s, d, END_TAG, i64::MAX as nat) == (Scan::Found {
                v: (if neg {
                    -v
                } else {
                    v
                }) as nat,
                end: q,
            })
        }),
{
    let neg = s[p + 1] == MINUS;
    let d = if neg {
        p + 2
    } else {
        p + 1
    };
    lemma_digit_run_end_exact(s, d, q - 1);
}

/// An encoded byte string decodes to exactly its payload: the scan finds
/// the payload's length and stops just past the separator, and the
/// payload is the sub-range from there to `q`.  Together with the
/// contract of the decoder's byte-string operation this pins the decoded
/// bytes to `b` and the cursor to `q`.
pub proof fn lemma_bytes_encoding_decodes(s: Seq<u8>, p: int, q: int, b: Seq<u8>)
    requires
        bytes_encoded(s, p, q, b),
        s.len() <= usize::MAX,
    ensures
        scan_uint(s, p, COLON, usize::MAX as nat) == (Scan::Found { v: b.len(), end: q - b.len() }),
        s.subrange(q - b.len(), q) == b,
{
    let m = q - b.len() - 1;
    lemma_digit_run_end_exact(s, p, m);
    lemma_digits_value_prefix_le(s, p, p, m);
}

/// An integer encoding whose magnitude exceeds the 64-bit signed bound
/// fails with overflow, reported at the offset of the digit at which the
/// accumulated magnitude first exceeds the bound (`end - 1`, the scan
/// stopping just past it) — strictly inside the digit run, before
/// anything after the run is looked at.
pub proof fn lemma_int_overflow(s: Seq<u8>, p: int, q: int, v: int)
    requires
        int_encoded(s, p, q, v),
        v > i64::MAX as int || v < -(i64::MAX as int),
    ensures
        ({
            let neg = s[p + 1] == MINUS;
            let d = if neg {
                p + 2
            } else {
                p + 1
            };
            scan_uint(s, d, END_TAG, i64::MAX as nat) matches Scan::TooBig { end } && d < end <= q
                - 1
        }),
{
    let neg = s[p + 1] == MINUS;
    let d = if neg {
        p + 2
    } else {
        p + 1
    };
    let bound = i64::MAX as nat;
    lemma_digit_run_end_exact(s, d, q - 1);
    lemma_overflow_end_props(s, d, 0, bound);
    let acc2 = digit_val(s[d]);
    if acc2 <= bound {
        lemma_overflow_end_props(s, d + 1, acc2, bound);
    }
}

/// Cutting the buffer anywhere inside an integer encoding leaves the
/// decoder short of input: on the truncated buffer either the tag or the
/// first digit is already missing, or the scan of the digit run runs off
/// the end.  In every case the decoder's integer operation reports
/// end-of-input, never a wrong value.
pub proof fn lemma_int_truncation_eof(s: Seq<u8>, p: int, q: int, v: int, k: int)
    requires
        int_encoded(s, p, q, v),
        -(i64::MAX as int) <= v <= i64::MAX as int,
        p <= k < q,
    ensures
        ({
            let t = s.subrange(0, k);
            let neg = p + 1 < k && s[p + 1] == MINUS;
            let d = if neg {
                p + 2
            } else {
                p + 1
            };
            d >= k || (scan_uint(t, d, END_TAG, i64::MAX as nat) matches Scan::Short { end: _ })
        }),
{
    let t = s.subrange(0, k);
    let neg = p + 1 < k && s[p + 1] == MINUS;
    let d = if neg {
        p + 2
    } else {
        p + 1
    };
    if d < k {
        let full_neg = s[p + 1] == MINUS;
        let full_d = if full_neg {
            p + 2
        } else {
            p + 1
        };
        assert(d == full_d);
        assert(forall|j: int| d <= j < k ==> is_digit(t[j]));
        lemma_digit_run_end_props(t, d);
        let e = digit_run_end(t, d);
        assert(e == k) by {
            if e < k {
                lemma_digit_run_end_props(t, d);
            }
            lemma_digit_run_end_at_least(t, d, k);
        }
        assert(t.subrange(d, k) =~= s.subrange(d, k));
        lemma_digits_value_prefix_le(s, d, k, q - 1);
    }
}

/// A digit run reaching to `e` keeps the run end at or past `e`.
pub proof fn lemma_digit_run_end_at_least(s: Seq<u8>, d: int, e: int)
    requires
        0 <= d <= e <= s.len(),
        forall|j: int| d <= j < e ==> is_digit(s[j]),
    ensures
        digit_run_end(s, d) >= e,
    decreases e - d,
{
    if d < e {
        assert(is_digit(s[d]));
        lemma_digit_run_end_at_least(s, d + 1, e);
    } else {
        lemma_digit_run_end_props(s, d);
    }
}

/// Cutting the buffer anywhere inside a byte-string encoding leaves the
/// decoder short of input: on the truncated buffer the scan of the
/// length either runs off the end, or it finds the length and the
/// payload no longer fits.  In every case the decoder's byte-string
/// operation reports end-of-input, never a shorter payload.
pub proof fn lemma_bytes_truncation_eof(s: Seq<u8>, p: int, q: int, b: Seq<u8>, k: int)
    requires
        bytes_encoded(s, p, q, b),
        s.len() <= usize::MAX,
        p <= k < q,
    ensures
        ({
            let t = s.subrange(0, k);
            (scan_uint(t, p, COLON, usize::MAX as nat) matches Scan::Short { end: _ }) || (scan_uint(
                t,
                p,
                COLON,
                usize::MAX as nat,
            ) matches Scan::Found { v, end } && end + v > k)
        }),
{
    let t = s.subrange(0, k);
    let m = q - b.len() - 1;
    if k <= m {
        assert(forall|j: int| p <= j < k ==> is_digit(t[j]));
        lemma_digit_run_end_at_least(t, p, k);
        lemma_digit_run_end_props(t, p);
        assert(digit_run_end(t, p) == k);
        assert(t.subrange(p, k) =~= s.subrange(p, k));
        lemma_digits_value_prefix_le(s, p, k, m);
    } else {
        assert(forall|j: int| p <= j < m ==> is_digit(t[j]));
        lemma_digit_run_end_exact(t, p, m);
        assert(t.subrange(p, m) =~= s.subrange(p, m));
    }
}

/// The engine that implements the decoder contract by walking the byte
/// grammar.  It borrows the caller's buffer and owns a single read offset;
/// the offset never moves backwards, and decoded byte strings are
/// sub-ranges of the borrowed buffer.
pub struct BenDecoder<'buf> {
    buf: &'buf [u8],
    pos: usize,
}

impl<'buf> BenDecoder<'buf> {
    /// The input buffer, as a sequence of bytes.
    pub closed spec fn sbuf(self) -> Seq<u8> {
        self.buf@
    }

    /// The current read offset.
    pub closed spec fn at(self) -> int {
        self.pos as int
    }

    /// A fresh engine over `buf`, positioned at its first byte.
    pub fn new(buf: &'buf [u8]) -> (r: Self)
        ensures
            r.sbuf() == buf@,
            r.at() == 0,
    {
        Self { buf, pos: 0 }
    }

    /// The byte under the cursor, without consuming it.
    fn peek_char(&mut self) -> (r: Result<u8, Error>)
        ensures
            *final(self) == *old(self),
            r is Ok <==> old(self).at() < old(self).sbuf().len(),
            r matches Ok(c) ==> c == old(self).sbuf()[old(self).at()],
            r is Err ==> (r matches Err(Error::Eof)),
    {
        match self.buf.get(self.pos) {
            Some(c) => Ok(*c),
            None => Err(Error::Eof),
        }
    }

    /// The byte under the cursor, consuming it.
    fn next_char(&mut self) -> (r: Result<u8, Error>)
        ensures
            final(self).sbuf() == old(self).sbuf(),
            r matches Ok(c) ==> old(self).at() < old(self).sbuf().len()
                && c == old(self).sbuf()[old(self).at()]
                && final(self).at() == old(self).at() + 1,
            r is Ok <==> old(self).at() < old(self).sbuf().len(),
            r is Err ==> (r matches Err(Error::Eof)) && *final(self) == *old(self),
    {
        let c = self.peek_char()?;
        proof {
            vstd::slice::axiom_spec_len(self.buf);
        }
        self.pos += 1;
        Ok(c)
    }

    /// Check and consume the opening tag of a framed shape.  A wrong tag
    /// is detected by peeking, reported as a parse failure carrying the
    /// caller's reason, and leaves the cursor untouched.
    pub(crate) fn begin(&mut self, tag: u8, why: &'static str) -> (r: Result<(), Error>)
        ensures
            final(self).sbuf() == old(self).sbuf(),
            ({
                let s = old(self).sbuf();
                let q = old(self).at();
                if q >= s.len() {
                    (r matches Err(Error::Eof)) && *final(self) == *old(self)
                } else if s[q] != tag {
                    (r matches Err(Error::Parse { reason, pos }) && pos == q && reason@ == why@)
                        && *final(self) == *old(self)
                } else {
                    r is Ok && final(self).at() == q + 1
                }
            }),
    {
        let c = self.peek_char()?;
        if c != tag {
            return Err(Error::Parse { reason: why, pos: self.pos });
        }
        proof {
            vstd::slice::axiom_spec_len(self.buf);
        }
        self.pos += 1;
        Ok(())
    }

    /// Consume the terminator that closes a framed shape; any other byte
    /// is an unexpected character, reported just past where it was read.
    pub(crate) fn finish(&mut self) -> (r: Result<(), Error>)
        ensures
            final(self).sbuf() == old(self).sbuf(),
            ({
                let s = old(self).sbuf();
                let q = old(self).at();
                if q >= s.len() {
                    (r matches Err(Error::Eof)) && *final(self) == *old(self)
                } else if s[q] != END_TAG {
                    (r matches Err(Error::Unexpected { pos }) && pos == q + 1)
                        && final(self).at() == q + 1
                } else {
                    r is Ok && final(self).at() == q + 1
                }
            }),
    {
        match self.next_char() {
            Ok(c) => if c == END_TAG {
                Ok(())
            } else {
                Err(Error::Unexpected { pos: self.pos })
            },
            Err(e) => Err(e),
        }
    }

    /// Read a non-negative decimal run up to `stop` into a `usize`, with
    /// each digit checked against overflow as it arrives.
    #[verifier::loop_isolation(false)]
    fn parse_usize(&mut self, stop: u8) -> (r: Result<usize, Error>)
        ensures
            final(self).sbuf() == old(self).sbuf(),
            ({
                let s = old(self).sbuf();
                let p = old(self).at();
                match scan_uint(s, p, stop, usize::MAX as nat) {
                    Scan::Found { v, end } => (r matches Ok(x) && x == v) && final(self).at()
                        == end,
                    Scan::Short { end } => (r matches Err(Error::Eof)) && final(self).at() == end,
                    Scan::Stray { end } => (r matches Err(Error::Unexpected { pos }) && pos == end)
                        && final(self).at() == end,
                    Scan::TooBig { end } => (r matches Err(Error::Overflow { pos }) && pos == end
                        - 1) && final(self).at() == end,
                }
            }),
    {
        let ghost s = self.buf@;
        let ghost p = self.pos as int;
        let ghost e = digit_run_end(s, p);
        let ghost bound = usize::MAX as nat;
        proof {
            vstd::slice::axiom_spec_len(self.buf);
            if p <= s.len() {
                lemma_digit_run_end_props(s, p);
            }
        }

        let c0 = self.peek_char()?;
        if !(DIGIT_LO <= c0 && c0 <= DIGIT_HI) {
            return Err(Error::Unexpected { pos: self.pos });
        }

        let mut val: usize = 0;
        loop
            invariant
                self.sbuf() == s,
                0 <= p <= self.at() <= e,
                e == digit_run_end(s, p),
                e <= s.len(),
                p < s.len() && is_digit(s[p]),
                val == digits_value(s.subrange(p, self.at())),
                overflow_end(s, p, 0, bound) == overflow_end(s, self.at(), val as nat, bound),
                bound == usize::MAX as nat,
                forall|j: int| p <= j < e ==> is_digit(s[j]),
                e < s.len() ==> !is_digit(s[e]),
            decreases s.len() - self.at(),
        {
            let ghost i = self.at();
            match self.next_char() {
                Err(_) => {
                    proof {
                        lemma_digits_value_prefix_le(s, p, i, e);
                    }
                    return Err(Error::Eof);
                },
                Ok(c) => {
                    if DIGIT_LO <= c && c <= DIGIT_HI {
                        proof {
                            if i == e {
                                assert(false);
                            }
                            lemma_digits_value_extend(s, p, i);
                        }
                        let d = (c - DIGIT_LO) as usize;
                        let grown = match val.checked_mul(10) {
                            Some(m) => m.checked_add(d),
                            None => None,
                        };
                        match grown {
                            Some(n) => {
                                val = n;
                            },
                            None => {
                                proof {
                                    lemma_digits_value_prefix_le(s, p, i + 1, e);
                                }
                                return Err(Error::Overflow { pos: self.pos - 1 });
                            },
                        }
                    } else if c == stop {
                        proof {
                            lemma_digits_value_prefix_le(s, p, i, e);
                        }
                        return Ok(val);
                    } else {
                        proof {
                            lemma_digits_value_prefix_le(s, p, i, e);
                        }
                        return Err(Error::Unexpected { pos: self.pos });
                    }
                },
            }
        }
    }

    /// Read a decimal run up to `stop` into an `i64`, honouring a leading
    /// minus sign.  The magnitude is accumulated with per-digit overflow
    /// checks against `i64::MAX`, whatever the sign.
    #[verifier::loop_isolation(false)]
    fn parse_i64(&mut self, stop: u8) -> (r: Result<i64, Error>)
        ensures
            final(self).sbuf() == old(self).sbuf(),
            ({
                let s = old(self).sbuf();
                let q = old(self).at();
                let neg = q < s.len() && s[q] == MINUS;
                let p = if neg {
                    q + 1
                } else {
                    q
                };
                match scan_uint(s, p, stop, i64::MAX as nat) {
                    Scan::Found { v, end } => (r matches Ok(x) && x == (if neg {
                        -(v as int)
                    } else {
                        v as int
                    })) && final(self).at() == end,
                    Scan::Short { end } => (r matches Err(Error::Eof)) && final(self).at() == end,
                    Scan::Stray { end } => (r matches Err(Error::Unexpected { pos }) && pos == end)
                        && final(self).at() == end,
                    Scan::TooBig { end } => (r matches Err(Error::Overflow { pos }) && pos == end
                        - 1) && final(self).at() == end,
                }
            }),
    {
        let ghost s = self.buf@;
        let c0 = self.peek_char()?;
        let mut negative = false;
        if c0 == MINUS {
            proof {
                vstd::slice::axiom_spec_len(self.buf);
            }
            self.pos += 1;
            negative = true;
        }

        let ghost p = self.pos as int;
        let ghost e = digit_run_end(s, p);
        let ghost bound = i64::MAX as nat;
        proof {
            lemma_digit_run_end_props(s, p);
        }

        let c1 = self.peek_char()?;
        if !(DIGIT_LO <= c1 && c1 <= DIGIT_HI) {
            return Err(Error::Unexpected { pos: self.pos });
        }

        let mut val: i64 = 0;
        loop
            invariant
                self.sbuf() == s,
                0 <= p <= self.at() <= e,
                e == digit_run_end(s, p),
                e <= s.len(),
                p < s.len() && is_digit(s[p]),
                0 <= val,
                val == digits_value(s.subrange(p, self.at())),
                overflow_end(s, p, 0, bound) == overflow_end(s, self.at(), val as nat, bound),
                bound == i64::MAX as nat,
                forall|j: int| p <= j < e ==> is_digit(s[j]),
                e < s.len() ==> !is_digit(s[e]),
            decreases s.len() - self.at(),
        {
            let ghost i = self.at();
            match self.next_char() {
                Err(_) => {
                    proof {
                        lemma_digits_value_prefix_le(s, p, i, e);
                    }
                    return Err(Error::Eof);
                },
                Ok(c) => {
                    if DIGIT_LO <= c && c <= DIGIT_HI {
                        proof {
                            if i == e {
                                assert(false);
                            }
                            lemma_digits_value_extend(s, p, i);
                        }
                        let d = (c - DIGIT_LO) as i64;
                        let grown = match val.checked_mul(10) {
                            Some(m) => m.checked_add(d),
                            None => None,
                        };
                        match grown {
                            Some(n) => {
                                val = n;
                            },
                            None => {
                                proof {
                                    lemma_digits_value_prefix_le(s, p, i + 1, e);
                                }
                                return Err(Error::Overflow { pos: self.pos - 1 });
                            },
                        }
                    } else if c == stop {
                        proof {
                            lemma_digits_value_prefix_le(s, p, i, e);
                        }
                        if negative {
                            return Ok(-val);
                        }
                        return Ok(val);
                    } else {
                        proof {
                            lemma_digits_value_prefix_le(s, p, i, e);
                        }
                        return Err(Error::Unexpected { pos: self.pos });
                    }
                },
            }
        }
    }

}

impl<'buf> Decoder<'buf> for BenDecoder<'buf> {
    open spec fn sbuf(&self) -> Seq<u8> {
        BenDecoder::sbuf(*self)
    }

    open spec fn at(&self) -> int {
        BenDecoder::at(*self)
    }

    fn decode_dict<V: Visitor<'buf>>(&mut self, visitor: V) -> (r: Result<V::Value, Error>) {
        self.begin(DICT_TAG, "Expected Dict")?;
        let out = visitor.visit_dict(&mut *self)?;
        match self.finish() {
            Ok(_) => Ok(out),
            Err(e) => Err(e),
        }
    }

    fn decode_list<V: Visitor<'buf>>(&mut self, visitor: V) -> (r: Result<V::Value, Error>) {
        self.begin(LIST_TAG, "Expected List")?;
        let out = visitor.visit_list(&mut *self)?;
        match self.finish() {
            Ok(_) => Ok(out),
            Err(e) => Err(e),
        }
    }

    fn decode_int(&mut self) -> (r: Result<i64, Error>) {
        proof {
            let s = self.buf@;
            let q = self.pos as int;
            if q < s.len() && s[q] == INT_TAG {
                let neg = q + 2 < s.len() + 1 && s[q + 1] == MINUS;
                let p = if neg {
                    q + 2
                } else {
                    q + 1
                };
                lemma_digit_run_end_props(s, p);
                lemma_overflow_end_props(s, p, 0, i64::MAX as nat);
            }
        }
        let c = self.peek_char()?;
        if c != INT_TAG {
            return Err(Error::Parse { reason: "Expected integer", pos: self.pos });
        }
        proof {
            vstd::slice::axiom_spec_len(self.buf);
        }
        self.pos += 1;
        self.parse_i64(END_TAG)
    }

    fn decode_bytes(&mut self) -> (r: Result<&'buf [u8], Error>) {
        proof {
            let s = self.buf@;
            let q = self.pos as int;
            if q < s.len() && is_digit(s[q]) {
                lemma_digit_run_end_props(s, q);
                lemma_overflow_end_props(s, q, 0, usize::MAX as nat);
            }
        }
        let c = self.peek_char()?;
        if !(DIGIT_LO <= c && c <= DIGIT_HI) {
            return Err(Error::Parse { reason: "Expected byte string", pos: self.pos });
        }
        let len = self.parse_usize(COLON)?;
        proof {
            vstd::slice::axiom_spec_len(self.buf);
        }
        match self.pos.checked_add(len) {
            Some(past) => {
                if past <= self.buf.len() {
                    let out = vstd::slice::slice_subrange(self.buf, self.pos, past);
                    self.pos = past;
                    Ok(out)
                } else {
                    Err(Error::Eof)
                }
            },
            None => Err(Error::Eof),
        }
    }
}

impl<'buf> Dict<'buf> for BenDecoder<'buf> {
    open spec fn sbuf(&self) -> Seq<u8> {
        BenDecoder::sbuf(*self)
    }

    open spec fn at(&self) -> int {
        BenDecoder::at(*self)
    }

    fn next_entry<T: Decode<'buf>>(&mut self) -> (r: Result<Option<(&'buf [u8], T)>, Error>) {
        let c = self.peek_char()?;
        if c == END_TAG {
            return Ok(None);
        }
        let key = Decoder::decode_bytes(self)?;
        let value = T::decode(self)?;
        Ok(Some((key, value)))
    }
}

impl<'buf> List<'buf> for BenDecoder<'buf> {
    open spec fn sbuf(&self) -> Seq<u8> {
        BenDecoder::sbuf(*self)
    }

    open spec fn at(&self) -> int {
        BenDecoder::at(*self)
    }

    fn next_element<T: Decode<'buf>>(&mut self) -> (r: Result<Option<T>, Error>) {
        let c = self.peek_char()?;
        if c == END_TAG {
            return Ok(None);
        }
        let v = T::decode(self)?;
        Ok(Some(v))
    }
}

} // verus!
