//! The extension surface: a user-defined type decoding itself through
//! the decode, visitor, and accessor contracts, exactly as the built-in
//! adapters do.
use bx::de::{Decode, Decoder, Dict, List, Visitor};
use bx::{parse, BenDecoder, Error};

#[derive(Debug, PartialEq)]
struct Record<'a> {
    id: &'a [u8],
    count: i64,
}

struct RecordVisitor;

impl<'buf> Visitor<'buf> for RecordVisitor {
    type Value = Record<'buf>;

    fn visit_dict<A: Dict<'buf>>(self, dict: &mut A) -> Result<Self::Value, Error> {
        if let Some((b"a", id)) = dict.next_entry()? {
            if let Some((b"b", count)) = dict.next_entry()? {
                return Ok(Record { id, count });
            }
        }
        Err(Error::Eof)
    }
}

impl<'buf> Decode<'buf> for Record<'buf> {
    fn decode(decoder: &mut BenDecoder<'buf>) -> Result<Self, Error> {
        decoder.decode_dict(RecordVisitor)
    }
}

#[test]
fn custom_type_through_visitor() {
    let r: Record = parse(b"d1:a3:abc1:bi12ee").unwrap();
    assert_eq!(r, Record { id: b"abc", count: 12 });
}

#[test]
fn custom_type_wrong_shape() {
    let r: Result<Record, Error> = parse(b"l3:abce");
    assert!(matches!(r, Err(Error::Parse { reason: "Expected Dict", pos: 0 })));
}

#[test]
fn custom_type_missing_entry() {
    let r: Result<Record, Error> = parse(b"d1:a3:abce");
    assert!(matches!(r, Err(Error::Eof)));
}

struct SumVisitor;

impl<'buf> Visitor<'buf> for SumVisitor {
    type Value = i64;

    fn visit_list<A: List<'buf>>(self, list: &mut A) -> Result<Self::Value, Error> {
        let mut total: i64 = 0;
        while let Some(n) = list.next_element::<i64>()? {
            total += n;
        }
        Ok(total)
    }
}

#[test]
fn aggregate_through_list_accessor() {
    let mut d = BenDecoder::new(b"li1ei2ei3ee");
    let total = d.decode_list(SumVisitor).unwrap();
    assert_eq!(total, 6);
}

#[test]
fn default_visitor_rejects_other_shapes() {
    let mut d = BenDecoder::new(b"d1:ai1ee");
    let r = d.decode_dict(SumVisitor);
    assert!(matches!(r, Err(Error::Type { reason: "Dict not expected" })));
}

#[test]
fn list_accessor_reports_end() {
    let mut d = BenDecoder::new(b"i5e");
    let r: Result<i64, Error> = d.decode_list(SumVisitor);
    assert!(matches!(r, Err(Error::Parse { reason: "Expected List", pos: 0 })));
}
