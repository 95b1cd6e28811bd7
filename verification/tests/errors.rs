//! Failure behaviour: each error kind with the inputs that produce it,
//! exact offsets, truncation at every split point, and the rendering.
use std::collections::BTreeMap;

use bx::{parse, BenDecoder, Error};

#[test]
fn empty_input_is_eof() {
    let r: Result<i64, Error> = parse(b"");
    assert!(matches!(r, Err(Error::Eof)));
}

#[test]
fn wrong_tag_for_int() {
    let r: Result<i64, Error> = parse(b"4:spam");
    assert!(matches!(r, Err(Error::Parse { reason: "Expected integer", pos: 0 })));
}

#[test]
fn wrong_tag_for_bytes() {
    let r: Result<&[u8], Error> = parse(b"i42e");
    assert!(matches!(r, Err(Error::Parse { reason: "Expected byte string", pos: 0 })));
}

#[test]
fn wrong_tag_for_list() {
    let r: Result<Vec<i64>, Error> = parse(b"i42e");
    assert!(matches!(r, Err(Error::Parse { reason: "Expected List", pos: 0 })));
}

#[test]
fn wrong_tag_for_dict() {
    let r: Result<BTreeMap<&[u8], i64>, Error> = parse(b"l4:spame");
    assert!(matches!(r, Err(Error::Parse { reason: "Expected Dict", pos: 0 })));
}

#[test]
fn negative_length_rejected_before_colon() {
    let r: Result<&[u8], Error> = parse(b"-4:spam");
    assert!(matches!(r, Err(Error::Parse { reason: "Expected byte string", pos: 0 })));
}

#[test]
fn failed_shape_leaves_cursor_unchanged() {
    let mut d = BenDecoder::new(b"4:spam");
    let r: Result<i64, Error> = bx::de::Decoder::decode_int(&mut d);
    assert!(matches!(r, Err(Error::Parse { reason: "Expected integer", pos: 0 })));
    let b: &[u8] = bx::de::Decoder::decode_bytes(&mut d).unwrap();
    assert_eq!(b, b"spam");
}

#[test]
fn int_empty_body() {
    let r: Result<i64, Error> = parse(b"ie");
    assert!(matches!(r, Err(Error::Unexpected { pos: 1 })));
}

#[test]
fn int_bare_minus() {
    let r: Result<i64, Error> = parse(b"i-e");
    assert!(matches!(r, Err(Error::Unexpected { pos: 2 })));
}

#[test]
fn int_stray_byte_in_digits() {
    let r: Result<i64, Error> = parse(b"i4x2e");
    assert!(matches!(r, Err(Error::Unexpected { pos: 3 })));
}

#[test]
fn int_overflow_just_past_max() {
    let r: Result<i64, Error> = parse(b"i9223372036854775808e");
    assert!(matches!(r, Err(Error::Overflow { pos: 19 })));
}

#[test]
fn int_overflow_large_scenario() {
    let r: Result<i64, Error> = parse(b"i35184372088832000000e");
    assert!(matches!(r, Err(Error::Overflow { pos: 20 })));
}

#[test]
fn int_overflow_negative_magnitude() {
    let r: Result<i64, Error> = parse(b"i-9223372036854775808e");
    assert!(matches!(r, Err(Error::Overflow { pos: 20 })));
}

#[test]
fn bytes_payload_truncated() {
    let r: Result<&[u8], Error> = parse(b"4:spa");
    assert!(matches!(r, Err(Error::Eof)));
}

#[test]
fn int_truncated_at_every_split_point() {
    let enc: &[u8] = b"i-9223372036854775807e";
    let mut k: usize = 0;
    while k < enc.len() {
        let r: Result<i64, Error> = parse(&enc[..k]);
        assert!(matches!(r, Err(Error::Eof)));
        k += 1;
    }
}

#[test]
fn bytes_truncated_at_every_split_point() {
    let enc: &[u8] = b"10:abcdefghij";
    let mut k: usize = 0;
    while k < enc.len() {
        let r: Result<&[u8], Error> = parse(&enc[..k]);
        assert!(matches!(r, Err(Error::Eof)));
        k += 1;
    }
}

#[test]
fn list_truncated_at_every_split_point() {
    let enc: &[u8] = b"l4:spam4:eggse";
    let mut k: usize = 0;
    while k < enc.len() {
        let r: Result<Vec<&[u8]>, Error> = parse(&enc[..k]);
        assert!(matches!(r, Err(Error::Eof)));
        k += 1;
    }
}

#[test]
fn dict_truncated_at_every_split_point() {
    let enc: &[u8] = b"d3:cow3:moo4:spam4:eggse";
    let mut k: usize = 0;
    while k < enc.len() {
        let r: Result<BTreeMap<&[u8], &[u8]>, Error> = parse(&enc[..k]);
        assert!(matches!(r, Err(Error::Eof)));
        k += 1;
    }
}

#[test]
fn pair_too_few_elements() {
    let r: Result<(i64, i64), Error> = parse(b"li1ee");
    assert!(matches!(r, Err(Error::Length { expected: 2, actual: 1 })));
}

#[test]
fn pair_from_empty_list() {
    let r: Result<(i64, i64), Error> = parse(b"le");
    assert!(matches!(r, Err(Error::Length { expected: 2, actual: 0 })));
}

#[test]
fn array_too_few_elements() {
    let r: Result<[i64; 3], Error> = parse(b"li1ei2ee");
    assert!(matches!(r, Err(Error::Length { expected: 3, actual: 2 })));
}

#[test]
fn array_too_many_elements_rejected_by_terminator() {
    let r: Result<[i64; 1], Error> = parse(b"li1ei2ee");
    assert!(matches!(r, Err(Error::Unexpected { pos: 5 })));
}

#[test]
fn unit_from_nonempty_list() {
    let r: Result<(), Error> = parse(b"li1ee");
    assert!(matches!(r, Err(Error::Unexpected { pos: 2 })));
}

#[test]
fn text_not_utf8() {
    let r: Result<&str, Error> = parse(b"2:\xff\xfe");
    assert!(matches!(r, Err(Error::Type { reason: "Not a valid UTF-8 string" })));
}

#[test]
fn bytes_length_overflow() {
    let r: Result<&[u8], Error> = parse(b"99999999999999999999999:x");
    assert!(matches!(r, Err(Error::Overflow { pos: 19 })));
}

#[test]
fn first_failure_in_document_order() {
    let r: Result<Vec<i64>, Error> = parse(b"li1ei2xei3ee");
    assert!(matches!(r, Err(Error::Unexpected { pos: 7 })));
}

#[test]
fn failure_inside_dict_value() {
    let r: Result<BTreeMap<&[u8], i64>, Error> = parse(b"d1:a4:spame");
    assert!(matches!(r, Err(Error::Parse { reason: "Expected integer", pos: 4 })));
}

#[test]
fn message_eof() {
    assert_eq!(Error::Eof.message(), "Unexpected end of file");
}

#[test]
fn message_type() {
    let e = Error::Type { reason: "Dict not expected" };
    assert_eq!(e.message(), "Type Mismatch: Dict not expected");
}

#[test]
fn message_length() {
    let e = Error::Length { expected: 3, actual: 2 };
    assert_eq!(e.message(), "Length Mismatch: Expected: 3, Actual: 2");
}

#[test]
fn message_parse() {
    let e = Error::Parse { reason: "Expected integer", pos: 0 };
    assert_eq!(e.message(), "Parse Error at 0: Expected integer");
}

#[test]
fn message_unexpected() {
    let e = Error::Unexpected { pos: 17 };
    assert_eq!(e.message(), "Unexpected character at 17");
}

#[test]
fn message_overflow_large_offset() {
    let e = Error::Overflow { pos: 1234567890 };
    assert_eq!(e.message(), "Numeric overflow occurred at 1234567890");
}
