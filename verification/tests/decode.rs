//! Decoding scenarios: the four shapes, nesting, and trailing data.
use std::collections::{BTreeMap, BTreeSet, HashMap, HashSet, VecDeque};

use bx::{parse, Error};

#[test]
fn int_simple() {
    let v: i64 = parse(b"i42e").unwrap();
    assert_eq!(v, 42);
}

#[test]
fn int_negative() {
    let v: i64 = parse(b"i-3e").unwrap();
    assert_eq!(v, -3);
}

#[test]
fn int_zero() {
    let v: i64 = parse(b"i0e").unwrap();
    assert_eq!(v, 0);
}

#[test]
fn int_negative_zero() {
    let v: i64 = parse(b"i-0e").unwrap();
    assert_eq!(v, 0);
}

#[test]
fn int_leading_zeroes_accepted() {
    let v: i64 = parse(b"i042e").unwrap();
    assert_eq!(v, 42);
}

#[test]
fn int_largest() {
    let v: i64 = parse(b"i9223372036854775807e").unwrap();
    assert_eq!(v, i64::MAX);
}

#[test]
fn int_smallest_representable_magnitude() {
    let v: i64 = parse(b"i-9223372036854775807e").unwrap();
    assert_eq!(v, -i64::MAX);
}

#[test]
fn bytes_simple() {
    let v: &[u8] = parse(b"4:spam").unwrap();
    assert_eq!(v, b"spam");
}

#[test]
fn bytes_empty() {
    let v: &[u8] = parse(b"0:").unwrap();
    assert_eq!(v, b"");
}

#[test]
fn bytes_alias_input() {
    let buf: &[u8] = b"4:spam";
    let v: &[u8] = parse(buf).unwrap();
    assert_eq!(v.as_ptr(), buf[2..].as_ptr());
}

#[test]
fn text_simple() {
    let v: &str = parse(b"4:spam").unwrap();
    assert_eq!(v, "spam");
}

#[test]
fn list_of_bytes() {
    let v: Vec<&[u8]> = parse(b"l4:spam4:eggse").unwrap();
    assert_eq!(v, vec![b"spam".as_slice(), b"eggs".as_slice()]);
}

#[test]
fn list_empty() {
    let v: Vec<i64> = parse(b"le").unwrap();
    assert!(v.is_empty());
}

#[test]
fn list_nested() {
    let v: Vec<Vec<i64>> = parse(b"lli1ei2eeli3eee").unwrap();
    assert_eq!(v, vec![vec![1, 2], vec![3]]);
}

#[test]
fn list_deeply_nested() {
    let v: Vec<Vec<Vec<&[u8]>>> = parse(b"lll1:a1:bel1:ceelee").unwrap();
    assert_eq!(
        v,
        vec![
            vec![vec![b"a".as_slice(), b"b".as_slice()], vec![b"c".as_slice()]],
            vec![],
        ]
    );
}

#[test]
fn dict_as_ordered_map() {
    let v: BTreeMap<&[u8], &[u8]> = parse(b"d3:cow3:moo4:spam4:eggse").unwrap();
    let mut expect: BTreeMap<&[u8], &[u8]> = BTreeMap::new();
    expect.insert(b"cow", b"moo");
    expect.insert(b"spam", b"eggs");
    assert_eq!(v, expect);
}

#[test]
fn dict_as_unordered_map() {
    let v: HashMap<&[u8], i64> = parse(b"d1:ai1e1:bi2ee").unwrap();
    assert_eq!(v.len(), 2);
    assert_eq!(v[b"a".as_slice()], 1);
    assert_eq!(v[b"b".as_slice()], 2);
}

#[test]
fn dict_unsorted_keys_accepted() {
    let v: BTreeMap<&[u8], i64> = parse(b"d1:bi1e1:ai2ee").unwrap();
    assert_eq!(v[b"a".as_slice()], 2);
    assert_eq!(v[b"b".as_slice()], 1);
}

#[test]
fn dict_duplicate_key_last_wins() {
    let v: BTreeMap<&[u8], i64> = parse(b"d1:ai1e1:ai2ee").unwrap();
    assert_eq!(v.len(), 1);
    assert_eq!(v[b"a".as_slice()], 2);
}

#[test]
fn dict_empty() {
    let v: BTreeMap<&[u8], i64> = parse(b"de").unwrap();
    assert!(v.is_empty());
}

#[test]
fn deque_of_ints() {
    let v: VecDeque<i64> = parse(b"li1ei2ei3ee").unwrap();
    assert_eq!(v, VecDeque::from(vec![1, 2, 3]));
}

#[test]
fn ordered_set_dedupes() {
    let v: BTreeSet<i64> = parse(b"li2ei1ei2ee").unwrap();
    let expect: BTreeSet<i64> = vec![1, 2].into_iter().collect();
    assert_eq!(v, expect);
}

#[test]
fn unordered_set_dedupes() {
    let v: HashSet<&[u8]> = parse(b"l1:a1:b1:ae").unwrap();
    assert_eq!(v.len(), 2);
    assert!(v.contains(b"a".as_slice()));
    assert!(v.contains(b"b".as_slice()));
}

#[test]
fn pair_from_list() {
    let v: (i64, &[u8]) = parse(b"li7e3:abce").unwrap();
    assert_eq!(v, (7, b"abc".as_slice()));
}

#[test]
fn triple_from_list() {
    let v: (i64, i64, i64) = parse(b"li1ei2ei3ee").unwrap();
    assert_eq!(v, (1, 2, 3));
}

#[test]
fn unit_from_empty_list() {
    let v: () = parse(b"le").unwrap();
    assert_eq!(v, ());
}

#[test]
fn array_from_list() {
    let v: [i64; 3] = parse(b"li1ei2ei3ee").unwrap();
    assert_eq!(v, [1, 2, 3]);
}

#[test]
fn array_of_bytes() {
    let v: [&[u8]; 2] = parse(b"l2:ab2:cde").unwrap();
    assert_eq!(v, [b"ab".as_slice(), b"cd".as_slice()]);
}

#[test]
fn trailing_bytes_left_unread() {
    let v: i64 = parse(b"i1eXYZ").unwrap();
    assert_eq!(v, 1);
}

#[test]
fn mixed_nested_value() {
    let v: BTreeMap<&[u8], Vec<i64>> = parse(b"d1:ali1ei2ee1:blee").unwrap();
    assert_eq!(v[b"a".as_slice()], vec![1, 2]);
    assert!(v[b"b".as_slice()].is_empty());
}
