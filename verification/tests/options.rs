use pcapng::error::ParseError;
use pcapng::options::{parse_option, parse_options};
use pcapng::wire::take;

fn entry(code: u16, value: &[u8]) -> Vec<u8> {
    let mut bytes = Vec::new();
    bytes.extend_from_slice(&code.to_le_bytes());
    bytes.extend_from_slice(&(value.len() as u16).to_le_bytes());
    bytes.extend_from_slice(value);
    while bytes.len() % 4 != 0 {
        bytes.push(0);
    }
    bytes
}

#[test]
fn empty_trailer_is_incomplete() {
    assert_eq!(parse_options(&[]).unwrap_err(), ParseError::Incomplete);
}

#[test]
fn one_option_then_end() {
    let mut bytes = entry(1, b"hello");
    bytes.extend_from_slice(&entry(0, b""));
    assert_eq!(bytes.len(), 16);
    let (rest, list) = parse_options(&bytes).unwrap();
    assert!(rest.is_empty());
    assert_eq!(list.options.len(), 1);
    assert_eq!(list.options[0].code, 1);
    assert_eq!(list.options[0].value, &b"hello"[..]);
}

#[test]
fn end_marker_is_not_an_option_and_stops_the_list() {
    let mut bytes = entry(0, b"");
    bytes.extend_from_slice(&entry(7, b"abcd"));
    let (rest, list) = parse_options(&bytes).unwrap();
    assert_eq!(list.options.len(), 0);
    assert_eq!(rest, &entry(7, b"abcd")[..]);
}

#[test]
fn list_may_end_with_the_input() {
    let mut bytes = entry(2, b"ab");
    bytes.extend_from_slice(&entry(3, b"wxyz"));
    let (rest, list) = parse_options(&bytes).unwrap();
    assert!(rest.is_empty());
    assert_eq!(list.options.len(), 2);
    assert_eq!(list.options[0].code, 2);
    assert_eq!(list.options[0].value, &b"ab"[..]);
    assert_eq!(list.options[1].code, 3);
    assert_eq!(list.options[1].value, &b"wxyz"[..]);
}

#[test]
fn wire_order_and_duplicates_are_kept() {
    let mut bytes = entry(9, b"first");
    bytes.extend_from_slice(&entry(4, b""));
    bytes.extend_from_slice(&entry(9, b"second!"));
    bytes.extend_from_slice(&entry(0, b""));
    let (rest, list) = parse_options(&bytes).unwrap();
    assert!(rest.is_empty());
    let codes: Vec<u16> = list.options.iter().map(|o| o.code).collect();
    assert_eq!(codes, vec![9, 4, 9]);
    assert_eq!(list.options[0].value, &b"first"[..]);
    assert_eq!(list.options[1].value, &b""[..]);
    assert_eq!(list.options[2].value, &b"second!"[..]);
}

#[test]
fn bytes_after_the_end_marker_are_left_over() {
    let mut bytes = entry(1, b"x");
    bytes.extend_from_slice(&entry(0, b""));
    bytes.extend_from_slice(&[0xAA, 0xBB, 0xCC]);
    let (rest, list) = parse_options(&bytes).unwrap();
    assert_eq!(rest, &[0xAA, 0xBB, 0xCC][..]);
    assert_eq!(list.options.len(), 1);
}

#[test]
fn header_cut_short_is_incomplete() {
    assert_eq!(parse_options(&[1]).unwrap_err(), ParseError::Incomplete);
    assert_eq!(parse_options(&[1, 0]).unwrap_err(), ParseError::Incomplete);
    assert_eq!(parse_options(&[1, 0, 0]).unwrap_err(), ParseError::Incomplete);
}

#[test]
fn value_cut_short_is_incomplete() {
    let bytes = entry(1, b"hello");
    assert_eq!(parse_options(&bytes[..6]).unwrap_err(), ParseError::Incomplete);
}

#[test]
fn padding_cut_short_is_incomplete() {
    let bytes = entry(1, b"hello");
    assert_eq!(bytes.len(), 12);
    assert_eq!(parse_options(&bytes[..9]).unwrap_err(), ParseError::Incomplete);
    assert_eq!(parse_options(&bytes[..11]).unwrap_err(), ParseError::Incomplete);
    assert!(parse_options(&bytes).is_ok());
}

#[test]
fn second_entry_cut_short_fails_the_whole_list() {
    let mut bytes = entry(1, b"good");
    bytes.extend_from_slice(&entry(2, b"broken")[..7]);
    assert_eq!(parse_options(&bytes).unwrap_err(), ParseError::Incomplete);
}

#[test]
fn code_and_length_are_little_endian() {
    let mut bytes = vec![0x34, 0x12, 0x02, 0x01];
    bytes.extend_from_slice(&[0x5A; 0x102]);
    bytes.extend_from_slice(&[0, 0]);
    let (rest, option) = parse_option(&bytes).unwrap();
    assert!(rest.is_empty());
    assert_eq!(option.code, 0x1234);
    assert_eq!(option.value.len(), 0x102);
    assert_eq!(option.value, &[0x5A; 0x102][..]);
}

#[test]
fn single_entry_leaves_the_rest() {
    let mut bytes = entry(5, b"abc");
    bytes.extend_from_slice(&[1, 2, 3, 4, 5]);
    let (rest, option) = parse_option(&bytes).unwrap();
    assert_eq!(option.code, 5);
    assert_eq!(option.value, &b"abc"[..]);
    assert_eq!(rest, &[1, 2, 3, 4, 5][..]);
}

#[test]
fn single_entry_may_carry_the_end_code() {
    let (rest, option) = parse_option(&[0, 0, 0, 0]).unwrap();
    assert!(rest.is_empty());
    assert_eq!(option.code, 0);
    assert!(option.value.is_empty());
}

#[test]
fn single_entry_on_empty_input_is_incomplete() {
    assert_eq!(parse_option(&[]).unwrap_err(), ParseError::Incomplete);
}

#[test]
fn padding_bytes_are_not_checked() {
    let bytes = [1, 0, 1, 0, 0x41, 0xFF, 0xFE, 0xFD, 0, 0, 0, 0];
    let (rest, list) = parse_options(&bytes).unwrap();
    assert!(rest.is_empty());
    assert_eq!(list.options.len(), 1);
    assert_eq!(list.options[0].value, &[0x41][..]);
}

#[test]
fn take_splits_the_input() {
    let bytes = [1u8, 2, 3, 4, 5];
    let (rest, taken) = take(&bytes, 2).unwrap();
    assert_eq!(taken, &[1, 2][..]);
    assert_eq!(rest, &[3, 4, 5][..]);
    let (rest, taken) = take(&bytes, 0).unwrap();
    assert!(taken.is_empty());
    assert_eq!(rest, &bytes[..]);
    let (rest, taken) = take(&bytes, 5).unwrap();
    assert_eq!(taken, &bytes[..]);
    assert!(rest.is_empty());
    assert_eq!(take(&bytes, 6).unwrap_err(), ParseError::Incomplete);
}
