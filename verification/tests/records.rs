use slurp::record::{scan_line, scan_record, CR, LF};
use slurp::text::{decode_text, encode_text};
use slurp::{ErrorKind, IoError};

#[test]
fn a_record_runs_to_its_line_feed() {
    assert_eq!(scan_record(b""), 0);
    assert_eq!(scan_record(b"\n"), 1);
    assert_eq!(scan_record(b"one"), 3);
    assert_eq!(scan_record(b"one\n"), 4);
    assert_eq!(scan_record(b"one\ntwo\n"), 4);
    assert_eq!(scan_record(b"\n\n"), 1);
    assert_eq!(scan_record(b"one\r\ntwo"), 5);
}

#[test]
fn a_line_is_its_record_without_the_end() {
    assert_eq!(scan_line(b""), 0);
    assert_eq!(scan_line(b"\n"), 0);
    assert_eq!(scan_line(b"\r\n"), 0);
    assert_eq!(scan_line(b"one"), 3);
    assert_eq!(scan_line(b"one\n"), 3);
    assert_eq!(scan_line(b"one\r\n"), 3);
    assert_eq!(scan_line(b"one\r\r\n"), 4);
    assert_eq!(scan_line(b"one\r"), 4);
    assert_eq!(scan_line(b"\r"), 1);
}

#[test]
fn the_line_ends_are_the_ascii_ones() {
    assert_eq!(LF, b'\n');
    assert_eq!(CR, b'\r');
}

#[test]
fn text_and_bytes_go_both_ways() {
    assert_eq!(encode_text(""), Vec::<u8>::new());
    assert_eq!(encode_text("a€"), vec![0x61, 0xe2, 0x82, 0xac]);
    assert_eq!(decode_text(&[0x61, 0xe2, 0x82, 0xac]), Ok("a€".to_string()));
    assert_eq!(decode_text(&[]), Ok(String::new()));
}

#[test]
fn bytes_that_are_no_text_are_told() {
    let invalid = IoError { kind: ErrorKind::InvalidData, os_code: None };
    assert_eq!(IoError::invalid_text(), invalid);
    assert_eq!(decode_text(&[0x80]), Err(invalid));
    assert_eq!(decode_text(&[0xc0, 0xaf]), Err(invalid));
    assert_eq!(decode_text(&[0xf4, 0x90, 0x80, 0x80]), Err(invalid));
}
