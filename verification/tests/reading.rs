use slurp::{
    iterate_all_lines, read_all_lines, read_all_to_string, write_all_lines, write_all_text,
    ErrorKind, IoError, LineAction, LineEvent, Lines, WriteAction, Writer,
};

fn not_found() -> IoError {
    IoError { kind: ErrorKind::NotFound, os_code: Some(2) }
}

fn invalid_text() -> IoError {
    IoError { kind: ErrorKind::InvalidData, os_code: None }
}

fn lines_of(bytes: &[u8]) -> Result<Vec<String>, IoError> {
    read_all_lines(Ok(bytes.to_vec()))
}

fn strings(lines: &[&str]) -> Vec<String> {
    lines.iter().map(|line| line.to_string()).collect()
}

/// What a new file holds once the writer's steps have all succeeded.
fn written(mut writer: Writer) -> Vec<u8> {
    let mut file = Vec::new();
    loop {
        match writer.next_action() {
            WriteAction::Write(bytes) => file.extend_from_slice(bytes),
            WriteAction::Return(result) => {
                assert_eq!(result, Ok(()));
                return file;
            }
            WriteAction::Open(_) | WriteAction::Flush => {}
        }
        writer.advance(Ok(()));
    }
}

/// Every item of an opened producer, in order.
fn drain(lines: &mut Lines) -> Vec<Result<String, IoError>> {
    let mut items = Vec::new();
    loop {
        match lines.next(LineEvent::Demand) {
            LineAction::Yield(Some(item)) => items.push(item),
            LineAction::Yield(None) => return items,
            LineAction::Open => panic!("asked for the file twice"),
        }
    }
}

#[test]
fn text_is_read_as_it_was_written() {
    for text in ["", "sup", "two\nlines\n", "né €\r\n", "\u{10348}\0"] {
        let file = written(write_all_text(text));
        assert_eq!(read_all_to_string(Ok(file)), Ok(text.to_string()));
    }
}

#[test]
fn text_of_a_missing_file_is_an_error() {
    assert_eq!(read_all_to_string(Err(not_found())), Err(not_found()));
}

#[test]
fn text_of_an_empty_file_is_empty() {
    assert_eq!(read_all_to_string(Ok(vec![])), Ok(String::new()));
}

#[test]
fn text_that_is_no_utf8_is_an_error() {
    assert_eq!(read_all_to_string(Ok(vec![0x61, 0xff])), Err(invalid_text()));
    assert_eq!(read_all_to_string(Ok(vec![0xe2, 0x82])), Err(invalid_text()));
    assert_eq!(read_all_to_string(Ok(vec![0xed, 0xa0, 0x80])), Err(invalid_text()));
}

#[test]
fn lines_are_read_as_they_were_written() {
    let cases: [&[&str]; 6] = [
        &[],
        &[""],
        &["hey", "yo", "sup"],
        &["", "", "x", ""],
        &["a\rb", "\rc", "né €"],
        &["tab\there", " ", "\u{10348}"],
    ];
    for lines in cases {
        let file = written(write_all_lines(lines));
        assert_eq!(read_all_lines(Ok(file)), Ok(strings(lines)));
    }
}

#[test]
fn lines_that_are_not_plain_do_not_come_back() {
    let file = written(write_all_lines(&["a\nb"]));
    assert_eq!(read_all_lines(Ok(file)), Ok(strings(&["a", "b"])));
    let file = written(write_all_lines(&["a\r"]));
    assert_eq!(read_all_lines(Ok(file)), Ok(strings(&["a"])));
}

#[test]
fn lines_end_at_line_feeds() {
    assert_eq!(lines_of(b""), Ok(strings(&[])));
    assert_eq!(lines_of(b"\n"), Ok(strings(&[""])));
    assert_eq!(lines_of(b"one"), Ok(strings(&["one"])));
    assert_eq!(lines_of(b"one\n"), Ok(strings(&["one"])));
    assert_eq!(lines_of(b"one\ntwo"), Ok(strings(&["one", "two"])));
    assert_eq!(lines_of(b"one\n\ntwo\n"), Ok(strings(&["one", "", "two"])));
    assert_eq!(lines_of(b"\n\n"), Ok(strings(&["", ""])));
}

#[test]
fn carriage_return_goes_with_its_line_feed() {
    assert_eq!(lines_of(b"one\r\ntwo\r\n"), Ok(strings(&["one", "two"])));
    assert_eq!(lines_of(b"\r\n"), Ok(strings(&[""])));
    assert_eq!(lines_of(b"one\r\r\n"), Ok(strings(&["one\r"])));
    assert_eq!(lines_of(b"one\rtwo\n"), Ok(strings(&["one\rtwo"])));
    assert_eq!(lines_of(b"one\r"), Ok(strings(&["one\r"])));
    assert_eq!(lines_of(b"one\n\r"), Ok(strings(&["one", "\r"])));
}

#[test]
fn lines_of_a_missing_file_are_an_error() {
    assert_eq!(read_all_lines(Err(not_found())), Err(not_found()));
}

#[test]
fn a_line_that_is_no_utf8_fails_the_whole_read() {
    assert_eq!(lines_of(b"one\n\xff\nthree\n"), Err(invalid_text()));
    assert_eq!(lines_of(b"\xe2\x82\n\xac\n"), Err(invalid_text()));
    assert_eq!(lines_of(b"one\ntwo\n\xc3"), Err(invalid_text()));
}

#[test]
fn the_file_is_asked_for_at_the_first_demand() {
    let mut lines = iterate_all_lines();
    assert_eq!(lines.next(LineEvent::Demand), LineAction::Open);
    assert_eq!(lines.next(LineEvent::Demand), LineAction::Open);
    assert_eq!(
        lines.next(LineEvent::Opened(Ok(b"one\ntwo".to_vec()))),
        LineAction::Yield(Some(Ok("one".to_string())))
    );
    assert_eq!(lines.next(LineEvent::Demand), LineAction::Yield(Some(Ok("two".to_string()))));
    assert_eq!(lines.next(LineEvent::Demand), LineAction::Yield(None));
    assert_eq!(lines.next(LineEvent::Demand), LineAction::Yield(None));
}

#[test]
fn a_missing_file_is_the_one_item() {
    let mut lines = iterate_all_lines();
    assert_eq!(lines.next(LineEvent::Demand), LineAction::Open);
    assert_eq!(
        lines.next(LineEvent::Opened(Err(not_found()))),
        LineAction::Yield(Some(Err(not_found())))
    );
    assert_eq!(lines.next(LineEvent::Demand), LineAction::Yield(None));
    assert_eq!(lines.next(LineEvent::Opened(Ok(b"late".to_vec()))), LineAction::Yield(None));
    assert_eq!(lines.next(LineEvent::Demand), LineAction::Yield(None));
}

#[test]
fn an_empty_file_has_no_lines() {
    let mut lines = iterate_all_lines();
    assert_eq!(lines.next(LineEvent::Opened(Ok(vec![]))), LineAction::Yield(None));
    assert_eq!(lines.next(LineEvent::Demand), LineAction::Yield(None));
}

#[test]
fn an_open_producer_takes_no_second_file() {
    let mut lines = iterate_all_lines();
    assert_eq!(
        lines.next(LineEvent::Opened(Ok(b"one\ntwo\n".to_vec()))),
        LineAction::Yield(Some(Ok("one".to_string())))
    );
    assert_eq!(
        lines.next(LineEvent::Opened(Ok(b"other\n".to_vec()))),
        LineAction::Yield(Some(Ok("two".to_string())))
    );
    assert_eq!(lines.next(LineEvent::Opened(Err(not_found()))), LineAction::Yield(None));
}

#[test]
fn the_producer_goes_on_after_a_bad_line() {
    let mut lines = iterate_all_lines();
    assert_eq!(
        lines.next(LineEvent::Opened(Ok(b"one\n\xff\r\nthree".to_vec()))),
        LineAction::Yield(Some(Ok("one".to_string())))
    );
    assert_eq!(
        drain(&mut lines),
        vec![Err(invalid_text()), Ok("three".to_string())]
    );
    assert_eq!(lines.next(LineEvent::Demand), LineAction::Yield(None));
}

#[test]
fn the_producer_and_the_whole_read_agree() {
    let file = b"hey\r\nyo\n\nsup".to_vec();
    let mut lines = iterate_all_lines();
    let mut items = match lines.next(LineEvent::Opened(Ok(file.clone()))) {
        LineAction::Yield(Some(item)) => vec![item],
        other => panic!("no first line: {:?}", other),
    };
    items.extend(drain(&mut lines));
    let collected: Result<Vec<String>, IoError> = items.into_iter().collect();
    assert_eq!(collected, read_all_lines(Ok(file)));
    assert_eq!(collected, Ok(strings(&["hey", "yo", "", "sup"])));
}
