use repocat::numfmt::usize_to_string;
use repocat::render::{decode_lines, format_file, render_lines};
use repocat::types::{ReadOutcome, SkipReason};

fn lines_of(n: usize) -> Vec<String> {
    let mut v = Vec::new();
    for i in 0..n {
        v.push(format!("line{}", i + 1));
    }
    v
}

#[test]
fn decimal_rendering() {
    assert_eq!(usize_to_string(0).as_str(), "0");
    assert_eq!(usize_to_string(7).as_str(), "7");
    assert_eq!(usize_to_string(10).as_str(), "10");
    assert_eq!(usize_to_string(105).as_str(), "105");
    assert_eq!(usize_to_string(98765).as_str(), "98765");
}

#[test]
fn zero_line_file_renders_empty() {
    let rendered = render_lines(&Vec::new());
    assert_eq!(rendered.as_str(), "");
}

#[test]
fn three_line_file_uses_one_digit_field() {
    let v = vec![
        String::from("alpha"),
        String::from("beta"),
        String::from("gamma"),
    ];
    let rendered = render_lines(&v);
    assert_eq!(rendered.as_str(), "1 │ alpha\n2 │ beta\n3 │ gamma");
}

#[test]
fn ten_line_file_uses_two_character_field() {
    let rendered = render_lines(&lines_of(10));
    let lines: Vec<&str> = rendered.lines().collect();
    assert_eq!(lines.len(), 10);
    assert!(lines[0].starts_with(" 1 │ "));
    assert!(lines[9].starts_with("10 │ "));
}

#[test]
fn hundred_line_file_uses_three_character_field() {
    let rendered = render_lines(&lines_of(100));
    let lines: Vec<&str> = rendered.lines().collect();
    assert_eq!(lines.len(), 100);
    assert!(lines[0].starts_with("  1 │ "));
    assert!(lines[9].starts_with(" 10 │ "));
    assert!(lines[99].starts_with("100 │ "));
}

#[test]
fn decode_splits_and_strips_line_endings() {
    let bytes: Vec<u8> = b"one\r\ntwo\nthree".to_vec();
    let lines = decode_lines(&bytes).expect("valid text");
    assert_eq!(lines.len(), 3);
    assert_eq!(lines[0].as_str(), "one");
    assert_eq!(lines[1].as_str(), "two");
    assert_eq!(lines[2].as_str(), "three");
}

#[test]
fn decode_empty_file_has_no_lines() {
    let lines = decode_lines(&Vec::new()).expect("valid text");
    assert_eq!(lines.len(), 0);
}

#[test]
fn decode_rejects_invalid_text() {
    let bytes: Vec<u8> = vec![0xff, 0xfe, 0x00];
    assert!(decode_lines(&bytes).is_none());
}

#[test]
fn invalid_text_is_never_partially_rendered() {
    // The first line is fine; a later line is not text; the whole file is
    // rejected, not rendered in part.
    let mut bytes: Vec<u8> = b"good line\n".to_vec();
    bytes.push(0xff);
    let r = format_file("data.bin", 1_700_000_000, ReadOutcome::Bytes(bytes));
    assert!(matches!(r, Err(SkipReason::InvalidUtf8)));
}

#[test]
fn read_failure_becomes_read_error() {
    let r = format_file(
        "gone.txt",
        1_700_000_000,
        ReadOutcome::Failed(String::from("permission denied")),
    );
    match r {
        Err(SkipReason::ReadError(msg)) => assert_eq!(msg.as_str(), "permission denied"),
        _ => panic!("expected a read error"),
    }
}

#[test]
fn formatted_file_carries_rendered_content() {
    let r = format_file(
        "a.txt",
        1_700_000_000,
        ReadOutcome::Bytes(b"alpha\nbeta\n".to_vec()),
    );
    let f = r.expect("valid text");
    assert_eq!(f.path.as_str(), "a.txt");
    assert_eq!(f.modified_secs, 1_700_000_000);
    assert_eq!(f.content.as_str(), "1 │ alpha\n2 │ beta");
}
