use assert_cmd::buffer::dump_buffer;
use assert_cmd::num::i32_to_string;
use assert_cmd::num::u64_to_string;
use assert_cmd::restore::NewlineRestorer;

#[test]
fn format_bytes() {
    let mut s = String::new();
    for i in 0..40 {
        s.push_str(&format!("{}\n", i));
    }
    let buf = assert_cmd::buffer::format_bytes(s.as_bytes());
    assert_eq!(
        r#"<40 lines total>"0
1
2
3
4
5
6
7
8
9"
<20 lines omitted>
"30
31
32
33
34
35
36
37
38
39""#,
        buf
    );
}

#[test]
fn restore_newlines() {
    let s = r#"escaped nul\0unescaped newline
escaped newline\n<end>"#;
    assert_eq!(
        r#"escaped nul\0unescaped newline
escaped newline
<end>"#,
        assert_cmd::restore::restore_newlines(s)
    );
}

#[test]
fn restore_newlines_trailing_backslashes() {
    let mut s = String::from("trailing backslashes");
    for _ in 0..4 {
        s.push('\\');
        assert_eq!(s, assert_cmd::restore::restore_newlines(&s));
    }
}

#[test]
fn format_bytes_small_text_rendered_whole() {
    let rendered = assert_cmd::buffer::format_bytes(b"hello\nworld");
    assert_eq!("\"hello\nworld\"", rendered);
}

#[test]
fn format_bytes_empty() {
    assert_eq!("\"\"", assert_cmd::buffer::format_bytes(b""));
}

#[test]
fn format_bytes_one_long_line_truncated_by_bytes() {
    let data = "a".repeat(9000);
    let rendered = assert_cmd::buffer::format_bytes(data.as_bytes());
    let head = "a".repeat(2048);
    let tail = "a".repeat(2048);
    let expected = format!(
        "<9000 bytes total>\"{}\"...<4904 bytes omitted>...\"{}\"",
        head, tail
    );
    assert_eq!(expected, rendered);
}

#[test]
fn format_bytes_line_threshold_not_reached() {
    let mut s = String::new();
    for i in 0..39 {
        s.push_str(&format!("{}\n", i));
    }
    let rendered = assert_cmd::buffer::format_bytes(s.as_bytes());
    assert_eq!(format!("\"{}\"", s), rendered);
}

#[test]
fn restore_newlines_idempotent_on_sample() {
    let s = r#"one\ntwo\\nthree\"#;
    let once = assert_cmd::restore::restore_newlines(s);
    let twice = assert_cmd::restore::restore_newlines(&once);
    assert_eq!(once, twice);
}

#[test]
fn newline_restorer_pair_split_across_writes() {
    let mut r = NewlineRestorer::new();
    r.write_str("abc\\");
    r.write_str("nd");
    assert_eq!("abc\nd", r.finish());
}

#[test]
fn newline_restorer_odd_backslashes_kept() {
    let mut r = NewlineRestorer::new();
    r.write_str("x\\\\\\");
    r.write_str("y");
    assert_eq!("x\\\\\\y", r.finish());
}

#[test]
fn newline_restorer_trailing_backslash_emitted_on_finish() {
    let mut r = NewlineRestorer::new();
    r.write_str("tail\\");
    assert_eq!("tail\\", r.finish());
}

#[test]
fn dump_buffer_utf8_text() {
    assert_eq!("hello", dump_buffer(b"hello"));
}

#[test]
fn dump_buffer_binary_lists_bytes() {
    assert_eq!("[255, 254, 0]", dump_buffer(&[0xff, 0xfe, 0x00]));
}

#[test]
fn decimal_renderings() {
    assert_eq!("0", u64_to_string(0));
    assert_eq!("12345", u64_to_string(12345));
    assert_eq!("-42", i32_to_string(-42));
    assert_eq!("42", i32_to_string(42));
    assert_eq!("-2147483648", i32_to_string(i32::MIN));
}
