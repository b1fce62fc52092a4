use rmenu::scan::{alpha_end, blank_end, bracket_end, key_end, line_end, space_end};
use rmenu::text::{same_text, text_at};

#[test]
fn letters_run() {
    assert_eq!(alpha_end(b"abcXYZ1z", 0), 6);
    assert_eq!(alpha_end(b"abcXYZ1z", 2), 6);
    assert_eq!(alpha_end(b"abcXYZ1z", 6), 6);
    assert_eq!(alpha_end(b"abcXYZ1z", 7), 8);
    assert_eq!(alpha_end(b"abc", 3), 3);
    assert_eq!(alpha_end(b"", 0), 0);
    assert_eq!(alpha_end(b"@[`{", 0), 0);
    assert_eq!(alpha_end(b"AZaz", 0), 4);
    assert_eq!(alpha_end("\u{e9}".as_bytes(), 0), 0);
}

#[test]
fn blanks_run() {
    assert_eq!(blank_end(b" \t \n x", 0), 3);
    assert_eq!(blank_end(b" \t \n x", 3), 3);
    assert_eq!(blank_end(b"x  ", 1), 3);
    assert_eq!(blank_end(b"", 0), 0);
    assert_eq!(blank_end(b"\r ", 0), 0);
}

#[test]
fn whitespace_runs() {
    assert_eq!(space_end(b" \t\r\n\n x", 0), 6);
    assert_eq!(space_end(b" \t\r\n\n x", 6), 6);
    assert_eq!(space_end(b"x\n", 1), 2);
    assert_eq!(space_end(b"", 0), 0);
    assert_eq!(space_end(b"\x0b\x0c ", 0), 0);
}

#[test]
fn line_runs_to_its_end() {
    assert_eq!(line_end(b"abc\ndef", 0), 3);
    assert_eq!(line_end(b"abc\ndef", 3), 3);
    assert_eq!(line_end(b"abc\ndef", 4), 7);
    assert_eq!(line_end(b"abc\rdef", 1), 3);
    assert_eq!(line_end(b"abc\r\ndef", 0), 3);
    assert_eq!(line_end(b"", 0), 0);
}

#[test]
fn key_name_runs() {
    assert_eq!(key_end(b"X-Key-a=1", 0), 7);
    assert_eq!(key_end(b"key[de]", 0), 3);
    assert_eq!(key_end(b"k_y", 0), 1);
    assert_eq!(key_end(b"=", 0), 0);
    assert_eq!(key_end(b"ab", 2), 2);
}

#[test]
fn bracket_contents_run() {
    assert_eq!(bracket_end(b"[a b]c", 1), 4);
    assert_eq!(bracket_end(b"[a b", 1), 4);
    assert_eq!(bracket_end(b"[]", 1), 1);
}

#[test]
fn text_is_decoded_from_its_range() {
    let buf = "k=gr\u{fc}n\n".as_bytes();
    assert_eq!(text_at(buf, 2, 7), Some(String::from("gr\u{fc}n")));
    assert_eq!(text_at(buf, 2, 2), Some(String::new()));
    assert_eq!(text_at(buf, 2, 5), None);
    assert_eq!(text_at(buf, 5, 7), None);
    assert_eq!(text_at(b"\xc0\x80", 0, 2), None);
    assert_eq!(text_at(b"\xf4\x90\x80\x80", 0, 4), None);
}

#[test]
fn texts_are_compared_letter_by_letter() {
    assert!(same_text("", ""));
    assert!(same_text("true", "true"));
    assert!(!same_text("true", "True"));
    assert!(!same_text("true", "tru"));
    assert!(!same_text("tru", "true"));
    assert!(same_text("gr\u{fc}n", "gr\u{fc}n"));
    assert!(!same_text("gr\u{fc}n", "grun"));
}
