use camlfilter::charpeek::Charpeek;

fn fed(bytes: &[u8]) -> Charpeek {
    let mut c = Charpeek::new();
    c.feed(bytes);
    c
}

#[test]
fn peek_then_line() {
    let mut c = fed(b"abc\r\ndef");
    assert_eq!(c.peek_byte(), Some(b'a'));
    assert_eq!(c.peek_byte(), Some(b'a'));
    assert_eq!(c.next_line(), Some("abc".to_string()));
    assert_eq!(c.next_line(), None);
    c.close();
    assert_eq!(c.next_line(), Some("def".to_string()));
    assert_eq!(c.next_line(), None);
    assert!(c.at_end());
}

#[test]
fn new_reader_holds_nothing() {
    let mut c = Charpeek::new();
    assert_eq!(c.peek_byte(), None);
    assert_eq!(c.next_line(), None);
    assert!(!c.line_ready());
    assert!(!c.at_end());
    c.close();
    assert!(c.at_end());
    assert_eq!(c.peek_byte(), None);
    assert_eq!(c.next_line(), None);
}

#[test]
fn peek_gives_the_same_byte_until_it_is_consumed() {
    let mut c = fed(b"xy");
    assert_eq!(c.peek_byte(), Some(b'x'));
    assert_eq!(c.peek_byte(), Some(b'x'));
    let mut sink = Vec::new();
    c.flush_peek(&mut sink);
    assert_eq!(c.peek_byte(), Some(b'y'));
    assert_eq!(c.peek_byte(), Some(b'y'));
}

#[test]
fn flush_hands_the_peeked_byte_on() {
    let mut c = fed(b"# ");
    let mut sink = vec![1u8];
    assert_eq!(c.peek_byte(), Some(b'#'));
    c.flush_peek(&mut sink);
    assert_eq!(sink, vec![1u8, b'#']);
    assert_eq!(c.peek_byte(), Some(b' '));
    c.flush_peek(&mut sink);
    assert_eq!(sink, vec![1u8, b'#', b' ']);
    assert_eq!(c.peek_byte(), None);
}

#[test]
fn flush_without_a_peek_does_nothing() {
    let mut c = fed(b"ab\n");
    let mut sink = Vec::new();
    c.flush_peek(&mut sink);
    assert!(sink.is_empty());
    assert_eq!(c.next_line(), Some("ab".to_string()));
}

#[test]
fn line_waits_for_its_end() {
    let mut c = fed(b"let x");
    assert!(!c.line_ready());
    assert_eq!(c.next_line(), None);
    c.feed(b" = 1\nrest");
    assert!(c.line_ready());
    assert_eq!(c.next_line(), Some("let x = 1".to_string()));
    assert!(!c.line_ready());
    assert_eq!(c.peek_byte(), Some(b'r'));
}

#[test]
fn line_begins_with_the_peeked_byte() {
    let mut c = fed(b"Error: x\nnext\n");
    assert_eq!(c.peek_byte(), Some(b'E'));
    assert_eq!(c.next_line(), Some("Error: x".to_string()));
    assert_eq!(c.next_line(), Some("next".to_string()));
}

#[test]
fn peeked_line_feed_is_an_empty_line() {
    let mut c = fed(b"\nabc\n");
    assert_eq!(c.peek_byte(), Some(b'\n'));
    assert!(c.line_ready());
    assert_eq!(c.next_line(), Some(String::new()));
    assert_eq!(c.next_line(), Some("abc".to_string()));
}

#[test]
fn only_line_ends_are_trimmed() {
    let mut c = fed(b"a b \t\r\r\n  c\n");
    assert_eq!(c.next_line(), Some("a b \t".to_string()));
    assert_eq!(c.next_line(), Some("  c".to_string()));
}

#[test]
fn last_line_needs_no_line_feed() {
    let mut c = fed(b"tail\r");
    assert_eq!(c.next_line(), None);
    c.close();
    assert!(c.line_ready());
    assert_eq!(c.next_line(), Some("tail".to_string()));
    assert!(c.at_end());
}

#[test]
fn line_is_decoded_as_utf8() {
    let mut c = fed("caf\u{e9} \u{3bb}\n".as_bytes());
    assert_eq!(c.next_line(), Some("caf\u{e9} \u{3bb}".to_string()));
}

#[test]
fn line_that_is_not_utf8_is_dropped() {
    let mut c = fed(b"a\xffb\nok\n");
    assert!(c.line_ready());
    assert_eq!(c.next_line(), None);
    assert_eq!(c.next_line(), Some("ok".to_string()));
}

#[test]
fn feeding_keeps_what_is_unread() {
    let mut c = fed(b"ab");
    assert_eq!(c.peek_byte(), Some(b'a'));
    c.feed(b"c\nd");
    c.feed(b"");
    c.feed(b"e\n");
    assert_eq!(c.next_line(), Some("abc".to_string()));
    assert_eq!(c.next_line(), Some("de".to_string()));
    assert_eq!(c.next_line(), None);
}

#[test]
fn bytes_come_out_as_they_went_in() {
    let input: &[u8] = b"# let x\r\n  y\n\tz";
    let mut c = Charpeek::new();
    let mut seen: Vec<u8> = Vec::new();
    c.feed(&input[..5]);
    assert_eq!(c.peek_byte(), Some(b'#'));
    c.flush_peek(&mut seen);
    assert_eq!(c.peek_byte(), Some(b' '));
    c.flush_peek(&mut seen);
    assert_eq!(c.next_line(), None);
    c.feed(&input[5..]);
    assert_eq!(c.peek_byte(), Some(b'l'));
    let line = c.next_line().unwrap();
    assert_eq!(line, "let x");
    seen.extend_from_slice(line.as_bytes());
    seen.extend_from_slice(b"\r\n");
    assert_eq!(c.peek_byte(), Some(b' '));
    c.flush_peek(&mut seen);
    let line = c.next_line().unwrap();
    assert_eq!(line, " y");
    seen.extend_from_slice(line.as_bytes());
    seen.extend_from_slice(b"\n");
    c.close();
    let line = c.next_line().unwrap();
    assert_eq!(line, "\tz");
    seen.extend_from_slice(line.as_bytes());
    assert!(c.at_end());
    assert_eq!(seen, input);
}
