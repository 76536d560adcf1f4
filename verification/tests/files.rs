use camlfilter::files::{split_rows, FileCache};

fn strings(rows: &[&str]) -> Vec<String> {
    rows.iter().map(|r| r.to_string()).collect()
}

#[test]
fn rows_are_the_lines_of_the_file() {
    assert_eq!(split_rows(b"a\nb\n"), strings(&["a", "b"]));
    assert_eq!(split_rows(b"a\nb"), strings(&["a", "b"]));
    assert_eq!(split_rows(b"a\r\nb\r\n"), strings(&["a", "b"]));
    assert_eq!(split_rows(b""), Vec::<String>::new());
    assert_eq!(split_rows(b"\n"), strings(&[""]));
    assert_eq!(split_rows(b"\n\n x\n"), strings(&["", "", " x"]));
}

#[test]
fn only_one_line_end_is_taken_off_a_row() {
    assert_eq!(split_rows(b"a\r\r\nb\r"), strings(&["a\r", "b\r"]));
    assert_eq!(split_rows(b"a \nb"), strings(&["a ", "b"]));
}

#[test]
fn row_that_is_not_utf8_is_empty() {
    assert_eq!(split_rows(b"ok\n\xff\xfe\nfine\n"), strings(&["ok", "", "fine"]));
    assert_eq!(split_rows("\u{3bb}x\n".as_bytes()), strings(&["\u{3bb}x"]));
}

#[test]
fn cache_knows_nothing_at_first() {
    let cache = FileCache::new();
    assert!(!cache.contains("a.ml"));
    assert_eq!(cache.rows("a.ml"), None);
}

#[test]
fn stored_file_ends_with_the_end_marker() {
    let mut cache = FileCache::new();
    cache.store("a.ml", Some(b"let x = 1\nlet y = 2\n"));
    assert!(cache.contains("a.ml"));
    assert_eq!(cache.rows("a.ml"), Some(&strings(&["let x = 1", "let y = 2", "<END OF FILE>"])));
    assert!(!cache.contains("b.ml"));
}

#[test]
fn empty_file_has_the_end_marker_only() {
    let mut cache = FileCache::new();
    cache.store("empty.ml", Some(b""));
    assert_eq!(cache.rows("empty.ml"), Some(&strings(&["<END OF FILE>"])));
}

#[test]
fn unreadable_file_has_no_rows() {
    let mut cache = FileCache::new();
    cache.store("gone.ml", None);
    assert!(cache.contains("gone.ml"));
    assert_eq!(cache.rows("gone.ml"), Some(&Vec::<String>::new()));
}

#[test]
fn first_contents_of_a_file_stay() {
    let mut cache = FileCache::new();
    cache.store("a.ml", Some(b"first\n"));
    cache.store("a.ml", Some(b"second\n"));
    assert_eq!(cache.rows("a.ml"), Some(&strings(&["first", "<END OF FILE>"])));
    cache.store("a.ml", None);
    assert_eq!(cache.rows("a.ml"), Some(&strings(&["first", "<END OF FILE>"])));
}

#[test]
fn failure_to_read_stays_too() {
    let mut cache = FileCache::new();
    cache.store("a.ml", None);
    cache.store("a.ml", Some(b"late\n"));
    assert_eq!(cache.rows("a.ml"), Some(&Vec::<String>::new()));
}

#[test]
fn files_are_kept_apart() {
    let mut cache = FileCache::new();
    cache.store("a.ml", Some(b"a\n"));
    cache.store("b.ml", Some(b"b\n"));
    cache.store("", Some(b"none\n"));
    assert_eq!(cache.rows("a.ml"), Some(&strings(&["a", "<END OF FILE>"])));
    assert_eq!(cache.rows("b.ml"), Some(&strings(&["b", "<END OF FILE>"])));
    assert_eq!(cache.rows(""), Some(&strings(&["none", "<END OF FILE>"])));
    assert_eq!(cache.rows("A.ml"), None);
}
