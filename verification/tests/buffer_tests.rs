use modal_editor::Buffer;

#[test]
fn empty_buffer_has_no_rows() {
    let b = Buffer::empty_buffer();
    assert_eq!(b.len(), 0);
}

#[test]
fn load_splits_on_newlines() {
    let b = Buffer::load("abc\nde\nf");
    assert_eq!(b.rows, vec!["abc".to_string(), "de".to_string(), "f".to_string()]);
}

#[test]
fn load_empty_text_gives_zero_rows() {
    let b = Buffer::load("");
    assert_eq!(b.len(), 0);
}

#[test]
fn load_keeps_trailing_newline_as_empty_row() {
    let b = Buffer::load("a\n");
    assert_eq!(b.rows, vec!["a".to_string(), "".to_string()]);
}

#[test]
fn serialize_joins_with_newlines() {
    let b = Buffer::new(vec!["abc".to_string(), "de".to_string()]);
    assert_eq!(b.serialize(), "abc\nde");
}

#[test]
fn serialize_zero_rows_is_empty_text() {
    let b = Buffer::empty_buffer();
    assert_eq!(b.serialize(), "");
}

#[test]
fn serialize_single_empty_row_is_empty_text() {
    let b = Buffer::new(vec!["".to_string()]);
    assert_eq!(b.serialize(), "");
}

#[test]
fn round_trip_plain_text() {
    let text = "first line\nsecond\n\nfourth";
    assert_eq!(Buffer::load(text).serialize(), text);
}

#[test]
fn round_trip_empty_text() {
    assert_eq!(Buffer::load("").serialize(), "");
}

#[test]
fn round_trip_trailing_newline() {
    let text = "alpha\nbeta\n";
    assert_eq!(Buffer::load(text).serialize(), text);
}

#[test]
fn round_trip_only_newlines() {
    let text = "\n\n\n";
    assert_eq!(Buffer::load(text).serialize(), text);
}

#[test]
fn round_trip_non_ascii() {
    let text = "gr\u{fc}n\n\u{3b1}\u{3b2}";
    assert_eq!(Buffer::load(text).serialize(), text);
}

#[test]
fn get_reads_a_row() {
    let b = Buffer::new(vec!["one".to_string(), "two".to_string()]);
    assert_eq!(b.get(1), "two");
}

#[test]
fn row_len_counts_characters_not_bytes() {
    let b = Buffer::new(vec!["\u{e9}\u{e9}".to_string()]);
    assert_eq!(b.row_len(0), 2);
}

#[test]
fn insert_row_shifts_later_rows() {
    let mut b = Buffer::new(vec!["a".to_string(), "c".to_string()]);
    b.insert_row(1, "b".to_string());
    assert_eq!(b.rows, vec!["a".to_string(), "b".to_string(), "c".to_string()]);
}

#[test]
fn remove_row_hands_the_row_back() {
    let mut b = Buffer::new(vec!["a".to_string(), "b".to_string()]);
    let r = b.remove_row(0);
    assert_eq!(r, "a");
    assert_eq!(b.rows, vec!["b".to_string()]);
}

#[test]
fn insert_char_in_the_middle() {
    let mut b = Buffer::new(vec!["ac".to_string()]);
    b.insert_char(0, 1, 'b');
    assert_eq!(b.rows, vec!["abc".to_string()]);
}

#[test]
fn insert_char_at_row_end() {
    let mut b = Buffer::new(vec!["ab".to_string()]);
    b.insert_char(0, 2, 'c');
    assert_eq!(b.rows, vec!["abc".to_string()]);
}

#[test]
fn remove_char_in_the_middle() {
    let mut b = Buffer::new(vec!["abc".to_string()]);
    b.remove_char(0, 1);
    assert_eq!(b.rows, vec!["ac".to_string()]);
}

#[test]
fn insert_char_multibyte_neighbours() {
    let mut b = Buffer::new(vec!["\u{e9}\u{e9}".to_string()]);
    b.insert_char(0, 1, 'x');
    assert_eq!(b.rows, vec!["\u{e9}x\u{e9}".to_string()]);
}
