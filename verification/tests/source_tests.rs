use minilua::source::{Source, Span};

#[test]
fn new_source_holds_the_text() {
    let s = Source::new("f".to_string(), "ab\ncd");
    assert_eq!(s.len(), 5);
    assert_eq!(s.content(), "ab\ncd");
    assert_eq!(s.char_at(3), 'c');
    assert_eq!(s.name, "f");
}

#[test]
fn empty_source_has_one_line() {
    let s = Source::empty("e".to_string());
    assert_eq!(s.len(), 0);
    assert_eq!(s.line_count(), 1);
    assert_eq!(s.lines(), vec![(0, 0)]);
}

#[test]
fn substring_takes_the_range() {
    let s = Source::new(String::new(), "hello world");
    assert_eq!(s.substring(6, 11), "world");
    assert_eq!(s.substring(3, 3), "");
}

#[test]
fn insert_then_remove_restores_the_text() {
    let mut s = Source::new(String::new(), "abc");
    s.insert(1, 'x');
    assert_eq!(s.content(), "axbc");
    s.remove(1);
    assert_eq!(s.content(), "abc");
}

#[test]
fn remove_span_cuts_the_range() {
    let mut s = Source::new(String::new(), "local x = 1");
    s.remove_span(Span { start: 0, end: 6 });
    assert_eq!(s.content(), "x = 1");
}

#[test]
fn append_adds_at_the_end() {
    let mut s = Source::new(String::new(), "a");
    s.append("bc\n");
    assert_eq!(s.content(), "abc\n");
    assert_eq!(s.line_count(), 2);
}

#[test]
fn lines_give_start_and_end_of_each_line() {
    let s = Source::new(String::new(), "ab\n\ncde\n");
    assert_eq!(s.line_count(), 4);
    assert_eq!(s.lines(), vec![(0, 2), (3, 3), (4, 7), (8, 8)]);
}

#[test]
fn index_to_position_counts_rows_and_columns() {
    let s = Source::new(String::new(), "ab\ncde\nf");
    let p = s.index_to_position(5);
    assert_eq!((p.row, p.col, p.line_start, p.line_end), (1, 2, 3, 6));
    let p = s.index_to_position(0);
    assert_eq!((p.row, p.col, p.line_start, p.line_end), (0, 0, 0, 2));
    let p = s.index_to_position(8);
    assert_eq!((p.row, p.col, p.line_start, p.line_end), (2, 1, 7, 8));
    let p = s.index_to_position(2);
    assert_eq!((p.row, p.col, p.line_start, p.line_end), (0, 2, 0, 2));
}

#[test]
fn position_to_index_keeps_the_column_within_the_line() {
    let s = Source::new(String::new(), "ab\ncde\nf");
    assert_eq!(s.position_to_index(1, 1), 4);
    assert_eq!(s.position_to_index(0, 5), 2);
    assert_eq!(s.position_to_index(2, 9), 8);
    assert_eq!(s.position_to_index(7, 0), 8);
}

#[test]
fn position_round_trip_gives_the_offset() {
    let s = Source::new(String::new(), "one\ntwo three\n\nfour");
    for i in 0..=s.len() {
        let p = s.index_to_position(i);
        assert_eq!(s.position_to_index(p.row, p.col), i);
    }
}

#[test]
fn span_contains_and_merge() {
    let a = Span { start: 2, end: 5 };
    assert!(a.contains(2));
    assert!(a.contains(4));
    assert!(!a.contains(5));
    assert!(!a.contains(1));
    let b = Span { start: 4, end: 9 };
    assert_eq!(a.merge(b), Span { start: 2, end: 9 });
    let t = a.attach(7u32);
    assert_eq!(t.data, 7);
    assert!(t.contains(3));
}
