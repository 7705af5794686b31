use file_pager::arguments::Args;
use file_pager::file::{FileCursor, FileCursorItem};
use file_pager::window::VIRTUAL_PAGE_SIZE;

fn numbered_file(n: usize) -> Vec<u8> {
    let mut f = Vec::new();
    for i in 1..=n {
        f.extend_from_slice(format!("line {}\n", i).as_bytes());
    }
    f
}

fn numbered_lines(from: usize, to: usize) -> Vec<String> {
    (from..=to).map(|i| format!("line {}", i)).collect()
}

fn item(cursor: u64, line_index: u64) -> FileCursorItem {
    FileCursorItem { cursor, line_index }
}

/// Offset of the end of line `k` (1-based) in `numbered_file`.
fn end_of_line(k: usize) -> u64 {
    numbered_file(k).len() as u64
}

#[test]
fn new_cursor_is_at_origin() {
    let c = FileCursor::new(7);
    assert_eq!(c.window_size, 7);
    for m in [c.prev_page, c.prev_line, c.current_line, c.next_line, c.next_page] {
        assert_eq!(m, item(0, 0));
    }
}

#[test]
fn from_copies_every_field() {
    let c = FileCursor {
        window_size: 3,
        prev_line: item(1, 2),
        prev_page: item(3, 4),
        current_line: item(5, 6),
        next_line: item(7, 8),
        next_page: item(9, 10),
    };
    assert_eq!(FileCursor::from(c), c);
}

#[test]
fn navigation_promotes_one_marker() {
    let c = FileCursor {
        window_size: 3,
        prev_line: item(1, 2),
        prev_page: item(3, 4),
        current_line: item(5, 6),
        next_line: item(7, 8),
        next_page: item(9, 10),
    };
    let up = c.to_prev_line();
    assert_eq!(up.current_line, item(1, 2));
    assert_eq!(up.next_page, c.next_page);
    assert_eq!(up.prev_line, c.prev_line);
    assert_eq!(c.to_prev_page().current_line, item(3, 4));
    assert_eq!(c.to_next_line().current_line, item(7, 8));
    let down = c.to_next_page();
    assert_eq!(down.current_line, item(9, 10));
    assert_eq!(down.window_size, 3);
    assert_eq!(down.prev_page, c.prev_page);
}

#[test]
fn scenario_hundred_lines_first_pages() {
    let f = numbered_file(100);
    let (lines, eof, mut c) = FileCursor::new(10).read_from(&f);
    assert_eq!(lines, numbered_lines(1, 10));
    assert!(!eof);
    assert_eq!(c.current_line.line_index, 0);
    let mut shown = lines;
    for _ in 0..4 {
        let (l, e, n) = c.to_next_page().read_from(&f);
        assert!(!e);
        shown = l;
        c = n;
    }
    assert_eq!(shown, numbered_lines(41, 50));
    assert_eq!(c.current_line, item(end_of_line(41), 40));
}

#[test]
fn scenario_hundred_lines_last_page_clamps() {
    let f = numbered_file(100);
    let (_, _, mut c) = FileCursor::new(10).read_from(&f);
    let mut last = (Vec::new(), false);
    for _ in 0..9 {
        let (l, e, n) = c.to_next_page().read_from(&f);
        last = (l, e);
        c = n;
    }
    assert_eq!(last.0, numbered_lines(91, 100));
    assert!(last.1);
    assert_eq!(c.next_page, c.current_line);
    assert_eq!(c.next_line, c.current_line);
    let (l, e, n) = c.to_next_page().read_from(&f);
    assert_eq!(l, numbered_lines(91, 100));
    assert!(e);
    assert_eq!(n.current_line, c.current_line);
}

#[test]
fn scenario_empty_file() {
    let (lines, eof, c) = FileCursor::new(10).read_from(&[]);
    assert!(lines.is_empty());
    assert!(eof);
    for m in [c.prev_page, c.prev_line, c.current_line, c.next_line, c.next_page] {
        assert_eq!(m, item(0, 0));
    }
}

#[test]
fn read_twice_gives_the_same_result() {
    let f = numbered_file(40);
    let c = FileCursor::new(6).read_from(&f).2.to_next_page();
    let first = c.read_from(&f);
    let second = c.read_from(&f);
    assert_eq!(first, second);
}

#[test]
fn top_of_file_clamps_previous_markers() {
    let f = numbered_file(30);
    let (_, _, c) = FileCursor::new(5).read_from(&f);
    assert_eq!(c.prev_line, c.current_line);
    assert_eq!(c.prev_page, c.current_line);
    assert_eq!(c.current_line, item(end_of_line(1), 0));
    assert_eq!(c.next_line, item(end_of_line(2), 1));
    assert_eq!(c.next_page, item(end_of_line(6), 5));
}

#[test]
fn short_file_shows_fewer_lines_and_ends() {
    let f = numbered_file(4);
    let (lines, eof, c) = FileCursor::new(10).read_from(&f);
    assert_eq!(lines, numbered_lines(1, 4));
    assert!(eof);
    assert_eq!(c.next_page, c.current_line);
}

#[test]
fn page_shows_at_most_window_size_lines() {
    let f = numbered_file(25);
    let (lines, _, c) = FileCursor::new(7).read_from(&f);
    assert_eq!(lines.len(), 7);
    let (_, _, c) = c.to_next_page().read_from(&f);
    let (_, _, c) = c.to_next_page().read_from(&f);
    let (lines, eof, _) = c.to_next_page().read_from(&f);
    assert_eq!(lines, numbered_lines(19, 25));
    assert!(eof);
}

#[test]
fn next_then_previous_page_returns() {
    let f = numbered_file(60);
    let (_, _, c0) = FileCursor::new(8).read_from(&f);
    let (_, _, c) = c0.to_next_line().read_from(&f);
    let (_, _, c) = c.to_next_line().read_from(&f);
    assert_eq!(c.current_line, item(end_of_line(3), 2));
    let (_, _, c2) = c.to_next_page().read_from(&f);
    assert_eq!(c2.current_line, item(end_of_line(11), 10));
    let (_, _, c3) = c2.to_prev_page().read_from(&f);
    assert_eq!(c3.current_line, c.current_line);
}

#[test]
fn previous_line_steps_back() {
    let f = numbered_file(20);
    let (_, _, c) = FileCursor::new(5).read_from(&f);
    let (_, _, c) = c.to_next_line().read_from(&f);
    let (_, _, c) = c.to_next_line().read_from(&f);
    let (lines, _, c) = c.to_prev_line().read_from(&f);
    assert_eq!(lines, numbered_lines(2, 6));
    assert_eq!(c.current_line.line_index, 1);
}

#[test]
fn invalid_utf8_line_shows_empty_and_counts_one() {
    let f: Vec<u8> = vec![b'a', b'\n', 0xff, 0xfe, b'\n', b'b', b'c', b'\n'];
    let (lines, eof, c) = FileCursor::new(3).read_from(&f);
    assert_eq!(lines, vec!["a".to_string(), String::new(), "bc".to_string()]);
    assert!(eof);
    let (_, _, c) = c.to_next_line().read_from(&f);
    assert_eq!(c.current_line.cursor, 2);
    let mut d = c;
    d.current_line = item(3, 1);
    let (lines, _, e) = d.read_from(&f);
    assert_eq!(lines, vec![String::new(), "bc".to_string()]);
    assert_eq!(e.current_line, item(3, 1));
    d.current_line = item(4, 1);
    let (lines, _, e) = d.read_from(&f);
    assert_eq!(lines, vec!["bc".to_string()]);
    assert_eq!(e.current_line, item(6, 1));
}

#[test]
fn carriage_return_before_newline_is_dropped() {
    let f = b"ab\r\ncd\r\nef".to_vec();
    let (lines, eof, c) = FileCursor::new(5).read_from(&f);
    assert_eq!(lines, vec!["ab".to_string(), "cd".to_string(), "ef".to_string()]);
    assert!(eof);
    assert_eq!(c.current_line, item(3, 0));
    let mut d = c;
    d.current_line = item(4, 1);
    let (lines, _, e) = d.read_from(&f);
    assert_eq!(lines, vec!["cd".to_string(), "ef".to_string()]);
    assert_eq!(e.current_line, item(6, 1));
    assert_eq!(e.prev_line, item(3, 0));
}

#[test]
fn window_bounds_near_start_and_far_in() {
    assert_eq!(FileCursor::new(3).window_bounds(), (0, VIRTUAL_PAGE_SIZE));
    let mut c = FileCursor::new(3);
    c.current_line = item(10000, 5);
    assert_eq!(c.window_bounds(), (10000 - 8192, 10000 + 8192));
    c.current_line = item(8192, 5);
    assert_eq!(c.window_bounds(), (0, 16384));
}

#[test]
fn window_away_from_start_anchors_at_page_size() {
    let mut f = Vec::new();
    for _ in 0..2000 {
        f.extend_from_slice(b"xxxxxxxxx\n");
    }
    let mut c = FileCursor::new(10);
    c.current_line = item(10000, 1000);
    let (lines, eof, n) = c.read_from(&f);
    assert_eq!(lines, vec!["xxxxxxxxx".to_string(); 10]);
    assert!(!eof);
    assert_eq!(n.current_line, item(8192, 1000));
    assert_eq!(n.prev_line, item(8182, 999));
    assert_eq!(n.prev_page, item(8092, 990));
    assert_eq!(n.next_line, item(8202, 1001));
    assert_eq!(n.next_page, item(8292, 1010));
}

#[test]
fn read_window_matches_read_from() {
    let f = numbered_file(50);
    let c = FileCursor::new(10).read_from(&f).2.to_next_page();
    let (start, count) = c.window_bounds();
    let s = (start as usize).min(f.len());
    let e = (s + count as usize).min(f.len());
    assert_eq!(c.read_window(&f[s..e]), c.read_from(&f));
}

#[test]
fn line_index_saturates_at_zero() {
    let f = numbered_file(30);
    let mut c = FileCursor::new(10);
    c.current_line = item(end_of_line(15), 2);
    let (lines, _, n) = c.read_from(&f);
    assert_eq!(lines, numbered_lines(15, 24));
    assert_eq!(n.prev_page, item(end_of_line(5), 0));
    assert_eq!(n.prev_line, item(end_of_line(14), 1));
}

fn owned(v: &[&str]) -> Vec<String> {
    v.iter().map(|s| s.to_string()).collect()
}

#[test]
fn read_lines_places_cursor_among_decoded_lines() {
    let texts = owned(&["a", "b", "c"]);
    let lengths = vec![1u64, 1, 1];
    let (shown, eof, n) = FileCursor::new(2).read_lines(&texts, &lengths);
    assert_eq!(shown, owned(&["a", "b"]));
    assert!(!eof);
    assert_eq!(n.current_line, item(2, 0));
    assert_eq!(n.next_line, item(4, 1));
    assert_eq!(n.next_page, item(4, 1));
    assert_eq!(n.prev_page, item(2, 0));
}

#[test]
fn read_lines_with_no_lines_ends() {
    let mut c = FileCursor::new(4);
    c.current_line = item(0, 7);
    let (shown, eof, n) = c.read_lines(&Vec::new(), &Vec::new());
    assert!(shown.is_empty());
    assert!(eof);
    assert_eq!(n.current_line, item(0, 7));
    assert_eq!(n.next_page, item(0, 7));
}

#[test]
fn read_lines_counts_lengths_not_texts() {
    let texts = owned(&["x", "", "y", "z"]);
    let lengths = vec![5u64, 0, 2, 3];
    let mut c = FileCursor::new(1);
    c.current_line = item(7, 3);
    let (shown, eof, n) = c.read_lines(&texts, &lengths);
    assert_eq!(shown, owned(&[""]));
    assert!(!eof);
    assert_eq!(n.current_line, item(7, 3));
    assert_eq!(n.prev_line, item(6, 2));
    assert_eq!(n.next_line, item(10, 4));
    assert_eq!(n.next_page, item(10, 4));
}

#[test]
fn window_size_takes_the_smaller_bound() {
    let a = Args { lines: Some(10), path: "f".to_string() };
    assert_eq!(a.window_size(40), 10);
    assert_eq!(a.window_size(8), 6);
    let b = Args { lines: None, path: "f".to_string() };
    assert_eq!(b.window_size(24), 22);
    let c = Args { lines: Some(-3), path: "f".to_string() };
    assert_eq!(c.window_size(24), -3);
}
