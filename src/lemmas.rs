use vstd::prelude::*;
use crate::file::{FileCursor, with_current};
use crate::window::{
    accumulated, anchor_index, at_end, first_reaching, last_index, line_length, line_lengths,
    next_cursor, next_page_index, offset_at, prev_page_index, scan_lines, shown_lines,
    split_lines, strip_cr, threshold, window_of, VIRTUAL_PAGE_SIZE,
};

verus! {

/// The cursor that Range-Read hands back for cursor `c` over file `f`.
pub open spec fn read_file(c: FileCursor, f: Seq<u8>) -> FileCursor {
    next_cursor(c, window_of(f, c))
}

proof fn lemma_first_reaching_bound(lens: Seq<nat>, t: nat, i: nat)
    ensures
        first_reaching(lens, t, i) < lens.len() || first_reaching(lens, t, i) == 0,
    decreases lens.len() - i,
{
    if i < lens.len() && accumulated(lens, i + 1) < t {
        lemma_first_reaching_bound(lens, t, i + 1);
    }
}

proof fn lemma_accumulated_increasing(lens: Seq<nat>, k: nat, m: nat)
    requires
        k < m,
    ensures
        accumulated(lens, k) < accumulated(lens, m),
    decreases m,
{
    if k + 1 < m {
        lemma_accumulated_increasing(lens, k, (m - 1) as nat);
    }
}

pub(crate) proof fn lemma_accumulated_monotone(lens: Seq<nat>, k: nat, m: nat)
    requires
        k <= m,
    ensures
        accumulated(lens, k) <= accumulated(lens, m),
{
    if k < m {
        lemma_accumulated_increasing(lens, k, m);
    }
}

/// The accumulated length that ends line `q` finds line `q` again.
proof fn lemma_first_reaching_at(lens: Seq<nat>, q: nat, i: nat)
    requires
        i <= q < lens.len(),
    ensures
        first_reaching(lens, accumulated(lens, q + 1), i) == q,
    decreases q - i,
{
    if i < q {
        lemma_accumulated_increasing(lens, i + 1, q + 1);
        lemma_first_reaching_at(lens, q, i + 1);
    }
}

proof fn lemma_accumulated_push(lens: Seq<nat>, x: nat, k: nat)
    requires
        k <= lens.len(),
    ensures
        accumulated(lens.push(x), k) == accumulated(lens, k),
    decreases k,
{
    if k > 0 {
        lemma_accumulated_push(lens, x, (k - 1) as nat);
        assert(lens.push(x)[k - 1] == lens[k - 1]);
    }
}

/// Appending a line of bytes `b` to `ls` adds at most its length and a newline.
proof fn lemma_push_line(ls: Seq<Seq<u8>>, b: Seq<u8>)
    ensures
        accumulated(
            ls.push(b).map_values(|x: Seq<u8>| line_length(x)),
            ls.len() + 1,
        ) <= accumulated(ls.map_values(|x: Seq<u8>| line_length(x)), ls.len()) + b.len() + 1,
{
    let lens = ls.map_values(|x: Seq<u8>| line_length(x));
    assert(ls.push(b).map_values(|x: Seq<u8>| line_length(x)) =~= lens.push(line_length(b)));
    lemma_accumulated_push(lens, line_length(b), ls.len());
}

proof fn lemma_scan_bound(d: Seq<u8>, i: nat)
    requires
        i <= d.len(),
    ensures
        scan_lines(d, i).1 <= i,
        accumulated(
            scan_lines(d, i).0.map_values(|x: Seq<u8>| line_length(x)),
            scan_lines(d, i).0.len(),
        ) <= scan_lines(d, i).1,
    decreases i,
{
    if i > 0 {
        lemma_scan_bound(d, (i - 1) as nat);
        let (ls, s) = scan_lines(d, (i - 1) as nat);
        if d[i - 1] == 10u8 {
            lemma_push_line(ls, strip_cr(d.subrange(s as int, i - 1)));
        }
    }
}

/// No accumulated length in a window goes past one byte beyond its end.
pub(crate) proof fn lemma_accumulated_bound(d: Seq<u8>, k: nat)
    requires
        k <= line_lengths(d).len(),
    ensures
        accumulated(line_lengths(d), k) <= d.len() + 1,
{
    reveal(split_lines);
    lemma_scan_bound(d, d.len());
    let (sl, s) = scan_lines(d, d.len());
    if s < d.len() {
        lemma_push_line(sl, d.subrange(s as int, d.len() as int));
    }
    lemma_accumulated_monotone(line_lengths(d), k, line_lengths(d).len());
}

/// Range-Read is a function of the cursor and the file's bytes: reading twice
/// with the same cursor over an unchanged file gives the same lines, the same
/// end flag and the same cursor.
pub proof fn lemma_read_repeatable(c: FileCursor, f: Seq<u8>, c2: FileCursor, f2: Seq<u8>)
    requires
        c2 == c,
        f2 == f,
    ensures
        shown_lines(c2, window_of(f2, c2)) == shown_lines(c, window_of(f, c)),
        at_end(c2, window_of(f2, c2)) == at_end(c, window_of(f, c)),
        read_file(c2, f2) == read_file(c, f),
{
}

/// From a cursor at offset 0, the rebuilt previous line and previous page are
/// the current line itself.
pub proof fn lemma_top_clamp(c: FileCursor, f: Seq<u8>)
    requires
        c.current_line.cursor == 0,
    ensures
        read_file(c, f).prev_line == read_file(c, f).current_line,
        read_file(c, f).prev_page == read_file(c, f).current_line,
{
    assert(threshold(c) == 0);
    assert(anchor_index(c, window_of(f, c)) == 0);
}

/// When the current line opens the last full page of the window, the next line
/// and the next page are the current line, and the read reports the end.
pub proof fn lemma_bottom_clamp(c: FileCursor, f: Seq<u8>)
    requires
        anchor_index(c, window_of(f, c)) == last_index(c, window_of(f, c)),
    ensures
        read_file(c, f).next_line == read_file(c, f).current_line,
        read_file(c, f).next_page == read_file(c, f).current_line,
        at_end(c, window_of(f, c)),
{
}

/// At most a page of lines is shown, and fewer only where fewer lines remain
/// from the current one to the end of the window.
pub proof fn lemma_window_bound(c: FileCursor, f: Seq<u8>)
    ensures
        shown_lines(c, window_of(f, c)).len() <= c.window_size,
        shown_lines(c, window_of(f, c)).len() < c.window_size ==> split_lines(
            window_of(f, c),
        ).len() - anchor_index(c, window_of(f, c)) < c.window_size,
{
    let d = window_of(f, c);
    lemma_first_reaching_bound(line_lengths(d), threshold(c), 0);
}

/// In a file shorter than the page size every read takes the whole file from
/// its start.
proof fn lemma_small_file_window(c: FileCursor, f: Seq<u8>)
    requires
        f.len() < VIRTUAL_PAGE_SIZE,
        c.current_line.cursor <= VIRTUAL_PAGE_SIZE,
    ensures
        window_of(f, c) == f,
        threshold(c) == c.current_line.cursor,
{
    assert(window_of(f, c) =~= f);
}

/// Range-Read in a file shorter than the page size, from a cursor whose current
/// offset ends line `q`, finds line `q` again.
proof fn lemma_small_file_anchor(c: FileCursor, f: Seq<u8>, q: nat)
    requires
        f.len() < VIRTUAL_PAGE_SIZE,
        q < line_lengths(f).len(),
        c.current_line.cursor == offset_at(line_lengths(f), q),
    ensures
        window_of(f, c) == f,
        anchor_index(c, f) == q,
{
    lemma_accumulated_bound(f, q + 1);
    lemma_small_file_window(c, f);
    lemma_first_reaching_at(line_lengths(f), q, 0);
}

/// Paging forward and then back returns to the same line. This holds from a
/// cursor that a read at an offset within the first page has rebuilt, in a file
/// shorter than the page size, where a full page follows the current one, and
/// where the line count does not saturate.
pub proof fn lemma_page_round_trip(c0: FileCursor, f: Seq<u8>)
    requires
        f.len() < VIRTUAL_PAGE_SIZE,
        c0.current_line.cursor <= VIRTUAL_PAGE_SIZE,
        anchor_index(c0, window_of(f, c0)) + c0.window_size <= last_index(c0, window_of(f, c0)),
        c0.current_line.line_index + c0.window_size <= u64::MAX,
    ensures
        ({
            let c = read_file(c0, f);
            let c2 = read_file(with_current(c, c.next_page), f);
            read_file(with_current(c2, c2.prev_page), f).current_line == c.current_line
        }),
{
    lemma_small_file_window(c0, f);
    let ls = line_lengths(f);
    let ws = c0.window_size;
    let a = anchor_index(c0, f);
    let c = read_file(c0, f);
    let c1 = with_current(c, c.next_page);
    let c2 = read_file(c1, f);
    let c3 = with_current(c2, c2.prev_page);
    if ls.len() == 0 {
        assert(a == 0);
        assert(c.next_page.cursor == 0);
        lemma_small_file_window(c1, f);
        assert(anchor_index(c1, f) == 0);
        lemma_small_file_window(c3, f);
        assert(anchor_index(c3, f) == 0);
    } else {
        let p = (a + ws) as nat;
        assert(next_page_index(c0, ls) == p);
        assert(p < ls.len());
        lemma_small_file_anchor(c1, f, p);
        assert(prev_page_index(c1, ls) == a);
        lemma_small_file_anchor(c3, f, a);
    }
}

} // verus!
