use vstd::prelude::*;
use crate::file::{FileCursor, FileCursorItem};
use crate::lemmas::{lemma_accumulated_bound, lemma_accumulated_monotone};

verus! {

/// How far around the current offset one read looks, in bytes.
pub const VIRTUAL_PAGE_SIZE: u64 = 8192;

/// The text that a byte sequence encodes as UTF-8, or `None` where it is not valid UTF-8.
pub uninterp spec fn utf8_text(b: Seq<u8>) -> Option<Seq<char>>;

/// Relies on `String::from_utf8`: it succeeds exactly on valid UTF-8, and the
/// string then holds the text that the bytes encode.
#[verifier::external_body]
fn decode_utf8(bytes: Vec<u8>) -> (r: Option<String>)
    ensures
        r is Some ==> utf8_text(bytes@) == Some(r->Some_0@),
        r is None ==> utf8_text(bytes@) is None,
{
    String::from_utf8(bytes).ok()
}

/// A line's bytes without the carriage return that may stand before its newline.
pub open spec fn strip_cr(b: Seq<u8>) -> Seq<u8> {
    if b.len() > 0 && b.last() == 13u8 {
        b.drop_last()
    } else {
        b
    }
}

/// The state after scanning the first `i` bytes: the lines already closed by a
/// newline, and where the line still open begins.
pub open spec fn scan_lines(d: Seq<u8>, i: nat) -> (Seq<Seq<u8>>, nat)
    decreases i,
{
    if i == 0 {
        (seq![], 0)
    } else {
        let (ls, s) = scan_lines(d, (i - 1) as nat);
        if d[i - 1] == 10u8 {
            (ls.push(strip_cr(d.subrange(s as int, i - 1))), i)
        } else {
            (ls, s)
        }
    }
}

/// The lines of `d`: split on newlines, the last one kept even without a newline.
#[verifier::opaque]
pub open spec fn split_lines(d: Seq<u8>) -> Seq<Seq<u8>> {
    let (ls, s) = scan_lines(d, d.len());
    if s < d.len() {
        ls.push(d.subrange(s as int, d.len() as int))
    } else {
        ls
    }
}

/// What a line shows: its text, or nothing where its bytes are not valid UTF-8.
pub open spec fn line_text(b: Seq<u8>) -> Seq<char> {
    match utf8_text(b) {
        Some(t) => t,
        None => seq![],
    }
}

/// The bytes a line counts for: its length, or 0 where it is not valid UTF-8.
pub open spec fn line_length(b: Seq<u8>) -> nat {
    if utf8_text(b) is Some {
        b.len()
    } else {
        0
    }
}

/// The shown text of each line of `d`.
pub open spec fn line_texts(d: Seq<u8>) -> Seq<Seq<char>> {
    split_lines(d).map_values(|b: Seq<u8>| line_text(b))
}

/// The counted length of each line of `d`.
pub open spec fn line_lengths(d: Seq<u8>) -> Seq<nat> {
    split_lines(d).map_values(|b: Seq<u8>| line_length(b))
}

/// The texts held by a vector of strings.
pub open spec fn texts_of(v: Seq<String>) -> Seq<Seq<char>> {
    v.map_values(|s: String| s@)
}

/// A vector of lengths as natural numbers.
pub open spec fn counts_of(v: Seq<u64>) -> Seq<nat> {
    v.map_values(|x: u64| x as nat)
}

/// The counted bytes of the first `k` lines, with one newline each.
pub open spec fn accumulated(lens: Seq<nat>, k: nat) -> nat
    decreases k,
{
    if k == 0 {
        0
    } else {
        accumulated(lens, (k - 1) as nat) + lens[k - 1] + 1
    }
}

/// Where the read around `c` begins: the page size before its current offset, or 0.
pub open spec fn window_start(c: FileCursor) -> nat {
    if c.current_line.cursor > VIRTUAL_PAGE_SIZE {
        (c.current_line.cursor - VIRTUAL_PAGE_SIZE) as nat
    } else {
        0
    }
}

/// How many bytes the read around `c` takes at most.
pub open spec fn window_count(c: FileCursor) -> nat {
    (c.current_line.cursor + VIRTUAL_PAGE_SIZE) as nat
}

/// The bytes of file `f` that a read around `c` gets.
pub open spec fn window_of(f: Seq<u8>, c: FileCursor) -> Seq<u8> {
    let s = if window_start(c) < f.len() { window_start(c) } else { f.len() };
    let e = if s + window_count(c) < f.len() { s + window_count(c) } else { f.len() };
    f.subrange(s as int, e as int)
}

/// The accumulated length that marks the current line in the window.
pub open spec fn threshold(c: FileCursor) -> nat {
    if window_start(c) == 0 {
        c.current_line.cursor as nat
    } else {
        VIRTUAL_PAGE_SIZE as nat
    }
}

/// The first index from `i` on whose accumulated length reaches `t`, or 0 if none does.
pub open spec fn first_reaching(lens: Seq<nat>, t: nat, i: nat) -> nat
    decreases lens.len() - i,
{
    if i >= lens.len() {
        0
    } else if accumulated(lens, i + 1) >= t {
        i
    } else {
        first_reaching(lens, t, i + 1)
    }
}

/// The last index from which a full page of `ws` lines out of `n` still fits, or 0.
pub open spec fn last_full_page(n: nat, ws: nat) -> nat {
    if n == 0 || ws > n {
        0
    } else if ws == 0 {
        (n - 1) as nat
    } else {
        (n - ws) as nat
    }
}

pub open spec fn min_nat(a: nat, b: nat) -> nat {
    if a <= b { a } else { b }
}

pub open spec fn dist(a: nat, b: nat) -> nat {
    if a <= b { (b - a) as nat } else { (a - b) as nat }
}

/// The local index of the current line among lines of counted lengths `lens`.
pub open spec fn anchor_of(c: FileCursor, lens: Seq<nat>) -> nat {
    first_reaching(lens, threshold(c), 0)
}

pub open spec fn last_of(c: FileCursor, lens: Seq<nat>) -> nat {
    last_full_page(lens.len(), c.window_size as nat)
}

/// The lines shown: from the anchor on, at most one page of them.
pub open spec fn page_of(c: FileCursor, texts: Seq<Seq<char>>, lens: Seq<nat>) -> Seq<Seq<char>> {
    let a = anchor_of(c, lens);
    texts.subrange(a as int, min_nat(lens.len(), (a + c.window_size) as nat) as int)
}

/// Whether no further page follows: no lines, or the anchor is the last full page.
pub open spec fn ends(c: FileCursor, lens: Seq<nat>) -> bool {
    lens.len() == 0 || anchor_of(c, lens) == last_of(c, lens)
}

/// The offset recorded for local index `i`: the accumulated length through it, or 0.
pub open spec fn offset_at(lens: Seq<nat>, i: nat) -> u64 {
    if i < lens.len() {
        accumulated(lens, i + 1) as u64
    } else {
        0
    }
}

/// A marker at local index `i`, its line index counted back from the current one.
pub open spec fn marker_behind(c: FileCursor, lens: Seq<nat>, i: nat) -> FileCursorItem {
    let back = dist(anchor_of(c, lens), i);
    FileCursorItem {
        cursor: offset_at(lens, i),
        line_index: if c.current_line.line_index >= back {
            (c.current_line.line_index - back) as u64
        } else {
            0
        },
    }
}

/// A marker at local index `i`, its line index counted on from the current one.
pub open spec fn marker_ahead(c: FileCursor, lens: Seq<nat>, i: nat) -> FileCursorItem {
    let on = dist(anchor_of(c, lens), i);
    FileCursorItem {
        cursor: offset_at(lens, i),
        line_index: if c.current_line.line_index + on <= u64::MAX {
            (c.current_line.line_index + on) as u64
        } else {
            u64::MAX
        },
    }
}

pub open spec fn prev_page_index(c: FileCursor, lens: Seq<nat>) -> nat {
    let a = anchor_of(c, lens);
    if a >= c.window_size { (a - c.window_size) as nat } else { 0 }
}

pub open spec fn prev_line_index(c: FileCursor, lens: Seq<nat>) -> nat {
    let a = anchor_of(c, lens);
    if a >= 1 { (a - 1) as nat } else { 0 }
}

pub open spec fn next_line_index(c: FileCursor, lens: Seq<nat>) -> nat {
    min_nat((anchor_of(c, lens) + 1) as nat, last_of(c, lens))
}

pub open spec fn next_page_index(c: FileCursor, lens: Seq<nat>) -> nat {
    min_nat((anchor_of(c, lens) + c.window_size) as nat, last_of(c, lens))
}

/// The cursor rebuilt from `c` over lines of counted lengths `lens`.
pub open spec fn cursor_after(c: FileCursor, lens: Seq<nat>) -> FileCursor {
    FileCursor {
        window_size: c.window_size,
        prev_page: marker_behind(c, lens, prev_page_index(c, lens)),
        prev_line: marker_behind(c, lens, prev_line_index(c, lens)),
        current_line: FileCursorItem {
            cursor: offset_at(lens, anchor_of(c, lens)),
            line_index: c.current_line.line_index,
        },
        next_line: marker_ahead(c, lens, next_line_index(c, lens)),
        next_page: marker_ahead(c, lens, next_page_index(c, lens)),
    }
}

/// The local index of the current line in window `d`.
pub open spec fn anchor_index(c: FileCursor, d: Seq<u8>) -> nat {
    anchor_of(c, line_lengths(d))
}

pub open spec fn last_index(c: FileCursor, d: Seq<u8>) -> nat {
    last_of(c, line_lengths(d))
}

/// The lines a read of window `d` around `c` shows.
pub open spec fn shown_lines(c: FileCursor, d: Seq<u8>) -> Seq<Seq<char>> {
    page_of(c, line_texts(d), line_lengths(d))
}

/// Whether a read of window `d` around `c` reports the end.
pub open spec fn at_end(c: FileCursor, d: Seq<u8>) -> bool {
    ends(c, line_lengths(d))
}

/// The cursor that a read of window `d` around `c` hands back.
pub open spec fn next_cursor(c: FileCursor, d: Seq<u8>) -> FileCursor {
    cursor_after(c, line_lengths(d))
}

/// The bytes `data[s..e]` as a vector of their own.
fn copy_bytes(data: &[u8], s: usize, e: usize) -> (r: Vec<u8>)
    requires
        s <= e <= data@.len(),
    ensures
        r@ == data@.subrange(s as int, e as int),
{
    let mut r: Vec<u8> = Vec::new();
    let mut k: usize = s;
    while k < e
        invariant
            s <= k <= e,
            e <= data@.len(),
            r@ == data@.subrange(s as int, k as int),
        decreases e - k,
    {
        r.push(data[k]);
        k = k + 1;
        assert(r@ =~= data@.subrange(s as int, k as int));
    }
    r
}

/// A line's text and the bytes it counts for.
fn decode_line(bytes: Vec<u8>) -> (r: (String, u64))
    ensures
        r.0@ == line_text(bytes@),
        r.1 == line_length(bytes@),
{
    let len = bytes.len() as u64;
    match decode_utf8(bytes) {
        Some(text) => (text, len),
        None => (String::new(), 0),
    }
}

proof fn lemma_texts_push(v: Seq<String>, x: String)
    ensures
        texts_of(v.push(x)) == texts_of(v).push(x@),
{
    let l = texts_of(v.push(x));
    let r = texts_of(v).push(x@);
    assert forall|j: int| 0 <= j < l.len() implies l[j] == r[j] by {
        if j < v.len() {
            assert(v.push(x)[j] == v[j]);
        } else {
            assert(v.push(x)[j] == x);
        }
    }
    assert(l =~= r);
}

proof fn lemma_counts_push(v: Seq<u64>, x: u64)
    ensures
        counts_of(v.push(x)) == counts_of(v).push(x as nat),
{
    assert(counts_of(v.push(x)) =~= counts_of(v).push(x as nat));
}

proof fn lemma_lines_push<T>(ls: Seq<Seq<u8>>, b: Seq<u8>, f: spec_fn(Seq<u8>) -> T)
    ensures
        ls.push(b).map_values(f) == ls.map_values(f).push(f(b)),
{
    assert(ls.push(b).map_values(f) =~= ls.map_values(f).push(f(b)));
}

/// The lines of `data`, each with its shown text and its counted length.
fn split_window(data: &[u8]) -> (r: (Vec<String>, Vec<u64>))
    ensures
        texts_of(r.0@) == line_texts(data@),
        counts_of(r.1@) == line_lengths(data@),
        r.0@.len() == r.1@.len(),
{
    let mut texts: Vec<String> = Vec::new();
    let mut lengths: Vec<u64> = Vec::new();
    let mut s: usize = 0;
    let mut i: usize = 0;
    while i < data.len()
        invariant
            i <= data@.len(),
            s <= i,
            scan_lines(data@, i as nat).1 == s,
            texts_of(texts@) == scan_lines(data@, i as nat).0.map_values(
                |b: Seq<u8>| line_text(b),
            ),
            counts_of(lengths@) == scan_lines(data@, i as nat).0.map_values(
                |b: Seq<u8>| line_length(b),
            ),
            texts@.len() == lengths@.len(),
        decreases data@.len() - i,
    {
        let ghost ls = scan_lines(data@, i as nat).0;
        if data[i] == 10u8 {
            let e: usize = if i > s && data[i - 1] == 13u8 {
                i - 1
            } else {
                i
            };
            let bytes = copy_bytes(data, s, e);
            proof {
                let chunk = data@.subrange(s as int, i as int);
                if i > s && data@[i - 1] == 13u8 {
                    assert(bytes@ =~= chunk.drop_last());
                } else {
                    assert(bytes@ =~= chunk);
                }
            }
            let ghost line = bytes@;
            let (text, len) = decode_line(bytes);
            let ghost (tv, lv) = (texts@, lengths@);
            proof {
                lemma_texts_push(tv, text);
                lemma_counts_push(lv, len);
                lemma_lines_push(ls, line, |b: Seq<u8>| line_text(b));
                lemma_lines_push(ls, line, |b: Seq<u8>| line_length(b));
            }
            texts.push(text);
            lengths.push(len);
            s = i + 1;
            assert(scan_lines(data@, (i + 1) as nat) == (ls.push(line), (i + 1) as nat));
        } else {
            assert(scan_lines(data@, (i + 1) as nat) == scan_lines(data@, i as nat));
        }
        i = i + 1;
    }
    let ghost ls = scan_lines(data@, i as nat).0;
    reveal(split_lines);
    if s < data.len() {
        let bytes = copy_bytes(data, s, data.len());
        let ghost line = bytes@;
        let (text, len) = decode_line(bytes);
        let ghost (tv, lv) = (texts@, lengths@);
        proof {
            lemma_texts_push(tv, text);
            lemma_counts_push(lv, len);
            lemma_lines_push(ls, line, |b: Seq<u8>| line_text(b));
            lemma_lines_push(ls, line, |b: Seq<u8>| line_length(b));
        }
        texts.push(text);
        lengths.push(len);
        assert(split_lines(data@) == ls.push(line));
    }
    (texts, lengths)
}

/// The offset recorded for local index `i`: its accumulated length, or 0 past the end.
fn offset_of(acc: &Vec<u64>, i: usize) -> (r: u64)
    ensures
        r == (if i < acc@.len() { acc@[i as int] } else { 0 }),
{
    if i < acc.len() {
        acc[i]
    } else {
        0
    }
}

/// The running sums of `lengths`, one newline counted after each.
fn accumulate(lengths: &Vec<u64>) -> (acc: Vec<u64>)
    requires
        accumulated(counts_of(lengths@), lengths@.len()) <= u64::MAX,
    ensures
        acc@.len() == lengths@.len(),
        forall|k: int|
            0 <= k < acc@.len() ==> #[trigger] acc@[k] == accumulated(
                counts_of(lengths@),
                (k + 1) as nat,
            ),
{
    let ghost lens = counts_of(lengths@);
    let mut acc: Vec<u64> = Vec::new();
    let mut total: u64 = 0;
    let mut j: usize = 0;
    while j < lengths.len()
        invariant
            j <= lengths@.len(),
            lens == counts_of(lengths@),
            accumulated(lens, lengths@.len()) <= u64::MAX,
            total == accumulated(lens, j as nat),
            acc@.len() == j,
            forall|k: int| 0 <= k < j ==> #[trigger] acc@[k] == accumulated(lens, (k + 1) as nat),
        decreases lengths@.len() - j,
    {
        proof {
            lemma_accumulated_monotone(lens, (j + 1) as nat, lengths@.len());
        }
        total = total + lengths[j] + 1;
        acc.push(total);
        j = j + 1;
    }
    acc
}

/// The first index whose accumulated length reaches `t`, or 0 if none does.
fn find_anchor(acc: &Vec<u64>, t: u64, Ghost(lens): Ghost<Seq<nat>>) -> (a: usize)
    requires
        acc@.len() == lens.len(),
        forall|k: int| 0 <= k < acc@.len() ==> #[trigger] acc@[k] == accumulated(lens, (k + 1) as nat),
    ensures
        a == first_reaching(lens, t as nat, 0),
        a < lens.len() || a == 0,
{
    let n = acc.len();
    let mut j: usize = 0;
    while j < n && acc[j] < t
        invariant
            j <= n,
            n == acc@.len(),
            n == lens.len(),
            forall|k: int| 0 <= k < acc@.len() ==> #[trigger] acc@[k] == accumulated(lens, (k + 1) as nat),
            first_reaching(lens, t as nat, 0) == first_reaching(lens, t as nat, j as nat),
        decreases n - j,
    {
        j = j + 1;
    }
    if j < n {
        j
    } else {
        0
    }
}

/// Copies of the texts at indices `a..end`.
fn page_lines(texts: &Vec<String>, a: usize, end: usize) -> (r: Vec<String>)
    requires
        a <= end <= texts@.len(),
    ensures
        texts_of(r@) == texts_of(texts@).subrange(a as int, end as int),
{
    let mut shown: Vec<String> = Vec::new();
    let mut k: usize = a;
    while k < end
        invariant
            a <= k <= end <= texts@.len(),
            texts_of(shown@) == texts_of(texts@).subrange(a as int, k as int),
        decreases end - k,
    {
        let item = texts[k].clone();
        proof {
            lemma_texts_push(shown@, item);
            assert(texts_of(texts@)[k as int] == item@);
            assert(texts_of(texts@).subrange(a as int, k + 1) =~= texts_of(texts@).subrange(
                a as int,
                k as int,
            ).push(item@));
        }
        shown.push(item);
        k = k + 1;
    }
    shown
}

/// The last index from which a full page of `ws` lines out of `n` fits, or 0.
fn last_page_start(n: usize, ws: usize) -> (r: usize)
    ensures
        r == last_full_page(n as nat, ws as nat),
{
    if n == 0 || ws > n {
        0
    } else if ws == 0 {
        n - 1
    } else {
        n - ws
    }
}

/// The distance between two indices, as a line count.
fn gap(x: usize, y: usize) -> (r: u64)
    ensures
        r == dist(x as nat, y as nat),
{
    if x <= y {
        (y - x) as u64
    } else {
        (x - y) as u64
    }
}

/// The cursor rebuilt around the anchor `a` of lines of counted lengths `lens`,
/// whose accumulated lengths are `acc`.
fn rebuild(c: FileCursor, acc: &Vec<u64>, a: usize, Ghost(lens): Ghost<Seq<nat>>) -> (r: FileCursor)
    requires
        acc@.len() == lens.len(),
        forall|k: int| 0 <= k < acc@.len() ==> #[trigger] acc@[k] == accumulated(lens, (k + 1) as nat),
        a == anchor_of(c, lens),
        a < acc@.len() || a == 0,
    ensures
        r == cursor_after(c, lens),
{
    let n = acc.len();
    let ws = c.window_size;
    let last = last_page_start(n, ws);
    let pp: usize = if a >= ws {
        a - ws
    } else {
        0
    };
    let pl: usize = if a >= 1 {
        a - 1
    } else {
        0
    };
    let nl: usize = if a + 1 <= last {
        a + 1
    } else {
        last
    };
    let np: usize = if a <= last && ws <= last - a {
        a + ws
    } else {
        last
    };
    assert(pp == prev_page_index(c, lens));
    assert(pl == prev_line_index(c, lens));
    assert(nl == next_line_index(c, lens));
    assert(np == next_page_index(c, lens));
    let li = c.current_line.line_index;
    let prev_page = FileCursorItem {
        cursor: offset_of(acc, pp),
        line_index: li.saturating_sub(gap(a, pp)),
    };
    let prev_line = FileCursorItem {
        cursor: offset_of(acc, pl),
        line_index: li.saturating_sub(gap(a, pl)),
    };
    let current_line = FileCursorItem { cursor: offset_of(acc, a), line_index: li };
    let next_line = FileCursorItem {
        cursor: offset_of(acc, nl),
        line_index: li.saturating_add(gap(a, nl)),
    };
    let next_page = FileCursorItem {
        cursor: offset_of(acc, np),
        line_index: li.saturating_add(gap(a, np)),
    };
    assert(prev_page == marker_behind(c, lens, pp as nat));
    assert(prev_line == marker_behind(c, lens, pl as nat));
    assert(current_line.cursor == offset_at(lens, a as nat));
    assert(next_line == marker_ahead(c, lens, nl as nat));
    assert(next_page == marker_ahead(c, lens, np as nat));
    FileCursor { window_size: ws, prev_page, prev_line, current_line, next_line, next_page }
}

impl FileCursor {
    /// Where a read for this cursor goes: the offset it starts at, and the most bytes it takes.
    pub fn window_bounds(&self) -> (r: (u64, u64))
        requires
            self.current_line.cursor <= u64::MAX - VIRTUAL_PAGE_SIZE,
        ensures
            r.0 == window_start(*self),
            r.1 == window_count(*self),
    {
        let start: u64 = if self.current_line.cursor > VIRTUAL_PAGE_SIZE {
            self.current_line.cursor - VIRTUAL_PAGE_SIZE
        } else {
            0
        };
        (start, self.current_line.cursor + VIRTUAL_PAGE_SIZE)
    }

    /// Places this cursor among decoded lines, given as their shown `texts` and
    /// their counted `lengths`: the lines to show, whether no further page
    /// follows, and the cursor rebuilt around them.
    pub fn read_lines(self, texts: &Vec<String>, lengths: &Vec<u64>) -> (r: (
        Vec<String>,
        bool,
        FileCursor,
    ))
        requires
            texts@.len() == lengths@.len(),
            accumulated(counts_of(lengths@), lengths@.len()) <= u64::MAX,
        ensures
            texts_of(r.0@) == page_of(self, texts_of(texts@), counts_of(lengths@)),
            r.1 == ends(self, counts_of(lengths@)),
            r.2 == cursor_after(self, counts_of(lengths@)),
    {
        let ghost lens = counts_of(lengths@);
        let acc = accumulate(lengths);
        let n = acc.len();
        let t: u64 = if self.current_line.cursor > VIRTUAL_PAGE_SIZE {
            VIRTUAL_PAGE_SIZE
        } else {
            self.current_line.cursor
        };
        assert(t == threshold(self));
        let a = find_anchor(&acc, t, Ghost(lens));
        let ws = self.window_size;
        let last = last_page_start(n, ws);
        let eof = n == 0 || a == last;
        let end: usize = if ws <= n - a {
            a + ws
        } else {
            n
        };
        let shown = page_lines(texts, a, end);
        let next = rebuild(self, &acc, a, Ghost(lens));
        (shown, eof, next)
    }

    /// Reads the window `data`, the bytes taken from `window_bounds`: the lines to
    /// show, whether no further page follows, and the cursor rebuilt around them.
    pub fn read_window(self, data: &[u8]) -> (r: (Vec<String>, bool, FileCursor))
        requires
            data@.len() < u64::MAX,
        ensures
            texts_of(r.0@) == shown_lines(self, data@),
            r.1 == at_end(self, data@),
            r.2 == next_cursor(self, data@),
    {
        let (texts, lengths) = split_window(data);
        proof {
            lemma_accumulated_bound(data@, line_lengths(data@).len());
        }
        self.read_lines(&texts, &lengths)
    }

    /// Range-Read over a whole file held in `file`: takes the window that
    /// `window_bounds` names and reads it.
    pub fn read_from(self, file: &[u8]) -> (r: (Vec<String>, bool, FileCursor))
        requires
            file@.len() < u64::MAX,
        ensures
            texts_of(r.0@) == shown_lines(self, window_of(file@, self)),
            r.1 == at_end(self, window_of(file@, self)),
            r.2 == next_cursor(self, window_of(file@, self)),
    {
        let len = file.len();
        let start: u64 = if self.current_line.cursor > VIRTUAL_PAGE_SIZE {
            self.current_line.cursor - VIRTUAL_PAGE_SIZE
        } else {
            0
        };
        let s: usize = if start < len as u64 {
            start as usize
        } else {
            len
        };
        let rem = (len - s) as u64;
        let e: usize = if rem <= VIRTUAL_PAGE_SIZE || self.current_line.cursor >= rem
            - VIRTUAL_PAGE_SIZE {
            len
        } else {
            s + (self.current_line.cursor + VIRTUAL_PAGE_SIZE) as usize
        };
        let window = copy_bytes(file, s, e);
        assert(window@ == window_of(file@, self));
        self.read_window(window.as_slice())
    }
}

} // verus!
