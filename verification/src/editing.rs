//! Editing helpers of the note editor: the estimated height of a wrapped
//! line, whole-word search, checklist toggling, wrapping a selection in a
//! wiki link and inserting text at the cursor.

use crate::edtui::line_wrapper::{char_width, char_width_spec};
use crate::edtui::{
    index_le, join_rows, lines_from_chars, rows, rows_without_newline, EditorMode, EditorModel,
    EditorState, Index2,
};
use crate::highlight::paint::Highlight;
use crate::style::{plain_style, Color, Style};
use crate::text::{
    char_is_alphanumeric, first_non_ws, leading_ws, matches_at, occurs_at, str_to_chars,
    unicode_alphanumeric,
};
use vstd::prelude::*;

verus! {

/// Total display width of `line[a..b)`.
pub open spec fn range_width(line: Seq<char>, a: int, b: int, tab: nat) -> int
    decreases b - a,
{
    if b <= a {
        0
    } else {
        range_width(line, a, b - 1, tab) + char_width_spec(line[b - 1], tab)
    }
}

/// Offset from `a` of the last space in `line[a..b)`.
pub open spec fn range_last_space(line: Seq<char>, a: int, b: int) -> Option<int>
    decreases b - a,
{
    if b <= a {
        None
    } else if line[b - 1] == ' ' {
        Some(b - 1 - a)
    } else {
        range_last_space(line, a, b - 1)
    }
}

/// The state of the line-height estimate: rows completed, width of the
/// current row, offset of its last space, and its length in characters.
pub struct HeightState {
    pub rows: int,
    pub width: int,
    pub last_space: Option<int>,
    pub chunk: int,
}

/// The estimate after taking character `i`. When it does not fit on the
/// current row, the row is closed: after the row's last space if there is
/// one (the characters after it move to the new row), else right before it.
pub open spec fn height_step(line: Seq<char>, tab: nat, max: int, st: HeightState, i: int) -> HeightState {
    let c = line[i];
    let w = char_width_spec(c, tab) as int;
    if st.width + w > max {
        match st.last_space {
            Some(sp) => {
                let a = i - (st.chunk - 1 - sp);
                HeightState {
                    rows: st.rows + 1,
                    width: range_width(line, a, i + 1, tab),
                    last_space: range_last_space(line, a, i + 1),
                    chunk: i + 1 - a,
                }
            },
            None => HeightState {
                rows: st.rows + 1,
                width: w,
                last_space: if c == ' ' { Some(0) } else { None },
                chunk: 1,
            },
        }
    } else {
        HeightState {
            rows: st.rows,
            width: st.width + w,
            last_space: if c == ' ' { Some(st.chunk) } else { st.last_space },
            chunk: st.chunk + 1,
        }
    }
}

/// The estimate after the first `n` characters.
pub open spec fn height_run(line: Seq<char>, tab: nat, max: int, n: int) -> HeightState
    decreases n,
{
    if n <= 0 {
        HeightState { rows: 0, width: 0, last_space: None, chunk: 0 }
    } else {
        height_step(line, tab, max, height_run(line, tab, max, n - 1), n - 1)
    }
}

/// How many screen rows `line` takes when wrapped at `max` columns: at
/// least one, and one for an empty line or a zero width.
pub open spec fn line_height_spec(line: Seq<char>, max: int, tab: nat) -> int {
    if line.len() == 0 || max == 0 {
        1
    } else {
        let st = height_run(line, tab, max, line.len() as int);
        let n = st.rows + if st.width > 0 { 1int } else { 0int };
        if n < 1 { 1 } else { n }
    }
}

/// The widest a character can be: a tab, or a Unicode width (at most 255).
pub open spec fn widest(tab: nat) -> int {
    tab as int + 255
}

proof fn lemma_range_width_bound(line: Seq<char>, a: int, b: int, tab: nat)
    requires
        0 <= a <= b <= line.len(),
        forall|j: int| a <= j < b ==> char_width_spec(#[trigger] line[j], tab) <= widest(tab),
    ensures
        0 <= range_width(line, a, b, tab) <= (b - a) * widest(tab),
    decreases b - a,
{
    if b > a {
        lemma_range_width_bound(line, a, b - 1, tab);
        let w = widest(tab);
        assert((b - 1 - a) * w + w == (b - a) * w) by (nonlinear_arith);
    }
}

proof fn lemma_range_last_space(line: Seq<char>, a: int, b: int)
    requires
        a <= b,
    ensures
        range_last_space(line, a, b) matches Some(sp) ==> 0 <= sp < b - a,
    decreases b - a,
{
    if b > a {
        lemma_range_last_space(line, a, b - 1);
    }
}

/// Estimated number of screen rows `line` takes when wrapped at
/// `max_width` columns with tabs `tab_width` wide.
pub fn estimate_line_height(line: &[char], max_width: usize, tab_width: usize) -> (n: usize)
    requires
        (line@.len() + 1) * (tab_width + 255) <= usize::MAX,
    ensures
        n == line_height_spec(line@, max_width as int, tab_width as nat),
{
    if line.len() == 0 {
        return 1;
    }
    if max_width == 0 {
        return 1;
    }
    let ghost tab = tab_width as nat;
    let ghost big = widest(tab);
    let mut num_lines: usize = 0;
    let mut current_width: usize = 0;
    let mut last_space: Option<usize> = None;
    let mut chunk_len: usize = 0;
    let mut i: usize = 0;
    while i < line.len()
        invariant
            i <= line@.len(),
            tab == tab_width as nat,
            big == widest(tab),
            (line@.len() + 1) * (tab_width + 255) <= usize::MAX,
            forall|j: int| 0 <= j < i ==> char_width_spec(#[trigger] line@[j], tab) <= widest(tab),
            ({
                let st = height_run(line@, tab, max_width as int, i as int);
                &&& st.rows == num_lines
                &&& st.width == current_width
                &&& st.chunk == chunk_len
                &&& st.last_space == (match last_space { Some(s) => Some(s as int), None => None::<int> })
            }),
            chunk_len <= i,
            num_lines <= i,
            current_width <= chunk_len * big,
            last_space matches Some(s) ==> s < chunk_len,
        decreases line.len() - i,
    {
        let ch = line[i];
        let ch_w = char_width(ch, tab_width);
        assert(chunk_len * big + big <= (line@.len() + 1) * big) by (nonlinear_arith)
            requires
                chunk_len <= i,
                i < line@.len(),
                big >= 0;
        if current_width + ch_w > max_width {
            match last_space {
                Some(space_idx) => {
                    num_lines += 1;
                    let in_next = chunk_len - 1 - space_idx;
                    let start = i - in_next;
                    let mut w: usize = 0;
                    let mut ls: Option<usize> = None;
                    let mut k: usize = start;
                    proof {
                        lemma_range_width_bound(line@, start as int, i + 1, tab);
                        assert((i + 1 - start) * big <= (line@.len() + 1) * big) by (nonlinear_arith)
                            requires
                                start <= i,
                                i < line@.len(),
                                big >= 0;
                    }
                    while k <= i
                        invariant
                            start <= k <= i + 1,
                            i < line@.len(),
                            tab == tab_width as nat,
                            big == widest(tab),
                            (i + 1 - start) * big <= usize::MAX,
                            forall|j: int| 0 <= j <= i ==> char_width_spec(#[trigger] line@[j], tab) <= widest(tab),
                            w == range_width(line@, start as int, k as int, tab),
                            w <= (k - start) * big,
                            (match ls { Some(s) => Some(s as int), None => None::<int> })
                                == range_last_space(line@, start as int, k as int),
                            ls matches Some(s) ==> s < k - start,
                        decreases i + 1 - k,
                    {
                        let c = line[k];
                        proof {
                            lemma_range_width_bound(line@, start as int, k + 1, tab);
                            assert((k + 1 - start) * big <= (i + 1 - start) * big) by (nonlinear_arith)
                                requires
                                    k <= i,
                                    start <= k,
                                    big >= 0;
                        }
                        w = w + char_width(c, tab_width);
                        if c == ' ' {
                            ls = Some(k - start);
                        }
                        k += 1;
                    }
                    current_width = w;
                    last_space = ls;
                    chunk_len = i + 1 - start;
                },
                None => {
                    num_lines += 1;
                    current_width = ch_w;
                    last_space = if ch == ' ' { Some(0) } else { None };
                    chunk_len = 1;
                    assert(current_width <= 1 * big);
                },
            }
        } else {
            current_width = current_width + ch_w;
            if ch == ' ' {
                last_space = Some(chunk_len);
            }
            chunk_len += 1;
            assert(current_width <= chunk_len * big) by (nonlinear_arith)
                requires
                    current_width <= (chunk_len - 1) * big + big;
        }
        i += 1;
    }
    assert(line@.len() + 1 <= (line@.len() + 1) * (tab_width + 255)) by (nonlinear_arith)
        requires
            line@.len() >= 0;
    if current_width > 0 {
        num_lines += 1;
    }
    if num_lines < 1 {
        1
    } else {
        num_lines
    }
}

/// When the whole line fits in `max` columns it takes a single row.
pub proof fn lemma_fitting_line_is_one_row(line: Seq<char>, max: int, tab: nat)
    requires
        max > 0,
        range_width(line, 0, line.len() as int, tab) <= max,
    ensures
        line_height_spec(line, max, tab) == 1,
{
    if line.len() > 0 {
        lemma_fitting_prefix(line, max, tab, line.len() as int);
    }
}

/// A line takes at least one row and at most one more row than it has
/// characters: each character closes at most one row. (A single character
/// wider than the width closes the empty row before it and then takes a
/// row of its own, which is why one more is needed.)
pub proof fn lemma_line_height_bounds(line: Seq<char>, max: int, tab: nat)
    ensures
        1 <= line_height_spec(line, max, tab) <= line.len() + 1,
{
    lemma_rows_at_most_chars(line, max, tab, line.len() as int);
}

proof fn lemma_rows_at_most_chars(line: Seq<char>, max: int, tab: nat, n: int)
    requires
        0 <= n,
    ensures
        0 <= height_run(line, tab, max, n).rows <= n,
    decreases n,
{
    if n > 0 {
        lemma_rows_at_most_chars(line, max, tab, n - 1);
    }
}

proof fn lemma_fitting_prefix(line: Seq<char>, max: int, tab: nat, n: int)
    requires
        0 <= n <= line.len(),
        range_width(line, 0, n, tab) <= max,
    ensures
        height_run(line, tab, max, n).rows == 0,
        height_run(line, tab, max, n).width == range_width(line, 0, n, tab),
        height_run(line, tab, max, n).chunk == n,
    decreases n,
{
    if n > 0 {
        assert(range_width(line, 0, n - 1, tab) <= range_width(line, 0, n, tab));
        lemma_fitting_prefix(line, max, tab, n - 1);
    }
}

/// A character that continues a name for whole-word search: alphanumeric,
/// `_` or `/`.
pub open spec fn ident_char(c: char) -> bool {
    unicode_alphanumeric(c) || c == '_' || c == '/'
}

/// `w` occurs in `line` at `i` as a whole word: no name character right
/// before or right after it.
pub open spec fn whole_word_at(line: Seq<char>, w: Seq<char>, i: int) -> bool {
    &&& occurs_at(line, w, i)
    &&& (i == 0 || !ident_char(line[i - 1]))
    &&& (i + w.len() >= line.len() || !ident_char(line[i + w.len()]))
}

/// The style of a highlighted occurrence: light text on magenta, bold.
pub open spec fn occurrence_style() -> Style {
    Style {
        fg: Some(Color { r: 224, g: 230, b: 242 }),
        bg: Some(Color { r: 167, g: 82, b: 142 }),
        bold: true,
        ..plain_style()
    }
}

/// The highlight of an occurrence of length `len` at `(row, col)`.
pub open spec fn word_hit(row: int, col: int, len: int) -> Highlight {
    Highlight {
        start: Index2 { row: row as usize, col: col as usize },
        end: Index2 { row: row as usize, col: (col + len - 1) as usize },
        style: occurrence_style(),
    }
}

/// Highlights of the whole-word occurrences of `w` in `line` (row `row`)
/// that start before column `n`, left to right.
pub open spec fn row_hits(line: Seq<char>, w: Seq<char>, row: int, n: int) -> Seq<Highlight>
    decreases n,
{
    if n <= 0 {
        Seq::<Highlight>::empty()
    } else {
        let r = row_hits(line, w, row, n - 1);
        if whole_word_at(line, w, n - 1) {
            r.push(word_hit(row, n - 1, w.len() as int))
        } else {
            r
        }
    }
}

/// Highlights of the whole-word occurrences of `w` in the first `n` rows,
/// row by row.
pub open spec fn word_hits(lines: Seq<Seq<char>>, w: Seq<char>, n: int) -> Seq<Highlight>
    decreases n,
{
    if n <= 0 {
        Seq::<Highlight>::empty()
    } else {
        word_hits(lines, w, n - 1) + row_hits(lines[n - 1], w, n - 1, lines[n - 1].len() as int)
    }
}

/// `c` may continue a name: a letter or digit of any script, `_` or `/`.
pub open spec fn name_char(c: char) -> bool {
    unicode_alphanumeric(c) || c == '_' || c == '/'
}

/// The highlight `h` marks `w` in row `row` of `lines` as a whole word: the
/// characters it spans are `w`, and neither the character before nor the
/// one after it can continue a name.
pub open spec fn marks_whole_word(lines: Seq<Seq<char>>, w: Seq<char>, h: Highlight) -> bool {
    let row = h.start.row as int;
    let c = h.start.col as int;
    &&& 0 <= row < lines.len()
    &&& h.end.row == h.start.row
    &&& h.end.col == c + w.len() - 1
    &&& c + w.len() <= lines[row].len()
    &&& lines[row].subrange(c, c + w.len()) == w
    &&& (c > 0 ==> !name_char(lines[row][c - 1]))
    &&& (c + w.len() < lines[row].len() ==> !name_char(lines[row][c + w.len()]))
}

proof fn lemma_row_hits_sound(lines: Seq<Seq<char>>, w: Seq<char>, row: int, n: int)
    requires
        0 <= row < lines.len() <= usize::MAX,
        lines[row].len() <= usize::MAX,
        w.len() > 0,
        n <= lines[row].len(),
    ensures
        forall|i: int|
            0 <= i < row_hits(lines[row], w, row, n).len() ==> marks_whole_word(
                lines,
                w,
                #[trigger] row_hits(lines[row], w, row, n)[i],
            ) && row_hits(lines[row], w, row, n)[i].start.row == row
                && row_hits(lines[row], w, row, n)[i].start.col < n,
    decreases n,
{
    if n > 0 {
        lemma_row_hits_sound(lines, w, row, n - 1);
        let r = row_hits(lines[row], w, row, n - 1);
        if whole_word_at(lines[row], w, n - 1) {
            let r2 = r.push(word_hit(row, n - 1, w.len() as int));
            assert forall|i: int| 0 <= i < r2.len() implies marks_whole_word(lines, w, #[trigger] r2[i])
                && r2[i].start.row == row && r2[i].start.col < n by {
                if i < r.len() {
                    assert(r2[i] == r[i]);
                }
            }
        }
    }
}

proof fn lemma_row_hits_complete(lines: Seq<Seq<char>>, w: Seq<char>, row: int, n: int, c: int)
    requires
        0 <= c < n,
        whole_word_at(lines[row], w, c),
    ensures
        exists|i: int|
            0 <= i < row_hits(lines[row], w, row, n).len() && #[trigger] row_hits(
                lines[row],
                w,
                row,
                n,
            )[i] == word_hit(row, c, w.len() as int),
    decreases n,
{
    let r = row_hits(lines[row], w, row, n - 1);
    let all = row_hits(lines[row], w, row, n);
    if c == n - 1 {
        let r2 = r.push(word_hit(row, n - 1, w.len() as int));
        assert(all == r2);
        assert(all[r.len() as int] == word_hit(row, c, w.len() as int));
    } else {
        lemma_row_hits_complete(lines, w, row, n - 1, c);
        let i = choose|i: int| 0 <= i < r.len() && #[trigger] r[i] == word_hit(row, c, w.len() as int);
        if whole_word_at(lines[row], w, n - 1) {
            let r2 = r.push(word_hit(row, n - 1, w.len() as int));
            assert(all == r2);
            assert(all[i] == r[i]);
        } else {
            assert(all == r);
            assert(all[i] == r[i]);
        }
    }
}

/// Whole-word search finds exactly the whole-word occurrences. Every
/// highlight of `word_hits` spans the word in its row, with no character
/// that could continue a name (a letter or digit, `_` or `/`) right before
/// or right after it; and every such occurrence in the first `n` rows has
/// a highlight.
pub proof fn lemma_word_hits_exact(lines: Seq<Seq<char>>, w: Seq<char>, n: int)
    requires
        w.len() > 0,
        0 <= n <= lines.len() <= usize::MAX,
        forall|r: int| 0 <= r < lines.len() ==> #[trigger] lines[r].len() <= usize::MAX,
    ensures
        forall|i: int|
            0 <= i < word_hits(lines, w, n).len() ==> marks_whole_word(
                lines,
                w,
                #[trigger] word_hits(lines, w, n)[i],
            ) && word_hits(lines, w, n)[i].start.row < n,
        forall|row: int, c: int|
            0 <= row < n && 0 <= c && c + w.len() <= lines[row].len() && #[trigger] lines[row].subrange(
                c,
                c + w.len(),
            ) == w && (c > 0 ==> !name_char(lines[row][c - 1])) && (c + w.len() < lines[row].len()
                ==> !name_char(lines[row][c + w.len()])) ==> exists|i: int|
                0 <= i < word_hits(lines, w, n).len() && (#[trigger] word_hits(lines, w, n)[i]).start
                    == (Index2 { row: row as usize, col: c as usize }),
    decreases n,
{
    if n > 0 {
        lemma_word_hits_exact(lines, w, n - 1);
        let prev = word_hits(lines, w, n - 1);
        let rh = row_hits(lines[n - 1], w, n - 1, lines[n - 1].len() as int);
        let all = word_hits(lines, w, n);
        assert(all == prev + rh);
        lemma_row_hits_sound(lines, w, n - 1, lines[n - 1].len() as int);
        assert forall|i: int| 0 <= i < all.len() implies marks_whole_word(lines, w, #[trigger] all[i])
            && all[i].start.row < n by {
            if i < prev.len() {
                assert(all[i] == prev[i]);
            } else {
                assert(all[i] == rh[i - prev.len()]);
            }
        }
        assert forall|row: int, c: int|
            0 <= row < n && 0 <= c && c + w.len() <= lines[row].len() && #[trigger] lines[row].subrange(
                c,
                c + w.len(),
            ) == w && (c > 0 ==> !name_char(lines[row][c - 1])) && (c + w.len() < lines[row].len()
                ==> !name_char(lines[row][c + w.len()])) implies exists|i: int|
                0 <= i < all.len() && (#[trigger] all[i]).start == (Index2 {
                    row: row as usize,
                    col: c as usize,
                }) by {
            if row < n - 1 {
                let i = choose|i: int|
                    0 <= i < prev.len() && (#[trigger] prev[i]).start == (Index2 {
                        row: row as usize,
                        col: c as usize,
                    });
                assert(all[i] == prev[i]);
            } else {
                assert(whole_word_at(lines[row], w, c));
                lemma_row_hits_complete(lines, w, row, lines[row].len() as int, c);
                let i = choose|i: int|
                    0 <= i < rh.len() && #[trigger] rh[i] == word_hit(row, c, w.len() as int);
                assert(all[prev.len() + i] == rh[i]);
            }
        }
    }
}

/// `a` comes before `b` in reading order: an earlier row, or the same row
/// and an earlier column.
pub open spec fn reads_before(a: Index2, b: Index2) -> bool {
    a.row < b.row || (a.row == b.row && a.col < b.col)
}

proof fn lemma_row_hits_ordered(lines: Seq<Seq<char>>, w: Seq<char>, row: int, n: int)
    requires
        0 <= row < lines.len() <= usize::MAX,
        lines[row].len() <= usize::MAX,
        w.len() > 0,
        n <= lines[row].len(),
    ensures
        forall|i: int, j: int|
            0 <= i < j < row_hits(lines[row], w, row, n).len() ==> reads_before(
                #[trigger] row_hits(lines[row], w, row, n)[i].start,
                #[trigger] row_hits(lines[row], w, row, n)[j].start,
            ),
    decreases n,
{
    if n > 0 {
        lemma_row_hits_ordered(lines, w, row, n - 1);
        lemma_row_hits_sound(lines, w, row, n - 1);
        let r = row_hits(lines[row], w, row, n - 1);
        if whole_word_at(lines[row], w, n - 1) {
            let r2 = r.push(word_hit(row, n - 1, w.len() as int));
            assert forall|i: int, j: int| 0 <= i < j < r2.len() implies reads_before(
                #[trigger] r2[i].start,
                #[trigger] r2[j].start,
            ) by {
                assert(r2[i] == r[i]);
                if j < r.len() {
                    assert(r2[j] == r[j]);
                } else {
                    assert(r[i].start.row == row && r[i].start.col < n - 1);
                }
            }
        }
    }
}

/// Whole-word search lists its highlights in reading order, each once:
/// every highlight starts after the one before it (a later row, or the same
/// row and a later column).
pub proof fn lemma_word_hits_in_reading_order(lines: Seq<Seq<char>>, w: Seq<char>, n: int)
    requires
        w.len() > 0,
        0 <= n <= lines.len() <= usize::MAX,
        forall|r: int| 0 <= r < lines.len() ==> #[trigger] lines[r].len() <= usize::MAX,
    ensures
        forall|i: int, j: int|
            0 <= i < j < word_hits(lines, w, n).len() ==> reads_before(
                #[trigger] word_hits(lines, w, n)[i].start,
                #[trigger] word_hits(lines, w, n)[j].start,
            ),
    decreases n,
{
    if n > 0 {
        lemma_word_hits_in_reading_order(lines, w, n - 1);
        lemma_word_hits_exact(lines, w, n - 1);
        let prev = word_hits(lines, w, n - 1);
        let rh = row_hits(lines[n - 1], w, n - 1, lines[n - 1].len() as int);
        let all = word_hits(lines, w, n);
        assert(all == prev + rh);
        lemma_row_hits_sound(lines, w, n - 1, lines[n - 1].len() as int);
        lemma_row_hits_ordered(lines, w, n - 1, lines[n - 1].len() as int);
        assert forall|i: int, j: int| 0 <= i < j < all.len() implies reads_before(
            #[trigger] all[i].start,
            #[trigger] all[j].start,
        ) by {
            if j < prev.len() {
                assert(all[i] == prev[i] && all[j] == prev[j]);
            } else if i < prev.len() {
                assert(all[i] == prev[i] && all[j] == rh[j - prev.len()]);
                assert(prev[i].start.row < n - 1);
                assert(rh[j - prev.len()].start.row == n - 1);
            } else {
                assert(all[i] == rh[i - prev.len()] && all[j] == rh[j - prev.len()]);
            }
        }
    }
}

fn occurrence_style_exec() -> (s: Style)
    ensures
        s == occurrence_style(),
{
    Style::fg(224, 230, 242).bg(167, 82, 142).bold()
}

fn is_ident_char(c: char) -> (r: bool)
    ensures
        r == ident_char(c),
{
    char_is_alphanumeric(c) || c == '_' || c == '/'
}

/// Highlights of every whole-word occurrence of `word` in `lines_vecs`; none
/// for an empty word.
pub fn find_word_occurrences(lines_vecs: &[Vec<char>], word: &str) -> (r: Vec<Highlight>)
    ensures
        word@.len() == 0 ==> r@.len() == 0,
        word@.len() > 0 ==> r@ == word_hits(
            lines_vecs@.map_values(|l: Vec<char>| l@),
            word@,
            lines_vecs@.len() as int,
        ),
{
    let mut highlights: Vec<Highlight> = Vec::new();
    let w = str_to_chars(word);
    let wl = w.len();
    if wl == 0 {
        return highlights;
    }
    let ghost ls = lines_vecs@.map_values(|l: Vec<char>| l@);
    let mut row: usize = 0;
    while row < lines_vecs.len()
        invariant
            row <= lines_vecs@.len(),
            ls == lines_vecs@.map_values(|l: Vec<char>| l@),
            w@ == word@,
            wl == w@.len(),
            wl > 0,
            highlights@ == word_hits(ls, w@, row as int),
        decreases lines_vecs.len() - row,
    {
        let line = &lines_vecs[row];
        let ghost before = highlights@;
        let mut col: usize = 0;
        let ghost lv = line@;
        assert(lv == ls[row as int]);
        while col < line.len()
            invariant
                col <= line@.len(),
                lv == line@,
                w@ == word@,
                wl == w@.len(),
                wl > 0,
                highlights@ == before + row_hits(lv, w@, row as int, col as int),
            decreases line.len() - col,
        {
            if wl <= line.len() - col && matches_at(line.as_slice(), w.as_slice(), col) {
                let before_ok = col == 0 || !is_ident_char(line[col - 1]);
                let after_ok = col + wl >= line.len() || !is_ident_char(line[col + wl]);
                if before_ok && after_ok {
                    let st = occurrence_style_exec();
                    highlights.push(
                        Highlight {
                            start: Index2 { row: row, col: col },
                            end: Index2 { row: row, col: col + wl - 1 },
                            style: st,
                        },
                    );
                }
            }
            proof {
                let rh = row_hits(lv, w@, row as int, col as int);
                if whole_word_at(lv, w@, col as int) {
                    assert(before + rh.push(word_hit(row as int, col as int, wl as int))
                        =~= (before + rh).push(word_hit(row as int, col as int, wl as int)));
                }
            }
            col += 1;
        }
        row += 1;
    }
    highlights
}

/// Characters before row `n` of the text of `ls`, each row followed by its
/// line feed.
pub open spec fn prefix_offset(ls: Seq<Seq<char>>, n: int) -> int
    decreases n,
{
    if n <= 0 {
        0
    } else {
        prefix_offset(ls, n - 1) + ls[n - 1].len() + 1
    }
}

/// The offset in the buffer's text of position `idx`: the rows before it
/// with their line feeds, plus its column; past the last row, the length of
/// every row with its line feed.
pub open spec fn char_offset(ls: Seq<Seq<char>>, idx: Index2) -> int {
    if (idx.row as int) < ls.len() {
        prefix_offset(ls, idx.row as int) + idx.col
    } else {
        prefix_offset(ls, ls.len() as int)
    }
}

proof fn lemma_prefix_offset_mono(ls: Seq<Seq<char>>, a: int, b: int)
    requires
        0 <= a <= b <= ls.len(),
    ensures
        0 <= prefix_offset(ls, a) <= prefix_offset(ls, b),
    decreases b - a,
{
    if a < b {
        lemma_prefix_offset_mono(ls, a, b - 1);
    } else {
        lemma_prefix_nonneg(ls, a);
    }
}

proof fn lemma_prefix_nonneg(ls: Seq<Seq<char>>, n: int)
    ensures
        prefix_offset(ls, n) >= 0,
    decreases n,
{
    if n > 0 {
        lemma_prefix_nonneg(ls, n - 1);
    }
}

proof fn lemma_char_offset_bound(ls: Seq<Seq<char>>, idx: Index2)
    ensures
        0 <= char_offset(ls, idx) <= prefix_offset(ls, ls.len() as int) + idx.col,
{
    if (idx.row as int) < ls.len() {
        lemma_prefix_offset_mono(ls, idx.row as int, ls.len() as int);
    } else {
        lemma_prefix_nonneg(ls, ls.len() as int);
    }
}

/// The text of a buffer has one character fewer than its rows with their
/// line feeds.
pub proof fn lemma_join_rows_len(ls: Seq<Seq<char>>)
    ensures
        ls.len() == 0 ==> join_rows(ls).len() == 0,
        ls.len() > 0 ==> join_rows(ls).len() == prefix_offset(ls, ls.len() as int) - 1,
    decreases ls.len(),
{
    if ls.len() > 1 {
        lemma_join_rows_len(ls.drop_last());
        lemma_prefix_same(ls.drop_last(), ls, ls.len() - 1);
    } else if ls.len() == 1 {
        assert(prefix_offset(ls, 0) == 0);
    }
}

proof fn lemma_prefix_same(a: Seq<Seq<char>>, b: Seq<Seq<char>>, n: int)
    requires
        0 <= n <= a.len(),
        n <= b.len(),
        forall|i: int| 0 <= i < n ==> a[i] == b[i],
    ensures
        prefix_offset(a, n) == prefix_offset(b, n),
    decreases n,
{
    if n > 0 {
        lemma_prefix_same(a, b, n - 1);
    }
}

/// The offset of `idx` in the text of `lines` (see `char_offset`).
pub fn index2_to_char_offset(lines: &Vec<Vec<char>>, idx: Index2) -> (r: usize)
    requires
        prefix_offset(rows(lines), lines@.len() as int) + idx.col <= usize::MAX,
    ensures
        r == char_offset(rows(lines), idx),
{
    let ghost ls = rows(lines);
    let mut offset: usize = 0;
    let mut r: usize = 0;
    while r < lines.len() && r < idx.row
        invariant
            r <= lines@.len(),
            r <= idx.row,
            ls == rows(lines),
            offset == prefix_offset(ls, r as int),
            prefix_offset(ls, lines@.len() as int) + idx.col <= usize::MAX,
        decreases lines.len() - r,
    {
        proof {
            lemma_prefix_offset_mono(ls, r + 1, lines@.len() as int);
        }
        offset = offset + lines[r].len() + 1;
        r += 1;
    }
    if r < lines.len() {
        proof {
            lemma_prefix_offset_mono(ls, r as int, lines@.len() as int);
        }
        offset = offset + idx.col;
    }
    offset
}

/// The text of the buffer: its rows joined by line feeds.
pub fn editor_text(lines: &Vec<Vec<char>>) -> (t: Vec<char>)
    ensures
        t@ == join_rows(rows(lines)),
{
    let ghost ls = rows(lines);
    let mut t: Vec<char> = Vec::new();
    let mut r: usize = 0;
    while r < lines.len()
        invariant
            r <= lines@.len(),
            ls == rows(lines),
            t@ == join_rows(ls.take(r as int)),
        decreases lines.len() - r,
    {
        let ghost before = t@;
        if r > 0 {
            t.push('\n');
        }
        crate::text::push_chars(&mut t, lines[r].as_slice());
        proof {
            let tk = ls.take(r + 1);
            assert(tk.drop_last() =~= ls.take(r as int));
            assert(tk.last() == lines@[r as int]@);
            if r == 0 {
                assert(t@ =~= join_rows(tk));
            } else {
                assert(t@ =~= join_rows(tk));
            }
        }
        r += 1;
    }
    assert(ls.take(lines@.len() as int) =~= ls);
    t
}

/// `a` and `b` in reading order.
pub open spec fn ordered(a: Index2, b: Index2) -> (Index2, Index2) {
    if index_le(a, b) {
        (a, b)
    } else {
        (b, a)
    }
}

/// `t` with `t[so..eo)` wrapped in `[[` and `]]`.
pub open spec fn wrap_in_link_text(t: Seq<char>, so: int, eo: int) -> Seq<char> {
    t.take(so) + seq!['[', '['] + t.subrange(so, eo) + seq![']', ']'] + t.skip(eo)
}

/// `new_lines` are the rows of `text`, split at its line feeds.
pub open spec fn rows_of_text(new_lines: Seq<Seq<char>>, text: Seq<char>) -> bool {
    &&& join_rows(new_lines) == text
    &&& rows_without_newline(new_lines)
    &&& new_lines.len() >= 1
}

/// What wrapping the selection in a wiki link does to `m`: the selected
/// text (from the earlier end through the later end, inclusive) is wrapped
/// in `[[` `]]`, the buffer is re-split into rows, the editor returns to
/// normal mode without a selection and the cursor goes two columns right of
/// where the selection began. Nothing changes without a selection, or when
/// the selection's offsets do not fall inside the text. The result says
/// whether the buffer changed.
pub open spec fn wrap_link_ok(m: EditorModel, after: EditorModel, changed: bool) -> bool {
    match m.selection {
        None => !changed && after == m,
        Some(sel) => {
            let (s, e) = ordered(sel.start, sel.end);
            let t = join_rows(m.lines);
            let so = char_offset(m.lines, s);
            let eo = char_offset(m.lines, e) + 1;
            if so <= eo && eo <= t.len() {
                &&& changed
                &&& rows_of_text(after.lines, wrap_in_link_text(t, so, eo))
                &&& after == EditorModel {
                    lines: after.lines,
                    cursor: Index2 { row: s.row, col: (s.col + 2) as usize },
                    selection: None,
                    mode: EditorMode::Normal,
                    ..m
                }
            } else {
                !changed && after == m
            }
        },
    }
}

/// Wraps the visual selection in a wiki link `[[...]]` (see `wrap_link_ok`).
pub fn wrap_selection_in_link(state: &mut EditorState) -> (changed: bool)
    requires
        old(state).selection matches Some(sel) ==> prefix_offset(
            old(state)@.lines,
            old(state)@.lines.len() as int,
        ) + sel.start.col + 2 <= usize::MAX && prefix_offset(
            old(state)@.lines,
            old(state)@.lines.len() as int,
        ) + sel.end.col + 2 <= usize::MAX,
    ensures
        wrap_link_ok(old(state)@, final(state)@, changed),
{
    let sel = match state.selection {
        Some(sel) => sel,
        None => {
            return false;
        },
    };
    let (s, e) = if sel.start.row < sel.end.row || (sel.start.row == sel.end.row
        && sel.start.col <= sel.end.col) {
        (sel.start, sel.end)
    } else {
        (sel.end, sel.start)
    };
    proof {
        lemma_char_offset_bound(state@.lines, s);
        lemma_char_offset_bound(state@.lines, e);
        lemma_prefix_nonneg(state@.lines, state@.lines.len() as int);
    }
    let t = editor_text(&state.lines);
    let so = index2_to_char_offset(&state.lines, s);
    let eo = index2_to_char_offset(&state.lines, e) + 1;
    if so <= eo && eo <= t.len() {
        let mut out: Vec<char> = Vec::new();
        crate::text::push_chars(&mut out, &t.as_slice()[0..so]);
        out.push('[');
        out.push('[');
        crate::text::push_chars(&mut out, &t.as_slice()[so..eo]);
        out.push(']');
        out.push(']');
        crate::text::push_chars(&mut out, &t.as_slice()[eo..t.len()]);
        proof {
            assert(out@ =~= wrap_in_link_text(t@, so as int, eo as int));
        }
        state.lines = lines_from_chars(out.as_slice());
        state.mode = EditorMode::Normal;
        state.selection = None;
        state.cursor = Index2 { row: s.row, col: s.col + 2 };
        true
    } else {
        false
    }
}

/// `t` with `ins` inserted at offset `off`.
pub open spec fn insert_text_spec(t: Seq<char>, off: int, ins: Seq<char>) -> Seq<char> {
    t.take(off) + ins + t.skip(off)
}

/// What inserting `ins` at the cursor does to `m`: when the cursor's offset
/// lies inside the text, `ins` goes there, the buffer is re-split into rows
/// and the cursor moves right by the number of inserted characters on its
/// row; otherwise nothing changes. The result says whether the buffer
/// changed.
pub open spec fn insert_ok(m: EditorModel, ins: Seq<char>, after: EditorModel, changed: bool) -> bool {
    let t = join_rows(m.lines);
    let off = char_offset(m.lines, m.cursor);
    if off <= t.len() {
        &&& changed
        &&& rows_of_text(after.lines, insert_text_spec(t, off, ins))
        &&& after == EditorModel {
            lines: after.lines,
            cursor: Index2 { row: m.cursor.row, col: (m.cursor.col + ins.len()) as usize },
            ..m
        }
    } else {
        !changed && after == m
    }
}

/// Inserts `text` at the cursor (see `insert_ok`).
pub fn insert_text_at_cursor(state: &mut EditorState, text: &str) -> (changed: bool)
    requires
        prefix_offset(old(state)@.lines, old(state)@.lines.len() as int) + old(state).cursor.col
            + text@.len() <= usize::MAX,
    ensures
        insert_ok(old(state)@, text@, final(state)@, changed),
{
    proof {
        lemma_char_offset_bound(state@.lines, state.cursor);
        lemma_prefix_nonneg(state@.lines, state@.lines.len() as int);
    }
    let t = editor_text(&state.lines);
    let off = index2_to_char_offset(&state.lines, state.cursor);
    if off <= t.len() {
        let ins = str_to_chars(text);
        let mut out: Vec<char> = Vec::new();
        crate::text::push_chars(&mut out, &t.as_slice()[0..off]);
        crate::text::push_chars(&mut out, ins.as_slice());
        crate::text::push_chars(&mut out, &t.as_slice()[off..t.len()]);
        proof {
            assert(out@ =~= insert_text_spec(t@, off as int, text@));
        }
        state.lines = lines_from_chars(out.as_slice());
        state.cursor = Index2 { row: state.cursor.row, col: state.cursor.col + ins.len() };
        true
    } else {
        false
    }
}

/// A checkbox `[ ]`, `[x]` or `[X]` starts at `i` in `line`.
pub open spec fn box_at(line: Seq<char>, i: int) -> bool {
    &&& 0 <= i
    &&& i + 2 < line.len()
    &&& line[i] == '['
    &&& line[i + 2] == ']'
    &&& (line[i + 1] == ' ' || line[i + 1] == 'x' || line[i + 1] == 'X')
}

/// The first checkbox of `line` at or after `i`.
pub open spec fn first_box_from(line: Seq<char>, i: int) -> Option<int>
    decreases line.len() - i,
{
    if i < 0 || i + 2 >= line.len() {
        None
    } else if box_at(line, i) {
        Some(i)
    } else {
        first_box_from(line, i + 1)
    }
}

/// `t` starts with a list bullet: `- `, `* ` or `+ `.
pub open spec fn bullet_prefix(t: Seq<char>) -> bool {
    t.len() >= 2 && (t[0] == '-' || t[0] == '*' || t[0] == '+') && t[1] == ' '
}

/// Where a checkbox goes in a bulleted line: right after the bullet, that
/// is after its leading white space and the two characters of the bullet.
pub open spec fn checkbox_pos(line: Seq<char>) -> int {
    leading_ws(line) as int + 2
}

/// What toggling the checklist item does to `line`: the first checkbox flips
/// between `[ ]` and `[x]` (an `[X]` becomes `[ ]`); without one, a
/// bulleted line gets an empty checkbox `[ ] ` after its bullet; any other
/// line is left alone (`None`).
pub open spec fn todo_toggle_spec(line: Seq<char>) -> Option<Seq<char>> {
    match first_box_from(line, 0) {
        Some(i) => Some(line.update(i + 1, if line[i + 1] == ' ' { 'x' } else { ' ' })),
        None => if bullet_prefix(line.skip(leading_ws(line) as int)) {
            let p = checkbox_pos(line);
            Some(line.take(p) + seq!['[', ' ', ']', ' '] + line.skip(p))
        } else {
            None
        },
    }
}

/// Toggles the checklist item of `line` (see `todo_toggle_spec`); says
/// whether the line changed.
pub fn toggle_todo_line(line: &mut Vec<char>) -> (changed: bool)
    ensures
        changed == (todo_toggle_spec(old(line)@) is Some),
        changed ==> final(line)@ == todo_toggle_spec(old(line)@)->Some_0,
        !changed ==> final(line)@ == old(line)@,
{
    let mut i: usize = 0;
    while line.len() > 2 && i < line.len() - 2
        invariant
            line@ == old(line)@,
            first_box_from(line@, 0) == first_box_from(line@, i as int),
        decreases line.len() - i,
    {
        if line[i] == '[' && line[i + 2] == ']' {
            let mark = line[i + 1];
            if mark == ' ' {
                line.set(i + 1, 'x');
                return true;
            } else if mark == 'x' || mark == 'X' {
                line.set(i + 1, ' ');
                return true;
            }
        }
        i += 1;
    }
    let k = first_non_ws(line.as_slice());
    let n = line.len();
    if n - k >= 2 && (line[k] == '-' || line[k] == '*' || line[k] == '+') && line[k + 1] == ' ' {
        let ghost old_line = line@;
        assert(old_line.skip(k as int)[0] == line@[k as int]);
        assert(old_line.skip(k as int)[1] == line@[k + 1]);
        assert(first_box_from(old_line, 0) is None);
        let p = k + 2;
        line.insert(p, '[');
        let l1 = line.len();
        assert(p + 1 <= l1);
        line.insert(p + 1, ' ');
        let l2 = line.len();
        assert(p + 2 <= l2);
        line.insert(p + 2, ']');
        let l3 = line.len();
        assert(p + 3 <= l3);
        line.insert(p + 3, ' ');
        proof {
            assert(line@ =~= old_line.take(p as int) + seq!['[', ' ', ']', ' '] + old_line.skip(
                p as int,
            ));
        }
        true
    } else {
        proof {
            if bullet_prefix(line@.skip(k as int)) {
                assert(line@.skip(k as int)[0] == line@[k as int]);
                assert(line@.skip(k as int)[1] == line@[k + 1]);
            }
        }
        false
    }
}

/// What toggling the checklist item under the cursor does to `m`: the
/// cursor's row is toggled as `todo_toggle_spec` says and nothing else
/// changes; nothing changes when the row does not exist or is left alone.
pub open spec fn todo_at_cursor_ok(m: EditorModel, after: EditorModel, changed: bool) -> bool {
    let row = m.cursor.row as int;
    if row < m.lines.len() && todo_toggle_spec(m.lines[row]) is Some {
        &&& changed
        &&& after == EditorModel {
            lines: m.lines.update(row, todo_toggle_spec(m.lines[row])->Some_0),
            ..m
        }
    } else {
        !changed && after == m
    }
}

/// Toggles the checklist item on the cursor's row (see `todo_at_cursor_ok`).
pub fn toggle_todo_at_cursor(state: &mut EditorState) -> (changed: bool)
    ensures
        todo_at_cursor_ok(old(state)@, final(state)@, changed),
{
    let row = state.cursor.row;
    if row >= state.lines.len() {
        return false;
    }
    let mut line = crate::edtui::clone_row(&state.lines[row]);
    let changed = toggle_todo_line(&mut line);
    state.lines.set(row, line);
    proof {
        assert(state@.lines =~= old(state)@.lines.update(row as int, state@.lines[row as int]));
        if !changed {
            assert(state@.lines =~= old(state)@.lines);
        }
    }
    changed
}

proof fn lemma_first_box_props(line: Seq<char>, j: int)
    ensures
        first_box_from(line, j) matches Some(i) ==> j <= i && box_at(line, i),
    decreases line.len() - j,
{
    if 0 <= j && j + 2 < line.len() && !box_at(line, j) {
        lemma_first_box_props(line, j + 1);
    }
}

proof fn lemma_first_box_update(line: Seq<char>, i: int, j: int, c: char)
    requires
        0 <= j <= i,
        first_box_from(line, j) == Some(i),
        c == ' ' || c == 'x',
    ensures
        first_box_from(line.update(i + 1, c), j) == Some(i),
    decreases i - j,
{
    lemma_first_box_props(line, j);
    let u = line.update(i + 1, c);
    if j < i {
        assert(!box_at(line, j));
        assert(u[j] == line[j]);
        assert(u[j + 1] == line[j + 1]);
        if j + 2 != i + 1 {
            assert(u[j + 2] == line[j + 2]);
        }
        assert(!box_at(u, j));
        lemma_first_box_update(line, i, j + 1, c);
    } else {
        assert(box_at(u, i));
    }
}

/// Toggling a checklist item twice gives back a line whose first checkbox
/// was `[ ]` or `[x]`.
pub proof fn lemma_toggle_todo_twice(line: Seq<char>)
    requires
        first_box_from(line, 0) matches Some(i) && (line[i + 1] == ' ' || line[i + 1] == 'x'),
    ensures
        todo_toggle_spec(line) matches Some(once) && todo_toggle_spec(once) == Some(line),
{
    let i = first_box_from(line, 0)->Some_0;
    let c = if line[i + 1] == ' ' { 'x' } else { ' ' };
    let once = line.update(i + 1, c);
    lemma_first_box_props(line, 0);
    lemma_first_box_update(line, i, 0, c);
    assert(once.update(i + 1, line[i + 1]) =~= line);
}

/// Rows without line feeds are determined by their text: splitting the text
/// of a buffer at its line feeds gives the buffer's rows back.
pub proof fn lemma_rows_of_text_unique(a: Seq<Seq<char>>, b: Seq<Seq<char>>)
    requires
        rows_without_newline(a),
        rows_without_newline(b),
        a.len() >= 1,
        b.len() >= 1,
        join_rows(a) == join_rows(b),
    ensures
        a == b,
    decreases a.len() + b.len(),
{
    if a.len() == 1 && b.len() == 1 {
        assert(a =~= b);
    } else if a.len() == 1 {
        lemma_newline_in_join(b);
        let p = join_rows(b.drop_last()).len() as int;
        assert(join_rows(a)[p] == a[0][p]);
    } else if b.len() == 1 {
        lemma_newline_in_join(a);
        let p = join_rows(a.drop_last()).len() as int;
        assert(join_rows(b)[p] == b[0][p]);
    } else {
        let ja = join_rows(a.drop_last());
        let jb = join_rows(b.drop_last());
        let t = join_rows(a);
        assert(t == ja + seq!['\n'] + a.last());
        assert(t == jb + seq!['\n'] + b.last());
        if ja.len() < jb.len() {
            let p = jb.len() as int;
            assert(t[p] == '\n');
            assert(t[p] == a.last()[p - ja.len() - 1]);
            assert(false);
        } else if jb.len() < ja.len() {
            let p = ja.len() as int;
            assert(t[p] == '\n');
            assert(t[p] == b.last()[p - jb.len() - 1]);
            assert(false);
        }
        assert(ja =~= t.take(ja.len() as int));
        assert(jb =~= t.take(jb.len() as int));
        assert(a.last() =~= t.skip(ja.len() as int + 1));
        assert(b.last() =~= t.skip(jb.len() as int + 1));
        assert(rows_without_newline(a.drop_last()));
        assert(rows_without_newline(b.drop_last()));
        lemma_rows_of_text_unique(a.drop_last(), b.drop_last());
        assert(a =~= a.drop_last().push(a.last()));
        assert(b =~= b.drop_last().push(b.last()));
    }
}

proof fn lemma_newline_in_join(b: Seq<Seq<char>>)
    requires
        b.len() >= 2,
    ensures
        join_rows(b)[join_rows(b.drop_last()).len() as int] == '\n',
        join_rows(b.drop_last()).len() < join_rows(b).len(),
{
}

/// Replaces the character under the cursor with `c` (the `r` command);
/// says whether there was one. Nothing else changes.
pub fn replace_char_at_cursor(state: &mut EditorState, c: char) -> (changed: bool)
    ensures
        changed == ((old(state).cursor.row as int) < old(state)@.lines.len() && (old(state).cursor.col as int)
            < old(state)@.lines[old(state).cursor.row as int].len()),
        changed ==> final(state)@ == (EditorModel {
            lines: old(state)@.lines.update(
                old(state).cursor.row as int,
                old(state)@.lines[old(state).cursor.row as int].update(old(state).cursor.col as int, c),
            ),
            ..old(state)@
        }),
        !changed ==> final(state)@ == old(state)@,
{
    let row = state.cursor.row;
    let col = state.cursor.col;
    if row >= state.lines.len() || col >= state.lines[row].len() {
        return false;
    }
    let mut line = crate::edtui::clone_row(&state.lines[row]);
    line.set(col, c);
    state.lines.set(row, line);
    proof {
        assert(state@.lines =~= old(state)@.lines.update(
            row as int,
            old(state)@.lines[row as int].update(col as int, c),
        ));
    }
    true
}

/// Whether offsets `extra` past the end of the buffer's text, counting a
/// line feed after every row, still fit in a `usize` (what
/// `wrap_selection_in_link` and `insert_text_at_cursor` need).
pub fn offset_room(lines: &Vec<Vec<char>>, extra: usize) -> (r: bool)
    ensures
        r == (prefix_offset(rows(lines), lines@.len() as int) + extra <= usize::MAX),
{
    let ghost ls = rows(lines);
    let mut total: usize = extra;
    let mut r: usize = 0;
    while r < lines.len()
        invariant
            r <= lines@.len(),
            ls == rows(lines),
            total == prefix_offset(ls, r as int) + extra,
        decreases lines.len() - r,
    {
        let len = lines[r].len();
        if total > usize::MAX - 1 || len > usize::MAX - 1 - total {
            proof {
                lemma_prefix_offset_mono(ls, r + 1, lines@.len() as int);
            }
            return false;
        }
        total = total + len + 1;
        r += 1;
    }
    true
}

} // verus!
