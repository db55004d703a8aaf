//! Header-section folding: collapse Markdown header sections in the editor.
//!
//! A folded section keeps its header row visible and hides the body rows
//! below it, down to the next header of the same or a higher level (or the
//! end of the buffer). Fold state is the set of folded header rows; extents
//! are recomputed from the live header positions on every query.

use crate::edtui::{clamp_model, EditorModel, EditorState, Index2};
use crate::highlight::{header_level, header_level_spec};
use vstd::prelude::*;

verus! {

broadcast use vstd::std_specs::hash::group_hash_axioms;

/// A collapsed header section: the header row stays visible, the rows
/// `header_row + 1 .. end_row` are hidden.
#[derive(Clone, Copy, Debug, PartialEq, Eq, Structural)]
pub struct FoldRegion {
    pub header_row: usize,
    pub end_row: usize,
}

impl FoldRegion {
    /// Number of hidden body lines below the header.
    pub fn hidden_count(&self) -> (n: usize)
        requires
            self.end_row > self.header_row,
        ensures
            n == self.end_row - self.header_row - 1,
    {
        self.end_row - self.header_row - 1
    }
}

/// The headers among the first `n` rows, as (row, level), in row order.
pub open spec fn headers_upto(lines: Seq<Seq<char>>, n: int) -> Seq<(usize, usize)>
    decreases n,
{
    if n <= 0 {
        Seq::empty()
    } else {
        let prev = headers_upto(lines, n - 1);
        match header_level_spec(lines[n - 1]) {
            Some(l) => prev.push(((n - 1) as usize, l as usize)),
            None => prev,
        }
    }
}

/// All headers of the buffer, as (row, level), in row order.
pub open spec fn headers_spec(lines: Seq<Seq<char>>) -> Seq<(usize, usize)> {
    headers_upto(lines, lines.len() as int)
}

/// Exclusive end of a section of level `level` whose following headers start
/// at index `j`: the row of the first of them with level at most `level`, or
/// `num_rows` when there is none.
pub open spec fn section_end_from(
    headers: Seq<(usize, usize)>,
    level: usize,
    j: int,
    num_rows: usize,
) -> usize
    decreases headers.len() - j,
{
    if j < 0 || j >= headers.len() {
        num_rows
    } else if headers[j].1 <= level {
        headers[j].0
    } else {
        section_end_from(headers, level, j + 1, num_rows)
    }
}

/// Exclusive end row of the section owned by `headers[idx]`.
pub open spec fn section_end_spec(headers: Seq<(usize, usize)>, idx: int, num_rows: usize) -> usize {
    section_end_from(headers, headers[idx].1, idx + 1, num_rows)
}

/// The folded regions among the first `k` headers.
pub open spec fn regions_upto(
    headers: Seq<(usize, usize)>,
    folded: Set<usize>,
    num_rows: usize,
    k: int,
) -> Seq<FoldRegion>
    decreases k,
{
    if k <= 0 {
        Seq::empty()
    } else {
        let prev = regions_upto(headers, folded, num_rows, k - 1);
        let row = headers[k - 1].0;
        let end = section_end_spec(headers, k - 1, num_rows);
        if folded.contains(row) && end > row + 1 {
            prev.push(FoldRegion { header_row: row, end_row: end })
        } else {
            prev
        }
    }
}

/// The folded sections of `m` that still have a header and hide at least one
/// row, in row order.
pub open spec fn folded_regions_spec(m: EditorModel) -> Seq<FoldRegion> {
    let h = headers_spec(m.lines);
    regions_upto(h, m.folded, m.lines.len() as usize, h.len() as int)
}

/// The header enclosing row `row`: the last header at or above it.
pub open spec fn enclosing_header(lines: Seq<Seq<char>>, row: usize) -> Option<usize> {
    let h = headers_upto(lines, if row < lines.len() { row + 1 } else { lines.len() as int });
    if h.len() == 0 {
        None
    } else {
        Some(h.last().0)
    }
}

/// `m` after toggling the fold of the section enclosing the cursor: unfolds
/// it when folded; otherwise folds it and, when the cursor is below the
/// header, moves the cursor up to the header row (clamping the column).
pub open spec fn toggle_fold_model(m: EditorModel) -> EditorModel {
    match enclosing_header(m.lines, m.cursor.row) {
        None => m,
        Some(h) => if m.folded.contains(h) {
            EditorModel { folded: m.folded.remove(h), ..m }
        } else if m.cursor.row > h {
            clamp_model(
                EditorModel {
                    folded: m.folded.insert(h),
                    cursor: Index2 { row: h, col: m.cursor.col },
                    ..m
                },
            )
        } else {
            EditorModel { folded: m.folded.insert(h), ..m }
        },
    }
}

proof fn lemma_headers_upto_same(l1: Seq<Seq<char>>, l2: Seq<Seq<char>>, n: int)
    requires
        forall|j: int| 0 <= j < n ==> header_level_spec(#[trigger] l1[j]) == header_level_spec(l2[j]),
    ensures
        headers_upto(l1, n) == headers_upto(l2, n),
    decreases n,
{
    if n > 0 {
        lemma_headers_upto_same(l1, l2, n - 1);
        assert(header_level_spec(l1[n - 1]) == header_level_spec(l2[n - 1]));
    }
}

/// Folds survive edits that keep the header structure: two buffers with the
/// same number of rows, where each row is a header of the same level in
/// both or a header in neither, and the same folded header rows, have the
/// same folded regions, whatever else the rows hold.
pub proof fn lemma_folds_survive_body_edits(m1: EditorModel, m2: EditorModel)
    requires
        m1.folded == m2.folded,
        m1.lines.len() == m2.lines.len(),
        forall|j: int|
            0 <= j < m1.lines.len() ==> header_level_spec(#[trigger] m1.lines[j]) == header_level_spec(
                m2.lines[j],
            ),
    ensures
        folded_regions_spec(m1) == folded_regions_spec(m2),
{
    lemma_headers_upto_same(m1.lines, m2.lines, m1.lines.len() as int);
}

proof fn lemma_headers_upto_rows(lines: Seq<Seq<char>>, n: int)
    requires
        0 <= n <= lines.len(),
        lines.len() <= usize::MAX,
    ensures
        forall|i: int|
            0 <= i < headers_upto(lines, n).len() ==> #[trigger] headers_upto(lines, n)[i].0 < n,
        forall|i: int, j: int|
            0 <= i < j < headers_upto(lines, n).len() ==> headers_upto(lines, n)[i].0
                < headers_upto(lines, n)[j].0,
    decreases n,
{
    if n > 0 {
        lemma_headers_upto_rows(lines, n - 1);
        let prev = headers_upto(lines, n - 1);
        match header_level_spec(lines[n - 1]) {
            Some(l) => {
                let cur = prev.push(((n - 1) as usize, l as usize));
                assert(cur == headers_upto(lines, n));
                assert forall|i: int| 0 <= i < cur.len() implies #[trigger] cur[i].0 < n by {
                    if i < prev.len() {
                        assert(cur[i] == prev[i]);
                    }
                }
            },
            None => {},
        }
    }
}

impl EditorState {
    /// All Markdown header rows with their levels, in ascending row order.
    pub fn header_rows(&self) -> (r: Vec<(usize, usize)>)
        ensures
            r@ == headers_spec(self@.lines),
    {
        let mut r: Vec<(usize, usize)> = Vec::new();
        let mut row: usize = 0;
        while row < self.lines.len()
            invariant
                row <= self@.lines.len(),
                r@ == headers_upto(self@.lines, row as int),
            decreases self.lines.len() - row,
        {
            match header_level(self.lines[row].as_slice()) {
                Some(l) => {
                    r.push((row, l));
                },
                None => {},
            }
            row += 1;
        }
        r
    }

    /// Exclusive end row of the section owned by `headers[idx]`: the row of
    /// the first following header of level at most this header's level, or
    /// `num_rows` if none follows.
    pub fn section_end(headers: &Vec<(usize, usize)>, idx: usize, num_rows: usize) -> (r: usize)
        requires
            idx < headers@.len(),
        ensures
            r == section_end_spec(headers@, idx as int, num_rows),
    {
        let level = headers[idx].1;
        let len = headers.len();
        let mut j = idx + 1;
        while j < headers.len() && headers[j].1 > level
            invariant
                idx < j <= headers@.len(),
                level == headers@[idx as int].1,
                section_end_from(headers@, level, idx + 1, num_rows) == section_end_from(
                    headers@,
                    level,
                    j as int,
                    num_rows,
                ),
            decreases headers.len() - j,
        {
            j += 1;
        }
        if j < headers.len() {
            headers[j].0
        } else {
            num_rows
        }
    }

    /// The header sections currently folded, each with its extent. Only
    /// headers still present and enclosing at least one body row count.
    pub fn folded_regions(&self) -> (r: Vec<FoldRegion>)
        ensures
            r@ == folded_regions_spec(self@),
    {
        let headers = self.header_rows();
        let num_rows = self.lines.len();
        let mut r: Vec<FoldRegion> = Vec::new();
        if self.folded.is_empty() {
            proof {
                lemma_no_regions_when_nothing_folded(headers@, self@.folded, num_rows, headers@.len() as int);
            }
            return r;
        }
        let mut k: usize = 0;
        while k < headers.len()
            invariant
                k <= headers@.len(),
                headers@ == headers_spec(self@.lines),
                num_rows == self@.lines.len(),
                r@ == regions_upto(headers@, self@.folded, num_rows, k as int),
            decreases headers.len() - k,
        {
            let row = headers[k].0;
            let end = Self::section_end(&headers, k, num_rows);
            if self.folded.contains(&row) && end > row && end - row > 1 {
                r.push(FoldRegion { header_row: row, end_row: end });
            }
            k += 1;
        }
        r
    }

    /// Toggles the fold of the header section enclosing (or at) the cursor:
    /// the nearest header at or above the cursor row. When folding a section
    /// the cursor sits below, the cursor is pulled up to the header.
    pub fn toggle_fold_at_cursor(&mut self)
        ensures
            final(self)@ == toggle_fold_model(old(self)@),
    {
        let cursor_row = self.cursor.row;
        let n = if cursor_row < self.lines.len() {
            cursor_row + 1
        } else {
            self.lines.len()
        };
        let mut row: usize = 0;
        let mut found: Option<usize> = None;
        while row < n
            invariant
                row <= n,
                n <= self@.lines.len(),
                n == if cursor_row < self@.lines.len() { cursor_row + 1 } else { self@.lines.len() as int },
                self@ == old(self)@,
                cursor_row == self.cursor.row,
                found == if headers_upto(self@.lines, row as int).len() == 0 {
                    None
                } else {
                    Some(headers_upto(self@.lines, row as int).last().0)
                },
            decreases n - row,
        {
            if header_level(self.lines[row].as_slice()).is_some() {
                found = Some(row);
            }
            row += 1;
        }
        let header_row = match found {
            Some(h) => h,
            None => {
                return;
            },
        };
        if self.folded.contains(&header_row) {
            self.folded.remove(&header_row);
        } else {
            self.folded.insert(header_row);
            if cursor_row > header_row {
                self.cursor.row = header_row;
                self.clamp_column();
            }
        }
    }
}

proof fn lemma_no_regions_when_nothing_folded(
    headers: Seq<(usize, usize)>,
    folded: Set<usize>,
    num_rows: usize,
    k: int,
)
    requires
        folded == Set::<usize>::empty(),
    ensures
        regions_upto(headers, folded, num_rows, k) == Seq::<FoldRegion>::empty(),
    decreases k,
{
    if k > 0 {
        lemma_no_regions_when_nothing_folded(headers, folded, num_rows, k - 1);
    }
}

proof fn lemma_headers_are_headers(lines: Seq<Seq<char>>, n: int)
    requires
        0 <= n <= lines.len(),
        lines.len() <= usize::MAX,
    ensures
        forall|i: int|
            0 <= i < headers_upto(lines, n).len() ==> {
                let e = #[trigger] headers_upto(lines, n)[i];
                &&& e.0 < n
                &&& header_level_spec(lines[e.0 as int]) is Some
            },
    decreases n,
{
    if n > 0 {
        lemma_headers_are_headers(lines, n - 1);
        let prev = headers_upto(lines, n - 1);
        match header_level_spec(lines[n - 1]) {
            Some(l) => {
                let cur = prev.push(((n - 1) as usize, l as usize));
                assert(cur == headers_upto(lines, n));
                assert forall|i: int| 0 <= i < cur.len() implies {
                    let e = #[trigger] cur[i];
                    &&& e.0 < n
                    &&& header_level_spec(lines[e.0 as int]) is Some
                } by {
                    if i < prev.len() {
                        assert(cur[i] == prev[i]);
                    }
                }
            },
            None => {},
        }
    }
}

/// Toggling the fold at the cursor twice leaves the set of folded headers as
/// it was.
pub proof fn lemma_toggle_fold_twice(m: EditorModel)
    requires
        m.lines.len() <= usize::MAX,
    ensures
        toggle_fold_model(toggle_fold_model(m)).folded == m.folded,
{
    let m1 = toggle_fold_model(m);
    match enclosing_header(m.lines, m.cursor.row) {
        None => {},
        Some(h) => {
            let n = if m.cursor.row < m.lines.len() { m.cursor.row + 1 } else { m.lines.len() as int };
            let hs = headers_upto(m.lines, n);
            lemma_headers_are_headers(m.lines, n);
            assert(hs.last() == hs[hs.len() - 1]);
            assert(h < m.lines.len());
            assert(header_level_spec(m.lines[h as int]) is Some);
            // the header row encloses itself
            assert(enclosing_header(m.lines, h) == Some(h));
            assert(m1.lines == m.lines);
            if m.folded.contains(h) {
                assert(m1.cursor == m.cursor);
                assert(m1.folded.remove(h).insert(h) =~= m.folded) by {
                    assert(m1.folded == m.folded.remove(h));
                }
                assert(m1.folded.insert(h) =~= m.folded);
            } else {
                assert(m1.folded == m.folded.insert(h));
                assert(enclosing_header(m1.lines, m1.cursor.row) == Some(h));
                assert(m1.folded.remove(h) =~= m.folded);
            }
        },
    }
}

} // verus!
