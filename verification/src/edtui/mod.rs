//! The editor model: a buffer of character rows, a cursor, a mode, an
//! optional visual selection, the view geometry, folded header rows and an
//! undo/redo history.


pub mod actions;
pub mod fold;
pub mod indent;
pub mod line_wrapper;
pub mod motion;
pub mod mouse;

use std::collections::HashSet;
use vstd::prelude::*;

verus! {

broadcast use vstd::std_specs::hash::group_hash_axioms;

/// A position in the buffer: row and column (in characters).
#[derive(Clone, Copy, Debug, PartialEq, Eq, Structural)]
pub struct Index2 {
    pub row: usize,
    pub col: usize,
}

impl Index2 {
    pub fn new(row: usize, col: usize) -> (r: Index2)
        ensures
            r.row == row,
            r.col == col,
    {
        Index2 { row, col }
    }
}

/// `a` comes at or before `b` in reading order.
pub open spec fn index_le(a: Index2, b: Index2) -> bool {
    a.row < b.row || (a.row == b.row && a.col <= b.col)
}

/// The editing modes.
#[derive(Clone, Copy, Debug, PartialEq, Eq, Structural)]
pub enum EditorMode {
    Normal,
    Insert,
    Visual,
    Search,
}

/// A visual selection between an anchor (`start`) and the moving end (`end`).
#[derive(Clone, Copy, Debug, PartialEq, Eq, Structural)]
pub struct Selection {
    pub start: Index2,
    pub end: Index2,
}

impl Selection {
    pub fn new(start: Index2, end: Index2) -> (r: Selection)
        ensures
            r.start == start,
            r.end == end,
    {
        Selection { start, end }
    }

    /// The earlier end of the selection in reading order.
    pub open spec fn first(self) -> Index2 {
        if index_le(self.start, self.end) {
            self.start
        } else {
            self.end
        }
    }

    /// The later end of the selection in reading order.
    pub open spec fn last(self) -> Index2 {
        if index_le(self.start, self.end) {
            self.end
        } else {
            self.start
        }
    }

    /// The earlier end of the selection.
    pub fn start(&self) -> (r: Index2)
        ensures
            r == self.first(),
    {
        if self.start.row < self.end.row || (self.start.row == self.end.row && self.start.col
            <= self.end.col) {
            self.start
        } else {
            self.end
        }
    }

    /// The later end of the selection.
    pub fn end(&self) -> (r: Index2)
        ensures
            r == self.last(),
    {
        if self.start.row < self.end.row || (self.start.row == self.end.row && self.start.col
            <= self.end.col) {
            self.end
        } else {
            self.start
        }
    }
}

/// Moves the end of an existing selection to `end`, keeping its anchor; no
/// selection stays no selection.
pub fn set_selection(selection: &mut Option<Selection>, end: Index2)
    ensures
        match *old(selection) {
            Some(s) => *final(selection) == Some(Selection { start: s.start, end }),
            None => *final(selection) == None::<Selection>,
        },
{
    match selection {
        Some(s) => {
            s.end = end;
        },
        None => {},
    }
}

/// The rows of a buffer, each a sequence of characters.
pub open spec fn rows(lines: &Vec<Vec<char>>) -> Seq<Seq<char>> {
    lines@.map_values(|r: Vec<char>| r@)
}

/// Length of row `row`, if it exists.
pub fn len_col(lines: &Vec<Vec<char>>, row: usize) -> (r: Option<usize>)
    ensures
        row < lines@.len() ==> r is Some && r->0 == lines@[row as int]@.len(),
        row >= lines@.len() ==> r is None,
{
    if row < lines.len() {
        Some(lines[row].len())
    } else {
        None
    }
}

/// Index of the last row (0 for an empty buffer).
pub fn last_row_index(lines: &Vec<Vec<char>>) -> (r: usize)
    ensures
        r == if lines@.len() == 0 { 0 } else { lines@.len() - 1 },
{
    if lines.len() == 0 {
        0
    } else {
        lines.len() - 1
    }
}

/// Index of the last column of row `row` (0 for an empty or missing row).
pub fn last_col_index(lines: &Vec<Vec<char>>, row: usize) -> (r: usize)
    ensures
        r == if row < lines@.len() && lines@[row as int]@.len() > 0 {
            lines@[row as int]@.len() - 1
        } else {
            0
        },
{
    if row < lines.len() && lines[row].len() > 0 {
        lines[row].len() - 1
    } else {
        0
    }
}

/// Copy of a row.
pub fn clone_row(row: &Vec<char>) -> (r: Vec<char>)
    ensures
        r@ == row@,
{
    let r = row.clone();
    assert(r@ =~= row@);
    r
}

/// Copy of a buffer.
pub fn clone_lines(lines: &Vec<Vec<char>>) -> (r: Vec<Vec<char>>)
    ensures
        rows(&r) == rows(&lines),
{
    let mut r: Vec<Vec<char>> = Vec::new();
    let mut i: usize = 0;
    while i < lines.len()
        invariant
            i <= lines@.len(),
            r@.len() == i,
            forall|j: int| 0 <= j < i ==> (#[trigger] r@[j])@ == lines@[j]@,
        decreases lines.len() - i,
    {
        r.push(clone_row(&lines[i]));
        i += 1;
    }
    assert(rows(&r) =~= rows(&lines));
    r
}

/// The text of a buffer: its rows joined by line feeds.
pub open spec fn join_rows(rows: Seq<Seq<char>>) -> Seq<char>
    decreases rows.len(),
{
    if rows.len() == 0 {
        Seq::empty()
    } else if rows.len() == 1 {
        rows[0]
    } else {
        join_rows(rows.drop_last()) + seq!['\n'] + rows.last()
    }
}

/// No row contains a line feed.
pub open spec fn rows_without_newline(rows: Seq<Seq<char>>) -> bool {
    forall|i: int, j: int| 0 <= i < rows.len() && 0 <= j < rows[i].len() ==> rows[i][j] != '\n'
}

/// Splits `text` into rows at each line feed (an empty text is one empty row).
pub fn lines_from_text(text: &str) -> (lines: Vec<Vec<char>>)
    ensures
        join_rows(rows(&lines)) == text@,
        rows_without_newline(rows(&lines)),
        lines@.len() >= 1,
{
    let chars = crate::text::str_to_chars(text);
    lines_from_chars(chars.as_slice())
}

/// Splits the characters `chars` into rows at each line feed.
pub fn lines_from_chars(chars: &[char]) -> (lines: Vec<Vec<char>>)
    ensures
        join_rows(rows(&lines)) == chars@,
        rows_without_newline(rows(&lines)),
        lines@.len() >= 1,
{
    let mut lines: Vec<Vec<char>> = Vec::new();
    let mut cur: Vec<char> = Vec::new();
    let mut i: usize = 0;
    while i < chars.len()
        invariant
            i <= chars@.len(),
            join_rows(rows(&lines).push(cur@)) == chars@.take(i as int),
            rows_without_newline(rows(&lines).push(cur@)),
        decreases chars.len() - i,
    {
        let ghost before = rows(&lines).push(cur@);
        if chars[i] == '\n' {
            let done = cur;
            lines.push(done);
            cur = Vec::new();
            proof {
                let after = rows(&lines).push(cur@);
                assert(after.drop_last() =~= before);
                assert(after.last() =~= Seq::<char>::empty());
                assert(join_rows(after) =~= join_rows(before) + seq!['\n'] + Seq::<char>::empty());
                assert(chars@.take(i + 1) =~= chars@.take(i as int) + seq!['\n']);
                assert(rows_without_newline(after)) by {
                    assert forall|a: int, b: int|
                        0 <= a < after.len() && 0 <= b < after[a].len() implies after[a][b]
                        != '\n' by {
                        if a < after.len() - 1 {
                            assert(after[a] == before[a]);
                        }
                    }
                }
            }
        } else {
            cur.push(chars[i]);
            proof {
                let after = rows(&lines).push(cur@);
                assert(after.drop_last() =~= before.drop_last());
                assert(after.last() =~= before.last().push(chars@[i as int]));
                assert(chars@.take(i + 1) =~= chars@.take(i as int).push(chars@[i as int]));
                if before.len() == 1 {
                    assert(join_rows(after) =~= join_rows(before).push(chars@[i as int]));
                } else {
                    assert(join_rows(after) =~= join_rows(before).push(chars@[i as int]));
                }
                assert(rows_without_newline(after)) by {
                    assert forall|a: int, b: int|
                        0 <= a < after.len() && 0 <= b < after[a].len() implies after[a][b]
                        != '\n' by {
                        if a < after.len() - 1 {
                            assert(after[a] == before[a]);
                        } else if b < after[a].len() - 1 {
                            assert(after[a][b] == before[a][b]);
                        }
                    }
                }
            }
        }
        i += 1;
    }
    let ghost before = rows(&lines).push(cur@);
    lines.push(cur);
    proof {
        assert(rows(&lines) =~= before);
        assert(chars@.take(chars@.len() as int) =~= chars@);
    }
    lines
}

/// Scroll offset of the viewport: first visible column (`x`) and row (`y`).
#[derive(Clone, Copy, Debug, PartialEq, Eq, Structural)]
pub struct Point {
    pub x: usize,
    pub y: usize,
}

/// A screen rectangle in terminal cells.
#[derive(Clone, Copy, Debug, PartialEq, Eq, Structural)]
pub struct Rect {
    pub x: u16,
    pub y: u16,
    pub width: u16,
    pub height: u16,
}

impl Rect {
    pub fn new(x: u16, y: u16, width: u16, height: u16) -> (r: Rect)
        ensures
            r == (Rect { x, y, width, height }),
    {
        Rect { x, y, width, height }
    }
}

/// View geometry of the editor.
#[derive(Clone, Copy, Debug, PartialEq, Eq, Structural)]
pub struct ViewState {
    /// Scroll offset.
    pub viewport: Point,
    /// Number of visible rows.
    pub num_rows: usize,
    /// Screen area the editor is drawn in.
    pub screen_area: Rect,
    /// Display width of a tab character.
    pub tab_width: usize,
    /// Whether long lines wrap.
    pub wrap: bool,
}

impl ViewState {
    pub fn new() -> (v: ViewState)
        ensures
            v == ViewState::new_spec(),
    {
        ViewState {
            viewport: Point { x: 0, y: 0 },
            num_rows: 0,
            screen_area: Rect { x: 0, y: 0, width: 0, height: 0 },
            tab_width: 2,
            wrap: false,
        }
    }
}

/// A saved buffer and cursor, for undo and redo.
pub struct Snapshot {
    pub lines: Vec<Vec<char>>,
    pub cursor: Index2,
}

/// The whole editor state.
pub struct EditorState {
    pub lines: Vec<Vec<char>>,
    pub cursor: Index2,
    pub selection: Option<Selection>,
    pub mode: EditorMode,
    pub view: ViewState,
    /// Header rows whose sections are folded.
    pub folded: HashSet<usize>,
    /// Saved states, most recent last.
    pub undo_stack: Vec<Snapshot>,
    /// States undone, most recent last.
    pub redo_stack: Vec<Snapshot>,
}

/// The mathematical model of an editor state.
pub struct EditorModel {
    pub lines: Seq<Seq<char>>,
    pub cursor: Index2,
    pub selection: Option<Selection>,
    pub mode: EditorMode,
    pub view: ViewState,
    pub folded: Set<usize>,
    pub undo: Seq<(Seq<Seq<char>>, Index2)>,
    pub redo: Seq<(Seq<Seq<char>>, Index2)>,
}

/// The snapshot view of a history stack.
pub open spec fn stack_view(s: Seq<Snapshot>) -> Seq<(Seq<Seq<char>>, Index2)> {
    s.map_values(|x: Snapshot| (rows(&x.lines), x.cursor))
}

impl View for EditorState {
    type V = EditorModel;

    open spec fn view(&self) -> EditorModel {
        EditorModel {
            lines: rows(&self.lines),
            cursor: self.cursor,
            selection: self.selection,
            mode: self.mode,
            view: self.view,
            folded: self.folded@,
            undo: stack_view(self.undo_stack@),
            redo: stack_view(self.redo_stack@),
        }
    }
}

/// The largest column the cursor may take on row `row` in mode `mode`: the
/// last character in normal, visual and search mode, one past it in insert
/// mode.
pub open spec fn max_col(rows: Seq<Seq<char>>, row: int, mode: EditorMode) -> int {
    let len = if 0 <= row < rows.len() { rows[row].len() as int } else { 0 };
    match mode {
        EditorMode::Insert => len,
        _ => if len == 0 { 0 } else { len - 1 },
    }
}

/// `m` with its cursor column pulled back to `max_col`.
pub open spec fn clamp_model(m: EditorModel) -> EditorModel {
    let mc = max_col(m.lines, m.cursor.row as int, m.mode);
    if m.cursor.col <= mc {
        m
    } else {
        EditorModel { cursor: Index2 { row: m.cursor.row, col: mc as usize }, ..m }
    }
}

/// `m` with its buffer and cursor saved for undo and the redo history gone.
pub open spec fn capture_model(m: EditorModel) -> EditorModel {
    EditorModel { undo: m.undo.push((m.lines, m.cursor)), redo: Seq::empty(), ..m }
}

/// `m` after an undo: the last saved buffer and cursor come back and the
/// current ones are saved for redo.
pub open spec fn undo_model(m: EditorModel) -> EditorModel {
    if m.undo.len() == 0 {
        m
    } else {
        EditorModel {
            lines: m.undo.last().0,
            cursor: m.undo.last().1,
            undo: m.undo.drop_last(),
            redo: m.redo.push((m.lines, m.cursor)),
            ..m
        }
    }
}

/// `m` after a redo: the last undone buffer and cursor come back and the
/// current ones are saved for undo.
pub open spec fn redo_model(m: EditorModel) -> EditorModel {
    if m.redo.len() == 0 {
        m
    } else {
        EditorModel {
            lines: m.redo.last().0,
            cursor: m.redo.last().1,
            redo: m.redo.drop_last(),
            undo: m.undo.push((m.lines, m.cursor)),
            ..m
        }
    }
}

impl ViewState {
    pub open spec fn new_spec() -> ViewState {
        ViewState {
            viewport: Point { x: 0, y: 0 },
            num_rows: 0,
            screen_area: Rect { x: 0, y: 0, width: 0, height: 0 },
            tab_width: 2,
            wrap: false,
        }
    }
}

impl EditorState {
    /// A state in normal mode with the cursor at the start of `lines`.
    pub fn new(lines: Vec<Vec<char>>) -> (s: EditorState)
        ensures
            s@.lines == rows(&lines),
            s@.cursor == (Index2 { row: 0, col: 0 }),
            (s@.selection is None),
            s@.mode == EditorMode::Normal,
            s@.view == ViewState::new_spec(),
            s@.folded == Set::<usize>::empty(),
            s@.undo.len() == 0,
            s@.redo.len() == 0,
    {
        EditorState {
            lines,
            cursor: Index2 { row: 0, col: 0 },
            selection: None,
            mode: EditorMode::Normal,
            view: ViewState::new(),
            folded: HashSet::new(),
            undo_stack: Vec::new(),
            redo_stack: Vec::new(),
        }
    }

    /// A state holding the rows of `text`.
    pub fn from_text(text: &str) -> (s: EditorState)
        ensures
            join_rows(s@.lines) == text@,
            rows_without_newline(s@.lines),
            s@.lines.len() >= 1,
            s@.cursor == (Index2 { row: 0, col: 0 }),
            (s@.selection is None),
            s@.mode == EditorMode::Normal,
            s@.view == ViewState::new_spec(),
            s@.folded == Set::<usize>::empty(),
            s@.undo.len() == 0,
            s@.redo.len() == 0,
    {
        EditorState::new(lines_from_text(text))
    }

    /// A state with an empty buffer.
    pub fn empty() -> (s: EditorState)
        ensures
            s@.lines.len() == 0,
            s@.cursor == (Index2 { row: 0, col: 0 }),
            (s@.selection is None),
            s@.mode == EditorMode::Normal,
            s@.view == ViewState::new_spec(),
            s@.folded == Set::<usize>::empty(),
            s@.undo.len() == 0,
            s@.redo.len() == 0,
    {
        let s = EditorState::new(Vec::new());
        assert(s@.lines =~= Seq::<Seq<char>>::empty());
        s
    }

    /// Pulls the cursor column back inside its row (see `max_col`).
    pub fn clamp_column(&mut self)
        ensures
            final(self)@ == clamp_model(old(self)@),
    {
        let len = match len_col(&self.lines, self.cursor.row) {
            Some(l) => l,
            None => 0,
        };
        let max = match self.mode {
            EditorMode::Insert => len,
            _ => if len == 0 {
                0
            } else {
                len - 1
            },
        };

        if self.cursor.col > max {
            self.cursor.col = max;
        }
    }

    /// Saves the buffer and cursor on the undo stack and forgets the redo
    /// stack.
    pub fn capture(&mut self)
        ensures
            final(self)@ == capture_model(old(self)@),
    {
        let snap = Snapshot { lines: clone_lines(&self.lines), cursor: self.cursor };
        self.undo_stack.push(snap);
        self.redo_stack = Vec::new();
        proof {
            assert(stack_view(self.undo_stack@) =~= stack_view(old(self).undo_stack@).push(
                (rows(&old(self).lines), old(self).cursor),
            ));
            assert(stack_view(self.redo_stack@) =~= Seq::empty());
        }
    }

    /// Restores the most recently saved state, saving the current one for
    /// redo. Does nothing when there is nothing to undo.
    pub fn undo(&mut self)
        ensures
            final(self)@ == undo_model(old(self)@),
    {
        if self.undo_stack.len() > 0 {
            let prev = self.undo_stack.pop().unwrap();
            let Snapshot { lines: mut swapped, cursor: prev_cursor } = prev;
            std::mem::swap(&mut self.lines, &mut swapped);
            let cur = Snapshot { lines: swapped, cursor: self.cursor };
            self.cursor = prev_cursor;
            self.redo_stack.push(cur);
            proof {
                assert(stack_view(self.undo_stack@) =~= stack_view(
                    old(self).undo_stack@,
                ).drop_last());
                assert(stack_view(self.redo_stack@) =~= stack_view(old(self).redo_stack@).push(
                    (rows(&old(self).lines), old(self).cursor),
                ));
            }
        }
    }

    /// Re-applies the most recently undone state, saving the current one for
    /// undo. Does nothing when there is nothing to redo.
    pub fn redo(&mut self)
        ensures
            final(self)@ == redo_model(old(self)@),
    {
        if self.redo_stack.len() > 0 {
            let next = self.redo_stack.pop().unwrap();
            let Snapshot { lines: mut swapped, cursor: next_cursor } = next;
            std::mem::swap(&mut self.lines, &mut swapped);
            let cur = Snapshot { lines: swapped, cursor: self.cursor };
            self.cursor = next_cursor;
            self.undo_stack.push(cur);
            proof {
                assert(stack_view(self.redo_stack@) =~= stack_view(
                    old(self).redo_stack@,
                ).drop_last());
                assert(stack_view(self.undo_stack@) =~= stack_view(old(self).undo_stack@).push(
                    (rows(&old(self).lines), old(self).cursor),
                ));
            }
        }
    }
}

/// Undoing right after a capture gives back the captured buffer and cursor
/// and the history as it was before the capture.
pub proof fn lemma_undo_after_capture(m: EditorModel)
    ensures
        undo_model(capture_model(m)).lines == m.lines,
        undo_model(capture_model(m)).cursor == m.cursor,
        undo_model(capture_model(m)).undo == m.undo,
{
    assert(m.undo.push((m.lines, m.cursor)).drop_last() =~= m.undo);
}

/// Redo undoes an undo: whenever there is something to undo, undoing and
/// then redoing returns to the same state.
pub proof fn lemma_redo_after_undo(m: EditorModel)
    requires
        m.undo.len() > 0,
    ensures
        redo_model(undo_model(m)) == m,
{
    let u = undo_model(m);
    assert(u.redo.drop_last() =~= m.redo);
    assert(u.undo.push((u.lines, u.cursor)) =~= m.undo);
}

/// Undo undoes a redo: whenever there is something to redo, redoing and then
/// undoing returns to the same state.
pub proof fn lemma_undo_after_redo(m: EditorModel)
    requires
        m.redo.len() > 0,
    ensures
        undo_model(redo_model(m)) == m,
{
    let r = redo_model(m);
    assert(r.undo.drop_last() =~= m.undo);
    assert(r.redo.push((r.lines, r.cursor)) =~= m.redo);
}

} // verus!
