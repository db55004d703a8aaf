//! Visual-mode indentation: shift the selected lines by one indent level.
//!
//! Indentation is expressed in spaces (`tab_width` spaces per level), never a
//! literal tab.

use crate::edtui::actions::Execute;
use crate::edtui::{capture_model, clamp_model, EditorMode, EditorModel, EditorState, Index2};
use vstd::prelude::*;

verus! {

/// Indent every line in the visual selection by one level.
#[derive(Clone, Debug)]
pub struct IndentSelection;

/// Dedent every line in the visual selection by one level.
#[derive(Clone, Debug)]
pub struct DedentSelection;

/// Direction of a shift.
#[derive(Clone, Copy, Debug, PartialEq, Eq, Structural)]
pub enum Shift {
    Right,
    Left,
}

/// Number of leading spaces of `line`, at most `width`.
pub open spec fn leading_spaces(line: Seq<char>, width: nat) -> nat
    decreases width,
{
    if width == 0 || line.len() == 0 || line[0] != ' ' {
        0
    } else {
        1 + leading_spaces(line.drop_first(), (width - 1) as nat)
    }
}

/// `line` with one indent level removed: a single leading tab, or up to
/// `width` leading spaces.
pub open spec fn dedent_line(line: Seq<char>, width: nat) -> Seq<char> {
    if line.len() > 0 && line[0] == '\t' {
        line.drop_first()
    } else {
        line.skip(leading_spaces(line, width) as int)
    }
}

/// `line` with one indent level added: `width` spaces in front, unless the
/// line is empty (blank lines get no trailing white space).
pub open spec fn indent_line(line: Seq<char>, width: nat) -> Seq<char> {
    if line.len() == 0 {
        line
    } else {
        Seq::new(width, |i: int| ' ') + line
    }
}

/// The indent width used by shifts: the tab width, but at least 1.
pub open spec fn shift_width(tab_width: usize) -> nat {
    if tab_width == 0 { 1 } else { tab_width as nat }
}

/// `m` after shifting the visual selection by one level in direction `dir`.
/// Outside visual mode or without a selection nothing happens. Otherwise the
/// buffer is saved for undo, every existing row from the first to the last
/// selected row is shifted, the selection is dropped, the editor returns to
/// normal mode and the cursor goes to the start of the first selected row.
pub open spec fn shift_model(m: EditorModel, dir: Shift) -> EditorModel {
    if m.mode != EditorMode::Visual || m.selection is None {
        m
    } else {
        let sel = m.selection->0;
        let first = sel.first().row as int;
        let last = sel.last().row as int;
        let w = shift_width(m.view.tab_width);
        let c = capture_model(m);
        clamp_model(
            EditorModel {
                lines: Seq::new(
                    m.lines.len(),
                    |r: int|
                        if first <= r && r <= last {
                            match dir {
                                Shift::Right => indent_line(m.lines[r], w),
                                Shift::Left => dedent_line(m.lines[r], w),
                            }
                        } else {
                            m.lines[r]
                        },
                ),
                selection: None,
                mode: EditorMode::Normal,
                cursor: Index2 { row: first as usize, col: 0 },
                ..c
            },
        )
    }
}

/// Removes one indent level from the front of `line`: a single leading tab,
/// or up to `width` leading spaces.
pub fn remove_one_indent(line: &mut Vec<char>, width: usize)
    ensures
        final(line)@ == dedent_line(old(line)@, width as nat),
{
    if line.len() > 0 && line[0] == '\t' {
        line.remove(0);
        return;
    }
    let mut spaces: usize = 0;
    while spaces < line.len() && spaces < width && line[spaces] == ' '
        invariant
            spaces <= line@.len(),
            spaces <= width,
            line@ == old(line)@,
            forall|k: int| 0 <= k < spaces ==> line@[k] == ' ',
        decreases width - spaces,
    {
        spaces += 1;
    }
    proof {
        lemma_leading_spaces(line@, width as nat, spaces as nat);
    }
    let mut rest: Vec<char> = Vec::new();
    let mut i = spaces;
    while i < line.len()
        invariant
            spaces <= i <= line@.len(),
            rest@ == line@.subrange(spaces as int, i as int),
        decreases line.len() - i,
    {
        rest.push(line[i]);
        i += 1;
        proof {
            assert(rest@ =~= line@.subrange(spaces as int, i as int));
        }
    }
    proof {
        assert(rest@ =~= line@.skip(spaces as int));
    }
    *line = rest;
}

proof fn lemma_leading_spaces(line: Seq<char>, width: nat, k: nat)
    requires
        k <= line.len(),
        k <= width,
        forall|j: int| 0 <= j < k ==> line[j] == ' ',
        k == line.len() || k == width || line[k as int] != ' ',
    ensures
        leading_spaces(line, width) == k,
    decreases k,
{
    if k > 0 {
        assert forall|j: int| 0 <= j < k - 1 implies line.drop_first()[j] == ' ' by {
            assert(line.drop_first()[j] == line[j + 1]);
        }
        lemma_leading_spaces(line.drop_first(), (width - 1) as nat, (k - 1) as nat);
    }
}

/// `line` with `width` spaces in front (nothing for an empty line).
fn indented(line: &Vec<char>, width: usize) -> (r: Vec<char>)
    ensures
        r@ == indent_line(line@, width as nat),
{
    if line.len() == 0 {
        return crate::edtui::clone_row(line);
    }
    let mut r: Vec<char> = Vec::new();
    let mut i: usize = 0;
    while i < width
        invariant
            i <= width,
            r@ == Seq::new(i as nat, |k: int| ' '),
        decreases width - i,
    {
        r.push(' ');
        i += 1;
        proof {
            assert(r@ =~= Seq::new(i as nat, |k: int| ' '));
        }
    }
    let mut j: usize = 0;
    while j < line.len()
        invariant
            j <= line@.len(),
            r@ == Seq::new(width as nat, |k: int| ' ') + line@.take(j as int),
        decreases line.len() - j,
    {
        r.push(line[j]);
        j += 1;
        proof {
            assert(r@ =~= Seq::new(width as nat, |k: int| ' ') + line@.take(j as int));
        }
    }
    proof {
        assert(line@.take(line@.len() as int) =~= line@);
    }
    r
}

/// Shifts every selected line by one indent level, then drops the selection
/// and returns to normal mode with the cursor on the first shifted line. Does
/// nothing outside visual mode or without a selection.
pub fn shift_selection(state: &mut EditorState, dir: Shift)
    ensures
        final(state)@ == shift_model(old(state)@, dir),
{
    if state.mode != EditorMode::Visual {
        return;
    }
    let selection = match state.selection {
        Some(s) => s,
        None => {
            return;
        },
    };
    let start = selection.start();
    let end = selection.end();
    state.capture();
    let ghost captured = state@;
    let width = if state.view.tab_width == 0 {
        1
    } else {
        state.view.tab_width
    };
    let mut new_lines: Vec<Vec<char>> = Vec::new();
    let mut r: usize = 0;
    while r < state.lines.len()
        invariant
            r <= state@.lines.len(),
            state@ == captured,
            width as nat == shift_width(captured.view.tab_width),
            new_lines@.len() == r,
            forall|k: int|
                0 <= k < r ==> (#[trigger] new_lines@[k])@ == (if start.row <= k && k <= end.row {
                    match dir {
                        Shift::Right => indent_line(captured.lines[k], width as nat),
                        Shift::Left => dedent_line(captured.lines[k], width as nat),
                    }
                } else {
                    captured.lines[k]
                }),
        decreases state.lines.len() - r,
    {
        if start.row <= r && r <= end.row {
            match dir {
                Shift::Right => {
                    new_lines.push(indented(&state.lines[r], width));
                },
                Shift::Left => {
                    let mut row = crate::edtui::clone_row(&state.lines[r]);
                    remove_one_indent(&mut row, width);
                    new_lines.push(row);
                },
            }
        } else {
            new_lines.push(crate::edtui::clone_row(&state.lines[r]));
        }
        r += 1;
    }
    state.lines = new_lines;
    state.selection = None;
    state.mode = EditorMode::Normal;
    state.cursor = Index2::new(start.row, 0);
    proof {
        let m = old(state)@;
        let w = shift_width(m.view.tab_width);
        assert(state@.lines =~= Seq::new(
            m.lines.len(),
            |r: int|
                if start.row <= r && r <= end.row {
                    match dir {
                        Shift::Right => indent_line(m.lines[r], w),
                        Shift::Left => dedent_line(m.lines[r], w),
                    }
                } else {
                    m.lines[r]
                },
        ));
    }
    state.clamp_column();
}

impl Execute for IndentSelection {
    fn execute(&self, state: &mut EditorState)
        ensures
            final(state)@ == shift_model(old(state)@, Shift::Right),
    {
        shift_selection(state, Shift::Right);
    }
}

impl Execute for DedentSelection {
    fn execute(&self, state: &mut EditorState)
        ensures
            final(state)@ == shift_model(old(state)@, Shift::Left),
    {
        shift_selection(state, Shift::Left);
    }
}

/// Dedenting an indented non-empty line gives the line back, for any indent
/// width of at least one.
pub proof fn lemma_dedent_undoes_indent(line: Seq<char>, width: nat)
    requires
        width >= 1,
    ensures
        dedent_line(indent_line(line, width), width) == line,
{
    let ind = indent_line(line, width);
    if line.len() > 0 {
        assert(ind[0] == ' ');
        lemma_leading_spaces_of_indent(line, width, width);
        assert(ind.skip(width as int) =~= line);
    }
}

proof fn lemma_leading_spaces_of_indent(line: Seq<char>, width: nat, w: nat)
    requires
        line.len() > 0,
        w == width,
    ensures
        leading_spaces(Seq::new(width, |i: int| ' ') + line, w) == w,
{
    let s = Seq::new(width, |i: int| ' ') + line;
    lemma_leading_spaces(s, w, w);
}

/// Indenting a selection and then dedenting the same rows gives back the
/// buffer that was there before the indent, in any state where the indent
/// applies.
pub proof fn lemma_indent_then_dedent(m: EditorModel, sel: crate::edtui::Selection)
    requires
        m.mode == EditorMode::Visual,
        m.selection == Some(sel),
    ensures
        ({
            let i = shift_model(m, Shift::Right);
            let again = EditorModel { mode: EditorMode::Visual, selection: Some(sel), ..i };
            shift_model(again, Shift::Left).lines == m.lines
        }),
{
    let i = shift_model(m, Shift::Right);
    let again = EditorModel { mode: EditorMode::Visual, selection: Some(sel), ..i };
    let d = shift_model(again, Shift::Left);
    let w = shift_width(m.view.tab_width);
    assert forall|r: int| 0 <= r < m.lines.len() implies d.lines[r] == m.lines[r] by {
        if sel.first().row <= r && r <= sel.last().row {
            lemma_dedent_undoes_indent(m.lines[r], w);
        }
    }
    assert(d.lines =~= m.lines);
}

} // verus!
