//! Cursor motions: the `h`, `j`, `k`, `l`, arrow and page keys move the
//! cursor by a row and column step, a count of times; and `x`, which
//! deletes a count of characters from the cursor on.

use crate::edtui::{
    capture_model, clamp_model, len_col, last_row_index, max_col, set_selection, EditorModel, EditorMode,
    EditorState, Index2, Selection,
};
use vstd::prelude::*;

verus! {

/// The cursor after one step by `dr` rows and `dc` columns: the row is
/// held within the buffer's rows, the column at zero and then pulled back to
/// the row's `max_col`.
pub open spec fn motion_step(rows: Seq<Seq<char>>, c: Index2, dr: int, dc: int, mode: EditorMode) -> Index2 {
    let last: int = if rows.len() == 0 { 0 } else { rows.len() - 1 };
    let r0 = c.row + dr;
    let row: int = if r0 < 0 { 0 } else if r0 > last { last } else { r0 };
    let c0 = c.col + dc;
    let col0: int = if c0 < 0 { 0 } else { c0 };
    let mc = max_col(rows, row, mode);
    let col: int = if col0 <= mc { col0 } else { mc };
    Index2 { row: row as usize, col: col as usize }
}

/// The cursor after `n` steps (see `motion_step`).
pub open spec fn motion_steps(rows: Seq<Seq<char>>, c: Index2, dr: int, dc: int, mode: EditorMode, n: nat) -> Index2
    decreases n,
{
    if n == 0 {
        c
    } else {
        motion_step(rows, motion_steps(rows, c, dr, dc, mode, (n - 1) as nat), dr, dc, mode)
    }
}

/// `m` after a motion of `count` steps: the cursor moved and the end of a
/// selection following it; nothing else changes.
pub open spec fn motion_model(m: EditorModel, dr: int, dc: int, count: nat) -> EditorModel {
    let c = motion_steps(m.lines, m.cursor, dr, dc, m.mode, count);
    EditorModel {
        cursor: c,
        selection: match m.selection {
            Some(s) => Some(Selection { start: s.start, end: c }),
            None => None,
        },
        ..m
    }
}

/// Moves the cursor `count` times by `dr` rows and `dc` columns (see
/// `motion_step`); the end of a visual selection follows the cursor.
pub fn move_cursor(state: &mut EditorState, dr: isize, dc: isize, count: usize)
    ensures
        final(state)@ == motion_model(old(state)@, dr as int, dc as int, count as nat),
{
    let last: i128 = last_row_index(&state.lines) as i128;
    let mut cur: Index2 = state.cursor;
    let mut i: usize = 0;
    while i < count
        invariant
            i <= count,
            0 <= last <= usize::MAX,
            last == (if state@.lines.len() == 0 { 0 } else { state@.lines.len() - 1 }),
            cur == motion_steps(state@.lines, state@.cursor, dr as int, dc as int, state@.mode, i as nat),
        decreases count - i,
    {
        let r0: i128 = cur.row as i128 + dr as i128;
        let row: i128 = if r0 < 0 {
            0
        } else if r0 > last {
            last
        } else {
            r0
        };
        let c0: i128 = cur.col as i128 + dc as i128;
        let col0: i128 = if c0 < 0 {
            0
        } else {
            c0
        };
        let len: usize = match len_col(&state.lines, row as usize) {
            Some(l) => l,
            None => 0,
        };
        let max: usize = match state.mode {
            EditorMode::Insert => len,
            _ => if len == 0 {
                0
            } else {
                len - 1
            },
        };
        let col: usize = if col0 <= max as i128 {
            col0 as usize
        } else {
            max
        };
        assert(max as int == max_col(state@.lines, row as int, state@.mode)) by {
            assert(state@.lines.len() == state.lines@.len());
            if 0 <= row < state@.lines.len() {
                assert(state@.lines[row as int] == state.lines@[row as int]@);
            }
        }
        cur = Index2::new(row as usize, col);
        i += 1;
    }
    state.cursor = cur;
    set_selection(&mut state.selection, cur);
}

/// `m` after `x` with a count: the characters from the cursor on, `count`
/// of them or as many as the row has, are deleted (the state before saved
/// for undo) and the cursor pulled back inside the row. Nothing happens on a
/// zero count or where the cursor is on no character.
pub open spec fn delete_chars_model(m: EditorModel, count: nat) -> EditorModel {
    let row = m.cursor.row as int;
    let col = m.cursor.col as int;
    if count > 0 && row < m.lines.len() && col < m.lines[row].len() {
        let line = m.lines[row];
        let end: int = if col + count < line.len() { col + count } else { line.len() as int };
        let c = capture_model(m);
        clamp_model(EditorModel { lines: c.lines.update(row, line.take(col) + line.skip(end)), ..c })
    } else {
        m
    }
}

/// Deletes `count` characters from the cursor on (see `delete_chars_model`);
/// says whether anything was deleted.
pub fn delete_chars_at_cursor(state: &mut EditorState, count: usize) -> (changed: bool)
    ensures
        final(state)@ == delete_chars_model(old(state)@, count as nat),
        changed == (count > 0 && (old(state).cursor.row as int) < old(state)@.lines.len() && (old(
            state,
        ).cursor.col as int) < old(state)@.lines[old(state).cursor.row as int].len()),
{
    let row = state.cursor.row;
    let col = state.cursor.col;
    if count == 0 || row >= state.lines.len() || col >= state.lines[row].len() {
        return false;
    }
    state.capture();
    let ghost c = state@;
    let n = state.lines[row].len();
    let end: usize = if count < n - col {
        col + count
    } else {
        n
    };
    let mut nl: Vec<char> = Vec::new();
    crate::text::push_chars(&mut nl, &state.lines[row].as_slice()[0..col]);
    crate::text::push_chars(&mut nl, &state.lines[row].as_slice()[end..n]);
    proof {
        assert(nl@ =~= c.lines[row as int].take(col as int) + c.lines[row as int].skip(end as int));
    }
    state.lines.set(row, nl);
    proof {
        assert(crate::edtui::rows(&state.lines) =~= c.lines.update(row as int, nl@));
    }
    state.clamp_column();
    true
}

} // verus!
