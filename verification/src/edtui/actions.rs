//! Editor actions: switching mode, undo and redo, toggling case, and running
//! several actions one after the other.

use crate::edtui::{
    capture_model, clamp_model, redo_model, undo_model, EditorMode, EditorModel, EditorState,
    Index2, Selection,
};
use crate::text::{
    char_is_uppercase, char_lowercase_first, char_uppercase_first, lowercase_first,
    unicode_uppercase, uppercase_first,
};
use vstd::prelude::*;

verus! {

/// The actions the editor can run.
#[derive(Debug)]
pub enum Action {
    SwitchMode(SwitchMode),
    Undo(Undo),
    Redo(Redo),
    Composed(Composed),
    ToggleCase(ToggleCase),
}

/// Something that acts on the editor state.
pub trait Execute {
    fn execute(&self, state: &mut EditorState);
}

/// Builds a composed action from `self` followed by `action`.
pub trait Chainable {
    fn chain(self, action: Action) -> Composed;
}

/// Switches the editor mode.
#[derive(Clone, Debug)]
pub struct SwitchMode(pub EditorMode);

/// Undoes the last change.
#[derive(Clone, Debug)]
pub struct Undo;

/// Redoes the last undone change.
#[derive(Clone, Debug)]
pub struct Redo;

/// Toggles the case of the character under the cursor, or of the selection in
/// visual mode.
#[derive(Clone, Debug)]
pub struct ToggleCase;

/// Executes several actions one after the other.
#[derive(Debug)]
pub struct Composed(pub Vec<Action>);

/// `m` after switching to `mode`: the cursor column is clamped first; normal
/// mode drops the selection, visual mode starts an empty selection at the
/// cursor, and entering insert mode from normal or visual mode saves the
/// buffer for undo.
pub open spec fn switch_mode_model(m: EditorModel, mode: EditorMode) -> EditorModel {
    let c = clamp_model(m);
    let c2 = match mode {
        EditorMode::Normal => EditorModel { selection: None, ..c },
        EditorMode::Visual => EditorModel {
            selection: Some(Selection { start: c.cursor, end: c.cursor }),
            ..c
        },
        EditorMode::Insert => if c.mode != EditorMode::Insert && c.mode != EditorMode::Search {
            capture_model(c)
        } else {
            c
        },
        EditorMode::Search => c,
    };
    EditorModel { mode, ..c2 }
}

/// The character with its case toggled: upper case becomes lower case and
/// everything else is upper-cased.
pub open spec fn toggle_char(c: char) -> char {
    if unicode_uppercase(c) {
        lowercase_first(c)
    } else {
        uppercase_first(c)
    }
}

/// `row` with the case of the characters at columns `lo..=hi` toggled.
pub open spec fn toggle_span(row: Seq<char>, lo: int, hi: int) -> Seq<char> {
    Seq::new(row.len(), |c: int| if lo <= c && c <= hi { toggle_char(row[c]) } else { row[c] })
}

/// `lines` with the case of every character between `first` and `last`
/// (inclusive, in reading order) toggled.
pub open spec fn toggle_selection(lines: Seq<Seq<char>>, first: Index2, last: Index2) -> Seq<
    Seq<char>,
> {
    Seq::new(
        lines.len(),
        |r: int|
            if first.row <= r && r <= last.row {
                toggle_span(
                    lines[r],
                    if r == first.row { first.col as int } else { 0 },
                    if r == last.row { last.col as int } else { lines[r].len() - 1 },
                )
            } else {
                lines[r]
            },
    )
}

/// `m` after toggling case. Nothing happens on an empty buffer; otherwise the
/// buffer is saved for undo. In visual mode with a selection the selected
/// characters are toggled, the selection is dropped and the editor returns to
/// normal mode. Otherwise the character under the cursor, if there is one, is
/// toggled and the cursor moves one column right, staying on the row.
pub open spec fn toggle_case_model(m: EditorModel) -> EditorModel {
    if m.lines.len() == 0 {
        m
    } else {
        let c = capture_model(m);
        if m.mode == EditorMode::Visual {
            match m.selection {
                None => c,
                Some(sel) => clamp_model(
                    EditorModel {
                        lines: toggle_selection(m.lines, sel.first(), sel.last()),
                        selection: None,
                        mode: EditorMode::Normal,
                        ..c
                    },
                ),
            }
        } else {
            let row = m.cursor.row as int;
            let col = m.cursor.col as int;
            if row < m.lines.len() && col < m.lines[row].len() {
                let len = m.lines[row].len() as int;
                EditorModel {
                    lines: m.lines.update(row, m.lines[row].update(col, toggle_char(m.lines[row][col]))),
                    cursor: Index2 {
                        row: m.cursor.row,
                        col: (if col + 1 <= len - 1 { col + 1 } else { len - 1 }) as usize,
                    },
                    ..c
                }
            } else {
                c
            }
        }
    }
}

/// `m` after running `a`.
pub open spec fn action_model(a: Action, m: EditorModel) -> EditorModel
    decreases a,
{
    match a {
        Action::SwitchMode(s) => switch_mode_model(m, s.0),
        Action::Undo(_) => undo_model(m),
        Action::Redo(_) => redo_model(m),
        Action::ToggleCase(_) => toggle_case_model(m),
        Action::Composed(c) => actions_model(c.0@, m),
    }
}

/// `m` after running `acts` in order.
pub open spec fn actions_model(acts: Seq<Action>, m: EditorModel) -> EditorModel
    decreases acts,
{
    if acts.len() == 0 {
        m
    } else {
        actions_model(acts.subrange(1, acts.len() as int), action_model(acts[0], m))
    }
}

fn toggle(c: char) -> (r: char)
    ensures
        r == toggle_char(c),
{
    if char_is_uppercase(c) {
        char_lowercase_first(c)
    } else {
        char_uppercase_first(c)
    }
}

/// A copy of `row` with the case of columns `lo..=hi` toggled.
fn toggled_row(row: &Vec<char>, lo: usize, hi: usize, hi_is_end: bool) -> (r: Vec<char>)
    ensures
        r@ == toggle_span(row@, lo as int, if hi_is_end { row@.len() - 1 } else { hi as int }),
{
    let ghost h: int = if hi_is_end { row@.len() - 1 } else { hi as int };
    let mut r: Vec<char> = Vec::new();
    let mut c: usize = 0;
    while c < row.len()
        invariant
            c <= row@.len(),
            r@.len() == c,
            h == if hi_is_end { row@.len() - 1 } else { hi as int },
            forall|k: int| 0 <= k < c ==> #[trigger] r@[k] == (if lo <= k && k <= h { toggle_char(row@[k]) } else { row@[k] }),
        decreases row.len() - c,
    {
        if lo <= c && (hi_is_end || c <= hi) {
            r.push(toggle(row[c]));
        } else {
            r.push(row[c]);
        }
        c += 1;
    }
    assert(r@ =~= toggle_span(row@, lo as int, h));
    r
}

impl Execute for SwitchMode {
    fn execute(&self, state: &mut EditorState)
        ensures
            final(state)@ == switch_mode_model(old(state)@, self.0),
    {
        state.clamp_column();
        match self.0 {
            EditorMode::Normal => {
                state.selection = None;
            },
            EditorMode::Visual => {
                state.selection = Some(Selection::new(state.cursor, state.cursor));
            },
            EditorMode::Insert => {
                if state.mode != EditorMode::Insert && state.mode != EditorMode::Search {
                    state.capture();
                }
            },
            EditorMode::Search => {},
        }
        state.mode = self.0;
    }
}

impl Execute for Undo {
    fn execute(&self, state: &mut EditorState)
        ensures
            final(state)@ == undo_model(old(state)@),
    {
        state.undo();
    }
}

impl Execute for Redo {
    fn execute(&self, state: &mut EditorState)
        ensures
            final(state)@ == redo_model(old(state)@),
    {
        state.redo();
    }
}

impl Execute for ToggleCase {
    fn execute(&self, state: &mut EditorState)
        ensures
            final(state)@ == toggle_case_model(old(state)@),
    {
        if state.lines.len() == 0 {
            return;
        }
        state.capture();
        let ghost captured = state@;
        if state.mode == EditorMode::Visual {
            if let Some(selection) = state.selection {
                let start = selection.start();
                let end = selection.end();
                let mut new_lines: Vec<Vec<char>> = Vec::new();
                let mut r: usize = 0;
                while r < state.lines.len()
                    invariant
                        r <= state@.lines.len(),
                        state@ == captured,
                        new_lines@.len() == r,
                        forall|k: int|
                            0 <= k < r ==> (#[trigger] new_lines@[k])@ == toggle_selection(
                                captured.lines,
                                start,
                                end,
                            )[k],
                    decreases state.lines.len() - r,
                {
                    if start.row <= r && r <= end.row {
                        let lo = if r == start.row {
                            start.col
                        } else {
                            0
                        };
                        new_lines.push(toggled_row(&state.lines[r], lo, end.col, r != end.row));
                    } else {
                        new_lines.push(crate::edtui::clone_row(&state.lines[r]));
                    }
                    r += 1;
                }
                state.lines = new_lines;
                state.selection = None;
                state.mode = EditorMode::Normal;
                proof {
                    assert(state@.lines =~= toggle_selection(captured.lines, start, end));
                }
                state.clamp_column();
            }
        } else {
            let row = state.cursor.row;
            let col = state.cursor.col;
            if row < state.lines.len() && col < state.lines[row].len() {
                let len = state.lines[row].len();
                let mut new_row = crate::edtui::clone_row(&state.lines[row]);
                let ch = new_row[col];
                new_row.set(col, toggle(ch));
                let mut new_lines: Vec<Vec<char>> = Vec::new();
                let mut r: usize = 0;
                while r < state.lines.len()
                    invariant
                        r <= state@.lines.len(),
                        state@ == captured,
                        row < state@.lines.len(),
                        new_row@ == captured.lines[row as int].update(
                            col as int,
                            toggle_char(captured.lines[row as int][col as int]),
                        ),
                        new_lines@.len() == r,
                        forall|k: int|
                            0 <= k < r ==> (#[trigger] new_lines@[k])@ == (if k == row {
                                new_row@
                            } else {
                                captured.lines[k]
                            }),
                    decreases state.lines.len() - r,
                {
                    if r == row {
                        new_lines.push(crate::edtui::clone_row(&new_row));
                    } else {
                        new_lines.push(crate::edtui::clone_row(&state.lines[r]));
                    }
                    r += 1;
                }
                state.lines = new_lines;
                state.cursor.col = if col + 1 <= len - 1 {
                    col + 1
                } else {
                    len - 1
                };
                proof {
                    assert(state@.lines =~= captured.lines.update(row as int, new_row@));
                }
            }
        }
    }
}

impl Composed {
    /// A composed action of the single action `action`.
    pub fn new(action: Action) -> (c: Composed)
        ensures
            c.0@ == seq![action],
    {
        Composed(vec![action])
    }

    /// `self` followed by `action`.
    pub fn chain(self, action: Action) -> (c: Composed)
        ensures
            c.0@ == self.0@.push(action),
    {
        let mut v = self.0;
        v.push(action);
        Composed(v)
    }
}

impl Execute for Composed {
    fn execute(&self, state: &mut EditorState)
        ensures
            final(state)@ == actions_model(self.0@, old(state)@),
        decreases self,
    {
        let mut i: usize = 0;
        let n = self.0.len();
        assert(self.0@.subrange(0, n as int) =~= self.0@);
        while i < n
            invariant
                n == self.0@.len(),
                i <= n,
                actions_model(self.0@, old(state)@) == actions_model(
                    self.0@.subrange(i as int, n as int),
                    state@,
                ),
            decreases n - i,
        {
            proof {
                let rest = self.0@.subrange(i as int, n as int);
                assert(rest.subrange(1, rest.len() as int) =~= self.0@.subrange(i + 1, n as int));
                assert(rest[0] == self.0@[i as int]);
            }
            self.0[i].execute(state);
            i += 1;
        }
        proof {
            assert(self.0@.subrange(n as int, n as int) =~= Seq::<Action>::empty());
        }
    }
}

impl Execute for Action {
    fn execute(&self, state: &mut EditorState)
        ensures
            final(state)@ == action_model(*self, old(state)@),
        decreases self,
    {
        match self {
            Action::SwitchMode(a) => a.execute(state),
            Action::Undo(a) => a.execute(state),
            Action::Redo(a) => a.execute(state),
            Action::ToggleCase(a) => a.execute(state),
            Action::Composed(a) => a.execute(state),
        }
    }
}

impl Chainable for Action {
    fn chain(self, action: Action) -> (c: Composed)
        ensures
            c.0@ == seq![self, action],
    {
        Composed::new(self).chain(action)
    }
}

impl Chainable for SwitchMode {
    fn chain(self, action: Action) -> (c: Composed)
        ensures
            c.0@ == seq![Action::SwitchMode(self), action],
    {
        Composed::new(Action::SwitchMode(self)).chain(action)
    }
}

impl Chainable for ToggleCase {
    fn chain(self, action: Action) -> (c: Composed)
        ensures
            c.0@ == seq![Action::ToggleCase(self), action],
    {
        Composed::new(Action::ToggleCase(self)).chain(action)
    }
}

impl Chainable for Undo {
    fn chain(self, action: Action) -> (c: Composed)
        ensures
            c.0@ == seq![Action::Undo(self), action],
    {
        Composed::new(Action::Undo(self)).chain(action)
    }
}

impl Chainable for Redo {
    fn chain(self, action: Action) -> (c: Composed)
        ensures
            c.0@ == seq![Action::Redo(self), action],
    {
        Composed::new(Action::Redo(self)).chain(action)
    }
}

impl Chainable for Composed {
    fn chain(self, action: Action) -> (c: Composed)
        ensures
            c.0@ == seq![Action::Composed(self), action],
    {
        Composed::new(Action::Composed(self)).chain(action)
    }
}

/// Running a sequence of actions followed by one more is running the sequence
/// and then that action: chaining an action onto a composed action appends
/// its effect.
pub proof fn lemma_chain_runs_in_order(acts: Seq<Action>, a: Action, m: EditorModel)
    ensures
        actions_model(acts.push(a), m) == action_model(a, actions_model(acts, m)),
    decreases acts.len(),
{
    let p = acts.push(a);
    if acts.len() == 0 {
        assert(p.subrange(1, p.len() as int) =~= Seq::<Action>::empty());
        assert(p[0] == a);
        assert(actions_model(Seq::<Action>::empty(), action_model(a, m)) == action_model(a, m));
        assert(actions_model(acts, m) == m);
    } else {
        let rest = acts.subrange(1, acts.len() as int);
        assert(p.subrange(1, p.len() as int) =~= rest.push(a));
        assert(p[0] == acts[0]);
        lemma_chain_runs_in_order(rest, a, action_model(acts[0], m));
    }
}

} // verus!
