//! Mouse handling for the editor: clicks and drags move the cursor and the
//! visual selection, the wheel scrolls.

use crate::edtui::actions::{switch_mode_model, Execute, SwitchMode};
use crate::edtui::line_wrapper::{
    char_width, char_width_spec, total_len, widths_in_range, wrap_spec, LineWrapper,
};
use crate::edtui::{
    clamp_model, last_col_index, last_row_index, rows, set_selection, EditorMode, EditorModel,
    EditorState, Index2, Rect, Selection,
};
use vstd::prelude::*;

verus! {

/// Handles mouse events.
#[derive(Clone, Debug)]
pub struct MouseEventHandler {}

/// A screen position of a mouse event.
#[derive(Clone, Copy, Debug, PartialEq, Eq, Structural)]
pub struct MousePosition {
    /// The row the event occurred on.
    pub row: usize,
    /// The column the event occurred on.
    pub col: usize,
}

impl MousePosition {
    /// The position at terminal row `row` and column `col`.
    pub fn new(row: u16, col: u16) -> (p: MousePosition)
        ensures
            p.row == row,
            p.col == col,
    {
        MousePosition { row: row as usize, col: col as usize }
    }
}

/// A mouse event.
#[derive(Clone, Copy, Debug, PartialEq, Eq, Structural)]
pub enum MouseEvent {
    /// A press.
    Down(MousePosition),
    /// A release.
    Up(MousePosition),
    /// A drag.
    Drag(MousePosition),
    /// A wheel step up.
    ScrollUp(MousePosition),
    /// A wheel step down.
    ScrollDown(MousePosition),
    /// An event the editor does not handle.
    Ignored,
}

/// `mouse` lies inside the screen rectangle `area`.
pub open spec fn within(area: Rect, mouse: MousePosition) -> bool {
    area.x <= mouse.col < area.x + area.width && area.y <= mouse.row < area.y + area.height
}

/// The position carried by an event, if any.
pub open spec fn event_position(e: MouseEvent) -> Option<MousePosition> {
    match e {
        MouseEvent::Down(p) => Some(p),
        MouseEvent::Up(p) => Some(p),
        MouseEvent::Drag(p) => Some(p),
        MouseEvent::ScrollUp(p) => Some(p),
        MouseEvent::ScrollDown(p) => Some(p),
        MouseEvent::Ignored => None,
    }
}

/// `m` with the end of its selection moved to the cursor when in visual mode.
pub open spec fn follow_selection(m: EditorModel) -> EditorModel {
    if m.mode == EditorMode::Visual {
        EditorModel {
            selection: match m.selection {
                Some(s) => Some(Selection { start: s.start, end: m.cursor }),
                None => None,
            },
            ..m
        }
    } else {
        m
    }
}

/// `m` after one wheel step up: the viewport scrolls up a row when it can,
/// the cursor moves up a row (not past the top), the column is clamped and a
/// visual selection follows the cursor.
pub open spec fn scroll_up_model(m: EditorModel) -> EditorModel {
    let v = if m.view.viewport.y > 0 {
        crate::edtui::ViewState {
            viewport: crate::edtui::Point { x: m.view.viewport.x, y: (m.view.viewport.y - 1) as usize },
            ..m.view
        }
    } else {
        m.view
    };
    let row = if m.cursor.row > 0 { (m.cursor.row - 1) as usize } else { 0 };
    follow_selection(
        clamp_model(EditorModel { view: v, cursor: Index2 { row, col: m.cursor.col }, ..m }),
    )
}

/// Index of the last row of `lines` (0 when there is none).
pub open spec fn last_row(lines: Seq<Seq<char>>) -> int {
    if lines.len() == 0 { 0 } else { lines.len() - 1 }
}

/// `m` after one wheel step down: the viewport scrolls down a row when the
/// last row is not yet visible, the cursor moves down a row (not past the
/// last row), the column is clamped and a visual selection follows the
/// cursor.
pub open spec fn scroll_down_model(m: EditorModel) -> EditorModel {
    let last_visible = m.view.viewport.y + if m.view.num_rows > 0 { m.view.num_rows - 1 } else { 0 };
    let lr = last_row(m.lines);
    let v = if last_visible < lr {
        crate::edtui::ViewState {
            viewport: crate::edtui::Point { x: m.view.viewport.x, y: (m.view.viewport.y + 1) as usize },
            ..m.view
        }
    } else {
        m.view
    };
    let row = if m.cursor.row + 1 <= lr { m.cursor.row + 1 } else { lr };
    follow_selection(
        clamp_model(
            EditorModel { view: v, cursor: Index2 { row: row as usize, col: m.cursor.col }, ..m },
        ),
    )
}

/// Number of characters that fit, from the start of `l`, within `col`
/// columns.
pub open spec fn fitting_chars(l: Seq<char>, col: int, tab: nat, k: int, width: int) -> int
    decreases l.len() - k,
{
    if k < 0 || k >= l.len() || width + char_width_spec(l[k], tab) > col {
        k
    } else {
        fitting_chars(l, col, tab, k + 1, width + char_width_spec(l[k], tab))
    }
}

/// The buffer column of a click at `(row, col)` within a wrapped line: the
/// characters of the wrapped rows above, plus those of its row that fit in
/// `col` columns; 0 past the last wrapped row.
pub open spec fn column_in_wrapped(wrapped: Seq<Seq<char>>, row: int, col: int, tab: nat) -> int {
    if row < 0 || row >= wrapped.len() {
        0
    } else {
        total_len(wrapped, row) + fitting_chars(wrapped[row], col, tab, 0, 0)
    }
}

/// The buffer position under a click on the screen row `mrow` (relative to
/// the editor) and column `mcol`, scanning wrapped lines from line `k`, whose
/// first screen row is `srow`. Past the last line the row is the line count
/// and the column is `default_col`.
pub open spec fn wrapped_hit(
    lines: Seq<Seq<char>>,
    width: nat,
    tab: nat,
    k: int,
    srow: int,
    mrow: int,
    mcol: int,
    default_col: int,
) -> (int, int)
    decreases lines.len() - k,
{
    if k < 0 || k >= lines.len() {
        (k, default_col)
    } else {
        let wrapped = wrap_spec(lines[k], width, tab);
        let n = if wrapped.len() > 1 { wrapped.len() as int } else { 1 };
        if srow + n > mrow {
            (k, column_in_wrapped(wrapped, mrow - srow, mcol, tab))
        } else {
            wrapped_hit(lines, width, tab, k + 1, srow + n, mrow, mcol, default_col)
        }
    }
}

/// `a - b`, or 0 when `b > a`.
pub open spec fn sat_sub(a: int, b: int) -> int {
    if a >= b { a - b } else { 0 }
}

/// `a + b`, or `usize::MAX` when that is larger.
pub open spec fn sat_add(a: int, b: int) -> int {
    if a + b <= usize::MAX { a + b } else { usize::MAX as int }
}

/// The buffer position under the mouse, before it is clamped to the buffer.
pub open spec fn mouse_cursor(m: EditorModel, mouse: MousePosition) -> (int, int) {
    let mrow = sat_sub(mouse.row as int, m.view.screen_area.y as int);
    let mcol = sat_sub(mouse.col as int, m.view.screen_area.x as int);
    if !m.view.wrap {
        (sat_add(mrow, m.view.viewport.y as int), sat_add(mcol, m.view.viewport.x as int))
    } else {
        wrapped_hit(
            m.lines,
            m.view.screen_area.width as nat,
            m.view.tab_width as nat,
            m.view.viewport.y as int,
            0,
            mrow,
            mcol,
            m.view.viewport.x as int,
        )
    }
}

/// The position `p` pulled inside the buffer: past the last row it goes to
/// the end of the last row, past the end of a row to its last column.
pub open spec fn clamp_to_buffer(lines: Seq<Seq<char>>, p: (int, int)) -> Index2 {
    let lr = last_row(lines);
    let last_col = |r: int| if 0 <= r < lines.len() && lines[r].len() > 0 { lines[r].len() - 1 } else { 0int };
    if lr < p.0 {
        Index2 { row: lr as usize, col: last_col(lr) as usize }
    } else if last_col(p.0) < p.1 {
        Index2 { row: p.0 as usize, col: last_col(p.0) as usize }
    } else {
        Index2 { row: p.0 as usize, col: p.1 as usize }
    }
}

/// `m` after mouse event `e`. Wheel events scroll when inside the editor
/// area. Presses, releases and drags inside the area move the cursor to the
/// clicked buffer position (clamped to the buffer); a press leaves visual
/// mode and drops the selection, a drag enters visual mode and moves the
/// selection end along. Anything else changes nothing.
pub open spec fn on_event_model(m: EditorModel, e: MouseEvent) -> EditorModel {
    match e {
        MouseEvent::Ignored => m,
        MouseEvent::ScrollUp(p) => if within(m.view.screen_area, p) { scroll_up_model(m) } else { m },
        MouseEvent::ScrollDown(p) => if within(m.view.screen_area, p) {
            scroll_down_model(m)
        } else {
            m
        },
        MouseEvent::Down(p) => if within(m.view.screen_area, p) {
            let m1 = EditorModel { selection: None, ..m };
            let m2 = if m1.mode == EditorMode::Visual {
                switch_mode_model(m1, EditorMode::Normal)
            } else {
                m1
            };
            EditorModel { cursor: clamp_to_buffer(m2.lines, mouse_cursor(m2, p)), ..m2 }
        } else {
            m
        },
        MouseEvent::Up(p) => if within(m.view.screen_area, p) {
            EditorModel { cursor: clamp_to_buffer(m.lines, mouse_cursor(m, p)), ..m }
        } else {
            m
        },
        MouseEvent::Drag(p) => if within(m.view.screen_area, p) {
            let m1 = if m.mode != EditorMode::Visual {
                switch_mode_model(m, EditorMode::Visual)
            } else {
                m
            };
            let m2 = EditorModel {
                selection: match m1.selection {
                    Some(s) => Some(Selection { start: s.start, end: m1.cursor }),
                    None => None,
                },
                ..m1
            };
            let m3 = EditorModel { cursor: clamp_to_buffer(m2.lines, mouse_cursor(m2, p)), ..m2 };
            EditorModel {
                selection: match m3.selection {
                    Some(s) => Some(Selection { start: s.start, end: m3.cursor }),
                    None => None,
                },
                ..m3
            }
        } else {
            m
        },
    }
}

/// Bounds that keep the mouse arithmetic in range.
pub open spec fn mouse_in_range(m: EditorModel) -> bool {
    &&& m.view.viewport.y + m.view.num_rows <= usize::MAX
    &&& m.cursor.row < usize::MAX
    &&& widths_in_range(u16::MAX as usize, m.view.tab_width)
}

/// Event `e` has a position inside the editor's screen area, so that the
/// handler acts on it.
pub open spec fn mouse_acts(m: EditorModel, e: MouseEvent) -> bool {
    match event_position(e) {
        Some(p) => within(m.view.screen_area, p),
        None => false,
    }
}

impl MouseEventHandler {
    /// Handles mouse event `event` (see `on_event_model`); an ignored event
    /// or one outside the screen area changes nothing.
    pub fn on_event(event: MouseEvent, state: &mut EditorState)
        requires
            mouse_acts(old(state)@, event) ==> mouse_in_range(old(state)@),
        ensures
            final(state)@ == on_event_model(old(state)@, event),
            !mouse_acts(old(state)@, event) ==> final(state)@ == old(state)@,
    {
        match event {
            MouseEvent::Ignored => {
                return;
            },
            MouseEvent::ScrollUp(mouse) => {
                if Self::is_position_within_bounds(&mouse, state) {
                    Self::handle_scroll_up(state);
                }
                return;
            },
            MouseEvent::ScrollDown(mouse) => {
                if Self::is_position_within_bounds(&mouse, state) {
                    Self::handle_scroll_down(state);
                }
                return;
            },
            _ => {},
        }
        if !Self::is_within_bounds(&event, state) {
            return;
        }
        let mouse = match event {
            MouseEvent::Down(p) => p,
            MouseEvent::Up(p) => p,
            MouseEvent::Drag(p) => p,
            _ => {
                return;
            },
        };
        if let MouseEvent::Down(_) = event {
            state.selection = None;
            if state.mode == EditorMode::Visual {
                SwitchMode(EditorMode::Normal).execute(state);
            }
        }
        if let MouseEvent::Drag(_) = event {
            if state.mode != EditorMode::Visual {
                SwitchMode(EditorMode::Visual).execute(state);
            }
            set_selection(&mut state.selection, state.cursor);
        }
        let cursor = mouse_position_to_cursor_position(state, &mouse, state.view.tab_width);
        let last_row = last_row_index(&state.lines);
        let last_col = last_col_index(&state.lines, cursor.row);
        if last_row < cursor.row {
            let lc = last_col_index(&state.lines, last_row);
            state.cursor = Index2::new(last_row, lc);
        } else if last_col < cursor.col {
            state.cursor = Index2::new(cursor.row, last_col);
        } else {
            state.cursor = cursor;
        }
        if let MouseEvent::Drag(_) = event {
            set_selection(&mut state.selection, state.cursor);
        }
    }

    /// One wheel step up.
    pub fn handle_scroll_up(state: &mut EditorState)
        ensures
            final(state)@ == scroll_up_model(old(state)@),
    {
        if state.view.viewport.y > 0 {
            state.view.viewport.y = state.view.viewport.y - 1;
        }
        state.cursor.row = if state.cursor.row > 0 {
            state.cursor.row - 1
        } else {
            0
        };
        state.clamp_column();
        if state.mode == EditorMode::Visual {
            set_selection(&mut state.selection, state.cursor);
        }
    }

    /// One wheel step down.
    pub fn handle_scroll_down(state: &mut EditorState)
        requires
            old(state).view.viewport.y + old(state).view.num_rows <= usize::MAX,
            old(state).cursor.row < usize::MAX,
        ensures
            final(state)@ == scroll_down_model(old(state)@),
    {
        let last_visible = state.view.viewport.y + if state.view.num_rows > 0 {
            state.view.num_rows - 1
        } else {
            0
        };
        let last_row = last_row_index(&state.lines);
        if last_visible < last_row {
            state.view.viewport.y = state.view.viewport.y + 1;
        }
        state.cursor.row = if state.cursor.row + 1 <= last_row {
            state.cursor.row + 1
        } else {
            last_row
        };
        state.clamp_column();
        if state.mode == EditorMode::Visual {
            set_selection(&mut state.selection, state.cursor);
        }
    }

    /// The event carries a position inside the editor's screen area.
    pub fn is_within_bounds(event: &MouseEvent, state: &EditorState) -> (r: bool)
        ensures
            r == match event_position(*event) {
                Some(p) => within(state.view.screen_area, p),
                None => false,
            },
    {
        let mouse = match event {
            MouseEvent::Down(p) => p,
            MouseEvent::Up(p) => p,
            MouseEvent::Drag(p) => p,
            MouseEvent::ScrollUp(p) => p,
            MouseEvent::ScrollDown(p) => p,
            MouseEvent::Ignored => {
                return false;
            },
        };
        Self::is_position_within_bounds(mouse, state)
    }

    /// `mouse` lies inside the editor's screen area.
    pub fn is_position_within_bounds(mouse: &MousePosition, state: &EditorState) -> (r: bool)
        ensures
            r == within(state.view.screen_area, *mouse),
    {
        let area = state.view.screen_area;
        let x = area.x as usize;
        let y = area.y as usize;
        let width = area.width as usize;
        let height = area.height as usize;
        mouse.col >= x && mouse.col < x + width && mouse.row >= y && mouse.row < y + height
    }
}

/// `total_len` only grows with `n`.
proof fn lemma_total_len_mono(lines: Seq<Seq<char>>, n: int, m: int)
    requires
        0 <= n <= m <= lines.len(),
    ensures
        total_len(lines, n) <= total_len(lines, m),
    decreases m - n,
{
    if n < m {
        lemma_total_len_mono(lines, n, m - 1);
    }
}

/// The buffer column of a click at wrapped row `mouse.row`, screen column
/// `mouse.col`, within the wrapped rows `line` of one buffer line.
pub fn find_cursor_column_in_wrapped_line(line: &Vec<Vec<char>>, mouse: &Index2, tab_width: usize) -> (r: usize)
    requires
        total_len(rows(line), line@.len() as int) <= usize::MAX,
    ensures
        r == column_in_wrapped(rows(line), mouse.row as int, mouse.col as int, tab_width as nat),
{
    if mouse.row >= line.len() {
        return 0;
    }
    let ghost wr = rows(line);
    let mut offset: usize = 0;
    let mut k: usize = 0;
    proof {
        lemma_total_len_mono(wr, mouse.row + 1, wr.len() as int);
    }
    while k < mouse.row
        invariant
            k <= mouse.row < line@.len(),
            wr == rows(line),
            offset == total_len(wr, k as int),
            total_len(wr, mouse.row + 1) <= usize::MAX,
        decreases mouse.row - k,
    {
        proof {
            lemma_total_len_mono(wr, k + 1, mouse.row + 1);
        }
        offset = offset + line[k].len();
        k += 1;
    }
    let l = &line[mouse.row];
    let mut width: usize = 0;
    let mut col: usize = 0;
    let mut done = false;
    while col < l.len() && !done
        invariant
            col <= l@.len(),
            done ==> col < l@.len() && width + char_width_spec(l@[col as int], tab_width as nat)
                > mouse.col,
            fitting_chars(l@, mouse.col as int, tab_width as nat, 0, 0) == fitting_chars(
                l@,
                mouse.col as int,
                tab_width as nat,
                col as int,
                width as int,
            ),
            width <= mouse.col,
        decreases (l.len() - col) as int + if done { 0int } else { 1int },
    {
        let cw = char_width(l[col], tab_width);
        if cw > mouse.col - width {
            done = true;
        } else {
            width = width + cw;
            col += 1;
        }
    }
    proof {
        lemma_fitting_bound(l@, mouse.col as int, tab_width as nat, 0, 0);
    }
    offset + col
}

proof fn lemma_fitting_bound(l: Seq<char>, col: int, tab: nat, k: int, width: int)
    requires
        0 <= k,
    ensures
        k <= fitting_chars(l, col, tab, k, width) <= if k <= l.len() { l.len() as int } else { k },
    decreases l.len() - k,
{
    if k < l.len() && width + char_width_spec(l[k], tab) <= col {
        lemma_fitting_bound(l, col, tab, k + 1, width + char_width_spec(l[k], tab));
    }
}

/// The buffer position under `mouse`, before clamping to the buffer.
pub fn mouse_position_to_cursor_position(state: &EditorState, mouse: &MousePosition, tab_width: usize) -> (r: Index2)
    requires
        tab_width == state.view.tab_width,
        widths_in_range(u16::MAX as usize, tab_width),
    ensures
        r.row == mouse_cursor(state@, *mouse).0,
        r.col == mouse_cursor(state@, *mouse).1,
{
    let vy = state.view.viewport.y;
    let vx = state.view.viewport.x;
    let ay = state.view.screen_area.y as usize;
    let ax = state.view.screen_area.x as usize;
    let mrow = if mouse.row >= ay {
        mouse.row - ay
    } else {
        0
    };
    let mcol = if mouse.col >= ax {
        mouse.col - ax
    } else {
        0
    };
    if !state.view.wrap {
        let r = if mrow > usize::MAX - vy {
            usize::MAX
        } else {
            mrow + vy
        };
        let c = if mcol > usize::MAX - vx {
            usize::MAX
        } else {
            mcol + vx
        };
        return Index2::new(r, c);
    }
    let width = state.view.screen_area.width as usize;
    let ghost lines = state@.lines;
    let mut row_index = vy;
    let mut col_index = vx;
    let mut srow: usize = 0;
    let mut found = false;
    while row_index < state.lines.len() && !found
        invariant
            lines == state@.lines,
            width == state.view.screen_area.width,
            tab_width == state.view.tab_width,
            widths_in_range(u16::MAX as usize, tab_width),
            srow <= mrow,
            row_index <= usize::MAX,
            found ==> row_index < lines.len(),
            !found ==> col_index == vx,
            wrapped_hit(lines, width as nat, tab_width as nat, vy as int, 0, mrow as int, mcol as int, vx as int)
                == if found {
                (row_index as int, col_index as int)
            } else {
                wrapped_hit(
                    lines,
                    width as nat,
                    tab_width as nat,
                    row_index as int,
                    srow as int,
                    mrow as int,
                    mcol as int,
                    vx as int,
                )
            },
        decreases lines.len() - row_index + if found { 0int } else { 1int },
    {
        let ln = state.lines[row_index].len();
        let wrapped = LineWrapper::wrap_line(state.lines[row_index].as_slice(), width, tab_width);
        let wl = if wrapped.len() > 1 {
            wrapped.len()
        } else {
            1
        };
        if wl > mrow - srow {
            proof {
                crate::edtui::line_wrapper::lemma_wrap_total_len(lines[row_index as int], width as nat, tab_width as nat);
            }
            col_index = find_cursor_column_in_wrapped_line(&wrapped, &Index2::new(mrow - srow, mcol), tab_width);
            found = true;
        } else {
            srow = srow + wl;
            row_index = row_index + 1;
        }
    }
    Index2::new(row_index, col_index)
}

/// Scrolling down keeps the cursor on the same screen row whenever the
/// viewport can move down and the cursor is visible and not on the last row.
pub proof fn lemma_scroll_down_keeps_screen_row(m: EditorModel)
    requires
        m.lines.len() <= usize::MAX,
        m.view.viewport.y + (if m.view.num_rows > 0 { m.view.num_rows - 1 } else { 0 }) < last_row(m.lines),
        m.view.viewport.y <= m.cursor.row < last_row(m.lines),
    ensures
        scroll_down_model(m).cursor.row - scroll_down_model(m).view.viewport.y == m.cursor.row
            - m.view.viewport.y,
{
}

/// Scrolling up keeps the cursor on the same screen row whenever the viewport
/// can move up and the cursor is visible.
pub proof fn lemma_scroll_up_keeps_screen_row(m: EditorModel)
    requires
        m.view.viewport.y > 0,
        m.view.viewport.y <= m.cursor.row,
    ensures
        scroll_up_model(m).cursor.row - scroll_up_model(m).view.viewport.y == m.cursor.row
            - m.view.viewport.y,
{
}

/// A press, release or drag inside the editor on a non-empty buffer leaves
/// the cursor on an existing row, at most on its last column.
pub proof fn lemma_click_lands_in_buffer(m: EditorModel, p: MousePosition, e: MouseEvent)
    requires
        m.lines.len() > 0,
        e == MouseEvent::Down(p) || e == MouseEvent::Up(p) || e == MouseEvent::Drag(p),
        within(m.view.screen_area, p),
        m.lines.len() <= usize::MAX,
    ensures
        on_event_model(m, e).cursor.row < m.lines.len(),
        on_event_model(m, e).cursor.col <= if m.lines[on_event_model(m, e).cursor.row as int].len()
            > 0 {
            m.lines[on_event_model(m, e).cursor.row as int].len() - 1
        } else {
            0
        },
{
    lemma_mouse_cursor_nonneg(m, p);
    lemma_mouse_cursor_nonneg(switch_mode_model(EditorModel { selection: None, ..m }, EditorMode::Normal), p);
    lemma_mouse_cursor_nonneg(switch_mode_model(m, EditorMode::Visual), p);
    let m1 = if m.mode != EditorMode::Visual { switch_mode_model(m, EditorMode::Visual) } else { m };
    let m2 = EditorModel {
        selection: match m1.selection {
            Some(s) => Some(Selection { start: s.start, end: m1.cursor }),
            None => None,
        },
        ..m1
    };
    lemma_mouse_cursor_nonneg(m2, p);
    lemma_mouse_cursor_nonneg(EditorModel { selection: None, ..m }, p);
}

proof fn lemma_total_len_nonneg(lines: Seq<Seq<char>>, n: int)
    ensures
        total_len(lines, n) >= 0,
    decreases n,
{
    if n > 0 && lines.len() > 0 {
        if n > lines.len() {
            lemma_total_len_nonneg(lines, lines.len() as int);
        } else {
            lemma_total_len_nonneg(lines, n - 1);
        }
    }
}

proof fn lemma_wrapped_hit_nonneg(
    lines: Seq<Seq<char>>,
    width: nat,
    tab: nat,
    k: int,
    srow: int,
    mrow: int,
    mcol: int,
    default_col: int,
)
    requires
        k >= 0,
        default_col >= 0,
    ensures
        wrapped_hit(lines, width, tab, k, srow, mrow, mcol, default_col).0 >= 0,
        wrapped_hit(lines, width, tab, k, srow, mrow, mcol, default_col).1 >= 0,
    decreases lines.len() - k,
{
    if k < lines.len() {
        let wrapped = wrap_spec(lines[k], width, tab);
        let n = if wrapped.len() > 1 { wrapped.len() as int } else { 1 };
        if srow + n > mrow {
            let row = mrow - srow;
            if 0 <= row < wrapped.len() {
                lemma_total_len_nonneg(wrapped, row);
                lemma_fitting_bound(wrapped[row], mcol, tab, 0, 0);
            }
        } else {
            lemma_wrapped_hit_nonneg(lines, width, tab, k + 1, srow + n, mrow, mcol, default_col);
        }
    }
}

proof fn lemma_mouse_cursor_nonneg(m: EditorModel, p: MousePosition)
    ensures
        mouse_cursor(m, p).0 >= 0,
        mouse_cursor(m, p).1 >= 0,
{
    if m.view.wrap {
        let mrow = sat_sub(p.row as int, m.view.screen_area.y as int);
        let mcol = sat_sub(p.col as int, m.view.screen_area.x as int);
        lemma_wrapped_hit_nonneg(
            m.lines,
            m.view.screen_area.width as nat,
            m.view.tab_width as nat,
            m.view.viewport.y as int,
            0,
            mrow,
            mcol,
            m.view.viewport.x as int,
        );
    }
}

} // verus!
