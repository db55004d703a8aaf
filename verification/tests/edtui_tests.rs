use calki::edtui::actions::{Action, Chainable, Execute, SwitchMode, ToggleCase, Undo, Redo};
use calki::edtui::indent::{DedentSelection, IndentSelection};
use calki::edtui::line_wrapper::LineWrapper;
use calki::edtui::mouse::{MouseEvent, MouseEventHandler, MousePosition};
use calki::edtui::{lines_from_text, EditorMode, EditorState, Index2, Rect, Selection};
use calki::edtui::motion::{delete_chars_at_cursor, move_cursor};
use calki::edtui::line_wrapper::char_width;
use calki::style::{Span, Style};

fn lines(text: &str) -> Vec<Vec<char>> {
    lines_from_text(text)
}

fn test_state() -> EditorState {
    EditorState::new(lines("Hello World!\n\n123."))
}

fn line(state: &EditorState, row: usize) -> String {
    state.lines.get(row).map(|c| c.iter().collect()).unwrap_or_default()
}

/// Put the editor in visual mode with rows `from..=to` selected.
fn visual_select(text: &str, from: usize, to: usize) -> EditorState {
    let mut state = EditorState::new(lines(text));
    state.view.tab_width = 2;
    SwitchMode(EditorMode::Visual).execute(&mut state);
    state.selection = Some(Selection::new(Index2::new(from, 0), Index2::new(to, 0)));
    state
}

fn state(text: &str) -> EditorState {
    EditorState::new(lines(text))
}

fn span_text(spans: &[Span]) -> Vec<String> {
    spans.iter().map(|s| s.content.clone()).collect()
}

#[test]
fn test_switch_mode() {
    let mut state = test_state();
    assert_eq!(state.mode, EditorMode::Normal);

    SwitchMode(EditorMode::Insert).execute(&mut state);
    assert_eq!(state.mode, EditorMode::Insert);

    SwitchMode(EditorMode::Visual).execute(&mut state);
    assert_eq!(state.mode, EditorMode::Visual);
}

#[test]
fn test_chainable_actions() {
    let mut state = test_state();
    assert_eq!(state.mode, EditorMode::Normal);

    let action = SwitchMode(EditorMode::Insert)
        .chain(Action::SwitchMode(SwitchMode(EditorMode::Normal)))
        .chain(Action::SwitchMode(SwitchMode(EditorMode::Visual)));

    action.execute(&mut state);

    assert_eq!(state.mode, EditorMode::Visual);
    assert!(state.selection.is_some());
}

#[test]
fn test_toggle_case() {
    let mut state = test_state();
    state.cursor = Index2::new(0, 0);

    ToggleCase.execute(&mut state);
    assert_eq!(state.lines, lines("hello World!\n\n123."));
    assert_eq!(state.cursor.col, 1);

    ToggleCase.execute(&mut state);
    assert_eq!(state.lines, lines("hEllo World!\n\n123."));
    assert_eq!(state.cursor.col, 2);

    state.cursor = Index2::new(0, 2);
    SwitchMode(EditorMode::Visual).execute(&mut state);
    state.cursor.col = 4;
    state.selection = Some(Selection::new(Index2::new(0, 2), Index2::new(0, 4)));

    ToggleCase.execute(&mut state);
    assert_eq!(state.lines, lines("hELLO World!\n\n123."));
    assert_eq!(state.mode, EditorMode::Normal);
}

#[test]
fn undo_and_redo_restore_buffer_and_cursor() {
    let mut state = test_state();
    ToggleCase.execute(&mut state);
    assert_eq!(state.lines, lines("hello World!\n\n123."));
    Undo.execute(&mut state);
    assert_eq!(state.lines, lines("Hello World!\n\n123."));
    assert_eq!(state.cursor, Index2::new(0, 0));
    Redo.execute(&mut state);
    assert_eq!(state.lines, lines("hello World!\n\n123."));
    assert_eq!(state.cursor, Index2::new(0, 1));
    // Nothing more to redo: the state stays as it is.
    Redo.execute(&mut state);
    assert_eq!(state.lines, lines("hello World!\n\n123."));
}

#[test]
fn indent_prepends_tab_width_spaces_to_each_selected_line() {
    let mut s = visual_select("foo\nbar\nbaz", 0, 1);
    IndentSelection.execute(&mut s);
    assert_eq!(line(&s, 0), "  foo");
    assert_eq!(line(&s, 1), "  bar");
    assert_eq!(line(&s, 2), "baz");
    assert_eq!(s.mode, EditorMode::Normal);
    assert!(s.selection.is_none());
}

#[test]
fn indent_uses_spaces_never_a_tab() {
    let mut s = visual_select("x", 0, 0);
    IndentSelection.execute(&mut s);
    assert_eq!(line(&s, 0), "  x");
    assert!(!line(&s, 0).contains('\t'));
}

#[test]
fn indent_skips_blank_lines() {
    let mut s = visual_select("a\n\nb", 0, 2);
    IndentSelection.execute(&mut s);
    assert_eq!(line(&s, 0), "  a");
    assert_eq!(line(&s, 1), "");
    assert_eq!(line(&s, 2), "  b");
}

#[test]
fn dedent_removes_up_to_tab_width_leading_spaces() {
    let mut s = visual_select("    four\n  two\nzero", 0, 2);
    DedentSelection.execute(&mut s);
    assert_eq!(line(&s, 0), "  four");
    assert_eq!(line(&s, 1), "two");
    assert_eq!(line(&s, 2), "zero");
}

#[test]
fn dedent_removes_a_single_leading_tab() {
    let mut s = visual_select("\ttabbed", 0, 0);
    DedentSelection.execute(&mut s);
    assert_eq!(line(&s, 0), "tabbed");
}

#[test]
fn indent_then_dedent_round_trips() {
    let mut s = visual_select("alpha\nbeta", 0, 1);
    IndentSelection.execute(&mut s);
    SwitchMode(EditorMode::Visual).execute(&mut s);
    s.selection = Some(Selection::new(Index2::new(0, 0), Index2::new(1, 0)));
    DedentSelection.execute(&mut s);
    assert_eq!(line(&s, 0), "alpha");
    assert_eq!(line(&s, 1), "beta");
}

#[test]
fn test_mouse_scrolling_preserves_relative_cursor_row() {
    let mut state = EditorState::empty();
    state.lines = lines("line1\nline2\nline3\nline4\nline5\nline6");
    state.view.num_rows = 3;
    state.view.viewport.y = 1;
    state.cursor.row = 2;
    state.view.screen_area = Rect::new(0, 0, 80, 24);

    MouseEventHandler::on_event(MouseEvent::ScrollDown(MousePosition::new(0, 0)), &mut state);
    assert_eq!(state.view.viewport.y, 2);
    assert_eq!(state.cursor.row, 3);

    MouseEventHandler::on_event(MouseEvent::ScrollUp(MousePosition::new(0, 0)), &mut state);
    assert_eq!(state.view.viewport.y, 1);
    assert_eq!(state.cursor.row, 2);

    MouseEventHandler::on_event(MouseEvent::ScrollUp(MousePosition::new(0, 0)), &mut state);
    assert_eq!(state.view.viewport.y, 0);
    assert_eq!(state.cursor.row, 1);

    MouseEventHandler::on_event(MouseEvent::ScrollUp(MousePosition::new(0, 0)), &mut state);
    assert_eq!(state.view.viewport.y, 0);
    assert_eq!(state.cursor.row, 0);
}

#[test]
fn mouse_click_moves_cursor_into_the_buffer() {
    let mut state = state("abc\ndefgh");
    state.view.num_rows = 10;
    state.view.screen_area = Rect::new(0, 0, 40, 10);
    MouseEventHandler::on_event(MouseEvent::Down(MousePosition::new(1, 3)), &mut state);
    assert_eq!(state.cursor, Index2::new(1, 3));
    // A click past the last row lands on the last row, clamped to its end.
    MouseEventHandler::on_event(MouseEvent::Down(MousePosition::new(7, 30)), &mut state);
    assert_eq!(state.cursor.row, 1);
    assert!(state.cursor.col <= 4);
}

#[test]
fn folded_regions_computes_extent_to_next_same_level_header() {
    let mut s = state("# A\nbody1\nbody2\n# B\nbody3");
    s.folded.insert(0);
    let regions = s.folded_regions();
    assert_eq!(regions.len(), 1);
    assert_eq!(regions[0].header_row, 0);
    assert_eq!(regions[0].end_row, 3);
    assert_eq!(regions[0].hidden_count(), 2);
}

#[test]
fn subheader_does_not_close_a_higher_level_section() {
    let mut s = state("# A\n## sub\nbody\n# B");
    s.folded.insert(0);
    let regions = s.folded_regions();
    assert_eq!(regions[0].end_row, 3);
    assert_eq!(regions[0].hidden_count(), 2);
}

#[test]
fn last_section_extends_to_end_of_buffer() {
    let mut s = state("intro\n# A\nb1\nb2");
    s.folded.insert(1);
    let regions = s.folded_regions();
    assert_eq!(regions[0].end_row, 4);
    assert_eq!(regions[0].hidden_count(), 2);
}

#[test]
fn empty_section_is_not_a_region() {
    let mut s = state("# A\n# B");
    s.folded.insert(0);
    assert!(s.folded_regions().is_empty());
}

#[test]
fn toggle_on_header_folds_and_unfolds() {
    let mut s = state("# A\nb1\nb2");
    s.cursor = Index2::new(0, 0);
    s.toggle_fold_at_cursor();
    assert!(s.folded.contains(&0));
    s.toggle_fold_at_cursor();
    assert!(s.folded.is_empty());
}

#[test]
fn toggle_inside_section_folds_enclosing_header_and_pulls_cursor_up() {
    let mut s = state("# A\nb1\nb2");
    s.cursor = Index2::new(2, 0);
    s.toggle_fold_at_cursor();
    assert!(s.folded.contains(&0));
    assert_eq!(s.cursor.row, 0);
}

#[test]
fn toggle_targets_innermost_header() {
    let mut s = state("# A\n## sub\nbody");
    s.cursor = Index2::new(2, 0);
    s.toggle_fold_at_cursor();
    assert!(s.folded.contains(&1));
    assert!(!s.folded.contains(&0));
}

#[test]
fn test_wrap_spans_force() {
    let spans = vec![Span::raw("Hello"), Span::raw("World")];
    let wrapped = LineWrapper::wrap_spans(spans, 3, 0);
    assert_eq!(span_text(&wrapped[0]), vec!["Hel"]);
    assert_eq!(span_text(&wrapped[1]), vec!["loW"]);
    assert_eq!(span_text(&wrapped[2]), vec!["orl"]);
    assert_eq!(span_text(&wrapped[3]), vec!["d"]);
    assert!(wrapped.iter().all(|row| row.iter().all(|s| s.style == Style::plain())));
}

#[test]
fn test_wrap_spans_word_boundary() {
    let spans = vec![Span::raw("Hello "), Span::raw("World")];
    let wrapped = LineWrapper::wrap_spans(spans, 7, 0);
    assert_eq!(span_text(&wrapped[0]), vec!["Hello"]);
    assert_eq!(span_text(&wrapped[1]), vec!["World"]);
}

#[test]
fn test_wrap_spans_with_emoji() {
    let spans = vec![Span::raw("Hell🙂!")];
    let wrapped = LineWrapper::wrap_spans(spans, 4, 0);
    assert_eq!(span_text(&wrapped[0]), vec!["Hell"]);
    assert_eq!(span_text(&wrapped[1]), vec!["🙂!"]);
}

#[test]
fn wrap_line_breaks_at_spaces() {
    let text: Vec<char> = "the quick brown fox".chars().collect();
    let rows = LineWrapper::wrap_line(&text, 6, 2);
    let rows: Vec<String> = rows.iter().map(|r| r.iter().collect()).collect();
    assert_eq!(rows, vec!["the", "quick", "brown", "fox"]);
}

#[test]
fn cursor_motions_clamp_and_repeat() {
    let mut state = EditorState::new(lines("abcdef\nxy\n\nlong line here"));
    // `5l` moves five columns right.
    move_cursor(&mut state, 0, 1, 5);
    assert_eq!(state.cursor, Index2::new(0, 5));
    // `j` onto a shorter row pulls the column back to its last character.
    move_cursor(&mut state, 1, 0, 1);
    assert_eq!(state.cursor, Index2::new(1, 1));
    // `10j` stops at the last row; stepping over the empty row left the
    // column at zero.
    move_cursor(&mut state, 1, 0, 10);
    assert_eq!(state.cursor, Index2::new(3, 0));
    // Left past the start stays at column zero.
    move_cursor(&mut state, 0, -1, 4);
    assert_eq!(state.cursor, Index2::new(3, 0));
    // Up past the first row stays on it; an empty row keeps column zero.
    move_cursor(&mut state, -1, 0, 1);
    assert_eq!(state.cursor, Index2::new(2, 0));
    move_cursor(&mut state, -10, 0, 1);
    assert_eq!(state.cursor, Index2::new(0, 0));
    // A zero count does nothing.
    move_cursor(&mut state, 1, 1, 0);
    assert_eq!(state.cursor, Index2::new(0, 0));
    // Insert mode may stand one past the last character.
    state.mode = EditorMode::Insert;
    move_cursor(&mut state, 0, 1, 20);
    assert_eq!(state.cursor, Index2::new(0, 6));
}

#[test]
fn cursor_motion_drags_selection_end() {
    let mut state = EditorState::new(lines("one\ntwo\nthree"));
    state.selection = Some(Selection::new(Index2::new(0, 1), Index2::new(0, 1)));
    move_cursor(&mut state, 1, 0, 2);
    assert_eq!(state.cursor, Index2::new(2, 0));
    assert_eq!(state.selection, Some(Selection::new(Index2::new(0, 1), Index2::new(2, 0))));
    let mut plain = EditorState::new(lines("one\ntwo"));
    move_cursor(&mut plain, 1, 0, 1);
    assert_eq!(plain.selection, None);
    assert_eq!(plain.lines, lines("one\ntwo"));
}

#[test]
fn wrapped_rows_fit_width() {
    let text: Vec<char> = "the quick brown fox jumps over the lazy dog".chars().collect();
    for width in 3..12 {
        for row in LineWrapper::wrap_line(&text, width, 4) {
            assert!(row.len() <= width);
        }
    }
    let tabs: Vec<char> = "a\tb\tc".chars().collect();
    for row in LineWrapper::wrap_line(&tabs, 4, 2) {
        let w: usize = row.iter().map(|&c| char_width(c, 2)).sum();
        assert!(w <= 4);
    }
}

#[test]
fn split_chunks_sum_to_width() {
    for (w, m) in [(10usize, 4usize), (8, 4), (1, 5), (13, 1), (7, 7)] {
        let s = LineWrapper::determine_split(w, m);
        assert_eq!(s.iter().sum::<usize>(), w);
        assert_eq!(s.len(), (w + m - 1) / m);
        assert!(s.iter().all(|&c| 1 <= c && c <= m));
        assert!(s[..s.len() - 1].iter().all(|&c| c == m));
    }
    assert_eq!(LineWrapper::determine_split(0, 3), vec![0]);
}

#[test]
fn char_width_ascii_and_controls() {
    assert_eq!(char_width('a', 4), 1);
    assert_eq!(char_width('~', 4), 1);
    assert_eq!(char_width('\t', 4), 4);
    assert_eq!(char_width('\u{7}', 4), 0);
    assert_eq!(char_width('\u{85}', 4), 0);
    assert_eq!(char_width('中', 4), 2);
}

#[test]
fn wrapping_drops_only_break_spaces() {
    let text: Vec<char> = "ab cd efgh i".chars().collect();
    let rows = LineWrapper::wrap_line(&text, 4, 4);
    let joined: Vec<char> = rows.concat();
    let without_spaces: Vec<char> = text.iter().copied().filter(|&c| c != ' ').collect();
    let kept: Vec<char> = joined.iter().copied().filter(|&c| c != ' ').collect();
    assert_eq!(kept, without_spaces);
    assert!(joined.len() < text.len());
    assert!(joined.len() + rows.len() - 1 >= text.len());
}

#[test]
fn x_deletes_counted_characters() {
    let mut state = EditorState::new(lines("abcdef\nxy"));
    state.cursor = Index2::new(0, 1);
    // `3x` deletes three characters from the cursor on.
    assert!(delete_chars_at_cursor(&mut state, 3));
    assert_eq!(line(&state, 0), "aef");
    assert_eq!(state.cursor, Index2::new(0, 1));
    // A count past the end of the row stops there; the cursor moves back.
    assert!(delete_chars_at_cursor(&mut state, 10));
    assert_eq!(line(&state, 0), "a");
    assert_eq!(state.cursor, Index2::new(0, 0));
    // Undo brings the text back.
    Undo.execute(&mut state);
    assert_eq!(line(&state, 0), "aef");
    // Nothing to delete on an empty row or with a zero count.
    let mut empty = EditorState::new(lines("\nz"));
    assert!(!delete_chars_at_cursor(&mut empty, 2));
    assert!(!delete_chars_at_cursor(&mut state, 0));
}

#[test]
fn folds_survive_body_edits() {
    let mut s = EditorState::new(lines("# A\nbody1\nbody2\n## Sub\ntext\n# B\nend"));
    s.folded.insert(0);
    s.folded.insert(3);
    let before = s.folded_regions();
    assert_eq!(before.len(), 2);
    s.lines[1] = "edited body, longer now".chars().collect();
    s.lines[4] = Vec::new();
    s.lines[6] = "changed".chars().collect();
    assert_eq!(s.folded_regions(), before);
}

#[test]
fn wrapping_at_the_widest_width() {
    let text: Vec<char> = "ab cd\tef".chars().collect();
    assert_eq!(LineWrapper::wrap_line(&text, usize::MAX, 4), vec![text.clone()]);
    assert_eq!(LineWrapper::wrap_line(&text, usize::MAX - 3, usize::MAX / 2), vec![text.clone()]);
}
