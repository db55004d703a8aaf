//! Keyboard decisions of the application: the global keys (quit with `ZZ`,
//! help, search, command line, panels, focus), the help window, the count
//! prefix of editor motions and what the editor panel does with a key.
//!
//! Each function takes the interface state and a key, updates the state and
//! says what the caller has to carry out (save a note, open a link, ...).

use crate::edtui::{EditorMode, Rect};
use crate::text::{
    char_is_whitespace, chars_to_string, equals_str, str_to_chars, trim_char_slice, trim_spec,
    unicode_whitespace,
};
use std::collections::HashMap;
use vstd::prelude::*;

verus! {

broadcast use vstd::std_specs::hash::group_hash_axioms;

/// The keys the application tells apart.
#[derive(Clone, Copy, Debug, PartialEq, Eq, Structural)]
pub enum KeyCode {
    Char(char),
    F(u8),
    Up,
    Down,
    Left,
    Right,
    PageUp,
    PageDown,
    Home,
    End,
    Enter,
    Esc,
    Backspace,
    Tab,
    Delete,
    /// Any other key.
    Other,
}

/// The modifier keys held with a key; `other` covers super, hyper and meta.
#[derive(Clone, Copy, Debug, PartialEq, Eq, Structural)]
pub struct KeyModifiers {
    pub shift: bool,
    pub control: bool,
    pub alt: bool,
    pub other: bool,
}

impl KeyModifiers {
    /// No modifier is held.
    pub open spec fn none_held(self) -> bool {
        !self.shift && !self.control && !self.alt && !self.other
    }

    /// No modifier is held.
    pub fn is_empty(&self) -> (r: bool)
        ensures
            r == self.none_held(),
    {
        !self.shift && !self.control && !self.alt && !self.other
    }
}

/// A key press.
#[derive(Clone, Copy, Debug, PartialEq, Eq, Structural)]
pub struct KeyEvent {
    pub code: KeyCode,
    pub modifiers: KeyModifiers,
}

/// The panel that has the keyboard.
#[derive(Clone, Copy, Debug, PartialEq, Eq, Structural)]
pub enum FocusedPanel {
    WikiMap,
    Editor,
    Variables,
}

/// What the run loop does after a global key.
#[derive(Clone, Copy, Debug, PartialEq, Eq, Structural)]
pub enum Flow {
    /// The key was handled; read the next one.
    Continue,
    /// Leave the editor.
    Break,
    /// The key was not a global one; pass it on.
    Pass,
}

/// Work a global key leaves to the caller.
#[derive(Clone, Copy, Debug, PartialEq, Eq, Structural)]
pub enum GlobalAction {
    Nothing,
    /// Replace the character under the cursor with this one (`r` then a
    /// character).
    ReplaceChar(char),
    /// The search line opened: clear the query.
    OpenedSearch,
    /// The command line opened: clear it.
    OpenedCommandLine,
    /// Save the current note.
    SaveNote,
    /// Word wrapping was switched: save the configuration.
    ToggledWordWrap,
}

/// What a global key did: the run loop's next step, the work left to the
/// caller, and whether the highlights must be recomputed.
#[derive(Clone, Copy, Debug, PartialEq, Eq, Structural)]
pub struct GlobalOutcome {
    pub flow: Flow,
    pub action: GlobalAction,
    pub refresh: bool,
}

/// The interface state the keyboard decisions read and change.
#[derive(Clone, Copy, Debug, PartialEq, Eq, Structural)]
pub struct UiState {
    pub focused_panel: FocusedPanel,
    /// The editor's mode (read only here).
    pub mode: EditorMode,
    /// The previous key was `r`: the next character replaces the one under
    /// the cursor.
    pub replace_next_char: bool,
    /// The previous key was the first `Z` of `ZZ`.
    pub last_key_was_z: bool,
    pub show_help: bool,
    pub help_tab_idx: usize,
    pub help_scroll: u16,
    pub search_active: bool,
    pub show_search_results: bool,
    pub command_active: bool,
    pub show_export_menu: bool,
    pub left_panel_open: bool,
    pub right_panel_open: bool,
    pub word_wrap: bool,
    /// The count typed before a motion, if any.
    pub vim_multiplier: Option<usize>,
    pub selected_var_idx: usize,
}

/// `key` is a motion that a count repeats: `h j k l w b e x`, the arrows,
/// page up and page down, without modifiers.
pub open spec fn repeatable_motion_spec(key: KeyEvent) -> bool {
    key.modifiers.none_held() && match key.code {
        KeyCode::Char(c) => c == 'j' || c == 'k' || c == 'h' || c == 'l' || c == 'w' || c == 'b'
            || c == 'e' || c == 'x',
        KeyCode::Up | KeyCode::Down | KeyCode::Left | KeyCode::Right | KeyCode::PageUp
        | KeyCode::PageDown => true,
        _ => false,
    }
}

/// Whether a count repeats `key` (see `repeatable_motion_spec`).
pub fn is_repeatable_motion(key: &KeyEvent) -> (r: bool)
    ensures
        r == repeatable_motion_spec(*key),
{
    key.modifiers.is_empty() && match key.code {
        KeyCode::Char(c) => c == 'j' || c == 'k' || c == 'h' || c == 'l' || c == 'w' || c == 'b'
            || c == 'e' || c == 'x',
        KeyCode::Up | KeyCode::Down | KeyCode::Left | KeyCode::Right | KeyCode::PageUp
        | KeyCode::PageDown => true,
        _ => false,
    }
}

/// `key` is `Z`, or `z` with shift, without control or alt, in the editor's
/// normal mode: half of `ZZ`.
pub open spec fn is_z_spec(ui: UiState, key: KeyEvent) -> bool {
    &&& ui.focused_panel == FocusedPanel::Editor
    &&& ui.mode == EditorMode::Normal
    &&& !key.modifiers.control
    &&& !key.modifiers.alt
    &&& (key.code == KeyCode::Char('Z') || (key.code == KeyCode::Char('z') && key.modifiers.shift))
}

/// `key` moves the focus one panel left (`c` is `h`) or right (`c` is `l`):
/// control with `c`, or shift with `c` (or its capital) where the editor is
/// not taking text.
pub open spec fn focus_switch(ui: UiState, key: KeyEvent, c: char, cap: char) -> bool {
    (key.code == KeyCode::Char(c) && key.modifiers.control)
    || ((key.code == KeyCode::Char(cap) || (key.code == KeyCode::Char(c) && key.modifiers.shift))
        && (ui.focused_panel != FocusedPanel::Editor || ui.mode == EditorMode::Normal
        || ui.mode == EditorMode::Visual))
}

/// The outcome of a key.
pub open spec fn outcome(flow: Flow, action: GlobalAction, refresh: bool) -> GlobalOutcome {
    GlobalOutcome { flow, action, refresh }
}

/// The global keys, in order of precedence once `ZZ` and a pending `r`
/// replacement are handled: `r` arms a replacement in normal mode, F1
/// toggles help (opening it on its first tab, scrolled to the top), `/`
/// opens the search line and `:` the command line (not while typing text or
/// while one of them is open), control-s saves the note, control-e opens
/// the export menu, F2 and F3 toggle the side panels (moving the focus back
/// to the editor when its panel closes), F4 toggles word wrapping, and the
/// focus keys move between panels, dropping a typed count. Any other key is
/// passed on.
pub open spec fn global_rest_spec(u: UiState, key: KeyEvent) -> (UiState, GlobalOutcome) {
    match toggles_spec(u, key) {
        Some(p) => p,
        None => focus_spec(u, key),
    }
}

/// The keys that open, close or switch something (see `global_rest_spec`);
/// `None` for any other key.
pub open spec fn toggles_spec(u: UiState, key: KeyEvent) -> Option<(UiState, GlobalOutcome)> {
    let ins = u.focused_panel == FocusedPanel::Editor && u.mode == EditorMode::Insert;
    let ctrl = key.modifiers.control;
    if u.focused_panel == FocusedPanel::Editor && u.mode == EditorMode::Normal && key.code
        == KeyCode::Char('r') && key.modifiers.none_held() {
        Some((UiState { replace_next_char: true, ..u }, outcome(Flow::Continue, GlobalAction::Nothing, false)))
    } else if key.code == KeyCode::F(1) {
        let shown = !u.show_help;
        Some((
            UiState {
                show_help: shown,
                help_tab_idx: if shown { 0 } else { u.help_tab_idx },
                help_scroll: if shown { 0 } else { u.help_scroll },
                ..u
            },
            outcome(Flow::Continue, GlobalAction::Nothing, false),
        ))
    } else if key.code == KeyCode::Char('/') && !ins && !u.search_active {
        Some((
            UiState { search_active: true, show_search_results: false, ..u },
            outcome(Flow::Continue, GlobalAction::OpenedSearch, false),
        ))
    } else if key.code == KeyCode::Char(':') && !ins && !u.search_active && !u.command_active {
        Some((UiState { command_active: true, ..u }, outcome(Flow::Continue, GlobalAction::OpenedCommandLine, false)))
    } else if key.code == KeyCode::Char('s') && ctrl {
        Some((u, outcome(Flow::Continue, GlobalAction::SaveNote, true)))
    } else if key.code == KeyCode::Char('e') && ctrl {
        Some((UiState { show_export_menu: true, ..u }, outcome(Flow::Continue, GlobalAction::Nothing, true)))
    } else if key.code == KeyCode::F(2) {
        let open = !u.left_panel_open;
        Some((
            UiState {
                left_panel_open: open,
                focused_panel: if !open && u.focused_panel == FocusedPanel::WikiMap {
                    FocusedPanel::Editor
                } else {
                    u.focused_panel
                },
                ..u
            },
            outcome(Flow::Continue, GlobalAction::Nothing, true),
        ))
    } else if key.code == KeyCode::F(3) {
        let open = !u.right_panel_open;
        Some((
            UiState {
                right_panel_open: open,
                focused_panel: if !open && u.focused_panel == FocusedPanel::Variables {
                    FocusedPanel::Editor
                } else {
                    u.focused_panel
                },
                ..u
            },
            outcome(Flow::Continue, GlobalAction::Nothing, true),
        ))
    } else if key.code == KeyCode::F(4) {
        Some((UiState { word_wrap: !u.word_wrap, ..u }, outcome(Flow::Continue, GlobalAction::ToggledWordWrap, true)))
    } else {
        None
    }
}

/// The focus keys (see `global_rest_spec`); any other key is passed on.
pub open spec fn focus_spec(u: UiState, key: KeyEvent) -> (UiState, GlobalOutcome) {
    if focus_switch(u, key, 'h', 'H') {
        let focus = match u.focused_panel {
            FocusedPanel::Editor => if u.left_panel_open { FocusedPanel::WikiMap } else { FocusedPanel::Editor },
            FocusedPanel::Variables => FocusedPanel::Editor,
            FocusedPanel::WikiMap => FocusedPanel::WikiMap,
        };
        (
            UiState { vim_multiplier: None, focused_panel: focus, ..u },
            outcome(Flow::Continue, GlobalAction::Nothing, true),
        )
    } else if focus_switch(u, key, 'l', 'L') {
        let to_vars = u.focused_panel == FocusedPanel::Editor && u.right_panel_open;
        let focus = match u.focused_panel {
            FocusedPanel::Editor => if u.right_panel_open { FocusedPanel::Variables } else { FocusedPanel::Editor },
            FocusedPanel::WikiMap => FocusedPanel::Editor,
            FocusedPanel::Variables => FocusedPanel::Variables,
        };
        (
            UiState {
                vim_multiplier: None,
                focused_panel: focus,
                selected_var_idx: if to_vars { 0 } else { u.selected_var_idx },
                ..u
            },
            outcome(Flow::Continue, GlobalAction::Nothing, true),
        )
    } else {
        (u, outcome(Flow::Pass, GlobalAction::Nothing, false))
    }
}

/// A global key: `ZZ` leaves (the first `Z` arms it, any other key disarms
/// it); a pending `r` replacement takes the key, replacing with it when it
/// is a character; otherwise see `global_rest_spec`.
pub open spec fn global_keys_spec(ui: UiState, key: KeyEvent) -> (UiState, GlobalOutcome) {
    if is_z_spec(ui, key) {
        if ui.last_key_was_z {
            (ui, outcome(Flow::Break, GlobalAction::Nothing, false))
        } else {
            (UiState { last_key_was_z: true, ..ui }, outcome(Flow::Continue, GlobalAction::Nothing, false))
        }
    } else {
        let u = UiState { last_key_was_z: false, ..ui };
        if u.replace_next_char {
            (
                UiState { replace_next_char: false, ..u },
                outcome(
                    Flow::Continue,
                    match key.code {
                        KeyCode::Char(c) => GlobalAction::ReplaceChar(c),
                        _ => GlobalAction::Nothing,
                    },
                    true,
                ),
            )
        } else {
            global_rest_spec(u, key)
        }
    }
}

fn focus_switch_exec(ui: &UiState, key: &KeyEvent, c: char, cap: char) -> (r: bool)
    ensures
        r == focus_switch(*ui, *key, c, cap),
{
    (key.code == KeyCode::Char(c) && key.modifiers.control) || ((key.code == KeyCode::Char(cap)
        || (key.code == KeyCode::Char(c) && key.modifiers.shift)) && (ui.focused_panel
        != FocusedPanel::Editor || ui.mode == EditorMode::Normal || ui.mode == EditorMode::Visual))
}

#[verifier::rlimit(60)]
fn global_toggles(ui: &mut UiState, key: &KeyEvent) -> (o: Option<GlobalOutcome>)
    ensures
        match toggles_spec(*old(ui), *key) {
            Some((u, out)) => o == Some(out) && *final(ui) == u,
            None => o is None && *final(ui) == *old(ui),
        },
{
    let ins = ui.focused_panel == FocusedPanel::Editor && ui.mode == EditorMode::Insert;
    let ctrl = key.modifiers.control;
    if ui.focused_panel == FocusedPanel::Editor && ui.mode == EditorMode::Normal && key.code
        == KeyCode::Char('r') && key.modifiers.is_empty() {
        ui.replace_next_char = true;
        return Some(GlobalOutcome { flow: Flow::Continue, action: GlobalAction::Nothing, refresh: false });
    }
    if key.code == KeyCode::F(1) {
        ui.show_help = !ui.show_help;
        if ui.show_help {
            ui.help_tab_idx = 0;
            ui.help_scroll = 0;
        }
        return Some(GlobalOutcome { flow: Flow::Continue, action: GlobalAction::Nothing, refresh: false });
    }
    if key.code == KeyCode::Char('/') && !ins && !ui.search_active {
        ui.search_active = true;
        ui.show_search_results = false;
        return Some(GlobalOutcome { flow: Flow::Continue, action: GlobalAction::OpenedSearch, refresh: false });
    }
    if key.code == KeyCode::Char(':') && !ins && !ui.search_active && !ui.command_active {
        ui.command_active = true;
        return Some(GlobalOutcome {
            flow: Flow::Continue,
            action: GlobalAction::OpenedCommandLine,
            refresh: false,
        });
    }
    if key.code == KeyCode::Char('s') && ctrl {
        return Some(GlobalOutcome { flow: Flow::Continue, action: GlobalAction::SaveNote, refresh: true });
    }
    if key.code == KeyCode::Char('e') && ctrl {
        ui.show_export_menu = true;
        return Some(GlobalOutcome { flow: Flow::Continue, action: GlobalAction::Nothing, refresh: true });
    }
    if key.code == KeyCode::F(2) {
        ui.left_panel_open = !ui.left_panel_open;
        if !ui.left_panel_open && ui.focused_panel == FocusedPanel::WikiMap {
            ui.focused_panel = FocusedPanel::Editor;
        }
        return Some(GlobalOutcome { flow: Flow::Continue, action: GlobalAction::Nothing, refresh: true });
    }
    if key.code == KeyCode::F(3) {
        ui.right_panel_open = !ui.right_panel_open;
        if !ui.right_panel_open && ui.focused_panel == FocusedPanel::Variables {
            ui.focused_panel = FocusedPanel::Editor;
        }
        return Some(GlobalOutcome { flow: Flow::Continue, action: GlobalAction::Nothing, refresh: true });
    }
    if key.code == KeyCode::F(4) {
        ui.word_wrap = !ui.word_wrap;
        return Some(GlobalOutcome {
            flow: Flow::Continue,
            action: GlobalAction::ToggledWordWrap,
            refresh: true,
        });
    }
    None
}

fn global_focus(ui: &mut UiState, key: &KeyEvent) -> (o: GlobalOutcome)
    ensures
        (*final(ui), o) == focus_spec(*old(ui), *key),
{
    let switch_left = focus_switch_exec(ui, key, 'h', 'H');
    let switch_right = focus_switch_exec(ui, key, 'l', 'L');
    if switch_left {
        ui.vim_multiplier = None;
        match ui.focused_panel {
            FocusedPanel::Editor => {
                if ui.left_panel_open {
                    ui.focused_panel = FocusedPanel::WikiMap;
                }
            },
            FocusedPanel::Variables => {
                ui.focused_panel = FocusedPanel::Editor;
            },
            FocusedPanel::WikiMap => {},
        }
        return GlobalOutcome { flow: Flow::Continue, action: GlobalAction::Nothing, refresh: true };
    }
    if switch_right {
        ui.vim_multiplier = None;
        match ui.focused_panel {
            FocusedPanel::Editor => {
                if ui.right_panel_open {
                    ui.focused_panel = FocusedPanel::Variables;
                    ui.selected_var_idx = 0;
                }
            },
            FocusedPanel::WikiMap => {
                ui.focused_panel = FocusedPanel::Editor;
            },
            FocusedPanel::Variables => {},
        }
        return GlobalOutcome { flow: Flow::Continue, action: GlobalAction::Nothing, refresh: true };
    }
    GlobalOutcome { flow: Flow::Pass, action: GlobalAction::Nothing, refresh: false }
}

fn global_rest(ui: &mut UiState, key: &KeyEvent) -> (o: GlobalOutcome)
    ensures
        (*final(ui), o) == global_rest_spec(*old(ui), *key),
{
    match global_toggles(ui, key) {
        Some(o) => o,
        None => global_focus(ui, key),
    }
}

/// Handles a global key (see `global_keys_spec`).
pub fn handle_global_keys(ui: &mut UiState, key: &KeyEvent) -> (o: GlobalOutcome)
    ensures
        (*final(ui), o) == global_keys_spec(*old(ui), *key),
{
    let is_z = ui.focused_panel == FocusedPanel::Editor && ui.mode == EditorMode::Normal
        && !key.modifiers.control && !key.modifiers.alt && (key.code == KeyCode::Char('Z') || (
    key.code == KeyCode::Char('z') && key.modifiers.shift));
    if is_z {
        if ui.last_key_was_z {
            return GlobalOutcome { flow: Flow::Break, action: GlobalAction::Nothing, refresh: false };
        }
        ui.last_key_was_z = true;
        return GlobalOutcome { flow: Flow::Continue, action: GlobalAction::Nothing, refresh: false };
    }
    ui.last_key_was_z = false;
    if ui.replace_next_char {
        ui.replace_next_char = false;
        let action = match key.code {
            KeyCode::Char(c) => GlobalAction::ReplaceChar(c),
            _ => GlobalAction::Nothing,
        };
        return GlobalOutcome { flow: Flow::Continue, action, refresh: true };
    }
    global_rest(ui, key)
}

/// Two `Z` in a row in the editor's normal mode leave the editor.
pub proof fn lemma_zz_breaks(ui: UiState, key: KeyEvent)
    requires
        is_z_spec(ui, key),
        !ui.last_key_was_z,
    ensures
        global_keys_spec(global_keys_spec(ui, key).0, key).1.flow == Flow::Break,
        global_keys_spec(ui, key).1.flow == Flow::Continue,
{
}

/// Pressing F2, F3 or F4 twice gives back the left panel, the right panel
/// and word wrapping as they were.
pub proof fn lemma_toggle_keys_twice(ui: UiState, key: KeyEvent)
    requires
        key.code == KeyCode::F(2) || key.code == KeyCode::F(3) || key.code == KeyCode::F(4),
        !ui.replace_next_char,
    ensures
        ({
            let twice = global_keys_spec(global_keys_spec(ui, key).0, key).0;
            &&& twice.left_panel_open == ui.left_panel_open
            &&& twice.right_panel_open == ui.right_panel_open
            &&& twice.word_wrap == ui.word_wrap
        }),
{
}

/// Pressing F1 twice gives back the help window's visibility.
pub proof fn lemma_f1_twice(ui: UiState, key: KeyEvent)
    requires
        key.code == KeyCode::F(1),
        !is_z_spec(ui, key),
        !ui.replace_next_char,
        !(ui.focused_panel == FocusedPanel::Editor && ui.mode == EditorMode::Normal && key.code
            == KeyCode::Char('r')),
    ensures
        global_keys_spec(global_keys_spec(ui, key).0, key).0.show_help == ui.show_help,
{
}

/// `s - n`, or zero below zero (`u16::saturating_sub`).
pub open spec fn sat_sub(s: u16, n: u16) -> u16 {
    if s >= n { (s - n) as u16 } else { 0 }
}

/// `s + n`, or `u16::MAX` above it (`u16::saturating_add`).
pub open spec fn sat_add(s: u16, n: u16) -> u16 {
    if s + n <= u16::MAX { (s + n) as u16 } else { u16::MAX }
}

/// `u` scrolled to `s` in the help window.
pub open spec fn scrolled(u: UiState, s: u16) -> UiState {
    UiState { help_scroll: s, ..u }
}

/// `u` on help tab `t`, scrolled to the top.
pub open spec fn on_tab(u: UiState, t: int) -> UiState {
    UiState { help_tab_idx: t as usize, help_scroll: 0, ..u }
}

/// A key in the help window: `k`/`j` and the arrows scroll by one line
/// (also control-y and control-e), page up and down by ten; `h`/`l` and the
/// left and right arrows go to the previous and next of the ten tabs
/// (wrapping around), a digit goes to its tab (`0` is the tenth); escape, F1
/// and `q` close the window.
pub open spec fn help_step(u: UiState, key: KeyEvent) -> UiState {
    let s = u.help_scroll;
    match key.code {
        KeyCode::Char(c) => help_char_spec(u, c, key.modifiers.control),
        KeyCode::Up => scrolled(u, sat_sub(s, 1)),
        KeyCode::Down => scrolled(u, sat_add(s, 1)),
        KeyCode::PageUp => scrolled(u, sat_sub(s, 10)),
        KeyCode::PageDown => scrolled(u, sat_add(s, 10)),
        KeyCode::Left => on_tab(u, prev_tab(u.help_tab_idx)),
        KeyCode::Right => on_tab(u, next_tab(u.help_tab_idx)),
        KeyCode::Esc | KeyCode::F(1) => UiState { show_help: false, ..u },
        _ => u,
    }
}

/// The help tab before `t`, wrapping around to the tenth.
pub open spec fn prev_tab(t: usize) -> int {
    if t == 0 { 9 } else { t - 1 }
}

/// The help tab after `t`, wrapping around to the first.
pub open spec fn next_tab(t: usize) -> int {
    (t + 1) % 10
}

/// A character key in the help window (see `help_step`).
pub open spec fn help_char_spec(u: UiState, c: char, ctrl: bool) -> UiState {
    let s = u.help_scroll;
    if c == 'k' || c == 'K' {
        scrolled(u, sat_sub(s, 1))
    } else if c == 'j' || c == 'J' {
        scrolled(u, sat_add(s, 1))
    } else if c == 'y' && ctrl {
        scrolled(u, sat_sub(s, 1))
    } else if c == 'e' && ctrl {
        scrolled(u, sat_add(s, 1))
    } else if c == 'h' || c == 'H' {
        on_tab(u, prev_tab(u.help_tab_idx))
    } else if c == 'l' || c == 'L' {
        on_tab(u, next_tab(u.help_tab_idx))
    } else if '1' <= c && c <= '9' {
        on_tab(u, c as int - '1' as int)
    } else if c == '0' {
        on_tab(u, 9)
    } else if c == 'q' || c == 'Q' {
        UiState { show_help: false, ..u }
    } else {
        u
    }
}

fn scroll_up(u: &mut UiState, n: u16)
    ensures
        *final(u) == scrolled(*old(u), sat_sub(old(u).help_scroll, n)),
{
    u.help_scroll = if u.help_scroll >= n { u.help_scroll - n } else { 0 };
}

fn scroll_down(u: &mut UiState, n: u16)
    ensures
        *final(u) == scrolled(*old(u), sat_add(old(u).help_scroll, n)),
{
    u.help_scroll = if u.help_scroll as u32 + n as u32 <= 65535 { u.help_scroll + n } else { 65535 };
}

fn go_tab(u: &mut UiState, t: usize)
    ensures
        *final(u) == on_tab(*old(u), t as int),
{
    u.help_tab_idx = t;
    u.help_scroll = 0;
}

fn help_char(ui: &mut UiState, c: char, ctrl: bool)
    requires
        old(ui).help_tab_idx < usize::MAX,
    ensures
        *final(ui) == help_char_spec(*old(ui), c, ctrl),
{
    let prev = if ui.help_tab_idx == 0 { 9 } else { ui.help_tab_idx - 1 };
    let next = (ui.help_tab_idx + 1) % 10;
    if c == 'k' || c == 'K' {
        scroll_up(ui, 1);
    } else if c == 'j' || c == 'J' {
        scroll_down(ui, 1);
    } else if c == 'y' && ctrl {
        scroll_up(ui, 1);
    } else if c == 'e' && ctrl {
        scroll_down(ui, 1);
    } else if c == 'h' || c == 'H' {
        go_tab(ui, prev);
    } else if c == 'l' || c == 'L' {
        go_tab(ui, next);
    } else if '1' <= c && c <= '9' {
        go_tab(ui, (c as u32 - '1' as u32) as usize);
    } else if c == '0' {
        go_tab(ui, 9);
    } else if c == 'q' || c == 'Q' {
        ui.show_help = false;
    }
}

/// While the help window is open it takes every key (see `help_step`) and
/// the result is true; otherwise nothing changes and the result is false.
pub fn handle_modal_key(ui: &mut UiState, key: &KeyEvent) -> (handled: bool)
    requires
        old(ui).help_tab_idx < usize::MAX,
    ensures
        handled == old(ui).show_help,
        *final(ui) == if old(ui).show_help { help_step(*old(ui), *key) } else { *old(ui) },
{
    if !ui.show_help {
        return false;
    }
    let prev = if ui.help_tab_idx == 0 { 9 } else { ui.help_tab_idx - 1 };
    let next = (ui.help_tab_idx + 1) % 10;
    match key.code {
        KeyCode::Char(c) => help_char(ui, c, key.modifiers.control),
        KeyCode::Up => scroll_up(ui, 1),
        KeyCode::Down => scroll_down(ui, 1),
        KeyCode::PageUp => scroll_up(ui, 10),
        KeyCode::PageDown => scroll_down(ui, 10),
        KeyCode::Left => go_tab(ui, prev),
        KeyCode::Right => go_tab(ui, next),
        KeyCode::Esc | KeyCode::F(1) => {
            ui.show_help = false;
        },
        _ => {},
    }
    true
}

/// The help window always shows one of its ten tabs.
pub proof fn lemma_help_tab_in_range(u: UiState, key: KeyEvent)
    requires
        u.help_tab_idx < 10,
    ensures
        help_step(u, key).help_tab_idx < 10,
{
}

/// The editor's mode takes a count before a motion.
pub open spec fn counting_mode(m: EditorMode) -> bool {
    m == EditorMode::Normal || m == EditorMode::Visual
}

/// `key` is a digit that extends the count: in normal or visual mode, with
/// no replacement pending and no modifier, a digit other than a leading `0`.
pub open spec fn count_digit(ui: UiState, key: KeyEvent) -> Option<int> {
    match key.code {
        KeyCode::Char(c) => if counting_mode(ui.mode) && !ui.replace_next_char && '0' <= c && c <= '9'
            && (c != '0' || ui.vim_multiplier is Some) && key.modifiers.none_held() {
            Some(c as int - '0' as int)
        } else {
            None
        },
        _ => None,
    }
}

/// The count before a key: a digit extends the count (`None`: the key is
/// used up); any other key runs as many times as the count says when it is a
/// repeatable motion in normal or visual mode, else once, and the count is
/// dropped.
pub open spec fn count_step_spec(ui: UiState, key: KeyEvent) -> (UiState, Option<usize>) {
    match count_digit(ui, key) {
        Some(d) => {
            let cur = match ui.vim_multiplier { Some(m) => m as int, None => 0 };
            (UiState { vim_multiplier: Some((cur * 10 + d) as usize), ..ui }, None)
        },
        None => {
            let count = match ui.vim_multiplier {
                Some(m) => if counting_mode(ui.mode) && repeatable_motion_spec(key) { m } else { 1 },
                None => 1,
            };
            (UiState { vim_multiplier: None, ..ui }, Some(count))
        },
    }
}

/// The extended count fits in a `usize`.
pub open spec fn count_fits(ui: UiState, key: KeyEvent) -> bool {
    count_digit(ui, key) matches Some(d) ==> (match ui.vim_multiplier { Some(m) => m as int, None => 0 })
        * 10 + d <= usize::MAX
}

/// Reads a count digit, or says how many times to run the key (see
/// `count_step_spec`).
pub fn count_step(ui: &mut UiState, key: &KeyEvent) -> (r: Option<usize>)
    requires
        count_fits(*old(ui), *key),
    ensures
        (*final(ui), r) == count_step_spec(*old(ui), *key),
{
    let counting = ui.mode == EditorMode::Normal || ui.mode == EditorMode::Visual;
    if let KeyCode::Char(c) = key.code {
        if counting && !ui.replace_next_char && '0' <= c && c <= '9' && (c != '0'
            || ui.vim_multiplier.is_some()) && key.modifiers.is_empty() {
            let digit = (c as u32 - '0' as u32) as usize;
            let current = match ui.vim_multiplier {
                Some(m) => m,
                None => 0,
            };
            ui.vim_multiplier = Some(current * 10 + digit);
            return None;
        }
    }
    let mut count: usize = 1;
    if let Some(m) = ui.vim_multiplier {
        if counting && is_repeatable_motion(key) {
            count = m;
        }
        ui.vim_multiplier = None;
    }
    Some(count)
}

/// What the editor panel does with a key.
#[derive(Clone, Copy, Debug, PartialEq, Eq, Structural)]
pub enum EditorIntent {
    /// Wrap the selection in a wiki link.
    WrapLink,
    /// Follow the link under the cursor.
    FollowLink,
    /// Toggle the checklist item on the cursor's row.
    ToggleTodo,
    /// Go back to the previous note.
    GoBack,
    /// Ask whether to delete the current note.
    ConfirmDelete,
    /// Hand the key to the editor.
    PassToEditor,
    /// Drop the key: the editor does not handle it.
    Ignore,
}

/// The keys the editor itself handles: characters, escape, backspace,
/// enter, tab, delete, the arrows, home, end, page up and page down.
pub open spec fn editor_handles(code: KeyCode) -> bool {
    match code {
        KeyCode::F(_) | KeyCode::Other => false,
        _ => true,
    }
}

/// The editor panel's reading of a key, in order: enter wraps the selection
/// in visual mode and follows a link in normal mode; in normal mode `t`
/// toggles a checklist item, backspace or control-o goes back and control-d
/// asks to delete the note. Other keys go to the editor when it handles
/// them. (Where following, toggling or going back finds nothing to do, the
/// key goes to the editor.)
pub open spec fn editor_intent_spec(mode: EditorMode, key: KeyEvent) -> EditorIntent {
    let ctrl = key.modifiers.control;
    let normal = mode == EditorMode::Normal;
    if key.code == KeyCode::Enter && mode == EditorMode::Visual {
        EditorIntent::WrapLink
    } else if key.code == KeyCode::Enter && normal {
        EditorIntent::FollowLink
    } else if key.code == KeyCode::Char('t') && normal {
        EditorIntent::ToggleTodo
    } else if (key.code == KeyCode::Backspace || (key.code == KeyCode::Char('o') && ctrl)) && normal {
        EditorIntent::GoBack
    } else if key.code == KeyCode::Char('d') && ctrl && normal {
        EditorIntent::ConfirmDelete
    } else if editor_handles(key.code) {
        EditorIntent::PassToEditor
    } else {
        EditorIntent::Ignore
    }
}

/// How the editor panel reads `key` in `mode` (see `editor_intent_spec`).
pub fn editor_intent(mode: EditorMode, key: &KeyEvent) -> (r: EditorIntent)
    ensures
        r == editor_intent_spec(mode, *key),
{
    let ctrl = key.modifiers.control;
    let normal = mode == EditorMode::Normal;
    if key.code == KeyCode::Enter && mode == EditorMode::Visual {
        EditorIntent::WrapLink
    } else if key.code == KeyCode::Enter && normal {
        EditorIntent::FollowLink
    } else if key.code == KeyCode::Char('t') && normal {
        EditorIntent::ToggleTodo
    } else if (key.code == KeyCode::Backspace || (key.code == KeyCode::Char('o') && ctrl)) && normal {
        EditorIntent::GoBack
    } else if key.code == KeyCode::Char('d') && ctrl && normal {
        EditorIntent::ConfirmDelete
    } else {
        match key.code {
            KeyCode::F(_) | KeyCode::Other => EditorIntent::Ignore,
            _ => EditorIntent::PassToEditor,
        }
    }
}

/// What a key does in one of the side panels' lists.
#[derive(Clone, Copy, Debug, PartialEq, Eq, Structural)]
pub enum ListIntent {
    /// Move the selection to this entry.
    Select(usize),
    /// Open this entry.
    Open(usize),
    /// Ask whether to delete this entry's note.
    Remove(usize),
    /// Copy this entry's value.
    Copy(usize),
    /// Give the focus back to the editor.
    Leave,
    Nothing,
}

/// A key in the wiki map, with entry `sel` selected among `n`: up (`k`) and
/// down (`j`) move within the list, enter opens, `d`, `x` or delete asks to
/// delete, escape leaves. With an empty list only escape does something.
pub open spec fn wikimap_key_spec(sel: usize, n: usize, key: KeyEvent) -> ListIntent {
    let up = key.code == KeyCode::Up || key.code == KeyCode::Char('k');
    let down = key.code == KeyCode::Down || key.code == KeyCode::Char('j');
    if n > 0 && up && sel > 0 {
        ListIntent::Select((sel - 1) as usize)
    } else if n > 0 && down && sel < n - 1 {
        ListIntent::Select((sel + 1) as usize)
    } else if n > 0 && key.code == KeyCode::Enter {
        ListIntent::Open(sel)
    } else if n > 0 && (key.code == KeyCode::Char('d') || key.code == KeyCode::Char('x') || key.code
        == KeyCode::Delete) {
        ListIntent::Remove(sel)
    } else if key.code == KeyCode::Esc {
        ListIntent::Leave
    } else {
        ListIntent::Nothing
    }
}

/// Reads a key in the wiki map (see `wikimap_key_spec`).
pub fn wikimap_key(sel: usize, n: usize, key: &KeyEvent) -> (r: ListIntent)
    ensures
        r == wikimap_key_spec(sel, n, *key),
{
    let up = key.code == KeyCode::Up || key.code == KeyCode::Char('k');
    let down = key.code == KeyCode::Down || key.code == KeyCode::Char('j');
    if n > 0 && up && sel > 0 {
        ListIntent::Select(sel - 1)
    } else if n > 0 && down && sel < n - 1 {
        ListIntent::Select(sel + 1)
    } else if n > 0 && key.code == KeyCode::Enter {
        ListIntent::Open(sel)
    } else if n > 0 && (key.code == KeyCode::Char('d') || key.code == KeyCode::Char('x') || key.code
        == KeyCode::Delete) {
        ListIntent::Remove(sel)
    } else if key.code == KeyCode::Esc {
        ListIntent::Leave
    } else {
        ListIntent::Nothing
    }
}

/// A key in the variables panel, with entry `sel` selected among `n`: up
/// (`k`) and down (`j`) move within the list, `y` copies the value, enter or
/// `i` inserts the name at the cursor, escape or control-h leaves.
pub open spec fn variables_key_spec(sel: usize, n: usize, key: KeyEvent) -> ListIntent {
    let up = key.code == KeyCode::Up || key.code == KeyCode::Char('k');
    let down = key.code == KeyCode::Down || key.code == KeyCode::Char('j');
    if up && n > 0 && sel > 0 {
        ListIntent::Select((sel - 1) as usize)
    } else if down && n > 0 && sel < n - 1 {
        ListIntent::Select((sel + 1) as usize)
    } else if key.code == KeyCode::Char('y') && n > 0 && sel < n {
        ListIntent::Copy(sel)
    } else if (key.code == KeyCode::Enter || key.code == KeyCode::Char('i')) && n > 0 && sel < n {
        ListIntent::Open(sel)
    } else if key.code == KeyCode::Esc || (key.code == KeyCode::Char('h') && key.modifiers.control) {
        ListIntent::Leave
    } else {
        ListIntent::Nothing
    }
}

/// Reads a key in the variables panel (see `variables_key_spec`).
pub fn variables_key(sel: usize, n: usize, key: &KeyEvent) -> (r: ListIntent)
    ensures
        r == variables_key_spec(sel, n, *key),
{
    let up = key.code == KeyCode::Up || key.code == KeyCode::Char('k');
    let down = key.code == KeyCode::Down || key.code == KeyCode::Char('j');
    if up && n > 0 && sel > 0 {
        ListIntent::Select(sel - 1)
    } else if down && n > 0 && sel < n - 1 {
        ListIntent::Select(sel + 1)
    } else if key.code == KeyCode::Char('y') && n > 0 && sel < n {
        ListIntent::Copy(sel)
    } else if (key.code == KeyCode::Enter || key.code == KeyCode::Char('i')) && n > 0 && sel < n {
        ListIntent::Open(sel)
    } else if key.code == KeyCode::Esc || (key.code == KeyCode::Char('h') && key.modifiers.control) {
        ListIntent::Leave
    } else {
        ListIntent::Nothing
    }
}

/// What a key does on the search or command line.
#[derive(Clone, Copy, Debug, PartialEq, Eq, Structural)]
pub enum LineEdit {
    /// Close the line without running it.
    Cancel,
    /// Close the line and run it.
    Submit,
    /// The text changed.
    Edited,
    Ignored,
}

/// A key on a one-line input: escape cancels, enter submits, backspace
/// removes the last character, a character is appended.
pub fn line_input(text: &mut Vec<char>, key: &KeyEvent) -> (r: LineEdit)
    ensures
        match key.code {
            KeyCode::Esc => r == LineEdit::Cancel && final(text)@ == old(text)@,
            KeyCode::Enter => r == LineEdit::Submit && final(text)@ == old(text)@,
            KeyCode::Backspace => r == LineEdit::Edited && final(text)@ == (if old(text)@.len() > 0 {
                old(text)@.drop_last()
            } else {
                old(text)@
            }),
            KeyCode::Char(c) => r == LineEdit::Edited && final(text)@ == old(text)@.push(c),
            _ => r == LineEdit::Ignored && final(text)@ == old(text)@,
        },
{
    match key.code {
        KeyCode::Esc => LineEdit::Cancel,
        KeyCode::Enter => LineEdit::Submit,
        KeyCode::Backspace => {
            text.pop();
            LineEdit::Edited
        },
        KeyCode::Char(c) => {
            text.push(c);
            LineEdit::Edited
        },
        _ => LineEdit::Ignored,
    }
}

/// An ex-style command typed after `:`.
#[derive(Debug)]
pub enum Command {
    /// Nothing was typed.
    Empty,
    /// `q`, `q!` or `wq`: leave (notes are saved as they change).
    Quit,
    /// `theme` with its argument (possibly empty).
    Theme(String),
    /// Any other command word.
    Unknown(String),
}

/// The position of the first white space in `t` at or after `i`.
pub open spec fn first_ws_from(t: Seq<char>, i: int) -> Option<int>
    decreases t.len() - i,
{
    if i < 0 || i >= t.len() {
        None
    } else if unicode_whitespace(t[i]) {
        Some(i)
    } else {
        first_ws_from(t, i + 1)
    }
}

/// The command word and the argument of a command line: the trimmed line is
/// split at its first white space (`str::split_once`), the argument is
/// trimmed; without white space the whole line is the word.
pub open spec fn command_parts(input: Seq<char>) -> (Seq<char>, Seq<char>) {
    let t = trim_spec(input);
    match first_ws_from(t, 0) {
        Some(i) => (t.take(i), trim_spec(t.skip(i + 1))),
        None => (t, Seq::<char>::empty()),
    }
}

/// The command a line names.
pub open spec fn command_kind(input: Seq<char>) -> (int, Seq<char>) {
    let (cmd, arg) = command_parts(input);
    if cmd.len() == 0 {
        (0, Seq::<char>::empty())
    } else if cmd == "q"@ || cmd == "q!"@ || cmd == "wq"@ {
        (1, Seq::<char>::empty())
    } else if cmd == "theme"@ {
        (2, arg)
    } else {
        (3, cmd)
    }
}

/// The model of a command: its kind (empty, quit, theme, unknown) and its
/// text (the theme's name or the unknown word).
pub open spec fn command_view(c: Command) -> (int, Seq<char>) {
    match c {
        Command::Empty => (0, Seq::<char>::empty()),
        Command::Quit => (1, Seq::<char>::empty()),
        Command::Theme(a) => (2, a@),
        Command::Unknown(w) => (3, w@),
    }
}

/// Reads an ex-style command line (see `command_kind`).
pub fn parse_command(input: &str) -> (r: Command)
    ensures
        command_view(r) == command_kind(input@),
{
    let all = str_to_chars(input);
    let t = trim_char_slice(all.as_slice());
    let mut i: usize = 0;
    while i < t.len() && !char_is_whitespace(t[i])
        invariant
            i <= t@.len(),
            t@ == trim_spec(input@),
            first_ws_from(t@, 0) == first_ws_from(t@, i as int),
        decreases t.len() - i,
    {
        i += 1;
    }
    let (cmd, arg): (&[char], &[char]) = if i < t.len() {
        (&t[0..i], trim_char_slice(&t[i + 1..t.len()]))
    } else {
        (t, &t[0..0])
    };
    proof {
        if i < t@.len() {
            assert(t@.skip(i + 1) =~= t@.subrange(i + 1, t@.len() as int));
            assert(cmd@ =~= t@.take(i as int));
        } else {
            assert(arg@ =~= Seq::<char>::empty());
        }
    }
    if cmd.len() == 0 {
        Command::Empty
    } else if equals_str(cmd, "q") || equals_str(cmd, "q!") || equals_str(cmd, "wq") {
        Command::Quit
    } else if equals_str(cmd, "theme") {
        Command::Theme(chars_to_string(arg))
    } else {
        Command::Unknown(chars_to_string(cmd))
    }
}

/// The status message for an unknown command word.
pub fn unknown_command_message(word: &str) -> (m: String)
    ensures
        m@ == "unknown command: "@ + word@,
{
    let mut m = String::from_str("unknown command: ");
    m.append(word);
    m
}

/// The rows of the wiki map panel that show a link, and the index of that
/// link among the backlinks, outgoing links and search results taken in
/// that order. Row 0 is the panel's top border; each section has a header
/// and a spacer row, and an empty section shows one placeholder row.
pub open spec fn row_map_spec(b: int, o: int, show_results: bool, n: int) -> Map<usize, usize> {
    let out_start = 1 + (if b == 0 { 1 } else { b }) + 2;
    let res_start = out_start + (if o == 0 { 1 } else { o }) + 2;
    Map::new(
        |r: usize|
            (1 <= r < 1 + b) || (out_start <= r < out_start + o) || (show_results && res_start <= r
                < res_start + n),
        |r: usize|
            if 1 <= r < 1 + b {
                (r - 1) as usize
            } else if out_start <= r < out_start + o {
                (b + r - out_start) as usize
            } else {
                (b + o + r - res_start) as usize
            },
    )
}

/// Maps the wiki map panel's rows to its links (see `row_map_spec`).
pub fn get_left_panel_row_map(
    n_backlinks: usize,
    n_outgoing: usize,
    show_search_results: bool,
    n_results: usize,
) -> (m: HashMap<usize, usize>)
    requires
        n_backlinks + n_outgoing + n_results + 8 <= usize::MAX,
    ensures
        m@ == row_map_spec(n_backlinks as int, n_outgoing as int, show_search_results, n_results as int),
{
    let ghost spec_map = row_map_spec(n_backlinks as int, n_outgoing as int, show_search_results, n_results as int);
    let mut row_map: HashMap<usize, usize> = HashMap::new();
    let mut current_row: usize = 1;
    let mut idx: usize = 0;
    while idx < n_backlinks
        invariant
            idx <= n_backlinks,
            current_row == 1 + idx,
            n_backlinks + n_outgoing + n_results + 8 <= usize::MAX,
            forall|r: usize| #[trigger] row_map@.contains_key(r) <==> 1 <= r < 1 + idx,
            forall|r: usize| 1 <= r < 1 + idx ==> #[trigger] row_map@[r] == (r - 1) as usize,
        decreases n_backlinks - idx,
    {
        row_map.insert(current_row, idx);
        current_row += 1;
        idx += 1;
    }
    if n_backlinks == 0 {
        current_row += 1;
    }
    current_row += 2;
    let out_start = current_row;
    let ghost b = n_backlinks as int;
    let mut k: usize = 0;
    while k < n_outgoing
        invariant
            k <= n_outgoing,
            current_row == out_start + k,
            idx == n_backlinks + k,
            out_start == 1 + (if b == 0 { 1 } else { b }) + 2,
            b == n_backlinks,
            n_backlinks + n_outgoing + n_results + 8 <= usize::MAX,
            forall|r: usize| #[trigger] row_map@.contains_key(r) <==> (1 <= r < 1 + b) || (out_start
                <= r < out_start + k),
            forall|r: usize| 1 <= r < 1 + b ==> #[trigger] row_map@[r] == (r - 1) as usize,
            forall|r: usize| out_start <= r < out_start + k ==> #[trigger] row_map@[r] == (b + r
                - out_start) as usize,
        decreases n_outgoing - k,
    {
        row_map.insert(current_row, idx);
        current_row += 1;
        idx += 1;
        k += 1;
    }
    if n_outgoing == 0 {
        current_row += 1;
    }
    if show_search_results {
        current_row += 2;
        let res_start = current_row;
        let ghost o = n_outgoing as int;
        let mut j: usize = 0;
        while j < n_results
            invariant
                j <= n_results,
                current_row == res_start + j,
                idx == n_backlinks + n_outgoing + j,
                out_start == 1 + (if b == 0 { 1 } else { b }) + 2,
                res_start == out_start + (if o == 0 { 1 } else { o }) + 2,
                b == n_backlinks,
                o == n_outgoing,
                n_backlinks + n_outgoing + n_results + 8 <= usize::MAX,
                forall|r: usize| #[trigger] row_map@.contains_key(r) <==> (1 <= r < 1 + b) || (out_start
                    <= r < out_start + o) || (res_start <= r < res_start + j),
                forall|r: usize| 1 <= r < 1 + b ==> #[trigger] row_map@[r] == (r - 1) as usize,
                forall|r: usize| out_start <= r < out_start + o ==> #[trigger] row_map@[r] == (b
                    + r - out_start) as usize,
                forall|r: usize| res_start <= r < res_start + j ==> #[trigger] row_map@[r] == (b
                    + o + r - res_start) as usize,
            decreases n_results - j,
        {
            row_map.insert(current_row, idx);
            current_row += 1;
            idx += 1;
            j += 1;
        }
    }
    assert(row_map@ =~= spec_map);
    row_map
}

/// The texts of a list of strings.
pub open spec fn texts(v: Seq<String>) -> Seq<Seq<char>> {
    v.map_values(|s: String| s@)
}

fn append_all(out: &mut Vec<String>, v: &Vec<String>)
    ensures
        texts(final(out)@) == texts(old(out)@) + texts(v@),
{
    let mut i: usize = 0;
    while i < v.len()
        invariant
            i <= v@.len(),
            texts(out@) == texts(old(out)@) + texts(v@.take(i as int)),
        decreases v.len() - i,
    {
        let ghost before = out@;
        let c = v[i].clone();
        out.push(c);
        proof {
            assert(v@.take(i + 1) =~= v@.take(i as int).push(v@[i as int]));
            assert(out@ =~= before.push(c));
            assert(texts(out@) =~= texts(before).push(c@));
            assert(texts(v@.take(i + 1)) =~= texts(v@.take(i as int)).push(v@[i as int]@));
        }
        i += 1;
    }
    assert(v@.take(i as int) =~= v@);
}

/// The links of the wiki map that can be selected, in the order the panel
/// shows them: backlinks, outgoing links, then the search results when they
/// are shown.
pub fn get_wiki_map_selectable_links(
    backlinks: &Vec<String>,
    outgoing: &Vec<String>,
    show_search_results: bool,
    search_results: &Vec<String>,
) -> (r: Vec<String>)
    ensures
        texts(r@) == texts(backlinks@) + texts(outgoing@) + if show_search_results {
            texts(search_results@)
        } else {
            Seq::<Seq<char>>::empty()
        },
{
    let mut links: Vec<String> = Vec::new();
    assert(texts(links@) =~= Seq::<Seq<char>>::empty());
    append_all(&mut links, backlinks);
    append_all(&mut links, outgoing);
    if show_search_results {
        append_all(&mut links, search_results);
    } else {
        assert(texts(links@) =~= texts(links@) + Seq::<Seq<char>>::empty());
    }
    links
}

/// Each row the wiki map maps to a link points at one of the selectable
/// links.
pub proof fn lemma_row_map_in_links(b: int, o: int, show: bool, n: int, r: usize)
    requires
        0 <= b,
        0 <= o,
        0 <= n,
        row_map_spec(b, o, show, n).contains_key(r),
    ensures
        row_map_spec(b, o, show, n)[r] < b + o + if show { n } else { 0 },
{
}

/// Whether `count_step` can take `key`: a digit keeps the count within a
/// `usize` (see `count_fits`).
pub fn count_step_fits(ui: &UiState, key: &KeyEvent) -> (r: bool)
    ensures
        r == count_fits(*ui, *key),
{
    let counting = ui.mode == EditorMode::Normal || ui.mode == EditorMode::Visual;
    if let KeyCode::Char(c) = key.code {
        if counting && !ui.replace_next_char && '0' <= c && c <= '9' && (c != '0'
            || ui.vim_multiplier.is_some()) && key.modifiers.is_empty() {
            let digit = (c as u32 - '0' as u32) as usize;
            let current = match ui.vim_multiplier {
                Some(m) => m,
                None => 0,
            };
            return current <= (usize::MAX - digit) / 10;
        }
    }
    true
}

/// The screen cell `(col, row)` lies in `area`.
pub open spec fn in_area(col: u16, row: u16, area: Rect) -> bool {
    area.x <= col < area.x + area.width && area.y <= row < area.y + area.height
}

/// The panel under the mouse: the wiki map when it is open and holds the
/// cell, else the variables panel when it is open and holds it, else the
/// editor when it holds it.
pub open spec fn panel_at_spec(
    col: u16,
    row: u16,
    left_open: bool,
    left: Rect,
    right_open: bool,
    right: Rect,
    editor: Rect,
) -> Option<FocusedPanel> {
    if left_open && in_area(col, row, left) {
        Some(FocusedPanel::WikiMap)
    } else if right_open && in_area(col, row, right) {
        Some(FocusedPanel::Variables)
    } else if in_area(col, row, editor) {
        Some(FocusedPanel::Editor)
    } else {
        None
    }
}

fn in_area_exec(col: u16, row: u16, area: &Rect) -> (r: bool)
    ensures
        r == in_area(col, row, *area),
{
    area.x <= col && (col as u32) < area.x as u32 + area.width as u32 && area.y <= row && (row as u32)
        < area.y as u32 + area.height as u32
}

/// The panel under the mouse (see `panel_at_spec`).
pub fn panel_at(
    col: u16,
    row: u16,
    left_open: bool,
    left: &Rect,
    right_open: bool,
    right: &Rect,
    editor: &Rect,
) -> (r: Option<FocusedPanel>)
    ensures
        r == panel_at_spec(col, row, left_open, *left, right_open, *right, *editor),
{
    if left_open && in_area_exec(col, row, left) {
        Some(FocusedPanel::WikiMap)
    } else if right_open && in_area_exec(col, row, right) {
        Some(FocusedPanel::Variables)
    } else if in_area_exec(col, row, editor) {
        Some(FocusedPanel::Editor)
    } else {
        None
    }
}

/// The row inside a bordered panel that a click on screen row `row` hits:
/// rows below the top border count from zero.
pub fn clicked_row(row: u16, area: &Rect) -> (r: Option<usize>)
    ensures
        r == (if row as int - area.y as int - 1 >= 0 {
            Some((row - area.y - 1) as usize)
        } else {
            None::<usize>
        }),
{
    if row > area.y {
        Some((row - area.y - 1) as usize)
    } else {
        None
    }
}

/// Where a key press goes.
#[derive(Clone, Copy, Debug, PartialEq, Eq, Structural)]
pub enum KeyRoute {
    /// `Ctrl-q`: the application quits, whatever mode or panel is active.
    Quit,
    /// The export menu takes the key.
    ExportMenu,
    /// The search line takes the key.
    SearchLine,
    /// The command line takes the key.
    CommandLine,
    /// The question whether to delete the note takes the key.
    DeletePrompt,
    /// The help modal, then the global keys, then the focused panel.
    Global,
}

/// The key is `Ctrl-q`: `q` with the control key held (other modifiers may
/// be held too).
pub open spec fn is_quit_key(key: KeyEvent) -> bool {
    key.code == KeyCode::Char('q') && key.modifiers.control
}

/// Routes a key press: `Ctrl-q` quits from anywhere; otherwise an open
/// export menu, an active search line, an active command line and a pending
/// delete question take the key, in that order; else it goes on to the help
/// modal, the global keys and the focused panel.
pub fn route_key(ui: &UiState, delete_pending: bool, key: &KeyEvent) -> (r: KeyRoute)
    ensures
        (r == KeyRoute::Quit) <==> is_quit_key(*key),
        !is_quit_key(*key) ==> r == (if ui.show_export_menu {
            KeyRoute::ExportMenu
        } else if ui.search_active {
            KeyRoute::SearchLine
        } else if ui.command_active {
            KeyRoute::CommandLine
        } else if delete_pending {
            KeyRoute::DeletePrompt
        } else {
            KeyRoute::Global
        }),
{
    if key.code == KeyCode::Char('q') && key.modifiers.control {
        KeyRoute::Quit
    } else if ui.show_export_menu {
        KeyRoute::ExportMenu
    } else if ui.search_active {
        KeyRoute::SearchLine
    } else if ui.command_active {
        KeyRoute::CommandLine
    } else if delete_pending {
        KeyRoute::DeletePrompt
    } else {
        KeyRoute::Global
    }
}

/// The panel that a saved session gives the keyboard to: the panel saved
/// by name (`WikiMap`, `Variables`, anything else the editor), but the
/// editor where the saved panel is closed.
pub fn restored_focus(saved: &str, left_panel_open: bool, right_panel_open: bool) -> (r: FocusedPanel)
    ensures
        r == (if saved@ == "WikiMap"@ && left_panel_open {
            FocusedPanel::WikiMap
        } else if saved@ == "Variables"@ && right_panel_open {
            FocusedPanel::Variables
        } else {
            FocusedPanel::Editor
        }),
{
    let cs = str_to_chars(saved);
    proof {
        reveal_strlit("WikiMap");
        reveal_strlit("Variables");
        assert("WikiMap"@[0] != "Variables"@[0]);
    }
    if equals_str(cs.as_slice(), "WikiMap") {
        if left_panel_open { FocusedPanel::WikiMap } else { FocusedPanel::Editor }
    } else if equals_str(cs.as_slice(), "Variables") {
        if right_panel_open { FocusedPanel::Variables } else { FocusedPanel::Editor }
    } else {
        FocusedPanel::Editor
    }
}

/// What the editor does with a key that reaches it.
#[derive(Clone, Copy, Debug, PartialEq, Eq, Structural)]
pub enum EditorCommand {
    /// Move the cursor by a row and a column step (see `move_cursor`).
    Move(isize, isize),
    /// Type a character (insert mode).
    InsertChar(char),
    /// Break the line (insert mode).
    InsertNewline,
    ToNormal,
    ToInsert,
    ToVisual,
    Undo,
    Redo,
    ToggleCase,
    Indent,
    Dedent,
    ToggleFold,
    /// `x`: delete characters from the cursor on (normal mode).
    DeleteChars,
    Nothing,
}

/// The cursor step of a motion key: `h`/left and `l`/right one column,
/// `k`/up and `j`/down one row, page up and page down ten rows.
pub open spec fn step_of(code: KeyCode) -> Option<(isize, isize)> {
    if code == KeyCode::Char('h') || code == KeyCode::Left {
        Some((0isize, -1isize))
    } else if code == KeyCode::Char('l') || code == KeyCode::Right {
        Some((0isize, 1isize))
    } else if code == KeyCode::Char('k') || code == KeyCode::Up {
        Some((-1isize, 0isize))
    } else if code == KeyCode::Char('j') || code == KeyCode::Down {
        Some((1isize, 0isize))
    } else if code == KeyCode::PageUp {
        Some((-10isize, 0isize))
    } else if code == KeyCode::PageDown {
        Some((10isize, 0isize))
    } else {
        None
    }
}

/// The editor's reading of `key` in `mode`. In insert mode: escape leaves
/// it, a character is typed, enter breaks the line, and only the arrow and
/// page keys move (letters are typed). In normal and visual mode the motion
/// keys move; then `Esc`, `i`, `v`, `u`, `Ctrl-r`, `~`, `>`, `<` and `f`
/// switch mode, undo, redo, toggle case, indent, dedent and fold, and `x`
/// deletes in normal mode.
pub open spec fn editor_command_spec(mode: EditorMode, key: KeyEvent) -> EditorCommand {
    let step = match step_of(key.code) {
        Some((dr, dc)) => EditorCommand::Move(dr, dc),
        None => EditorCommand::Nothing,
    };
    if mode == EditorMode::Insert {
        match key.code {
            KeyCode::Esc => EditorCommand::ToNormal,
            KeyCode::Char(c) => EditorCommand::InsertChar(c),
            KeyCode::Enter => EditorCommand::InsertNewline,
            _ => step,
        }
    } else if step_of(key.code) is Some {
        step
    } else if key.code == KeyCode::Esc {
        EditorCommand::ToNormal
    } else if key.code == KeyCode::Char('i') {
        EditorCommand::ToInsert
    } else if key.code == KeyCode::Char('v') {
        EditorCommand::ToVisual
    } else if key.code == KeyCode::Char('u') {
        EditorCommand::Undo
    } else if key.code == KeyCode::Char('r') && key.modifiers.control {
        EditorCommand::Redo
    } else if key.code == KeyCode::Char('~') {
        EditorCommand::ToggleCase
    } else if key.code == KeyCode::Char('>') {
        EditorCommand::Indent
    } else if key.code == KeyCode::Char('<') {
        EditorCommand::Dedent
    } else if key.code == KeyCode::Char('f') {
        EditorCommand::ToggleFold
    } else if key.code == KeyCode::Char('x') && mode == EditorMode::Normal {
        EditorCommand::DeleteChars
    } else {
        EditorCommand::Nothing
    }
}

fn step_of_exec(code: KeyCode) -> (r: Option<(isize, isize)>)
    ensures
        r == step_of(code),
{
    if code == KeyCode::Char('h') || code == KeyCode::Left {
        Some((0, -1))
    } else if code == KeyCode::Char('l') || code == KeyCode::Right {
        Some((0, 1))
    } else if code == KeyCode::Char('k') || code == KeyCode::Up {
        Some((-1, 0))
    } else if code == KeyCode::Char('j') || code == KeyCode::Down {
        Some((1, 0))
    } else if code == KeyCode::PageUp {
        Some((-10, 0))
    } else if code == KeyCode::PageDown {
        Some((10, 0))
    } else {
        None
    }
}

/// How the editor reads `key` in `mode` (see `editor_command_spec`).
pub fn editor_command(mode: EditorMode, key: &KeyEvent) -> (r: EditorCommand)
    ensures
        r == editor_command_spec(mode, *key),
{
    let step = match step_of_exec(key.code) {
        Some((dr, dc)) => EditorCommand::Move(dr, dc),
        None => EditorCommand::Nothing,
    };
    if mode == EditorMode::Insert {
        match key.code {
            KeyCode::Esc => EditorCommand::ToNormal,
            KeyCode::Char(c) => EditorCommand::InsertChar(c),
            KeyCode::Enter => EditorCommand::InsertNewline,
            _ => step,
        }
    } else if step_of_exec(key.code).is_some() {
        step
    } else if key.code == KeyCode::Esc {
        EditorCommand::ToNormal
    } else if key.code == KeyCode::Char('i') {
        EditorCommand::ToInsert
    } else if key.code == KeyCode::Char('v') {
        EditorCommand::ToVisual
    } else if key.code == KeyCode::Char('u') {
        EditorCommand::Undo
    } else if key.code == KeyCode::Char('r') && key.modifiers.control {
        EditorCommand::Redo
    } else if key.code == KeyCode::Char('~') {
        EditorCommand::ToggleCase
    } else if key.code == KeyCode::Char('>') {
        EditorCommand::Indent
    } else if key.code == KeyCode::Char('<') {
        EditorCommand::Dedent
    } else if key.code == KeyCode::Char('f') {
        EditorCommand::ToggleFold
    } else if key.code == KeyCode::Char('x') && mode == EditorMode::Normal {
        EditorCommand::DeleteChars
    } else {
        EditorCommand::Nothing
    }
}

} // verus!
