use calki::edtui::Rect;
use calki::keys::{clicked_row, count_step_fits, get_wiki_map_selectable_links, panel_at};
use calki::math::datetime::timezone_name_fits;
use calki::edtui::EditorMode;
use calki::keys::{
    count_step, editor_intent, get_left_panel_row_map, handle_global_keys, handle_modal_key,
    is_repeatable_motion, line_input, parse_command, unknown_command_message, variables_key,
    wikimap_key, Command, EditorIntent, FocusedPanel, Flow, GlobalAction, KeyCode, KeyEvent,
    KeyModifiers, KeyRoute, LineEdit, ListIntent, UiState,
};
use calki::keys::{editor_command, restored_focus, route_key, EditorCommand};
use calki::math::datetime::{
    abbrev_to_iana, civil_to_epoch_in_zone, date_in_zone, resolve_timezone, zone_spec, ZoneSpec,
};
use calki::math::number::Rational;
use calki::math::quantity::{quantity_pow, Quantity};

fn ui() -> UiState {
    UiState {
        focused_panel: FocusedPanel::Editor,
        mode: EditorMode::Normal,
        replace_next_char: false,
        last_key_was_z: false,
        show_help: false,
        help_tab_idx: 0,
        help_scroll: 0,
        search_active: false,
        show_search_results: false,
        command_active: false,
        show_export_menu: false,
        left_panel_open: true,
        right_panel_open: false,
        word_wrap: true,
        vim_multiplier: None,
        selected_var_idx: 3,
    }
}

fn none() -> KeyModifiers {
    KeyModifiers { shift: false, control: false, alt: false, other: false }
}

fn plain(code: KeyCode) -> KeyEvent {
    KeyEvent { code, modifiers: none() }
}

fn ctrl(c: char) -> KeyEvent {
    KeyEvent { code: KeyCode::Char(c), modifiers: KeyModifiers { control: true, ..none() } }
}

#[test]
fn global_f1_toggles_help_and_continues() {
    let mut u = ui();
    u.help_tab_idx = 4;
    let o = handle_global_keys(&mut u, &plain(KeyCode::F(1)));
    assert_eq!(o.flow, Flow::Continue);
    assert!(u.show_help);
    assert_eq!(u.help_tab_idx, 0);
}

#[test]
fn global_slash_opens_search() {
    let mut u = ui();
    u.show_search_results = true;
    let o = handle_global_keys(&mut u, &plain(KeyCode::Char('/')));
    assert_eq!(o.flow, Flow::Continue);
    assert_eq!(o.action, GlobalAction::OpenedSearch);
    assert!(u.search_active);
    assert!(!u.show_search_results);
}

#[test]
fn global_f2_toggles_left_panel() {
    let mut u = ui();
    u.focused_panel = FocusedPanel::WikiMap;
    let o = handle_global_keys(&mut u, &plain(KeyCode::F(2)));
    assert_eq!(o.flow, Flow::Continue);
    assert!(!u.left_panel_open);
    assert_eq!(u.focused_panel, FocusedPanel::Editor);
    assert!(o.refresh);
}

#[test]
fn global_ctrl_e_opens_export_menu() {
    let mut u = ui();
    let o = handle_global_keys(&mut u, &ctrl('e'));
    assert_eq!(o.flow, Flow::Continue);
    assert!(u.show_export_menu);
}

#[test]
fn global_zz_first_arms_then_second_breaks() {
    let mut u = ui();
    let z = plain(KeyCode::Char('Z'));
    let o = handle_global_keys(&mut u, &z);
    assert_eq!(o.flow, Flow::Continue);
    assert!(u.last_key_was_z);
    let o = handle_global_keys(&mut u, &z);
    assert_eq!(o.flow, Flow::Break);
}

#[test]
fn global_ordinary_key_passes_through_and_resets_z() {
    let mut u = ui();
    u.last_key_was_z = true;
    let o = handle_global_keys(&mut u, &plain(KeyCode::Char('j')));
    assert_eq!(o.flow, Flow::Pass);
    assert!(!u.last_key_was_z);
}

#[test]
fn global_shift_l_focuses_variables_when_open() {
    let mut u = ui();
    u.right_panel_open = true;
    let o = handle_global_keys(&mut u, &plain(KeyCode::Char('L')));
    assert_eq!(o.flow, Flow::Continue);
    assert_eq!(u.focused_panel, FocusedPanel::Variables);
    assert_eq!(u.selected_var_idx, 0);
}

#[test]
fn global_colon_opens_command_line() {
    let mut u = ui();
    assert!(!u.command_active);
    let o = handle_global_keys(&mut u, &plain(KeyCode::Char(':')));
    assert_eq!(o.flow, Flow::Continue);
    assert_eq!(o.action, GlobalAction::OpenedCommandLine);
    assert!(u.command_active);
}

#[test]
fn global_r_then_character_replaces() {
    let mut u = ui();
    let o = handle_global_keys(&mut u, &plain(KeyCode::Char('r')));
    assert_eq!(o.flow, Flow::Continue);
    assert!(u.replace_next_char);
    let o = handle_global_keys(&mut u, &plain(KeyCode::Char('x')));
    assert_eq!(o.action, GlobalAction::ReplaceChar('x'));
    assert!(!u.replace_next_char);
    assert!(o.refresh);
}

#[test]
fn global_keys_in_insert_mode_pass_text_through() {
    let mut u = ui();
    u.mode = EditorMode::Insert;
    let o = handle_global_keys(&mut u, &plain(KeyCode::Char('/')));
    assert_eq!(o.flow, Flow::Pass);
    assert!(!u.search_active);
    let o = handle_global_keys(&mut u, &plain(KeyCode::Char('H')));
    assert_eq!(o.flow, Flow::Pass);
    let o = handle_global_keys(&mut u, &ctrl('h'));
    assert_eq!(o.flow, Flow::Continue);
    assert_eq!(u.focused_panel, FocusedPanel::WikiMap);
    let o = handle_global_keys(&mut u, &ctrl('s'));
    assert_eq!(o.action, GlobalAction::SaveNote);
    let o = handle_global_keys(&mut u, &plain(KeyCode::F(4)));
    assert_eq!(o.action, GlobalAction::ToggledWordWrap);
    assert!(!u.word_wrap);
}

#[test]
fn help_window_scrolls_and_switches_tabs() {
    let mut u = ui();
    assert!(!handle_modal_key(&mut u, &plain(KeyCode::Char('j'))));
    u.show_help = true;
    assert!(handle_modal_key(&mut u, &plain(KeyCode::Char('j'))));
    assert_eq!(u.help_scroll, 1);
    assert!(handle_modal_key(&mut u, &plain(KeyCode::PageDown)));
    assert_eq!(u.help_scroll, 11);
    assert!(handle_modal_key(&mut u, &plain(KeyCode::PageUp)));
    assert!(handle_modal_key(&mut u, &plain(KeyCode::PageUp)));
    assert_eq!(u.help_scroll, 0);
    assert!(handle_modal_key(&mut u, &ctrl('e')));
    assert_eq!(u.help_scroll, 1);
    assert!(handle_modal_key(&mut u, &plain(KeyCode::Char('h'))));
    assert_eq!(u.help_tab_idx, 9);
    assert_eq!(u.help_scroll, 0);
    assert!(handle_modal_key(&mut u, &plain(KeyCode::Right)));
    assert_eq!(u.help_tab_idx, 0);
    assert!(handle_modal_key(&mut u, &plain(KeyCode::Char('4'))));
    assert_eq!(u.help_tab_idx, 3);
    assert!(handle_modal_key(&mut u, &plain(KeyCode::Char('0'))));
    assert_eq!(u.help_tab_idx, 9);
    u.help_scroll = 65530;
    assert!(handle_modal_key(&mut u, &plain(KeyCode::PageDown)));
    assert_eq!(u.help_scroll, 65535);
    assert!(handle_modal_key(&mut u, &plain(KeyCode::Char('q'))));
    assert!(!u.show_help);
}

#[test]
fn counts_repeat_motions_only() {
    let mut u = ui();
    assert_eq!(count_step(&mut u, &plain(KeyCode::Char('0'))), Some(1));
    assert_eq!(count_step(&mut u, &plain(KeyCode::Char('1'))), None);
    assert_eq!(count_step(&mut u, &plain(KeyCode::Char('2'))), None);
    assert_eq!(u.vim_multiplier, Some(12));
    assert_eq!(count_step(&mut u, &plain(KeyCode::Char('j'))), Some(12));
    assert_eq!(u.vim_multiplier, None);
    assert_eq!(count_step(&mut u, &plain(KeyCode::Char('3'))), None);
    assert_eq!(count_step(&mut u, &plain(KeyCode::Char('i'))), Some(1));
    assert_eq!(u.vim_multiplier, None);
    assert!(is_repeatable_motion(&plain(KeyCode::PageDown)));
    assert!(!is_repeatable_motion(&ctrl('j')));
}

#[test]
fn editor_panel_intents() {
    assert_eq!(editor_intent(EditorMode::Visual, &plain(KeyCode::Enter)), EditorIntent::WrapLink);
    assert_eq!(editor_intent(EditorMode::Normal, &plain(KeyCode::Enter)), EditorIntent::FollowLink);
    assert_eq!(editor_intent(EditorMode::Normal, &plain(KeyCode::Char('t'))), EditorIntent::ToggleTodo);
    assert_eq!(editor_intent(EditorMode::Insert, &plain(KeyCode::Char('t'))), EditorIntent::PassToEditor);
    assert_eq!(editor_intent(EditorMode::Normal, &ctrl('o')), EditorIntent::GoBack);
    assert_eq!(editor_intent(EditorMode::Normal, &ctrl('d')), EditorIntent::ConfirmDelete);
    assert_eq!(editor_intent(EditorMode::Normal, &plain(KeyCode::F(7))), EditorIntent::Ignore);
}

#[test]
fn side_panel_lists() {
    assert_eq!(wikimap_key(0, 3, &plain(KeyCode::Char('k'))), ListIntent::Nothing);
    assert_eq!(wikimap_key(0, 3, &plain(KeyCode::Down)), ListIntent::Select(1));
    assert_eq!(wikimap_key(2, 3, &plain(KeyCode::Down)), ListIntent::Nothing);
    assert_eq!(wikimap_key(2, 3, &plain(KeyCode::Enter)), ListIntent::Open(2));
    assert_eq!(wikimap_key(1, 3, &plain(KeyCode::Char('x'))), ListIntent::Remove(1));
    assert_eq!(wikimap_key(0, 0, &plain(KeyCode::Enter)), ListIntent::Nothing);
    assert_eq!(wikimap_key(0, 0, &plain(KeyCode::Esc)), ListIntent::Leave);
    assert_eq!(variables_key(1, 2, &plain(KeyCode::Char('y'))), ListIntent::Copy(1));
    assert_eq!(variables_key(1, 2, &plain(KeyCode::Char('i'))), ListIntent::Open(1));
    assert_eq!(variables_key(1, 2, &plain(KeyCode::Up)), ListIntent::Select(0));
    assert_eq!(variables_key(0, 2, &ctrl('h')), ListIntent::Leave);
    assert_eq!(variables_key(0, 0, &plain(KeyCode::Char('y'))), ListIntent::Nothing);
}

#[test]
fn one_line_inputs() {
    let mut q: Vec<char> = Vec::new();
    assert_eq!(line_input(&mut q, &plain(KeyCode::Char('a'))), LineEdit::Edited);
    assert_eq!(line_input(&mut q, &plain(KeyCode::Char('b'))), LineEdit::Edited);
    assert_eq!(line_input(&mut q, &plain(KeyCode::Backspace)), LineEdit::Edited);
    assert_eq!(q, vec!['a']);
    assert_eq!(line_input(&mut q, &plain(KeyCode::Enter)), LineEdit::Submit);
    assert_eq!(line_input(&mut q, &plain(KeyCode::Esc)), LineEdit::Cancel);
    assert_eq!(line_input(&mut q, &plain(KeyCode::Tab)), LineEdit::Ignored);
    assert_eq!(q, vec!['a']);
}

#[test]
fn command_quit_aliases_set_should_quit() {
    for cmd in ["q", "q!", "wq", "  wq  "] {
        assert!(matches!(parse_command(cmd), Command::Quit), "`:{cmd}` should request quit");
    }
}

#[test]
fn command_unknown_reports_error() {
    match parse_command("frobnicate now") {
        Command::Unknown(w) => {
            assert_eq!(w, "frobnicate");
            let msg = unknown_command_message(&w);
            assert!(msg.contains("unknown command"), "got: {msg}");
        }
        other => panic!("unexpected {:?}", other),
    }
}

#[test]
fn command_theme_takes_its_argument() {
    match parse_command(" theme   dracula ") {
        Command::Theme(a) => assert_eq!(a, "dracula"),
        other => panic!("unexpected {:?}", other),
    }
    match parse_command("theme") {
        Command::Theme(a) => assert_eq!(a, ""),
        other => panic!("unexpected {:?}", other),
    }
    assert!(matches!(parse_command("   "), Command::Empty));
}

#[test]
fn left_panel_rows_map_to_links() {
    let m = get_left_panel_row_map(2, 1, true, 2);
    assert_eq!(m.get(&1), Some(&0));
    assert_eq!(m.get(&2), Some(&1));
    assert_eq!(m.get(&3), None);
    assert_eq!(m.get(&5), Some(&2));
    assert_eq!(m.get(&8), Some(&3));
    assert_eq!(m.get(&9), Some(&4));
    assert_eq!(m.len(), 5);
    let empty = get_left_panel_row_map(0, 0, false, 4);
    assert!(empty.is_empty());
}

#[test]
fn test_fixed_offsets() {
    // The zone's offset at the Unix epoch, in seconds.
    let offset_at_epoch = |name: &str| date_in_zone(0, &resolve_timezone(name).unwrap()).unwrap().3;
    for name in ["UTC", "GMT", "Z", "utc", "gmt"] {
        assert_eq!(offset_at_epoch(name), 0);
    }
    assert_eq!(offset_at_epoch("UTC+2"), 2 * 3600);
    assert_eq!(offset_at_epoch("GMT-5"), -5 * 3600);
    assert_eq!(offset_at_epoch("+3"), 3 * 3600);
}

#[test]
fn test_named_and_abbrev_zones() {
    assert!(resolve_timezone("PST").is_ok());
    assert!(resolve_timezone("est").is_ok());
    assert!(resolve_timezone("JST").is_ok());
    assert!(resolve_timezone("America/New_York").is_ok());
    assert!(resolve_timezone("Europe/London").is_ok());
    assert!(resolve_timezone("Nowhere/Nowhere").is_err());
    assert!(resolve_timezone("XYZ").is_err());
    assert_eq!(resolve_timezone(" XYZ ").err(), Some("Unknown timezone ' XYZ '".to_string()));
    assert_eq!(abbrev_to_iana("cest"), Some("Europe/Paris"));
    assert_eq!(abbrev_to_iana("UTC"), None);
    // More than 23 hours is not an offset.
    assert!(resolve_timezone("UTC+24").is_err());
}

#[test]
fn test_zone_spec_values() {
    assert_eq!(resolve_timezone("UTC+2"), Ok(ZoneSpec::Fixed(7200)));
    assert_eq!(resolve_timezone("GMT-5"), Ok(ZoneSpec::Fixed(-18000)));
    assert_eq!(resolve_timezone(" +3 "), Ok(ZoneSpec::Fixed(10800)));
    assert_eq!(resolve_timezone("pst"), Ok(ZoneSpec::Named("America/Los_Angeles".to_string())));
    assert_eq!(resolve_timezone(" Europe/London"), Ok(ZoneSpec::Named("Europe/London".to_string())));
    assert_eq!(zone_spec("Z"), ZoneSpec::Fixed(0));
    assert_eq!(zone_spec("gmt-11"), ZoneSpec::Fixed(-39600));
    assert_eq!(zone_spec("CEST"), ZoneSpec::Named("Europe/Paris".to_string()));
    assert_eq!(zone_spec(" Nowhere/Nowhere "), ZoneSpec::Named("Nowhere/Nowhere".to_string()));
    assert_eq!(date_in_zone(0, &ZoneSpec::Fixed(93600)), None);
    assert_eq!(date_in_zone(0, &ZoneSpec::Fixed(-93599)), Some((1969, 12, 30, -93599)));
    assert_eq!(date_in_zone(0, &ZoneSpec::Named("Nowhere/Nowhere".to_string())), None);
    assert_eq!(
        civil_to_epoch_in_zone(2026, 1, 1, 0, 0, 0, &ZoneSpec::Named("Nowhere/Nowhere".to_string())),
        Err("Unknown timezone 'Nowhere/Nowhere'".to_string())
    );
    let la = ZoneSpec::Named("America/Los_Angeles".to_string());
    assert_eq!(civil_to_epoch_in_zone(2026, 1, 1, 0, 0, 0, &la).unwrap().1, -8 * 3600);
}

#[test]
fn test_civil_epoch_in_zone_is_dst_aware() {
    let tz = resolve_timezone("America/New_York").unwrap();
    let (_, off) = civil_to_epoch_in_zone(2026, 7, 1, 12, 0, 0, &tz).unwrap();
    assert_eq!(off, -4 * 3600);
    let (_, off_winter) = civil_to_epoch_in_zone(2026, 1, 1, 12, 0, 0, &tz).unwrap();
    assert_eq!(off_winter, -5 * 3600);
    let utc = resolve_timezone("UTC").unwrap();
    assert_eq!(civil_to_epoch_in_zone(1970, 1, 2, 0, 0, 0, &utc).unwrap(), (86400, 0));
    let bad = civil_to_epoch_in_zone(2023, 2, 29, 0, 0, 0, &utc).unwrap_err();
    assert!(bad.starts_with("Invalid date/time: "));
}

#[test]
fn powers_of_quantities() {
    let two_m = Quantity::scalar(Rational::from_int(2), Some("m".to_string()));
    let three = Quantity::scalar(Rational::from_int(3), None);
    let p = quantity_pow(&two_m, &three).unwrap();
    assert_eq!(p.value.numerator(), 8);
    assert_eq!(p.value.denominator(), 1);
    assert_eq!(p.unit.as_deref(), Some("m"));
    let half = Quantity::scalar(Rational::new(1, 2).unwrap(), None);
    assert_eq!(quantity_pow(&two_m, &half).unwrap_err(), "Power has no exact rational value");
    assert_eq!(
        quantity_pow(&three, &two_m).unwrap_err(),
        "Exponent power must be a dimensionless scalar"
    );
}

#[test]
fn mouse_panels_and_rows() {
    let left = Rect::new(0, 0, 22, 20);
    let editor = Rect::new(22, 0, 40, 20);
    let right = Rect::new(62, 0, 25, 20);
    assert_eq!(panel_at(5, 3, true, &left, true, &right, &editor), Some(FocusedPanel::WikiMap));
    assert_eq!(panel_at(5, 3, false, &left, true, &right, &editor), None);
    assert_eq!(panel_at(30, 3, true, &left, true, &right, &editor), Some(FocusedPanel::Editor));
    assert_eq!(panel_at(70, 19, true, &left, true, &right, &editor), Some(FocusedPanel::Variables));
    assert_eq!(panel_at(70, 20, true, &left, true, &right, &editor), None);
    assert_eq!(clicked_row(0, &left), None);
    assert_eq!(clicked_row(3, &Rect::new(0, 2, 5, 5)), Some(0));
}

#[test]
fn wiki_map_link_order() {
    let b = vec!["a".to_string()];
    let o = vec!["b".to_string(), "c".to_string()];
    let r = vec!["d".to_string()];
    assert_eq!(get_wiki_map_selectable_links(&b, &o, true, &r), vec!["a", "b", "c", "d"]);
    assert_eq!(get_wiki_map_selectable_links(&b, &o, false, &r), vec!["a", "b", "c"]);
}

#[test]
fn precondition_checks() {
    let mut u = ui();
    u.vim_multiplier = Some(usize::MAX / 10);
    assert!(!count_step_fits(&u, &plain(KeyCode::Char('9'))));
    assert!(count_step_fits(&u, &plain(KeyCode::Char('j'))));
    assert!(timezone_name_fits("UTC+5"));
    assert!(timezone_name_fits("America/New_York"));
    assert!(!timezone_name_fits("+-1000000"));
    assert!(!timezone_name_fits("--2147483648"));
}

#[test]
fn toggle_keys_twice_restore_state() {
    let mut u = ui();
    let start = u;
    for code in [KeyCode::F(1), KeyCode::F(2), KeyCode::F(3), KeyCode::F(4)] {
        handle_global_keys(&mut u, &plain(code));
        handle_global_keys(&mut u, &plain(code));
    }
    assert_eq!(u.show_help, start.show_help);
    assert_eq!(u.left_panel_open, start.left_panel_open);
    assert_eq!(u.right_panel_open, start.right_panel_open);
    assert_eq!(u.word_wrap, start.word_wrap);
}

#[test]
fn ctrl_q_quits_from_anywhere() {
    let ctrl_q = KeyEvent {
        code: KeyCode::Char('q'),
        modifiers: KeyModifiers { shift: false, control: true, alt: false, other: false },
    };
    let mut busy = ui();
    busy.search_active = true;
    busy.command_active = true;
    busy.show_export_menu = true;
    assert_eq!(route_key(&busy, true, &ctrl_q), KeyRoute::Quit);
    assert_eq!(route_key(&ui(), false, &ctrl_q), KeyRoute::Quit);
    let ctrl_shift_q = KeyEvent {
        code: KeyCode::Char('q'),
        modifiers: KeyModifiers { shift: true, control: true, alt: false, other: false },
    };
    assert_eq!(route_key(&ui(), false, &ctrl_shift_q), KeyRoute::Quit);
    // A bare `q` is no quit.
    assert_eq!(route_key(&ui(), false, &plain(KeyCode::Char('q'))), KeyRoute::Global);
}

#[test]
fn key_routing_order() {
    let key = plain(KeyCode::Char('x'));
    let mut u = ui();
    assert_eq!(route_key(&u, false, &key), KeyRoute::Global);
    assert_eq!(route_key(&u, true, &key), KeyRoute::DeletePrompt);
    u.command_active = true;
    assert_eq!(route_key(&u, true, &key), KeyRoute::CommandLine);
    u.search_active = true;
    assert_eq!(route_key(&u, true, &key), KeyRoute::SearchLine);
    u.show_export_menu = true;
    assert_eq!(route_key(&u, true, &key), KeyRoute::ExportMenu);
}

#[test]
fn session_focus_restores() {
    assert_eq!(restored_focus("WikiMap", true, true), FocusedPanel::WikiMap);
    assert_eq!(restored_focus("WikiMap", false, true), FocusedPanel::Editor);
    assert_eq!(restored_focus("Variables", true, true), FocusedPanel::Variables);
    assert_eq!(restored_focus("Variables", true, false), FocusedPanel::Editor);
    assert_eq!(restored_focus("Editor", true, true), FocusedPanel::Editor);
    assert_eq!(restored_focus("wikimap", true, true), FocusedPanel::Editor);
}

#[test]
fn civil_epoch_values_and_transitions() {
    let utc = resolve_timezone("UTC").unwrap();
    assert_eq!(civil_to_epoch_in_zone(2026, 7, 1, 12, 0, 0, &utc).unwrap(), (1782907200, 0));
    assert_eq!(civil_to_epoch_in_zone(1969, 12, 31, 23, 59, 59, &utc).unwrap(), (-1, 0));
    let plus2 = ZoneSpec::Fixed(7200);
    assert_eq!(civil_to_epoch_in_zone(2026, 7, 1, 12, 0, 0, &plus2).unwrap(), (1782907200 - 7200, 7200));
    let ny = ZoneSpec::Named("America/New_York".to_string());
    // 02:30 on the spring-forward day does not exist: it resolves to 03:30 EDT.
    assert_eq!(civil_to_epoch_in_zone(2026, 3, 8, 2, 30, 0, &ny).unwrap(), (1772955000, -14400));
    // 01:30 on the fall-back day happens twice: the earlier (EDT) is taken.
    assert_eq!(civil_to_epoch_in_zone(2026, 11, 1, 1, 30, 0, &ny).unwrap(), (1793511000, -14400));
    assert!(civil_to_epoch_in_zone(2026, 13, 1, 0, 0, 0, &utc).unwrap_err().starts_with("Invalid date/time: "));
    // A fixed zone beyond jiff's offsets, or an instant beyond its range.
    assert!(civil_to_epoch_in_zone(2026, 1, 1, 0, 0, 0, &ZoneSpec::Fixed(93600)).is_err());
    assert!(civil_to_epoch_in_zone(9999, 12, 31, 23, 0, 0, &ZoneSpec::Fixed(-8 * 3600)).is_err());
    // jiff's last instant is 9999-12-30 22:00 UTC (253402207200).
    assert_eq!(civil_to_epoch_in_zone(9999, 12, 30, 0, 0, 0, &ZoneSpec::Fixed(0)), Ok((253402128000, 0)));
    assert!(civil_to_epoch_in_zone(9999, 12, 31, 0, 0, 0, &ZoneSpec::Fixed(0)).is_err());
    assert_eq!(
        civil_to_epoch_in_zone(9999, 12, 31, 23, 0, 0, &ZoneSpec::Fixed(93599)),
        Ok((253402300799 - 3599 - 93599, 93599))
    );
}

#[test]
fn dates_of_instants_in_zones() {
    let utc = resolve_timezone("UTC").unwrap();
    assert_eq!(date_in_zone(0, &utc), Some((1970, 1, 1, 0)));
    assert_eq!(date_in_zone(-1, &utc), Some((1969, 12, 31, 0)));
    let tokyo = ZoneSpec::Named("Asia/Tokyo".to_string());
    assert_eq!(date_in_zone(1782907200, &tokyo), Some((2026, 7, 1, 32400)));
    assert_eq!(date_in_zone(1782918000, &tokyo), Some((2026, 7, 2, 32400)));
    assert!(date_in_zone(253402207200, &utc).is_some());
    assert_eq!(date_in_zone(253402207201, &utc), None);
    assert_eq!(date_in_zone(-377705023202, &utc), None);
}

#[test]
fn editor_reads_keys_by_mode() {
    let n = EditorMode::Normal;
    let i = EditorMode::Insert;
    let v = EditorMode::Visual;
    assert_eq!(editor_command(n, &plain(KeyCode::Char('j'))), EditorCommand::Move(1, 0));
    assert_eq!(editor_command(n, &plain(KeyCode::Left)), EditorCommand::Move(0, -1));
    assert_eq!(editor_command(v, &plain(KeyCode::PageDown)), EditorCommand::Move(10, 0));
    assert_eq!(editor_command(i, &plain(KeyCode::Char('j'))), EditorCommand::InsertChar('j'));
    assert_eq!(editor_command(i, &plain(KeyCode::Up)), EditorCommand::Move(-1, 0));
    assert_eq!(editor_command(i, &plain(KeyCode::Enter)), EditorCommand::InsertNewline);
    assert_eq!(editor_command(i, &plain(KeyCode::Esc)), EditorCommand::ToNormal);
    assert_eq!(editor_command(i, &plain(KeyCode::Tab)), EditorCommand::Nothing);
    assert_eq!(editor_command(n, &plain(KeyCode::Char('i'))), EditorCommand::ToInsert);
    assert_eq!(editor_command(n, &plain(KeyCode::Char('v'))), EditorCommand::ToVisual);
    assert_eq!(editor_command(n, &plain(KeyCode::Char('u'))), EditorCommand::Undo);
    assert_eq!(editor_command(n, &ctrl('r')), EditorCommand::Redo);
    assert_eq!(editor_command(n, &plain(KeyCode::Char('r'))), EditorCommand::Nothing);
    assert_eq!(editor_command(v, &plain(KeyCode::Char('~'))), EditorCommand::ToggleCase);
    assert_eq!(editor_command(v, &plain(KeyCode::Char('>'))), EditorCommand::Indent);
    assert_eq!(editor_command(v, &plain(KeyCode::Char('<'))), EditorCommand::Dedent);
    assert_eq!(editor_command(n, &plain(KeyCode::Char('f'))), EditorCommand::ToggleFold);
    assert_eq!(editor_command(n, &plain(KeyCode::Char('x'))), EditorCommand::DeleteChars);
    assert_eq!(editor_command(v, &plain(KeyCode::Char('x'))), EditorCommand::Nothing);
    assert_eq!(editor_command(v, &plain(KeyCode::Esc)), EditorCommand::ToNormal);
}
