use calki::notebook::{compile_order, compile_wiki_text, note_matches, search_key};
use calki::edtui::line_wrapper::LineWrapper;
use calki::markdown::{html_escape, parse_inline_elements};
use calki::math::datetime::{parse_fixed_offset, ZoneSpec};
use calki::text::{find_in_chars, trim_start_slice};
use calki::editing::offset_room;
use calki::links::{classify_link_target, LinkTarget};
use calki::currency::{get_config_path, get_rates_file_path, rates_need_update};
use calki::editing::{
    editor_text, estimate_line_height, find_word_occurrences, index2_to_char_offset,
    insert_text_at_cursor, replace_char_at_cursor, toggle_todo_at_cursor, toggle_todo_line,
    wrap_selection_in_link,
};
use calki::edtui::{lines_from_text, EditorMode, EditorState, Index2, Selection};
use calki::links::{get_any_link_under_cursor, LinkType};
use calki::style::Color;
use calki::terminal::{
    cursor_color_for, cursor_color_sequence, cursor_shape_for, cursor_shape_sequence,
    encode_base64,
};
use calki::version::{is_newer_version, newer_release_in_reply, offered_release_of, parse_u32, version_parts};

fn text_of(state: &EditorState) -> String {
    editor_text(&state.lines).iter().collect()
}

fn chars(s: &str) -> Vec<char> {
    s.chars().collect()
}

#[test]
fn test_is_newer_version() {
    assert!(is_newer_version("0.3.0", "0.3.1"));
    assert!(is_newer_version("0.3.0", "0.4.0"));
    assert!(is_newer_version("0.3.0", "1.0.0"));
    assert!(!is_newer_version("0.3.0", "0.3.0"));
    assert!(!is_newer_version("0.3.0", "0.2.9"));
    assert!(!is_newer_version("0.3.0", "0.2.0"));
}

#[test]
fn version_numbers_need_three_parts() {
    assert!(!is_newer_version("0.3", "0.4"));
    assert!(!is_newer_version("0.3.0", "0.4.0.1"));
    // Pieces that do not parse are dropped before counting.
    assert!(is_newer_version("0.3.0", "x.0.4.0"));
    assert_eq!(version_parts("1.+2.x.03"), vec![1, 2, 3]);
    assert_eq!(parse_u32(&chars("4294967295")), Some(4294967295));
    assert_eq!(parse_u32(&chars("4294967296")), None);
    assert_eq!(parse_u32(&chars("+")), None);
    assert_eq!(parse_u32(&chars("")), None);
    assert_eq!(parse_u32(&chars("-1")), None);
}

#[test]
fn test_estimate_line_height() {
    let chars_empty: Vec<char> = vec![];
    assert_eq!(estimate_line_height(&chars_empty, 10, 4), 1);

    let chars_short: Vec<char> = "hello".chars().collect();
    assert_eq!(estimate_line_height(&chars_short, 10, 4), 1);

    let chars_exact: Vec<char> = "hello world".chars().collect();
    assert_eq!(estimate_line_height(&chars_exact, 5, 4), 3);

    let chars_long: Vec<char> = "hello world from rust".chars().collect();
    assert_eq!(estimate_line_height(&chars_long, 7, 4), 4);
}

#[test]
fn line_height_of_zero_width_and_tabs() {
    assert_eq!(estimate_line_height(&chars("anything at all"), 0, 4), 1);
    // Two tabs of width four do not fit in six columns.
    assert_eq!(estimate_line_height(&chars("\t\t"), 6, 4), 2);
}

#[test]
fn test_find_word_occurrences() {
    let lines = vec![
        "price = 100".chars().collect::<Vec<char>>(),
        "tax = price * 0.10".chars().collect::<Vec<char>>(),
        "price_rate = 1.05".chars().collect::<Vec<char>>(),
        "total = price + tax".chars().collect::<Vec<char>>(),
    ];

    let highlights = find_word_occurrences(&lines, "price");
    assert_eq!(highlights.len(), 3);

    assert_eq!(highlights[0].start.row, 0);
    assert_eq!(highlights[0].start.col, 0);
    assert_eq!(highlights[0].end.row, 0);
    assert_eq!(highlights[0].end.col, 4);

    assert_eq!(highlights[1].start.row, 1);
    assert_eq!(highlights[1].start.col, 6);
    assert_eq!(highlights[1].end.row, 1);
    assert_eq!(highlights[1].end.col, 10);

    assert_eq!(highlights[2].start.row, 3);
    assert_eq!(highlights[2].start.col, 8);
    assert_eq!(highlights[2].end.row, 3);
    assert_eq!(highlights[2].end.col, 12);

    let st = highlights[0].style;
    assert_eq!(st.bg, Some(Color::rgb(167, 82, 142)));
    assert_eq!(st.fg, Some(Color::rgb(224, 230, 242)));
    assert!(st.bold);
}

#[test]
fn word_search_respects_slashes_and_empty_words() {
    let lines = vec![chars("a/price price/b price")];
    let hits = find_word_occurrences(&lines, "price");
    assert_eq!(hits.len(), 1);
    assert_eq!(hits[0].start.col, 16);
    assert!(find_word_occurrences(&lines, "").is_empty());
}

#[test]
fn test_todo_toggling() {
    let mut state = EditorState::new(lines_from_text("- [ ] todo item\n* list item\n- [x] done item"));
    state.mode = EditorMode::Normal;

    state.cursor = Index2::new(0, 0);
    assert!(toggle_todo_at_cursor(&mut state));
    assert_eq!(text_of(&state), "- [x] todo item\n* list item\n- [x] done item");

    state.cursor = Index2::new(1, 0);
    assert!(toggle_todo_at_cursor(&mut state));
    assert_eq!(text_of(&state), "- [x] todo item\n* [ ] list item\n- [x] done item");

    state.cursor = Index2::new(2, 0);
    assert!(toggle_todo_at_cursor(&mut state));
    assert_eq!(text_of(&state), "- [x] todo item\n* [ ] list item\n- [ ] done item");
}

#[test]
fn todo_toggle_edge_cases() {
    let mut plain = chars("just text");
    assert!(!toggle_todo_line(&mut plain));
    assert_eq!(plain, chars("just text"));

    let mut indented = chars("   + item");
    assert!(toggle_todo_line(&mut indented));
    assert_eq!(indented, chars("   + [ ] item"));

    let mut capital = chars("- [X] done");
    assert!(toggle_todo_line(&mut capital));
    assert_eq!(capital, chars("- [ ] done"));

    let mut other_mark = chars("[?] then [ ]");
    assert!(toggle_todo_line(&mut other_mark));
    assert_eq!(other_mark, chars("[?] then [x]"));

    // Leading white space outside ASCII counts in characters: the box goes
    // right after the bullet.
    let mut wide = chars("\u{3000}- ");
    assert!(toggle_todo_line(&mut wide));
    assert_eq!(wide, chars("\u{3000}- [ ] "));

    let mut twice = chars("* [ ] a");
    toggle_todo_line(&mut twice);
    toggle_todo_line(&mut twice);
    assert_eq!(twice, chars("* [ ] a"));

    let mut state = EditorState::new(lines_from_text("one"));
    state.cursor = Index2::new(5, 0);
    assert!(!toggle_todo_at_cursor(&mut state));
}

#[test]
fn test_wrap_selection_in_link() {
    let mut state = EditorState::new(lines_from_text("Welcome 🧮 price = 100"));
    state.cursor = Index2::new(0, 10);
    state.mode = EditorMode::Visual;
    state.selection = Some(Selection::new(Index2::new(0, 10), Index2::new(0, 14)));
    assert!(wrap_selection_in_link(&mut state));
    assert_eq!(text_of(&state), "Welcome 🧮 [[price]] = 100");
    assert_eq!(state.mode, EditorMode::Normal);
    assert!(state.selection.is_none());
    assert_eq!(state.cursor, Index2::new(0, 12));
}

#[test]
fn wrap_link_over_rows_and_backwards() {
    let mut state = EditorState::new(lines_from_text("ab\ncd"));
    state.mode = EditorMode::Visual;
    state.selection = Some(Selection::new(Index2::new(1, 0), Index2::new(0, 1)));
    assert!(wrap_selection_in_link(&mut state));
    assert_eq!(text_of(&state), "a[[b\nc]]d");
    assert_eq!(state.lines.len(), 2);
    assert_eq!(state.cursor, Index2::new(0, 3));

    let mut none = EditorState::new(lines_from_text("ab"));
    assert!(!wrap_selection_in_link(&mut none));
    assert_eq!(text_of(&none), "ab");
}

#[test]
fn offsets_and_insertion() {
    let lines = lines_from_text("ab\ncde\nf");
    assert_eq!(index2_to_char_offset(&lines, Index2::new(0, 1)), 1);
    assert_eq!(index2_to_char_offset(&lines, Index2::new(1, 2)), 5);
    assert_eq!(index2_to_char_offset(&lines, Index2::new(9, 0)), 9);

    let mut state = EditorState::new(lines_from_text("ab\ncde"));
    state.cursor = Index2::new(1, 1);
    assert!(insert_text_at_cursor(&mut state, "XY\nZ"));
    assert_eq!(text_of(&state), "ab\ncXY\nZde");
    assert_eq!(state.cursor, Index2::new(1, 5));
    assert_eq!(state.lines.len(), 3);
}

#[test]
fn test_vim_r_replacement() {
    let mut state = EditorState::new(lines_from_text("hello world"));
    state.mode = EditorMode::Normal;
    state.cursor = Index2::new(0, 6);
    assert!(replace_char_at_cursor(&mut state, 'x'));
    assert_eq!(text_of(&state), "hello xorld");
    state.cursor = Index2::new(0, 11);
    assert!(!replace_char_at_cursor(&mut state, 'y'));
    assert_eq!(text_of(&state), "hello xorld");
}

#[test]
fn test_follow_link_types() {
    let line = "Go to [Google](https://google.com) or visit https://rust-lang.org now.";

    assert!(
        matches!(get_any_link_under_cursor(line, 10), Some(LinkType::Markdown(url)) if url == "https://google.com")
    );
    assert!(
        matches!(get_any_link_under_cursor(line, 25), Some(LinkType::Markdown(url)) if url == "https://google.com")
    );
    assert!(
        matches!(get_any_link_under_cursor(line, 45), Some(LinkType::RawUrl(url)) if url == "https://rust-lang.org")
    );
    assert_eq!(get_any_link_under_cursor(line, 0), None);
    assert!(
        matches!(get_any_link_under_cursor(line, 3), Some(LinkType::Markdown(url)) if url == "https://google.com")
    );
    assert_eq!(get_any_link_under_cursor(line, 2), None);

    let wiki_line = "See [[My Page]] for info.";
    assert!(
        matches!(get_any_link_under_cursor(wiki_line, 8), Some(LinkType::Wiki(name)) if name == "My Page")
    );
    assert!(
        matches!(get_any_link_under_cursor(wiki_line, 1), Some(LinkType::Wiki(name)) if name == "My Page")
    );
    assert_eq!(get_any_link_under_cursor(wiki_line, 0), None);
}

#[test]
fn base64_matches_the_standard_alphabet() {
    assert_eq!(encode_base64(b""), "");
    assert_eq!(encode_base64(b"M"), "TQ==");
    assert_eq!(encode_base64(b"Ma"), "TWE=");
    assert_eq!(encode_base64(b"Man"), "TWFu");
    assert_eq!(encode_base64(b"hello"), "aGVsbG8=");
    assert_eq!(encode_base64(&[0xfb, 0xff, 0xbf]), "+/+/");
}

#[test]
fn cursor_sequences_for_plain_tmux_and_screen() {
    assert_eq!(cursor_shape_sequence(5, false, false), "\x1b[5 q");
    assert_eq!(cursor_shape_sequence(1, true, true), "\x1bPtmux;\x1b\x1b[1 q\x1b\\");
    assert_eq!(cursor_shape_sequence(2, false, true), "\x1bP\x1b\x1b[2 q\x1b\\");
    assert_eq!(cursor_color_sequence("", false, false), "\x1b]112\x07");
    assert_eq!(cursor_color_sequence("#7aa2f7", false, false), "\x1b]12;#7aa2f7\x07");
    assert_eq!(
        cursor_color_sequence("#7aa2f7", true, false),
        "\x1bPtmux;\x1b\x1b\x1b]12;#7aa2f7\x07\x1b\\"
    );
    assert_eq!(cursor_color_sequence("red", false, true), "\x1bP\x1b\x1b]12;red\x07\x1b\\");
    assert_eq!(cursor_shape_for(EditorMode::Insert), 5);
    assert_eq!(cursor_shape_for(EditorMode::Visual), 2);
    assert_eq!(cursor_color_for(EditorMode::Search), "#ff9e64");
}

#[test]
fn rates_file_lives_under_the_config_directory() {
    assert_eq!(get_rates_file_path(Some("/home/u")), Some("/home/u/.config/calki/rates.json".to_string()));
    assert_eq!(get_rates_file_path(Some("/home/u/")), Some("/home/u/.config/calki/rates.json".to_string()));
    assert_eq!(get_rates_file_path(None), None);
    assert_eq!(get_config_path(Some("")), Some(".config/calki".to_string()));
    assert!(rates_need_update(None));
    assert!(rates_need_update(Some(86401)));
    assert!(!rates_need_update(Some(86400)));
}

#[test]
fn link_targets_split_web_and_local() {
    assert_eq!(classify_link_target("https://a.b"), LinkTarget::Web("https://a.b".to_string()));
    assert_eq!(classify_link_target("http://x"), LinkTarget::Web("http://x".to_string()));
    assert_eq!(classify_link_target("file://file:///tmp/n.md"), LinkTarget::Local("/tmp/n.md".to_string()));
    assert_eq!(classify_link_target("notes/a.md"), LinkTarget::Local("notes/a.md".to_string()));
}

#[test]
fn room_checks_before_edits() {
    let lines = lines_from_text("ab\nc");
    assert!(offset_room(&lines, 10));
    assert!(!offset_room(&lines, usize::MAX - 4));
    assert!(offset_room(&lines, usize::MAX - 5));
}

#[test]
fn small_text_helpers() {
    assert_eq!(html_escape("<a & \"b\">"), "&lt;a &amp; &quot;b&quot;&gt;");
    assert_eq!(
        parse_inline_elements("x < `1 + 1 => 2` and [[My Page]]"),
        "x &lt; <code class=\"math-eval\"><span class=\"expr\">1 + 1</span> =&gt; <span class=\"val\">2</span></code> and <a href=\"my-page.html\" class=\"wiki-link\">My Page</a>"
    );
    assert_eq!(parse_inline_elements("`open"), "`open");
    assert_eq!(find_in_chars(&chars("hello world"), "o w"), Some(4));
    assert_eq!(find_in_chars(&chars("hello"), "z"), None);
    assert_eq!(trim_start_slice(&chars("  \tx y ")), &chars("x y ")[..]);
    assert_eq!(LineWrapper::determine_split(10, 4), vec![4, 4, 2]);
    assert_eq!(LineWrapper::determine_split(0, 0), vec![0]);
    assert_eq!(parse_fixed_offset("gmt+11"), Some(ZoneSpec::Fixed(39600)));
    assert_eq!(parse_fixed_offset("-8"), Some(ZoneSpec::Fixed(-28800)));
    assert!(parse_fixed_offset("UTC+05:30").is_none());
    assert!(parse_fixed_offset("EST").is_none());
}

#[test]
fn compiled_wiki_order_and_text() {
    let names: Vec<String> = ["b.md", "home.md", "a.md", "Z.md"].iter().map(|s| s.to_string()).collect();
    assert_eq!(compile_order(&names), vec![1, 3, 2, 0]);
    let contents = vec!["x".to_string(), "y".to_string()];
    assert_eq!(
        compile_wiki_text(&contents),
        "# calki Compiled Wiki 🧮 📝\n\ncompiled from all notes in the wiki.\n\n---\n\nx\n\n---\n\ny\n\n---\n\n"
    );
    assert_eq!(search_key("  Hello World "), chars("hello world"));
    assert!(note_matches("Some TEXT here", &chars("text")));
    assert!(!note_matches("", &chars("text")));
    assert!(!note_matches("other", &chars("text")));
}

#[test]
fn unicode_white_space_is_trimmed() {
    assert_eq!(trim_start_slice(&chars("\u{3000}\u{85}\u{a0}\u{2009}x ")), &chars("x ")[..]);
    assert_eq!(trim_start_slice(&chars("\u{200b}x")), &chars("\u{200b}x")[..]);
    assert_eq!(trim_start_slice(&chars("*-!")), &chars("*-!")[..]);
    assert_eq!(trim_start_slice(&chars("\u{b}\u{c}y")), &chars("y")[..]);
}

#[test]
fn update_check_reads_the_reply() {
    let newer = r#"{"crate":{"id":"calki","max_version":" 0.2.0 "},"versions":[]}"#;
    assert_eq!(newer_release_in_reply("0.1.0", newer), Some("0.2.0".to_string()));
    assert_eq!(newer_release_in_reply("0.2.0", newer), None);
    assert_eq!(newer_release_in_reply("0.1.0", "not json"), None);
    assert_eq!(newer_release_in_reply("0.1.0", r#"{"crate":{}}"#), None);
    assert_eq!(newer_release_in_reply("0.1.0", r#"{"crate":{"max_version":3}}"#), None);
    assert_eq!(offered_release_of("1.2.3", Some("\t1.10.0\n")), Some("1.10.0".to_string()));
    assert_eq!(offered_release_of("1.2.3", Some("1.2")), None);
    assert_eq!(offered_release_of("1.2.3", None), None);
}

#[test]
fn line_height_stays_within_bounds() {
    // A character wider than the width takes a row of its own after the
    // empty one it closes.
    assert_eq!(estimate_line_height(&chars("中"), 1, 4), 2);
    for text in ["a b c d e f", "abcdefghij", "  \t x", "one two three four"] {
        let line = chars(text);
        for width in 1..8 {
            let h = estimate_line_height(&line, width, 4);
            assert!(1 <= h && h <= line.len() + 1);
        }
    }
}
