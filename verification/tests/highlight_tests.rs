use calki::highlight::compute_syntax_highlights;
use calki::highlight::paint::Highlight;
use calki::highlight::tokens::{is_registered_unit, tokenize_line_for_highlighting, HighlightToken, UnitNames};
use calki::style::{Color, Style};

fn units() -> UnitNames {
    let names = ["miles", "kWh", "hr", "m", "s", "cm", "km", "month", "year", "day"];
    UnitNames { builtin: names.iter().map(|s| s.to_string()).collect(), custom: vec!["c".to_string()] }
}

fn lines_of(texts: &[&str]) -> Vec<Vec<char>> {
    texts.iter().map(|t| t.chars().collect::<Vec<char>>()).collect()
}

fn rgb(r: u8, g: u8, b: u8) -> Color {
    Color::rgb(r, g, b)
}

#[test]
fn test_compute_syntax_highlights_units() {
    let lines = lines_of(&[
        "commute = 88 miles",
        "level2 = 6 kWh / hr",
        "price = $0.20 / kWh",
        "subaru_eff = 274 miles / 74.7 kWh => 3.668 miles/kWh",
        "subaru_power = commute / subaru_eff => 23.9912 kWh",
        "subaru_power / level2 => 3.9985 hr",
        "apples = 10 count",
        "// comment with 88 miles",
        "# Header with 88 miles",
        "[[miles]] = 10",
        "Let's go for 10 miles.",
        "We run at `10m/s => 10 m/s`.",
        "monthly_cost = annual_cost / 12 month/year => $244.3901/month",
        "599584916 m/s in c => 2 c",
    ]);
    let highlights = compute_syntax_highlights(&lines, None, &units());

    let pink = rgb(244, 143, 177);
    let unit_highlights: Vec<&Highlight> =
        highlights.iter().filter(|h| h.style.fg == Some(pink)).collect();
    let cyan = rgb(125, 207, 255);
    let orange = rgb(255, 158, 100);
    let teal = rgb(115, 218, 202);

    assert!(highlights.iter().any(|h| h.start.row == 0
        && h.start.col == 0
        && h.end.col == 7
        && h.style.fg == Some(cyan)));
    assert!(highlights.iter().any(|h| h.start.row == 0
        && h.start.col == 8
        && h.end.col == 8
        && h.style.fg == Some(orange)));
    assert!(highlights.iter().any(|h| h.start.row == 0
        && h.start.col == 9
        && h.end.col == 12
        && h.style.fg == Some(teal)));
    assert!(highlights.iter().any(|h| h.start.row == 0
        && h.start.col == 13
        && h.end.col == 17
        && h.style.fg == Some(pink)));

    assert!(unit_highlights.iter().any(|h| h.start.row == 1 && h.start.col == 11 && h.end.col == 13));
    assert!(unit_highlights.iter().any(|h| h.start.row == 1 && h.start.col == 17 && h.end.col == 18));
    assert!(unit_highlights.iter().any(|h| h.start.row == 2 && h.start.col == 8 && h.end.col == 8));
    assert!(unit_highlights.iter().any(|h| h.start.row == 2 && h.start.col == 16 && h.end.col == 18));
    assert!(unit_highlights.iter().any(|h| h.start.row == 3 && h.start.col == 17 && h.end.col == 21));
    assert!(unit_highlights.iter().any(|h| h.start.row == 3 && h.start.col == 30 && h.end.col == 32));
    assert!(unit_highlights.iter().any(|h| h.start.row == 3 && h.start.col == 43 && h.end.col == 51));
    assert!(unit_highlights.iter().any(|h| h.start.row == 4 && h.start.col == 47 && h.end.col == 49));
    assert!(unit_highlights.iter().any(|h| h.start.row == 5 && h.start.col == 32 && h.end.col == 33));
    assert!(unit_highlights.iter().any(|h| h.start.row == 6 && h.start.col == 12 && h.end.col == 16));
    assert!(!unit_highlights.iter().any(|h| h.start.row == 7));
    assert!(!unit_highlights.iter().any(|h| h.start.row == 8));
    assert!(!unit_highlights.iter().any(|h| h.start.row == 9 && h.start.col == 2 && h.end.col == 6));
    assert!(!unit_highlights.iter().any(|h| h.start.row == 10));
    assert!(unit_highlights.iter().any(|h| h.start.row == 11 && h.start.col == 13 && h.end.col == 15));
    assert!(unit_highlights.iter().any(|h| h.start.row == 11 && h.start.col == 23 && h.end.col == 25));

    let find = |row: usize, col: usize| -> &Highlight {
        highlights.iter().find(|h| h.start.row == row && h.start.col == col).unwrap()
    };
    let row12_lhs = find(12, 0);
    assert_eq!(row12_lhs.style.fg, Some(cyan));
    assert!(!row12_lhs.style.italic);
    let row12_rhs = find(12, 14);
    assert_eq!(row12_rhs.style.fg, Some(teal));
    assert!(!row12_rhs.style.italic);
    let row12_res_dollar = find(12, 46);
    assert_eq!(row12_res_dollar.style.fg, Some(pink));
    assert!(row12_res_dollar.style.italic);
    let row12_res_num = find(12, 47);
    assert_eq!(row12_res_num.style.fg, Some(teal));
    assert!(row12_res_num.style.italic);
    let row12_res_month = find(12, 56);
    assert_eq!(row12_res_month.style.fg, Some(pink));
    assert!(row12_res_month.style.italic);
    let row12_div = find(12, 27);
    assert_eq!(row12_div.style.fg, Some(orange));
    assert!(!row12_div.style.italic);
    let row13_in = find(13, 14);
    assert_eq!(row13_in.style.fg, Some(orange));
    assert!(row13_in.style.bold);
    assert!(!row13_in.style.italic);
}

#[test]
fn test_compute_syntax_highlights_markdown() {
    let lines = lines_of(&[
        "# h1",
        "## h2",
        "### h3",
        "#### h4",
        "##### h5",
        "###### h6",
        "> this is a blockquote",
        "---",
        "* first bullet",
        "10. first number",
        "This is **bold** text",
        "This is *italic* text",
        "This is ~~strikethrough~~ text",
    ]);
    let highlights = compute_syntax_highlights(&lines, None, &units());
    let style_at = |row: usize, start: usize, end: usize| -> Style {
        highlights
            .iter()
            .find(|h| h.start.row == row && h.start.col == start && h.end.col == end)
            .unwrap()
            .style
    };
    assert_eq!(style_at(0, 0, 3), Style::fg(187, 154, 247).bold());
    assert_eq!(style_at(1, 0, 4), Style::fg(125, 207, 255).bold());
    assert_eq!(style_at(2, 0, 5), Style::fg(122, 162, 247).bold());
    assert_eq!(style_at(3, 0, 6), Style::fg(115, 218, 202).bold());
    assert_eq!(style_at(4, 0, 7), Style::fg(158, 206, 106).bold());
    assert_eq!(style_at(5, 0, 8), Style::fg(255, 158, 100).bold());
    assert!(highlights.iter().any(|h| h.start.row == 6
        && h.start.col == 0
        && h.end.col == 21
        && h.style.fg == Some(rgb(158, 206, 106))));
    assert!(highlights.iter().any(|h| h.start.row == 7
        && h.start.col == 0
        && h.end.col == 2
        && h.style.fg == Some(rgb(86, 95, 137))));
    assert!(highlights.iter().any(|h| h.start.row == 8
        && h.start.col == 0
        && h.end.col == 0
        && h.style.fg == Some(rgb(255, 158, 100))));
    assert!(highlights.iter().any(|h| h.start.row == 9
        && h.start.col == 0
        && h.end.col == 2
        && h.style.fg == Some(rgb(255, 158, 100))));
    assert_eq!(style_at(10, 8, 15), Style::fg(169, 177, 214).bold());
    assert_eq!(style_at(11, 8, 15), Style::fg(169, 177, 214).italic());
    assert_eq!(style_at(12, 8, 24), Style::fg(169, 177, 214).crossed_out());
}

#[test]
fn test_compute_syntax_highlights_new_formatting() {
    let lines = lines_of(&[
        "my_func(123) => 123",
        "`45.6`",
        "[(https://google.com)]",
        "[Google](https://google.com)",
        "[[Google](https://google.com)]",
        "https://google.com",
        "for x in range(1, 11) {",
        "    sum = sum + x;",
        "    sum;",
        "} => 55",
    ]);
    let highlights = compute_syntax_highlights(&lines, None, &units());
    let purple = rgb(187, 154, 247);
    let blue = rgb(122, 162, 247);
    let teal = rgb(115, 218, 202);
    let orange = rgb(255, 158, 100);
    let at = |row: usize, start: usize, end: usize| -> &Highlight {
        highlights
            .iter()
            .find(|h| h.start.row == row && h.start.col == start && h.end.col == end)
            .unwrap()
    };
    assert_eq!(at(0, 0, 6).style, Style::fg(122, 162, 247).bold());
    assert_eq!(at(0, 8, 10).style.fg, Some(teal));
    assert_eq!(at(0, 7, 7).style.fg, Some(orange));
    assert_eq!(at(0, 11, 11).style.fg, Some(orange));
    assert_eq!(at(1, 1, 4).style.fg, Some(teal));
    assert_eq!(at(2, 0, 21).style, Style::fg(187, 154, 247).underlined());
    assert_eq!(at(3, 0, 27).style, Style::fg(187, 154, 247).underlined());
    assert_eq!(at(4, 0, 28).style, Style::fg(187, 154, 247).underlined());
    assert_eq!(at(5, 0, 17).style, Style::fg(187, 154, 247).underlined());
    assert_eq!(at(6, 0, 2).style, Style::fg(255, 158, 100).bold());
    assert_eq!(at(6, 6, 7).style, Style::fg(255, 158, 100).bold());
    assert_eq!(at(6, 9, 13).style, Style::fg(122, 162, 247).bold());
    assert_eq!(at(7, 8, 8).style.fg, Some(orange));
    assert_eq!(at(8, 7, 7).style.fg, Some(orange));
    assert_eq!(at(9, 0, 0).style.fg, Some(orange));
    assert_eq!(at(9, 2, 3).style, Style::fg(255, 158, 100).bold());
    assert_eq!(at(2, 0, 21).style.fg, Some(purple));
    assert_eq!(at(6, 9, 13).style.fg, Some(blue));
}

#[test]
fn test_compute_syntax_highlights_selected_var() {
    let lines = lines_of(&["price = 100", "total = price * 2"]);
    let highlights = compute_syntax_highlights(&lines, Some("price"), &units());
    let selected = Style::fg(224, 230, 242).bg(167, 82, 142).bold();
    let hl_r0 = highlights
        .iter()
        .find(|h| h.start.row == 0 && h.start.col == 0 && h.end.col == 4)
        .unwrap();
    assert_eq!(hl_r0.style, selected);
    let hl_r1 = highlights
        .iter()
        .find(|h| h.start.row == 1 && h.start.col == 8 && h.end.col == 12)
        .unwrap();
    assert_eq!(hl_r1.style, selected);
}

#[test]
fn test_compute_syntax_highlights_defined_vars_with_unit_names() {
    let lines = lines_of(&["m = 10", "y = m * 2", "z = 5 m"]);
    let highlights = compute_syntax_highlights(&lines, None, &units());
    let pink = rgb(244, 143, 177);
    assert!(!highlights
        .iter()
        .any(|h| h.start.row == 0 && h.start.col == 0 && h.style.fg == Some(pink)));
    assert!(!highlights.iter().any(|h| h.start.row == 1
        && h.start.col <= 4
        && h.end.col >= 4
        && h.style.fg == Some(pink)));
    assert!(highlights.iter().any(|h| h.start.row == 2
        && h.start.col <= 6
        && h.end.col >= 6
        && h.style.fg == Some(pink)));
}

#[test]
fn test_compute_syntax_highlights_percentage() {
    let lines = lines_of(&["val = 10%", "mod_val = 10 % 3"]);
    let highlights = compute_syntax_highlights(&lines, None, &units());
    let pink = rgb(244, 143, 177);
    assert!(highlights.iter().any(|h| h.start.row == 0
        && h.start.col <= 8
        && h.end.col >= 8
        && h.style.fg == Some(pink)));
    assert!(!highlights.iter().any(|h| h.start.row == 1
        && h.start.col <= 13
        && h.end.col >= 13
        && h.style.fg == Some(pink)));
}

#[test]
fn test_compute_syntax_highlights_no_markdown_in_equations() {
    let lines = lines_of(&[
        "gas_cost = gas_usage * rate",
        "We bought items for `price_val * quantity_val =>` total",
        "testing inline `price * quantity => 500` before tax",
    ]);
    let highlights = compute_syntax_highlights(&lines, None, &units());
    let has_italic_text = highlights.iter().any(|h| h.start.row == 0 && h.style.italic);
    assert!(!has_italic_text, "Markdown italics should be ignored on math lines");
    let has_italic_backticks_text = highlights.iter().any(|h| {
        h.start.row == 1 && h.style.italic && h.style.fg == Some(rgb(169, 177, 214))
    });
    assert!(!has_italic_backticks_text, "Markdown italics should be ignored inside backtick blocks");
    let has_spill_highlight = highlights.iter().any(|h| {
        h.start.row == 2 && (h.start.col < 15 || h.start.col > 37) && h.style.fg == Some(rgb(125, 207, 255))
    });
    assert!(!has_spill_highlight, "Math highlighting should not spill outside backticks");
}

#[test]
fn tokenizer_splits_numbers_names_and_symbols() {
    let line: Vec<char> = "x = 3.5 km/h => 2 in m".chars().collect();
    let toks = tokenize_line_for_highlighting(&line);
    assert!(matches!(toks[0], HighlightToken::Identifier { start: 0, end: 0, .. }));
    assert!(matches!(toks[1], HighlightToken::Symbol { start: 2, end: 2, ch: '=' }));
    assert!(matches!(toks[2], HighlightToken::Number { start: 4, end: 6 }));
    assert!(matches!(toks[3], HighlightToken::Identifier { start: 8, end: 11, .. }));
    assert!(matches!(toks[4], HighlightToken::Arrow { start: 13, end: 14 }));
    assert!(matches!(toks[5], HighlightToken::Number { start: 16, end: 16 }));
    assert!(matches!(toks[6], HighlightToken::In { start: 18, end: 19 }));
    assert_eq!(toks.len(), 8);
}

#[test]
fn registered_units_include_compounds_and_powers() {
    let u = units();
    assert!(is_registered_unit("miles", &u));
    assert!(is_registered_unit("$", &u));
    assert!(is_registered_unit("c", &u));
    assert!(is_registered_unit("miles/kWh", &u));
    assert!(is_registered_unit("m/s2", &u));
    assert!(is_registered_unit("$/kWh", &u));
    assert!(!is_registered_unit("widgets", &u));
    assert!(!is_registered_unit("m/widget", &u));
    assert!(!is_registered_unit("c/s", &u));
}

#[test]
fn highlight_ranges_stay_in_lines_and_in_order() {
    let lines = lines_of(&[
        "# Title",
        "x = 3 km => 3 km",
        "see [[Other]] and `a => b` **bold** *it*",
        "",
        "> quote",
        "- item https://example.com",
        "f(a, b) = a + b",
    ]);
    let hs = compute_syntax_highlights(&lines, Some("x"), &units());
    assert!(!hs.is_empty());
    for h in &hs {
        assert_eq!(h.start.row, h.end.row);
        assert!(h.start.row < lines.len());
        assert!(h.start.col <= h.end.col);
        assert!(h.end.col < lines[h.start.row].len());
    }
    for w in hs.windows(2) {
        let (a, b) = (&w[0], &w[1]);
        assert!(a.end.row < b.start.row || (a.end.row == b.start.row && a.end.col < b.start.col));
        if a.end.row == b.start.row && a.end.col + 1 == b.start.col {
            assert_ne!(a.style, b.style);
        }
    }
}
