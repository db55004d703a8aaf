//! Markdown and math syntax highlighting of the editor buffer.

pub mod lines;
pub mod paint;
pub mod tokens;

use crate::highlight::lines::{
    all_word_chars, args_valid_from, arrow_from, backtick_ranges, brace_scan, comma_end, eq_from,
    find_arrow, find_eq, first_char, is_fn_def_shape, lemma_comma_end, links_spec, math_paint,
    names_of, opt_int, paint_links, paint_math, paint_quotes, paint_tokens, quotes_from,
    quotes_paint, scan_braces, teal_italic, tokens_paint, valid_name, TokenContext,
};
use crate::highlight::paint::{
    bold_spec, comment_col, fill_from, first_char_col, header_style, is_rule, italic_spec,
    list_marker, marker_style, muted_style, paint_blockquote, paint_bold, paint_comment,
    paint_header, paint_hr, paint_italic, paint_list, paint_selected_var, paint_strike,
    quote_style, runs_from, lemma_runs_from, precedes, runs_in_order, selected_spec, set_range, strike_spec, styles_to_highlights,
    Highlight, StyleBuffer,
};
use crate::highlight::tokens::{
    lemma_tokens_inside, tokenize_line_for_highlighting, tokens_from, tokens_view, UnitNames,
};
use crate::links::{find_char, find_char_from, lemma_find_char_bounds};
use crate::style::Style;
use crate::text::{chars_to_string, trim_char_slice, trim_spec};
use vstd::prelude::*;

verus! {

/// Number of leading `#` characters of `line`.
pub open spec fn hash_run(line: Seq<char>) -> nat
    decreases line.len(),
{
    if line.len() > 0 && line[0] == '#' {
        1 + hash_run(line.drop_first())
    } else {
        0
    }
}

/// The Markdown header level of `line`: the number of leading `#`, when there
/// is at least one and they are followed by a space or end the line.
pub open spec fn header_level_spec(line: Seq<char>) -> Option<nat> {
    let n = hash_run(line);
    if n > 0 && (n == line.len() || line[n as int] == ' ') {
        Some(n)
    } else {
        None
    }
}

proof fn lemma_hash_run(line: Seq<char>, k: nat)
    requires
        k <= line.len(),
        forall|j: int| 0 <= j < k ==> line[j] == '#',
        k == line.len() || line[k as int] != '#',
    ensures
        hash_run(line) == k,
    decreases k,
{
    if k > 0 {
        assert forall|j: int| 0 <= j < k - 1 implies line.drop_first()[j] == '#' by {
            assert(line.drop_first()[j] == line[j + 1]);
        }
        lemma_hash_run(line.drop_first(), (k - 1) as nat);
    }
}

/// The Markdown header level of `line` (1 for `#`, 2 for `##`, ...).
pub fn header_level(line: &[char]) -> (r: Option<usize>)
    ensures
        match header_level_spec(line@) {
            Some(n) => r == Some(n as usize),
            None => r is None,
        },
        r matches Some(k) ==> header_level_spec(line@) == Some(k as nat),
{
    let mut n: usize = 0;
    while n < line.len() && line[n] == '#'
        invariant
            n <= line@.len(),
            forall|j: int| 0 <= j < n ==> line@[j] == '#',
        decreases line.len() - n,
    {
        n += 1;
    }
    proof {
        lemma_hash_run(line@, n as nat);
    }
    if n > 0 && (n == line.len() || line[n] == ' ') {
        Some(n)
    } else {
        None
    }
}


/// The names of the comma-separated arguments of `s` from `i` on that are,
/// trimmed, names.
pub open spec fn arg_names_from(s: Seq<char>, i: int) -> Seq<Seq<char>>
    decreases s.len() - i + 1,
{
    if i < 0 || i > s.len() {
        Seq::empty()
    } else {
        let j = comma_end(s, i);
        proof {
            lemma_comma_end(s, i);
        }
        let t = trim_spec(s.subrange(i, j));
        (if valid_name(t) {
            seq![t]
        } else {
            Seq::empty()
        }) + (if j >= s.len() {
            Seq::empty()
        } else {
            arg_names_from(s, j + 1)
        })
    }
}

/// The names that the left side of an `=` defines.
pub open spec fn left_defines(left: Seq<char>) -> Seq<Seq<char>> {
    if left.contains('(') && left.len() > 0 && left.last() == ')' {
        let lp = first_char(left, '(');
        let name = trim_spec(left.subrange(0, lp));
        if valid_name(name) {
            seq![name] + arg_names_from(left.subrange(lp + 1, left.len() - 1), 0)
        } else {
            Seq::empty()
        }
    } else if valid_name(left) {
        seq![left]
    } else {
        Seq::empty()
    }
}

/// The names a line defines: `name = ...` defines `name`, and
/// `f(a, b) = ...` defines `f`, `a` and `b`. Headers, comments, quotes and
/// result lines define nothing.
pub open spec fn line_defines(line: Seq<char>) -> Seq<Seq<char>> {
    let t = trim_spec(line);
    if t.len() == 0 || t[0] == '#' || (t.len() >= 2 && t[0] == '/' && t[1] == '/') || t[0] == '>' {
        Seq::empty()
    } else {
        match find_char_from(t, '=', 0) {
            None => Seq::empty(),
            Some(ep) => if ep + 1 < t.len() && t[ep + 1] == '>' {
                Seq::empty()
            } else {
                left_defines(trim_spec(t.subrange(0, ep)))
            },
        }
    }
}

/// The names the lines `ls[..k]` define.
pub open spec fn defined_names(ls: Seq<Seq<char>>, k: int) -> Seq<Seq<char>>
    decreases k,
{
    if k <= 0 || k > ls.len() {
        Seq::empty()
    } else {
        defined_names(ls, k - 1) + line_defines(ls[k - 1])
    }
}


fn push_name(names: &mut Vec<String>, t: &[char])
    ensures
        names_of(final(names)@) == names_of(old(names)@).push(t@),
{
    let ghost before = names@;
    names.push(chars_to_string(t));
    assert(names_of(names@) =~= names_of(before).push(t@));
}

fn valid_name_exec(t: &[char]) -> (r: bool)
    ensures
        r == valid_name(t@),
{
    t.len() > 0 && crate::highlight::lines::all_word_chars_exec(t)
}

fn push_arg_names(names: &mut Vec<String>, s: &[char])
    ensures
        names_of(final(names)@) == names_of(old(names)@) + arg_names_from(s@, 0),
{
    let n = s.len();
    let mut i: usize = 0;
    loop
        invariant
            n == s@.len(),
            i <= n,
            names_of(names@) + arg_names_from(s@, i as int) == names_of(old(names)@) + arg_names_from(s@, 0),
        decreases n - i,
    {
        let mut j = i;
        while j < n && s[j] != ','
            invariant
                i <= j <= n,
                n == s@.len(),
                comma_end(s@, i as int) == comma_end(s@, j as int),
            decreases n - j,
        {
            j += 1;
        }
        let ghost before = names_of(names@);
        let t = trim_char_slice(&s[i..j]);
        if valid_name_exec(t) {
            push_name(names, t);
        }
        if j >= n {
            assert(names_of(names@) =~= names_of(old(names)@) + arg_names_from(s@, 0));
            return;
        }
        assert(names_of(names@) + arg_names_from(s@, j + 1) =~= before + arg_names_from(s@, i as int));
        i = j + 1;
    }
}


/// Adds the names that the left side of an `=` defines.
fn collect_left_defines(left: &[char], names: &mut Vec<String>)
    ensures
        names_of(final(names)@) == names_of(old(names)@) + left_defines(left@),
{
    let ln = left.len();
    let lp_opt = crate::highlight::lines::first_char_exec(left, '(');
    match lp_opt {
        Some(lp) => {
            if left[ln - 1] == ')' {
                let name = trim_char_slice(&left[0..lp]);
                if valid_name_exec(name) {
                    push_name(names, name);
                    assert(lp + 1 <= ln - 1) by {
                        assert(left@[ln - 1] == ')');
                    }
                    push_arg_names(names, &left[lp + 1..ln - 1]);
                }
                assert(names_of(names@) =~= names_of(old(names)@) + left_defines(left@));
                return;
            }
        },
        None => {},
    }
    assert(!(left@.contains('(') && left@.len() > 0 && left@.last() == ')'));
    if valid_name_exec(left) {
        push_name(names, left);
    }
    assert(names_of(names@) =~= names_of(old(names)@) + left_defines(left@));
}

/// Adds the names a line defines (see `line_defines`).
fn collect_line_defines(line: &[char], names: &mut Vec<String>)
    ensures
        names_of(final(names)@) == names_of(old(names)@) + line_defines(line@),
{
    let t = trim_char_slice(line);
    let n = t.len();
    if n == 0 || t[0] == '#' || (n >= 2 && t[0] == '/' && t[1] == '/') || t[0] == '>' {
        assert(names_of(names@) =~= names_of(old(names)@) + line_defines(line@));
        return;
    }
    let mut tv: Vec<char> = Vec::new();
    crate::text::push_chars(&mut tv, t);
    assert(tv@ == t@);
    match find_char(&tv, '=', 0) {
        None => {
            assert(names_of(names@) =~= names_of(old(names)@) + line_defines(line@));
        },
        Some(ep) => {
            if ep + 1 < n && t[ep + 1] == '>' {
                assert(names_of(names@) =~= names_of(old(names)@) + line_defines(line@));
                return;
            }
            let left = trim_char_slice(&t[0..ep]);
            collect_left_defines(left, names);
            assert(names_of(names@) =~= names_of(old(names)@) + line_defines(line@));
        },
    }
}


/// A line with no styles.
pub open spec fn empty_styles(n: nat) -> Seq<Option<Style>> {
    Seq::new(n, |j: int| None)
}

/// The painting of a line that is a header, a quote, a rule or a comment.
pub open spec fn special_paint(line: Seq<char>) -> Option<Seq<Option<Style>>> {
    let b0 = empty_styles(line.len());
    match header_level_spec(line) {
        Some(l) => Some(fill_from(b0, 0, header_style(l))),
        None => match first_char_col(line, '>') {
            Some(k) => Some(fill_from(b0, k, quote_style())),
            None => if is_rule(line) {
                Some(fill_from(b0, 0, Style { dim: true, ..muted_style() }))
            } else {
                match comment_col(line) {
                    Some(k) => Some(fill_from(b0, k, Style { italic: true, ..muted_style() })),
                    None => None,
                }
            },
        },
    }
}

/// The painting of any other line, with its result arrow and its brace
/// count: math (see `math_paint`), code quotes, links, tokens, list markers,
/// and, outside math, bold, italics and crossed-out text.
pub open spec fn plain_line_paint(
    line: Seq<char>,
    level: int,
    defined: Seq<Seq<char>>,
    units: UnitNames,
) -> (Seq<Option<Style>>, Option<int>, int) {
    let braces = brace_scan(line, 0, false, None, 0, false, false);
    let in_block = level > 0 || braces.1 || braces.2;
    let rs = quotes_from(line, 0);
    let arrow = arrow_from(line, rs, 0);
    let eq = eq_from(line, rs, arrow, 0);
    let m = math_paint(line, empty_styles(line.len()), arrow, eq, in_block);
    let b2 = quotes_paint(line, m.0, rs, 0);
    let l = links_spec(line, b2);
    let ctx = TokenContext {
        math: m.1,
        main_assign: m.2,
        eq: match eq {
            Some(e) => Some(e as usize),
            None => None,
        },
    };
    let b4 = tokens_paint(l.0, tokens_from(line, 0), 0, ctx, rs, l.1, defined, units);
    let b5 = match list_marker(line) {
        Some(r) => set_range(b4, r.0, r.1, marker_style()),
        None => b4,
    };
    let b6 = if !m.1 {
        strike_spec(line, italic_spec(line, bold_spec(line, b5, rs), rs), rs)
    } else {
        b5
    };
    (b6, arrow, braces.0)
}

/// Everything after the result arrow in italics (teal where unstyled).
pub open spec fn result_italic(buf: Seq<Option<Style>>, arrow: Option<int>) -> Seq<Option<Style>> {
    match arrow {
        Some(ap) => Seq::new(buf.len(), |j: int| if j >= ap + 2 {
            Some(match buf[j] {
                Some(s) => Style { italic: true, ..s },
                None => teal_italic(),
            })
        } else {
            buf[j]
        }),
        None => buf,
    }
}

/// The brace depth after a line: never below zero (and saturating).
pub open spec fn next_brace_level(level: int, braces: int) -> int {
    let v = level + braces;
    if v < 0 {
        0
    } else if v > i128::MAX {
        i128::MAX as int
    } else {
        v
    }
}

/// The styles of a line and the brace depth after it, given the depth
/// before it, the defined names, the selected name and the units.
pub open spec fn line_paint(
    line: Seq<char>,
    level: int,
    defined: Seq<Seq<char>>,
    sv: Option<Seq<char>>,
    units: UnitNames,
) -> (Seq<Option<Style>>, int) {
    match special_paint(line) {
        Some(b) => (selected_spec(line, b, sv), level),
        None => {
            let p = plain_line_paint(line, level, defined, units);
            (result_italic(selected_spec(line, p.0, sv), p.1), next_brace_level(level, p.2))
        },
    }
}

/// The highlights of the lines `ls[k..]`, given the brace depth before them.
pub open spec fn highlights_from(
    ls: Seq<Seq<char>>,
    k: int,
    level: int,
    defined: Seq<Seq<char>>,
    sv: Option<Seq<char>>,
    units: UnitNames,
) -> Seq<Highlight>
    decreases ls.len() - k,
{
    if k < 0 || k >= ls.len() {
        Seq::empty()
    } else {
        let p = line_paint(ls[k], level, defined, sv, units);
        runs_from(p.0, k, 0, None, None) + highlights_from(ls, k + 1, p.1, defined, sv, units)
    }
}

/// The highlights of a buffer: each line painted (see `line_paint`), with
/// the names that all its lines define, then collapsed into ranges.
pub open spec fn syntax_highlights(ls: Seq<Seq<char>>, sv: Option<Seq<char>>, units: UnitNames) -> Seq<Highlight> {
    highlights_from(ls, 0, 0, defined_names(ls, ls.len() as int), sv, units)
}


fn empty_buffer(n: usize) -> (b: StyleBuffer)
    ensures
        b@ == empty_styles(n as nat),
{
    let mut b: StyleBuffer = Vec::new();
    while b.len() < n
        invariant
            b.len() <= n,
            forall|j: int| 0 <= j < b.len() ==> b@[j] is None,
        decreases n - b.len(),
    {
        b.push(None);
    }
    assert(b@ =~= empty_styles(n as nat));
    b
}

/// Paints a line that is not a header, quote, rule or comment and gives its
/// result arrow and brace count (see `plain_line_paint`).
fn paint_plain_line(
    line: &Vec<char>,
    buf: &mut StyleBuffer,
    level: i128,
    defined: &Vec<String>,
    units: &UnitNames,
) -> (r: (Option<usize>, i128))
    requires
        old(buf)@ == empty_styles(line@.len()),
    ensures
        final(buf)@.len() == old(buf)@.len(),
        (final(buf)@, opt_int(r.0), r.1 as int) == plain_line_paint(line@, level as int, names_of(defined@), *units),
        r.0 matches Some(ap) ==> ap + 1 < line@.len(),
{
    let ls = line.as_slice();
    let (braces, has_l, has_r) = scan_braces(ls);
    let in_block = level > 0 || has_l || has_r;
    let rs = backtick_ranges(ls);
    let arrow = find_arrow(ls, rs.as_slice());
    let eq = find_eq(ls, rs.as_slice(), arrow);
    let (math, main_assign) = paint_math(ls, buf, arrow, eq, in_block);
    paint_quotes(ls, buf, &rs);
    let lr = paint_links(line, buf);
    let toks = tokenize_line_for_highlighting(ls);
    let len = line.len();
    proof {
        lemma_tokens_inside(line@, 0);
        assert forall|k: int| 0 <= k < toks@.len() implies crate::highlight::tokens::token_end(
            #[trigger] tokens_view(toks@)[k],
        ) < usize::MAX by {
            assert(tokens_view(toks@)[k] == tokens_from(line@, 0)[k]);
        }
    }
    let ctx = TokenContext { math, main_assign, eq };
    paint_tokens(buf, &toks, &ctx, &rs, &lr, defined, units);
    paint_list(ls, buf);
    if !math {
        paint_bold(ls, buf, rs.as_slice());
        paint_italic(ls, buf, rs.as_slice());
        paint_strike(ls, buf, rs.as_slice());
    }
    (arrow, braces)
}

fn paint_result_italic(buf: &mut StyleBuffer, arrow: Option<usize>)
    ensures
        final(buf)@.len() == old(buf)@.len(),
        final(buf)@ == result_italic(old(buf)@, opt_int(arrow)),
{
    match arrow {
        Some(ap) => {
            let n = buf.len();
            if ap > n {
                assert(buf@ =~= result_italic(old(buf)@, opt_int(arrow)));
                return;
            }
            if n - ap < 2 {
                assert(buf@ =~= result_italic(old(buf)@, opt_int(arrow)));
                return;
            }
            let mut j = ap + 2;
            while j < n
                invariant
                    n == buf@.len(),
                    n == old(buf)@.len(),
                    ap + 2 <= j <= n,
                    forall|x: int| 0 <= x < n ==> #[trigger] buf@[x] == if ap + 2 <= x < j {
                        Some(match old(buf)@[x] {
                            Some(s) => Style { italic: true, ..s },
                            None => teal_italic(),
                        })
                    } else {
                        old(buf)@[x]
                    },
                decreases n - j,
            {
                let styled = match buf[j] {
                    Some(s) => s.italic(),
                    None => Style::fg(115, 218, 202).italic(),
                };
                buf.set(j, Some(styled));
                j += 1;
            }
            assert(buf@ =~= result_italic(old(buf)@, opt_int(arrow)));
        },
        None => {},
    }
}

/// The styles of a line and the brace depth after it (see `line_paint`).
fn line_styles(
    line: &Vec<char>,
    level: i128,
    defined: &Vec<String>,
    sv: Option<&[char]>,
    units: &UnitNames,
) -> (r: (StyleBuffer, i128))
    requires
        level >= 0,
    ensures
        r.0@.len() == line@.len(),
        (r.0@, r.1 as int) == line_paint(
            line@,
            level as int,
            names_of(defined@),
            match sv {
                Some(v) => Some(v@),
                None => None,
            },
            *units,
        ),
        r.1 >= 0,
{
    let ls = line.as_slice();
    let n = line.len();
    let mut buf = empty_buffer(n);
    let special = paint_header(ls, &mut buf) || paint_blockquote(ls, &mut buf) || paint_hr(ls, &mut buf) || paint_comment(ls, &mut buf);
    if special {
        paint_selected_var(ls, &mut buf, sv);
        return (buf, level);
    }
    let (arrow, braces) = paint_plain_line(line, &mut buf, level, defined, units);
    paint_selected_var(ls, &mut buf, sv);
    paint_result_italic(&mut buf, arrow);
    let sum = level as i128;
    let next = if braces > 0 && sum > i128::MAX - braces {
        i128::MAX
    } else if sum + braces < 0 {
        0
    } else {
        sum + braces
    };
    (buf, next)
}

/// The highlighted ranges of a buffer of lines (see `syntax_highlights`):
/// Markdown structure, math lines and code quotes, links, units and the
/// occurrences of the selected name. Each range lies within one line, the
/// ranges come in reading order without overlap, and two that touch differ
/// in style.
pub fn compute_syntax_highlights(
    lines_vecs: &[Vec<char>],
    selected_var: Option<&str>,
    units: &UnitNames,
) -> (r: Vec<Highlight>)
    ensures
        r@ == syntax_highlights(
            lines_vecs@.map_values(|l: Vec<char>| l@),
            match selected_var {
                Some(v) => Some(v@),
                None => None,
            },
            *units,
        ),
        forall|i: int|
            0 <= i < r@.len() ==> (#[trigger] r@[i]).start.row == r@[i].end.row && r@[i].start.row
                < lines_vecs@.len() && r@[i].start.col <= r@[i].end.col && r@[i].end.col
                < lines_vecs@[r@[i].start.row as int]@.len(),
        runs_in_order(r@),
{
    let ghost lsv = lines_vecs@.map_values(|l: Vec<char>| l@);
    let mut defined: Vec<String> = Vec::new();
    let mut k: usize = 0;
    while k < lines_vecs.len()
        invariant
            k <= lines_vecs@.len(),
            lsv == lines_vecs@.map_values(|l: Vec<char>| l@),
            names_of(defined@) == defined_names(lsv, k as int),
        decreases lines_vecs.len() - k,
    {
        collect_line_defines(lines_vecs[k].as_slice(), &mut defined);
        k += 1;
    }
    let sv_chars: Option<Vec<char>> = match selected_var {
        Some(v) => Some(crate::text::str_to_chars(v)),
        None => None,
    };
    let ghost svv = match selected_var {
        Some(v) => Some(v@),
        None => None,
    };
    let mut highlights: Vec<Highlight> = Vec::new();
    let mut level: i128 = 0;
    let mut row: usize = 0;
    while row < lines_vecs.len()
        invariant
            row <= lines_vecs@.len(),
            lsv == lines_vecs@.map_values(|l: Vec<char>| l@),
            names_of(defined@) == defined_names(lsv, lsv.len() as int),
            level >= 0,
            svv == match sv_chars {
                Some(v) => Some(v@),
                None => None::<Seq<char>>,
            },
            highlights@ + highlights_from(lsv, row as int, level as int, names_of(defined@), svv, *units)
                == highlights_from(lsv, 0, 0, names_of(defined@), svv, *units),
            forall|i: int|
                0 <= i < highlights@.len() ==> (#[trigger] highlights@[i]).start.row
                    == highlights@[i].end.row && highlights@[i].start.row < row
                    && highlights@[i].start.col <= highlights@[i].end.col && highlights@[i].end.col
                    < lines_vecs@[highlights@[i].start.row as int]@.len(),
            runs_in_order(highlights@),
        decreases lines_vecs.len() - row,
    {
        let sv = match &sv_chars {
            Some(v) => Some(v.as_slice()),
            None => None,
        };
        let (styles, next) = line_styles(&lines_vecs[row], level, &defined, sv, units);
        let ghost before = highlights@;
        styles_to_highlights(styles.as_slice(), row, &mut highlights);
        proof {
            let rs = runs_from(styles@, row as int, 0, None, None);
            lemma_runs_from(styles@, row as int, 0, None, None);
            assert(highlights@ == before + rs);
            assert forall|i: int| 0 <= i < highlights@.len() implies (#[trigger] highlights@[i]).start.row
                == highlights@[i].end.row && highlights@[i].start.row < row + 1
                && highlights@[i].start.col <= highlights@[i].end.col && highlights@[i].end.col
                < lines_vecs@[highlights@[i].start.row as int]@.len() by {
                if i >= before.len() {
                    assert(highlights@[i] == rs[i - before.len()]);
                } else {
                    assert(highlights@[i] == before[i]);
                }
            }
            assert forall|i: int, j: int| 0 <= i < j < highlights@.len() implies precedes(
                #[trigger] highlights@[i],
                #[trigger] highlights@[j],
            ) by {
                if i >= before.len() {
                    assert(highlights@[i] == rs[i - before.len()]);
                    assert(highlights@[j] == rs[j - before.len()]);
                } else if j >= before.len() {
                    assert(highlights@[i] == before[i]);
                    assert(highlights@[j] == rs[j - before.len()]);
                } else {
                    assert(highlights@[i] == before[i]);
                    assert(highlights@[j] == before[j]);
                }
            }
            assert forall|i: int, j: int|
                #![trigger highlights@[i], highlights@[j]]
                0 <= i && j == i + 1 && j < highlights@.len() && highlights@[i].end.row
                    == highlights@[j].start.row && highlights@[i].end.col + 1 == highlights@[j].start.col
                    implies highlights@[i].style != highlights@[j].style by {
                if i >= before.len() {
                    assert(highlights@[i] == rs[i - before.len()]);
                    assert(highlights@[j] == rs[j - before.len()]);
                } else if j >= before.len() {
                    assert(highlights@[i] == before[i]);
                    assert(highlights@[j] == rs[j - before.len()]);
                } else {
                    assert(highlights@[i] == before[i]);
                    assert(highlights@[j] == before[j]);
                }
            }
            assert(highlights@ + highlights_from(lsv, row + 1, next as int, names_of(defined@), svv, *units)
                =~= before + highlights_from(lsv, row as int, level as int, names_of(defined@), svv, *units));
        }
        level = next;
        row += 1;
    }
    assert(highlights@ =~= highlights_from(lsv, 0, 0, names_of(defined@), svv, *units));
    highlights
}

} // verus!
