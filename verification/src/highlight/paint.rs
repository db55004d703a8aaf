//! Painters of a per-column style buffer for one line, and the collapse of
//! the buffer into highlighted ranges.

use crate::edtui::Index2;
use crate::highlight::{header_level, header_level_spec};
use crate::style::{fg_style, Style};
use crate::text::{
    char_is_alphanumeric, equals_str, first_non_ws, find_in_chars_from, leading_ws, occurs_at,
    trim_char_slice, trim_spec, unicode_alphanumeric, is_ascii_digit, is_ascii_digit_spec,
};
use vstd::prelude::*;

verus! {

/// The styles of the columns of one line (`None`: unstyled).
pub type StyleBuffer = Vec<Option<Style>>;

/// A range of columns `start..=end` of one row in one style.
#[derive(Clone, Copy, Debug, PartialEq, Eq, Structural)]
pub struct Highlight {
    pub start: Index2,
    pub end: Index2,
    pub style: Style,
}

/// `buf` with every column from `from` on set to `s`.
pub open spec fn fill_from(buf: Seq<Option<Style>>, from: int, s: Style) -> Seq<Option<Style>> {
    Seq::new(buf.len(), |j: int| if j >= from { Some(s) } else { buf[j] })
}

/// `buf` with the columns `a..b` set to `s`.
pub open spec fn set_range(buf: Seq<Option<Style>>, a: int, b: int, s: Style) -> Seq<Option<Style>> {
    Seq::new(buf.len(), |j: int| if a <= j < b { Some(s) } else { buf[j] })
}

/// Sets the columns `a..b` (within the buffer) to `s`.
pub fn paint_range(buf: &mut StyleBuffer, a: usize, b: usize, s: Style)
    ensures
        final(buf)@.len() == old(buf)@.len(),
        final(buf)@ == set_range(old(buf)@, a as int, b as int, s),
{
    let n = buf.len();
    let mut j = a;
    while j < b && j < n
        invariant
            n == buf@.len(),
            n == old(buf)@.len(),
            a <= j,
            j <= b || j == a,
            buf@ == set_range(old(buf)@, a as int, j as int, s),
        decreases n - j,
    {
        buf.set(j, Some(s));
        j += 1;
        proof {
            assert(buf@ =~= set_range(old(buf)@, a as int, j as int, s));
        }
    }
    assert(j >= b || j >= n);
    assert(buf@ =~= set_range(old(buf)@, a as int, b as int, s));
}

/// The style of a header of level `n`.
pub open spec fn header_style(n: nat) -> Style {
    if n == 1 {
        Style { bold: true, ..fg_style(187, 154, 247) }
    } else if n == 2 {
        Style { bold: true, ..fg_style(125, 207, 255) }
    } else if n == 3 {
        Style { bold: true, ..fg_style(122, 162, 247) }
    } else if n == 4 {
        Style { bold: true, ..fg_style(115, 218, 202) }
    } else if n == 5 {
        Style { bold: true, ..fg_style(158, 206, 106) }
    } else {
        Style { bold: true, ..fg_style(255, 158, 100) }
    }
}

/// A header line is painted whole in its level's style.
pub fn paint_header(line: &[char], buf: &mut StyleBuffer) -> (r: bool)
    ensures
        final(buf)@.len() == old(buf)@.len(),
        r == header_level_spec(line@) is Some,
        r ==> final(buf)@ == fill_from(old(buf)@, 0, header_style(header_level_spec(line@)->0)),
        !r ==> final(buf)@ == old(buf)@,
{
    match header_level(line) {
        Some(n) => {
            let s = if n == 1 {
                Style::fg(187, 154, 247).bold()
            } else if n == 2 {
                Style::fg(125, 207, 255).bold()
            } else if n == 3 {
                Style::fg(122, 162, 247).bold()
            } else if n == 4 {
                Style::fg(115, 218, 202).bold()
            } else if n == 5 {
                Style::fg(158, 206, 106).bold()
            } else {
                Style::fg(255, 158, 100).bold()
            };
            assert(s == header_style(header_level_spec(line@)->0));
            let len = buf.len();
            paint_range(buf, 0, len, s);
            assert(buf@ =~= fill_from(old(buf)@, 0, header_style(header_level_spec(line@)->0)));
            true
        },
        None => false,
    }
}

/// The column of the first non-blank character of `line`, when it is `c`.
pub open spec fn first_char_col(line: Seq<char>, c: char) -> Option<int> {
    let k = leading_ws(line) as int;
    if k < line.len() && line[k] == c {
        Some(k)
    } else {
        None
    }
}

/// The style of a quote.
pub open spec fn quote_style() -> Style {
    Style { italic: true, ..fg_style(158, 206, 106) }
}

/// A quote (first non-blank character `>`) is painted from that character on.
pub fn paint_blockquote(line: &[char], buf: &mut StyleBuffer) -> (r: bool)
    ensures
        final(buf)@.len() == old(buf)@.len(),
        r == first_char_col(line@, '>') is Some,
        r ==> final(buf)@ == fill_from(old(buf)@, first_char_col(line@, '>')->0, quote_style()),
        !r ==> final(buf)@ == old(buf)@,
{
    let k = first_non_ws(line);
    if k < line.len() && line[k] == '>' {
        let len = buf.len();
        paint_range(buf, k, len, Style::fg(158, 206, 106).italic());
        assert(buf@ =~= fill_from(old(buf)@, k as int, quote_style()));
        true
    } else {
        false
    }
}

/// The style of a comment and of code quotes.
pub open spec fn muted_style() -> Style {
    fg_style(86, 95, 137)
}

/// The trimmed line is a rule: `---`, `***` or `___`.
pub open spec fn is_rule(line: Seq<char>) -> bool {
    let t = trim_spec(line);
    (t == "---"@ || t == "***"@ || t == "___"@) && line.len() >= 3
}

/// A rule line is painted whole, dimmed.
pub fn paint_hr(line: &[char], buf: &mut StyleBuffer) -> (r: bool)
    ensures
        final(buf)@.len() == old(buf)@.len(),
        r == is_rule(line@),
        r ==> final(buf)@ == fill_from(old(buf)@, 0, Style { dim: true, ..muted_style() }),
        !r ==> final(buf)@ == old(buf)@,
{
    let t = trim_char_slice(line);
    if (equals_str(t, "---") || equals_str(t, "***") || equals_str(t, "___")) && line.len() >= 3 {
        let len = buf.len();
        paint_range(buf, 0, len, Style::fg(86, 95, 137).dim());
        assert(buf@ =~= fill_from(old(buf)@, 0, Style { dim: true, ..muted_style() }));
        true
    } else {
        false
    }
}

/// The column where a comment (`//` as the first non-blank characters)
/// starts.
pub open spec fn comment_col(line: Seq<char>) -> Option<int> {
    let k = leading_ws(line) as int;
    if k < line.len() && k + 1 < line.len() && line[k] == '/' && line[k + 1] == '/' {
        Some(k)
    } else {
        None
    }
}

/// A comment line is painted from the `//` on.
pub fn paint_comment(line: &[char], buf: &mut StyleBuffer) -> (r: bool)
    ensures
        final(buf)@.len() == old(buf)@.len(),
        r == comment_col(line@) is Some,
        r ==> final(buf)@ == fill_from(old(buf)@, comment_col(line@)->0, Style { italic: true, ..muted_style() }),
        !r ==> final(buf)@ == old(buf)@,
{
    let k = first_non_ws(line);
    if k < line.len() && k + 1 < line.len() && line[k] == '/' && line[k + 1] == '/' {
        let len = buf.len();
        paint_range(buf, k, len, Style::fg(86, 95, 137).italic());
        assert(buf@ =~= fill_from(old(buf)@, k as int, Style { italic: true, ..muted_style() }));
        true
    } else {
        false
    }
}

/// The number of ASCII digits of `s` from `i` on.
pub open spec fn digit_run(s: Seq<char>, i: int) -> nat
    decreases s.len() - i,
{
    if 0 <= i < s.len() && is_ascii_digit_spec(s[i]) {
        1 + digit_run(s, i + 1)
    } else {
        0
    }
}

/// The columns `start..end` of a list marker: a bullet `*`, `-` or `+`
/// followed by a space, or a number followed by `. `.
pub open spec fn list_marker(line: Seq<char>) -> Option<(int, int)> {
    let k = leading_ws(line) as int;
    let n = line.len();
    if k < n && k + 1 < n && (line[k] == '*' || line[k] == '-' || line[k] == '+') && line[k + 1] == ' ' {
        Some((k, k + 1))
    } else {
        let d = digit_run(line, k) as int;
        if d > 0 && k + d < n && k + d + 1 < n && line[k + d] == '.' && line[k + d + 1] == ' ' {
            Some((k, k + d + 1))
        } else {
            None
        }
    }
}

/// The bold orange of operators and markers.
pub open spec fn marker_style() -> Style {
    Style { bold: true, ..fg_style(255, 158, 100) }
}

/// A list marker is painted bold orange.
pub fn paint_list(line: &[char], buf: &mut StyleBuffer)
    ensures
        final(buf)@.len() == old(buf)@.len(),
        final(buf)@ == match list_marker(line@) {
            Some(r) => set_range(old(buf)@, r.0, r.1, marker_style()),
            None => old(buf)@,
        },
{
    let n = line.len();
    let k = first_non_ws(line);
    if k < n && k + 1 < n && (line[k] == '*' || line[k] == '-' || line[k] == '+') && line[k + 1] == ' ' {
        paint_range(buf, k, k + 1, Style::fg(255, 158, 100).bold());
        return;
    }
    let mut d: usize = 0;
    while k + d < n && is_ascii_digit(line[k + d])
        invariant
            k <= n,
            k + d <= n,
            n == line@.len(),
            digit_run(line@, k as int) == d + digit_run(line@, (k + d) as int),
        decreases n - k - d,
    {
        d += 1;
    }
    if d > 0 && k + d < n && k + d + 1 < n && line[k + d] == '.' && line[k + d + 1] == ' ' {
        paint_range(buf, k, k + d + 1, Style::fg(255, 158, 100).bold());
    }
}


/// The first position at or after `i` where `needle` occurs in `hay`
/// (none when `i` is past the end).
pub open spec fn first_from(hay: Seq<char>, needle: Seq<char>, i: int) -> Option<int>
    decreases hay.len() - i,
{
    if i < 0 || i >= hay.len() {
        None
    } else if occurs_at(hay, needle, i) {
        Some(i)
    } else {
        first_from(hay, needle, i + 1)
    }
}

/// A found position is at or after `i`, inside `hay`, and `needle` occurs
/// there.
pub proof fn lemma_first_from(hay: Seq<char>, needle: Seq<char>, i: int)
    ensures
        first_from(hay, needle, i) matches Some(p) ==> i <= p < hay.len() && occurs_at(hay, needle, p),
    decreases hay.len() - i,
{
    if 0 <= i < hay.len() && !occurs_at(hay, needle, i) {
        lemma_first_from(hay, needle, i + 1);
    }
}

proof fn lemma_first_from_is(hay: Seq<char>, needle: Seq<char>, i: int, r: Option<int>)
    requires
        0 <= i,
        i >= hay.len() ==> r is None,
        i < hay.len() ==> match r {
            Some(p) => i <= p && occurs_at(hay, needle, p) && forall|j: int|
                i <= j < p ==> !occurs_at(hay, needle, j),
            None => forall|j: int| i <= j ==> !occurs_at(hay, needle, j),
        },
    ensures
        first_from(hay, needle, i) == r,
    decreases hay.len() - i,
{
    if i < hay.len() {
        match r {
            Some(p) => {
                if p > i {
                    assert(p < hay.len()) by {
                        assert(occurs_at(hay, needle, p));
                        if needle.len() == 0 {
                            assert(hay.subrange(i, i) =~= needle);
                            assert(occurs_at(hay, needle, i));
                        }
                    }
                    lemma_first_from_is(hay, needle, i + 1, r);
                }
            },
            None => {
                lemma_first_from_is(hay, needle, i + 1, r);
            },
        }
    }
}

/// The first occurrence of `needle` in `line` at or after `i`.
pub fn find_from(line: &[char], needle: &str, i: usize) -> (r: Option<usize>)
    ensures
        match r {
            Some(p) => first_from(line@, needle@, i as int) == Some(p as int),
            None => first_from(line@, needle@, i as int) is None,
        },
{
    let r = find_in_chars_from(line, needle, i);
    proof {
        let rr = match r {
            Some(p) => Some(p as int),
            None => None,
        };
        lemma_first_from_is(line@, needle@, i as int, rr);
    }
    r
}

/// Column `col` lies in one of the inclusive ranges `rs`.
pub open spec fn in_ranges(rs: Seq<(usize, usize)>, col: int) -> bool {
    exists|k: int| 0 <= k < rs.len() && (#[trigger] rs[k]).0 <= col <= rs[k].1
}

/// Column `col` lies in one of the inclusive ranges.
pub fn in_ranges_exec(rs: &[(usize, usize)], col: usize) -> (r: bool)
    ensures
        r == in_ranges(rs@, col as int),
{
    let mut k: usize = 0;
    while k < rs.len()
        invariant
            k <= rs@.len(),
            forall|m: int| 0 <= m < k ==> !((#[trigger] rs@[m]).0 <= col <= rs@[m].1),
        decreases rs.len() - k,
    {
        if rs[k].0 <= col && col <= rs[k].1 {
            return true;
        }
        k += 1;
    }
    false
}

/// The modifier an emphasis adds.
pub enum Emphasis {
    Bold,
    Italic,
    Strike,
}

/// `s` with the emphasis added.
pub open spec fn emphasized(s: Style, m: Emphasis) -> Style {
    match m {
        Emphasis::Bold => Style { bold: true, ..s },
        Emphasis::Italic => Style { italic: true, ..s },
        Emphasis::Strike => Style { crossed_out: true, ..s },
    }
}

/// The style emphasis starts from: the column's style, or plain text.
pub open spec fn emphasis_base(x: Option<Style>) -> Style {
    match x {
        Some(s) => s,
        None => fg_style(169, 177, 214),
    }
}

/// `buf` with the columns `a..b` emphasized.
pub open spec fn emphasize(buf: Seq<Option<Style>>, a: int, b: int, m: Emphasis) -> Seq<Option<Style>> {
    Seq::new(buf.len(), |j: int| if a <= j < b {
        Some(emphasized(emphasis_base(buf[j]), m))
    } else {
        buf[j]
    })
}

fn emphasize_range(buf: &mut StyleBuffer, a: usize, b: usize, m: &Emphasis)
    ensures
        final(buf)@.len() == old(buf)@.len(),
        final(buf)@ == emphasize(old(buf)@, a as int, b as int, *m),
{
    let n = buf.len();
    let mut j = a;
    while j < b && j < n
        invariant
            n == buf@.len(),
            n == old(buf)@.len(),
            a <= j,
            j <= b || j == a,
            buf@ == emphasize(old(buf)@, a as int, j as int, *m),
        decreases n - j,
    {
        let base = match buf[j] {
            Some(s) => s,
            None => Style::fg(169, 177, 214),
        };
        let styled = match m {
            Emphasis::Bold => base.bold(),
            Emphasis::Italic => base.italic(),
            Emphasis::Strike => base.crossed_out(),
        };
        buf.set(j, Some(styled));
        j += 1;
        proof {
            assert(buf@ =~= emphasize(old(buf)@, a as int, j as int, *m));
        }
    }
    assert(buf@ =~= emphasize(old(buf)@, a as int, b as int, *m));
}

/// One step of the search for marker pairs from `pos`: none when no pair
/// remains; else the columns to emphasize, if any, and where to go on. A
/// marker inside code quotes neither opens nor closes.
pub open spec fn pair_step(line: Seq<char>, rs: Seq<(usize, usize)>, pat: Seq<char>, pos: int) -> Option<(Option<(int, int)>, int)> {
    match first_from(line, pat, pos) {
        None => None,
        Some(st) => if in_ranges(rs, st) {
            Some((None, st + 1))
        } else {
            match first_from(line, pat, st + 2) {
                None => None,
                Some(en) => if in_ranges(rs, en) {
                    Some((None, st + 1))
                } else {
                    Some((Some((st, en + 2)), en + 2))
                },
            }
        },
    }
}

/// A step moves forward, by at most two columns past the line's end.
pub proof fn lemma_pair_step(line: Seq<char>, rs: Seq<(usize, usize)>, pat: Seq<char>, pos: int)
    ensures
        pair_step(line, rs, pat, pos) matches Some(step) ==> pos < step.1 <= line.len() + 1,
{
    lemma_first_from(line, pat, pos);
    match first_from(line, pat, pos) {
        Some(st) => lemma_first_from(line, pat, st + 2),
        None => {},
    }
}

/// Emphasis `m` between pairs of the marker `pat` from `pos` on: each pair
/// and its contents are emphasized.
pub open spec fn pair_pass(
    line: Seq<char>,
    buf: Seq<Option<Style>>,
    rs: Seq<(usize, usize)>,
    pat: Seq<char>,
    m: Emphasis,
    pos: int,
) -> Seq<Option<Style>>
    decreases line.len() + 2 - pos,
{
    match pair_step(line, rs, pat, pos) {
        None => buf,
        Some(step) => {
            proof {
                lemma_pair_step(line, rs, pat, pos);
            }
            let next_buf = match step.0 {
                Some(r) => emphasize(buf, r.0, r.1, m),
                None => buf,
            };
            pair_pass(line, next_buf, rs, pat, m, step.1)
        },
    }
}

fn pair_pass_exec(
    line: &[char],
    buf: &mut StyleBuffer,
    rs: &[(usize, usize)],
    pat: &str,
    m: &Emphasis,
)
    requires
        pat@.len() == 2,
    ensures
        final(buf)@.len() == old(buf)@.len(),
        final(buf)@ == pair_pass(line@, old(buf)@, rs@, pat@, *m, 0),
{
    let n = line.len();
    let mut pos: usize = 0;
    let mut done = false;
    while !done
        invariant
            n == line@.len(),
            buf@.len() == old(buf)@.len(),
            pat@.len() == 2,
            pos <= n + 1,
            done ==> buf@ == pair_pass(line@, old(buf)@, rs@, pat@, *m, 0),
            !done ==> pair_pass(line@, buf@, rs@, pat@, *m, pos as int) == pair_pass(
                line@,
                old(buf)@,
                rs@,
                pat@,
                *m,
                0,
            ),
        decreases n + 2 - pos + if done { 0int } else { 1int },
    {
        match find_from(line, pat, pos) {
            None => {
                done = true;
            },
            Some(st) => {
                proof {
                    lemma_first_from(line@, pat@, pos as int);
                }
                if in_ranges_exec(rs, st) {
                    pos = st + 1;
                } else {
                    match find_from(line, pat, st + 2) {
                        None => {
                            done = true;
                        },
                        Some(en) => {
                            proof {
                                lemma_first_from(line@, pat@, st + 2);
                            }
                            if in_ranges_exec(rs, en) {
                                pos = st + 1;
                            } else {
                                emphasize_range(buf, st, en + 2, m);
                                pos = en + 2;
                            }
                        },
                    }
                }
            },
        }
    }
}

/// Bold between `**` pairs, then between `__` pairs (see `pair_pass`).
pub open spec fn bold_spec(line: Seq<char>, buf: Seq<Option<Style>>, rs: Seq<(usize, usize)>) -> Seq<Option<Style>> {
    pair_pass(line, pair_pass(line, buf, rs, "**"@, Emphasis::Bold, 0), rs, "__"@, Emphasis::Bold, 0)
}

/// Paints bold text.
pub fn paint_bold(line: &[char], buf: &mut StyleBuffer, backtick_ranges: &[(usize, usize)])
    ensures
        final(buf)@.len() == old(buf)@.len(),
        final(buf)@ == bold_spec(line@, old(buf)@, backtick_ranges@),
{
    proof {
        reveal_strlit("**");
        reveal_strlit("__");
    }
    pair_pass_exec(line, buf, backtick_ranges, "**", &Emphasis::Bold);
    pair_pass_exec(line, buf, backtick_ranges, "__", &Emphasis::Bold);
}

/// Crossed-out text between `~~` pairs (see `pair_pass`).
pub open spec fn strike_spec(line: Seq<char>, buf: Seq<Option<Style>>, rs: Seq<(usize, usize)>) -> Seq<Option<Style>> {
    pair_pass(line, buf, rs, "~~"@, Emphasis::Strike, 0)
}

/// Paints crossed-out text.
pub fn paint_strike(line: &[char], buf: &mut StyleBuffer, backtick_ranges: &[(usize, usize)])
    ensures
        final(buf)@.len() == old(buf)@.len(),
        final(buf)@ == strike_spec(line@, old(buf)@, backtick_ranges@),
{
    proof {
        reveal_strlit("~~");
    }
    pair_pass_exec(line, buf, backtick_ranges, "~~", &Emphasis::Strike);
}


/// The closing single marker `c` at or after `k`: not inside code quotes and
/// not doubled (a doubled marker is skipped whole).
pub open spec fn single_close(line: Seq<char>, rs: Seq<(usize, usize)>, c: char, k: int) -> Option<int>
    decreases line.len() - k,
{
    if k < 0 || k >= line.len() {
        None
    } else if line[k] == c {
        if in_ranges(rs, k) {
            single_close(line, rs, c, k + 1)
        } else if k + 1 < line.len() && line[k + 1] == c {
            single_close(line, rs, c, k + 2)
        } else {
            Some(k)
        }
    } else {
        single_close(line, rs, c, k + 1)
    }
}

/// A found closing marker is at or after `k` and inside the line.
pub proof fn lemma_single_close(line: Seq<char>, rs: Seq<(usize, usize)>, c: char, k: int)
    ensures
        single_close(line, rs, c, k) matches Some(e) ==> k <= e < line.len(),
    decreases line.len() - k,
{
    if 0 <= k < line.len() {
        if line[k] == c {
            if in_ranges(rs, k) {
                lemma_single_close(line, rs, c, k + 1);
            } else if k + 1 < line.len() && line[k + 1] == c {
                lemma_single_close(line, rs, c, k + 2);
            }
        } else {
            lemma_single_close(line, rs, c, k + 1);
        }
    }
}

/// One step of the search for single-marker emphasis at column `i`: the
/// columns to emphasize, if any, and where to go on.
pub open spec fn single_step(line: Seq<char>, rs: Seq<(usize, usize)>, c: char, i: int) -> (Option<(int, int)>, int) {
    if line[i] == c {
        if in_ranges(rs, i) {
            (None, i + 1)
        } else if i + 1 < line.len() && line[i + 1] == c {
            (None, i + 2)
        } else {
            match single_close(line, rs, c, i + 1) {
                Some(e) => (Some((i, e + 1)), e + 1),
                None => (None, i + 1),
            }
        }
    } else {
        (None, i + 1)
    }
}

/// Emphasis `m` between single markers `c` from column `i` on.
pub open spec fn single_pass(
    line: Seq<char>,
    buf: Seq<Option<Style>>,
    rs: Seq<(usize, usize)>,
    c: char,
    m: Emphasis,
    i: int,
) -> Seq<Option<Style>>
    decreases line.len() + 1 - i,
{
    if i < 0 || i >= line.len() {
        buf
    } else {
        let step = single_step(line, rs, c, i);
        proof {
            lemma_single_close(line, rs, c, i + 1);
        }
        let next_buf = match step.0 {
            Some(r) => emphasize(buf, r.0, r.1, m),
            None => buf,
        };
        single_pass(line, next_buf, rs, c, m, step.1)
    }
}

/// Italics between single `*`, then between single `_`.
pub open spec fn italic_spec(line: Seq<char>, buf: Seq<Option<Style>>, rs: Seq<(usize, usize)>) -> Seq<Option<Style>> {
    single_pass(
        line,
        single_pass(line, buf, rs, '*', Emphasis::Italic, 0),
        rs,
        '_',
        Emphasis::Italic,
        0,
    )
}

fn single_pass_exec(line: &[char], buf: &mut StyleBuffer, rs: &[(usize, usize)], c: char)
    ensures
        final(buf)@.len() == old(buf)@.len(),
        final(buf)@ == single_pass(line@, old(buf)@, rs@, c, Emphasis::Italic, 0),
{
    let n = line.len();
    let mut i: usize = 0;
    while i < n
        invariant
            n == line@.len(),
            buf@.len() == old(buf)@.len(),
            i <= n + 1,
            single_pass(line@, buf@, rs@, c, Emphasis::Italic, i as int) == single_pass(
                line@,
                old(buf)@,
                rs@,
                c,
                Emphasis::Italic,
                0,
            ),
        decreases n + 1 - i,
    {
        if line[i] == c {
            if in_ranges_exec(rs, i) {
                i += 1;
                continue;
            }
            if i + 1 < n && line[i + 1] == c {
                i += 2;
                continue;
            }
            let mut search = i + 1;
            let mut found: Option<usize> = None;
            while search < n && found.is_none()
                invariant
                    n == line@.len(),
                    i < search <= n + 1,
                    found matches Some(e) ==> single_close(line@, rs@, c, i + 1) == Some(e as int),
                    found is None ==> single_close(line@, rs@, c, i + 1) == single_close(
                        line@,
                        rs@,
                        c,
                        search as int,
                    ),
                decreases n + 1 - search + if found is None {
                    1int
                } else {
                    0int
                },
            {
                if line[search] == c {
                    if in_ranges_exec(rs, search) {
                        search += 1;
                    } else if search + 1 < n && line[search + 1] == c {
                        search += 2;
                    } else {
                        found = Some(search);
                    }
                } else {
                    search += 1;
                }
            }
            proof {
                lemma_single_close(line@, rs@, c, i + 1);
            }
            match found {
                Some(e) => {
                    emphasize_range(buf, i, e + 1, &Emphasis::Italic);
                    i = e + 1;
                },
                None => {
                    i += 1;
                },
            }
        } else {
            i += 1;
        }
    }
}

/// Paints italics.
pub fn paint_italic(line: &[char], buf: &mut StyleBuffer, backtick_ranges: &[(usize, usize)])
    ensures
        final(buf)@.len() == old(buf)@.len(),
        final(buf)@ == italic_spec(line@, old(buf)@, backtick_ranges@),
{
    single_pass_exec(line, buf, backtick_ranges, '*');
    single_pass_exec(line, buf, backtick_ranges, '_');
}

/// A character that may belong to a name.
pub open spec fn ident_char(c: char) -> bool {
    unicode_alphanumeric(c) || c == '_' || c == '/'
}

/// `sv` occurs in `line` at `st` as a whole word.
pub open spec fn selected_at(line: Seq<char>, sv: Seq<char>, st: int) -> bool {
    &&& 0 <= st
    &&& st + sv.len() <= line.len()
    &&& line.subrange(st, st + sv.len()) == sv
    &&& (st == 0 || !ident_char(line[st - 1]))
    &&& (st + sv.len() == line.len() || !ident_char(line[st + sv.len()]))
}

/// The style of the selected variable.
pub open spec fn selected_style() -> Style {
    Style { bg: Some(crate::style::Color { r: 167, g: 82, b: 142 }), bold: true, ..fg_style(224, 230, 242) }
}

/// Every whole-word occurrence of the selected name is painted.
pub open spec fn selected_spec(line: Seq<char>, buf: Seq<Option<Style>>, sv: Option<Seq<char>>) -> Seq<Option<Style>> {
    match sv {
        None => buf,
        Some(v) => Seq::new(buf.len(), |j: int| if exists|st: int| #[trigger] selected_at(line, v, st) && st <= j < st + v.len() {
            Some(selected_style())
        } else {
            buf[j]
        }),
    }
}

fn ident_char_exec(c: char) -> (r: bool)
    ensures
        r == ident_char(c),
{
    char_is_alphanumeric(c) || c == '_' || c == '/'
}

/// Paints the whole-word occurrences of the selected name.
pub fn paint_selected_var(line: &[char], buf: &mut StyleBuffer, sv_chars: Option<&[char]>)
    requires
        old(buf)@.len() == line@.len(),
    ensures
        final(buf)@.len() == old(buf)@.len(),
        final(buf)@ == selected_spec(
            line@,
            old(buf)@,
            match sv_chars {
                Some(v) => Some(v@),
                None => None,
            },
        ),
{
    let sv = match sv_chars {
        Some(v) => v,
        None => return,
    };
    let n = line.len();
    let k = sv.len();
    if n < k {
        proof {
            assert forall|st: int| !selected_at(line@, sv@, st) by {}
            assert(buf@ =~= selected_spec(line@, old(buf)@, Some(sv@)));
        }
        return;
    }
    let ghost target = selected_spec(line@, old(buf)@, Some(sv@));
    let last = n - k;
    let mut st: usize = 0;
    let mut done = false;
    while !done
        invariant
            n == line@.len(),
            k == sv@.len(),
            k <= n,
            last == n - k,
            n == buf@.len(),
            n == old(buf)@.len(),
            st <= last,
            forall|j: int| 0 <= j < n ==> #[trigger] buf@[j] == if exists|s: int|
                #[trigger] selected_at(line@, sv@, s) && s < (if done {
                    last + 1
                } else {
                    st as int
                }) && s <= j < s + k {
                Some(selected_style())
            } else {
                old(buf)@[j]
            },
        decreases last - st + if done { 0int } else { 1int },
    {
        let mut same = true;
        let mut t: usize = 0;
        while t < k
            invariant
                t <= k,
                st + k <= n,
                n == line@.len(),
                k == sv@.len(),
                same <==> forall|u: int| 0 <= u < t ==> line@[st + u] == sv@[u],
            decreases k - t,
        {
            if line[st + t] != sv[t] {
                same = false;
            }
            t += 1;
        }
        proof {
            if same {
                assert(line@.subrange(st as int, st + k) =~= sv@);
            } else {
                if line@.subrange(st as int, st + k) == sv@ {
                    assert forall|u: int| 0 <= u < k implies line@[st + u] == sv@[u] by {
                        assert(line@.subrange(st as int, st + k)[u] == line@[st + u]);
                    }
                }
            }
        }
        let before_ok = st == 0 || !ident_char_exec(line[st - 1]);
        let after_ok = st + k == n || !ident_char_exec(line[st + k]);
        let hit = same && before_ok && after_ok;
        assert(hit == selected_at(line@, sv@, st as int));
        if hit {
            let mut j = st;
            while j < st + k
                invariant
                    st <= j <= st + k,
                    st + k <= n,
                    n == buf@.len(),
                    n == old(buf)@.len(),
                    selected_at(line@, sv@, st as int),
                    forall|x: int| 0 <= x < n ==> #[trigger] buf@[x] == if (exists|s: int|
                        #[trigger] selected_at(line@, sv@, s) && s < st && s <= x < s + k) || (st
                        <= x < j) {
                        Some(selected_style())
                    } else {
                        old(buf)@[x]
                    },
                decreases st + k - j,
            {
                buf.set(j, Some(Style::fg(224, 230, 242).bg(167, 82, 142).bold()));
                j += 1;
            }
        }
        proof {
            assert forall|x: int| 0 <= x < n implies #[trigger] buf@[x] == if exists|s: int|
                #[trigger] selected_at(line@, sv@, s) && s < st + 1 && s <= x < s + k {
                Some(selected_style())
            } else {
                old(buf)@[x]
            } by {
                if hit && st <= x < st + k {
                    assert(selected_at(line@, sv@, st as int) && st < st + 1 && st <= x < st + k);
                }
            }
        }
        if st == last {
            done = true;
        } else {
            st += 1;
        }
    }
    proof {
        assert forall|x: int| 0 <= x < n implies buf@[x] == target[x] by {
            if exists|s: int| #[trigger] selected_at(line@, sv@, s) && s <= x < s + k {
                let s = choose|s: int| #[trigger] selected_at(line@, sv@, s) && s <= x < s + k;
                assert(s < last + 1);
            }
        }
        assert(buf@ =~= target);
    }
}


/// The highlight of the columns `a..=b` of row `row`.
pub open spec fn range_highlight(row: int, a: int, b: int, s: Style) -> Highlight {
    Highlight {
        start: Index2 { row: row as usize, col: a as usize },
        end: Index2 { row: row as usize, col: b as usize },
        style: s,
    }
}

/// The highlights of the maximal runs of equal styles of `styles` from
/// column `col` on, given the run that is open (its start and style).
pub open spec fn runs_from(
    styles: Seq<Option<Style>>,
    row: int,
    col: int,
    start: Option<int>,
    cur: Option<Style>,
) -> Seq<Highlight>
    decreases styles.len() - col,
{
    if col < 0 || col >= styles.len() {
        match (start, cur) {
            (Some(a), Some(s)) => seq![range_highlight(row, a, styles.len() - 1, s)],
            _ => Seq::empty(),
        }
    } else if styles[col] != cur {
        (match (start, cur) {
            (Some(a), Some(s)) => seq![range_highlight(row, a, col - 1, s)],
            _ => Seq::empty(),
        }) + runs_from(
            styles,
            row,
            col + 1,
            if styles[col] is Some {
                Some(col)
            } else {
                None
            },
            styles[col],
        )
    } else {
        runs_from(styles, row, col + 1, start, cur)
    }
}

/// Highlight `a` ends before highlight `b` starts, in reading order.
pub open spec fn precedes(a: Highlight, b: Highlight) -> bool {
    a.end.row < b.start.row || (a.end.row == b.start.row && a.end.col < b.start.col)
}

/// Highlights in reading order without overlap, where two that touch on a
/// row have different styles.
pub open spec fn runs_in_order(hs: Seq<Highlight>) -> bool {
    &&& forall|i: int, j: int| 0 <= i < j < hs.len() ==> precedes(#[trigger] hs[i], #[trigger] hs[j])
    &&& forall|i: int, j: int|
        #![trigger hs[i], hs[j]]
        0 <= i && j == i + 1 && j < hs.len() && hs[i].end.row == hs[j].start.row && hs[i].end.col + 1
            == hs[j].start.col ==> hs[i].style != hs[j].style
}

/// Every highlight of `hs` lies on row `row`, within the columns `lo..n`,
/// and starts no later than it ends.
pub open spec fn on_row_within(hs: Seq<Highlight>, row: int, lo: int, n: int) -> bool {
    forall|i: int|
        0 <= i < hs.len() ==> (#[trigger] hs[i]).start.row == row && hs[i].end.row == row && lo
            <= hs[i].start.col <= hs[i].end.col < n
}

/// The ranges that `runs_from` gives lie on the row, inside the styles,
/// after the open run's start, in order, and two touching ranges differ in
/// style; the first one starts with the open run.
pub proof fn lemma_runs_from(
    styles: Seq<Option<Style>>,
    row: int,
    col: int,
    start: Option<int>,
    cur: Option<Style>,
)
    requires
        0 <= row <= usize::MAX,
        styles.len() <= usize::MAX,
        0 <= col <= styles.len(),
        start is Some <==> cur is Some,
        start matches Some(a) ==> 0 <= a < col,
    ensures
        on_row_within(
            runs_from(styles, row, col, start, cur),
            row,
            match start {
                Some(a) => a,
                None => col,
            },
            styles.len() as int,
        ),
        runs_in_order(runs_from(styles, row, col, start, cur)),
        start matches Some(a) ==> runs_from(styles, row, col, start, cur).len() > 0 && runs_from(
            styles,
            row,
            col,
            start,
            cur,
        )[0].start.col == a && Some(runs_from(styles, row, col, start, cur)[0].style) == cur,
    decreases styles.len() - col,
{
    let res = runs_from(styles, row, col, start, cur);
    if col >= styles.len() {
    } else if styles[col] != cur {
        let start2: Option<int> = if styles[col] is Some {
            Some(col)
        } else {
            None
        };
        lemma_runs_from(styles, row, col + 1, start2, styles[col]);
        let rest = runs_from(styles, row, col + 1, start2, styles[col]);
        let pre: Seq<Highlight> = match (start, cur) {
            (Some(a), Some(s)) => seq![range_highlight(row, a, col - 1, s)],
            _ => Seq::empty(),
        };
        assert(res == pre + rest);
        let lo: int = match start {
            Some(a) => a,
            None => col,
        };
        assert forall|i: int| 0 <= i < res.len() implies (#[trigger] res[i]).start.row == row
            && res[i].end.row == row && lo <= res[i].start.col <= res[i].end.col
            < styles.len() by {
            if i >= pre.len() {
                assert(res[i] == rest[i - pre.len()]);
            }
        }
        assert forall|i: int, j: int| 0 <= i < j < res.len() implies precedes(
            #[trigger] res[i],
            #[trigger] res[j],
        ) by {
            if i >= pre.len() {
                assert(res[i] == rest[i - pre.len()]);
                assert(res[j] == rest[j - pre.len()]);
            } else {
                assert(res[j] == rest[j - pre.len()]);
            }
        }
        assert forall|i: int, j: int|
            #![trigger res[i], res[j]]
            0 <= i && j == i + 1 && j < res.len() && res[i].end.row == res[j].start.row
                && res[i].end.col + 1 == res[j].start.col implies res[i].style != res[j].style by {
            if i >= pre.len() {
                assert(res[i] == rest[i - pre.len()]);
                assert(res[j] == rest[j - pre.len()]);
            } else {
                assert(res[j] == rest[0]);
            }
        }
    } else {
        lemma_runs_from(styles, row, col + 1, start, cur);
    }
}

fn same_style(a: Option<Style>, b: Option<Style>) -> (r: bool)
    ensures
        r == (a == b),
{
    match (a, b) {
        (Some(x), Some(y)) => x == y,
        (None, None) => true,
        _ => false,
    }
}

/// Appends to `highlights` one range per maximal run of equal styles of
/// `line_styles` in row `row_idx` (unstyled runs give none).
pub fn styles_to_highlights(line_styles: &[Option<Style>], row_idx: usize, highlights: &mut Vec<Highlight>)
    ensures
        final(highlights)@ == old(highlights)@ + runs_from(line_styles@, row_idx as int, 0, None, None),
{
    let n = line_styles.len();
    let mut start_col: Option<usize> = None;
    let mut current: Option<Style> = None;
    let mut col: usize = 0;
    while col < n
        invariant
            n == line_styles@.len(),
            col <= n,
            start_col matches Some(a) ==> a < col,
            highlights@ + runs_from(
                line_styles@,
                row_idx as int,
                col as int,
                match start_col {
                    Some(a) => Some(a as int),
                    None => None,
                },
                current,
            ) == old(highlights)@ + runs_from(line_styles@, row_idx as int, 0, None, None),
        decreases n - col,
    {
        let style = line_styles[col];
        if !same_style(style, current) {
            let ghost before = highlights@;
            match (start_col, current) {
                (Some(a), Some(s)) => {
                    highlights.push(
                        Highlight {
                            start: Index2 { row: row_idx, col: a },
                            end: Index2 { row: row_idx, col: col - 1 },
                            style: s,
                        },
                    );
                },
                _ => {},
            }
            start_col = if style.is_some() {
                Some(col)
            } else {
                None
            };
            current = style;
            proof {
                assert(highlights@ + runs_from(
                    line_styles@,
                    row_idx as int,
                    col + 1,
                    match start_col {
                        Some(a) => Some(a as int),
                        None => None,
                    },
                    current,
                ) =~= old(highlights)@ + runs_from(line_styles@, row_idx as int, 0, None, None));
            }
        }
        col += 1;
    }
    match (start_col, current) {
        (Some(a), Some(s)) => {
            highlights.push(
                Highlight {
                    start: Index2 { row: row_idx, col: a },
                    end: Index2 { row: row_idx, col: n - 1 },
                    style: s,
                },
            );
            assert(highlights@ =~= old(highlights)@ + runs_from(line_styles@, row_idx as int, 0, None, None));
        },
        _ => {
            assert(highlights@ =~= old(highlights)@ + runs_from(line_styles@, row_idx as int, 0, None, None));
        },
    }
}

} // verus!
