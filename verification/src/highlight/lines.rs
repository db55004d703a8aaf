//! The analysis of one line for highlighting: braces, code quotes, the
//! result arrow and the assignment of a math line.

use crate::highlight::paint::{
    find_from, first_from, in_ranges, in_ranges_exec, lemma_first_from, marker_style, muted_style,
    paint_range, set_range, StyleBuffer,
};
use crate::links::{
    find_char, find_char_from, find_pair, find_pair_from, lemma_find_char_bounds,
    lemma_find_pair_bounds, lemma_url_end_bounds, strip_url_trailing, url_end, url_end_from,
    url_starts, url_starts_at,
};
use crate::highlight::tokens::{
    has_name, has_name_exec, is_registered_unit, registered_unit, token_end, tokenize_line_for_highlighting, tokens_from, tokens_view,
    HighlightToken, TokenV, UnitNames,
};
use crate::style::{fg_style, Style};
use crate::text::{char_is_alphanumeric, trim_char_slice, trim_spec, unicode_alphanumeric};
use vstd::prelude::*;

verus! {

/// The brace count of a line from column `i` on: `{` adds one and `}`
/// takes one away outside double quotes (a quote after a backslash does not
/// count); also whether each kind of brace was met.
pub open spec fn brace_scan(
    line: Seq<char>,
    i: int,
    in_quote: bool,
    prev: Option<char>,
    count: int,
    has_l: bool,
    has_r: bool,
) -> (int, bool, bool)
    decreases line.len() - i,
{
    if i < 0 || i >= line.len() {
        (count, has_l, has_r)
    } else {
        let c = line[i];
        let q = if c == '"' && prev != Some('\\') {
            !in_quote
        } else {
            in_quote
        };
        if !q && c == '{' {
            brace_scan(line, i + 1, q, Some(c), count + 1, true, has_r)
        } else if !q && c == '}' {
            brace_scan(line, i + 1, q, Some(c), count - 1, has_l, true)
        } else {
            brace_scan(line, i + 1, q, Some(c), count, has_l, has_r)
        }
    }
}

/// The brace count of the line and whether it has `{` and `}` outside
/// quotes.
pub fn scan_braces(line: &[char]) -> (r: (i128, bool, bool))
    ensures
        (r.0 as int, r.1, r.2) == brace_scan(line@, 0, false, None, 0, false, false),
{
    let n = line.len();
    let mut in_quote = false;
    let mut prev: Option<char> = None;
    let mut count: i128 = 0;
    let mut has_l = false;
    let mut has_r = false;
    let mut i: usize = 0;
    while i < n
        invariant
            n == line@.len(),
            i <= n,
            -(i as int) <= count <= i,
            brace_scan(line@, i as int, in_quote, prev, count as int, has_l, has_r)
                == brace_scan(line@, 0, false, None, 0, false, false),
        decreases n - i,
    {
        let c = line[i];
        let not_escaped = match prev {
            Some(p) => p != '\\',
            None => true,
        };
        if c == '"' && not_escaped {
            in_quote = !in_quote;
        }
        if !in_quote {
            if c == '{' {
                count += 1;
                has_l = true;
            } else if c == '}' {
                count -= 1;
                has_r = true;
            }
        }
        prev = Some(c);
        i += 1;
    }
    (count, has_l, has_r)
}

/// The code quotes of a line from column `idx` on: each backquote and the
/// next one after it close a range (inclusive).
pub open spec fn quotes_from(line: Seq<char>, idx: int) -> Seq<(usize, usize)>
    decreases line.len() - idx,
{
    match first_from(line, seq!['`'], idx) {
        None => Seq::empty(),
        Some(s) => {
            proof {
                lemma_first_from(line, seq!['`'], idx);
                lemma_first_from(line, seq!['`'], s + 1);
            }
            match first_from(line, seq!['`'], s + 1) {
                None => Seq::empty(),
                Some(e) => seq![(s as usize, e as usize)] + quotes_from(line, e + 1),
            }
        },
    }
}

/// The code-quote ranges of a line.
pub fn backtick_ranges(line: &[char]) -> (r: Vec<(usize, usize)>)
    ensures
        r@ == quotes_from(line@, 0),
        forall|k: int| 0 <= k < r@.len() ==> (#[trigger] r@[k]).0 < r@[k].1 < line@.len(),
{
    proof {
        reveal_strlit("`");
    }
    let n = line.len();
    let mut r: Vec<(usize, usize)> = Vec::new();
    let mut idx: usize = 0;
    let mut done = false;
    while !done
        invariant
            n == line@.len(),
            idx <= n + 1,
            "`"@ == seq!['`'],
            forall|k: int| 0 <= k < r@.len() ==> (#[trigger] r@[k]).0 < r@[k].1 < n,
            done ==> r@ == quotes_from(line@, 0),
            !done ==> r@ + quotes_from(line@, idx as int) == quotes_from(line@, 0),
        decreases n + 1 - idx + if done { 0int } else { 1int },
    {
        match find_from(line, "`", idx) {
            None => {
                done = true;
                assert(r@ =~= quotes_from(line@, 0));
            },
            Some(s) => {
                proof {
                    lemma_first_from(line@, seq!['`'], idx as int);
                }
                match find_from(line, "`", s + 1) {
                    None => {
                        done = true;
                        assert(r@ =~= quotes_from(line@, 0));
                    },
                    Some(e) => {
                        proof {
                            lemma_first_from(line@, seq!['`'], s + 1);
                        }
                        r.push((s, e));
                        proof {
                            assert(r@ + quotes_from(line@, e + 1) =~= quotes_from(line@, 0));
                        }
                        idx = e + 1;
                    },
                }
            },
        }
    }
    r
}

/// The first `=>` at or after `idx` outside code quotes.
pub open spec fn arrow_from(line: Seq<char>, rs: Seq<(usize, usize)>, idx: int) -> Option<int>
    decreases line.len() - idx,
{
    if idx < 0 || idx >= line.len() {
        None
    } else if line[idx] == '=' && idx + 1 < line.len() && line[idx + 1] == '>' && !in_ranges(
        rs,
        idx,
    ) {
        Some(idx)
    } else {
        arrow_from(line, rs, idx + 1)
    }
}

/// The first `=` at or after `idx` outside code quotes that does not start
/// the arrow `arrow`.
pub open spec fn eq_from(line: Seq<char>, rs: Seq<(usize, usize)>, arrow: Option<int>, idx: int) -> Option<int>
    decreases line.len() - idx,
{
    if idx < 0 || idx >= line.len() {
        None
    } else if line[idx] == '=' && !in_ranges(rs, idx) && arrow != Some(idx) {
        Some(idx)
    } else {
        eq_from(line, rs, arrow, idx + 1)
    }
}

/// The result arrow of a line, outside code quotes.
pub fn find_arrow(line: &[char], rs: &[(usize, usize)]) -> (r: Option<usize>)
    ensures
        match r {
            Some(p) => arrow_from(line@, rs@, 0) == Some(p as int),
            None => arrow_from(line@, rs@, 0) is None,
        },
        r matches Some(p) ==> p + 1 < line@.len() && line@[p as int] == '=',
{
    let n = line.len();
    let mut idx: usize = 0;
    while idx < n
        invariant
            n == line@.len(),
            arrow_from(line@, rs@, idx as int) == arrow_from(line@, rs@, 0),
        decreases n - idx,
    {
        if line[idx] == '=' && idx + 1 < n && line[idx + 1] == '>' && !in_ranges_exec(rs, idx) {
            return Some(idx);
        }
        idx += 1;
    }
    None
}

/// The assignment sign of a line, outside code quotes and not the arrow.
pub fn find_eq(line: &[char], rs: &[(usize, usize)], arrow: Option<usize>) -> (r: Option<usize>)
    ensures
        match r {
            Some(p) => eq_from(line@, rs@, opt_int(arrow), 0) == Some(p as int),
            None => eq_from(line@, rs@, opt_int(arrow), 0) is None,
        },
        r matches Some(p) ==> p < line@.len(),
{
    let n = line.len();
    let mut idx: usize = 0;
    while idx < n
        invariant
            n == line@.len(),
            eq_from(line@, rs@, opt_int(arrow), idx as int) == eq_from(line@, rs@, opt_int(arrow), 0),
        decreases n - idx,
    {
        let is_arrow = match arrow {
            Some(a) => a == idx,
            None => false,
        };
        if line[idx] == '=' && !in_ranges_exec(rs, idx) && !is_arrow {
            return Some(idx);
        }
        idx += 1;
    }
    None
}

/// An optional column as an integer.
pub open spec fn opt_int(o: Option<usize>) -> Option<int> {
    match o {
        Some(a) => Some(a as int),
        None => None,
    }
}


/// A character of a plain name: alphanumeric or `_`.
pub open spec fn word_char(c: char) -> bool {
    unicode_alphanumeric(c) || c == '_'
}

/// `s` is made of name characters only.
pub open spec fn all_word_chars(s: Seq<char>) -> bool {
    forall|k: int| 0 <= k < s.len() ==> word_char(#[trigger] s[k])
}

/// `s` is a non-empty name.
pub open spec fn valid_name(s: Seq<char>) -> bool {
    s.len() > 0 && all_word_chars(s)
}

pub(crate) fn all_word_chars_exec(s: &[char]) -> (r: bool)
    ensures
        r == all_word_chars(s@),
{
    let mut k: usize = 0;
    while k < s.len()
        invariant
            k <= s@.len(),
            forall|j: int| 0 <= j < k ==> word_char(#[trigger] s@[j]),
        decreases s.len() - k,
    {
        if !(char_is_alphanumeric(s[k]) || s[k] == '_') {
            return false;
        }
        k += 1;
    }
    true
}

/// The end of the comma-separated part that starts at `i`.
pub open spec fn comma_end(s: Seq<char>, i: int) -> int
    decreases s.len() - i,
{
    if 0 <= i < s.len() && s[i] != ',' {
        comma_end(s, i + 1)
    } else {
        i
    }
}

/// `comma_end` lies between `i` and the end.
pub proof fn lemma_comma_end(s: Seq<char>, i: int)
    requires
        0 <= i <= s.len(),
    ensures
        i <= comma_end(s, i) <= s.len(),
    decreases s.len() - i,
{
    if i < s.len() && s[i] != ',' {
        lemma_comma_end(s, i + 1);
    }
}

/// Every comma-separated part of `s` from `i` on is, trimmed, empty or a
/// name.
pub open spec fn args_valid_from(s: Seq<char>, i: int) -> bool
    decreases s.len() - i + 1,
{
    if i < 0 || i > s.len() {
        true
    } else {
        let j = comma_end(s, i);
        proof {
            lemma_comma_end(s, i);
        }
        let t = trim_spec(s.subrange(i, j));
        (t.len() == 0 || all_word_chars(t)) && (j >= s.len() || args_valid_from(s, j + 1))
    }
}

fn args_valid_exec(s: &[char]) -> (r: bool)
    ensures
        r == args_valid_from(s@, 0),
{
    let n = s.len();
    let mut i: usize = 0;
    loop
        invariant
            n == s@.len(),
            i <= n,
            args_valid_from(s@, 0) == args_valid_from(s@, i as int),
        decreases n - i,
    {
        let mut j = i;
        while j < n && s[j] != ','
            invariant
                i <= j <= n,
                n == s@.len(),
                comma_end(s@, i as int) == comma_end(s@, j as int),
            decreases n - j,
        {
            j += 1;
        }
        let t = trim_char_slice(&s[i..j]);
        if !(t.len() == 0 || all_word_chars_exec(t)) {
            return false;
        }
        if j >= n {
            return true;
        }
        i = j + 1;
    }
}

/// The position of the first `c` in `s`.
pub open spec fn first_char(s: Seq<char>, c: char) -> int {
    choose|k: int| 0 <= k < s.len() && s[k] == c && forall|j: int| 0 <= j < k ==> s[j] != c
}

/// `l` has the shape `name(args)` of a function definition: a name before
/// the first `(`, and comma-separated arguments that are names or empty.
pub open spec fn fn_def_shape(l: Seq<char>) -> bool {
    l.contains('(') && l.len() > 0 && l.last() == ')' && {
        let lp = first_char(l, '(');
        valid_name(trim_spec(l.subrange(0, lp))) && args_valid_from(
            l.subrange(lp + 1, l.len() - 1),
            0,
        )
    }
}

pub(crate) fn first_char_exec(s: &[char], c: char) -> (r: Option<usize>)
    ensures
        r matches Some(k) ==> s@.contains(c) && k == first_char(s@, c) && k < s@.len() && s@[k as int] == c,
        r is None ==> !s@.contains(c),
{
    let mut k: usize = 0;
    while k < s.len()
        invariant
            k <= s@.len(),
            forall|j: int| 0 <= j < k ==> s@[j] != c,
        decreases s.len() - k,
    {
        if s[k] == c {
            proof {
                let f = first_char(s@, c);
                assert(0 <= k < s@.len() && s@[k as int] == c && forall|j: int| 0 <= j < k ==> s@[j] != c);
                if f < k {
                    assert(s@[f] != c);
                } else if f > k {
                    assert(s@[k as int] != c);
                }
            }
            return Some(k);
        }
        k += 1;
    }
    None
}

/// The trimmed left side has the shape of a function definition.
pub fn is_fn_def_shape(l: &[char]) -> (r: bool)
    ensures
        r == fn_def_shape(l@),
{
    let n = l.len();
    if n == 0 || l[n - 1] != ')' {
        assert(!fn_def_shape(l@));
        return false;
    }
    match first_char_exec(l, '(') {
        None => {
            assert(!fn_def_shape(l@));
            false
        },
        Some(lp) => {
            let ghost lpi = lp as int;
            assert(lpi == first_char(l@, '('));
            let name = trim_char_slice(&l[0..lp]);
            assert(name@ == trim_spec(l@.subrange(0, lpi)));
            if name.len() == 0 || !all_word_chars_exec(name) {
                assert(!valid_name(trim_spec(l@.subrange(0, lpi))));
                assert(!fn_def_shape(l@));
                return false;
            }
            assert(lp + 1 <= n - 1) by {
                assert(l@[n - 1] == ')');
            }
            let args = &l[lp + 1..n - 1];
            assert(args@ == l@.subrange(lpi + 1, n - 1));
            let r = args_valid_exec(args);
            assert(r == fn_def_shape(l@));
            r
        },
    }
}

/// The `=` at column `ep` makes the line an assignment (`name = ...`, not
/// `==`, `!=`, `<=` or `>=`) or a function definition.
pub open spec fn defines_at(line: Seq<char>, ep: int) -> bool {
    let lhs = trim_spec(line.subrange(0, ep));
    let is_assign = valid_name(lhs) && (ep + 1 >= line.len() || line[ep + 1] != '=') && (ep == 0
        || !(line[ep - 1] == '!' || line[ep - 1] == '<' || line[ep - 1] == '>'));
    is_assign || fn_def_shape(lhs)
}

/// Whether the `=` at column `ep` defines (see `defines_at`).
pub fn defines_at_exec(line: &[char], ep: usize) -> (r: bool)
    requires
        ep < line@.len(),
    ensures
        r == defines_at(line@, ep as int),
{
    let n = line.len();
    let lhs = trim_char_slice(&line[0..ep]);
    let is_assign = lhs.len() > 0 && all_word_chars_exec(lhs) && (ep + 1 >= n || line[ep + 1]
        != '=') && (ep == 0 || !(line[ep - 1] == '!' || line[ep - 1] == '<' || line[ep - 1]
        == '>'));
    is_assign || is_fn_def_shape(lhs)
}


/// Cyan: expressions.
pub open spec fn cyan() -> Style {
    fg_style(125, 207, 255)
}

/// Teal: results and numbers.
pub open spec fn teal() -> Style {
    fg_style(115, 218, 202)
}

/// Teal italics: the result after `=>`.
pub open spec fn teal_italic() -> Style {
    Style { italic: true, ..teal() }
}

/// Orange: operators and code.
pub open spec fn orange() -> Style {
    fg_style(255, 158, 100)
}

/// A line `... => result`: the expression cyan, the arrow bold orange, the
/// result teal italics.
pub open spec fn arrow_line(buf: Seq<Option<Style>>, ap: int) -> Seq<Option<Style>> {
    set_range(
        set_range(set_range(buf, 0, ap, cyan()), ap, ap + 2, marker_style()),
        ap + 2,
        buf.len() as int,
        teal_italic(),
    )
}

/// A line `name = expr => result`: the name cyan, `=` bold orange, the
/// expression teal, then as `arrow_line`.
pub open spec fn assign_arrow_line(buf: Seq<Option<Style>>, ep: int, ap: int) -> Seq<Option<Style>> {
    set_range(
        set_range(
            set_range(
                set_range(set_range(buf, 0, ep, cyan()), ep, ep + 1, marker_style()),
                ep + 1,
                ap,
                teal(),
            ),
            ap,
            ap + 2,
            marker_style(),
        ),
        ap + 2,
        buf.len() as int,
        teal_italic(),
    )
}

/// A line `name = expr`: the name cyan, `=` bold orange, the expression
/// teal.
pub open spec fn assign_line(buf: Seq<Option<Style>>, ep: int) -> Seq<Option<Style>> {
    set_range(
        set_range(set_range(buf, 0, ep, cyan()), ep, ep + 1, marker_style()),
        ep + 1,
        buf.len() as int,
        teal(),
    )
}

/// The painting of a math line by its arrow and its assignment sign, with
/// whether the line is math and whether its `=` defines something; inside a
/// block every line is math.
pub open spec fn math_paint(
    line: Seq<char>,
    buf: Seq<Option<Style>>,
    arrow: Option<int>,
    eq: Option<int>,
    in_block: bool,
) -> (Seq<Option<Style>>, bool, bool) {
    match arrow {
        Some(ap) => match eq {
            Some(ep) => if ep < ap && defines_at(line, ep) {
                (assign_arrow_line(buf, ep, ap), true, true)
            } else {
                (arrow_line(buf, ap), true, false)
            },
            None => (arrow_line(buf, ap), true, false),
        },
        None => match eq {
            Some(ep) => if defines_at(line, ep) {
                (assign_line(buf, ep), true, true)
            } else if in_block {
                (set_range(buf, 0, buf.len() as int, cyan()), true, false)
            } else {
                (buf, false, false)
            },
            None => if in_block {
                (set_range(buf, 0, buf.len() as int, cyan()), true, false)
            } else {
                (buf, false, false)
            },
        },
    }
}

/// Paints a math line and says whether it is one and whether its `=`
/// defines something (see `math_paint`).
pub fn paint_math(
    line: &[char],
    buf: &mut StyleBuffer,
    arrow: Option<usize>,
    eq: Option<usize>,
    in_block: bool,
) -> (r: (bool, bool))
    requires
        eq matches Some(ep) ==> ep < line@.len(),
        arrow matches Some(ap) ==> ap + 1 < line@.len(),
    ensures
        final(buf)@.len() == old(buf)@.len(),
        (final(buf)@, r.0, r.1) == math_paint(line@, old(buf)@, opt_int(arrow), opt_int(eq), in_block),
{
    let _len = line.len();
    let n = buf.len();
    match arrow {
        Some(ap) => {
            let mut assign = false;
            match eq {
                Some(ep) => {
                    if ep < ap && defines_at_exec(line, ep) {
                        assign = true;
                        paint_range(buf, 0, ep, Style::fg(125, 207, 255));
                        paint_range(buf, ep, ep + 1, Style::fg(255, 158, 100).bold());
                        paint_range(buf, ep + 1, ap, Style::fg(115, 218, 202));
                    }
                },
                None => {},
            }
            if !assign {
                paint_range(buf, 0, ap, Style::fg(125, 207, 255));
            }
            paint_range(buf, ap, ap + 2, Style::fg(255, 158, 100).bold());
            paint_range(buf, ap + 2, n, Style::fg(115, 218, 202).italic());
            (true, assign)
        },
        None => {
            match eq {
                Some(ep) => {
                    if defines_at_exec(line, ep) {
                        paint_range(buf, 0, ep, Style::fg(125, 207, 255));
                        paint_range(buf, ep, ep + 1, Style::fg(255, 158, 100).bold());
                        paint_range(buf, ep + 1, n, Style::fg(115, 218, 202));
                        return (true, true);
                    }
                },
                None => {},
            }
            if in_block {
                paint_range(buf, 0, n, Style::fg(125, 207, 255));
                (true, false)
            } else {
                (false, false)
            }
        },
    }
}

/// The painting of one code quote `(s, e)`: the backquotes muted; inside, an
/// evaluation `expr => result` as on a math line, other code orange.
pub open spec fn quote_one(line: Seq<char>, buf: Seq<Option<Style>>, r: (usize, usize)) -> Seq<Option<Style>> {
    let s = r.0 as int;
    let e = r.1 as int;
    let b = set_range(set_range(buf, s, s + 1, muted_style()), e, e + 1, muted_style());
    match first_from(line.subrange(s + 1, e), seq!['=', '>'], 0) {
        Some(a) => {
            let abs = s + 1 + a;
            set_range(
                set_range(set_range(b, s + 1, abs, cyan()), abs, abs + 2, marker_style()),
                abs + 2,
                e,
                teal_italic(),
            )
        },
        None => set_range(b, s + 1, e, orange()),
    }
}

/// The painting of the code quotes `rs[k..]`, one after another.
pub open spec fn quotes_paint(line: Seq<char>, buf: Seq<Option<Style>>, rs: Seq<(usize, usize)>, k: int) -> Seq<Option<Style>>
    decreases rs.len() - k,
{
    if k < 0 || k >= rs.len() {
        buf
    } else {
        quotes_paint(line, quote_one(line, buf, rs[k]), rs, k + 1)
    }
}

/// Paints the code quotes of a line.
pub fn paint_quotes(line: &[char], buf: &mut StyleBuffer, rs: &Vec<(usize, usize)>)
    requires
        forall|k: int| 0 <= k < rs@.len() ==> (#[trigger] rs@[k]).0 < rs@[k].1 < line@.len(),
    ensures
        final(buf)@.len() == old(buf)@.len(),
        final(buf)@ == quotes_paint(line@, old(buf)@, rs@, 0),
{
    proof {
        reveal_strlit("=>");
    }
    let len = line.len();
    let mut k: usize = 0;
    while k < rs.len()
        invariant
            k <= rs@.len(),
            len == line@.len(),
            buf@.len() == old(buf)@.len(),
            forall|j: int| 0 <= j < rs@.len() ==> (#[trigger] rs@[j]).0 < rs@[j].1 < line@.len(),
            quotes_paint(line@, buf@, rs@, k as int) == quotes_paint(line@, old(buf)@, rs@, 0),
        decreases rs.len() - k,
    {
        let (s, e) = rs[k];
        proof {
            reveal_strlit("=>");
        }
        let ghost before = buf@;
        paint_range(buf, s, s + 1, Style::fg(86, 95, 137));
        paint_range(buf, e, e + 1, Style::fg(86, 95, 137));
        let inner = &line[s + 1..e];
        assert(inner@ == line@.subrange(s + 1, e as int));
        assert("=>"@ =~= seq!['=', '>']);
        match find_from(inner, "=>", 0) {
            Some(a) => {
                proof {
                    reveal_strlit("=>");
                    assert("=>"@ =~= seq!['=', '>']);
                    lemma_first_from(inner@, seq!['=', '>'], 0);
                    assert(a + 2 <= inner@.len());
                }
                let abs = s + 1 + a;
                paint_range(buf, s + 1, abs, Style::fg(125, 207, 255));
                paint_range(buf, abs, abs + 2, Style::fg(255, 158, 100).bold());
                paint_range(buf, abs + 2, e, Style::fg(115, 218, 202).italic());
            },
            None => {
                paint_range(buf, s + 1, e, Style::fg(255, 158, 100));
            },
        }
        assert(buf@ == quote_one(line@, before, rs@[k as int]));
        k += 1;
    }
}


/// The style of links.
pub open spec fn link_style() -> Style {
    Style { underlined: true, ..fg_style(187, 154, 247) }
}

/// The next wiki link `[[...]]` at or after `idx`: the columns of its
/// `[[` and of its `]]`.
pub open spec fn wiki_step(line: Seq<char>, idx: int) -> Option<(int, int)> {
    match first_from(line, seq!['[', '['], idx) {
        None => None,
        Some(s) => match first_from(line, seq![']', ']'], s) {
            None => None,
            Some(e) => Some((s, e)),
        },
    }
}

/// A wiki link starts at or after `idx` and closes after its start.
pub proof fn lemma_wiki_step(line: Seq<char>, idx: int)
    ensures
        wiki_step(line, idx) matches Some(p) ==> idx <= p.0 <= p.1 && p.1 + 1 < line.len(),
{
    lemma_first_from(line, seq!['[', '['], idx);
    match first_from(line, seq!['[', '['], idx) {
        Some(s) => lemma_first_from(line, seq![']', ']'], s),
        None => {},
    }
}

/// Wiki links from `idx` on: painted, their ranges added to `lr`.
pub open spec fn wiki_pass(line: Seq<char>, buf: Seq<Option<Style>>, lr: Seq<(usize, usize)>, idx: int) -> (Seq<Option<Style>>, Seq<(usize, usize)>)
    decreases line.len() + 2 - idx,
{
    match wiki_step(line, idx) {
        None => (buf, lr),
        Some(p) => {
            proof {
                lemma_wiki_step(line, idx);
            }
            wiki_pass(
                line,
                set_range(buf, p.0, p.1 + 2, link_style()),
                lr.push((p.0 as usize, (p.1 + 1) as usize)),
                p.1 + 2,
            )
        },
    }
}

/// The closing `)` of a Markdown link `[text](url)` whose `[` is at `m`.
pub open spec fn md_close(line: Seq<char>, m: int) -> Option<int> {
    match find_char_from(line, ']', m + 1) {
        Some(b) => if b + 1 < line.len() && line[b + 1] == '(' {
            find_char_from(line, ')', b + 2)
        } else {
            None
        },
        None => None,
    }
}

/// The closing `)` comes after `m`, inside the line.
pub proof fn lemma_md_close(line: Seq<char>, m: int)
    ensures
        md_close(line, m) matches Some(c) ==> m < c < line.len(),
{
    lemma_find_char_bounds(line, ']', m + 1);
    match find_char_from(line, ']', m + 1) {
        Some(b) => lemma_find_char_bounds(line, ')', b + 2),
        None => {},
    }
}

/// Markdown links `[text](url)` from column `m` on.
pub open spec fn md_pass(line: Seq<char>, buf: Seq<Option<Style>>, lr: Seq<(usize, usize)>, m: int) -> (Seq<Option<Style>>, Seq<(usize, usize)>)
    decreases line.len() - m,
{
    if m < 0 || m >= line.len() {
        (buf, lr)
    } else if line[m] == '[' && md_close(line, m) is Some {
        let c = md_close(line, m)->0;
        proof {
            lemma_md_close(line, m);
        }
        md_pass(line, set_range(buf, m, c + 1, link_style()), lr.push((m as usize, c as usize)), c + 1)
    } else {
        md_pass(line, buf, lr, m + 1)
    }
}

/// Links `[(url)]` from column `p` on.
pub open spec fn paren_pass(line: Seq<char>, buf: Seq<Option<Style>>, lr: Seq<(usize, usize)>, p: int) -> (Seq<Option<Style>>, Seq<(usize, usize)>)
    decreases line.len() - p,
{
    if p < 0 || p >= line.len() {
        (buf, lr)
    } else if p + 1 < line.len() && line[p] == '[' && line[p + 1] == '(' && find_pair_from(
        line,
        ')',
        ']',
        p + 2,
    ) is Some {
        let k = find_pair_from(line, ')', ']', p + 2)->0;
        proof {
            lemma_find_pair_bounds(line, ')', ']', p + 2);
        }
        paren_pass(line, set_range(buf, p, k + 2, link_style()), lr.push((p as usize, (k + 1) as usize)), k + 2)
    } else {
        paren_pass(line, buf, lr, p + 1)
    }
}

/// Raw URLs from column `u` on: a URL runs to white space or a closing
/// bracket, without its trailing punctuation.
pub open spec fn url_pass(line: Seq<char>, buf: Seq<Option<Style>>, lr: Seq<(usize, usize)>, u: int) -> (Seq<Option<Style>>, Seq<(usize, usize)>)
    decreases line.len() - u,
{
    if u < 0 || u >= line.len() {
        (buf, lr)
    } else if url_starts_at(line, u) {
        let e = url_end_from(line, u);
        proof {
            lemma_url_end_bounds(line, u);
        }
        let a = u + strip_url_trailing(line.subrange(u, e)).len();
        url_pass(
            line,
            set_range(buf, u, a, link_style()),
            if a > u {
                lr.push((u as usize, (a - 1) as usize))
            } else {
                lr
            },
            if e > u {
                e
            } else {
                u + 1
            },
        )
    } else {
        url_pass(line, buf, lr, u + 1)
    }
}

/// The links of a line painted (wiki links, Markdown links, `[(url)]`
/// links, raw URLs, in that order), with their column ranges.
pub open spec fn links_spec(line: Seq<char>, buf: Seq<Option<Style>>) -> (Seq<Option<Style>>, Seq<(usize, usize)>) {
    let w = wiki_pass(line, buf, Seq::empty(), 0);
    let m = md_pass(line, w.0, w.1, 0);
    let p = paren_pass(line, m.0, m.1, 0);
    url_pass(line, p.0, p.1, 0)
}


/// Paints the links of a line and gives their column ranges (see
/// `links_spec`).
pub fn paint_links(line: &Vec<char>, buf: &mut StyleBuffer) -> (lr: Vec<(usize, usize)>)
    ensures
        final(buf)@.len() == old(buf)@.len(),
        (final(buf)@, lr@) == links_spec(line@, old(buf)@),
{
    proof {
        reveal_strlit("[[");
        reveal_strlit("]]");
    }
    let n = line.len();
    let mut lr: Vec<(usize, usize)> = Vec::new();
    let ls = line.as_slice();
    // Wiki links.
    let mut idx: usize = 0;
    let mut done = false;
    while !done
        invariant
            n == line@.len(),
            buf@.len() == old(buf)@.len(),
            ls@ == line@,
            idx <= n + 1,
            "[["@ == seq!['[', '['],
            "]]"@ == seq![']', ']'],
            done ==> (buf@, lr@) == wiki_pass(line@, old(buf)@, Seq::empty(), 0),
            !done ==> wiki_pass(line@, buf@, lr@, idx as int) == wiki_pass(line@, old(buf)@, Seq::empty(), 0),
        decreases n + 2 - idx + if done { 0int } else { 1int },
    {
        match find_from(ls, "[[", idx) {
            None => {
                done = true;
            },
            Some(st) => {
                match find_from(ls, "]]", st) {
                    None => {
                        done = true;
                    },
                    Some(en) => {
                        proof {
                            lemma_wiki_step(line@, idx as int);
                        }
                        paint_range(buf, st, en + 2, Style::fg(187, 154, 247).underlined());
                        lr.push((st, en + 1));
                        idx = en + 2;
                    },
                }
            },
        }
    }
    let ghost after_wiki = (buf@, lr@);
    // Markdown links.
    let mut m: usize = 0;
    while m < n
        invariant
            n == line@.len(),
            buf@.len() == old(buf)@.len(),
            md_pass(line@, buf@, lr@, m as int) == md_pass(line@, after_wiki.0, after_wiki.1, 0),
        decreases n - m,
    {
        if line[m] == '[' {
            match find_char(line, ']', m + 1) {
                Some(b) => {
                    if b + 1 < n && line[b + 1] == '(' {
                        match find_char(line, ')', b + 2) {
                            Some(c) => {
                                paint_range(buf, m, c + 1, Style::fg(187, 154, 247).underlined());
                                lr.push((m, c));
                                m = c + 1;
                                continue;
                            },
                            None => {},
                        }
                    }
                },
                None => {},
            }
        }
        m += 1;
    }
    let ghost after_md = (buf@, lr@);
    // Links `[(url)]`.
    let mut p: usize = 0;
    while p < n
        invariant
            n == line@.len(),
            buf@.len() == old(buf)@.len(),
            paren_pass(line@, buf@, lr@, p as int) == paren_pass(line@, after_md.0, after_md.1, 0),
        decreases n - p,
    {
        if p + 1 < n && line[p] == '[' && line[p + 1] == '(' {
            match find_pair(line, ')', ']', p + 2) {
                Some(k) => {
                    paint_range(buf, p, k + 2, Style::fg(187, 154, 247).underlined());
                    lr.push((p, k + 1));
                    p = k + 2;
                    continue;
                },
                None => {},
            }
        }
        p += 1;
    }
    let ghost after_paren = (buf@, lr@);
    // Raw URLs.
    let mut u: usize = 0;
    while u < n
        invariant
            n == line@.len(),
            buf@.len() == old(buf)@.len(),
            url_pass(line@, buf@, lr@, u as int) == url_pass(line@, after_paren.0, after_paren.1, 0),
        decreases n - u,
    {
        if url_starts(line, u) {
            let e = url_end(line, u);
            let mut a = e;
            while a > u && (line[a - 1] == '.' || line[a - 1] == ',' || line[a - 1] == ';'
                || line[a - 1] == '?' || line[a - 1] == '!')
                invariant
                    u <= a <= e <= n,
                    buf@.len() == old(buf)@.len(),
                    n == line@.len(),
                    strip_url_trailing(line@.subrange(u as int, e as int)) == strip_url_trailing(
                        line@.subrange(u as int, a as int),
                    ),
                decreases a,
            {
                proof {
                    assert(line@.subrange(u as int, a as int).drop_last() =~= line@.subrange(
                        u as int,
                        a - 1,
                    ));
                }
                a -= 1;
            }
            proof {
                assert(strip_url_trailing(line@.subrange(u as int, a as int)) == line@.subrange(
                    u as int,
                    a as int,
                ));
            }
            paint_range(buf, u, a, Style::fg(187, 154, 247).underlined());
            if a > u {
                lr.push((u, a - 1));
            }
            u = if e > u {
                e
            } else {
                u + 1
            };
        } else {
            u += 1;
        }
    }
    lr
}


/// The token columns `start..=end` lie on a math line or inside a code
/// quote.
pub open spec fn in_math_context(math: bool, rs: Seq<(usize, usize)>, start: int, end: int) -> bool {
    math || exists|k: int| 0 <= k < rs.len() && (#[trigger] rs[k]).0 <= start && end <= rs[k].1
}

/// The token columns `start..=end` touch a link.
pub open spec fn overlaps_link(lr: Seq<(usize, usize)>, start: int, end: int) -> bool {
    exists|k: int|
        0 <= k < lr.len() && (((#[trigger] lr[k]).0 <= start <= lr[k].1) || (lr[k].0 <= end
            <= lr[k].1))
}

/// `buf` with the columns `a..b` set to `s`, in italics where they were.
pub open spec fn keep_italic(buf: Seq<Option<Style>>, a: int, b: int, s: Style) -> Seq<Option<Style>> {
    Seq::new(buf.len(), |j: int| if a <= j < b {
        Some(if buf[j] matches Some(x) && x.italic {
            Style { italic: true, ..s }
        } else {
            s
        })
    } else {
        buf[j]
    })
}

/// An operator character.
pub open spec fn operator_char(c: char) -> bool {
    c == '+' || c == '-' || c == '*' || c == '/' || c == '^' || c == '&' || c == '|' || c == '!'
        || c == '=' || c == '<' || c == '>' || c == '(' || c == ')' || c == '{' || c == '}' || c
        == ',' || c == ';' || c == '[' || c == ']'
}

/// The token after `i` is an operand: a number, a name, `(` or `[`.
pub open spec fn operand_follows(toks: Seq<TokenV>, i: int) -> bool {
    i + 1 < toks.len() && match toks[i + 1] {
        TokenV::Number { .. } => true,
        TokenV::Identifier { .. } => true,
        TokenV::Symbol { ch, .. } => ch == '(' || ch == '[',
        _ => false,
    }
}

/// The token after `i` is `(`.
pub open spec fn paren_follows(toks: Seq<TokenV>, i: int) -> bool {
    i + 1 < toks.len() && (toks[i + 1] matches TokenV::Symbol { ch, .. } && ch == '(')
}

/// The token before `i` is a number.
pub open spec fn number_precedes(toks: Seq<TokenV>, i: int) -> bool {
    i > 0 && toks[i - 1] is Number
}

/// Bold blue: function names.
pub open spec fn function_style() -> Style {
    Style { bold: true, ..fg_style(122, 162, 247) }
}

/// Pink: units.
pub open spec fn unit_style() -> Style {
    fg_style(244, 143, 177)
}

/// What the facts of a line are that token painting reads.
pub struct TokenContext {
    pub math: bool,
    pub main_assign: bool,
    pub eq: Option<usize>,
}

/// The painting of token `i` in a math context (outside links): function
/// names blue, units pink (a unit after a number, or a known unit that is
/// not a defined name unless a number precedes it), numbers teal, `%` as a
/// suffix pink and as an operator orange, keywords bold orange, operators
/// orange (except the defining `=`); italics kept where there were any.
pub open spec fn token_effect(
    buf: Seq<Option<Style>>,
    toks: Seq<TokenV>,
    i: int,
    ctx: TokenContext,
    rs: Seq<(usize, usize)>,
    lr: Seq<(usize, usize)>,
    defined: Seq<Seq<char>>,
    units: UnitNames,
) -> Seq<Option<Style>> {
    match toks[i] {
        TokenV::Identifier { start, end, name } => if paren_follows(toks, i) {
            if in_math_context(ctx.math, rs, start, end) && !overlaps_link(lr, start, end) {
                set_range(buf, start, end + 1, function_style())
            } else {
                buf
            }
        } else {
            let prev_num = number_precedes(toks, i);
            let unit = (registered_unit(name, units) || prev_num) && !(defined.contains(name)
                && !prev_num);
            if unit && in_math_context(ctx.math, rs, start, end) && !overlaps_link(lr, start, end) {
                set_range(buf, start, end + 1, unit_style())
            } else {
                buf
            }
        },
        TokenV::Number { start, end } => if in_math_context(ctx.math, rs, start, end)
            && !overlaps_link(lr, start, end) {
            keep_italic(buf, start, end + 1, teal())
        } else {
            buf
        },
        TokenV::In { start, end } => if in_math_context(ctx.math, rs, start, end) {
            keep_italic(buf, start, end + 1, marker_style())
        } else {
            buf
        },
        TokenV::Symbol { start, end, ch } => if ch == '%' {
            if in_math_context(ctx.math, rs, start, end) && !overlaps_link(lr, start, end) {
                if operand_follows(toks, i) {
                    keep_italic(buf, start, end + 1, orange())
                } else {
                    set_range(buf, start, end + 1, unit_style())
                }
            } else {
                buf
            }
        } else if operator_char(ch) && !(ch == '=' && ctx.main_assign && ctx.eq == Some(
            start as usize,
        )) && in_math_context(ctx.math, rs, start, end) && !overlaps_link(lr, start, end) {
            keep_italic(buf, start, end + 1, orange())
        } else {
            buf
        },
        TokenV::Arrow { .. } => buf,
    }
}

/// The painting of the tokens `toks[i..]`, one after another.
pub open spec fn tokens_paint(
    buf: Seq<Option<Style>>,
    toks: Seq<TokenV>,
    i: int,
    ctx: TokenContext,
    rs: Seq<(usize, usize)>,
    lr: Seq<(usize, usize)>,
    defined: Seq<Seq<char>>,
    units: UnitNames,
) -> Seq<Option<Style>>
    decreases toks.len() - i,
{
    if i < 0 || i >= toks.len() {
        buf
    } else {
        tokens_paint(token_effect(buf, toks, i, ctx, rs, lr, defined, units), toks, i + 1, ctx, rs, lr, defined, units)
    }
}


fn in_math_context_exec(math: bool, rs: &Vec<(usize, usize)>, start: usize, end: usize) -> (r: bool)
    ensures
        r == in_math_context(math, rs@, start as int, end as int),
{
    if math {
        return true;
    }
    let mut k: usize = 0;
    while k < rs.len()
        invariant
            k <= rs@.len(),
            !math,
            forall|j: int| 0 <= j < k ==> !((#[trigger] rs@[j]).0 <= start && end <= rs@[j].1),
        decreases rs.len() - k,
    {
        if rs[k].0 <= start && end <= rs[k].1 {
            return true;
        }
        k += 1;
    }
    false
}

fn overlaps_link_exec(lr: &Vec<(usize, usize)>, start: usize, end: usize) -> (r: bool)
    ensures
        r == overlaps_link(lr@, start as int, end as int),
{
    let mut k: usize = 0;
    while k < lr.len()
        invariant
            k <= lr@.len(),
            forall|j: int|
                0 <= j < k ==> !(((#[trigger] lr@[j]).0 <= start <= lr@[j].1) || (lr@[j].0 <= end
                    <= lr@[j].1)),
        decreases lr.len() - k,
    {
        if (lr[k].0 <= start && start <= lr[k].1) || (lr[k].0 <= end && end <= lr[k].1) {
            return true;
        }
        k += 1;
    }
    false
}

fn keep_italic_range(buf: &mut StyleBuffer, a: usize, b: usize, s: Style)
    ensures
        final(buf)@.len() == old(buf)@.len(),
        final(buf)@ == keep_italic(old(buf)@, a as int, b as int, s),
{
    let n = buf.len();
    let mut j = a;
    while j < b && j < n
        invariant
            n == buf@.len(),
            n == old(buf)@.len(),
            a <= j,
            j <= b || j == a,
            buf@ == keep_italic(old(buf)@, a as int, j as int, s),
        decreases n - j,
    {
        let italic = match buf[j] {
            Some(x) => x.italic,
            None => false,
        };
        let styled = if italic {
            s.italic()
        } else {
            s
        };
        buf.set(j, Some(styled));
        j += 1;
        proof {
            assert(buf@ =~= keep_italic(old(buf)@, a as int, j as int, s));
        }
    }
    assert(buf@ =~= keep_italic(old(buf)@, a as int, b as int, s));
}

fn operator_char_exec(c: char) -> (r: bool)
    ensures
        r == operator_char(c),
{
    c == '+' || c == '-' || c == '*' || c == '/' || c == '^' || c == '&' || c == '|' || c == '!'
        || c == '=' || c == '<' || c == '>' || c == '(' || c == ')' || c == '{' || c == '}' || c
        == ',' || c == ';' || c == '[' || c == ']'
}

fn operand_follows_exec(toks: &Vec<HighlightToken>, i: usize) -> (r: bool)
    requires
        i < toks@.len(),
    ensures
        r == operand_follows(tokens_view(toks@), i as int),
{
    if i >= toks.len() - 1 {
        return false;
    }
    match &toks[i + 1] {
        HighlightToken::Number { .. } => true,
        HighlightToken::Identifier { .. } => true,
        HighlightToken::Symbol { ch, .. } => *ch == '(' || *ch == '[',
        _ => false,
    }
}

fn paren_follows_exec(toks: &Vec<HighlightToken>, i: usize) -> (r: bool)
    requires
        i < toks@.len(),
    ensures
        r == paren_follows(tokens_view(toks@), i as int),
{
    if i >= toks.len() - 1 {
        return false;
    }
    match &toks[i + 1] {
        HighlightToken::Symbol { ch, .. } => *ch == '(',
        _ => false,
    }
}

fn number_precedes_exec(toks: &Vec<HighlightToken>, i: usize) -> (r: bool)
    requires
        i < toks@.len(),
    ensures
        r == number_precedes(tokens_view(toks@), i as int),
{
    if i == 0 {
        return false;
    }
    match &toks[i - 1] {
        HighlightToken::Number { .. } => true,
        _ => false,
    }
}

/// Paints the tokens of a line (see `tokens_paint`).
pub fn paint_tokens(
    buf: &mut StyleBuffer,
    toks: &Vec<HighlightToken>,
    ctx: &TokenContext,
    rs: &Vec<(usize, usize)>,
    lr: &Vec<(usize, usize)>,
    defined: &Vec<String>,
    units: &UnitNames,
)
    requires
        forall|k: int| 0 <= k < toks@.len() ==> token_end(#[trigger] tokens_view(toks@)[k]) < usize::MAX,
    ensures
        final(buf)@.len() == old(buf)@.len(),
        final(buf)@ == tokens_paint(old(buf)@, tokens_view(toks@), 0, *ctx, rs@, lr@, names_of(defined@), *units),
{
    let ghost tv = tokens_view(toks@);
    let mut i: usize = 0;
    while i < toks.len()
        invariant
            i <= toks@.len(),
            buf@.len() == old(buf)@.len(),
            tv == tokens_view(toks@),
            forall|k: int| 0 <= k < toks@.len() ==> token_end(#[trigger] tv[k]) < usize::MAX,
            tokens_paint(buf@, tv, i as int, *ctx, rs@, lr@, names_of(defined@), *units) == tokens_paint(
                old(buf)@,
                tv,
                0,
                *ctx,
                rs@,
                lr@,
                names_of(defined@),
                *units,
            ),
        decreases toks.len() - i,
    {
        let ghost before = buf@;
        assert(token_end(tv[i as int]) < usize::MAX);
        match &toks[i] {
            HighlightToken::Identifier { start, end, name } => {
                let (start, end) = (*start, *end);
                if paren_follows_exec(toks, i) {
                    if in_math_context_exec(ctx.math, rs, start, end) && !overlaps_link_exec(lr, start, end) {
                        paint_range(buf, start, end + 1, Style::fg(122, 162, 247).bold());
                    }
                } else {
                    let prev_num = number_precedes_exec(toks, i);
                    let nc = crate::text::str_to_chars(name.as_str());
                    proof {
                        lemma_names_of(defined@, nc@);
                    }
                    let unit = (is_registered_unit(name.as_str(), units) || prev_num) && !(
                    has_name_exec(defined, nc.as_slice()) && !prev_num);
                    if unit && in_math_context_exec(ctx.math, rs, start, end) && !overlaps_link_exec(lr, start, end) {
                        paint_range(buf, start, end + 1, Style::fg(244, 143, 177));
                    }
                }
            },
            HighlightToken::Number { start, end } => {
                let (start, end) = (*start, *end);
                if in_math_context_exec(ctx.math, rs, start, end) && !overlaps_link_exec(lr, start, end) {
                    keep_italic_range(buf, start, end + 1, Style::fg(115, 218, 202));
                }
            },
            HighlightToken::In { start, end } => {
                let (start, end) = (*start, *end);
                if in_math_context_exec(ctx.math, rs, start, end) {
                    keep_italic_range(buf, start, end + 1, Style::fg(255, 158, 100).bold());
                }
            },
            HighlightToken::Symbol { start, end, ch } => {
                let (start, end, ch) = (*start, *end, *ch);
                if ch == '%' {
                    if in_math_context_exec(ctx.math, rs, start, end) && !overlaps_link_exec(lr, start, end) {
                        if operand_follows_exec(toks, i) {
                            keep_italic_range(buf, start, end + 1, Style::fg(255, 158, 100));
                        } else {
                            paint_range(buf, start, end + 1, Style::fg(244, 143, 177));
                        }
                    }
                } else {
                    let skip = ch == '=' && ctx.main_assign && match ctx.eq {
                        Some(e) => e == start,
                        None => false,
                    };
                    if operator_char_exec(ch) && !skip && in_math_context_exec(ctx.math, rs, start, end)
                        && !overlaps_link_exec(lr, start, end) {
                        keep_italic_range(buf, start, end + 1, Style::fg(255, 158, 100));
                    }
                }
            },
            HighlightToken::Arrow { .. } => {},
        }
        assert(buf@ == token_effect(before, tv, i as int, *ctx, rs@, lr@, names_of(defined@), *units));
        i += 1;
    }
}


/// The texts of a list of names.
pub open spec fn names_of(v: Seq<String>) -> Seq<Seq<char>> {
    v.map_values(|s: String| s@)
}

/// A name is among the texts of a list exactly when one of its names has it.
pub proof fn lemma_names_of(v: Seq<String>, w: Seq<char>)
    ensures
        names_of(v).contains(w) == has_name(v, w),
{
    if has_name(v, w) {
        let i = choose|i: int| 0 <= i < v.len() && v[i]@ == w;
        assert(names_of(v)[i] == w);
    }
    if names_of(v).contains(w) {
        let i = choose|i: int| 0 <= i < names_of(v).len() && names_of(v)[i] == w;
        assert(v[i]@ == w);
    }
}

} // verus!
