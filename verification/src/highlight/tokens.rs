//! Tokens of a line for highlighting, and the recognition of unit names.

use crate::text::{
    char_is_alphabetic, char_is_alphanumeric, char_is_whitespace, chars_to_string, equals_str,
    is_ascii_digit, is_ascii_digit_spec, str_to_chars, unicode_alphabetic, unicode_alphanumeric,
    unicode_whitespace,
};
use vstd::prelude::*;

verus! {

/// A token of a line, with the columns of its first and last character.
#[derive(Debug)]
pub enum HighlightToken {
    Number { start: usize, end: usize },
    Identifier { start: usize, end: usize, name: String },
    Symbol { start: usize, end: usize, ch: char },
    Arrow { start: usize, end: usize },
    In { start: usize, end: usize },
}

/// The model of a token.
pub enum TokenV {
    Number { start: int, end: int },
    Identifier { start: int, end: int, name: Seq<char> },
    Symbol { start: int, end: int, ch: char },
    Arrow { start: int, end: int },
    In { start: int, end: int },
}

impl View for HighlightToken {
    type V = TokenV;

    open spec fn view(&self) -> TokenV {
        match self {
            HighlightToken::Number { start, end } => TokenV::Number {
                start: *start as int,
                end: *end as int,
            },
            HighlightToken::Identifier { start, end, name } => TokenV::Identifier {
                start: *start as int,
                end: *end as int,
                name: name@,
            },
            HighlightToken::Symbol { start, end, ch } => TokenV::Symbol {
                start: *start as int,
                end: *end as int,
                ch: *ch,
            },
            HighlightToken::Arrow { start, end } => TokenV::Arrow {
                start: *start as int,
                end: *end as int,
            },
            HighlightToken::In { start, end } => TokenV::In { start: *start as int, end: *end as int },
        }
    }
}

/// Where a number that continues at `k` ends: digits, and one decimal point
/// when a digit follows it.
pub open spec fn number_end(line: Seq<char>, k: int, has_decimal: bool) -> int
    decreases line.len() - k,
{
    if k < 0 || k >= line.len() {
        k
    } else if is_ascii_digit_spec(line[k]) {
        number_end(line, k + 1, has_decimal)
    } else if line[k] == '.' && !has_decimal && k + 1 < line.len() && is_ascii_digit_spec(
        line[k + 1],
    ) {
        number_end(line, k + 2, true)
    } else {
        k
    }
}

/// A character that continues a name: alphanumeric, `_` or `/`.
pub open spec fn name_char(c: char) -> bool {
    unicode_alphanumeric(c) || c == '_' || c == '/'
}

/// Where a name that continues at `k` ends.
pub open spec fn name_end(line: Seq<char>, k: int) -> int
    decreases line.len() - k,
{
    if 0 <= k < line.len() && name_char(line[k]) {
        name_end(line, k + 1)
    } else {
        k
    }
}

/// The words highlighted as keywords.
pub open spec fn is_keyword(w: Seq<char>) -> bool {
    w == "in"@ || w == "to"@ || w == "if"@ || w == "else"@ || w == "switch"@ || w == "default"@
        || w == "for"@ || w == "while"@
}

/// `number_end` lies between `k` and the end of the line.
pub proof fn lemma_number_end(line: Seq<char>, k: int, d: bool)
    requires
        0 <= k <= line.len(),
    ensures
        k <= number_end(line, k, d) <= line.len(),
    decreases line.len() - k,
{
    if k < line.len() {
        if is_ascii_digit_spec(line[k]) {
            lemma_number_end(line, k + 1, d);
        } else if line[k] == '.' && !d && k + 1 < line.len() && is_ascii_digit_spec(line[k + 1]) {
            lemma_number_end(line, k + 2, true);
        }
    }
}

/// `name_end` lies between `k` and the end of the line.
pub proof fn lemma_name_end(line: Seq<char>, k: int)
    requires
        0 <= k <= line.len(),
    ensures
        k <= name_end(line, k) <= line.len(),
    decreases line.len() - k,
{
    if k < line.len() && name_char(line[k]) {
        lemma_name_end(line, k + 1);
    }
}

/// The token that starts at column `i` (none for white space) and the
/// column after it: a number; `=>`; `=`; `$`; a name (letters or `_`
/// first), a keyword among them; any other character a symbol.
pub open spec fn token_at(line: Seq<char>, i: int) -> (Option<TokenV>, int) {
    let ch = line[i];
    if unicode_whitespace(ch) {
        (None, i + 1)
    } else if is_ascii_digit_spec(ch) {
        let j = number_end(line, i + 1, false);
        (Some(TokenV::Number { start: i, end: j - 1 }), j)
    } else if ch == '=' {
        if i + 1 < line.len() && line[i + 1] == '>' {
            (Some(TokenV::Arrow { start: i, end: i + 1 }), i + 2)
        } else {
            (Some(TokenV::Symbol { start: i, end: i, ch: '=' }), i + 1)
        }
    } else if ch == '$' {
        (Some(TokenV::Identifier { start: i, end: i, name: seq!['$'] }), i + 1)
    } else if unicode_alphabetic(ch) || ch == '_' {
        let j = name_end(line, i + 1);
        let name = line.subrange(i, j);
        if is_keyword(name) {
            (Some(TokenV::In { start: i, end: j - 1 }), j)
        } else {
            (Some(TokenV::Identifier { start: i, end: j - 1, name }), j)
        }
    } else {
        (Some(TokenV::Symbol { start: i, end: i, ch }), i + 1)
    }
}

/// The token at a column of the line ends after it, inside the line.
pub proof fn lemma_token_at(line: Seq<char>, i: int)
    requires
        0 <= i < line.len(),
    ensures
        i < token_at(line, i).1 <= line.len(),
{
    lemma_number_end(line, i + 1, false);
    lemma_name_end(line, i + 1);
}

/// The tokens of `line` from column `i` on.
pub open spec fn tokens_from(line: Seq<char>, i: int) -> Seq<TokenV>
    decreases line.len() - i,
{
    if i < 0 || i >= line.len() {
        Seq::empty()
    } else {
        let (t, j) = token_at(line, i);
        proof {
            lemma_token_at(line, i);
        }
        (match t {
            Some(x) => seq![x],
            None => Seq::empty(),
        }) + tokens_from(line, j)
    }
}

/// The models of a sequence of tokens.
pub open spec fn tokens_view(v: Seq<HighlightToken>) -> Seq<TokenV> {
    v.map_values(|t: HighlightToken| t@)
}

fn push_token(out: &mut Vec<HighlightToken>, t: HighlightToken)
    ensures
        tokens_view(final(out)@) == tokens_view(old(out)@).push(t@),
{
    out.push(t);
    assert(tokens_view(out@) =~= tokens_view(old(out)@).push(t@));
}

fn is_keyword_exec(w: &[char]) -> (r: bool)
    ensures
        r == is_keyword(w@),
{
    equals_str(w, "in") || equals_str(w, "to") || equals_str(w, "if") || equals_str(w, "else")
        || equals_str(w, "switch") || equals_str(w, "default") || equals_str(w, "for")
        || equals_str(w, "while")
}

/// The tokens of a line (see `tokens_from`).
pub fn tokenize_line_for_highlighting(line: &[char]) -> (r: Vec<HighlightToken>)
    ensures
        tokens_view(r@) == tokens_from(line@, 0),
{
    let len = line.len();
    let mut tokens: Vec<HighlightToken> = Vec::new();
    let mut i: usize = 0;
    while i < len
        invariant
            len == line@.len(),
            i <= len,
            tokens_view(tokens@) + tokens_from(line@, i as int) == tokens_from(line@, 0),
        decreases len - i,
    {
        let ghost old_tokens = tokens_view(tokens@);
        let ghost gi = i as int;
        let ch = line[i];
        if char_is_whitespace(ch) {
            i += 1;
            continue;
        }
        if is_ascii_digit(ch) {
            let start = i;
            i += 1;
            let mut has_decimal = false;
            let mut done = false;
            while i < len && !done
                invariant
                    len == line@.len(),
                    start < i <= len,
                    start == gi,
                    tokens_view(tokens@) == old_tokens,
                    number_end(line@, start + 1, false) == if done {
                        i as int
                    } else {
                        number_end(line@, i as int, has_decimal)
                    },
                decreases len - i + if done { 0int } else { 1int },
            {
                let n_ch = line[i];
                if is_ascii_digit(n_ch) {
                    i += 1;
                } else if n_ch == '.' && !has_decimal {
                    if i + 1 < len && is_ascii_digit(line[i + 1]) {
                        has_decimal = true;
                        i += 2;
                    } else {
                        done = true;
                    }
                } else {
                    done = true;
                }
            }
            assert(i == number_end(line@, start + 1, false));
            assert(!unicode_whitespace(line@[gi]) && is_ascii_digit_spec(line@[gi]));
            assert(tokens_from(line@, gi) == seq![TokenV::Number { start: gi, end: i - 1 }]
                + tokens_from(line@, i as int));
            push_token(&mut tokens, HighlightToken::Number { start, end: i - 1 });
            assert(tokens_view(tokens@) == old_tokens.push(TokenV::Number { start: gi, end: i - 1 }));
            proof {
                assert(tokens_view(tokens@) + tokens_from(line@, i as int) =~= old_tokens
                    + tokens_from(line@, gi));
            }
        } else if ch == '=' {
            let start = i;
            i += 1;
            if i < len && line[i] == '>' {
                i += 1;
                push_token(&mut tokens, HighlightToken::Arrow { start, end: start + 1 });
            } else {
                push_token(&mut tokens, HighlightToken::Symbol { start, end: start, ch: '=' });
            }
            proof {
                assert(tokens_view(tokens@) + tokens_from(line@, i as int) =~= old_tokens
                    + tokens_from(line@, gi));
            }
        } else if ch == '$' {
            let start = i;
            i += 1;
            let name = "$".to_string();
            proof {
                reveal_strlit("$");
                assert(name@ =~= seq!['$']);
            }
            push_token(&mut tokens, HighlightToken::Identifier { start, end: start, name });
            proof {
                assert(tokens_view(tokens@) + tokens_from(line@, i as int) =~= old_tokens
                    + tokens_from(line@, gi));
            }
        } else if char_is_alphabetic(ch) || ch == '_' {
            let start = i;
            i += 1;
            while i < len && (char_is_alphanumeric(line[i]) || line[i] == '_' || line[i] == '/')
                invariant
                    len == line@.len(),
                    start < i <= len,
                    start == gi,
                    tokens_view(tokens@) == old_tokens,
                    name_end(line@, start + 1) == name_end(line@, i as int),
                decreases len - i,
            {
                i += 1;
            }
            assert(name_end(line@, i as int) == i);
            let name_chars = &line[start..i];
            assert(name_chars@ == line@.subrange(start as int, i as int));
            assert(tokens_from(line@, gi) == (if is_keyword(name_chars@) {
                seq![TokenV::In { start: gi, end: i - 1 }]
            } else {
                seq![TokenV::Identifier { start: gi, end: i - 1, name: name_chars@ }]
            }) + tokens_from(line@, i as int));
            if is_keyword_exec(name_chars) {
                push_token(&mut tokens, HighlightToken::In { start, end: i - 1 });
                assert(tokens_view(tokens@) =~= old_tokens + seq![TokenV::In { start: gi, end: i - 1 }]);
                assert(tokens_view(tokens@) + tokens_from(line@, i as int) =~= old_tokens
                    + tokens_from(line@, gi));
            } else {
                let name = chars_to_string(name_chars);
                push_token(&mut tokens, HighlightToken::Identifier { start, end: i - 1, name });
                assert(tokens_view(tokens@) =~= old_tokens + seq![
                    TokenV::Identifier { start: gi, end: i - 1, name: name_chars@ },
                ]);
                assert(tokens_view(tokens@) + tokens_from(line@, i as int) =~= old_tokens
                    + tokens_from(line@, gi));
            }
        } else {
            let start = i;
            i += 1;
            push_token(&mut tokens, HighlightToken::Symbol { start, end: start, ch });
            proof {
                assert(tokens_view(tokens@) + tokens_from(line@, i as int) =~= old_tokens
                    + tokens_from(line@, gi));
            }
        }
    }
    assert(tokens_view(tokens@) =~= tokens_from(line@, 0));
    tokens
}


/// The unit names the calculator knows: its built-in units, and the units
/// that notes define.
pub struct UnitNames {
    pub builtin: Vec<String>,
    pub custom: Vec<String>,
}

/// One of `names` is `w`.
pub open spec fn has_name(names: Seq<String>, w: Seq<char>) -> bool {
    exists|i: int| 0 <= i < names.len() && names[i]@ == w
}

pub(crate) fn has_name_exec(names: &Vec<String>, w: &[char]) -> (r: bool)
    ensures
        r == has_name(names@, w@),
{
    let mut i: usize = 0;
    while i < names.len()
        invariant
            i <= names@.len(),
            forall|j: int| 0 <= j < i ==> names@[j]@ != w@,
        decreases names.len() - i,
    {
        let c = str_to_chars(names[i].as_str());
        if c.len() == w.len() && chars_equal(c.as_slice(), w) {
            return true;
        }
        i += 1;
    }
    false
}

fn chars_equal(a: &[char], b: &[char]) -> (r: bool)
    requires
        a@.len() == b@.len(),
    ensures
        r == (a@ == b@),
{
    let mut i: usize = 0;
    while i < a.len()
        invariant
            i <= a@.len(),
            a@.len() == b@.len(),
            forall|j: int| 0 <= j < i ==> a@[j] == b@[j],
        decreases a.len() - i,
    {
        if a[i] != b[i] {
            return false;
        }
        i += 1;
    }
    assert(a@ =~= b@);
    true
}

/// A separator of a compound unit.
pub open spec fn unit_separator(c: char) -> bool {
    c == '/' || c == '*'
}

/// The end of the part of a compound unit that starts at `i`.
pub open spec fn part_end(w: Seq<char>, i: int) -> int
    decreases w.len() - i,
{
    if 0 <= i < w.len() && !unit_separator(w[i]) {
        part_end(w, i + 1)
    } else {
        i
    }
}

/// `part_end` lies between `i` and the end of the word.
pub proof fn lemma_part_end(w: Seq<char>, i: int)
    requires
        0 <= i <= w.len(),
    ensures
        i <= part_end(w, i) <= w.len(),
    decreases w.len() - i,
{
    if i < w.len() && !unit_separator(w[i]) {
        lemma_part_end(w, i + 1);
    }
}

/// The parts of `w` from `i` on, split at each `/` and `*`.
pub open spec fn parts_from(w: Seq<char>, i: int) -> Seq<Seq<char>>
    decreases w.len() - i + 1,
{
    if i < 0 || i > w.len() {
        Seq::empty()
    } else {
        let j = part_end(w, i);
        proof {
            lemma_part_end(w, i);
        }
        if j >= w.len() {
            seq![w.subrange(i, w.len() as int)]
        } else {
            seq![w.subrange(i, j)] + parts_from(w, j + 1)
        }
    }
}

/// A character of an exponent suffix of a unit part.
pub open spec fn power_char(c: char) -> bool {
    is_ascii_digit_spec(c) || c == '^'
}

/// `p` without its trailing digits and `^`.
pub open spec fn strip_power(p: Seq<char>) -> Seq<char>
    decreases p.len(),
{
    if p.len() > 0 && power_char(p.last()) {
        strip_power(p.drop_last())
    } else {
        p
    }
}

/// `w` names a unit: a known or defined unit, `$`, or a compound of known
/// units and `$` joined by `/` or `*` (each with an optional power).
pub open spec fn registered_unit(w: Seq<char>, units: UnitNames) -> bool {
    has_name(units.custom@, w) || has_name(units.builtin@, w) || w == seq!['$'] || {
        let parts = parts_from(w, 0);
        parts.len() > 1 && forall|k: int|
            0 <= k < parts.len() ==> has_name(units.builtin@, strip_power(#[trigger] parts[k]))
                || strip_power(parts[k]) == seq!['$']
    }
}

fn strip_power_len(p: &[char]) -> (n: usize)
    ensures
        n <= p@.len(),
        strip_power(p@) == p@.subrange(0, n as int),
{
    let mut n = p.len();
    assert(p@.subrange(0, n as int) =~= p@);
    while n > 0 && (is_ascii_digit(p[n - 1]) || p[n - 1] == '^')
        invariant
            n <= p@.len(),
            strip_power(p@) == strip_power(p@.subrange(0, n as int)),
        decreases n,
    {
        proof {
            assert(p@.subrange(0, n as int).drop_last() =~= p@.subrange(0, n - 1));
        }
        n -= 1;
    }
    n
}

fn part_is_unit(p: &[char], units: &UnitNames) -> (r: bool)
    ensures
        r == (has_name(units.builtin@, strip_power(p@)) || strip_power(p@) == seq!['$']),
{
    let n = strip_power_len(p);
    let clean = &p[0..n];
    assert(n == 1 && clean[0] == '$' ==> clean@ =~= seq!['$']);
    has_name_exec(&units.builtin, clean) || (n == 1 && clean[0] == '$')
}

/// The parts of a word, split at each `/` and `*`.
fn split_parts(w: &Vec<char>) -> (r: Vec<Vec<char>>)
    ensures
        r@.map_values(|p: Vec<char>| p@) == parts_from(w@, 0),
{
    let n = w.len();
    let mut r: Vec<Vec<char>> = Vec::new();
    let mut i: usize = 0;
    let mut done = false;
    while !done
        invariant
            n == w@.len(),
            i <= n,
            done ==> r@.map_values(|p: Vec<char>| p@) == parts_from(w@, 0),
            !done ==> r@.map_values(|p: Vec<char>| p@) + parts_from(w@, i as int) == parts_from(
                w@,
                0,
            ),
        decreases n - i + if done { 0int } else { 1int },
    {
        let mut j = i;
        while j < n && w[j] != '/' && w[j] != '*'
            invariant
                i <= j <= n,
                n == w@.len(),
                part_end(w@, i as int) == part_end(w@, j as int),
            decreases n - j,
        {
            j += 1;
        }
        let mut part: Vec<char> = Vec::new();
        let mut k = i;
        while k < j
            invariant
                i <= k <= j <= n,
                n == w@.len(),
                part@ == w@.subrange(i as int, k as int),
            decreases j - k,
        {
            part.push(w[k]);
            k += 1;
            proof {
                assert(part@ =~= w@.subrange(i as int, k as int));
            }
        }
        let ghost before = r@.map_values(|p: Vec<char>| p@);
        r.push(part);
        proof {
            assert(r@.map_values(|p: Vec<char>| p@) =~= before.push(w@.subrange(i as int, j as int)));
        }
        if j >= n {
            done = true;
            proof {
                assert(r@.map_values(|p: Vec<char>| p@) =~= parts_from(w@, 0));
            }
        } else {
            proof {
                assert(r@.map_values(|p: Vec<char>| p@) + parts_from(w@, j + 1) =~= parts_from(w@, 0));
            }
            i = j + 1;
        }
    }
    r
}

/// The word names a unit (see `registered_unit`).
pub fn is_registered_unit(word: &str, units: &UnitNames) -> (r: bool)
    ensures
        r == registered_unit(word@, *units),
{
    let w = str_to_chars(word);
    if has_name_exec(&units.custom, w.as_slice()) || has_name_exec(&units.builtin, w.as_slice())
        || (w.len() == 1 && w[0] == '$') {
        assert(w.len() == 1 && w[0] == '$' ==> w@ =~= seq!['$']);
        return true;
    }
    assert(w@ != seq!['$']);
    let parts = split_parts(&w);
    let ghost pv = parts@.map_values(|p: Vec<char>| p@);
    if parts.len() <= 1 {
        return false;
    }
    let mut k: usize = 0;
    while k < parts.len()
        invariant
            k <= parts@.len(),
            pv == parts@.map_values(|p: Vec<char>| p@),
            pv == parts_from(w@, 0),
            pv.len() > 1,
            w@ == word@,
            !has_name(units.custom@, w@),
            !has_name(units.builtin@, w@),
            w@ != seq!['$'],
            forall|m: int|
                0 <= m < k ==> has_name(units.builtin@, strip_power(#[trigger] pv[m]))
                    || strip_power(pv[m]) == seq!['$'],
        decreases parts.len() - k,
    {
        if !part_is_unit(parts[k].as_slice(), units) {
            assert(!(has_name(units.builtin@, strip_power(pv[k as int])) || strip_power(pv[k as int]) == seq!['$']));
            return false;
        }
        k += 1;
    }
    true
}


/// The last column of a token.
pub open spec fn token_end(t: TokenV) -> int {
    match t {
        TokenV::Number { end, .. } => end,
        TokenV::Identifier { end, .. } => end,
        TokenV::Symbol { end, .. } => end,
        TokenV::Arrow { end, .. } => end,
        TokenV::In { end, .. } => end,
    }
}

/// Every token lies inside the line.
pub proof fn lemma_tokens_inside(line: Seq<char>, i: int)
    requires
        0 <= i,
    ensures
        forall|k: int| 0 <= k < tokens_from(line, i).len() ==> token_end(#[trigger] tokens_from(line, i)[k]) < line.len(),
    decreases line.len() - i,
{
    if i < line.len() {
        lemma_token_at(line, i);
        lemma_number_end(line, i + 1, false);
        lemma_name_end(line, i + 1);
        let (t, j) = token_at(line, i);
        lemma_tokens_inside(line, j);
        let head: Seq<TokenV> = match t {
            Some(x) => seq![x],
            None => Seq::empty(),
        };
        assert forall|k: int| 0 <= k < tokens_from(line, i).len() implies token_end(#[trigger] tokens_from(line, i)[k]) < line.len() by {
            if k >= head.len() {
                assert(tokens_from(line, i)[k] == tokens_from(line, j)[k - head.len()]);
            }
        }
    }
}

} // verus!
