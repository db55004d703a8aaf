//! Export of a note to HTML: block-level Markdown (headers, quotes, rules,
//! lists, math lines, paragraphs) and inline elements (code spans, math
//! results, wiki links), with HTML escaping.

use crate::links::{find_char, find_char_from, find_pair, find_pair_from, lemma_find_char_bounds, lemma_find_pair_bounds};
use crate::text::{
    push_chars, push_str, equals_str, has_prefix, starts_with_str, char_is_alphanumeric, chars_to_string, find_chars_from, matches_at, occurs_at, str_to_chars,
    trim_char_slice, trim_spec, unicode_alphanumeric,
};
use vstd::prelude::*;

verus! {

/// `p` occurs somewhere in `s`.
pub open spec fn contains_seq(s: Seq<char>, p: Seq<char>) -> bool {
    exists|i: int| occurs_at(s, p, i)
}

/// The HTML escape of one character.
pub open spec fn escape_char(c: char) -> Seq<char> {
    if c == '<' {
        "&lt;"@
    } else if c == '>' {
        "&gt;"@
    } else if c == '&' {
        "&amp;"@
    } else if c == '"' {
        "&quot;"@
    } else {
        seq![c]
    }
}

/// `s` with `<`, `>`, `&` and `"` escaped for HTML.
pub open spec fn escape_spec(s: Seq<char>) -> Seq<char>
    decreases s.len(),
{
    if s.len() == 0 {
        Seq::empty()
    } else {
        escape_spec(s.drop_last()) + escape_char(s.last())
    }
}

/// What `str::to_lowercase` returns for a string.
pub uninterp spec fn lowercase_str(s: Seq<char>) -> Seq<char>;

/// Every character of `s` is ASCII.
pub open spec fn all_ascii(s: Seq<char>) -> bool {
    forall|i: int| 0 <= i < s.len() ==> (s[i] as u32) < 128
}

/// The ASCII lower-case of one character.
pub open spec fn ascii_lower(c: char) -> char {
    if 'A' <= c && c <= 'Z' {
        ((c as u32) + 32) as char
    } else {
        c
    }
}

/// Calls `str::to_lowercase`. The contract states the name of the result and
/// that on an ASCII string it lower-cases each ASCII letter and keeps every
/// other character.
#[verifier::external_body]
pub(crate) fn str_lowercase(s: &[char]) -> (r: Vec<char>)
    ensures
        r@ == lowercase_str(s@),
        all_ascii(s@) ==> r@ == s@.map_values(|c: char| ascii_lower(c)),
{
    let text: String = s.iter().collect();
    text.to_lowercase().chars().collect()
}

/// The characters of `s` that are alphanumeric or a space.
pub open spec fn keep_name_chars(s: Seq<char>) -> Seq<char>
    decreases s.len(),
{
    if s.len() == 0 {
        Seq::empty()
    } else {
        keep_name_chars(s.drop_last()) + if unicode_alphanumeric(s.last()) || s.last() == ' ' {
            seq![s.last()]
        } else {
            Seq::empty()
        }
    }
}

/// `s` with every space turned into a hyphen.
pub open spec fn spaces_to_hyphens(s: Seq<char>) -> Seq<char> {
    s.map_values(|c: char| if c == ' ' { '-' } else { c })
}

/// The HTML of a closed code span with inner text `inner`: a math result
/// `expr => value` becomes a two-part evaluation, anything else a code span.
pub open spec fn code_html(inner: Seq<char>) -> Seq<char> {
    if contains_seq(inner, "=>"@) {
        let a = choose|a: int| occurs_at(inner, "=>"@, a) && forall|b: int|
            0 <= b < a ==> !occurs_at(inner, "=>"@, b);
        let expr = trim_spec(inner.subrange(0, a));
        let val = trim_spec(inner.subrange(a + 2, inner.len() as int));
        "<code class=\"math-eval\"><span class=\"expr\">"@ + escape_spec(expr)
            + "</span> =&gt; <span class=\""@ + (if contains_seq(val, "[Error"@) {
            "val error"@
        } else {
            "val"@
        }) + "\">"@ + escape_spec(val) + "</span></code>"@
    } else {
        "<code>"@ + escape_spec(inner) + "</code>"@
    }
}

/// The HTML of a wiki link with inner text `name`: a link to the page file
/// named after it.
pub open spec fn wiki_html(name: Seq<char>) -> Seq<char> {
    let t = trim_spec(name);
    let clean = spaces_to_hyphens(keep_name_chars(lowercase_str(t)));
    "<a href=\""@ + clean + ".html"@ + "\" class=\"wiki-link\">"@ + escape_spec(t) + "</a>"@
}

/// The HTML of the inline elements of `s` from position `i` on.
pub open spec fn inline_from(s: Seq<char>, i: int) -> Seq<char>
    decreases s.len() - i,
{
    if i < 0 || i >= s.len() {
        Seq::empty()
    } else if s[i] == '`' {
        match find_char_from(s, '`', i + 1) {
            Some(j) => {
                proof {
                    lemma_find_char_bounds(s, '`', i + 1);
                }
                code_html(s.subrange(i + 1, j)) + inline_from(s, j + 1)
            },
            None => seq!['`'] + s.subrange(i + 1, s.len() as int),
        }
    } else if s[i] == '[' && i + 1 < s.len() && s[i + 1] == '[' {
        match find_pair_from(s, ']', ']', i + 2) {
            Some(k) => {
                proof {
                    lemma_find_pair_bounds(s, ']', ']', i + 2);
                }
                wiki_html(s.subrange(i + 2, k)) + inline_from(s, k + 2)
            },
            None => "[["@ + s.subrange(i + 2, s.len() as int),
        }
    } else {
        escape_char(s[i]) + inline_from(s, i + 1)
    }
}

fn push_escaped(out: &mut Vec<char>, c: char)
    ensures
        final(out)@ == old(out)@ + escape_char(c),
{
    if c == '<' {
        push_str(out, "&lt;");
    } else if c == '>' {
        push_str(out, "&gt;");
    } else if c == '&' {
        push_str(out, "&amp;");
    } else if c == '"' {
        push_str(out, "&quot;");
    } else {
        out.push(c);
        proof {
            assert(out@ =~= old(out)@ + seq![c]);
        }
    }
}

fn escape_into(out: &mut Vec<char>, s: &[char])
    ensures
        final(out)@ == old(out)@ + escape_spec(s@),
{
    let mut i: usize = 0;
    while i < s.len()
        invariant
            i <= s@.len(),
            out@ == old(out)@ + escape_spec(s@.take(i as int)),
        decreases s.len() - i,
    {
        push_escaped(out, s[i]);
        proof {
            assert(s@.take(i + 1).drop_last() =~= s@.take(i as int));
        }
        i += 1;
    }
    proof {
        assert(s@.take(s@.len() as int) =~= s@);
    }
}

/// `text` with `<`, `>`, `&` and `"` escaped for HTML.
pub fn html_escape(text: &str) -> (r: String)
    ensures
        r@ == escape_spec(text@),
{
    let s = str_to_chars(text);
    let mut out: Vec<char> = Vec::new();
    escape_into(&mut out, s.as_slice());
    proof {
        assert(out@ =~= escape_spec(s@));
    }
    chars_to_string(out.as_slice())
}

/// The first occurrence of `p` in `s`, if any.
fn first_occurrence(s: &[char], p: &str) -> (r: Option<usize>)
    ensures
        match r {
            Some(a) => occurs_at(s@, p@, a as int) && forall|b: int|
                0 <= b < a ==> !occurs_at(s@, p@, b),
            None => !contains_seq(s@, p@),
        },
{
    let pc = str_to_chars(p);
    if s.len() == 0 {
        if pc.len() == 0 {
            assert(occurs_at(s@, p@, 0)) by {
                assert(s@.subrange(0, 0) =~= p@);
            }
            return Some(0);
        }
        return None;
    }
    let r = find_chars_from(s, pc.as_slice(), 0);
    r
}

fn code_into(out: &mut Vec<char>, inner: &[char])
    ensures
        final(out)@ == old(out)@ + code_html(inner@),
{
    let n = inner.len();
    match first_occurrence(inner, "=>") {
        Some(a) => {
            proof {
                assert(contains_seq(inner@, "=>"@));
                let c = choose|x: int| occurs_at(inner@, "=>"@, x) && forall|b: int|
                    0 <= b < x ==> !occurs_at(inner@, "=>"@, b);
                if c < a {
                    assert(!occurs_at(inner@, "=>"@, c));
                } else if c > a {
                    assert(!occurs_at(inner@, "=>"@, a as int));
                }
                assert(c == a);
                reveal_strlit("=>");
                assert("=>"@.len() == 2);
                assert(a + 2 <= inner@.len());
            }
            let expr = trim_char_slice(&inner[0..a]);
            let val = trim_char_slice(&inner[a + 2..inner.len()]);
            push_str(out, "<code class=\"math-eval\"><span class=\"expr\">");
            escape_into(out, expr);
            push_str(out, "</span> =&gt; <span class=\"");
            if first_occurrence(val, "[Error").is_some() {
                push_str(out, "val error");
            } else {
                push_str(out, "val");
            }
            push_str(out, "\">");
            escape_into(out, val);
            push_str(out, "</span></code>");
        },
        None => {
            push_str(out, "<code>");
            escape_into(out, inner);
            push_str(out, "</code>");
        },
    }
}


/// The characters of `s` that are alphanumeric or a space, in order.
fn keep_name_chars_exec(s: &[char]) -> (r: Vec<char>)
    ensures
        r@ == keep_name_chars(s@),
{
    let mut r: Vec<char> = Vec::new();
    let mut i: usize = 0;
    while i < s.len()
        invariant
            i <= s@.len(),
            r@ == keep_name_chars(s@.take(i as int)),
        decreases s.len() - i,
    {
        let c = s[i];
        proof {
            assert(s@.take(i + 1).drop_last() =~= s@.take(i as int));
        }
        if char_is_alphanumeric(c) || c == ' ' {
            r.push(c);
        }
        proof {
            assert(r@ =~= keep_name_chars(s@.take(i + 1)));
        }
        i += 1;
    }
    proof {
        assert(s@.take(s@.len() as int) =~= s@);
    }
    r
}

fn wiki_into(out: &mut Vec<char>, name: &[char])
    ensures
        final(out)@ == old(out)@ + wiki_html(name@),
{
    let t = trim_char_slice(name);
    let low = str_lowercase(t);
    let kept = keep_name_chars_exec(low.as_slice());
    push_str(out, "<a href=\"");
    let ghost before = out@;
    let mut i: usize = 0;
    while i < kept.len()
        invariant
            i <= kept@.len(),
            out@ == before + spaces_to_hyphens(kept@).take(i as int),
        decreases kept.len() - i,
    {
        let c = kept[i];
        if c == ' ' {
            out.push('-');
        } else {
            out.push(c);
        }
        proof {
            assert(out@ =~= before + spaces_to_hyphens(kept@).take(i + 1));
        }
        i += 1;
    }
    proof {
        assert(spaces_to_hyphens(kept@).take(kept@.len() as int) =~= spaces_to_hyphens(kept@));
    }
    push_str(out, ".html");
    push_str(out, "\" class=\"wiki-link\">");
    escape_into(out, t);
    push_str(out, "</a>");
    proof {
        assert(out@ =~= old(out)@ + wiki_html(name@));
    }
}

/// Appends the HTML of the inline elements of `s`.
#[verifier::rlimit(40)]
fn inline_into(out: &mut Vec<char>, s: &Vec<char>)
    ensures
        final(out)@ == old(out)@ + inline_from(s@, 0),
{
    let n = s.len();
    let ghost start = out@;
    let mut i: usize = 0;
    let mut done = false;
    while i < n && !done
        invariant
            n == s@.len(),
            i <= n,
            done ==> out@ == start + inline_from(s@, 0),
            !done ==> out@ + inline_from(s@, i as int) == start + inline_from(s@, 0),
        decreases (n - i) as int + if done { 0int } else { 1int },
    {
        let c = s[i];
        if c == '`' {
            match find_char(s, '`', i + 1) {
                Some(j) => {
                    code_into(out, &s.as_slice()[i + 1..j]);
                    proof {
                        assert(out@ + inline_from(s@, j + 1) =~= start + inline_from(s@, 0));
                    }
                    i = j + 1;
                },
                None => {
                    out.push('`');
                    push_chars(out, &s.as_slice()[i + 1..n]);
                    proof {
                        assert(inline_from(s@, i as int) == seq!['`'] + s@.subrange(i + 1, n as int));
                        assert(out@ =~= start + inline_from(s@, 0));
                    }
                    done = true;
                },
            }
        } else if c == '[' && i + 1 < n && s[i + 1] == '[' {
            match find_pair(s, ']', ']', i + 2) {
                Some(k) => {
                    wiki_into(out, &s.as_slice()[i + 2..k]);
                    proof {
                        assert(out@ + inline_from(s@, k + 2) =~= start + inline_from(s@, 0));
                    }
                    i = k + 2;
                },
                None => {
                    push_str(out, "[[");
                    push_chars(out, &s.as_slice()[i + 2..n]);
                    proof {
                        assert(out@ =~= start + inline_from(s@, 0));
                    }
                    done = true;
                },
            }
        } else {
            push_escaped(out, c);
            proof {
                assert(out@ + inline_from(s@, i + 1) =~= start + inline_from(s@, 0));
            }
            i += 1;
        }
    }
    proof {
        if !done {
            assert(inline_from(s@, i as int) =~= Seq::<char>::empty());
            assert(out@ =~= start + inline_from(s@, 0));
        }
    }
}

/// Appends the HTML of the inline elements of the characters `t`.
fn inline_slice_into(out: &mut Vec<char>, t: &[char])
    ensures
        final(out)@ == old(out)@ + inline_from(t@, 0),
{
    let mut v: Vec<char> = Vec::new();
    push_chars(&mut v, t);
    assert(v@ =~= t@);
    inline_into(out, &v);
}

/// The HTML of the inline elements of a line: code spans (a closed span
/// holding `=>` becomes a math evaluation), wiki links `[[name]]`, and every
/// other character escaped. An unclosed span or link is kept as written,
/// unescaped.
pub fn parse_inline_elements(text: &str) -> (r: String)
    ensures
        r@ == inline_from(text@, 0),
{
    let s = str_to_chars(text);
    let mut out: Vec<char> = Vec::new();
    inline_into(&mut out, &s);
    assert(out@ =~= inline_from(s@, 0));
    chars_to_string(out.as_slice())
}


/// The page that an exported note is placed in; `{title}` and `{content}`
/// mark where the title and the body go.
pub const HTML_TEMPLATE: &'static str = r#"<!DOCTYPE html>
<html lang="en">
<head>
    <meta charset="UTF-8">
    <meta name="viewport" content="width=device-width, initial-scale=1.0">
    <title>{title}</title>
    <link rel="preconnect" href="https://fonts.googleapis.com">
    <link rel="preconnect" href="https://fonts.gstatic.com" crossorigin>
    <link href="https://fonts.googleapis.com/css2?family=Outfit:wght@300;400;600;700&family=Fira+Code:wght@400;500&display=swap" rel="stylesheet">
    <style>
        :root {
            --bg-color: #1a1b26;
            --panel-bg: #24283b;
            --text-color: #a9b1d6;
            --text-muted: #565f89;
            --accent-purple: #bb9af7;
            --accent-blue: #7aa2f7;
            --accent-cyan: #7dcfff;
            --accent-green: #9ece6a;
            --accent-orange: #ff9e64;
            --accent-red: #f7768e;
            --border-color: #3b426b;
        }
        body {
            background-color: var(--bg-color);
            color: var(--text-color);
            font-family: 'Outfit', sans-serif;
            line-height: 1.6;
            margin: 0;
            padding: 40px 20px;
        }
        .container {
            max-width: 800px;
            margin: 0 auto;
            background: var(--panel-bg);
            padding: 40px;
            border-radius: 16px;
            box-shadow: 0 8px 30px rgba(0,0,0,0.3);
            border: 1px solid var(--border-color);
        }
        h1, h2, h3, h4, h5, h6 {
            color: #ffffff;
            margin-top: 1.5em;
            margin-bottom: 0.5em;
            font-weight: 700;
        }
        h1 {
            font-size: 2.5rem;
            border-bottom: 2px solid var(--border-color);
            padding-bottom: 0.3em;
            margin-top: 0;
            background: linear-gradient(45deg, var(--accent-purple), var(--accent-cyan));
            -webkit-background-clip: text;
            -webkit-text-fill-color: transparent;
        }
        h2 {
            font-size: 1.8rem;
            color: var(--accent-blue);
        }
        h3 {
            font-size: 1.4rem;
            color: var(--accent-purple);
        }
        p {
            margin: 0 0 1em;
        }
        a, .wiki-link {
            color: var(--accent-cyan);
            text-decoration: none;
            border-bottom: 1px dashed var(--accent-cyan);
            transition: all 0.2s ease;
        }
        a:hover, .wiki-link:hover {
            color: var(--accent-blue);
            border-bottom-style: solid;
        }
        ul, ol {
            margin: 0 0 1.5em;
            padding-left: 20px;
        }
        li {
            margin-bottom: 0.5em;
        }
        code {
            font-family: 'Fira Code', monospace;
            background-color: var(--bg-color);
            padding: 2px 6px;
            border-radius: 4px;
            font-size: 0.9em;
            color: var(--accent-orange);
            border: 1px solid var(--border-color);
        }
        .math-block {
            font-family: 'Fira Code', monospace;
            background-color: var(--bg-color);
            padding: 12px 18px;
            border-radius: 8px;
            margin: 1em 0;
            border-left: 4px solid var(--accent-cyan);
            display: flex;
            justify-content: space-between;
            align-items: center;
        }
        .math-block .expr {
            color: var(--accent-cyan);
        }
        .math-block .val {
            color: var(--accent-green);
            font-weight: 600;
        }
        .math-eval {
            font-family: 'Fira Code', monospace;
            background-color: var(--bg-color);
            padding: 2px 6px;
            border-radius: 4px;
            border: 1px solid var(--border-color);
        }
        .math-eval .expr {
            color: var(--accent-cyan);
        }
        .math-eval .val {
            color: var(--accent-green);
            font-weight: bold;
        }
        .error {
            color: var(--accent-red) !important;
            font-weight: bold;
        }
        hr {
            border: none;
            border-top: 1px solid var(--border-color);
            margin: 2em 0;
        }
        blockquote {
            border-left: 4px solid var(--accent-green);
            margin: 1em 0;
            padding-left: 15px;
            color: var(--accent-green);
            font-style: italic;
        }
    </style>
</head>
<body>
    <div class="container">
        {content}
    </div>
</body>
</html>"#;

/// The page template of an exported note.
pub fn get_html_template() -> (r: &'static str)
    ensures
        r@ == HTML_TEMPLATE@,
{
    HTML_TEMPLATE
}

/// `s` from position `i` on, with each occurrence of `p` (scanning left to
/// right, without overlap) replaced by `r`.
pub open spec fn replace_from(s: Seq<char>, p: Seq<char>, r: Seq<char>, i: int) -> Seq<char>
    decreases s.len() - i,
{
    if i < 0 || i >= s.len() {
        Seq::empty()
    } else if p.len() > 0 && occurs_at(s, p, i) {
        r + replace_from(s, p, r, i + p.len())
    } else {
        seq![s[i]] + replace_from(s, p, r, i + 1)
    }
}

/// `s` with every occurrence of `p` replaced by `r` (`str::replace`).
pub open spec fn replace_all(s: Seq<char>, p: Seq<char>, r: Seq<char>) -> Seq<char> {
    replace_from(s, p, r, 0)
}

pub(crate) fn replace_into(out: &mut Vec<char>, s: &[char], p: &[char], r: &[char])
    requires
        p@.len() > 0,
    ensures
        final(out)@ == old(out)@ + replace_all(s@, p@, r@),
{
    let n = s.len();
    let ghost start = out@;
    let mut i: usize = 0;
    while i < n
        invariant
            n == s@.len(),
            i <= n,
            p@.len() > 0,
            out@ + replace_from(s@, p@, r@, i as int) == start + replace_all(s@, p@, r@),
        decreases n - i,
    {
        if p.len() <= n - i && matches_at(s, p, i) {
            push_chars(out, r);
            proof {
                assert(out@ + replace_from(s@, p@, r@, i + p@.len()) =~= start + replace_all(s@, p@, r@));
            }
            i = i + p.len();
        } else {
            proof {
                if occurs_at(s@, p@, i as int) {
                    assert(false);
                }
            }
            out.push(s[i]);
            proof {
                assert(out@ + replace_from(s@, p@, r@, i + 1) =~= start + replace_all(s@, p@, r@));
            }
            i += 1;
        }
    }
    proof {
        assert(replace_from(s@, p@, r@, i as int) =~= Seq::<char>::empty());
        assert(out@ =~= start + replace_all(s@, p@, r@));
    }
}

/// `l` without a final carriage return.
pub open spec fn strip_cr(l: Seq<char>) -> Seq<char> {
    if l.len() > 0 && l.last() == '\r' {
        l.drop_last()
    } else {
        l
    }
}

/// The lines of `s` from position `i` on (`str::lines`): split at each line
/// feed, a carriage return before it dropped; the final line needs no line
/// feed, and none follows a final line feed.
pub open spec fn lines_from(s: Seq<char>, i: int) -> Seq<Seq<char>>
    decreases s.len() - i,
{
    if i < 0 || i >= s.len() {
        Seq::empty()
    } else {
        match find_char_from(s, '\n', i) {
            Some(j) => {
                proof {
                    lemma_find_char_bounds(s, '\n', i);
                }
                seq![strip_cr(s.subrange(i, j))] + lines_from(s, j + 1)
            },
            None => seq![s.subrange(i, s.len() as int)],
        }
    }
}

/// The lines of `s`.
pub open spec fn lines_of(s: Seq<char>) -> Seq<Seq<char>> {
    lines_from(s, 0)
}

/// The lines of a text.
fn split_lines(s: &Vec<char>) -> (r: Vec<Vec<char>>)
    ensures
        r@.map_values(|l: Vec<char>| l@) == lines_of(s@),
{
    let n = s.len();
    let mut r: Vec<Vec<char>> = Vec::new();
    let mut i: usize = 0;
    let mut done = false;
    while i < n && !done
        invariant
            n == s@.len(),
            i <= n,
            done ==> r@.map_values(|l: Vec<char>| l@) == lines_of(s@),
            !done ==> r@.map_values(|l: Vec<char>| l@) + lines_from(s@, i as int) == lines_of(s@),
        decreases (n - i) as int + if done { 0int } else { 1int },
    {
        match find_char(s, '\n', i) {
            Some(j) => {
                let mut end = j;
                if end > i && s[end - 1] == '\r' {
                    end = end - 1;
                }
                let mut line: Vec<char> = Vec::new();
                push_chars(&mut line, &s.as_slice()[i..end]);
                let ghost old_r = r@.map_values(|l: Vec<char>| l@);
                r.push(line);
                proof {
                    assert(line@ =~= strip_cr(s@.subrange(i as int, j as int)));
                    assert(r@.map_values(|l: Vec<char>| l@) =~= old_r.push(line@));
                    assert(r@.map_values(|l: Vec<char>| l@) + lines_from(s@, j + 1) =~= lines_of(s@));
                }
                i = j + 1;
            },
            None => {
                let mut line: Vec<char> = Vec::new();
                push_chars(&mut line, &s.as_slice()[i..n]);
                let ghost old_r = r@.map_values(|l: Vec<char>| l@);
                r.push(line);
                proof {
                    assert(r@.map_values(|l: Vec<char>| l@) =~= old_r.push(line@));
                    assert(r@.map_values(|l: Vec<char>| l@) =~= lines_of(s@));
                }
                done = true;
            },
        }
    }
    proof {
        if !done {
            assert(lines_from(s@, i as int) =~= Seq::<Seq<char>>::empty());
            assert(r@.map_values(|l: Vec<char>| l@) =~= lines_of(s@));
        }
    }
    r
}


/// The position of the first occurrence of `p` in `s` (meaningful where `p`
/// occurs).
pub open spec fn first_at(s: Seq<char>, p: Seq<char>) -> int {
    choose|a: int| occurs_at(s, p, a) && forall|b: int| 0 <= b < a ==> !occurs_at(s, p, b)
}

proof fn lemma_first_at(s: Seq<char>, p: Seq<char>, a: int)
    requires
        occurs_at(s, p, a),
        forall|b: int| 0 <= b < a ==> !occurs_at(s, p, b),
    ensures
        first_at(s, p) == a,
        contains_seq(s, p),
{
    let c = first_at(s, p);
    assert(occurs_at(s, p, c) && forall|b: int| 0 <= b < c ==> !occurs_at(s, p, b));
    if c < a {
        assert(!occurs_at(s, p, c));
    } else if c > a {
        assert(!occurs_at(s, p, a));
    }
}

/// The line starts a list item.
pub open spec fn starts_list(t: Seq<char>) -> bool {
    t.len() > 0 && (t[0] == '*' || t[0] == '-')
}

/// The HTML of a trimmed line that holds `=>` and no backquote.
pub open spec fn math_block_html(t: Seq<char>) -> Seq<char> {
    let a = first_at(t, "=>"@);
    let expr = trim_spec(t.subrange(0, a));
    let val = trim_spec(t.subrange(a + 2, t.len() as int));
    "<div class=\"math-block\"><span class=\"expr\">"@ + inline_from(expr, 0)
        + "</span> <span class=\"arrow\">=&gt;</span> <span class=\""@ + (if contains_seq(
        val,
        "[Error"@,
    ) {
        "val error"@
    } else {
        "val"@
    }) + "\">"@ + inline_from(val, 0) + "</span></div>\n"@
}

/// The HTML of a header line `#` to `####`, if `t` is one.
pub open spec fn heading_html(t: Seq<char>) -> Option<Seq<char>> {
    if has_prefix(t, "# "@) {
        Some("<h1>"@ + inline_from(t.skip(2), 0) + "</h1>\n"@)
    } else if has_prefix(t, "## "@) {
        Some("<h2>"@ + inline_from(t.skip(3), 0) + "</h2>\n"@)
    } else if has_prefix(t, "### "@) {
        Some("<h3>"@ + inline_from(t.skip(4), 0) + "</h3>\n"@)
    } else if has_prefix(t, "#### "@) {
        Some("<h4>"@ + inline_from(t.skip(5), 0) + "</h4>\n"@)
    } else {
        None
    }
}

/// The decimal digit of a header level from one to four.
pub open spec fn level_digit(k: int) -> char {
    if k == 1 {
        '1'
    } else if k == 2 {
        '2'
    } else if k == 3 {
        '3'
    } else {
        '4'
    }
}

/// A header line: `k` characters `#`, a space, then the title `rest`.
pub open spec fn header_line(k: int, rest: Seq<char>) -> Seq<char> {
    Seq::new(k as nat, |i: int| '#') + seq![' '] + rest
}

/// A header line with one to four `#` is exported as the HTML header of
/// that level: `<hk>`, the title's inline HTML, `</hk>` (as a block of the
/// page, whether a list is open or not).
pub proof fn lemma_heading_level(k: int, rest: Seq<char>)
    requires
        1 <= k <= 4,
    ensures
        heading_html(header_line(k, rest)) == Some(
            seq!['<', 'h', level_digit(k), '>'] + inline_from(rest, 0) + seq![
                '<',
                '/',
                'h',
                level_digit(k),
                '>',
                '\n',
            ],
        ),
        forall|open_now: bool|
            #[trigger] block_html(header_line(k, rest), open_now) == (
                seq!['<', 'h', level_digit(k), '>'] + inline_from(rest, 0) + seq![
                    '<',
                    '/',
                    'h',
                    level_digit(k),
                    '>',
                    '\n',
                ],
                open_now,
            ),
{
    reveal_strlit("# ");
    reveal_strlit("## ");
    reveal_strlit("### ");
    reveal_strlit("#### ");
    reveal_strlit("<h1>");
    reveal_strlit("<h2>");
    reveal_strlit("<h3>");
    reveal_strlit("<h4>");
    reveal_strlit("</h1>\n");
    reveal_strlit("</h2>\n");
    reveal_strlit("</h3>\n");
    reveal_strlit("</h4>\n");
    let t = header_line(k, rest);
    assert(t[k] == ' ');
    assert(forall|i: int| 0 <= i < k ==> t[i] == '#');
    assert(t.skip(k + 1) =~= rest);
    if k == 1 {
        assert(t.subrange(0, 2) =~= "# "@);
    } else {
        assert(t.subrange(0, 2) != "# "@) by {
            assert(t.subrange(0, 2)[1] == '#');
        }
        if k == 2 {
            assert(t.subrange(0, 3) =~= "## "@);
        } else {
            assert(t.subrange(0, 3) != "## "@) by {
                assert(t.subrange(0, 3)[2] == '#');
            }
            if k == 3 {
                assert(t.subrange(0, 4) =~= "### "@);
            } else {
                assert(t.subrange(0, 4) != "### "@) by {
                    assert(t.subrange(0, 4)[3] == '#');
                }
                assert(t.subrange(0, 5) =~= "#### "@);
            }
        }
    }
}

proof fn lemma_prefix_mismatch(t: Seq<char>, p: Seq<char>, i: int)
    requires
        0 <= i < p.len(),
        i < t.len(),
        t[i] != p[i],
    ensures
        !has_prefix(t, p),
{
    if p.len() <= t.len() {
        assert(t.subrange(0, p.len() as int)[i] == t[i]);
    }
}

/// `k` characters `#` followed by `c` and `rest` make no header where `c`
/// is neither `#` nor a space (the hashes need a space after them), or
/// where more than four hashes come before the space: the tag level never
/// goes past four, and a line is never a header of fewer hashes than it has.
pub proof fn lemma_not_heading(k: int, c: char, rest: Seq<char>)
    requires
        k >= 1,
        c != '#',
        c != ' ' || k >= 5,
    ensures
        heading_html(Seq::new(k as nat, |i: int| '#') + seq![c] + rest) is None,
{
    reveal_strlit("# ");
    reveal_strlit("## ");
    reveal_strlit("### ");
    reveal_strlit("#### ");
    let t = Seq::new(k as nat, |i: int| '#') + seq![c] + rest;
    assert(t[k] == c);
    assert(forall|i: int| 0 <= i < k ==> t[i] == '#');
    let ps = seq!["# "@, "## "@, "### "@, "#### "@];
    assert forall|j: int| 0 <= j < 4 implies !has_prefix(t, #[trigger] ps[j]) by {
        let m = j + 1;
        let p = ps[j];
        assert(p.len() == m + 1);
        assert(forall|i: int| 0 <= i < m ==> p[i] == '#');
        assert(p[m] == ' ');
        if k < m {
            lemma_prefix_mismatch(t, p, k);
        } else {
            lemma_prefix_mismatch(t, p, m);
        }
    }
    assert(!has_prefix(t, ps[0]));
    assert(!has_prefix(t, ps[1]));
    assert(!has_prefix(t, ps[2]));
    assert(!has_prefix(t, ps[3]));
}

/// The HTML of a non-empty trimmed line and whether a list is open after
/// it, given whether one is open before it (and not closed by this line).
pub open spec fn block_html(t: Seq<char>, open_now: bool) -> (Seq<char>, bool) {
    match heading_html(t) {
        Some(h) => (h, open_now),
        None => if t[0] == '>' {
            ("<blockquote>"@ + inline_from(trim_spec(t.skip(1)), 0) + "</blockquote>\n"@, open_now)
        } else if t == "---"@ || t == "***"@ || t == "___"@ {
            ("<hr/>\n"@, open_now)
        } else if starts_list(t) {
            (
                (if open_now {
                    Seq::empty()
                } else {
                    "<ul>\n"@
                }) + "<li>"@ + inline_from(trim_spec(t.skip(1)), 0) + "</li>\n"@,
                true,
            )
        } else if contains_seq(t, "=>"@) && !contains_seq(t, "`"@) {
            (math_block_html(t), open_now)
        } else {
            ("<p>"@ + inline_from(t, 0) + "</p>\n"@, open_now)
        },
    }
}

/// The HTML of one trimmed line `t`, whether a list is open after it, given
/// whether one was open before it: a line that is no list item closes an
/// open list first.
#[verifier::opaque]
pub open spec fn line_step(t: Seq<char>, in_list: bool) -> (Seq<char>, bool) {
    let close = in_list && !starts_list(t);
    let pre = if close {
        "</ul>\n"@
    } else {
        Seq::empty()
    };
    let open_now = in_list && !close;
    if t.len() == 0 {
        (pre + "<p></p>\n"@, open_now)
    } else {
        let b = block_html(t, open_now);
        (pre + b.0, b.1)
    }
}

/// The HTML body of the lines `ls` from line `k` on, given whether a list is
/// open; an open list is closed at the end.
pub open spec fn body_from(ls: Seq<Seq<char>>, k: int, in_list: bool) -> Seq<char>
    decreases ls.len() - k,
{
    if k < 0 || k >= ls.len() {
        if in_list {
            "</ul>\n"@
        } else {
            Seq::empty()
        }
    } else {
        let step = line_step(trim_spec(ls[k]), in_list);
        step.0 + body_from(ls, k + 1, step.1)
    }
}

/// Appends the HTML of a header line and says whether `t` was one.
#[verifier::rlimit(30)]
fn heading_into(out: &mut Vec<char>, t: &[char]) -> (r: bool)
    ensures
        r == heading_html(t@) is Some,
        r ==> final(out)@ == old(out)@ + heading_html(t@)->0,
        !r ==> final(out)@ == old(out)@,
{
    proof {
        reveal_strlit("# ");
        reveal_strlit("## ");
        reveal_strlit("### ");
        reveal_strlit("#### ");
    }
    let n = t.len();
    if starts_with_str(t, "# ") {
        push_str(out, "<h1>");
        inline_slice_into(out, &t[2..n]);
        push_str(out, "</h1>\n");
        assert(t@.subrange(2, n as int) =~= t@.skip(2));
        assert(final(out)@ =~= old(out)@ + heading_html(t@)->0) by {
            assert(out@ =~= old(out)@ + heading_html(t@)->0);
        }
        return true;
    }
    if starts_with_str(t, "## ") {
        push_str(out, "<h2>");
        inline_slice_into(out, &t[3..n]);
        push_str(out, "</h2>\n");
        assert(t@.subrange(3, n as int) =~= t@.skip(3));
        assert(out@ =~= old(out)@ + heading_html(t@)->0);
        return true;
    }
    if starts_with_str(t, "### ") {
        push_str(out, "<h3>");
        inline_slice_into(out, &t[4..n]);
        push_str(out, "</h3>\n");
        assert(t@.subrange(4, n as int) =~= t@.skip(4));
        assert(out@ =~= old(out)@ + heading_html(t@)->0);
        return true;
    }
    if starts_with_str(t, "#### ") {
        push_str(out, "<h4>");
        inline_slice_into(out, &t[5..n]);
        push_str(out, "</h4>\n");
        assert(t@.subrange(5, n as int) =~= t@.skip(5));
        assert(out@ =~= old(out)@ + heading_html(t@)->0);
        return true;
    }
    false
}

/// Appends the HTML of a math line `expr => value` (holding `=>` and no
/// backquote).
fn math_block_into(out: &mut Vec<char>, t: &[char], a: usize)
    requires
        occurs_at(t@, "=>"@, a as int),
        forall|b: int| 0 <= b < a ==> !occurs_at(t@, "=>"@, b),
    ensures
        final(out)@ == old(out)@ + math_block_html(t@),
{
    proof {
        reveal_strlit("=>");
        lemma_first_at(t@, "=>"@, a as int);
    }
    let n = t.len();
    let expr = trim_char_slice(&t[0..a]);
    let val = trim_char_slice(&t[a + 2..n]);
    push_str(out, "<div class=\"math-block\"><span class=\"expr\">");
    inline_slice_into(out, expr);
    push_str(out, "</span> <span class=\"arrow\">=&gt;</span> <span class=\"");
    if first_occurrence(val, "[Error").is_some() {
        push_str(out, "val error");
    } else {
        push_str(out, "val");
    }
    push_str(out, "\">");
    inline_slice_into(out, val);
    push_str(out, "</span></div>\n");
    assert(out@ =~= old(out)@ + math_block_html(t@));
}

/// Appends the HTML of a non-empty trimmed line and says whether a list is
/// open after it.
#[verifier::rlimit(40)]
fn block_into(out: &mut Vec<char>, t: &[char], open_now: bool) -> (now: bool)
    requires
        t@.len() > 0,
    ensures
        final(out)@ == old(out)@ + block_html(t@, open_now).0,
        now == block_html(t@, open_now).1,
{
    let n = t.len();
    if heading_into(out, t) {
        return open_now;
    }
    if t[0] == '>' {
        push_str(out, "<blockquote>");
        let inner = trim_char_slice(&t[1..n]);
        assert(t@.subrange(1, n as int) =~= t@.skip(1));
        inline_slice_into(out, inner);
        push_str(out, "</blockquote>\n");
        assert(out@ =~= old(out)@ + block_html(t@, open_now).0);
        return open_now;
    }
    if equals_str(t, "---") || equals_str(t, "***") || equals_str(t, "___") {
        push_str(out, "<hr/>\n");
        assert(out@ =~= old(out)@ + block_html(t@, open_now).0);
        return open_now;
    }
    if t[0] == '*' || t[0] == '-' {
        if !open_now {
            push_str(out, "<ul>\n");
        }
        push_str(out, "<li>");
        let inner = trim_char_slice(&t[1..n]);
        assert(t@.subrange(1, n as int) =~= t@.skip(1));
        inline_slice_into(out, inner);
        push_str(out, "</li>\n");
        assert(out@ =~= old(out)@ + block_html(t@, open_now).0);
        return true;
    }
    let arrow = first_occurrence(t, "=>");
    let tick = first_occurrence(t, "`");
    match arrow {
        Some(a) => {
            if tick.is_none() {
                proof {
                    lemma_first_at(t@, "=>"@, a as int);
                }
                math_block_into(out, t, a);
                return open_now;
            }
        },
        None => {},
    }
    push_str(out, "<p>");
    inline_slice_into(out, t);
    push_str(out, "</p>\n");
    assert(out@ =~= old(out)@ + block_html(t@, open_now).0);
    open_now
}

/// Appends the HTML of one trimmed line and says whether a list is open
/// after it.
fn line_into(out: &mut Vec<char>, t: &[char], in_list: bool) -> (now: bool)
    ensures
        final(out)@ == old(out)@ + line_step(t@, in_list).0,
        now == line_step(t@, in_list).1,
{
    proof {
        reveal(line_step);
    }
    let n = t.len();
    let lst = n > 0 && (t[0] == '*' || t[0] == '-');
    let close = in_list && !lst;
    if close {
        push_str(out, "</ul>\n");
    }
    let ghost mid = out@;
    let open_now = in_list && !close;
    if n == 0 {
        push_str(out, "<p></p>\n");
        assert(out@ =~= old(out)@ + line_step(t@, in_list).0);
        return open_now;
    }
    let now = block_into(out, t, open_now);
    assert(out@ =~= old(out)@ + line_step(t@, in_list).0);
    now
}

/// A note as a standalone HTML page: each line of `md` is trimmed and turned
/// into a block (headers `#` to `####`, quotes, rules, list items grouped in
/// one list, math lines `expr => value`, paragraphs, an empty paragraph for a
/// blank line), and the body and `title` are put into the page template.
pub fn markdown_to_html(md: &str, title: &str) -> (r: String)
    ensures
        r@ == replace_all(
            replace_all(HTML_TEMPLATE@, "{title}"@, title@),
            "{content}"@,
            body_from(lines_of(md@), 0, false),
        ),
{
    let mdc = str_to_chars(md);
    let ls = split_lines(&mdc);
    let ghost lsv = ls@.map_values(|l: Vec<char>| l@);
    let mut body: Vec<char> = Vec::new();
    let mut in_list = false;
    let mut k: usize = 0;
    while k < ls.len()
        invariant
            k <= ls@.len(),
            lsv == ls@.map_values(|l: Vec<char>| l@),
            lsv == lines_of(mdc@),
            body@ + body_from(lsv, k as int, in_list) == body_from(lsv, 0, false),
        decreases ls.len() - k,
    {
        let t = trim_char_slice(ls[k].as_slice());
        assert(t@ == trim_spec(lsv[k as int]));
        let ghost before = body@;
        let ghost was = in_list;
        in_list = line_into(&mut body, t, in_list);
        proof {
            assert(body@ + body_from(lsv, k + 1, in_list) =~= before + body_from(lsv, k as int, was));
        }
        k += 1;
    }
    if in_list {
        push_str(&mut body, "</ul>\n");
    }
    proof {
        assert(body@ =~= body_from(lsv, 0, false));
        reveal_strlit("{title}");
        reveal_strlit("{content}");
    }
    let tc = str_to_chars(get_html_template());
    let title_c = str_to_chars(title);
    let p1 = str_to_chars("{title}");
    let mut page1: Vec<char> = Vec::new();
    replace_into(&mut page1, tc.as_slice(), p1.as_slice(), title_c.as_slice());
    let p2 = str_to_chars("{content}");
    let mut page: Vec<char> = Vec::new();
    replace_into(&mut page, page1.as_slice(), p2.as_slice(), body.as_slice());
    proof {
        assert(page1@ =~= replace_all(HTML_TEMPLATE@, "{title}"@, title@));
        assert(page@ =~= replace_all(page1@, "{content}"@, body@));
    }
    chars_to_string(page.as_slice())
}

} // verus!
