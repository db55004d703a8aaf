//! Links in a note line: Markdown links `[text](url)`, parenthesised links
//! `[(url)]`, wiki links `[[Note]]` and raw `http(s)://` URLs, and which one
//! lies under a cursor column.

use crate::text::{
    char_is_whitespace, chars_to_string, has_prefix, starts_with_str, str_to_chars, trim_char_slice,
    trim_spec, unicode_whitespace,
};
use vstd::prelude::*;

verus! {

/// A link found in a line.
#[derive(Clone, Debug, PartialEq, Eq)]
pub enum LinkType {
    Wiki(String),
    Markdown(String),
    RawUrl(String),
}

/// The mathematical view of a link.
pub enum LinkSpec {
    Wiki(Seq<char>),
    Markdown(Seq<char>),
    RawUrl(Seq<char>),
}

impl View for LinkType {
    type V = LinkSpec;

    open spec fn view(&self) -> LinkSpec {
        match self {
            LinkType::Wiki(s) => LinkSpec::Wiki(s@),
            LinkType::Markdown(s) => LinkSpec::Markdown(s@),
            LinkType::RawUrl(s) => LinkSpec::RawUrl(s@),
        }
    }
}

/// First position at or after `i` holding `c`.
pub open spec fn find_char_from(s: Seq<char>, c: char, i: int) -> Option<int>
    decreases s.len() - i,
{
    if i < 0 || i >= s.len() {
        None
    } else if s[i] == c {
        Some(i)
    } else {
        find_char_from(s, c, i + 1)
    }
}

/// First position `k` at or after `i` with `s[k] == a` and `s[k + 1] == b`.
pub open spec fn find_pair_from(s: Seq<char>, a: char, b: char, i: int) -> Option<int>
    decreases s.len() - i,
{
    if i < 0 || i + 1 >= s.len() {
        None
    } else if s[i] == a && s[i + 1] == b {
        Some(i)
    } else {
        find_pair_from(s, a, b, i + 1)
    }
}

/// Where `find_char_from` finds the character, it is at or after `i` and
/// inside `s`.
pub proof fn lemma_find_char_bounds(s: Seq<char>, c: char, i: int)
    ensures
        find_char_from(s, c, i) matches Some(k) ==> i <= k < s.len() && s[k] == c,
    decreases s.len() - i,
{
    if 0 <= i < s.len() && s[i] != c {
        lemma_find_char_bounds(s, c, i + 1);
    }
}

/// Where `find_pair_from` finds the pair, it starts at or after `i` and ends
/// inside `s`.
pub proof fn lemma_find_pair_bounds(s: Seq<char>, a: char, b: char, i: int)
    ensures
        find_pair_from(s, a, b, i) matches Some(k) ==> i <= k && k + 1 < s.len(),
    decreases s.len() - i,
{
    if 0 <= i && i + 1 < s.len() && !(s[i] == a && s[i + 1] == b) {
        lemma_find_pair_bounds(s, a, b, i + 1);
    }
}

/// `url_end_from` stays between `i` and the end of `s`.
pub proof fn lemma_url_end_bounds(s: Seq<char>, i: int)
    requires
        0 <= i <= s.len(),
    ensures
        i <= url_end_from(s, i) <= s.len(),
    decreases s.len() - i,
{
    if i < s.len() && !url_stop(s[i]) {
        lemma_url_end_bounds(s, i + 1);
    }
}

/// `col` lies in `start - tol ..= end + tol` (the start bound saturating at 0).
pub open spec fn near(col: int, start: int, end: int, tol: int) -> bool {
    col >= (if start >= tol { start - tol } else { 0 }) && col <= end + tol
}

/// The Markdown link `[text](url)` near `col`, scanning from `pos`.
pub open spec fn md_link_from(s: Seq<char>, col: int, tol: int, pos: int) -> Option<LinkSpec>
    decreases s.len() - pos,
{
    if pos < 0 || pos >= s.len() {
        None
    } else if s[pos] == '[' {
        match find_char_from(s, ']', pos + 1) {
            Some(cb) => if cb + 1 < s.len() && s[cb + 1] == '(' {
                match find_char_from(s, ')', cb + 2) {
                    Some(cp) => if near(col, pos, cp, tol) {
                        Some(LinkSpec::Markdown(trim_spec(s.subrange(cb + 2, cp))))
                    } else {
                        proof {
                            lemma_find_char_bounds(s, ']', pos + 1);
                            lemma_find_char_bounds(s, ')', cb + 2);
                        }
                        md_link_from(s, col, tol, cp + 1)
                    },
                    None => md_link_from(s, col, tol, pos + 1),
                }
            } else {
                md_link_from(s, col, tol, pos + 1)
            },
            None => md_link_from(s, col, tol, pos + 1),
        }
    } else {
        md_link_from(s, col, tol, pos + 1)
    }
}

/// The parenthesised link `[(url)]` near `col`, scanning from `pos`.
pub open spec fn paren_link_from(s: Seq<char>, col: int, tol: int, pos: int) -> Option<LinkSpec>
    decreases s.len() - pos,
{
    if pos < 0 || pos >= s.len() {
        None
    } else if pos + 1 < s.len() && s[pos] == '[' && s[pos + 1] == '(' {
        match find_pair_from(s, ')', ']', pos + 2) {
            Some(k) => if near(col, pos, k + 1, tol) {
                Some(LinkSpec::Markdown(trim_spec(s.subrange(pos + 2, k))))
            } else {
                proof {
                    lemma_find_pair_bounds(s, ')', ']', pos + 2);
                }
                paren_link_from(s, col, tol, k + 2)
            },
            None => paren_link_from(s, col, tol, pos + 1),
        }
    } else {
        paren_link_from(s, col, tol, pos + 1)
    }
}

/// The wiki link `[[Note]]` near `col`, scanning from `pos`; the scan stops
/// at an unclosed `[[`.
pub open spec fn wiki_link_from(s: Seq<char>, col: int, tol: int, pos: int) -> Option<LinkSpec>
    decreases s.len() - pos,
{
    if pos < 0 || pos >= s.len() {
        None
    } else if pos + 1 < s.len() && s[pos] == '[' && s[pos + 1] == '[' {
        match find_pair_from(s, ']', ']', pos + 2) {
            Some(k) => if near(col, pos, k + 1, tol) {
                Some(LinkSpec::Wiki(trim_spec(s.subrange(pos + 2, k))))
            } else {
                proof {
                    lemma_find_pair_bounds(s, ']', ']', pos + 2);
                }
                wiki_link_from(s, col, tol, k + 2)
            },
            None => None,
        }
    } else {
        wiki_link_from(s, col, tol, pos + 1)
    }
}

/// `s` starts with `http://` or `https://` at `pos`, with at least one more
/// character after the prefix.
pub open spec fn url_starts_at(s: Seq<char>, pos: int) -> bool {
    ||| (pos + 7 < s.len() && s.subrange(pos, pos + 7) == seq!['h', 't', 't', 'p', ':', '/', '/'])
    ||| (pos + 8 < s.len() && pos + 7 < s.len() && s.subrange(pos, pos + 8) == seq![
        'h',
        't',
        't',
        'p',
        's',
        ':',
        '/',
        '/',
    ])
}

/// A character that ends a raw URL.
pub open spec fn url_stop(c: char) -> bool {
    unicode_whitespace(c) || c == ']' || c == ')' || c == '>' || c == '<'
}

/// First position at or after `i` holding a character that ends a URL, or
/// the length of `s`.
pub open spec fn url_end_from(s: Seq<char>, i: int) -> int
    decreases s.len() - i,
{
    if i < 0 || i >= s.len() || url_stop(s[i]) {
        if i < 0 { 0 } else if i > s.len() { s.len() as int } else { i }
    } else {
        url_end_from(s, i + 1)
    }
}

/// Trailing punctuation a URL does not keep.
pub open spec fn url_trailing(c: char) -> bool {
    c == '.' || c == ',' || c == ';' || c == '?' || c == '!'
}

/// `s` without its trailing `.`, `,`, `;`, `?` and `!`.
pub open spec fn strip_url_trailing(s: Seq<char>) -> Seq<char>
    decreases s.len(),
{
    if s.len() > 0 && url_trailing(s.last()) {
        strip_url_trailing(s.drop_last())
    } else {
        s
    }
}

/// The raw URL near `col` (its end exclusive), scanning from `pos`.
pub open spec fn raw_url_from(s: Seq<char>, col: int, tol: int, pos: int) -> Option<LinkSpec>
    decreases s.len() - pos,
{
    if pos < 0 || pos >= s.len() {
        None
    } else if url_starts_at(s, pos) {
        let e = url_end_from(s, pos);
        if col >= (if pos >= tol { pos - tol } else { 0 }) && col < e + tol {
            Some(LinkSpec::RawUrl(strip_url_trailing(s.subrange(pos, e))))
        } else if e > pos {
            proof {
                lemma_url_end_bounds(s, pos);
            }
            raw_url_from(s, col, tol, e)
        } else {
            raw_url_from(s, col, tol, pos + 1)
        }
    } else {
        raw_url_from(s, col, tol, pos + 1)
    }
}

/// The link under `col` with tolerance `tol`: Markdown links first, then
/// parenthesised links, then wiki links, then raw URLs.
pub open spec fn link_under(s: Seq<char>, col: int, tol: int) -> Option<LinkSpec> {
    match md_link_from(s, col, tol, 0) {
        Some(l) => Some(l),
        None => match paren_link_from(s, col, tol, 0) {
            Some(l) => Some(l),
            None => match wiki_link_from(s, col, tol, 0) {
                Some(l) => Some(l),
                None => raw_url_from(s, col, tol, 0),
            },
        },
    }
}

/// The view of an optional link.
pub open spec fn opt_link_view(l: Option<LinkType>) -> Option<LinkSpec> {
    match l {
        Some(x) => Some(x@),
        None => None,
    }
}

pub(crate) fn find_char(s: &Vec<char>, c: char, i: usize) -> (r: Option<usize>)
    ensures
        match r {
            Some(x) => find_char_from(s@, c, i as int) == Some(x as int),
            None => find_char_from(s@, c, i as int) is None,
        },
        r matches Some(k) ==> i <= k < s@.len() && s@[k as int] == c,
{
    let mut k = i;
    while k < s.len()
        invariant
            i <= k,
            find_char_from(s@, c, i as int) == find_char_from(s@, c, k as int),
        decreases s.len() - k,
    {
        if s[k] == c {
            return Some(k);
        }
        k += 1;
    }
    None
}

pub(crate) fn find_pair(s: &Vec<char>, a: char, b: char, i: usize) -> (r: Option<usize>)
    ensures
        match r {
            Some(x) => find_pair_from(s@, a, b, i as int) == Some(x as int),
            None => find_pair_from(s@, a, b, i as int) is None,
        },
        r matches Some(k) ==> i <= k && k + 1 < s@.len(),
{
    let mut k = i;
    while k < s.len() && k + 1 < s.len()
        invariant
            i <= k,
            find_pair_from(s@, a, b, i as int) == find_pair_from(s@, a, b, k as int),
        decreases s.len() - k,
    {
        if s[k] == a && s[k + 1] == b {
            return Some(k);
        }
        k += 1;
    }
    None
}

fn is_near(col: usize, start: usize, end: usize, tol: usize) -> (r: bool)
    ensures
        r == near(col as int, start as int, end as int, tol as int),
{
    let lo = if start >= tol {
        start - tol
    } else {
        0
    };
    col >= lo && (col <= end || col - end <= tol)
}

/// The trimmed text of `s[from..to]`.
fn trimmed(s: &Vec<char>, from: usize, to: usize) -> (r: String)
    requires
        from <= to <= s@.len(),
    ensures
        r@ == trim_spec(s@.subrange(from as int, to as int)),
{
    let t = trim_char_slice(&s.as_slice()[from..to]);
    chars_to_string(t)
}

fn md_link(s: &Vec<char>, col: usize, tol: usize) -> (r: Option<LinkType>)
    ensures
        opt_link_view(r) == md_link_from(s@, col as int, tol as int, 0),
{
    let mut pos: usize = 0;
    while pos < s.len()
        invariant
            md_link_from(s@, col as int, tol as int, 0) == md_link_from(
                s@,
                col as int,
                tol as int,
                pos as int,
            ),
        decreases s.len() - pos,
    {
        if s[pos] == '[' {
            if let Some(cb) = find_char(s, ']', pos + 1) {
                if cb + 1 < s.len() && s[cb + 1] == '(' {
                    if let Some(cp) = find_char(s, ')', cb + 2) {
                        if is_near(col, pos, cp, tol) {
                            return Some(LinkType::Markdown(trimmed(s, cb + 2, cp)));
                        }
                        pos = cp + 1;
                        continue;
                    }
                }
            }
        }
        pos += 1;
    }
    None
}

fn paren_link(s: &Vec<char>, col: usize, tol: usize) -> (r: Option<LinkType>)
    ensures
        opt_link_view(r) == paren_link_from(s@, col as int, tol as int, 0),
{
    let mut pos: usize = 0;
    while pos < s.len()
        invariant
            paren_link_from(s@, col as int, tol as int, 0) == paren_link_from(
                s@,
                col as int,
                tol as int,
                pos as int,
            ),
        decreases s.len() - pos,
    {
        if pos + 1 < s.len() && s[pos] == '[' && s[pos + 1] == '(' {
            if let Some(k) = find_pair(s, ')', ']', pos + 2) {
                if is_near(col, pos, k + 1, tol) {
                    return Some(LinkType::Markdown(trimmed(s, pos + 2, k)));
                }
                pos = k + 2;
                continue;
            }
        }
        pos += 1;
    }
    None
}

fn wiki_link(s: &Vec<char>, col: usize, tol: usize) -> (r: Option<LinkType>)
    ensures
        opt_link_view(r) == wiki_link_from(s@, col as int, tol as int, 0),
{
    let mut pos: usize = 0;
    while pos < s.len()
        invariant
            wiki_link_from(s@, col as int, tol as int, 0) == wiki_link_from(
                s@,
                col as int,
                tol as int,
                pos as int,
            ),
        decreases s.len() - pos,
    {
        if pos + 1 < s.len() && s[pos] == '[' && s[pos + 1] == '[' {
            match find_pair(s, ']', ']', pos + 2) {
                Some(k) => {
                    if is_near(col, pos, k + 1, tol) {
                        return Some(LinkType::Wiki(trimmed(s, pos + 2, k)));
                    }
                    pos = k + 2;
                },
                None => {
                    return None;
                },
            }
        } else {
            pos += 1;
        }
    }
    None
}

pub(crate) fn url_starts(s: &Vec<char>, pos: usize) -> (r: bool)
    ensures
        r == url_starts_at(s@, pos as int),
{
    if pos < s.len() && s.len() - pos > 7 && s[pos] == 'h' && s[pos + 1] == 't' && s[pos + 2]
        == 't' && s[pos + 3] == 'p' {
        let http = s[pos + 4] == ':' && s[pos + 5] == '/' && s[pos + 6] == '/';
        let https = s.len() - pos > 8 && s[pos + 4] == 's' && s[pos + 5] == ':' && s[pos + 6]
            == '/' && s[pos + 7] == '/';
        proof {
            let h7 = seq!['h', 't', 't', 'p', ':', '/', '/'];
            let h8 = seq!['h', 't', 't', 'p', 's', ':', '/', '/'];
            if http {
                assert(s@.subrange(pos as int, pos + 7) =~= h7);
            } else {
                assert(s@.subrange(pos as int, pos + 7) != h7) by {
                    if s@.subrange(pos as int, pos + 7) == h7 {
                        assert(s@.subrange(pos as int, pos + 7)[4] == h7[4]);
                        assert(s@.subrange(pos as int, pos + 7)[5] == h7[5]);
                        assert(s@.subrange(pos as int, pos + 7)[6] == h7[6]);
                    }
                }
            }
            if https {
                assert(s@.subrange(pos as int, pos + 8) =~= h8);
            } else if pos + 8 < s@.len() {
                assert(s@.subrange(pos as int, pos + 8) != h8) by {
                    if s@.subrange(pos as int, pos + 8) == h8 {
                        assert(s@.subrange(pos as int, pos + 8)[4] == h8[4]);
                        assert(s@.subrange(pos as int, pos + 8)[5] == h8[5]);
                        assert(s@.subrange(pos as int, pos + 8)[6] == h8[6]);
                        assert(s@.subrange(pos as int, pos + 8)[7] == h8[7]);
                    }
                }
            }
        }
        http || https
    } else {
        proof {
            let h7 = seq!['h', 't', 't', 'p', ':', '/', '/'];
            let h8 = seq!['h', 't', 't', 'p', 's', ':', '/', '/'];
            if pos + 7 < s@.len() {
                assert(s@.subrange(pos as int, pos + 7) != h7) by {
                    if s@.subrange(pos as int, pos + 7) == h7 {
                        assert(s@.subrange(pos as int, pos + 7)[0] == h7[0]);
                        assert(s@.subrange(pos as int, pos + 7)[1] == h7[1]);
                        assert(s@.subrange(pos as int, pos + 7)[2] == h7[2]);
                        assert(s@.subrange(pos as int, pos + 7)[3] == h7[3]);
                    }
                }
                if pos + 8 < s@.len() {
                    assert(s@.subrange(pos as int, pos + 8) != h8) by {
                        if s@.subrange(pos as int, pos + 8) == h8 {
                            assert(s@.subrange(pos as int, pos + 8)[0] == h8[0]);
                            assert(s@.subrange(pos as int, pos + 8)[1] == h8[1]);
                            assert(s@.subrange(pos as int, pos + 8)[2] == h8[2]);
                            assert(s@.subrange(pos as int, pos + 8)[3] == h8[3]);
                        }
                    }
                }
            }
        }
        false
    }
}

pub(crate) fn url_end(s: &Vec<char>, i: usize) -> (r: usize)
    requires
        i <= s@.len(),
    ensures
        r == url_end_from(s@, i as int),
        i <= r <= s@.len(),
{
    let mut k = i;
    while k < s.len()
        invariant
            i <= k <= s@.len(),
            url_end_from(s@, i as int) == url_end_from(s@, k as int),
        decreases s.len() - k,
    {
        let c = s[k];
        if char_is_whitespace(c) || c == ']' || c == ')' || c == '>' || c == '<' {
            return k;
        }
        k += 1;
    }
    k
}

fn raw_url(s: &Vec<char>, col: usize, tol: usize) -> (r: Option<LinkType>)
    ensures
        opt_link_view(r) == raw_url_from(s@, col as int, tol as int, 0),
{
    let mut pos: usize = 0;
    while pos < s.len()
        invariant
            raw_url_from(s@, col as int, tol as int, 0) == raw_url_from(
                s@,
                col as int,
                tol as int,
                pos as int,
            ),
        decreases s.len() - pos,
    {
        if url_starts(s, pos) {
            let e = url_end(s, pos);
            let lo = if pos >= tol {
                pos - tol
            } else {
                0
            };
            if col >= lo && (col < e || col - e < tol) {
                let mut end = e;
                while end > pos && (s[end - 1] == '.' || s[end - 1] == ',' || s[end - 1] == ';'
                    || s[end - 1] == '?' || s[end - 1] == '!')
                    invariant
                        pos <= end <= e <= s@.len(),
                        strip_url_trailing(s@.subrange(pos as int, e as int)) == strip_url_trailing(
                            s@.subrange(pos as int, end as int),
                        ),
                    decreases end,
                {
                    proof {
                        assert(s@.subrange(pos as int, end as int).drop_last() =~= s@.subrange(
                            pos as int,
                            end - 1,
                        ));
                    }
                    end -= 1;
                }
                let url = chars_to_string(&s.as_slice()[pos..end]);
                return Some(LinkType::RawUrl(url));
            }
            if e > pos {
                pos = e;
            } else {
                pos += 1;
            }
        } else {
            pos += 1;
        }
    }
    None
}

/// The link whose span, widened by `tolerance` columns on each side, holds
/// column `col` of `line`. Markdown links are tried first, then
/// parenthesised links, then wiki links, then raw URLs.
pub fn get_any_link_under_cursor_with_tolerance(line: &str, col: usize, tolerance: usize) -> (r:
    Option<LinkType>)
    ensures
        opt_link_view(r) == link_under(line@, col as int, tolerance as int),
{
    let s = str_to_chars(line);
    if let Some(l) = md_link(&s, col, tolerance) {
        return Some(l);
    }
    if let Some(l) = paren_link(&s, col, tolerance) {
        return Some(l);
    }
    if let Some(l) = wiki_link(&s, col, tolerance) {
        return Some(l);
    }
    raw_url(&s, col, tolerance)
}

/// The link exactly under column `col` of `line`, or failing that the one
/// within three columns of it.
pub fn get_any_link_under_cursor(line: &str, col: usize) -> (r: Option<LinkType>)
    ensures
        opt_link_view(r) == match link_under(line@, col as int, 0) {
            Some(l) => Some(l),
            None => link_under(line@, col as int, 3),
        },
{
    if let Some(l) = get_any_link_under_cursor_with_tolerance(line, col, 0) {
        return Some(l);
    }
    get_any_link_under_cursor_with_tolerance(line, col, 3)
}

/// Where a Markdown link or a raw URL points.
#[derive(Clone, Debug, PartialEq, Eq)]
pub enum LinkTarget {
    /// An `http://` or `https://` address, opened by the system.
    Web(String),
    /// A file path, relative to the note or absolute.
    Local(String),
}

/// `s` with every leading copy of `p` removed (`str::trim_start_matches`).
pub open spec fn strip_all_prefix(s: Seq<char>, p: Seq<char>) -> Seq<char>
    decreases s.len(),
{
    if p.len() > 0 && has_prefix(s, p) {
        strip_all_prefix(s.skip(p.len() as int), p)
    } else {
        s
    }
}

/// The kind of a link target: a web address, or a local path with any
/// `file://` prefixes removed; the flag says whether it is a web address.
pub open spec fn link_target_spec(t: Seq<char>) -> (bool, Seq<char>) {
    if has_prefix(t, "http://"@) || has_prefix(t, "https://"@) {
        (true, t)
    } else {
        (false, strip_all_prefix(t, "file://"@))
    }
}

/// The view of a link target.
pub open spec fn link_target_view(l: LinkTarget) -> (bool, Seq<char>) {
    match l {
        LinkTarget::Web(u) => (true, u@),
        LinkTarget::Local(p) => (false, p@),
    }
}

/// Classifies the target of a Markdown link or raw URL (see
/// `link_target_spec`).
pub fn classify_link_target(target: &str) -> (r: LinkTarget)
    ensures
        link_target_view(r) == link_target_spec(target@),
{
    let t = str_to_chars(target);
    if starts_with_str(t.as_slice(), "http://") || starts_with_str(t.as_slice(), "https://") {
        return LinkTarget::Web(chars_to_string(t.as_slice()));
    }
    let p = str_to_chars("file://");
    let mut i: usize = 0;
    let n = t.len();
    proof {
        reveal_strlit("file://");
        assert(t@.skip(0) =~= t@);
    }
    while n - i >= 7 && crate::text::matches_at(t.as_slice(), p.as_slice(), i)
        invariant
            i <= n,
            n == t@.len(),
            p@ == "file://"@,
            p@.len() == 7,
            strip_all_prefix(t@.skip(i as int), p@) == strip_all_prefix(t@, p@),
        decreases n - i,
    {
        proof {
            let rest = t@.skip(i as int);
            assert(rest.subrange(0, 7) =~= t@.subrange(i as int, i + 7));
            assert(rest.skip(7) =~= t@.skip(i + 7));
        }
        i = i + 7;
    }
    proof {
        let rest = t@.skip(i as int);
        if has_prefix(rest, p@) {
            assert(rest.subrange(0, 7) =~= t@.subrange(i as int, i + 7));
        }
    }
    LinkTarget::Local(chars_to_string(&t.as_slice()[i..n]))
}

} // verus!
