//! Character classification and small text helpers shared by the editor,
//! the Markdown tools and the highlighter.
//!
//! White space follows the Unicode `White_Space` property, written out
//! below. The other Unicode classifications are done by the standard
//! library; the wrappers below name what it returns and state the ASCII
//! facts that its documentation gives.

use vstd::prelude::*;
use vstd::std_specs::iter::IteratorSpec;

verus! {

/// `c` is an ASCII letter.
pub open spec fn is_ascii_letter(c: char) -> bool {
    ('a' <= c && c <= 'z') || ('A' <= c && c <= 'Z')
}

/// `c` is an ASCII decimal digit.
pub open spec fn is_ascii_digit_spec(c: char) -> bool {
    '0' <= c && c <= '9'
}

/// `c` has the Unicode `White_Space` property, which `char::is_whitespace`
/// tests: the ASCII controls tab to carriage return, space, next line,
/// no-break space, Ogham space mark, the spaces U+2000 to U+200A, line and
/// paragraph separator, narrow no-break space, medium mathematical space
/// and ideographic space.
pub open spec fn unicode_whitespace(c: char) -> bool {
    let v = c as u32;
    (0x09 <= v <= 0x0d) || v == 0x20 || v == 0x85 || v == 0xa0 || v == 0x1680 || (0x2000 <= v
        <= 0x200a) || v == 0x2028 || v == 0x2029 || v == 0x202f || v == 0x205f || v == 0x3000
}

/// What `char::is_alphanumeric` returns for `c`.
pub uninterp spec fn unicode_alphanumeric(c: char) -> bool;

/// What `char::is_alphabetic` returns for `c`.
pub uninterp spec fn unicode_alphabetic(c: char) -> bool;

/// What `char::is_uppercase` returns for `c`.
pub uninterp spec fn unicode_uppercase(c: char) -> bool;

/// The first character of `char::to_lowercase(c)`, or `c` when it is empty.
pub uninterp spec fn lowercase_first(c: char) -> char;

/// The first character of `char::to_uppercase(c)`, or `c` when it is empty.
pub uninterp spec fn uppercase_first(c: char) -> char;

/// `c` is white space (as `char::is_whitespace` decides, see
/// `unicode_whitespace`).
pub(crate) fn char_is_whitespace(c: char) -> (r: bool)
    ensures
        r == unicode_whitespace(c),
        (c == ' ' || c == '\t' || c == '\n' || c == '\r') ==> r,
        (is_ascii_letter(c) || is_ascii_digit_spec(c)) ==> !r,
{
    let v = c as u32;
    (0x09 <= v && v <= 0x0d) || v == 0x20 || v == 0x85 || v == 0xa0 || v == 0x1680 || (0x2000 <= v
        && v <= 0x200a) || v == 0x2028 || v == 0x2029 || v == 0x202f || v == 0x205f || v == 0x3000
}

/// Calls `char::is_alphanumeric`. Std documents it as `is_alphabetic() ||
/// is_numeric()`; the contract states the name of the result and that ASCII
/// letters and digits are alphanumeric while ASCII white space is not.
#[verifier::external_body]
pub(crate) fn char_is_alphanumeric(c: char) -> (r: bool)
    ensures
        r == unicode_alphanumeric(c),
        (is_ascii_letter(c) || is_ascii_digit_spec(c)) ==> r,
        (c == ' ' || c == '\t' || c == '\n' || c == '\r') ==> !r,
{
    c.is_alphanumeric()
}

/// Calls `char::is_alphabetic`. The contract states the name of the result
/// and that ASCII letters are alphabetic while ASCII digits and white space
/// are not.
#[verifier::external_body]
pub(crate) fn char_is_alphabetic(c: char) -> (r: bool)
    ensures
        r == unicode_alphabetic(c),
        is_ascii_letter(c) ==> r,
        (is_ascii_digit_spec(c) || c == ' ' || c == '\t' || c == '\n' || c == '\r') ==> !r,
{
    c.is_alphabetic()
}

/// Calls `char::is_uppercase`. The contract states the name of the result and
/// that, among ASCII characters, exactly `A`..=`Z` are upper case.
#[verifier::external_body]
pub(crate) fn char_is_uppercase(c: char) -> (r: bool)
    ensures
        r == unicode_uppercase(c),
        (c as u32) < 128 ==> (r <==> ('A' <= c && c <= 'Z')),
{
    c.is_uppercase()
}

/// Takes the first character that `char::to_lowercase` yields, or `c` when it
/// yields none. For ASCII characters std documents the mapping: `A`..=`Z` map
/// to `a`..=`z`, every other ASCII character maps to itself.
#[verifier::external_body]
pub(crate) fn char_lowercase_first(c: char) -> (r: char)
    ensures
        r == lowercase_first(c),
        ('A' <= c && c <= 'Z') ==> r as u32 == c as u32 + 32,
        ((c as u32) < 128 && !('A' <= c && c <= 'Z')) ==> r == c,
{
    c.to_lowercase().next().unwrap_or(c)
}

/// Takes the first character that `char::to_uppercase` yields, or `c` when it
/// yields none. For ASCII characters std documents the mapping: `a`..=`z` map
/// to `A`..=`Z`, every other ASCII character maps to itself.
#[verifier::external_body]
pub(crate) fn char_uppercase_first(c: char) -> (r: char)
    ensures
        r == uppercase_first(c),
        ('a' <= c && c <= 'z') ==> r as u32 + 32 == c as u32,
        ((c as u32) < 128 && !('a' <= c && c <= 'z')) ==> r == c,
{
    c.to_uppercase().next().unwrap_or(c)
}

/// Collects the characters of a string slice.
pub(crate) fn str_to_chars(s: &str) -> (v: Vec<char>)
    ensures
        v@ == s@,
{
    broadcast use vstd::string::axiom_spec_iter, vstd::string::next_postcondition;

    let mut v: Vec<char> = Vec::new();
    let mut it = s.chars();
    loop
        invariant
            it.obeys_prophetic_iter_laws(),
            it.decrease() is Some,
            v@ + it.remaining() == s@,
        ensures
            v@ == s@,
        decreases it.decrease()->0,
    {
        match it.next() {
            Some(c) => {
                v.push(c);
            },
            None => {
                assert(v@ =~= s@);
                break;
            },
        }
    }
    v
}

/// Builds a `String` from characters.
#[verifier::external_body]
pub(crate) fn chars_to_string(v: &[char]) -> (s: String)
    ensures
        s@ == v@,
{
    v.iter().collect()
}

/// `c` is an ASCII decimal digit (`char::is_ascii_digit`).
pub fn is_ascii_digit(c: char) -> (r: bool)
    ensures
        r == is_ascii_digit_spec(c),
{
    '0' <= c && c <= '9'
}

/// Number of leading characters of `s` that are white space.
pub open spec fn leading_ws(s: Seq<char>) -> nat
    decreases s.len(),
{
    if s.len() > 0 && unicode_whitespace(s[0]) {
        1 + leading_ws(s.drop_first())
    } else {
        0
    }
}

/// Number of trailing characters of `s` that are white space.
pub open spec fn trailing_ws(s: Seq<char>) -> nat
    decreases s.len(),
{
    if s.len() > 0 && unicode_whitespace(s.last()) {
        1 + trailing_ws(s.drop_last())
    } else {
        0
    }
}

/// `s` without its leading white space.
pub open spec fn trim_start_spec(s: Seq<char>) -> Seq<char> {
    s.skip(leading_ws(s) as int)
}

/// `s` without its leading and trailing white space.
pub open spec fn trim_spec(s: Seq<char>) -> Seq<char> {
    let t = trim_start_spec(s);
    t.take(t.len() - trailing_ws(t))
}

proof fn lemma_leading_ws(s: Seq<char>, i: int)
    requires
        0 <= i <= s.len(),
        forall|j: int| 0 <= j < i ==> unicode_whitespace(#[trigger] s[j]),
        i == s.len() || !unicode_whitespace(s[i]),
    ensures
        leading_ws(s) == i,
    decreases s.len(),
{
    if i > 0 {
        assert forall|j: int| 0 <= j < i - 1 implies unicode_whitespace(
            #[trigger] s.drop_first()[j],
        ) by {
            assert(s.drop_first()[j] == s[j + 1]);
        }
        lemma_leading_ws(s.drop_first(), i - 1);
    }
}

proof fn lemma_trailing_ws(s: Seq<char>, k: int)
    requires
        0 <= k <= s.len(),
        forall|j: int| s.len() - k <= j < s.len() ==> unicode_whitespace(#[trigger] s[j]),
        k == s.len() || !unicode_whitespace(s[s.len() - k - 1]),
    ensures
        trailing_ws(s) == k,
    decreases s.len(),
{
    if k > 0 {
        let d = s.drop_last();
        assert forall|j: int| d.len() - (k - 1) <= j < d.len() implies unicode_whitespace(
            #[trigger] d[j],
        ) by {
            assert(d[j] == s[j]);
        }
        if k - 1 < d.len() {
            assert(d[d.len() - (k - 1) - 1] == s[s.len() - k - 1]);
        }
        lemma_trailing_ws(d, k - 1);
    }
}

/// Index of the first character of `line` that is not white space.
pub(crate) fn first_non_ws(line: &[char]) -> (i: usize)
    ensures
        i == leading_ws(line@),
        i <= line@.len(),
{
    let mut i: usize = 0;
    let mut done = false;
    while i < line.len() && !done
        invariant
            i <= line@.len(),
            forall|j: int| 0 <= j < i ==> unicode_whitespace(#[trigger] line@[j]),
            done ==> i < line@.len() && !unicode_whitespace(line@[i as int]),
        decreases (line.len() - i) as int + if done { 0int } else { 1int },
    {
        if char_is_whitespace(line[i]) {
            i += 1;
        } else {
            done = true;
        }
    }
    proof {
        lemma_leading_ws(line@, i as int);
    }
    i
}

/// `line` without its leading and trailing white space.
pub fn trim_char_slice(line: &[char]) -> (r: &[char])
    ensures
        r@ == trim_spec(line@),
{
    let start = first_non_ws(line);
    let mut end: usize = line.len();
    let mut done = false;
    while end > start && !done
        invariant
            start <= end <= line@.len(),
            start == leading_ws(line@),
            forall|j: int| end <= j < line@.len() ==> unicode_whitespace(#[trigger] line@[j]),
            done ==> end > start && !unicode_whitespace(line@[end - 1]),
        decreases end as int + if done { 0int } else { 1int },
    {
        if char_is_whitespace(line[end - 1]) {
            end -= 1;
        } else {
            done = true;
        }
    }
    let r = &line[start..end];
    proof {
        let t = trim_start_spec(line@);
        assert(t =~= line@.skip(start as int));
        let k = (line@.len() - end) as int;
        assert forall|j: int| t.len() - k <= j < t.len() implies unicode_whitespace(
            #[trigger] t[j],
        ) by {
            assert(t[j] == line@[j + start]);
        }
        if k < t.len() {
            assert(t[t.len() - k - 1] == line@[end - 1]);
            if end == start {
                assert(start < line@.len());
                assert(!unicode_whitespace(line@[start as int])) by {
                    reveal_with_fuel(leading_ws, 2);
                    lemma_leading_ws(line@, start as int);
                }
                assert(false);
            }
        }
        lemma_trailing_ws(t, k);
        assert(r@ =~= t.take(t.len() - k));
    }
    r
}

/// `line` without its leading white space.
pub fn trim_start_slice(line: &[char]) -> (r: &[char])
    ensures
        r@ == trim_start_spec(line@),
{
    let start = first_non_ws(line);
    &line[start..line.len()]
}

/// `needle` occurs in `hay` at position `i`.
pub open spec fn occurs_at(hay: Seq<char>, needle: Seq<char>, i: int) -> bool {
    0 <= i && i + needle.len() <= hay.len() && hay.subrange(i, i + needle.len()) == needle
}

pub(crate) fn matches_at(hay: &[char], needle: &[char], i: usize) -> (r: bool)
    requires
        i + needle@.len() <= hay@.len(),
    ensures
        r == occurs_at(hay@, needle@, i as int),
{
    let mut k: usize = 0;
    while k < needle.len()
        invariant
            k <= needle@.len(),
            i + needle@.len() <= hay@.len(),
            hay@.len() == hay.len(),
            needle@.len() == needle.len(),
            forall|j: int| 0 <= j < k ==> hay@[i + j] == needle@[j],
        decreases needle.len() - k,
    {
        if hay[i + k] != needle[k] {
            assert(hay@.subrange(i as int, i + needle@.len())[k as int] != needle@[k as int]);
            return false;
        }
        k += 1;
    }
    assert(hay@.subrange(i as int, i + needle@.len()) =~= needle@);
    true
}

/// Search of `needle` in `hay` from position `start`. The result is the least
/// such position.
pub fn find_chars_from(hay: &[char], needle: &[char], start: usize) -> (r: Option<usize>)
    ensures
        start >= hay@.len() ==> r is None,
        start < hay@.len() ==> match r {
            Some(p) => start <= p && occurs_at(hay@, needle@, p as int) && forall|j: int|
                start <= j < p ==> !occurs_at(hay@, needle@, j),
            None => forall|j: int| start <= j ==> !occurs_at(hay@, needle@, j),
        },
{
    if start >= hay.len() {
        return None;
    }
    if needle.len() > hay.len() {
        return None;
    }
    let last = hay.len() - needle.len();
    if start > last {
        return None;
    }
    let mut i = start;
    while i < last
        invariant
            start <= i,
            start < hay@.len(),
            i <= last,
            last + needle@.len() == hay@.len(),
            forall|j: int| start <= j < i ==> !occurs_at(hay@, needle@, j),
        decreases last - i,
    {
        if matches_at(hay, needle, i) {
            return Some(i);
        }
        i += 1;
    }
    if i == last && matches_at(hay, needle, last) {
        return Some(last);
    }
    None
}

/// Position of the first occurrence of `sub` in `chars` (`Some(0)` for an
/// empty `sub`).
pub fn find_in_chars(chars: &[char], sub: &str) -> (r: Option<usize>)
    ensures
        match r {
            Some(p) => occurs_at(chars@, sub@, p as int) && forall|j: int|
                0 <= j < p ==> !occurs_at(chars@, sub@, j),
            None => forall|j: int| 0 <= j ==> !occurs_at(chars@, sub@, j),
        },
{
    let sub_chars = str_to_chars(sub);
    if sub_chars.len() == 0 {
        assert(occurs_at(chars@, sub@, 0)) by {
            assert(chars@.subrange(0, 0) =~= sub@);
        }
        return Some(0);
    }
    if chars.len() == 0 {
        return None;
    }
    find_chars_from(chars, sub_chars.as_slice(), 0)
}

/// Position of the first occurrence of `sub` in `chars` at or after
/// `start_idx`; `None` when `start_idx` is past the end.
pub fn find_in_chars_from(chars: &[char], sub: &str, start_idx: usize) -> (r: Option<usize>)
    ensures
        start_idx >= chars@.len() ==> r is None,
        start_idx < chars@.len() ==> match r {
            Some(p) => start_idx <= p && occurs_at(chars@, sub@, p as int) && forall|j: int|
                start_idx <= j < p ==> !occurs_at(chars@, sub@, j),
            None => forall|j: int| start_idx <= j ==> !occurs_at(chars@, sub@, j),
        },
{
    let sub_chars = str_to_chars(sub);
    find_chars_from(chars, sub_chars.as_slice(), start_idx)
}


/// `p` is a prefix of `s`.
pub open spec fn has_prefix(s: Seq<char>, p: Seq<char>) -> bool {
    p.len() <= s.len() && s.subrange(0, p.len() as int) == p
}

/// `t` starts with `p`.
pub(crate) fn starts_with_str(t: &[char], p: &str) -> (r: bool)
    ensures
        r == has_prefix(t@, p@),
{
    let pc = str_to_chars(p);
    if pc.len() > t.len() {
        return false;
    }
    matches_at(t, pc.as_slice(), 0)
}

/// `t` is `p`.
pub(crate) fn equals_str(t: &[char], p: &str) -> (r: bool)
    ensures
        r == (t@ == p@),
{
    let pc = str_to_chars(p);
    if pc.len() != t.len() {
        return false;
    }
    let m = matches_at(t, pc.as_slice(), 0);
    proof {
        assert(t@.subrange(0, t@.len() as int) =~= t@);
    }
    m
}


/// Appends the characters of `s`.
pub(crate) fn push_str(out: &mut Vec<char>, s: &str)
    ensures
        final(out)@ == old(out)@ + s@,
{
    let cs = str_to_chars(s);
    push_chars(out, cs.as_slice());
}

/// Appends characters.
pub(crate) fn push_chars(out: &mut Vec<char>, cs: &[char])
    ensures
        final(out)@ == old(out)@ + cs@,
{
    let mut i: usize = 0;
    while i < cs.len()
        invariant
            i <= cs@.len(),
            out@ == old(out)@ + cs@.take(i as int),
        decreases cs.len() - i,
    {
        out.push(cs[i]);
        i += 1;
        proof {
            assert(out@ =~= old(out)@ + cs@.take(i as int));
        }
    }
    proof {
        assert(cs@.take(cs@.len() as int) =~= cs@);
    }
}

} // verus!
