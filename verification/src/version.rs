//! Release version numbers `major.minor.patch`, and the update check:
//! reading the published version out of the crates.io reply and comparing
//! it with the running one.

use crate::text::{chars_to_string, is_ascii_digit, is_ascii_digit_spec, str_to_chars, trim_char_slice, trim_spec};
use vstd::prelude::*;

verus! {

/// The pieces of `s` between the separators `sep`, left to right, as
/// `str::split` yields them: there is always one piece more than there are
/// separators.
pub open spec fn split_pieces(s: Seq<char>, sep: char) -> Seq<Seq<char>>
    decreases s.len(),
{
    if s.len() == 0 {
        seq![Seq::<char>::empty()]
    } else {
        let p = split_pieces(s.drop_last(), sep);
        if s.last() == sep {
            p.push(Seq::<char>::empty())
        } else {
            p.update(p.len() - 1, p.last().push(s.last()))
        }
    }
}

/// The value of a string of decimal digits.
pub open spec fn decimal_value(d: Seq<char>) -> int
    decreases d.len(),
{
    if d.len() == 0 {
        0
    } else {
        decimal_value(d.drop_last()) * 10 + (d.last() as int - '0' as int)
    }
}

/// Every character of `d` is an ASCII digit.
pub open spec fn all_digits(d: Seq<char>) -> bool {
    forall|i: int| 0 <= i < d.len() ==> is_ascii_digit_spec(#[trigger] d[i])
}

/// What `str::parse::<u32>` gives for `s`: an optional leading `+`, then
/// one or more ASCII digits whose value fits in a `u32`.
pub open spec fn parse_u32_spec(s: Seq<char>) -> Option<u32> {
    let d = if s.len() > 0 && s[0] == '+' { s.drop_first() } else { s };
    if d.len() > 0 && all_digits(d) && decimal_value(d) <= u32::MAX {
        Some(decimal_value(d) as u32)
    } else {
        None
    }
}

/// The pieces that parse as `u32`, parsed, in order (the others are dropped).
pub open spec fn parsed_parts(ps: Seq<Seq<char>>) -> Seq<u32>
    decreases ps.len(),
{
    if ps.len() == 0 {
        Seq::<u32>::empty()
    } else {
        let r = parsed_parts(ps.drop_last());
        match parse_u32_spec(ps.last()) {
            Some(v) => r.push(v),
            None => r,
        }
    }
}

/// The numbers of a version string: its dot-separated pieces that parse.
pub open spec fn version_numbers(s: Seq<char>) -> Seq<u32> {
    parsed_parts(split_pieces(s, '.'))
}

/// `r` is greater than `l` in the order of their first three numbers.
pub open spec fn greater3(r: Seq<u32>, l: Seq<u32>) -> bool {
    r[0] > l[0] || (r[0] == l[0] && (r[1] > l[1] || (r[1] == l[1] && r[2] > l[2])))
}

/// `remote` is a newer release than `local`: both have exactly three
/// numbers, and `remote`'s come later in lexicographic order.
pub open spec fn is_newer_version_spec(local: Seq<char>, remote: Seq<char>) -> bool {
    let l = version_numbers(local);
    let r = version_numbers(remote);
    l.len() == 3 && r.len() == 3 && greater3(r, l)
}

proof fn lemma_split_nonempty(s: Seq<char>, sep: char)
    ensures
        split_pieces(s, sep).len() >= 1,
    decreases s.len(),
{
    if s.len() > 0 {
        lemma_split_nonempty(s.drop_last(), sep);
    }
}

/// Parses a piece of a version string as `str::parse::<u32>` does.
pub fn parse_u32(s: &[char]) -> (r: Option<u32>)
    ensures
        r == parse_u32_spec(s@),
{
    let start: usize = if s.len() > 0 && s[0] == '+' { 1 } else { 0 };
    let ghost d = if s@.len() > 0 && s@[0] == '+' { s@.drop_first() } else { s@ };
    assert(d =~= s@.skip(start as int));
    if start >= s.len() {
        return None;
    }
    let mut value: u64 = 0;
    let mut i: usize = start;
    while i < s.len()
        invariant
            start <= i <= s@.len(),
            d == (if s@.len() > 0 && s@[0] == '+' { s@.drop_first() } else { s@ }),
            d =~= s@.skip(start as int),
            all_digits(s@.subrange(start as int, i as int)),
            value as int == if decimal_value(s@.subrange(start as int, i as int)) <= u32::MAX {
                decimal_value(s@.subrange(start as int, i as int))
            } else {
                u32::MAX + 1
            },
            decimal_value(s@.subrange(start as int, i as int)) >= 0,
        decreases s.len() - i,
    {
        let c = s[i];
        if !is_ascii_digit(c) {
            assert(!all_digits(d)) by {
                assert(d[i - start] == c);
            }
            return None;
        }
        let ghost prev = s@.subrange(start as int, i as int);
        let ghost next = s@.subrange(start as int, i + 1);
        assert(next.drop_last() =~= prev);
        assert(next.last() == c);
        let dg: u64 = (c as u32 - '0' as u32) as u64;
        let nv: u64 = value * 10 + dg;
        value = if nv > 4294967296 { 4294967296 } else { nv };
        i += 1;
        assert(all_digits(next)) by {
            assert forall|j: int| 0 <= j < next.len() implies is_ascii_digit_spec(#[trigger] next[j]) by {
                if j < prev.len() {
                    assert(next[j] == prev[j]);
                }
            }
        }
    }
    assert(s@.subrange(start as int, s@.len() as int) =~= d);
    if value > 4294967295 {
        None
    } else {
        Some(value as u32)
    }
}

/// The numbers of a version string (see `version_numbers`).
pub fn version_parts(s: &str) -> (r: Vec<u32>)
    ensures
        r@ == version_numbers(s@),
{
    let cs = str_to_chars(s);
    let mut out: Vec<u32> = Vec::new();
    let mut cur: Vec<char> = Vec::new();
    let mut i: usize = 0;
    proof {
        assert(cs@.take(0) =~= Seq::<char>::empty());
        assert(split_pieces(Seq::<char>::empty(), '.').drop_last() =~= Seq::<Seq<char>>::empty());
    }
    while i < cs.len()
        invariant
            i <= cs@.len(),
            cs@ == s@,
            split_pieces(cs@.take(i as int), '.').len() >= 1,
            out@ == parsed_parts(split_pieces(cs@.take(i as int), '.').drop_last()),
            cur@ == split_pieces(cs@.take(i as int), '.').last(),
        decreases cs.len() - i,
    {
        let ghost p = split_pieces(cs@.take(i as int), '.');
        let ghost t = cs@.take(i + 1);
        assert(t.drop_last() =~= cs@.take(i as int));
        assert(t.last() == cs@[i as int]);
        let c = cs[i];
        if c == '.' {
            let v = parse_u32(cur.as_slice());
            match v {
                Some(n) => out.push(n),
                None => {},
            }
            cur = Vec::new();
            proof {
                let q = split_pieces(t, '.');
                assert(q == p.push(Seq::<char>::empty()));
                assert(q.drop_last() =~= p);
                assert(p.drop_last().push(p.last()) =~= p);
                assert(cur@ =~= q.last());
            }
        } else {
            cur.push(c);
            proof {
                let q = split_pieces(t, '.');
                assert(q == p.update(p.len() - 1, p.last().push(c)));
                assert(q.drop_last() =~= p.drop_last());
            }
        }
        i += 1;
    }
    let v = parse_u32(cur.as_slice());
    match v {
        Some(n) => out.push(n),
        None => {},
    }
    proof {
        let p = split_pieces(cs@.take(i as int), '.');
        assert(cs@.take(i as int) =~= s@);
        assert(p.drop_last().push(p.last()) =~= p);
    }
    out
}

/// Whether `remote` is a newer release than `local` (see
/// `is_newer_version_spec`).
pub fn is_newer_version(local: &str, remote: &str) -> (r: bool)
    ensures
        r == is_newer_version_spec(local@, remote@),
{
    let l = version_parts(local);
    let r = version_parts(remote);
    if l.len() == 3 && r.len() == 3 {
        let mut i: usize = 0;
        while i < 3
            invariant
                i <= 3,
                l@.len() == 3,
                r@.len() == 3,
                l@ == version_numbers(local@),
                r@ == version_numbers(remote@),
                forall|j: int| 0 <= j < i ==> r@[j] == l@[j],
            decreases 3 - i,
        {
            if r[i] > l[i] {
                return true;
            } else if r[i] < l[i] {
                return false;
            }
            i += 1;
        }
    }
    false
}

/// No version is newer than itself.
pub proof fn lemma_newer_irreflexive(v: Seq<char>)
    ensures
        !is_newer_version_spec(v, v),
{
}

/// Of two versions, at most one is newer than the other.
pub proof fn lemma_newer_asymmetric(a: Seq<char>, b: Seq<char>)
    ensures
        is_newer_version_spec(a, b) ==> !is_newer_version_spec(b, a),
{
}

/// The first of the three numbers in which two versions differ decides:
/// the remote version is newer exactly when its number there is the larger,
/// whatever the numbers after it.
pub proof fn lemma_first_difference_decides(local: Seq<char>, remote: Seq<char>, k: int)
    requires
        version_numbers(local).len() == 3,
        version_numbers(remote).len() == 3,
        0 <= k < 3,
        forall|j: int| 0 <= j < k ==> version_numbers(remote)[j] == version_numbers(local)[j],
        version_numbers(remote)[k] != version_numbers(local)[k],
    ensures
        is_newer_version_spec(local, remote) <==> version_numbers(remote)[k] > version_numbers(local)[k],
{
    if k > 0 {
        assert(version_numbers(remote)[0] == version_numbers(local)[0]);
    }
    if k > 1 {
        assert(version_numbers(remote)[1] == version_numbers(local)[1]);
    }
}

/// Two three-number versions with the same numbers: neither is newer.
pub proof fn lemma_same_numbers_not_newer(local: Seq<char>, remote: Seq<char>)
    requires
        version_numbers(local) == version_numbers(remote),
    ensures
        !is_newer_version_spec(local, remote),
{
}

/// Newer-than is transitive.
pub proof fn lemma_newer_transitive(a: Seq<char>, b: Seq<char>, c: Seq<char>)
    requires
        is_newer_version_spec(a, b),
        is_newer_version_spec(b, c),
    ensures
        is_newer_version_spec(a, c),
{
}

/// The decimal digit `d` (from zero to nine) as a character.
pub open spec fn digit_char(d: int) -> char {
    (d + 48) as char
}

/// The decimal numeral of `n`, without leading zeros.
pub open spec fn decimal_text(n: nat) -> Seq<char>
    decreases n,
{
    if n < 10 {
        seq![digit_char(n as int)]
    } else {
        decimal_text(n / 10).push(digit_char((n % 10) as int))
    }
}

/// The version string `major.minor.patch` with each number in decimal.
pub open spec fn version_text(major: u32, minor: u32, patch: u32) -> Seq<char> {
    decimal_text(major as nat) + seq!['.'] + decimal_text(minor as nat) + seq!['.'] + decimal_text(
        patch as nat,
    )
}

proof fn lemma_decimal_text_parses(n: nat)
    ensures
        decimal_text(n).len() > 0,
        all_digits(decimal_text(n)),
        decimal_value(decimal_text(n)) == n,
        !decimal_text(n).contains('.'),
        decimal_text(n)[0] != '+',
    decreases n,
{
    let t = decimal_text(n);
    if n < 10 {
        assert(t.drop_last() =~= Seq::<char>::empty());
        assert(decimal_value(Seq::<char>::empty()) == 0);
    } else {
        let p = decimal_text(n / 10);
        lemma_decimal_text_parses(n / 10);
        assert(t.drop_last() =~= p);
        assert(t[0] == p[0]);
        assert forall|i: int| 0 <= i < t.len() implies is_ascii_digit_spec(#[trigger] t[i]) by {
            if i < p.len() {
                assert(t[i] == p[i]);
            }
        }
        assert forall|i: int| 0 <= i < t.len() implies t[i] != '.' by {
            if i < p.len() {
                assert(t[i] == p[i]);
            }
        }
    }
}

proof fn lemma_split_join(x: Seq<char>, y: Seq<char>, sep: char)
    ensures
        split_pieces(x + seq![sep] + y, sep) == split_pieces(x, sep) + split_pieces(y, sep),
    decreases y.len(),
{
    let s = x + seq![sep] + y;
    if y.len() == 0 {
        assert(s.drop_last() =~= x);
        assert(split_pieces(y, sep) == seq![Seq::<char>::empty()]);
    } else {
        assert(s.drop_last() =~= x + seq![sep] + y.drop_last());
        lemma_split_join(x, y.drop_last(), sep);
        lemma_split_nonempty(y.drop_last(), sep);
        let a = split_pieces(x, sep);
        let b = split_pieces(y.drop_last(), sep);
        if y.last() == sep {
            assert((a + b).push(Seq::<char>::empty()) =~= a + b.push(Seq::<char>::empty()));
        } else {
            assert((a + b).update((a + b).len() - 1, (a + b).last().push(y.last())) =~= a + b.update(
                b.len() - 1,
                b.last().push(y.last()),
            ));
        }
    }
}

proof fn lemma_split_single(d: Seq<char>, sep: char)
    requires
        !d.contains(sep),
    ensures
        split_pieces(d, sep) == seq![d],
    decreases d.len(),
{
    if d.len() == 0 {
        assert(d =~= Seq::<char>::empty());
    } else {
        assert(!d.drop_last().contains(sep)) by {
            if d.drop_last().contains(sep) {
                let i = choose|i: int| 0 <= i < d.drop_last().len() && d.drop_last()[i] == sep;
                assert(d[i] == sep);
            }
        }
        lemma_split_single(d.drop_last(), sep);
        assert(d[d.len() - 1] != sep);
        assert(d.drop_last().push(d.last()) =~= d);
        assert(seq![d.drop_last()].update(0, d.drop_last().push(d.last())) =~= seq![d]);
    }
}

/// Reading a version written as `major.minor.patch` in decimal gives back
/// its three numbers, in order.
pub proof fn lemma_version_text_numbers(major: u32, minor: u32, patch: u32)
    ensures
        version_numbers(version_text(major, minor, patch)) == seq![major, minor, patch],
{
    let x = decimal_text(major as nat);
    let y = decimal_text(minor as nat);
    let z = decimal_text(patch as nat);
    lemma_decimal_text_parses(major as nat);
    lemma_decimal_text_parses(minor as nat);
    lemma_decimal_text_parses(patch as nat);
    lemma_split_join(x + seq!['.'] + y, z, '.');
    lemma_split_join(x, y, '.');
    lemma_split_single(x, '.');
    lemma_split_single(y, '.');
    lemma_split_single(z, '.');
    let ps = split_pieces(version_text(major, minor, patch), '.');
    assert(ps =~= seq![x, y, z]);
    assert(parse_u32_spec(x) == Some(major));
    assert(parse_u32_spec(y) == Some(minor));
    assert(parse_u32_spec(z) == Some(patch));
    assert(ps.drop_last() =~= seq![x, y]);
    assert(ps.drop_last().drop_last() =~= seq![x]);
    assert(ps.drop_last().drop_last().drop_last() =~= Seq::<Seq<char>>::empty());
    assert(parsed_parts(ps.drop_last().drop_last().drop_last()) =~= Seq::<u32>::empty());
    assert(ps.drop_last().drop_last().last() == x);
    assert(parsed_parts(ps.drop_last().drop_last()) =~= seq![major]);
    assert(parsed_parts(ps.drop_last()) =~= seq![major, minor]);
    assert(parsed_parts(ps) =~= seq![major, minor, patch]);
}

/// Of two versions written `major.minor.patch`, the remote one is newer
/// exactly when its numbers come later in lexicographic order: a larger
/// major; or the same major and a larger minor, whatever the patches; or
/// the same major and minor and a larger patch.
pub proof fn lemma_version_text_newer(l: (u32, u32, u32), r: (u32, u32, u32))
    ensures
        is_newer_version_spec(version_text(l.0, l.1, l.2), version_text(r.0, r.1, r.2)) <==> (r.0 > l.0
            || (r.0 == l.0 && r.1 > l.1) || (r.0 == l.0 && r.1 == l.1 && r.2 > l.2)),
{
    lemma_version_text_numbers(l.0, l.1, l.2);
    lemma_version_text_numbers(r.0, r.1, r.2);
}

/// What `serde_json` reads from JSON text `body` at the field `inner` of
/// the object at field `outer`: that field's text when `body` parses and
/// the field holds a string, else `None`.
pub uninterp spec fn json_str_at(body: Seq<char>, outer: Seq<char>, inner: Seq<char>) -> Option<Seq<char>>;

/// Calls `serde_json::from_str` into a `serde_json::Value`, indexes it with
/// `[outer][inner]` (a missing key, or indexing a value that is no object,
/// gives `Value::Null`) and takes `Value::as_str`. The result depends on the
/// three arguments alone: the contract names it.
#[verifier::external_body]
fn json_str_field(body: &str, outer: &str, inner: &str) -> (r: Option<String>)
    ensures
        match r {
            Some(v) => json_str_at(body@, outer@, inner@) == Some(v@),
            None => json_str_at(body@, outer@, inner@) is None,
        },
{
    match serde_json::from_str::<serde_json::Value>(body) {
        Ok(v) => match v[outer][inner].as_str() {
            Some(t) => Some(t.to_string()),
            None => None,
        },
        Err(_) => None,
    }
}

/// What the update check reads from a crates.io reply `body`: the text of
/// the `max_version` field of its `crate` object.
pub open spec fn reply_max_version(body: Seq<char>) -> Option<Seq<char>> {
    json_str_at(body, "crate"@, "max_version"@)
}

/// The text of an optional string.
pub open spec fn opt_text(r: Option<String>) -> Option<Seq<char>> {
    match r {
        Some(s) => Some(s@),
        None => None,
    }
}

/// The release to offer, given the running version `local` and the
/// published version text `remote` (if any): the trimmed published version
/// when it is newer, else none.
pub open spec fn offered_release(local: Seq<char>, remote: Option<Seq<char>>) -> Option<Seq<char>> {
    match remote {
        Some(v) => if is_newer_version_spec(local, trim_spec(v)) {
            Some(trim_spec(v))
        } else {
            None
        },
        None => None,
    }
}

/// The release to offer (see `offered_release`) for the published version
/// text `remote`.
pub fn offered_release_of(local: &str, remote: Option<&str>) -> (r: Option<String>)
    ensures
        opt_text(r) == offered_release(
            local@,
            match remote {
                Some(v) => Some(v@),
                None => None,
            },
        ),
{
    match remote {
        Some(v) => {
            let all = str_to_chars(v);
            let t = chars_to_string(trim_char_slice(all.as_slice()));
            if is_newer_version(local, t.as_str()) {
                Some(t)
            } else {
                None
            }
        },
        None => None,
    }
}

/// The release that a crates.io reply `body` offers over the running
/// version `local` (see `offered_release` and `reply_max_version`).
pub fn newer_release_in_reply(local: &str, body: &str) -> (r: Option<String>)
    ensures
        opt_text(r) == offered_release(local@, reply_max_version(body@)),
{
    match json_str_field(body, "crate", "max_version") {
        Some(v) => offered_release_of(local, Some(v.as_str())),
        None => None,
    }
}

} // verus!
