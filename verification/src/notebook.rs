//! The notes of a wiki taken together: the order in which a compiled wiki
//! lists them, the compiled text, and which notes match a search.

use crate::markdown::{contains_seq, lowercase_str, str_lowercase};
use crate::text::{
    chars_to_string, find_chars_from, occurs_at, push_str, str_to_chars, trim_char_slice, trim_spec,
};
use vstd::prelude::*;

verus! {

/// `a` comes at or before `b` in lexicographic order of code points (the
/// order of `str` comparison).
pub open spec fn lex_le(a: Seq<char>, b: Seq<char>) -> bool
    decreases a.len(),
{
    if a.len() == 0 {
        true
    } else if b.len() == 0 {
        false
    } else if a[0] != b[0] {
        (a[0] as int) < (b[0] as int)
    } else {
        lex_le(a.drop_first(), b.drop_first())
    }
}

proof fn lemma_lex_total(a: Seq<char>, b: Seq<char>)
    ensures
        lex_le(a, b) || lex_le(b, a),
    decreases a.len(),
{
    if a.len() > 0 && b.len() > 0 && a[0] == b[0] {
        lemma_lex_total(a.drop_first(), b.drop_first());
    }
}

proof fn lemma_lex_antisym(a: Seq<char>, b: Seq<char>)
    requires
        lex_le(a, b),
        lex_le(b, a),
    ensures
        a == b,
    decreases a.len(),
{
    if a.len() > 0 && b.len() > 0 {
        lemma_lex_antisym(a.drop_first(), b.drop_first());
        assert(a =~= seq![a[0]] + a.drop_first());
        assert(b =~= seq![b[0]] + b.drop_first());
    } else {
        assert(a =~= b);
    }
}

proof fn lemma_lex_trans(a: Seq<char>, b: Seq<char>, c: Seq<char>)
    requires
        lex_le(a, b),
        lex_le(b, c),
    ensures
        lex_le(a, c),
    decreases a.len(),
{
    if a.len() > 0 && b.len() > 0 && c.len() > 0 && a[0] == b[0] && b[0] == c[0] {
        lemma_lex_trans(a.drop_first(), b.drop_first(), c.drop_first());
    }
}

/// The first note of a compiled wiki.
pub open spec fn home_name() -> Seq<char> {
    "home.md"@
}

/// Note file `a` comes at or before note file `b` in a compiled wiki:
/// `home.md` first, the others by name.
pub open spec fn note_le(a: Seq<char>, b: Seq<char>) -> bool {
    a == home_name() || (b != home_name() && lex_le(a, b))
}

proof fn lemma_note_total(a: Seq<char>, b: Seq<char>)
    ensures
        note_le(a, b) || note_le(b, a),
{
    lemma_lex_total(a, b);
}

proof fn lemma_note_trans(a: Seq<char>, b: Seq<char>, c: Seq<char>)
    requires
        note_le(a, b),
        note_le(b, c),
    ensures
        note_le(a, c),
{
    if a != home_name() {
        lemma_lex_trans(a, b, c);
    }
}

proof fn lemma_note_antisym(a: Seq<char>, b: Seq<char>)
    requires
        note_le(a, b),
        note_le(b, a),
    ensures
        a == b,
{
    if a != home_name() && b != home_name() {
        lemma_lex_antisym(a, b);
    }
}

/// The names of a list of files.
pub open spec fn names_view(v: Seq<String>) -> Seq<Seq<char>> {
    v.map_values(|s: String| s@)
}

/// `r` lists each of `0..n` once.
pub open spec fn is_permutation(r: Seq<usize>, n: int) -> bool {
    &&& r.len() == n
    &&& forall|i: int| 0 <= i < r.len() ==> r[i] < n
    &&& forall|i: int, j: int| 0 <= i < j < r.len() ==> r[i] != r[j]
}

/// `r` lists the notes `ns` in compiled-wiki order, notes of the same name
/// in the order they were given.
pub open spec fn in_compile_order(ns: Seq<Seq<char>>, r: Seq<usize>) -> bool {
    &&& forall|i: int, j: int| 0 <= i < j < r.len() ==> note_le(#[trigger] ns[r[i] as int], #[trigger] ns[r[j] as int])
    &&& forall|i: int, j: int|
        0 <= i < j < r.len() && ns[r[i] as int] == ns[r[j] as int] ==> r[i] < r[j]
}

fn lex_le_exec(a: &[char], b: &[char]) -> (r: bool)
    ensures
        r == lex_le(a@, b@),
{
    let mut i: usize = 0;
    assert(a@.skip(0) =~= a@);
    assert(b@.skip(0) =~= b@);
    while i < a.len() && i < b.len() && a[i] == b[i]
        invariant
            i <= a@.len(),
            i <= b@.len(),
            lex_le(a@, b@) == lex_le(a@.skip(i as int), b@.skip(i as int)),
        decreases a.len() - i,
    {
        proof {
            assert(a@.skip(i as int).drop_first() =~= a@.skip(i + 1));
            assert(b@.skip(i as int).drop_first() =~= b@.skip(i + 1));
        }
        i += 1;
    }
    if i == a.len() {
        true
    } else if i == b.len() {
        false
    } else {
        assert(a@.skip(i as int)[0] == a@[i as int]);
        assert(b@.skip(i as int)[0] == b@[i as int]);
        a[i] < b[i]
    }
}

fn note_le_exec(a: &String, b: &String) -> (r: bool)
    ensures
        r == note_le(a@, b@),
{
    let ac = str_to_chars(a.as_str());
    let bc = str_to_chars(b.as_str());
    let a_home = crate::text::equals_str(ac.as_slice(), "home.md");
    let b_home = crate::text::equals_str(bc.as_slice(), "home.md");
    a_home || (!b_home && lex_le_exec(ac.as_slice(), bc.as_slice()))
}

/// The order in which a compiled wiki lists the note files `names`:
/// positions into `names`, `home.md` first and the others by name.
pub fn compile_order(names: &Vec<String>) -> (r: Vec<usize>)
    ensures
        is_permutation(r@, names@.len() as int),
        in_compile_order(names_view(names@), r@),
{
    let ghost ns = names_view(names@);
    let mut out: Vec<usize> = Vec::new();
    let mut i: usize = 0;
    while i < names.len()
        invariant
            i <= names@.len(),
            ns == names_view(names@),
            is_permutation(out@, i as int),
            in_compile_order(ns, out@),
        decreases names.len() - i,
    {
        let mut p: usize = 0;
        let mut found = false;
        while p < out.len() && !found
            invariant
                p <= out@.len(),
                i < names@.len(),
                ns == names_view(names@),
                is_permutation(out@, i as int),
                forall|j: int| 0 <= j < p ==> note_le(#[trigger] ns[out@[j] as int], ns[i as int]),
                found ==> p < out@.len() && !note_le(ns[out@[p as int] as int], ns[i as int]),
            decreases out.len() - p + if found { 0int } else { 1int },
        {
            if note_le_exec(&names[out[p]], &names[i]) {
                p += 1;
            } else {
                found = true;
            }
        }
        let ghost before = out@;
        proof {
            // Everything from the insertion point on comes strictly after note `i`.
            assert forall|j: int| p <= j < before.len() implies !note_le(
                #[trigger] ns[before[j] as int],
                ns[i as int],
            ) && note_le(ns[i as int], ns[before[j] as int]) by {
                if j > p {
                    if note_le(ns[before[j] as int], ns[i as int]) {
                        lemma_note_trans(
                            ns[before[p as int] as int],
                            ns[before[j] as int],
                            ns[i as int],
                        );
                    }
                }
                lemma_note_total(ns[before[j] as int], ns[i as int]);
            }
        }
        out.insert(p, i);
        proof {
            let a = out@;
            assert(a =~= before.take(p as int).push(i) + before.skip(p as int));
            assert forall|x: int, y: int| 0 <= x < y < a.len() implies note_le(
                #[trigger] ns[a[x] as int],
                #[trigger] ns[a[y] as int],
            ) by {
                if y < p {
                    assert(a[x] == before[x] && a[y] == before[y]);
                } else if y == p {
                    assert(a[x] == before[x]);
                } else if x < p {
                    assert(a[x] == before[x] && a[y] == before[y - 1]);
                    lemma_note_trans(ns[before[x] as int], ns[i as int], ns[before[y - 1] as int]);
                } else if x == p {
                    assert(a[y] == before[y - 1]);
                } else {
                    assert(a[x] == before[x - 1] && a[y] == before[y - 1]);
                }
            }
            assert forall|x: int, y: int|
                0 <= x < y < a.len() && ns[a[x] as int] == ns[a[y] as int] implies a[x] < a[y] by {
                if y < p {
                    assert(a[x] == before[x] && a[y] == before[y]);
                } else if y == p {
                    assert(a[x] == before[x]);
                } else if x < p {
                    assert(a[x] == before[x] && a[y] == before[y - 1]);
                } else if x == p {
                    assert(a[y] == before[y - 1]);
                    assert(!note_le(ns[before[y - 1] as int], ns[i as int]));
                } else {
                    assert(a[x] == before[x - 1] && a[y] == before[y - 1]);
                }
            }
            assert forall|x: int, y: int| 0 <= x < y < a.len() implies a[x] != a[y] by {
                if y < p {
                    assert(a[x] == before[x] && a[y] == before[y]);
                } else if y == p {
                    assert(a[x] == before[x]);
                } else if x < p {
                    assert(a[x] == before[x] && a[y] == before[y - 1]);
                } else if x == p {
                    assert(a[y] == before[y - 1]);
                } else {
                    assert(a[x] == before[x - 1] && a[y] == before[y - 1]);
                }
            }
            assert forall|x: int| 0 <= x < a.len() implies a[x] < i + 1 by {
                if x < p {
                    assert(a[x] == before[x]);
                } else if x > p {
                    assert(a[x] == before[x - 1]);
                }
            }
        }
        i += 1;
    }
    out
}

/// In a compiled wiki every `home.md` note comes before every other note.
pub proof fn lemma_home_first(ns: Seq<Seq<char>>, r: Seq<usize>, i: int, j: int)
    requires
        in_compile_order(ns, r),
        0 <= i < j < r.len(),
        ns[r[j] as int] == home_name(),
    ensures
        ns[r[i] as int] == home_name(),
{
    assert(note_le(ns[r[i] as int], ns[r[j] as int]));
}

/// The first lines of a compiled wiki.
pub open spec fn compiled_header() -> Seq<char> {
    "# calki Compiled Wiki 🧮 📝\n\n"@ + "compiled from all notes in the wiki.\n\n---\n\n"@
}

/// The notes `cs` one after the other, each followed by a rule.
pub open spec fn compiled_notes(cs: Seq<Seq<char>>) -> Seq<char>
    decreases cs.len(),
{
    if cs.len() == 0 {
        Seq::<char>::empty()
    } else {
        compiled_notes(cs.drop_last()) + cs.last() + "\n\n---\n\n"@
    }
}

/// The text of a compiled wiki made of the notes `contents`, in the order
/// given: a title and a line saying where it comes from, then each note
/// followed by a horizontal rule.
pub fn compile_wiki_text(contents: &Vec<String>) -> (r: String)
    ensures
        r@ == compiled_header() + compiled_notes(names_view(contents@)),
{
    let ghost cs = names_view(contents@);
    let mut out: Vec<char> = Vec::new();
    push_str(&mut out, "# calki Compiled Wiki 🧮 📝\n\n");
    push_str(&mut out, "compiled from all notes in the wiki.\n\n---\n\n");
    let mut i: usize = 0;
    while i < contents.len()
        invariant
            i <= contents@.len(),
            cs == names_view(contents@),
            out@ == compiled_header() + compiled_notes(cs.take(i as int)),
        decreases contents.len() - i,
    {
        push_str(&mut out, contents[i].as_str());
        push_str(&mut out, "\n\n---\n\n");
        proof {
            assert(cs.take(i + 1).drop_last() =~= cs.take(i as int));
            assert(out@ =~= compiled_header() + compiled_notes(cs.take(i + 1)));
        }
        i += 1;
    }
    assert(cs.take(i as int) =~= cs);
    chars_to_string(out.as_slice())
}

/// What a wiki search looks for: the query trimmed and lower-cased; an
/// empty key means no search.
pub open spec fn search_key_spec(query: Seq<char>) -> Seq<char> {
    lowercase_str(trim_spec(query))
}

/// The search key of `query` (see `search_key_spec`).
pub fn search_key(query: &str) -> (r: Vec<char>)
    ensures
        r@ == search_key_spec(query@),
{
    let q = str_to_chars(query);
    let t = trim_char_slice(q.as_slice());
    str_lowercase(t)
}

/// A note matches a non-empty search key when its lower-cased text
/// contains the key.
pub fn note_matches(content: &str, key: &[char]) -> (r: bool)
    requires
        key@.len() > 0,
    ensures
        r == contains_seq(lowercase_str(content@), key@),
{
    let c = str_to_chars(content);
    let low = str_lowercase(c.as_slice());
    let found = find_chars_from(low.as_slice(), key, 0);
    proof {
        if low@.len() == 0 {
            if contains_seq(low@, key@) {
                let p = choose|p: int| occurs_at(low@, key@, p);
                assert(false);
            }
        }
    }
    found.is_some()
}

} // verus!
