//! Soft wrapping of editor lines to a display width.

use crate::style::{Span, Style};
use vstd::prelude::*;

verus! {

/// What `UnicodeWidthChar::width` (crate `unicode-width`) returns for `c`.
pub uninterp spec fn unicode_width_of(c: char) -> Option<usize>;

/// Calls `UnicodeWidthChar::width` of the `unicode-width` crate. Its source
/// gives: printable ASCII (U+0020..U+007E) is one column wide, the C0 and C1
/// control codes (below U+0020 and U+007F..U+009F) have no width, and every
/// other character has a width read from a `u8` table.
#[verifier::external_body]
fn unicode_char_width(c: char) -> (r: Option<usize>)
    ensures
        r == unicode_width_of(c),
        (0x20 <= c as u32 && (c as u32) < 0x7f) ==> r == Some(1usize),
        ((c as u32) < 0x20 || (0x7f <= c as u32 && (c as u32) < 0xa0)) ==> r is None,
        (c as u32) >= 0xa0 ==> r is Some,
        r matches Some(w) ==> w <= 255,
{
    unicode_width::UnicodeWidthChar::width(c)
}

/// Display width of `c`: `tab_width` for a tab, otherwise its Unicode width
/// (0 when it has none).
pub open spec fn char_width_spec(c: char, tab_width: nat) -> nat {
    if c == '\t' {
        tab_width
    } else {
        match unicode_width_of(c) {
            Some(w) => w as nat,
            None => 0,
        }
    }
}

/// Display width of `c`: `tab_width` for a tab, one column for printable
/// ASCII, none for the other control codes.
pub fn char_width(c: char, tab_width: usize) -> (w: usize)
    ensures
        w == char_width_spec(c, tab_width as nat),
        c != '\t' ==> w <= 255,
        c == '\t' ==> w == tab_width,
        (0x20 <= c as u32 && (c as u32) < 0x7f) ==> w == 1,
        (c != '\t' && ((c as u32) < 0x20 || (0x7f <= c as u32 && (c as u32) < 0xa0))) ==> w == 0,
{
    if c == '\t' {
        tab_width
    } else {
        match unicode_char_width(c) {
            Some(w) => w,
            None => 0,
        }
    }
}

/// Total display width of the characters of `line` at positions `idx`.
pub open spec fn width_of(line: Seq<char>, idx: Seq<int>, tab: nat) -> nat
    decreases idx.len(),
{
    if idx.len() == 0 {
        0
    } else {
        width_of(line, idx.drop_last(), tab) + char_width_spec(line[idx.last()], tab)
    }
}

/// Position within `idx` of the last entry that points at a space.
pub open spec fn last_space(line: Seq<char>, idx: Seq<int>) -> Option<int>
    decreases idx.len(),
{
    if idx.len() == 0 {
        None
    } else if line[idx.last()] == ' ' {
        Some(idx.len() - 1)
    } else {
        last_space(line, idx.drop_last())
    }
}

/// Where `last_space` finds a space, it is a position inside `idx`.
pub proof fn lemma_last_space_bounds(line: Seq<char>, idx: Seq<int>)
    ensures
        last_space(line, idx) matches Some(s) ==> 0 <= s < idx.len() && line[idx[s]] == ' ',
    decreases idx.len(),
{
    if idx.len() > 0 && line[idx.last()] != ' ' {
        lemma_last_space_bounds(line, idx.drop_last());
    }
}

/// The wrapping of `line` from position `i` on, given the lines already
/// produced (`done`) and the positions of the line being built (`cur`). A
/// character that fits is added to the current line. One that does not fit
/// ends the current line at its last space (the space itself is dropped and
/// what follows it starts the next line, and the character is tried again),
/// or, when the current line has no space, ends the current line as it is
/// and starts the next one with the character.
pub open spec fn wrap_from(
    line: Seq<char>,
    max_width: nat,
    tab: nat,
    i: int,
    done: Seq<Seq<int>>,
    cur: Seq<int>,
) -> Seq<Seq<int>>
    decreases line.len() - i, cur.len(),
{
    if i < 0 || i >= line.len() {
        if cur.len() > 0 {
            done.push(cur)
        } else {
            done
        }
    } else if width_of(line, cur, tab) + char_width_spec(line[i], tab) > max_width {
        match last_space(line, cur) {
            Some(s) => {
                proof {
                    lemma_last_space_bounds(line, cur);
                }
                wrap_from(line, max_width, tab, i, done.push(cur.take(s)), cur.skip(s + 1))
            },
            None => wrap_from(line, max_width, tab, i + 1, done.push(cur), seq![i]),
        }
    } else {
        wrap_from(line, max_width, tab, i + 1, done, cur.push(i))
    }
}

/// The positions of the characters of each wrapped line of `line`.
pub open spec fn wrap_positions(line: Seq<char>, max_width: nat, tab: nat) -> Seq<Seq<int>> {
    if line.len() == 0 {
        seq![Seq::empty()]
    } else if max_width == 0 {
        seq![Seq::new(line.len(), |k: int| k)]
    } else {
        wrap_from(line, max_width, tab, 0, Seq::empty(), Seq::empty())
    }
}

/// The characters at positions `idx` of `line`.
pub open spec fn pick(line: Seq<char>, idx: Seq<int>) -> Seq<char> {
    idx.map_values(|k: int| line[k])
}

/// The wrapped lines of `line`.
pub open spec fn wrap_spec(line: Seq<char>, max_width: nat, tab: nat) -> Seq<Seq<char>> {
    wrap_positions(line, max_width, tab).map_values(|idx: Seq<int>| pick(line, idx))
}

/// The chunk widths `line_width` splits into at `max_width` columns each.
pub open spec fn split_spec(line_width: nat, max_width: nat) -> Seq<usize>
    decreases line_width,
{
    if line_width <= max_width || max_width == 0 {
        seq![line_width as usize]
    } else {
        seq![max_width as usize] + split_spec((line_width - max_width) as nat, max_width)
    }
}

/// The (text, style) view of a list of spans.
pub open spec fn spans_view(spans: Seq<Span>) -> Seq<(Seq<char>, Style)> {
    spans.map_values(|s: Span| (s.content@, s.style))
}

/// The characters of a list of styled texts, in order.
pub open spec fn flat_chars(sp: Seq<(Seq<char>, Style)>) -> Seq<char>
    decreases sp.len(),
{
    if sp.len() == 0 {
        Seq::empty()
    } else {
        flat_chars(sp.drop_last()) + sp.last().0
    }
}

/// The style of each character of a list of styled texts, in order.
pub open spec fn flat_styles(sp: Seq<(Seq<char>, Style)>) -> Seq<Style>
    decreases sp.len(),
{
    if sp.len() == 0 {
        Seq::empty()
    } else {
        flat_styles(sp.drop_last()) + Seq::new(sp.last().0.len(), |k: int| sp.last().1)
    }
}

/// Characters grouped into maximal runs of equal style.
pub open spec fn group_runs(chars: Seq<char>, styles: Seq<Style>) -> Seq<(Seq<char>, Style)>
    decreases chars.len(),
{
    if chars.len() == 0 {
        Seq::empty()
    } else {
        let prev = group_runs(chars.drop_last(), styles.drop_last());
        if prev.len() > 0 && prev.last().1 == styles[chars.len() - 1] {
            prev.update(prev.len() - 1, (prev.last().0.push(chars.last()), prev.last().1))
        } else {
            prev.push((seq![chars.last()], styles[chars.len() - 1]))
        }
    }
}

/// The styles at positions `idx`.
pub open spec fn pick_styles(styles: Seq<Style>, idx: Seq<int>) -> Seq<Style> {
    idx.map_values(|k: int| styles[k])
}

/// The wrapped lines of a list of spans, each regrouped into spans of equal
/// style. No spans give no lines; width 0 gives the spans unchanged.
pub open spec fn wrap_spans_spec(spans: Seq<(Seq<char>, Style)>, max_width: nat, tab: nat) -> Seq<
    Seq<(Seq<char>, Style)>,
> {
    if spans.len() == 0 {
        Seq::empty()
    } else if max_width == 0 {
        seq![spans]
    } else {
        let ch = flat_chars(spans);
        let st = flat_styles(spans);
        wrap_from(ch, max_width, tab, 0, Seq::empty(), Seq::empty()).map_values(
            |idx: Seq<int>| group_runs(pick(ch, idx), pick_styles(st, idx)),
        )
    }
}

/// The widest a single character can be: a tab, or a character of the
/// Unicode width table (at most 255 columns).
pub open spec fn widest_char(tab_width: usize) -> int {
    if tab_width > 255 { tab_width as int } else { 255 }
}

/// The widest a row being built can get: `max_width`, or one character
/// wider than that on its own.
pub open spec fn row_cap(max_width: usize, tab_width: usize) -> int {
    if max_width >= widest_char(tab_width) { max_width as int } else { widest_char(tab_width) }
}

/// Bound on the widths that keeps the wrapping arithmetic in range: a row
/// at its widest plus one more character fits in a `usize`.
pub open spec fn widths_in_range(max_width: usize, tab_width: usize) -> bool {
    row_cap(max_width, tab_width) + widest_char(tab_width) <= usize::MAX
}

/// The wrapping arithmetic on `line` stays in range: by the widths (see
/// `widths_in_range`), or because the whole line plus one more character is
/// no wider than a `usize` holds.
pub open spec fn wrap_fits(line: Seq<char>, max_width: usize, tab_width: usize) -> bool {
    widths_in_range(max_width, tab_width) || row_width(line, tab_width as nat) + widest_char(tab_width)
        <= usize::MAX
}

/// Total length of the first `n` lines of `lines`.
pub open spec fn total_len(lines: Seq<Seq<char>>, n: int) -> int
    decreases n,
{
    if n <= 0 || lines.len() == 0 {
        0
    } else if n > lines.len() {
        total_len(lines, lines.len() as int)
    } else {
        total_len(lines, n - 1) + lines[n - 1].len()
    }
}

/// All the position lists of `s`, one after the other.
pub open spec fn flat(s: Seq<Seq<int>>) -> Seq<int>
    decreases s.len(),
{
    if s.len() == 0 {
        Seq::empty()
    } else {
        flat(s.drop_last()) + s.last()
    }
}

/// `s` is strictly increasing with every entry in `0..n`.
pub open spec fn increasing_below(s: Seq<int>, n: int) -> bool {
    &&& forall|a: int, b: int| 0 <= a < b < s.len() ==> s[a] < s[b]
    &&& forall|a: int| 0 <= a < s.len() ==> 0 <= #[trigger] s[a] < n
}

proof fn lemma_wrap_from_increasing(
    line: Seq<char>,
    max_width: nat,
    tab: nat,
    i: int,
    done: Seq<Seq<int>>,
    cur: Seq<int>,
)
    requires
        0 <= i <= line.len(),
        increasing_below(flat(done) + cur, i),
    ensures
        increasing_below(flat(wrap_from(line, max_width, tab, i, done, cur)), line.len() as int),
    decreases line.len() - i, cur.len(),
{
    let x = flat(done) + cur;
    if i >= line.len() {
        if cur.len() > 0 {
            assert(flat(done.push(cur)) =~= x) by {
                assert(done.push(cur).drop_last() =~= done);
            }
        } else {
            assert(flat(done) =~= x);
        }
    } else if width_of(line, cur, tab) + char_width_spec(line[i], tab) > max_width {
        match last_space(line, cur) {
            Some(s) => {
                lemma_last_space_bounds(line, cur);
                let d2 = done.push(cur.take(s));
                assert(d2.drop_last() =~= done);
                let y = flat(d2) + cur.skip(s + 1);
                let fd = flat(done).len();
                assert(y.len() == x.len() - 1);
                assert forall|k: int| 0 <= k < y.len() implies #[trigger] y[k] == (if k < fd + s {
                    x[k]
                } else {
                    x[k + 1]
                }) by {
                    if k < fd {
                        assert(y[k] == flat(done)[k]);
                    } else if k < fd + s {
                        assert(y[k] == cur[k - fd]);
                    } else {
                        assert(y[k] == cur.skip(s + 1)[k - fd - s]);
                    }
                }
                assert(increasing_below(y, i)) by {
                    assert forall|a: int, b: int| 0 <= a < b < y.len() implies y[a] < y[b] by {
                        let a2 = if a < fd + s { a } else { a + 1 };
                        let b2 = if b < fd + s { b } else { b + 1 };
                        assert(x[a2] < x[b2]);
                    }
                    assert forall|a: int| 0 <= a < y.len() implies 0 <= #[trigger] y[a] < i by {
                        let a2 = if a < fd + s { a } else { a + 1 };
                        assert(0 <= x[a2] < i);
                    }
                }
                lemma_wrap_from_increasing(line, max_width, tab, i, d2, cur.skip(s + 1));
            },
            None => {
                let d2 = done.push(cur);
                assert(d2.drop_last() =~= done);
                let y = flat(d2) + seq![i];
                assert(y =~= x.push(i));
                lemma_wrap_from_increasing(line, max_width, tab, i + 1, d2, seq![i]);
            },
        }
    } else {
        assert(flat(done) + cur.push(i) =~= x.push(i));
        lemma_wrap_from_increasing(line, max_width, tab, i + 1, done, cur.push(i));
    }
}

proof fn lemma_increasing_len(s: Seq<int>, n: int)
    requires
        increasing_below(s, n),
    ensures
        s.len() <= if n >= 0 { n } else { 0 },
    decreases s.len(),
{
    if s.len() > 0 {
        let t = s.drop_last();
        assert(increasing_below(t, s.last())) by {
            assert forall|a: int| 0 <= a < t.len() implies 0 <= #[trigger] t[a] < s.last() by {
                assert(s[a] < s[s.len() - 1]);
            }
        }
        lemma_increasing_len(t, s.last());
    }
}

proof fn lemma_total_len_flat(line: Seq<char>, pos: Seq<Seq<int>>, n: int)
    requires
        0 <= n <= pos.len(),
    ensures
        total_len(pos.map_values(|idx: Seq<int>| pick(line, idx)), n) == flat(pos.take(n)).len(),
    decreases n,
{
    let w = pos.map_values(|idx: Seq<int>| pick(line, idx));
    if n > 0 {
        lemma_total_len_flat(line, pos, n - 1);
        assert(pos.take(n).drop_last() =~= pos.take(n - 1));
    } else {
        assert(pos.take(0) =~= Seq::<Seq<int>>::empty());
    }
}

/// Wrapping never produces more characters than the line has: the wrapped
/// rows together are no longer than the line.
pub proof fn lemma_wrap_total_len(line: Seq<char>, max_width: nat, tab: nat)
    ensures
        total_len(wrap_spec(line, max_width, tab), wrap_spec(line, max_width, tab).len() as int)
            <= line.len(),
{
    let pos = wrap_positions(line, max_width, tab);
    lemma_total_len_flat(line, pos, pos.len() as int);
    assert(pos.take(pos.len() as int) =~= pos);
    if line.len() == 0 {
        assert(flat(pos) =~= Seq::<int>::empty()) by {
            assert(pos.drop_last() =~= Seq::<Seq<int>>::empty());
            assert(flat(pos.drop_last()) =~= Seq::<int>::empty());
        }
    } else if max_width == 0 {
        assert(flat(pos) =~= Seq::new(line.len(), |k: int| k)) by {
            assert(pos.drop_last() =~= Seq::<Seq<int>>::empty());
            assert(flat(pos.drop_last()) =~= Seq::<int>::empty());
        }
    } else {
        assert(flat(Seq::<Seq<int>>::empty()) + Seq::<int>::empty() =~= Seq::<int>::empty());
        lemma_wrap_from_increasing(line, max_width, tab, 0, Seq::empty(), Seq::empty());
        lemma_increasing_len(flat(pos), line.len() as int);
    }
}

/// Wrapping keeps the characters of a line in order and uses each at most
/// once: the positions of all wrapped rows, read one row after the other, are
/// strictly increasing positions of the line.
pub proof fn lemma_wrap_keeps_order(line: Seq<char>, max_width: nat, tab: nat)
    ensures
        increasing_below(flat(wrap_positions(line, max_width, tab)), line.len() as int),
{
    let pos = wrap_positions(line, max_width, tab);
    if line.len() == 0 {
        assert(flat(pos) =~= Seq::<int>::empty()) by {
            assert(pos.drop_last() =~= Seq::<Seq<int>>::empty());
            assert(flat(pos.drop_last()) =~= Seq::<int>::empty());
        }
    } else if max_width == 0 {
        assert(flat(pos) =~= Seq::new(line.len(), |k: int| k)) by {
            assert(pos.drop_last() =~= Seq::<Seq<int>>::empty());
            assert(flat(pos.drop_last()) =~= Seq::<int>::empty());
        }
    } else {
        assert(flat(Seq::<Seq<int>>::empty()) + Seq::<int>::empty() =~= Seq::<int>::empty());
        lemma_wrap_from_increasing(line, max_width, tab, 0, Seq::empty(), Seq::empty());
    }
}

/// Every position of `line` below `n` is in `idx` or holds a space.
pub open spec fn covers_but_spaces(line: Seq<char>, idx: Seq<int>, n: int) -> bool {
    forall|k: int| 0 <= k < n ==> idx.contains(k) || line[k] == ' '
}

proof fn lemma_wrap_from_covers(
    line: Seq<char>,
    max_width: nat,
    tab: nat,
    i: int,
    done: Seq<Seq<int>>,
    cur: Seq<int>,
)
    requires
        0 <= i <= line.len(),
        covers_but_spaces(line, flat(done) + cur, i),
    ensures
        covers_but_spaces(line, flat(wrap_from(line, max_width, tab, i, done, cur)), line.len() as int),
    decreases line.len() - i, cur.len(),
{
    let old_ = flat(done) + cur;
    let fd = flat(done).len() as int;
    if i >= line.len() {
        if cur.len() > 0 {
            assert(done.push(cur).drop_last() =~= done);
            assert(flat(done.push(cur)) =~= old_);
        } else {
            assert(flat(done) =~= old_);
        }
    } else if width_of(line, cur, tab) + char_width_spec(line[i], tab) > max_width {
        lemma_last_space_bounds(line, cur);
        match last_space(line, cur) {
            Some(s) => {
                let d2 = done.push(cur.take(s));
                let c2 = cur.skip(s + 1);
                assert(d2.drop_last() =~= done);
                let nw = flat(d2) + c2;
                assert(nw =~= flat(done) + cur.take(s) + cur.skip(s + 1));
                assert forall|k: int| 0 <= k < i implies nw.contains(k) || line[k] == ' ' by {
                    if line[k] != ' ' {
                        assert(old_.contains(k));
                        let m = choose|m: int| 0 <= m < old_.len() && old_[m] == k;
                        if m < fd {
                            assert(nw[m] == k);
                        } else if m - fd < s {
                            assert(nw[m] == k);
                        } else if m - fd == s {
                            assert(cur[s] == k);
                        } else {
                            assert(nw[m - 1] == k);
                        }
                    }
                }
                lemma_wrap_from_covers(line, max_width, tab, i, d2, c2);
                assert(wrap_from(line, max_width, tab, i, done, cur) == wrap_from(line, max_width, tab, i, d2, c2));
            },
            None => {
                let d2 = done.push(cur);
                let c2 = seq![i];
                assert(d2.drop_last() =~= done);
                let nw = flat(d2) + c2;
                assert(nw =~= old_.push(i));
                assert forall|k: int| 0 <= k < i + 1 implies nw.contains(k) || line[k] == ' ' by {
                    if k == i {
                        assert(nw[old_.len() as int] == k);
                    } else if line[k] != ' ' {
                        assert(old_.contains(k));
                        let m = choose|m: int| 0 <= m < old_.len() && old_[m] == k;
                        assert(nw[m] == k);
                    }
                }
                lemma_wrap_from_covers(line, max_width, tab, i + 1, d2, c2);
                assert(wrap_from(line, max_width, tab, i, done, cur) == wrap_from(line, max_width, tab, i + 1, d2, c2));
            },
        }
    } else {
        let c2 = cur.push(i);
        let nw = flat(done) + c2;
        assert(nw =~= old_.push(i));
        assert forall|k: int| 0 <= k < i + 1 implies nw.contains(k) || line[k] == ' ' by {
            if k == i {
                assert(nw[old_.len() as int] == k);
            } else if line[k] != ' ' {
                assert(old_.contains(k));
                let m = choose|m: int| 0 <= m < old_.len() && old_[m] == k;
                assert(nw[m] == k);
            }
        }
        lemma_wrap_from_covers(line, max_width, tab, i + 1, done, c2);
        assert(wrap_from(line, max_width, tab, i, done, cur) == wrap_from(line, max_width, tab, i + 1, done, c2));
    }
}

/// Wrapping drops nothing but spaces: every position of the line is in one
/// of the wrapped rows or holds a space (one at which a row was broken).
/// With `lemma_wrap_keeps_order`, the rows read one after the other are the
/// line with some of its spaces left out.
pub proof fn lemma_wrap_drops_only_spaces(line: Seq<char>, max_width: nat, tab: nat)
    ensures
        covers_but_spaces(line, flat(wrap_positions(line, max_width, tab)), line.len() as int),
{
    let pos = wrap_positions(line, max_width, tab);
    if line.len() == 0 {
    } else if max_width == 0 {
        let all = Seq::new(line.len(), |k: int| k);
        assert(pos.drop_last() =~= Seq::<Seq<int>>::empty());
        assert(flat(pos.drop_last()) =~= Seq::<int>::empty());
        assert(flat(pos) =~= all);
        assert forall|k: int| 0 <= k < line.len() implies flat(pos).contains(k) || line[k] == ' ' by {
            assert(flat(pos)[k] == k);
        }
    } else {
        assert(flat(Seq::<Seq<int>>::empty()) + Seq::<int>::empty() =~= Seq::<int>::empty());
        lemma_wrap_from_covers(line, max_width, tab, 0, Seq::empty(), Seq::empty());
    }
}

/// Total display width of the characters of `chars`.
pub open spec fn row_width(chars: Seq<char>, tab: nat) -> nat
    decreases chars.len(),
{
    if chars.len() == 0 {
        0
    } else {
        row_width(chars.drop_last(), tab) + char_width_spec(chars.last(), tab)
    }
}

/// The width of the characters at positions `idx` is the width of the
/// characters they pick.
proof fn lemma_width_of_pick(line: Seq<char>, idx: Seq<int>, tab: nat)
    ensures
        width_of(line, idx, tab) == row_width(pick(line, idx), tab),
    decreases idx.len(),
{
    if idx.len() > 0 {
        lemma_width_of_pick(line, idx.drop_last(), tab);
        assert(pick(line, idx).drop_last() =~= pick(line, idx.drop_last()));
    }
}

/// Every character of `line` is at most `max_width` columns wide.
pub open spec fn chars_fit(line: Seq<char>, max_width: nat, tab: nat) -> bool {
    forall|k: int| 0 <= k < line.len() ==> #[trigger] char_width_spec(line[k], tab) <= max_width
}

proof fn lemma_wrap_from_fits(
    line: Seq<char>,
    max_width: nat,
    tab: nat,
    i: int,
    done: Seq<Seq<int>>,
    cur: Seq<int>,
)
    requires
        chars_fit(line, max_width, tab),
        forall|r: int| 0 <= r < done.len() ==> width_of(line, #[trigger] done[r], tab) <= max_width,
        width_of(line, cur, tab) <= max_width,
    ensures
        forall|r: int|
            0 <= r < wrap_from(line, max_width, tab, i, done, cur).len() ==> width_of(
                line,
                #[trigger] wrap_from(line, max_width, tab, i, done, cur)[r],
                tab,
            ) <= max_width,
    decreases line.len() - i, cur.len(),
{
    if i < 0 || i >= line.len() {
        let d2 = done.push(cur);
        assert forall|r: int| 0 <= r < d2.len() implies width_of(line, #[trigger] d2[r], tab)
            <= max_width by {
            if r < done.len() {
                assert(d2[r] == done[r]);
            }
        }
    } else if width_of(line, cur, tab) + char_width_spec(line[i], tab) > max_width {
        lemma_last_space_bounds(line, cur);
        match last_space(line, cur) {
            Some(s) => {
                lemma_width_prefix(line, cur, s, tab);
                lemma_width_split(line, cur, s + 1, tab);
                let d2 = done.push(cur.take(s));
                assert forall|r: int| 0 <= r < d2.len() implies width_of(line, #[trigger] d2[r], tab)
                    <= max_width by {
                    if r < done.len() {
                        assert(d2[r] == done[r]);
                    }
                }
                lemma_wrap_from_fits(line, max_width, tab, i, d2, cur.skip(s + 1));
                assert(wrap_from(line, max_width, tab, i, done, cur) == wrap_from(line, max_width, tab, i, d2, cur.skip(s + 1)));
            },
            None => {
                let d2 = done.push(cur);
                assert forall|r: int| 0 <= r < d2.len() implies width_of(line, #[trigger] d2[r], tab)
                    <= max_width by {
                    if r < done.len() {
                        assert(d2[r] == done[r]);
                    }
                }
                let c2 = seq![i];
                assert(c2.drop_last() =~= Seq::<int>::empty());
                assert(width_of(line, Seq::<int>::empty(), tab) == 0);
                assert(c2.last() == i);
                assert(char_width_spec(line[i], tab) <= max_width);
                lemma_wrap_from_fits(line, max_width, tab, i + 1, d2, c2);
                assert(wrap_from(line, max_width, tab, i, done, cur) == wrap_from(line, max_width, tab, i + 1, d2, c2));
            },
        }
    } else {
        let c2 = cur.push(i);
        assert(c2.drop_last() =~= cur);
        lemma_wrap_from_fits(line, max_width, tab, i + 1, done, c2);
        assert(wrap_from(line, max_width, tab, i, done, cur) == wrap_from(line, max_width, tab, i + 1, done, c2));
    }
}

/// Wrapping to a positive width where no single character is wider than
/// that width: every wrapped row fits the width.
pub proof fn lemma_wrap_rows_fit(line: Seq<char>, max_width: nat, tab: nat)
    requires
        max_width > 0,
        chars_fit(line, max_width, tab),
    ensures
        forall|r: int|
            0 <= r < wrap_spec(line, max_width, tab).len() ==> row_width(
                #[trigger] wrap_spec(line, max_width, tab)[r],
                tab,
            ) <= max_width,
{
    let pos = wrap_positions(line, max_width, tab);
    if line.len() == 0 {
        assert(width_of(line, pos[0], tab) == 0);
    } else {
        lemma_wrap_from_fits(line, max_width, tab, 0, Seq::empty(), Seq::empty());
    }
    assert forall|r: int| 0 <= r < wrap_spec(line, max_width, tab).len() implies row_width(
        #[trigger] wrap_spec(line, max_width, tab)[r],
        tab,
    ) <= max_width by {
        lemma_width_of_pick(line, pos[r], tab);
        assert(wrap_spec(line, max_width, tab)[r] == pick(line, pos[r]));
    }
}

/// The sum of a sequence of chunk widths.
pub open spec fn chunk_sum(s: Seq<usize>) -> int
    decreases s.len(),
{
    if s.len() == 0 {
        0
    } else {
        s[0] + chunk_sum(s.drop_first())
    }
}

/// Splitting a width into chunks of a positive `max_width`: a zero width
/// gives the one chunk `0`; otherwise there are `ceil(line_width /
/// max_width)` chunks, each of `1..=max_width` columns, all but the last of
/// exactly `max_width`, and together they make up `line_width`.
pub proof fn lemma_split_chunks(line_width: usize, max_width: usize)
    requires
        max_width > 0,
    ensures
        line_width == 0 ==> split_spec(line_width as nat, max_width as nat) == seq![0usize],
        chunk_sum(split_spec(line_width as nat, max_width as nat)) == line_width,
        line_width > 0 ==> split_spec(line_width as nat, max_width as nat).len() == (line_width
            + max_width - 1) / (max_width as int),
        forall|k: int|
            0 <= k < split_spec(line_width as nat, max_width as nat).len() ==> (#[trigger] split_spec(
                line_width as nat,
                max_width as nat,
            )[k] <= max_width && (line_width > 0 ==> split_spec(line_width as nat, max_width as nat)[k]
                >= 1)),
        forall|k: int|
            0 <= k < split_spec(line_width as nat, max_width as nat).len() - 1 ==> #[trigger] split_spec(
                line_width as nat,
                max_width as nat,
            )[k] == max_width,
    decreases line_width,
{
    let sp = split_spec(line_width as nat, max_width as nat);
    if line_width <= max_width {
        assert(sp.drop_first() =~= Seq::<usize>::empty());
        assert(chunk_sum(Seq::<usize>::empty()) == 0);
        if line_width > 0 {
            assert((line_width + max_width - 1) / (max_width as int) == 1) by (nonlinear_arith)
                requires
                    0 < line_width <= max_width,
            ;
        }
    } else {
        let rest = (line_width - max_width) as usize;
        lemma_split_chunks(rest, max_width);
        let rs = split_spec(rest as nat, max_width as nat);
        assert(sp == seq![max_width] + rs);
        assert(sp.drop_first() =~= rs);
        assert(((rest + max_width - 1) / (max_width as int)) + 1 == (line_width + max_width - 1) / (
        max_width as int)) by (nonlinear_arith)
            requires
                rest + max_width == line_width,
                max_width > 0,
        ;
        assert forall|k: int| 0 <= k < sp.len() implies (#[trigger] sp[k] <= max_width && (line_width
            > 0 ==> sp[k] >= 1)) by {
            if k > 0 {
                assert(sp[k] == rs[k - 1]);
            }
        }
        assert forall|k: int| 0 <= k < sp.len() - 1 implies #[trigger] sp[k] == max_width by {
            if k > 0 {
                assert(sp[k] == rs[k - 1]);
            }
        }
    }
}

proof fn lemma_row_width_prefix_mono(line: Seq<char>, a: int, b: int, tab: nat)
    requires
        0 <= a <= b <= line.len(),
    ensures
        row_width(line.take(a), tab) <= row_width(line.take(b), tab),
    decreases b - a,
{
    if a < b {
        lemma_row_width_prefix_mono(line, a, b - 1, tab);
        assert(line.take(b).drop_last() =~= line.take(b - 1));
    }
}

/// Distinct positions below `n`, in increasing order, are together no
/// wider than the first `n` characters.
proof fn lemma_width_within_prefix(line: Seq<char>, idx: Seq<int>, n: int, tab: nat)
    requires
        increasing_below(idx, n),
        n <= line.len(),
    ensures
        width_of(line, idx, tab) <= row_width(line.take(n), tab),
    decreases idx.len(),
{
    if idx.len() > 0 {
        let k = idx.last();
        assert(increasing_below(idx.drop_last(), k)) by {
            assert forall|a: int| 0 <= a < idx.drop_last().len() implies idx.drop_last()[a] < k by {
                assert(idx[a] < idx[idx.len() - 1]);
            }
        }
        lemma_width_within_prefix(line, idx.drop_last(), k, tab);
        assert(line.take(k + 1).drop_last() =~= line.take(k));
        lemma_row_width_prefix_mono(line, k + 1, n, tab);
    }
}

/// Soft wrapping of editor lines.
#[derive(Clone, Copy, Debug)]
pub struct LineWrapper;

/// Positions within `line` as a sequence of ints.
pub open spec fn as_ints(v: Seq<usize>) -> Seq<int> {
    v.map_values(|k: usize| k as int)
}

fn width_and_space(line: &[char], cur: &Vec<usize>, tab_width: usize) -> (r: (usize, Option<usize>))
    requires
        forall|k: int| 0 <= k < cur@.len() ==> (cur@[k] as int) < line@.len(),
        width_of(line@, as_ints(cur@), tab_width as nat) <= usize::MAX,
    ensures
        r.0 == width_of(line@, as_ints(cur@), tab_width as nat),
        match last_space(line@, as_ints(cur@)) {
            Some(s) => r.1 == Some(s as usize),
            None => r.1 is None,
        },
{
    let mut w: usize = 0;
    let mut sp: Option<usize> = None;
    let mut j: usize = 0;
    while j < cur.len()
        invariant
            j <= cur@.len(),
            forall|k: int| 0 <= k < cur@.len() ==> (cur@[k] as int) < line@.len(),
            width_of(line@, as_ints(cur@), tab_width as nat) <= usize::MAX,
            w == width_of(line@, as_ints(cur@.take(j as int)), tab_width as nat),
            match last_space(line@, as_ints(cur@.take(j as int))) {
                Some(s) => sp == Some(s as usize),
                None => sp is None,
            },
        decreases cur.len() - j,
    {
        let c = line[cur[j]];
        proof {
            let p = as_ints(cur@.take(j + 1));
            assert(p.drop_last() =~= as_ints(cur@.take(j as int)));
            assert(p.last() == cur@[j as int] as int);
            assert(as_ints(cur@).take(j + 1) =~= p);
            lemma_width_prefix(line@, as_ints(cur@), j + 1, tab_width as nat);
        }
        w = w + char_width(c, tab_width);
        if c == ' ' {
            sp = Some(j);
        }
        j += 1;
    }
    proof {
        assert(cur@.take(cur@.len() as int) =~= cur@);
    }
    (w, sp)
}

proof fn lemma_width_prefix(line: Seq<char>, idx: Seq<int>, j: int, tab: nat)
    requires
        0 <= j <= idx.len(),
    ensures
        width_of(line, idx.take(j), tab) <= width_of(line, idx, tab),
    decreases idx.len() - j,
{
    if j < idx.len() {
        lemma_width_prefix(line, idx.drop_last(), j, tab);
        assert(idx.drop_last().take(j) =~= idx.take(j));
    } else {
        assert(idx.take(j) =~= idx);
    }
}

/// The wrapped-position view of a list of position lists.
pub open spec fn positions_view(v: Seq<Vec<usize>>) -> Seq<Seq<int>> {
    v.map_values(|x: Vec<usize>| as_ints(x@))
}

proof fn lemma_width_split(line: Seq<char>, idx: Seq<int>, k: int, tab: nat)
    requires
        0 <= k <= idx.len(),
    ensures
        width_of(line, idx, tab) == width_of(line, idx.take(k), tab) + width_of(
            line,
            idx.skip(k),
            tab,
        ),
    decreases idx.len(),
{
    if k == idx.len() {
        assert(idx.take(k) =~= idx);
        assert(idx.skip(k) =~= Seq::<int>::empty());
    } else {
        lemma_width_split(line, idx.drop_last(), k, tab);
        assert(idx.drop_last().take(k) =~= idx.take(k));
        assert(idx.skip(k).drop_last() =~= idx.drop_last().skip(k));
        assert(idx.skip(k).last() == idx.last());
    }
}

proof fn lemma_flat_lengths(sp: Seq<(Seq<char>, Style)>)
    ensures
        flat_chars(sp).len() == flat_styles(sp).len(),
    decreases sp.len(),
{
    if sp.len() > 0 {
        lemma_flat_lengths(sp.drop_last());
    }
}

/// Groups `chars` (with their `styles`) into runs of equal style.
fn group(chars: &Vec<char>, styles: &Vec<Style>) -> (r: Vec<Span>)
    requires
        chars@.len() == styles@.len(),
    ensures
        spans_view(r@) == group_runs(chars@, styles@),
{
    let mut r: Vec<Span> = Vec::new();
    if chars.len() == 0 {
        assert(spans_view(r@) =~= Seq::empty());
        return r;
    }
    let mut cur_style = styles[0];
    let mut cur_text: Vec<char> = Vec::new();
    let mut k: usize = 0;
    while k < chars.len()
        invariant
            k <= chars@.len(),
            chars@.len() == styles@.len(),
            chars@.len() > 0,
            k == 0 ==> r@.len() == 0 && cur_text@.len() == 0 && cur_style == styles@[0],
            k > 0 ==> cur_text@.len() > 0 && group_runs(
                chars@.take(k as int),
                styles@.take(k as int),
            ) == spans_view(r@).push((cur_text@, cur_style)),
        decreases chars.len() - k,
    {
        let ghost gk = group_runs(chars@.take(k as int), styles@.take(k as int));
        proof {
            assert(chars@.take(k + 1).drop_last() =~= chars@.take(k as int));
            assert(styles@.take(k + 1).drop_last() =~= styles@.take(k as int));
        }
        if k == 0 {
            cur_text.push(chars[0]);
            proof {
                assert(group_runs(chars@.take(0), styles@.take(0)) =~= Seq::empty());
                assert(cur_text@ =~= seq![chars@[0]]);
                assert(spans_view(r@).push((cur_text@, cur_style)) =~= seq![(seq![chars@[0]], styles@[0])]);
            }
        } else if styles[k] == cur_style {
            cur_text.push(chars[k]);
            proof {
                assert(spans_view(r@).push((cur_text@, cur_style)) =~= gk.update(
                    gk.len() - 1,
                    (gk.last().0.push(chars@[k as int]), gk.last().1),
                ));
            }
        } else {
            let text = crate::text::chars_to_string(cur_text.as_slice());
            r.push(Span { content: text, style: cur_style });
            cur_text = Vec::new();
            cur_text.push(chars[k]);
            cur_style = styles[k];
            proof {
                assert(spans_view(r@) =~= gk);
                assert(spans_view(r@).push((cur_text@, cur_style)) =~= gk.push(
                    (seq![chars@[k as int]], styles@[k as int]),
                ));
            }
        }
        k += 1;
    }
    let text = crate::text::chars_to_string(cur_text.as_slice());
    let ghost before = spans_view(r@);
    r.push(Span { content: text, style: cur_style });
    proof {
        assert(spans_view(r@) =~= before.push((cur_text@, cur_style)));
        assert(chars@.take(chars@.len() as int) =~= chars@);
        assert(styles@.take(styles@.len() as int) =~= styles@);
    }
    r
}

/// The lines view of wrapped spans.
pub open spec fn span_lines_view(v: Seq<Vec<Span>>) -> Seq<Seq<(Seq<char>, Style)>> {
    v.map_values(|l: Vec<Span>| spans_view(l@))
}

impl LineWrapper {
    /// Wraps styled spans to `max_width` columns; each wrapped line is
    /// regrouped into spans of equal style.
    pub fn wrap_spans(spans: Vec<Span>, max_width: usize, tab_width: usize) -> (r: Vec<Vec<Span>>)
        requires
            wrap_fits(flat_chars(spans_view(spans@)), max_width, tab_width),
        ensures
            span_lines_view(r@) == wrap_spans_spec(
                spans_view(spans@),
                max_width as nat,
                tab_width as nat,
            ),
    {
        let ghost sv = spans_view(spans@);
        if spans.len() == 0 {
            let r: Vec<Vec<Span>> = Vec::new();
            assert(span_lines_view(r@) =~= Seq::empty());
            return r;
        }
        if max_width == 0 {
            let mut r: Vec<Vec<Span>> = Vec::new();
            r.push(spans);
            assert(span_lines_view(r@) =~= seq![sv]);
            return r;
        }
        let mut chars: Vec<char> = Vec::new();
        let mut styles: Vec<Style> = Vec::new();
        let mut i: usize = 0;
        while i < spans.len()
            invariant
                i <= spans@.len(),
                sv == spans_view(spans@),
                chars@ == flat_chars(sv.take(i as int)),
                styles@ == flat_styles(sv.take(i as int)),
            decreases spans.len() - i,
        {
            let cs = crate::text::str_to_chars(spans[i].content.as_str());
            let st = spans[i].style;
            proof {
                assert(sv.take(i + 1).drop_last() =~= sv.take(i as int));
                assert(sv.take(i + 1).last() == (cs@, st));
            }
            let ghost c0 = chars@;
            let ghost s0 = styles@;
            let mut j: usize = 0;
            while j < cs.len()
                invariant
                    j <= cs@.len(),
                    chars@ == c0 + cs@.take(j as int),
                    styles@ == s0 + Seq::new(j as nat, |k: int| st),
                decreases cs.len() - j,
            {
                chars.push(cs[j]);
                styles.push(st);
                j += 1;
                proof {
                    assert(chars@ =~= c0 + cs@.take(j as int));
                    assert(styles@ =~= s0 + Seq::new(j as nat, |k: int| st));
                }
            }
            proof {
                assert(cs@.take(cs@.len() as int) =~= cs@);
                assert(styles@ =~= s0 + Seq::new(cs@.len(), |k: int| st));
            }
            i += 1;
        }
        proof {
            assert(sv.take(sv.len() as int) =~= sv);
            lemma_flat_lengths(sv);
        }
        let pos = Self::wrap_core(chars.as_slice(), max_width, tab_width);
        let mut r: Vec<Vec<Span>> = Vec::new();
        let mut a: usize = 0;
        while a < pos.len()
            invariant
                a <= pos@.len(),
                chars@ == flat_chars(sv),
                styles@ == flat_styles(sv),
                chars@.len() == styles@.len(),
                positions_view(pos@) == wrap_from(
                    chars@,
                    max_width as nat,
                    tab_width as nat,
                    0,
                    Seq::empty(),
                    Seq::empty(),
                ),
                forall|x: int, y: int|
                    0 <= x < pos@.len() && 0 <= y < pos@[x]@.len() ==> (#[trigger] pos@[x]@[y]
                        as int) < chars@.len(),
                r@.len() == a,
                forall|x: int|
                    0 <= x < a ==> spans_view((#[trigger] r@[x])@) == group_runs(
                        pick(chars@, as_ints(pos@[x]@)),
                        pick_styles(styles@, as_ints(pos@[x]@)),
                    ),
            decreases pos.len() - a,
        {
            let p = &pos[a];
            let mut lc: Vec<char> = Vec::new();
            let mut ls: Vec<Style> = Vec::new();
            let mut b: usize = 0;
            while b < p.len()
                invariant
                    b <= p@.len(),
                    chars@.len() == styles@.len(),
                    forall|y: int| 0 <= y < p@.len() ==> (p@[y] as int) < chars@.len(),
                    lc@ == pick(chars@, as_ints(p@.take(b as int))),
                    ls@ == pick_styles(styles@, as_ints(p@.take(b as int))),
                decreases p.len() - b,
            {
                lc.push(chars[p[b]]);
                ls.push(styles[p[b]]);
                b += 1;
                proof {
                    assert(lc@ =~= pick(chars@, as_ints(p@.take(b as int))));
                    assert(ls@ =~= pick_styles(styles@, as_ints(p@.take(b as int))));
                }
            }
            proof {
                assert(p@.take(p@.len() as int) =~= p@);
            }
            r.push(group(&lc, &ls));
            a += 1;
        }
        proof {
            assert(span_lines_view(r@) =~= wrap_spans_spec(sv, max_width as nat, tab_width as nat));
        }
        r
    }

    /// The wrapped lines of `line`.
    pub fn wrap_line(line: &[char], max_width: usize, tab_width: usize) -> (r: Vec<Vec<char>>)
        requires
            wrap_fits(line@, max_width, tab_width),
        ensures
            crate::edtui::rows(&r) == wrap_spec(line@, max_width as nat, tab_width as nat),
    {
        let pos = Self::wrap_positions(line, max_width, tab_width);
        let mut r: Vec<Vec<char>> = Vec::new();
        let mut a: usize = 0;
        while a < pos.len()
            invariant
                a <= pos@.len(),
                positions_view(pos@) == wrap_positions(line@, max_width as nat, tab_width as nat),
                forall|x: int, y: int|
                    0 <= x < pos@.len() && 0 <= y < pos@[x]@.len() ==> (#[trigger] pos@[x]@[y]
                        as int) < line@.len(),
                r@.len() == a,
                forall|x: int| 0 <= x < a ==> (#[trigger] r@[x])@ == pick(line@, as_ints(pos@[x]@)),
            decreases pos.len() - a,
        {
            let p = &pos[a];
            let mut row: Vec<char> = Vec::new();
            let mut b: usize = 0;
            while b < p.len()
                invariant
                    b <= p@.len(),
                    forall|y: int| 0 <= y < p@.len() ==> (p@[y] as int) < line@.len(),
                    row@ == pick(line@, as_ints(p@.take(b as int))),
                decreases p.len() - b,
            {
                row.push(line[p[b]]);
                b += 1;
                proof {
                    assert(row@ =~= pick(line@, as_ints(p@.take(b as int))));
                }
            }
            proof {
                assert(p@.take(p@.len() as int) =~= p@);
            }
            r.push(row);
            a += 1;
        }
        proof {
            assert(crate::edtui::rows(&r) =~= wrap_spec(line@, max_width as nat, tab_width as nat));
        }
        r
    }

    /// The positions of the characters of each wrapped line of `line`.
    pub fn wrap_positions(line: &[char], max_width: usize, tab_width: usize) -> (r: Vec<
        Vec<usize>,
    >)
        requires
            wrap_fits(line@, max_width, tab_width),
        ensures
            positions_view(r@) == wrap_positions(line@, max_width as nat, tab_width as nat),
            forall|a: int, b: int|
                0 <= a < r@.len() && 0 <= b < r@[a]@.len() ==> (#[trigger] r@[a]@[b] as int)
                    < line@.len(),
    {
        if line.len() == 0 {
            let mut r: Vec<Vec<usize>> = Vec::new();
            let empty: Vec<usize> = Vec::new();
            r.push(empty);
            assert(as_ints(r@[0]@) =~= Seq::<int>::empty());
            assert(positions_view(r@) =~= seq![Seq::<int>::empty()]);
            return r;
        }
        if max_width == 0 {
            let mut all: Vec<usize> = Vec::new();
            let mut k: usize = 0;
            while k < line.len()
                invariant
                    k <= line@.len(),
                    all@.len() == k,
                    forall|j: int| 0 <= j < k ==> all@[j] == j,
                decreases line.len() - k,
            {
                all.push(k);
                k += 1;
            }
            assert(as_ints(all@) =~= Seq::new(line@.len(), |j: int| j));
            let mut r: Vec<Vec<usize>> = Vec::new();
            r.push(all);
            assert(positions_view(r@) =~= seq![Seq::new(line@.len(), |j: int| j)]);
            return r;
        }
        Self::wrap_core(line, max_width, tab_width)
    }

    /// The wrapping loop: positions of the characters of each wrapped line,
    /// for a positive width.
    pub fn wrap_core(line: &[char], max_width: usize, tab_width: usize) -> (r: Vec<Vec<usize>>)
        requires
            wrap_fits(line@, max_width, tab_width),
            max_width > 0,
        ensures
            positions_view(r@) == wrap_from(
                line@,
                max_width as nat,
                tab_width as nat,
                0,
                Seq::empty(),
                Seq::empty(),
            ),
            forall|a: int, b: int|
                0 <= a < r@.len() && 0 <= b < r@[a]@.len() ==> (#[trigger] r@[a]@[b] as int)
                    < line@.len(),
    {
        let ghost tab = tab_width as nat;
        let ghost mw = max_width as nat;
        let mut done: Vec<Vec<usize>> = Vec::new();
        let mut cur: Vec<usize> = Vec::new();
        let mut w: usize = 0;
        let mut sp: Option<usize> = None;
        let mut i: usize = 0;
        proof {
            assert(positions_view(done@) =~= Seq::<Seq<int>>::empty());
            assert(as_ints(cur@) =~= Seq::<int>::empty());
        }
        while i < line.len()
            invariant
                i <= line@.len(),
                max_width > 0,
                wrap_fits(line@, max_width, tab_width),
                increasing_below(as_ints(cur@), i as int),
                tab == tab_width as nat,
                mw == max_width as nat,
                wrap_from(line@, mw, tab, 0, Seq::empty(), Seq::empty()) == wrap_from(
                    line@,
                    mw,
                    tab,
                    i as int,
                    positions_view(done@),
                    as_ints(cur@),
                ),
                forall|k: int| 0 <= k < cur@.len() ==> (cur@[k] as int) < i,
                forall|a: int, b: int|
                    0 <= a < done@.len() && 0 <= b < done@[a]@.len() ==> (#[trigger] done@[a]@[b]
                        as int) < line@.len(),
                w == width_of(line@, as_ints(cur@), tab),
                w <= row_cap(max_width, tab_width),
                match last_space(line@, as_ints(cur@)) {
                    Some(s) => sp == Some(s as usize),
                    None => sp is None,
                },
            decreases line.len() - i, cur.len(),
        {
            let ch = line[i];
            let cw = char_width(ch, tab_width);
            let ghost d = positions_view(done@);
            let ghost c = as_ints(cur@);
            proof {
                lemma_width_within_prefix(line@, c, i as int, tab);
                lemma_row_width_prefix_mono(line@, i as int, line@.len() as int, tab);
                assert(line@.take(line@.len() as int) =~= line@);
            }
            if w + cw > max_width {
                match sp {
                    Some(s) => {
                        proof {
                            lemma_last_space_bounds(line@, c);
                            lemma_width_split(line@, c, s + 1, tab);
                        }
                        let head = vstd::slice::slice_to_vec(&cur.as_slice()[0..s]);
                        let tail = vstd::slice::slice_to_vec(&cur.as_slice()[s + 1..cur.len()]);
                        done.push(head);
                        cur = tail;
                        proof {
                            assert(as_ints(head@) =~= c.take(s as int));
                            assert(as_ints(cur@) =~= c.skip(s + 1));
                            assert(positions_view(done@) =~= d.push(c.take(s as int)));
                        }
                        let ws = width_and_space(line, &cur, tab_width);
                        w = ws.0;
                        sp = ws.1;
                    },
                    None => {
                        done.push(cur);
                        cur = vec![i];
                        w = cw;
                        sp = if ch == ' ' {
                            Some(0)
                        } else {
                            None
                        };
                        proof {
                            assert(positions_view(done@) =~= d.push(c));
                            assert(as_ints(cur@) =~= seq![i as int]);
                            assert(seq![i as int].drop_last() =~= Seq::<int>::empty());
                        }
                        i += 1;
                    },
                }
            } else {
                cur.push(i);
                w = w + cw;
                if ch == ' ' {
                    sp = Some(cur.len() - 1);
                }
                proof {
                    assert(as_ints(cur@) =~= c.push(i as int));
                    assert(as_ints(cur@).drop_last() =~= c);
                }
                i += 1;
            }
        }
        if cur.len() > 0 {
            done.push(cur);
            proof {
                assert(positions_view(done@) =~= positions_view(done@.drop_last()).push(as_ints(cur@)));
            }
        }
        done
    }

    /// Splits a line width into chunks no wider than `max_width`.
    pub fn determine_split(line_width: usize, max_width: usize) -> (r: Vec<usize>)
        requires
            line_width == 0 || max_width > 0,
        ensures
            r@ == split_spec(line_width as nat, max_width as nat),
    {
        if line_width == 0 {
            return vec![0];
        }
        let mut remaining = line_width;
        let mut split: Vec<usize> = Vec::new();
        while remaining > 0
            invariant
                max_width > 0,
                remaining > 0 ==> split@ + split_spec(remaining as nat, max_width as nat)
                    == split_spec(line_width as nat, max_width as nat),
                remaining > 0 || split_spec(line_width as nat, max_width as nat) == split@,
            decreases remaining,
        {
            let chunk = if remaining < max_width {
                remaining
            } else {
                max_width
            };
            proof {
                if remaining > max_width {
                    assert(split_spec(remaining as nat, max_width as nat) == seq![max_width as usize]
                        + split_spec((remaining - max_width) as nat, max_width as nat));
                }
            }
            split.push(chunk);
            if remaining > max_width {
                proof {
                    assert(split@ + split_spec((remaining - max_width) as nat, max_width as nat)
                        =~= split_spec(line_width as nat, max_width as nat));
                }
                remaining = remaining - max_width;
            } else {
                proof {
                    assert(split@ =~= split_spec(line_width as nat, max_width as nat));
                }
                remaining = 0;
            }
        }
        split
    }
}

} // verus!
