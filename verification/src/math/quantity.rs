//! Values of the calculator: a number with an optional unit, a list of
//! values, or a truth value; and their display text.

use crate::links::{find_char, find_char_from};
use crate::math::number::{
    abs_int, dec_text, number_text, opt_ratio, pow_spec, radix_text, ratio_text, trunc_spec,
    twos_complement, twos_complement_chars, radix_chars, Rational,
};
use crate::text::{
    char_is_alphabetic, chars_to_string, equals_str, has_prefix, push_chars, push_str,
    starts_with_str, str_to_chars,
    unicode_alphabetic,
};
use vstd::prelude::*;

verus! {

/// A calculator value: a number with an optional unit, or a list of values
/// (`list`), or a truth value (`is_bool`, true when `value` is not zero).
#[derive(Debug)]
pub struct Quantity {
    pub value: Rational,
    pub unit: Option<String>,
    pub list: Option<Vec<Quantity>>,
    pub is_bool: bool,
}

/// The mathematical model of a `Quantity`.
pub struct QuantityV {
    pub value: (int, int),
    pub unit: Option<Seq<char>>,
    pub list: Option<Seq<QuantityV>>,
    pub is_bool: bool,
}

/// The model of a quantity.
pub open spec fn qv(q: Quantity) -> QuantityV
    decreases q, 0nat,
{
    QuantityV {
        value: q.value@,
        unit: match q.unit {
            Some(u) => Some(u@),
            None => None,
        },
        list: match q.list {
            Some(v) => Some(qvs(v@)),
            None => None,
        },
        is_bool: q.is_bool,
    }
}

/// The models of a sequence of quantities.
pub open spec fn qvs(s: Seq<Quantity>) -> Seq<QuantityV>
    decreases s, 1nat,
{
    if s.len() == 0 {
        Seq::empty()
    } else {
        qvs(s.drop_last()).push(qv(s.last()))
    }
}

impl View for Quantity {
    type V = QuantityV;

    open spec fn view(&self) -> QuantityV {
        qv(*self)
    }
}

/// `qvs` maps each quantity to its model.
pub proof fn lemma_qvs(s: Seq<Quantity>)
    ensures
        qvs(s).len() == s.len(),
        forall|i: int| 0 <= i < s.len() ==> #[trigger] qvs(s)[i] == qv(s[i]),
    decreases s.len(),
{
    if s.len() > 0 {
        lemma_qvs(s.drop_last());
        assert forall|i: int| 0 <= i < s.len() implies #[trigger] qvs(s)[i] == qv(s[i]) by {
            if i < s.len() - 1 {
                assert(s.drop_last()[i] == s[i]);
            }
        }
    }
}

impl Quantity {
    /// A number with an optional unit.
    pub fn scalar(value: Rational, unit: Option<String>) -> (q: Quantity)
        ensures
            q@ == (QuantityV {
                value: value@,
                unit: match unit {
                    Some(u) => Some(u@),
                    None => None,
                },
                list: None,
                is_bool: false,
            }),
    {
        Quantity { value, unit, list: None, is_bool: false }
    }

    /// A truth value: one for true, zero for false.
    pub fn boolean(b: bool) -> (q: Quantity)
        ensures
            q@.is_bool,
            q@.list is None,
            q@.unit is None,
            q@.value == (if b {
                (1int, 1int)
            } else {
                (0int, 1int)
            }),
    {
        Quantity {
            value: Rational::from_int(if b {
                1
            } else {
                0
            }),
            unit: None,
            list: None,
            is_bool: true,
        }
    }
}

/// The numerator of a value is not zero.
pub open spec fn nonzero(v: (int, int)) -> bool {
    v.0 != 0
}

/// `parts` joined with `sep` between them.
pub open spec fn join(parts: Seq<Seq<char>>, sep: Seq<char>) -> Seq<char>
    decreases parts.len(),
{
    if parts.len() == 0 {
        Seq::empty()
    } else if parts.len() == 1 {
        parts[0]
    } else {
        join(parts.drop_last(), sep) + sep + parts.last()
    }
}

/// Unit words with a singular and a plural spelling.
pub open spec fn unit_words() -> Seq<(Seq<char>, Seq<char>)> {
    seq![
        ("second"@, "seconds"@),
        ("minute"@, "minutes"@),
        ("hour"@, "hours"@),
        ("day"@, "days"@),
        ("week"@, "weeks"@),
        ("month"@, "months"@),
        ("year"@, "years"@),
        ("mile"@, "miles"@),
    ]
}

/// The first entry of `unit_words` at or after `i` that spells `w`.
pub open spec fn unit_word_from(w: Seq<char>, i: int) -> Option<int>
    decreases unit_words().len() - i,
{
    if i < 0 || i >= unit_words().len() {
        None
    } else if unit_words()[i].0 == w || unit_words()[i].1 == w {
        Some(i)
    } else {
        unit_word_from(w, i + 1)
    }
}

/// `w` in its singular (`one`) or plural spelling when it is a unit word;
/// any other unit unchanged.
pub open spec fn number_word(w: Seq<char>, one: bool) -> Seq<char> {
    match unit_word_from(w, 0) {
        Some(i) => if one {
            unit_words()[i].0
        } else {
            unit_words()[i].1
        },
        None => w,
    }
}

/// The unit as written after a value: the part before the first `/` takes
/// its singular spelling for a value of one and its plural one otherwise.
pub open spec fn adjust_unit_plurality_spec(u: Seq<char>, value: (int, int)) -> Seq<char> {
    let one = value.0 == value.1;
    match find_char_from(u, '/', 0) {
        Some(k) => number_word(u.subrange(0, k), one) + u.subrange(k, u.len() as int),
        None => number_word(u, one),
    }
}

/// The text of a value with unit `u`: a leading `$` goes before the number,
/// a word after it with a space, any other symbol right after it.
pub open spec fn with_unit(rounded: Seq<char>, adj: Seq<char>) -> Seq<char> {
    if adj.len() > 0 && adj[0] == '$' {
        seq!['$'] + rounded + adj.skip(1)
    } else if adj.len() > 0 && unicode_alphabetic(adj[0]) && adj != "i"@ {
        rounded + seq![' '] + adj
    } else {
        rounded + adj
    }
}

/// The text of a single number with its unit: `hex` and `bin` units show the
/// truncated value in base 16 or 2.
pub open spec fn scalar_text(value: (int, int), unit: Option<Seq<char>>) -> Seq<char> {
    match unit {
        Some(u) => if u == "hex"@ {
            "0x"@ + radix_text(twos_complement(trunc_spec(value)), 16)
        } else if u == "bin"@ {
            "0b"@ + radix_text(twos_complement(trunc_spec(value)), 2)
        } else {
            with_unit(ratio_text(value), adjust_unit_plurality_spec(u, value))
        },
        None => ratio_text(value),
    }
}

/// The text `re + imi` or `re - |im|i` of a complex number.
pub open spec fn complex_text(re: (int, int), im: (int, int)) -> Seq<char> {
    ratio_text(re) + (if im.0 < 0 {
        " - "@
    } else {
        " + "@
    }) + number_text(false, abs_int(im.0) as nat, im.1 as nat) + seq!['i']
}

/// The display text of a value.
pub open spec fn format_quantity_spec(q: QuantityV) -> Seq<char>
    decreases q, 0nat,
{
    if q.unit is Some && has_prefix(q.unit->0, "sparkline:"@) {
        q.unit->0.skip(10)
    } else if q.unit is Some && has_prefix(q.unit->0, "formula:"@) {
        q.unit->0.skip(8)
    } else if q.unit == Some("complex"@) && q.list is Some && q.list->0.len() >= 2 {
        complex_text(q.list->0[0].value, q.list->0[1].value)
    } else if q.is_bool {
        if nonzero(q.value) {
            "True"@
        } else {
            "False"@
        }
    } else if q.list is Some {
        seq!['['] + join(format_all_spec(q.list->0), ", "@) + seq![']']
    } else {
        scalar_text(q.value, q.unit)
    }
}

/// The display texts of a sequence of values.
pub open spec fn format_all_spec(s: Seq<QuantityV>) -> Seq<Seq<char>>
    decreases s, 1nat,
{
    if s.len() == 0 {
        Seq::empty()
    } else {
        format_all_spec(s.drop_last()).push(format_quantity_spec(s.last()))
    }
}


fn unit_word_at(i: usize) -> (r: (&'static str, &'static str))
    requires
        i < 8,
    ensures
        (r.0@, r.1@) == unit_words()[i as int],
{
    if i == 0 {
        ("second", "seconds")
    } else if i == 1 {
        ("minute", "minutes")
    } else if i == 2 {
        ("hour", "hours")
    } else if i == 3 {
        ("day", "days")
    } else if i == 4 {
        ("week", "weeks")
    } else if i == 5 {
        ("month", "months")
    } else if i == 6 {
        ("year", "years")
    } else {
        ("mile", "miles")
    }
}

fn number_word_into(out: &mut Vec<char>, w: &[char], one: bool)
    ensures
        final(out)@ == old(out)@ + number_word(w@, one),
{
    assert(unit_words().len() == 8);
    let mut i: usize = 0;
    while i < 8
        invariant
            i <= 8,
            unit_words().len() == 8,
            out@ == old(out)@,
            unit_word_from(w@, 0) == unit_word_from(w@, i as int),
        decreases 8 - i,
    {
        let (a, b) = unit_word_at(i);
        if equals_str(w, a) || equals_str(w, b) {
            if one {
                push_str(out, a);
            } else {
                push_str(out, b);
            }
            return;
        }
        i += 1;
    }
    push_chars(out, w);
}

fn adjust_into(out: &mut Vec<char>, u: &Vec<char>, value: &Rational)
    ensures
        final(out)@ == old(out)@ + adjust_unit_plurality_spec(u@, value@),
{
    let one = value.is_one();
    match find_char(u, '/', 0) {
        Some(k) => {
            number_word_into(out, &u.as_slice()[0..k], one);
            push_chars(out, &u.as_slice()[k..u.len()]);
            assert(out@ =~= old(out)@ + adjust_unit_plurality_spec(u@, value@));
        },
        None => {
            number_word_into(out, u.as_slice(), one);
        },
    }
}

/// The unit as written after `value`: the part before the first `/` in its
/// singular spelling for a value of one, in its plural spelling otherwise.
pub fn adjust_unit_plurality(u: &str, value: &Rational) -> (r: String)
    ensures
        r@ == adjust_unit_plurality_spec(u@, value@),
{
    let uc = str_to_chars(u);
    let mut out: Vec<char> = Vec::new();
    adjust_into(&mut out, &uc, value);
    assert(out@ =~= adjust_unit_plurality_spec(u@, value@));
    chars_to_string(out.as_slice())
}

fn scalar_into(out: &mut Vec<char>, value: &Rational, unit: &Option<String>)
    ensures
        final(out)@ == old(out)@ + scalar_text(
            value@,
            match unit {
                Some(u) => Some(u@),
                None => None,
            },
        ),
{
    match unit {
        Some(u) => {
            let uc = str_to_chars(u.as_str());
            if equals_str(uc.as_slice(), "hex") {
                push_str(out, "0x");
                let d = twos_complement_chars(value.trunc(), 16);
                push_chars(out, d.as_slice());
                return;
            }
            if equals_str(uc.as_slice(), "bin") {
                push_str(out, "0b");
                let d = twos_complement_chars(value.trunc(), 2);
                push_chars(out, d.as_slice());
                return;
            }
            let rounded = value.format_float();
            let mut adj: Vec<char> = Vec::new();
            adjust_into(&mut adj, &uc, value);
            assert(adj@ =~= adjust_unit_plurality_spec(u@, value@));
            if adj.len() > 0 && adj[0] == '$' {
                out.push('$');
                push_chars(out, rounded.as_slice());
                push_chars(out, &adj.as_slice()[1..adj.len()]);
                assert(adj@.subrange(1, adj@.len() as int) =~= adj@.skip(1));
            } else if adj.len() > 0 && char_is_alphabetic(adj[0]) && !equals_str(adj.as_slice(), "i") {
                push_chars(out, rounded.as_slice());
                out.push(' ');
                push_chars(out, adj.as_slice());
            } else {
                push_chars(out, rounded.as_slice());
                push_chars(out, adj.as_slice());
            }
            assert(out@ =~= old(out)@ + with_unit(ratio_text(value@), adjust_unit_plurality_spec(u@, value@)));
        },
        None => {
            let rounded = value.format_float();
            push_chars(out, rounded.as_slice());
        },
    }
}

/// Appends the display text of `q`.
fn format_into(out: &mut Vec<char>, q: &Quantity)
    ensures
        final(out)@ == old(out)@ + format_quantity_spec(q@),
    decreases q, 0nat,
{
    proof {
        reveal_strlit("sparkline:");
        reveal_strlit("formula:");
    }
    match &q.unit {
        Some(u) => {
            let uc = str_to_chars(u.as_str());
            if starts_with_str(uc.as_slice(), "sparkline:") {
                push_chars(out, &uc.as_slice()[10..uc.len()]);
                assert(uc@.subrange(10, uc@.len() as int) =~= uc@.skip(10));
                return;
            }
            if starts_with_str(uc.as_slice(), "formula:") {
                push_chars(out, &uc.as_slice()[8..uc.len()]);
                assert(uc@.subrange(8, uc@.len() as int) =~= uc@.skip(8));
                return;
            }
            if equals_str(uc.as_slice(), "complex") {
                match &q.list {
                    Some(list) => {
                        if list.len() >= 2 {
                            proof {
                                lemma_qvs(list@);
                            }
                            let re = &list[0].value;
                            let im = &list[1].value;
                            let rt = re.format_float();
                            push_chars(out, rt.as_slice());
                            if im.is_negative() {
                                push_str(out, " - ");
                            } else {
                                push_str(out, " + ");
                            }
                            let it = im.format_abs();
                            push_chars(out, it.as_slice());
                            out.push('i');
                            assert(out@ =~= old(out)@ + format_quantity_spec(q@));
                            return;
                        }
                    },
                    None => {},
                }
            }
        },
        None => {},
    }
    proof {
        if q.list is Some {
            lemma_qvs(q.list->0@);
        }
    }
    assert(!(q@.unit is Some && has_prefix(q@.unit->0, "sparkline:"@)));
    assert(!(q@.unit is Some && has_prefix(q@.unit->0, "formula:"@)));
    assert(!(q@.unit == Some("complex"@) && q@.list is Some && q@.list->0.len() >= 2));
    if q.is_bool {
        if q.value.is_zero() {
            push_str(out, "False");
        } else {
            push_str(out, "True");
        }
        return;
    }
    match &q.list {
        Some(list) => {
            out.push('[');
            format_list_into(out, list);
            out.push(']');
            assert(out@ =~= old(out)@ + format_quantity_spec(q@));
        },
        None => {
            scalar_into(out, &q.value, &q.unit);
        },
    }
}

/// Appends the display texts of `list` joined with `, `.
fn format_list_into(out: &mut Vec<char>, list: &Vec<Quantity>)
    ensures
        final(out)@ == old(out)@ + join(format_all_spec(qvs(list@)), ", "@),
    decreases list, 1nat,
{
    proof {
        reveal_strlit(", ");
    }
    let ghost start = out@;
    let mut i: usize = 0;
    while i < list.len()
        invariant
            i <= list@.len(),
            out@ == start + join(format_all_spec(qvs(list@.take(i as int))), ", "@),
        decreases list.len() - i,
    {
        if i > 0 {
            push_str(out, ", ");
        }
        format_into(out, &list[i]);
        proof {
            let t = list@.take(i + 1);
            assert(t.drop_last() =~= list@.take(i as int));
            assert(t.last() == list@[i as int]);
            assert(qvs(t).drop_last() == qvs(list@.take(i as int)));
            assert(format_all_spec(qvs(t)).drop_last() == format_all_spec(qvs(list@.take(i as int))));
            lemma_qvs(t);
            lemma_format_all_len(qvs(t));
            lemma_format_all_len(qvs(list@.take(i as int)));
            lemma_qvs(list@.take(i as int));
            assert(out@ =~= start + join(format_all_spec(qvs(t)), ", "@));
        }
        i += 1;
    }
    assert(list@.take(list@.len() as int) =~= list@);
}

proof fn lemma_format_all_len(s: Seq<QuantityV>)
    ensures
        format_all_spec(s).len() == s.len(),
    decreases s.len(),
{
    if s.len() > 0 {
        lemma_format_all_len(s.drop_last());
    }
}

/// The display text of a value: a sparkline or formula unit shows its text;
/// a complex number `a + bi`; a truth value `True` or `False`; a list its
/// elements in brackets; a number its value and unit (see `scalar_text`).
pub fn format_quantity(qty: &Quantity) -> (r: String)
    ensures
        r@ == format_quantity_spec(qty@),
{
    let mut out: Vec<char> = Vec::new();
    format_into(&mut out, qty);
    assert(out@ =~= format_quantity_spec(qty@));
    chars_to_string(out.as_slice())
}


impl Quantity {
    /// A copy of the value.
    pub fn duplicate(&self) -> (r: Quantity)
        ensures
            r@ == self@,
        decreases self, 0nat,
    {
        let unit = match &self.unit {
            Some(u) => Some(u.clone()),
            None => None,
        };
        let list = match &self.list {
            Some(l) => Some(duplicate_all(l)),
            None => None,
        };
        Quantity { value: self.value, unit, list, is_bool: self.is_bool }
    }
}

/// Copies of the values.
fn duplicate_all(l: &Vec<Quantity>) -> (r: Vec<Quantity>)
    ensures
        qvs(r@) == qvs(l@),
    decreases l, 1nat,
{
    let mut r: Vec<Quantity> = Vec::new();
    let mut i: usize = 0;
    while i < l.len()
        invariant
            i <= l@.len(),
            qvs(r@) == qvs(l@.take(i as int)),
        decreases l.len() - i,
    {
        let ghost before = r@;
        let c = l[i].duplicate();
        r.push(c);
        proof {
            assert(r@.drop_last() =~= before);
            assert(l@.take(i + 1).drop_last() =~= l@.take(i as int));
        }
        i += 1;
    }
    assert(l@.take(l@.len() as int) =~= l@);
    r
}

/// The value is an imaginary number (unit `i`) or a complex one (unit
/// `complex` with its parts in `list`).
pub open spec fn is_complex_spec(q: QuantityV) -> bool {
    q.unit == Some("i"@) || (q.unit == Some("complex"@) && q.list is Some)
}

/// The value is an imaginary or complex number.
pub fn is_complex(qty: &Quantity) -> (r: bool)
    ensures
        r == is_complex_spec(qty@),
{
    match &qty.unit {
        Some(u) => {
            let uc = str_to_chars(u.as_str());
            equals_str(uc.as_slice(), "i") || (equals_str(uc.as_slice(), "complex")
                && qty.list.is_some())
        },
        None => false,
    }
}

/// The real and imaginary parts of a value.
pub open spec fn complex_parts_spec(q: QuantityV) -> ((int, int), (int, int)) {
    if q.unit == Some("i"@) {
        ((0, 1), q.value)
    } else if q.unit == Some("complex"@) && q.list is Some && q.list->0.len() >= 2 {
        (q.list->0[0].value, q.list->0[1].value)
    } else {
        (q.value, (0, 1))
    }
}

/// The real and imaginary parts of a value: an imaginary number has no real
/// part, a complex one holds both in its list, any other value is real.
pub fn to_complex_parts(qty: &Quantity) -> (r: (Rational, Rational))
    ensures
        (r.0@, r.1@) == complex_parts_spec(qty@),
{
    proof {
        if qty.list is Some {
            lemma_qvs(qty.list->0@);
        }
    }
    match &qty.unit {
        Some(u) => {
            let uc = str_to_chars(u.as_str());
            if equals_str(uc.as_slice(), "i") {
                return (Rational::from_int(0), qty.value);
            }
            if equals_str(uc.as_slice(), "complex") {
                match &qty.list {
                    Some(list) => {
                        if list.len() >= 2 {
                            return (list[0].value, list[1].value);
                        }
                    },
                    None => {},
                }
            }
            (qty.value, Rational::from_int(0))
        },
        None => (qty.value, Rational::from_int(0)),
    }
}

/// The value `re + im i`: a real number when `im` is zero, an imaginary one
/// when only `re` is zero, else a complex value holding both parts.
pub open spec fn complex_qty_spec(re: (int, int), im: (int, int)) -> QuantityV {
    if im.0 == 0 {
        QuantityV { value: re, unit: None, list: None, is_bool: false }
    } else if re.0 == 0 {
        QuantityV { value: im, unit: Some("i"@), list: None, is_bool: false }
    } else {
        QuantityV {
            value: re,
            unit: Some("complex"@),
            list: Some(
                seq![
                    QuantityV { value: re, unit: None, list: None, is_bool: false },
                    QuantityV { value: im, unit: Some("i"@), list: None, is_bool: false },
                ],
            ),
            is_bool: false,
        }
    }
}

/// The value `re + im i`.
pub fn make_complex_qty(re: Rational, im: Rational) -> (q: Quantity)
    ensures
        q@ == complex_qty_spec(re@, im@),
{
    if im.is_zero() {
        Quantity { value: re, unit: None, list: None, is_bool: false }
    } else if re.is_zero() {
        Quantity { value: im, unit: Some("i".to_string()), list: None, is_bool: false }
    } else {
        let mut parts: Vec<Quantity> = Vec::new();
        parts.push(Quantity { value: re, unit: None, list: None, is_bool: false });
        parts.push(Quantity { value: im, unit: Some("i".to_string()), list: None, is_bool: false });
        let q = Quantity {
            value: re,
            unit: Some("complex".to_string()),
            list: Some(parts),
            is_bool: false,
        };
        proof {
            lemma_qvs(parts@);
            assert(qvs(parts@) =~= seq![
                QuantityV { value: re@, unit: None, list: None, is_bool: false },
                QuantityV { value: im@, unit: Some("i"@), list: None, is_bool: false },
            ]);
        }
        q
    }
}

/// The non-list values inside `q`, depth first, in order.
pub open spec fn flatten_spec(q: QuantityV) -> Seq<QuantityV>
    decreases q, 0nat,
{
    match q.list {
        Some(l) => flatten_all_spec(l),
        None => seq![q],
    }
}

/// The non-list values inside each of `s`, in order.
pub open spec fn flatten_all_spec(s: Seq<QuantityV>) -> Seq<QuantityV>
    decreases s, 1nat,
{
    if s.len() == 0 {
        Seq::empty()
    } else {
        flatten_all_spec(s.drop_last()) + flatten_spec(s.last())
    }
}

/// Appends the non-list values inside `qty` to `target`, depth first.
pub fn flatten_quantity(qty: &Quantity, target: &mut Vec<Quantity>)
    ensures
        qvs(final(target)@) == qvs(old(target)@) + flatten_spec(qty@),
    decreases qty, 0nat,
{
    match &qty.list {
        Some(elements) => {
            flatten_list(elements, target);
        },
        None => {
            let ghost before = target@;
            target.push(qty.duplicate());
            proof {
                assert(target@.drop_last() =~= before);
                assert(qvs(target@) =~= qvs(before) + flatten_spec(qty@));
            }
        },
    }
}

fn flatten_list(elements: &Vec<Quantity>, target: &mut Vec<Quantity>)
    ensures
        qvs(final(target)@) == qvs(old(target)@) + flatten_all_spec(qvs(elements@)),
    decreases elements, 1nat,
{
    let mut i: usize = 0;
    while i < elements.len()
        invariant
            i <= elements@.len(),
            qvs(target@) == qvs(old(target)@) + flatten_all_spec(qvs(elements@.take(i as int))),
        decreases elements.len() - i,
    {
        flatten_quantity(&elements[i], target);
        proof {
            let t = elements@.take(i + 1);
            assert(t.drop_last() =~= elements@.take(i as int));
            let ts = qvs(t);
            assert(ts.drop_last() =~= qvs(elements@.take(i as int)));
            assert(ts.last() == qv(elements@[i as int]));
            assert(flatten_all_spec(ts) == flatten_all_spec(ts.drop_last()) + flatten_spec(ts.last()));
            assert(qvs(target@) =~= qvs(old(target)@) + flatten_all_spec(qvs(t)));
        }
        i += 1;
    }
    assert(elements@.take(elements@.len() as int) =~= elements@);
}

/// Logical AND of two values: both not zero; lists are refused.
pub fn eval_and_logic(q1: &Quantity, q2: &Quantity) -> (r: Result<bool, String>)
    ensures
        (q1@.list is Some || q2@.list is Some) ==> r is Err && r->Err_0@
            == "Logical AND cannot be applied to lists"@,
        (q1@.list is None && q2@.list is None) ==> r == Ok::<bool, String>(
            nonzero(q1@.value) && nonzero(q2@.value),
        ),
{
    if q1.list.is_some() || q2.list.is_some() {
        return Err("Logical AND cannot be applied to lists".to_string());
    }
    Ok(!q1.value.is_zero() && !q2.value.is_zero())
}

/// Logical OR of two values: either not zero; lists are refused.
pub fn eval_or_logic(q1: &Quantity, q2: &Quantity) -> (r: Result<bool, String>)
    ensures
        (q1@.list is Some || q2@.list is Some) ==> r is Err && r->Err_0@
            == "Logical OR cannot be applied to lists"@,
        (q1@.list is None && q2@.list is None) ==> r == Ok::<bool, String>(
            nonzero(q1@.value) || nonzero(q2@.value),
        ),
{
    if q1.list.is_some() || q2.list.is_some() {
        return Err("Logical OR cannot be applied to lists".to_string());
    }
    Ok(!q1.value.is_zero() || !q2.value.is_zero())
}

/// Checks the number of arguments of a built-in function.
pub fn check_built_in_args(name: &str, args: &[Quantity], expected: usize) -> (r: Result<
    (),
    String,
>)
    ensures
        args@.len() == expected ==> r is Ok,
        args@.len() != expected ==> r is Err && r->Err_0@ == "Built-in function '"@ + name@
            + "' expects "@ + dec_text(expected as nat) + " arguments, found "@ + dec_text(
            args@.len(),
        ),
{
    if args.len() != expected {
        let mut out: Vec<char> = Vec::new();
        push_str(&mut out, "Built-in function '");
        push_str(&mut out, name);
        push_str(&mut out, "' expects ");
        let e = radix_chars(expected as u128, 10);
        push_chars(&mut out, e.as_slice());
        push_str(&mut out, " arguments, found ");
        let f = radix_chars(args.len() as u128, 10);
        push_chars(&mut out, f.as_slice());
        return Err(chars_to_string(out.as_slice()));
    }
    Ok(())
}

/// The result of raising `l` to the power `r`: refused when the exponent
/// has a unit; otherwise the power of the values with `l`'s unit, when the
/// exponent is a whole number and the power is an exact rational that fits
/// (`pow_spec`); otherwise refused as not exact.
pub open spec fn quantity_pow_spec(l: QuantityV, r: QuantityV) -> Result<QuantityV, Seq<char>> {
    if r.unit is Some {
        Err("Exponent power must be a dimensionless scalar"@)
    } else {
        match pow_spec(l.value, r.value) {
            Some(v) => Ok(QuantityV { value: v, unit: l.unit, list: None, is_bool: false }),
            None => Err("Power has no exact rational value"@),
        }
    }
}

/// Raises `left_qty` to the power `right_qty` (see `quantity_pow_spec`).
pub fn quantity_pow(left_qty: &Quantity, right_qty: &Quantity) -> (r: Result<Quantity, String>)
    ensures
        match (r, quantity_pow_spec(left_qty@, right_qty@)) {
            (Ok(q), Ok(v)) => q@ == v,
            (Err(e), Err(m)) => e@ == m,
            _ => false,
        },
{
    if right_qty.unit.is_some() {
        return Err("Exponent power must be a dimensionless scalar".to_string());
    }
    match left_qty.value.checked_pow(&right_qty.value) {
        Some(value) => {
            let unit = match &left_qty.unit {
                Some(u) => Some(u.clone()),
                None => None,
            };
            Ok(Quantity { value, unit, list: None, is_bool: false })
        },
        None => Err("Power has no exact rational value".to_string()),
    }
}

} // verus!
