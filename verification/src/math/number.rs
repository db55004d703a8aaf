//! Exact rational numbers and their text forms.

use vstd::prelude::*;

verus! {

/// The digit character for `d` (`0`-`9`, then `A`-`F`).
pub open spec fn digit_char(d: nat) -> char {
    if d == 0 { '0' } else if d == 1 { '1' } else if d == 2 { '2' } else if d == 3 { '3' }
    else if d == 4 { '4' } else if d == 5 { '5' } else if d == 6 { '6' } else if d == 7 { '7' }
    else if d == 8 { '8' } else if d == 9 { '9' } else if d == 10 { 'A' } else if d == 11 { 'B' }
    else if d == 12 { 'C' } else if d == 13 { 'D' } else if d == 14 { 'E' } else { 'F' }
}

/// The digits of `n` in base `b` (2 to 16), most significant first, without
/// leading zeros (`0` for zero).
pub open spec fn radix_text(n: nat, b: nat) -> Seq<char>
    decreases n,
{
    if b < 2 || n < b {
        seq![digit_char(n % 16)]
    } else {
        proof {
            vstd::arithmetic::div_mod::lemma_div_decreases(n as int, b as int);
        }
        radix_text(n / b, b).push(digit_char(n % b))
    }
}

/// The decimal digits of `n`.
pub open spec fn dec_text(n: nat) -> Seq<char> {
    radix_text(n, 10)
}

/// The decimal text of an integer, with `-` before a negative one.
pub open spec fn int_text(v: int) -> Seq<char> {
    if v < 0 {
        seq!['-'] + dec_text((-v) as nat)
    } else {
        dec_text(v as nat)
    }
}

fn digit(d: u128) -> (c: char)
    requires
        d < 16,
    ensures
        c == digit_char(d as nat),
{
    if d == 0 { '0' } else if d == 1 { '1' } else if d == 2 { '2' } else if d == 3 { '3' }
    else if d == 4 { '4' } else if d == 5 { '5' } else if d == 6 { '6' } else if d == 7 { '7' }
    else if d == 8 { '8' } else if d == 9 { '9' } else if d == 10 { 'A' } else if d == 11 { 'B' }
    else if d == 12 { 'C' } else if d == 13 { 'D' } else if d == 14 { 'E' } else { 'F' }
}

/// The digits of `n` in base `b`.
pub fn radix_chars(n: u128, b: u128) -> (r: Vec<char>)
    requires
        2 <= b <= 16,
    ensures
        r@ == radix_text(n as nat, b as nat),
    decreases n,
{
    if n < b {
        let mut v: Vec<char> = Vec::new();
        v.push(digit(n % 16));
        v
    } else {
        proof {
            vstd::arithmetic::div_mod::lemma_div_decreases(n as int, b as int);
        }
        let mut v = radix_chars(n / b, b);
        v.push(digit(n % b));
        v
    }
}

/// The decimal text of an integer.
pub fn int_chars(v: i128) -> (r: Vec<char>)
    requires
        v > i128::MIN,
    ensures
        r@ == int_text(v as int),
{
    if v < 0 {
        let mut r: Vec<char> = Vec::new();
        r.push('-');
        let d = radix_chars((-v) as u128, 10);
        let mut i: usize = 0;
        while i < d.len()
            invariant
                i <= d@.len(),
                r@ == seq!['-'] + d@.take(i as int),
            decreases d.len() - i,
        {
            r.push(d[i]);
            i += 1;
            proof {
                assert(r@ =~= seq!['-'] + d@.take(i as int));
            }
        }
        assert(d@.take(d@.len() as int) =~= d@);
        r
    } else {
        radix_chars(v as u128, 10)
    }
}


/// `10^k`.
pub open spec fn pow10(k: nat) -> nat
    decreases k,
{
    if k == 0 {
        1
    } else {
        10 * pow10((k - 1) as nat)
    }
}

/// `a / b` rounded to the nearest integer, a tie going to the even one.
pub open spec fn round_div(a: nat, b: nat) -> nat {
    let q = a / b;
    let r = a % b;
    if 2 * r > b || (2 * r == b && q % 2 == 1) {
        q + 1
    } else {
        q
    }
}

/// `s` padded on the left with zeros to width `w`.
pub open spec fn zero_pad(s: Seq<char>, w: nat) -> Seq<char> {
    if s.len() >= w {
        s
    } else {
        Seq::new((w - s.len()) as nat, |i: int| '0') + s
    }
}

/// The decimal text of `q / 10^p` with exactly `p` digits after the point.
pub open spec fn fixed_text(q: nat, p: nat) -> Seq<char> {
    dec_text(q / pow10(p)) + seq!['.'] + zero_pad(dec_text(q % pow10(p)), p)
}

/// `s` without its trailing run of `c`.
pub open spec fn trim_end_char(s: Seq<char>, c: char) -> Seq<char>
    decreases s.len(),
{
    if s.len() > 0 && s.last() == c {
        trim_end_char(s.drop_last(), c)
    } else {
        s
    }
}

/// A fixed-point text without trailing zeros and without a bare point.
pub open spec fn trim_fraction(s: Seq<char>) -> Seq<char> {
    trim_end_char(trim_end_char(s, '0'), '.')
}

/// The least `j >= k` (below 40) with `a * 10^j >= d`.
pub open spec fn sci_exp_from(a: nat, d: nat, k: nat) -> nat
    decreases 40 - k,
{
    if k >= 40 || a * pow10(k) >= d {
        k
    } else {
        sci_exp_from(a, d, k + 1)
    }
}

/// Scientific text `m[.mmm]e-k` of a positive `a / d` below one, with 17
/// significant digits rounded and trailing zeros removed.
pub open spec fn sci_text(a: nat, d: nat) -> Seq<char> {
    let k0 = sci_exp_from(a, d, 1);
    let m0 = round_div(a * pow10(k0 + 16), d);
    let m = if m0 >= pow10(17) { m0 / 10 } else { m0 };
    let k = if m0 >= pow10(17) { (k0 - 1) as nat } else { k0 };
    let digits = dec_text(m);
    let rest = trim_end_char(digits.skip(1), '0');
    seq![digits[0]] + (if rest.len() > 0 {
        seq!['.'] + rest
    } else {
        Seq::empty()
    }) + seq!['e', '-'] + dec_text(k)
}

/// The text of the positive, non-integer magnitude `a / d`: four decimals,
/// ten below `1e-4`, scientific below `1e-9`; trailing zeros dropped.
pub open spec fn magnitude_text(a: nat, d: nat) -> Seq<char> {
    if a * 10000 < d {
        if a * 1000000000 < d {
            sci_text(a, d)
        } else {
            trim_fraction(fixed_text(round_div(a * pow10(10), d), 10))
        }
    } else {
        trim_fraction(fixed_text(round_div(a * pow10(4), d), 4))
    }
}

/// The display text of the number `(-1)^neg * a / d`: an integer as an
/// integer, any other value by `magnitude_text` after its sign.
pub open spec fn number_text(neg: bool, a: nat, d: nat) -> Seq<char> {
    if a % d == 0 {
        if neg {
            int_text(-((a / d) as int))
        } else {
            int_text((a / d) as int)
        }
    } else {
        (if neg {
            seq!['-']
        } else {
            Seq::empty()
        }) + magnitude_text(a, d)
    }
}


proof fn lemma_pow10_step(k: nat)
    ensures
        pow10(k + 1) == 10 * pow10(k),
        pow10(k) >= 1,
    decreases k,
{
    if k > 0 {
        lemma_pow10_step((k - 1) as nat);
    }
}

proof fn lemma_pow10_mono(i: nat, j: nat)
    requires
        i <= j,
    ensures
        pow10(i) <= pow10(j),
    decreases j - i,
{
    if i < j {
        lemma_pow10_mono(i, (j - 1) as nat);
        lemma_pow10_step((j - 1) as nat);
    }
}

proof fn lemma_pow10_add(i: nat, j: nat)
    ensures
        pow10(i + j) == pow10(i) * pow10(j),
    decreases j,
{
    if j > 0 {
        let j1 = (j - 1) as nat;
        lemma_pow10_add(i, j1);
        lemma_pow10_step(i + j1);
        lemma_pow10_step(j1);
        let x = pow10(i);
        let y = pow10(j1);
        assert(x * (10 * y) == 10 * (x * y)) by (nonlinear_arith);
        assert(i + j1 + 1 == i + j);
        assert(pow10(i + j) == 10 * pow10(i + j1));
    } else {
        assert(pow10(0) == 1);
        assert(pow10(i) * 1 == pow10(i));
        assert(i + j == i);
    }
}

proof fn lemma_pow10_38()
    ensures
        pow10(38) == 100000000000000000000000000000000000000nat,
        pow10(17) == 100000000000000000nat,
        pow10(16) == 10000000000000000nat,
        pow10(10) == 10000000000nat,
        pow10(4) == 10000nat,
        pow10(19) == 10000000000000000000nat,
{
    reveal_with_fuel(pow10, 39);
}

/// `10^k`.
fn pow10_exec(k: u32) -> (r: u128)
    requires
        k <= 38,
    ensures
        r == pow10(k as nat),
{
    let mut r: u128 = 1;
    let mut i: u32 = 0;
    while i < k
        invariant
            i <= k <= 38,
            r == pow10(i as nat),
        decreases k - i,
    {
        proof {
            lemma_pow10_mono(i as nat, 37);
            lemma_pow10_step(37);
            lemma_pow10_38();
            lemma_pow10_step(i as nat);
        }
        r = r * 10;
        i += 1;
    }
    r
}

fn round_div_exec(a: u128, b: u128) -> (r: u128)
    requires
        b > 0,
        a < u128::MAX / 2,
        b < u128::MAX / 2,
    ensures
        r == round_div(a as nat, b as nat),
{
    let q = a / b;
    let rem = a % b;
    if 2 * rem > b || (2 * rem == b && q % 2 == 1) {
        proof {
            vstd::arithmetic::div_mod::lemma_div_is_ordered_by_denominator(a as int, 1, b as int);
        }
        q + 1
    } else {
        q
    }
}

/// `s` padded on the left with zeros to width `w`.
fn zero_pad_exec(s: Vec<char>, w: usize) -> (r: Vec<char>)
    ensures
        r@ == zero_pad(s@, w as nat),
{
    if s.len() >= w {
        return s;
    }
    let mut r: Vec<char> = Vec::new();
    let k = w - s.len();
    while r.len() < k
        invariant
            r.len() <= k,
            forall|i: int| 0 <= i < r.len() ==> r@[i] == '0',
        decreases k - r.len(),
    {
        r.push('0');
    }
    let mut i: usize = 0;
    while i < s.len()
        invariant
            i <= s.len(),
            r@ == Seq::new(k as nat, |j: int| '0') + s@.take(i as int),
        decreases s.len() - i,
    {
        proof {
            if i == 0 {
                assert(r@ =~= Seq::new(k as nat, |j: int| '0') + s@.take(0));
            }
        }
        r.push(s[i]);
        i += 1;
        proof {
            assert(r@ =~= Seq::new(k as nat, |j: int| '0') + s@.take(i as int));
        }
    }
    proof {
        if s.len() == 0 {
            assert(r@ =~= Seq::new(k as nat, |j: int| '0') + s@.take(0));
        }
        assert(s@.take(s.len() as int) =~= s@);
    }
    r
}

/// Removes the trailing run of `c`.
fn trim_end_exec(v: &mut Vec<char>, c: char)
    ensures
        final(v)@ == trim_end_char(old(v)@, c),
{
    while v.len() > 0 && v[v.len() - 1] == c
        invariant
            trim_end_char(v@, c) == trim_end_char(old(v)@, c),
        decreases v.len(),
    {
        let ghost before = v@;
        v.pop();
        proof {
            assert(v@ =~= before.drop_last());
        }
    }
}

/// Appends `b` to `a`.
fn append_chars(a: &mut Vec<char>, b: &Vec<char>)
    ensures
        final(a)@ == old(a)@ + b@,
{
    let mut i: usize = 0;
    while i < b.len()
        invariant
            i <= b.len(),
            a@ == old(a)@ + b@.take(i as int),
        decreases b.len() - i,
    {
        a.push(b[i]);
        i += 1;
        proof {
            assert(a@ =~= old(a)@ + b@.take(i as int));
        }
    }
    assert(b@.take(b.len() as int) =~= b@);
}

fn fixed_exec(q: u128, p: u32) -> (r: Vec<char>)
    requires
        p <= 38,
    ensures
        r@ == fixed_text(q as nat, p as nat),
{
    let m = pow10_exec(p);
    proof {
        lemma_pow10_step(p as nat);
    }
    let mut r = radix_chars(q / m, 10);
    r.push('.');
    let frac = zero_pad_exec(radix_chars(q % m, 10), p as usize);
    append_chars(&mut r, &frac);
    r
}


proof fn lemma_radix_nonempty(n: nat, b: nat)
    ensures
        radix_text(n, b).len() >= 1,
    decreases n,
{
    if b >= 2 && n >= b {
        vstd::arithmetic::div_mod::lemma_div_decreases(n as int, b as int);
        lemma_radix_nonempty(n / b, b);
    }
}

proof fn lemma_sci_exp_stop(a: nat, d: nat, k: nat)
    requires
        k >= 40 || a * pow10(k) >= d,
    ensures
        sci_exp_from(a, d, k) == k,
{
}

/// The scientific text of a positive `a / d` below `1e-9`.
fn sci_exec(a: u128, d: u128) -> (r: Vec<char>)
    requires
        1 <= a,
        a * 1000000000 < d,
        d < 0x8000_0000_0000_0000,
    ensures
        r@ == sci_text(a as nat, d as nat),
{
    proof {
        lemma_pow10_38();
    }
    let mut k: u32 = 1;
    let mut p: u128 = 10;
    assert(pow10(1) == 10) by {
        lemma_pow10_step(0);
    }
    assert(pow10(0) == 1);
    assert(a * pow10(0) < d) by {
        assert(a * 1 == a);
    }
    while k < 40 && a * p < d
        invariant
            1 <= k <= 40,
            p == pow10(k as nat),
            a * p < 10 * d,
            a * pow10((k - 1) as nat) < d,
            sci_exp_from(a as nat, d as nat, 1) == sci_exp_from(a as nat, d as nat, k as nat),
            d < 0x8000_0000_0000_0000,
            1 <= a,
        decreases 40 - k,
    {
        proof {
            lemma_pow10_step((k - 1) as nat);
            let x = pow10((k - 1) as nat);
            assert(a * (10 * x) == 10 * (a * x)) by (nonlinear_arith);
            assert(x <= a * x) by (nonlinear_arith)
                requires
                    1 <= a,
            ;
        }
        k += 1;
        proof {
            lemma_pow10_step((k - 1) as nat);
            assert(a * (p * 10) == 10 * (a * p)) by (nonlinear_arith);
        }
        p = p * 10;
    }
    proof {
        lemma_pow10_step((k - 1) as nat);
        let x = pow10((k - 1) as nat);
        assert(a * (10 * x) == 10 * (a * x)) by (nonlinear_arith);
        assert(x <= a * x) by (nonlinear_arith)
            requires
                1 <= a,
        ;
        if k >= 40 {
            lemma_sci_exp_stop(a as nat, d as nat, k as nat);
        } else {
            lemma_sci_exp_stop(a as nat, d as nat, k as nat);
        }
        if k - 1 >= 19 {
            lemma_pow10_mono(19, (k - 1) as nat);
        }
        lemma_pow10_add((k - 1) as nat, 17);
        assert((k - 1) as nat + 17 == k as nat + 16);
        let y = pow10(17);
        assert(a * (x * y) == (a * x) * y) by (nonlinear_arith);
        assert((a * x) * y <= d * y) by (nonlinear_arith)
            requires
                a * x < d,
                y > 0,
        ;
    }
    let big = a * pow10_exec(k + 16);
    let m0 = round_div_exec(big, d);
    let mut m = m0;
    let mut e = k;
    proof {
        assert(m0 <= big / d + 1);
        vstd::arithmetic::div_mod::lemma_div_is_ordered_by_denominator(big as int, 1, d as int);
    }
    if m0 >= 100000000000000000 {
        m = m0 / 10;
        e = k - 1;
    }
    let digits = radix_chars(m, 10);
    proof {
        lemma_radix_nonempty(m as nat, 10);
    }
    let mut rest: Vec<char> = Vec::new();
    let mut i: usize = 1;
    while i < digits.len()
        invariant
            1 <= i <= digits.len(),
            rest@ == digits@.subrange(1, i as int),
        decreases digits.len() - i,
    {
        rest.push(digits[i]);
        i += 1;
        proof {
            assert(rest@ =~= digits@.subrange(1, i as int));
        }
    }
    assert(rest@ =~= digits@.skip(1));
    trim_end_exec(&mut rest, '0');
    let mut r: Vec<char> = Vec::new();
    r.push(digits[0]);
    if rest.len() > 0 {
        r.push('.');
        append_chars(&mut r, &rest);
    }
    r.push('e');
    r.push('-');
    let ed = radix_chars(e as u128, 10);
    append_chars(&mut r, &ed);
    proof {
        assert(r@ =~= sci_text(a as nat, d as nat));
    }
    r
}

/// The text of a positive, non-integer magnitude `a / d`.
fn magnitude_exec(a: u128, d: u128) -> (r: Vec<char>)
    requires
        1 <= a <= 0x8000_0000_0000_0000,
        1 <= d < 0x8000_0000_0000_0000,
    ensures
        r@ == magnitude_text(a as nat, d as nat),
{
    proof {
        lemma_pow10_38();
    }
    if a * 10000 < d {
        if a * 1000000000 < d {
            sci_exec(a, d)
        } else {
            let q = round_div_exec(a * 10000000000, d);
            let mut r = fixed_exec(q, 10);
            trim_end_exec(&mut r, '0');
            trim_end_exec(&mut r, '.');
            r
        }
    } else {
        let q = round_div_exec(a * 10000, d);
        let mut r = fixed_exec(q, 4);
        trim_end_exec(&mut r, '0');
        trim_end_exec(&mut r, '.');
        r
    }
}

/// The display text of `(-1)^neg * a / d`.
pub fn number_chars(neg: bool, a: u128, d: u128) -> (r: Vec<char>)
    requires
        a <= 0x8000_0000_0000_0000,
        1 <= d < 0x8000_0000_0000_0000,
        neg ==> a > 0,
    ensures
        r@ == number_text(neg, a as nat, d as nat),
{
    if a % d == 0 {
        let v = a / d;
        proof {
            vstd::arithmetic::div_mod::lemma_div_is_ordered_by_denominator(a as int, 1, d as int);
        }
        if neg {
            int_chars(-(v as i128))
        } else {
            int_chars(v as i128)
        }
    } else {
        assert(a != 0) by {
            if a == 0 {
                vstd::arithmetic::div_mod::lemma_small_mod(0, d as nat);
            }
        }
        let m = magnitude_exec(a, d);
        if neg {
            let mut r: Vec<char> = Vec::new();
            r.push('-');
            append_chars(&mut r, &m);
            assert(r@ =~= seq!['-'] + m@);
            r
        } else {
            assert(m@ =~= Seq::<char>::empty() + m@);
            m
        }
    }
}


/// `v` fits in an `i64`.
pub open spec fn fits(v: int) -> bool {
    i64::MIN <= v <= i64::MAX
}

/// `x^k`.
pub open spec fn ipow(x: int, k: nat) -> int
    decreases k,
{
    if k == 0 {
        1
    } else {
        x * ipow(x, (k - 1) as nat)
    }
}

/// The pair `(n, d)` when both fit in an `i64`.
pub open spec fn checked_pair(n: int, d: int) -> Option<(int, int)> {
    if fits(n) && fits(d) {
        Some((n, d))
    } else {
        None
    }
}

/// The sum of two fractions `(num, den)`, unreduced, when it fits.
pub open spec fn add_spec(a: (int, int), b: (int, int)) -> Option<(int, int)> {
    checked_pair(a.0 * b.1 + b.0 * a.1, a.1 * b.1)
}

/// The difference of two fractions, unreduced, when it fits.
pub open spec fn sub_spec(a: (int, int), b: (int, int)) -> Option<(int, int)> {
    checked_pair(a.0 * b.1 - b.0 * a.1, a.1 * b.1)
}

/// The product of two fractions, unreduced, when it fits.
pub open spec fn mul_spec(a: (int, int), b: (int, int)) -> Option<(int, int)> {
    checked_pair(a.0 * b.0, a.1 * b.1)
}

/// The quotient of two fractions (the divisor not zero), unreduced, with a
/// positive denominator, when it fits.
pub open spec fn div_spec(a: (int, int), b: (int, int)) -> Option<(int, int)> {
    if b.0 == 0 {
        None
    } else if b.0 < 0 {
        checked_pair(-(a.0 * b.1), -(a.1 * b.0))
    } else {
        checked_pair(a.0 * b.1, a.1 * b.0)
    }
}

/// One hundredth of `a`; zero as `0 / 1`.
pub open spec fn percent_spec(a: (int, int)) -> Option<(int, int)> {
    if a.0 == 0 {
        Some((0, 1))
    } else {
        checked_pair(a.0, a.1 * 100)
    }
}

/// `a` raised to the exponent `e` when `e` is an integer and the powers of
/// numerator and denominator fit, as does the result with its sign moved to
/// the numerator (a negative power of zero has none).
pub open spec fn pow_spec(a: (int, int), e: (int, int)) -> Option<(int, int)> {
    if e.0 % e.1 != 0 {
        None
    } else if e.0 >= 0 {
        checked_pair(ipow(a.0, (e.0 / e.1) as nat), ipow(a.1, (e.0 / e.1) as nat))
    } else if a.0 == 0 {
        None
    } else {
        let k = (-(e.0 / e.1)) as nat;
        let nk = ipow(a.1, k);
        let dk = ipow(a.0, k);
        if !fits(nk) || !fits(dk) {
            None
        } else if dk < 0 {
            checked_pair(-nk, -dk)
        } else {
            Some((nk, dk))
        }
    }
}

/// An exact rational number `num / den`; the denominator is positive. The
/// fraction is kept as computed, not reduced.
#[derive(Clone, Copy, Debug)]
pub struct Rational {
    num: i64,
    den: i64,
}

impl View for Rational {
    type V = (int, int);

    /// The numerator and the denominator.
    closed spec fn view(&self) -> (int, int) {
        (self.num as int, self.den as int)
    }
}

/// The view of an optional rational.
pub open spec fn opt_ratio(r: Option<Rational>) -> Option<(int, int)> {
    match r {
        Some(x) => Some(x@),
        None => None,
    }
}

impl Rational {
    #[verifier::type_invariant]
    spec fn positive_den(self) -> bool {
        self.den > 0
    }

    /// The integer `n`.
    pub fn from_int(n: i64) -> (r: Rational)
        ensures
            r@ == (n as int, 1int),
    {
        Rational { num: n, den: 1 }
    }

    /// The fraction `num / den`; `None` unless `den` is positive.
    pub fn new(num: i64, den: i64) -> (r: Option<Rational>)
        ensures
            r matches Some(x) ==> den > 0 && x@ == (num as int, den as int),
            r is None ==> den <= 0,
    {
        if den > 0 {
            Some(Rational { num, den })
        } else {
            None
        }
    }

    /// The numerator.
    pub fn numerator(&self) -> (r: i64)
        ensures
            r == self@.0,
    {
        self.num
    }

    /// The denominator, which is positive.
    pub fn denominator(&self) -> (r: i64)
        ensures
            r == self@.1,
            r > 0,
    {
        proof {
            use_type_invariant(self);
        }
        self.den
    }

    /// The number is zero.
    pub fn is_zero(&self) -> (r: bool)
        ensures
            r == (self@.0 == 0),
    {
        self.num == 0
    }

    /// The number is one.
    pub fn is_one(&self) -> (r: bool)
        ensures
            r == (self@.0 == self@.1),
    {
        self.num == self.den
    }

    /// The number is negative.
    pub fn is_negative(&self) -> (r: bool)
        ensures
            r == (self@.0 < 0),
    {
        self.num < 0
    }

    fn from_wide(n: i128, d: i128) -> (r: Option<Rational>)
        requires
            d > 0 || !fits(d as int),
        ensures
            opt_ratio(r) == checked_pair(n as int, d as int),
    {
        if n >= i64::MIN as i128 && n <= i64::MAX as i128 && d >= i64::MIN as i128 && d
            <= i64::MAX as i128 {
            Some(Rational { num: n as i64, den: d as i64 })
        } else {
            None
        }
    }

    /// The sum, when the unreduced fraction fits.
    pub fn checked_add(&self, other: &Rational) -> (r: Option<Rational>)
        ensures
            opt_ratio(r) == add_spec(self@, other@),
    {
        proof {
            use_type_invariant(self);
            use_type_invariant(other);
            lemma_mul_den(self.num as int, other.den as int);
            lemma_mul_den(other.num as int, self.den as int);
            lemma_mul_bounds(self.den as int, other.den as int);
            assert(self.den * other.den > 0) by (nonlinear_arith)
                requires
                    self.den > 0,
                    other.den > 0,
            ;
        }
        let n = (self.num as i128) * (other.den as i128) + (other.num as i128) * (self.den as i128);
        let d = (self.den as i128) * (other.den as i128);
        Rational::from_wide(n, d)
    }

    /// The difference, when the unreduced fraction fits.
    pub fn checked_sub(&self, other: &Rational) -> (r: Option<Rational>)
        ensures
            opt_ratio(r) == sub_spec(self@, other@),
    {
        proof {
            use_type_invariant(self);
            use_type_invariant(other);
            lemma_mul_den(self.num as int, other.den as int);
            lemma_mul_den(other.num as int, self.den as int);
            lemma_mul_bounds(self.den as int, other.den as int);
            assert(self.den * other.den > 0) by (nonlinear_arith)
                requires
                    self.den > 0,
                    other.den > 0,
            ;
        }
        let n = (self.num as i128) * (other.den as i128) - (other.num as i128) * (self.den as i128);
        let d = (self.den as i128) * (other.den as i128);
        Rational::from_wide(n, d)
    }

    /// The product, when the unreduced fraction fits.
    pub fn checked_mul(&self, other: &Rational) -> (r: Option<Rational>)
        ensures
            opt_ratio(r) == mul_spec(self@, other@),
    {
        proof {
            use_type_invariant(self);
            use_type_invariant(other);
            lemma_mul_bounds(self.num as int, other.num as int);
            lemma_mul_bounds(self.den as int, other.den as int);
            assert(self.den * other.den > 0) by (nonlinear_arith)
                requires
                    self.den > 0,
                    other.den > 0,
            ;
        }
        let n = (self.num as i128) * (other.num as i128);
        let d = (self.den as i128) * (other.den as i128);
        Rational::from_wide(n, d)
    }

    /// The quotient, when the divisor is not zero and the fraction fits.
    pub fn checked_div(&self, other: &Rational) -> (r: Option<Rational>)
        ensures
            opt_ratio(r) == div_spec(self@, other@),
    {
        proof {
            use_type_invariant(self);
            use_type_invariant(other);
            lemma_mul_bounds(self.num as int, other.den as int);
            lemma_mul_bounds(self.den as int, other.num as int);
        }
        if other.num == 0 {
            return None;
        }
        let n = (self.num as i128) * (other.den as i128);
        let d = (self.den as i128) * (other.num as i128);
        if other.num < 0 {
            proof {
                assert(self.den * other.num < 0) by (nonlinear_arith)
                    requires
                        self.den > 0,
                        other.num < 0,
                ;
            }
            Rational::from_wide(-n, -d)
        } else {
            proof {
                assert(self.den * other.num > 0) by (nonlinear_arith)
                    requires
                        self.den > 0,
                        other.num > 0,
                ;
            }
            Rational::from_wide(n, d)
        }
    }

    /// One hundredth of the number (zero stays `0 / 1`), when the
    /// denominator fits.
    pub fn percent(&self) -> (r: Option<Rational>)
        ensures
            opt_ratio(r) == percent_spec(self@),
    {
        proof {
            use_type_invariant(self);
        }
        if self.num == 0 {
            return Some(Rational { num: 0, den: 1 });
        }
        Rational::from_wide(self.num as i128, (self.den as i128) * 100)
    }
}

proof fn lemma_mul_den(a: int, b: int)
    requires
        fits(a),
        0 < b <= i64::MAX,
    ensures
        -0x3fff_ffff_ffff_ffff_8000_0000_0000_0000 <= a * b <= 0x3fff_ffff_ffff_ffff_8000_0000_0000_0000,
{
    assert(a * b <= 0x3fff_ffff_ffff_ffff_8000_0000_0000_0000) by (nonlinear_arith)
        requires
            -0x8000_0000_0000_0000 <= a <= 0x7fff_ffff_ffff_ffff,
            0 < b <= 0x7fff_ffff_ffff_ffff,
    ;
    assert(a * b >= -0x3fff_ffff_ffff_ffff_8000_0000_0000_0000) by (nonlinear_arith)
        requires
            -0x8000_0000_0000_0000 <= a <= 0x7fff_ffff_ffff_ffff,
            0 < b <= 0x7fff_ffff_ffff_ffff,
    ;
}

proof fn lemma_mul_bounds(a: int, b: int)
    requires
        fits(a),
        fits(b),
    ensures
        -0x4000_0000_0000_0000_0000_0000_0000_0000 <= a * b <= 0x4000_0000_0000_0000_0000_0000_0000_0000,
{
    assert(-0x8000_0000_0000_0000 <= a <= 0x8000_0000_0000_0000);
    assert(-0x8000_0000_0000_0000 <= b <= 0x8000_0000_0000_0000);
    assert(a * b <= 0x4000_0000_0000_0000_0000_0000_0000_0000) by (nonlinear_arith)
        requires
            -0x8000_0000_0000_0000 <= a <= 0x8000_0000_0000_0000,
            -0x8000_0000_0000_0000 <= b <= 0x8000_0000_0000_0000,
    ;
    assert(a * b >= -0x4000_0000_0000_0000_0000_0000_0000_0000) by (nonlinear_arith)
        requires
            -0x8000_0000_0000_0000 <= a <= 0x8000_0000_0000_0000,
            -0x8000_0000_0000_0000 <= b <= 0x8000_0000_0000_0000,
    ;
}


/// `|v|`.
pub open spec fn abs_int(v: int) -> int {
    if v < 0 {
        -v
    } else {
        v
    }
}

proof fn lemma_ipow_unit(x: int, k: nat)
    requires
        -1 <= x <= 1,
    ensures
        x == 0 ==> ipow(x, k) == (if k == 0 {
            1int
        } else {
            0int
        }),
        x == 1 ==> ipow(x, k) == 1,
        x == -1 ==> ipow(x, k) == (if k % 2 == 0 {
            1int
        } else {
            -1int
        }),
    decreases k,
{
    if k > 0 {
        lemma_ipow_unit(x, (k - 1) as nat);
    }
}

proof fn lemma_ipow_grow(x: int, i: nat, j: nat)
    requires
        abs_int(x) >= 2,
        i < j,
    ensures
        abs_int(ipow(x, j)) >= 2 * abs_int(ipow(x, i)),
    decreases j - i,
{
    let p = ipow(x, (j - 1) as nat);
    assert(abs_int(x * p) == abs_int(x) * abs_int(p)) by (nonlinear_arith);
    assert(abs_int(x) * abs_int(p) >= 2 * abs_int(p)) by (nonlinear_arith)
        requires
            abs_int(x) >= 2,
            abs_int(p) >= 0,
    ;
    if i + 1 < j {
        lemma_ipow_grow(x, i, (j - 1) as nat);
    }
}

/// `x^k` when it fits in an `i64`.
fn ipow_checked(x: i64, k: u64) -> (r: Option<i64>)
    ensures
        r matches Some(v) ==> v == ipow(x as int, k as nat),
        r is None ==> !fits(ipow(x as int, k as nat)),
{
    if -1 <= x && x <= 1 {
        proof {
            lemma_ipow_unit(x as int, k as nat);
        }
        if x == 0 {
            return if k == 0 {
                Some(1)
            } else {
                Some(0)
            };
        } else if x == 1 {
            return Some(1);
        } else {
            return if k % 2 == 0 {
                Some(1)
            } else {
                Some(-1)
            };
        }
    }
    let mut acc: i128 = 1;
    let mut i: u64 = 0;
    while i < k
        invariant
            i <= k,
            acc == ipow(x as int, i as nat),
            fits(acc as int),
            abs_int(x as int) >= 2,
        decreases k - i,
    {
        proof {
            lemma_mul_bounds(x as int, acc as int);
        }
        let next = (x as i128) * acc;
        if next < i64::MIN as i128 || next > i64::MAX as i128 {
            proof {
                assert(next == ipow(x as int, (i + 1) as nat));
                if i + 1 < k {
                    lemma_ipow_grow(x as int, (i + 1) as nat, k as nat);
                }
            }
            return None;
        }
        acc = next;
        i += 1;
    }
    Some(acc as i64)
}

/// `|v| / d` and whether it divides exactly, for `d > 0`; relates them to
/// the Euclidean quotient and remainder.
fn exact_quotient(v: i64, d: i64) -> (r: Option<i128>)
    requires
        d > 0,
    ensures
        r is None <==> (v as int) % (d as int) != 0,
        r matches Some(q) ==> q == (v as int) / (d as int),
        r matches Some(q) ==> -0x8000_0000_0000_0000 <= q <= 0x8000_0000_0000_0000,
        r matches Some(q) ==> (q >= 0 <==> v >= 0),
{
    let a: u128 = if v < 0 {
        (-(v as i128)) as u128
    } else {
        v as u128
    };
    let q = a / (d as u128);
    let rem = a % (d as u128);
    proof {
        vstd::arithmetic::div_mod::lemma_fundamental_div_mod(a as int, d as int);
        vstd::arithmetic::div_mod::lemma_fundamental_div_mod(v as int, d as int);
    }
    if rem != 0 {
        proof {
            if (v as int) % (d as int) == 0 {
                let w = (v as int) / (d as int);
                if v < 0 {
                    assert(a == (-w) * d) by (nonlinear_arith)
                        requires
                            a == -(v as int),
                            v == d * w + 0,
                    ;
                    vstd::arithmetic::div_mod::lemma_fundamental_div_mod_converse(
                        a as int,
                        d as int,
                        -w,
                        0,
                    );
                } else {
                    assert(a == w * d) by (nonlinear_arith)
                        requires
                            a == v,
                            v == d * w + 0,
                    ;
                    vstd::arithmetic::div_mod::lemma_fundamental_div_mod_converse(
                        a as int,
                        d as int,
                        w,
                        0,
                    );
                }
            }
        }
        return None;
    }
    proof {
        vstd::arithmetic::div_mod::lemma_div_is_ordered_by_denominator(a as int, 1, d as int);
    }
    if v < 0 {
        proof {
            if q == 0 {
                assert(a == d * q + 0);
                assert(a == 0) by (nonlinear_arith)
                    requires
                        a == d * q,
                        q == 0,
                ;
            }
            assert(v == (-(q as int)) * d) by (nonlinear_arith)
                requires
                    a == -(v as int),
                    a == d * q + 0,
            ;
            vstd::arithmetic::div_mod::lemma_fundamental_div_mod_converse(
                v as int,
                d as int,
                -(q as int),
                0,
            );
        }
        Some(-(q as i128))
    } else {
        proof {
            assert(v == (q as int) * d) by (nonlinear_arith)
                requires
                    a == v,
                    a == d * q + 0,
            ;
            vstd::arithmetic::div_mod::lemma_fundamental_div_mod_converse(
                v as int,
                d as int,
                q as int,
                0,
            );
        }
        Some(q as i128)
    }
}

impl Rational {
    /// The number raised to `exp`, when `exp` is an integer and the
    /// unreduced result fits.
    pub fn checked_pow(&self, exp: &Rational) -> (r: Option<Rational>)
        ensures
            opt_ratio(r) == pow_spec(self@, exp@),
    {
        proof {
            use_type_invariant(self);
            use_type_invariant(exp);
        }
        let k = match exact_quotient(exp.num, exp.den) {
            Some(k) => k,
            None => return None,
        };
        if k >= 0 {
            let n = ipow_checked(self.num, k as u64);
            let d = ipow_checked(self.den, k as u64);
            match (n, d) {
                (Some(n), Some(d)) => {
                    proof {
                        assert(ipow(self.den as int, k as nat) > 0) by {
                            lemma_ipow_pos(self.den as int, k as nat);
                        }
                    }
                    Some(Rational { num: n, den: d })
                },
                _ => None,
            }
        } else {
            if self.num == 0 {
                return None;
            }
            let m = (-k) as u64;
            let n = ipow_checked(self.den, m);
            let d = ipow_checked(self.num, m);
            proof {
                lemma_ipow_pos(self.den as int, m as nat);
            }
            proof {
                lemma_ipow_sign(self.num as int, m as nat);
            }
            match (n, d) {
                (Some(n), Some(d)) => {
                    if d < 0 {
                        if n == i64::MIN || d == i64::MIN {
                            return None;
                        }
                        Some(Rational { num: -n, den: -d })
                    } else {
                        Some(Rational { num: n, den: d })
                    }
                },
                _ => None,
            }
        }
    }
}

pub(crate) proof fn lemma_ipow_pos(x: int, k: nat)
    requires
        x > 0,
    ensures
        ipow(x, k) > 0,
    decreases k,
{
    if k > 0 {
        lemma_ipow_pos(x, (k - 1) as nat);
        assert(x * ipow(x, (k - 1) as nat) > 0) by (nonlinear_arith)
            requires
                x > 0,
                ipow(x, (k - 1) as nat) > 0,
        ;
    }
}

proof fn lemma_ipow_sign(x: int, k: nat)
    requires
        x != 0,
    ensures
        ipow(x, k) != 0,
    decreases k,
{
    if k > 0 {
        lemma_ipow_sign(x, (k - 1) as nat);
        assert(x * ipow(x, (k - 1) as nat) != 0) by (nonlinear_arith)
            requires
                x != 0,
                ipow(x, (k - 1) as nat) != 0,
        ;
    }
}


/// The display text of a rational number (`format_float` of the value).
pub open spec fn ratio_text(v: (int, int)) -> Seq<char> {
    number_text(v.0 < 0, abs_int(v.0) as nat, v.1 as nat)
}

/// The value truncated toward zero.
pub open spec fn trunc_spec(v: (int, int)) -> int {
    if v.0 < 0 {
        -((-v.0) / v.1)
    } else {
        v.0 / v.1
    }
}

/// The two's-complement bit pattern of an `i64` value, as an unsigned number.
pub open spec fn twos_complement(t: int) -> nat {
    if t < 0 {
        (t + 0x1_0000_0000_0000_0000) as nat
    } else {
        t as nat
    }
}

impl Rational {
    /// The display text of the number: an integer as an integer, any other
    /// value with four decimals (ten below `1e-4`, scientific below `1e-9`),
    /// trailing zeros dropped.
    pub fn format_float(&self) -> (r: Vec<char>)
        ensures
            r@ == ratio_text(self@),
    {
        proof {
            use_type_invariant(self);
        }
        let a: u128 = if self.num < 0 {
            (-(self.num as i128)) as u128
        } else {
            self.num as u128
        };
        number_chars(self.num < 0, a, self.den as u128)
    }

    /// The display text of the absolute value.
    pub fn format_abs(&self) -> (r: Vec<char>)
        ensures
            r@ == number_text(false, abs_int(self@.0) as nat, self@.1 as nat),
    {
        proof {
            use_type_invariant(self);
        }
        let a: u128 = if self.num < 0 {
            (-(self.num as i128)) as u128
        } else {
            self.num as u128
        };
        number_chars(false, a, self.den as u128)
    }

    /// The value truncated toward zero.
    pub fn trunc(&self) -> (r: i64)
        ensures
            r == trunc_spec(self@),
    {
        proof {
            use_type_invariant(self);
        }
        if self.num < 0 {
            let a: u128 = (-(self.num as i128)) as u128;
            let q = a / (self.den as u128);
            proof {
                vstd::arithmetic::div_mod::lemma_div_is_ordered_by_denominator(a as int, 1, self.den as int);
            }
            -(q as i128) as i64
        } else {
            let q = (self.num as u64) / (self.den as u64);
            q as i64
        }
    }
}

/// The digits of an `i64` in base `b`, a negative value taken as its
/// two's-complement bit pattern.
pub fn twos_complement_chars(t: i64, b: u128) -> (r: Vec<char>)
    requires
        2 <= b <= 16,
    ensures
        r@ == radix_text(twos_complement(t as int), b as nat),
{
    let u: u128 = if t < 0 {
        ((t as i128) + 0x1_0000_0000_0000_0000) as u128
    } else {
        t as u128
    };
    radix_chars(u, b)
}


/// The short text of a number, as expressions print it: an integer as an
/// integer, any other value with four decimals, trailing zeros dropped.
pub open spec fn short_text(v: (int, int)) -> Seq<char> {
    let a = abs_int(v.0) as nat;
    let d = v.1 as nat;
    if a % d == 0 {
        int_text(if v.0 < 0 {
            -((a / d) as int)
        } else {
            (a / d) as int
        })
    } else {
        (if v.0 < 0 {
            seq!['-']
        } else {
            Seq::empty()
        }) + trim_fraction(fixed_text(round_div(a * pow10(4), d), 4))
    }
}

impl Rational {
    /// The short text of the number.
    pub fn format_short(&self) -> (r: Vec<char>)
        ensures
            r@ == short_text(self@),
    {
        proof {
            use_type_invariant(self);
            lemma_pow10_38();
        }
        let a: u128 = if self.num < 0 {
            (-(self.num as i128)) as u128
        } else {
            self.num as u128
        };
        let d = self.den as u128;
        if a % d == 0 {
            let v = a / d;
            proof {
                vstd::arithmetic::div_mod::lemma_div_is_ordered_by_denominator(a as int, 1, d as int);
            }
            if self.num < 0 {
                int_chars(-(v as i128))
            } else {
                int_chars(v as i128)
            }
        } else {
            let q = round_div_exec(a * 10000, d);
            let mut m = fixed_exec(q, 4);
            trim_end_exec(&mut m, '0');
            trim_end_exec(&mut m, '.');
            if self.num < 0 {
                let mut r: Vec<char> = Vec::new();
                r.push('-');
                append_chars(&mut r, &m);
                assert(r@ =~= seq!['-'] + m@);
                r
            } else {
                assert(m@ =~= Seq::<char>::empty() + m@);
                m
            }
        }
    }
}

} // verus!
