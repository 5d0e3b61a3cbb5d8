//! The value of decimal number literals, read in scientific notation.
//!
//! A literal `digits[.digits][(e|E)[+|-]digits]` denotes a non-negative decimal.
//! Its value is written `0.S × 10^k`, where `S` are its significant digits
//! (without leading or trailing zeros; empty for zero) and `k` its decimal exponent.

use vstd::prelude::*;
use vstd::string::*;

verus! {

/// The significant digits of the largest finite binary64 value rounded up by half a
/// unit in the last place, `2^1024 - 2^970`: the literals below it are finite.
pub const OVERFLOW_THRESHOLD: &'static str = "179769313486231580793728971405303415079934132710037826936173778980444968292764750946649017977587207096330286416692887910946555547851940402630657488671505820681908902000708383676273854845817711531764475730270069855571366959622842914819860834936475292719074168444365510704342711559699508093042880177904174497792";

pub open spec fn is_digit_byte(c: u8) -> bool {
    48 <= c && c <= 57
}

/// The index after the run of digits that starts at `i`.
pub open spec fn digits_end(s: Seq<u8>, i: int) -> int
    decreases s.len() - i,
{
    if 0 <= i < s.len() && is_digit_byte(s[i]) {
        digits_end(s, i + 1)
    } else {
        i
    }
}

/// The natural number that a run of decimal digits denotes.
pub open spec fn digits_value(s: Seq<u8>) -> nat
    decreases s.len(),
{
    if s.len() == 0 {
        0
    } else {
        digits_value(s.drop_last()) * 10 + (s.last() - 48) as nat
    }
}

/// The number of leading `0` digits.
pub open spec fn leading_zeros(s: Seq<u8>) -> nat
    decreases s.len(),
{
    if s.len() > 0 && s[0] == 48 {
        1 + leading_zeros(s.drop_first())
    } else {
        0
    }
}

/// The digits without their trailing zeros.
pub open spec fn without_trailing_zeros(s: Seq<u8>) -> Seq<u8>
    decreases s.len(),
{
    if s.len() > 0 && s.last() == 48 {
        without_trailing_zeros(s.drop_last())
    } else {
        s
    }
}

/// The parts of a literal: integer digits, fraction digits and the signed exponent.
pub open spec fn literal_parts(s: Seq<u8>) -> (Seq<u8>, Seq<u8>, int) {
    let a = digits_end(s, 0);
    let (fs, fe) = if a < s.len() && s[a] == 46 { (a + 1, digits_end(s, a + 1)) } else { (a, a) };
    let exponent = if fe < s.len() && (s[fe] == 101 || s[fe] == 69) {
        let signed = fe + 1 < s.len() && (s[fe + 1] == 43 || s[fe + 1] == 45);
        let start = if signed { fe + 2 } else { fe + 1 };
        let v = digits_value(s.subrange(start, digits_end(s, start)));
        if signed && s[fe + 1] == 45 { -v } else { v as int }
    } else {
        0
    };
    (s.subrange(0, a), s.subrange(fs, fe), exponent)
}

/// The significant digits `S` and exponent `k` of the value `0.S × 10^k`.
pub open spec fn scientific(s: Seq<u8>) -> (Seq<u8>, int) {
    let (int_digits, fraction, exponent) = literal_parts(s);
    let all = int_digits + fraction;
    let z = leading_zeros(all);
    (without_trailing_zeros(all.skip(z as int)), int_digits.len() - z + exponent)
}

/// Lexicographic order on digit strings, a proper prefix coming first.
pub open spec fn digits_less(a: Seq<u8>, b: Seq<u8>) -> bool
    decreases a.len(),
{
    if b.len() == 0 {
        false
    } else if a.len() == 0 {
        true
    } else if a[0] != b[0] {
        a[0] < b[0]
    } else {
        digits_less(a.drop_first(), b.drop_first())
    }
}

/// Whether the literal denotes a value that rounds to a finite binary64 number,
/// i.e. a value below `2^1024 - 2^970`.
pub open spec fn literal_is_finite(s: Seq<u8>) -> bool {
    let (digits, k) = scientific(s);
    let limit = OVERFLOW_THRESHOLD@.map_values(|c: char| c as u8);
    digits.len() == 0 || k < 309 || (k == 309 && digits_less(digits, limit))
}

/// The small integer `n` in 2, 3, 4 that the literal denotes exactly, if any.
pub open spec fn literal_small_integer(s: Seq<u8>) -> Option<u8> {
    let (digits, k) = scientific(s);
    if k == 1 && digits.len() == 1 && 50 <= digits[0] && digits[0] <= 52 {
        Some((digits[0] - 48) as u8)
    } else {
        None
    }
}

/// The bound at which exponents are saturated while they are read.
pub open spec fn exponent_cap() -> int {
    100_000_000_000_000_000_000
}

pub open spec fn min_int(a: int, b: int) -> int {
    if a < b { a } else { b }
}

pub(crate) fn digits_end_of(s: &[u8], i: usize) -> (r: usize)
    requires
        i <= s.len(),
    ensures
        r as int == digits_end(s@, i as int),
        i <= r <= s.len(),
{
    let mut j = i;
    while j < s.len() && 48 <= s[j] && s[j] <= 57
        invariant
            i <= j <= s.len(),
            digits_end(s@, i as int) == digits_end(s@, j as int),
        decreases s.len() - j,
    {
        j = j + 1;
    }
    j
}

proof fn lemma_digits_value_push(s: Seq<u8>, c: u8)
    ensures
        digits_value(s.push(c)) == digits_value(s) * 10 + (c - 48) as nat,
{
    assert(s.push(c).drop_last() == s);
}

/// The value of the digits in `s[start..end]`, saturated at the exponent cap.
fn saturated_value(s: &[u8], start: usize, end: usize) -> (v: u128)
    requires
        start <= end <= s.len(),
        forall|i: int| start <= i < end ==> is_digit_byte(#[trigger] s@[i]),
    ensures
        v as int == min_int(digits_value(s@.subrange(start as int, end as int)) as int, exponent_cap()),
{
    let cap: u128 = 100_000_000_000_000_000_000;
    let mut v: u128 = 0;
    let mut i = start;
    assert(s@.subrange(start as int, start as int) =~= Seq::<u8>::empty());
    while i < end
        invariant
            start <= i <= end <= s.len(),
            forall|j: int| start <= j < end ==> is_digit_byte(#[trigger] s@[j]),
            cap == exponent_cap(),
            v as int == min_int(digits_value(s@.subrange(start as int, i as int)) as int, exponent_cap()),
        decreases end - i,
    {
        let d = s[i] - 48;
        assert(is_digit_byte(s@[i as int]));
        let ghost prev = s@.subrange(start as int, i as int);
        assert(s@.subrange(start as int, i + 1) == prev.push(s@[i as int]));
        proof {
            lemma_digits_value_push(prev, s@[i as int]);
        }
        if v >= cap {
            v = cap;
        } else {
            let next = v * 10 + d as u128;
            v = if next >= cap { cap } else { next };
        }
        i = i + 1;
    }
    v
}

fn leading_zeros_of(s: &Vec<u8>) -> (r: usize)
    ensures
        r as int == leading_zeros(s@),
        r <= s.len(),
{
    let mut i: usize = 0;
    assert(s@.skip(0) == s@);
    while i < s.len() && s[i] == 48
        invariant
            i <= s.len(),
            leading_zeros(s@) == i + leading_zeros(s@.skip(i as int)),
        decreases s.len() - i,
    {
        assert(s@.skip(i as int).drop_first() == s@.skip(i + 1));
        i = i + 1;
    }
    proof {
        lemma_leading_zeros_done(s@, i);
    }
    i
}

proof fn lemma_leading_zeros_done(s: Seq<u8>, i: usize)
    requires
        i <= s.len(),
        leading_zeros(s) == i + leading_zeros(s.skip(i as int)),
        i == s.len() || s[i as int] != 48,
    ensures
        leading_zeros(s) == i,
{
    if i < s.len() {
        assert(s.skip(i as int)[0] == s[i as int]);
    }
}

/// The significant digits of `all` after `z` leading zeros.
fn significant_digits(all: &Vec<u8>, z: usize) -> (r: Vec<u8>)
    requires
        z <= all.len(),
    ensures
        r@ == without_trailing_zeros(all@.skip(z as int)),
{
    let mut n = all.len();
    assert(all@.skip(z as int).take((n - z) as int) == all@.skip(z as int));
    while n > z && all[n - 1] == 48
        invariant
            z <= n <= all.len(),
            without_trailing_zeros(all@.skip(z as int)) == without_trailing_zeros(all@.subrange(z as int, n as int)),
        decreases n,
    {
        assert(all@.subrange(z as int, n as int).drop_last() == all@.subrange(z as int, n - 1));
        n = n - 1;
    }
    let mut r: Vec<u8> = Vec::new();
    let mut i = z;
    while i < n
        invariant
            z <= i <= n <= all.len(),
            r@ == all@.subrange(z as int, i as int),
        decreases n - i,
    {
        r.push(all[i]);
        i = i + 1;
        assert(r@ == all@.subrange(z as int, i as int));
    }
    r
}

/// The significant digits and the exponent of a literal; the exponent is exact or,
/// for literals whose exponent is beyond the cap, as far beyond 309 as the exact one.
fn scientific_of(s: &[u8]) -> (r: (Vec<u8>, i128))
    ensures
        r.0@ == scientific(s@).0,
        r.1 == scientific(s@).1
            || (r.1 > 1000 && scientific(s@).1 > 1000)
            || (r.1 < -1000 && scientific(s@).1 < -1000),
{
    let a = digits_end_of(s, 0);
    let (fs, fe) = if a < s.len() && s[a] == 46 {
        (a + 1, digits_end_of(s, a + 1))
    } else {
        (a, a)
    };
    let mut all: Vec<u8> = Vec::new();
    let mut i: usize = 0;
    while i < a
        invariant
            i <= a <= s.len(),
            all@ == s@.subrange(0, i as int),
        decreases a - i,
    {
        all.push(s[i]);
        i = i + 1;
        assert(all@ == s@.subrange(0, i as int));
    }
    let mut j = fs;
    while j < fe
        invariant
            fs <= j <= fe <= s.len(),
            a <= s.len(),
            all@ == s@.subrange(0, a as int) + s@.subrange(fs as int, j as int),
        decreases fe - j,
    {
        all.push(s[j]);
        j = j + 1;
        assert(all@ == s@.subrange(0, a as int) + s@.subrange(fs as int, j as int));
    }
    let ghost parts = literal_parts(s@);
    assert(all@ == parts.0 + parts.1);
    let z = leading_zeros_of(&all);
    let digits = significant_digits(&all, z);
    let mut exponent: i128 = 0;
    let mut exact = true;
    if fe < s.len() && (s[fe] == 101 || s[fe] == 69) {
        let signed = fe + 1 < s.len() && (s[fe + 1] == 43 || s[fe + 1] == 45);
        let start = if signed { fe + 2 } else { fe + 1 };
        let end = digits_end_of(s, start);
        proof {
            lemma_digits_run(s@, start as int);
        }
        let v = saturated_value(s, start, end);
        exact = v < 100_000_000_000_000_000_000;
        exponent = if signed && s[fe + 1] == 45 { -(v as i128) } else { v as i128 };
    }
    let k = (a as i128) - (z as i128) + exponent;
    assert(z <= all@.len());
    (digits, k)
}

pub(crate) proof fn lemma_digits_run(s: Seq<u8>, i: int)
    requires
        0 <= i <= s.len(),
    ensures
        i <= digits_end(s, i) <= s.len(),
        forall|j: int| i <= j < digits_end(s, i) ==> is_digit_byte(#[trigger] s[j]),
    decreases s.len() - i,
{
    if i < s.len() && is_digit_byte(s[i]) {
        lemma_digits_run(s, i + 1);
    }
}

fn digits_less_exec(a: &Vec<u8>, b: &[u8]) -> (r: bool)
    ensures
        r == digits_less(a@, b@),
{
    let mut i: usize = 0;
    assert(a@.skip(0) == a@);
    assert(b@.skip(0) == b@);
    while i < a.len() && i < b.len() && a[i] == b[i]
        invariant
            i <= a.len(),
            i <= b.len(),
            digits_less(a@, b@) == digits_less(a@.skip(i as int), b@.skip(i as int)),
        decreases a.len() - i,
    {
        assert(a@.skip(i as int).drop_first() == a@.skip(i + 1));
        assert(b@.skip(i as int).drop_first() == b@.skip(i + 1));
        i = i + 1;
    }
    if i == b.len() {
        false
    } else if i == a.len() {
        true
    } else {
        assert(a@.skip(i as int)[0] == a@[i as int]);
        assert(b@.skip(i as int)[0] == b@[i as int]);
        a[i] < b[i]
    }
}

/// Whether a number literal denotes a finite binary64 value.
pub fn is_finite_literal(s: &[u8]) -> (r: bool)
    ensures
        r == literal_is_finite(s@),
{
    let (digits, k) = scientific_of(s);
    if digits.len() == 0 || k < 309 {
        return true;
    }
    if k > 309 {
        return false;
    }
    let limit = OVERFLOW_THRESHOLD.as_bytes();
    proof {
        reveal_strlit("179769313486231580793728971405303415079934132710037826936173778980444968292764750946649017977587207096330286416692887910946555547851940402630657488671505820681908902000708383676273854845817711531764475730270069855571366959622842914819860834936475292719074168444365510704342711559699508093042880177904174497792");
        assert(OVERFLOW_THRESHOLD@ == "179769313486231580793728971405303415079934132710037826936173778980444968292764750946649017977587207096330286416692887910946555547851940402630657488671505820681908902000708383676273854845817711531764475730270069855571366959622842914819860834936475292719074168444365510704342711559699508093042880177904174497792"@);
        vstd::string::is_ascii_spec_bytes(OVERFLOW_THRESHOLD);
        assert(OVERFLOW_THRESHOLD.is_ascii());
        assert(limit@ =~= OVERFLOW_THRESHOLD@.map_values(|c: char| c as u8));
    }
    digits_less_exec(&digits, limit)
}

/// The small integer (2, 3 or 4) that a number literal denotes exactly, if any.
pub fn small_integer(s: &[u8]) -> (r: Option<u8>)
    ensures
        r == literal_small_integer(s@),
{
    let (digits, k) = scientific_of(s);
    if k == 1 && digits.len() == 1 && 50 <= digits[0] && digits[0] <= 52 {
        Some(digits[0] - 48)
    } else {
        None
    }
}

} // verus!
