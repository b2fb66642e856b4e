//! Human-readable sizes and the size expressions users type, such as `100MB`
//! or `1GiB`.
use vstd::prelude::*;
use vstd::arithmetic::div_mod::{lemma_div_denominator, lemma_hoist_over_denominator};
use vstd::arithmetic::power::{lemma_pow_positive, pow};
use crate::error::SentinelError;
use crate::fs::metadata::saturating;
use crate::text::{
    chars_are, decimal, digit_chars, digit_value, is_digit, is_white, lower, lower_char, lower_chars, str_chars,
    string_from_chars, trim, trim_chars, trim_end, trim_start,
};

verus! {

/// What `humansize::format_size(size, humansize::DECIMAL)` renders for `size`.
pub uninterp spec fn human_size(size: u64) -> Seq<char>;

/// `humansize::format_size` with the `DECIMAL` options: a byte count in
/// decimal units (`1 MB` for 1,000,000). The contract names the rendering;
/// below 1000 the crate renders the plain count followed by ` B`, which is
/// stated too. Above that the rendering divides in floating point and is not
/// stated.
#[verifier::external_body]
pub fn bytes(size: u64) -> (r: String)
    ensures
        r@ == human_size(size),
        size < 1000 ==> r@ == decimal(size as nat) + " B"@,
{
    humansize::format_size(size, humansize::DECIMAL)
}

/// Index of the first character of `s` that is neither an ASCII digit nor
/// `.`, or the length of `s`.
pub open spec fn number_end(s: Seq<char>) -> int
    decreases s.len(),
{
    if s.len() == 0 {
        0
    } else if is_digit(s[0]) || s[0] == '.' {
        1 + number_end(s.drop_first())
    } else {
        0
    }
}

/// Number of `.` in `s`.
pub open spec fn dot_count(s: Seq<char>) -> nat
    decreases s.len(),
{
    if s.len() == 0 {
        0
    } else {
        dot_count(s.drop_last()) + if s.last() == '.' {
            1nat
        } else {
            0nat
        }
    }
}

/// Index of the first `.` in `s`, or -1.
pub open spec fn first_dot(s: Seq<char>) -> int
    decreases s.len(),
{
    if s.len() == 0 {
        -1
    } else if s[0] == '.' {
        0
    } else if first_dot(s.drop_first()) < 0 {
        -1
    } else {
        1 + first_dot(s.drop_first())
    }
}

/// The value of a string of decimal digits.
pub open spec fn digits_value(ds: Seq<char>) -> nat
    decreases ds.len(),
{
    if ds.len() == 0 {
        0
    } else {
        digits_value(ds.drop_last()) * 10 + digit_value(ds.last())
    }
}

/// A decimal number made of digits and at most one `.`, with at least one
/// digit (the forms `f64` parsing accepts among such strings).
pub open spec fn valid_number(n: Seq<char>) -> bool {
    dot_count(n) <= 1 && n.len() > dot_count(n)
}

/// The digits before the decimal point.
pub open spec fn integer_digits(n: Seq<char>) -> Seq<char> {
    if first_dot(n) < 0 {
        n
    } else {
        n.take(first_dot(n))
    }
}

/// The digits after the decimal point.
pub open spec fn fraction_digits(n: Seq<char>) -> Seq<char> {
    if first_dot(n) < 0 {
        seq![]
    } else {
        n.skip(first_dot(n) + 1)
    }
}

/// The factor of a size unit (case already folded): bytes, decimal
/// kilo/mega/giga/tera and binary kibi/mebi/gibi.
pub open spec fn unit_factor(u: Seq<char>) -> Option<nat> {
    if u.len() == 0 || u == "b"@ {
        Some(1)
    } else if u == "k"@ || u == "kb"@ {
        Some(1_000)
    } else if u == "m"@ || u == "mb"@ {
        Some(1_000_000)
    } else if u == "g"@ || u == "gb"@ {
        Some(1_000_000_000)
    } else if u == "t"@ || u == "tb"@ {
        Some(1_000_000_000_000)
    } else if u == "ki"@ || u == "kib"@ {
        Some(1024)
    } else if u == "mi"@ || u == "mib"@ {
        Some(1_048_576)
    } else if u == "gi"@ || u == "gib"@ {
        Some(1_073_741_824)
    } else {
        None
    }
}

/// The bytes a number of units stands for: `(i + f / 10^k) * factor`,
/// rounded down and capped at `u64::MAX`.
pub open spec fn scaled(i: nat, f: nat, k: nat, factor: nat) -> u64 {
    let v = i * factor + (f * factor) / (pow(10, k) as nat);
    if v <= u64::MAX {
        v as u64
    } else {
        u64::MAX
    }
}

/// What a size expression means: after trimming and lowering the case, the
/// leading digits and dots are the number, the rest (trimmed) the unit. An
/// unreadable number is reported with the whole input, an unknown unit with
/// the unit.
pub open spec fn size_expression(input: Seq<char>) -> Result<u64, Seq<char>> {
    let s = lower(trim(input));
    let e = number_end(s);
    let number = s.take(e);
    let unit = trim(s.skip(e));
    if !valid_number(number) {
        Err(input)
    } else {
        match unit_factor(unit) {
            None => Err(unit),
            Some(m) => Ok(
                scaled(
                    digits_value(integer_digits(number)),
                    digits_value(fraction_digits(number)),
                    fraction_digits(number).len(),
                    m,
                ),
            ),
        }
    }
}

/// The fractional part's contribution, computed from the last digit back.
pub open spec fn fraction_floor(ds: Seq<char>, m: nat) -> nat
    decreases ds.len(),
{
    if ds.len() == 0 {
        0
    } else {
        (digit_value(ds[0]) * m + fraction_floor(ds.drop_first(), m)) / 10
    }
}

proof fn lemma_digits_value_first(ds: Seq<char>)
    requires
        ds.len() > 0,
    ensures
        digits_value(ds) == digit_value(ds[0]) * pow(10, (ds.len() - 1) as nat) + digits_value(ds.drop_first()),
    decreases ds.len(),
{
    if ds.len() == 1 {
        assert(ds.drop_last() =~= seq![]);
        assert(ds.drop_first() =~= seq![]);
        assert(pow(10, 0) == 1) by {
            reveal(pow);
        }
    } else {
        let a = ds.drop_last();
        lemma_digits_value_first(a);
        assert(a.drop_first() =~= ds.drop_first().drop_last());
        assert(ds.drop_first().last() == ds.last());
        let n = (ds.len() - 1) as nat;
        assert(pow(10, n) == 10 * pow(10, (n - 1) as nat)) by {
            reveal(pow);
        }
        let d0 = digit_value(ds[0]) as int;
        let p = pow(10, (n - 1) as nat);
        let r = digits_value(a.drop_first()) as int;
        assert((d0 * p + r) * 10 == d0 * (10 * p) + r * 10) by (nonlinear_arith);
    }
}

proof fn lemma_fraction_floor(ds: Seq<char>, m: nat)
    ensures
        fraction_floor(ds, m) == (digits_value(ds) * m) / (pow(10, ds.len()) as nat),
    decreases ds.len(),
{
    lemma_pow_positive(10, ds.len());
    if ds.len() == 0 {
        assert(pow(10, 0) == 1) by {
            reveal(pow);
        }
        assert(digits_value(ds) == 0);
        assert(fraction_floor(ds, m) == 0);
        assert((0nat * m) / 1nat == 0) by (nonlinear_arith);
    } else {
        let rest = ds.drop_first();
        lemma_fraction_floor(rest, m);
        lemma_digits_value_first(ds);
        let n = ds.len();
        lemma_pow_positive(10, (n - 1) as nat);
        let p = pow(10, (n - 1) as nat);
        assert(pow(10, n) == 10 * p) by {
            reveal(pow);
        }
        let d0 = digit_value(ds[0]) as int;
        let r = digits_value(rest) as int;
        let mi = m as int;
        let x = r * mi;
        let j = d0 * mi;
        assert((d0 * p + r) * mi == x + j * p) by (nonlinear_arith)
            requires
                x == r * mi,
                j == d0 * mi,
        ;
        assert(x >= 0) by (nonlinear_arith)
            requires
                r >= 0,
                mi >= 0,
                x == r * mi,
        ;
        assert(j >= 0) by (nonlinear_arith)
            requires
                d0 >= 0,
                mi >= 0,
                j == d0 * mi,
        ;
        lemma_div_denominator(x + j * p, p, 10);
        assert(p * 10 == 10 * p);
        lemma_hoist_over_denominator(x, j, p as nat);
        assert((x + j * p) / p == x / p + j);
        assert(digits_value(ds) as int * mi == x + j * p);
        assert(((x + j * p) / p) / 10 == (x + j * p) / (p * 10));
        assert(fraction_floor(rest, m) as int == x / p);
        assert(fraction_floor(ds, m) as int == (j + fraction_floor(rest, m) as int) / 10);
        assert((digits_value(ds) * m) / (pow(10, ds.len()) as nat) == (x + j * p) / (p * 10));
    }
}

/// Reads a size expression such as `100MB`, `1.5 GiB` or `512`: a decimal
/// number (digits with at most one `.`) followed by an optional unit, `b`,
/// `k`/`kb`, `m`/`mb`, `g`/`gb`, `t`/`tb` (powers of 1000) or `ki`/`kib`,
/// `mi`/`mib`, `gi`/`gib` (powers of 1024), in any case, with surrounding
/// whitespace ignored. The byte count is rounded down and capped at
/// `u64::MAX`.
pub fn parse_size(input: &str) -> (r: Result<u64, SentinelError>)
    ensures
        match r {
            Ok(v) => size_expression(input@) == Ok::<u64, Seq<char>>(v),
            Err(SentinelError::InvalidSize(s)) => size_expression(input@) == Err::<u64, Seq<char>>(s@),
            Err(_) => false,
        },
{
    let raw = str_chars(input);
    let trimmed = trim_chars(&raw);
    let s = lower_chars(&trimmed);
    let ghost sv = lower(trim(input@));
    assert(s@ == sv);
    // the number: leading digits and dots
    let mut e: usize = 0;
    assert(s@.skip(0) =~= s@);
    while e < s.len() && ((s[e] >= '0' && s[e] <= '9') || s[e] == '.')
        invariant
            e <= s@.len(),
            number_end(s@) == e + number_end(s@.skip(e as int)),
            forall|t: int| 0 <= t < e ==> #[trigger] is_digit(s@[t]) || s@[t] == '.',
        decreases s.len() - e,
    {
        assert(s@.skip(e as int).drop_first() =~= s@.skip(e + 1));
        e = e + 1;
    }
    proof {
        if e < s.len() {
            assert(s@.skip(e as int)[0] == s@[e as int]);
        }
    }
    let mut number: Vec<char> = Vec::new();
    let mut dots: usize = 0;
    let mut dot_at: usize = e;
    let mut k: usize = 0;
    while k < e
        invariant
            e <= s@.len(),
            k <= e,
            number_end(s@) == e,
            forall|t: int| 0 <= t < e ==> #[trigger] is_digit(s@[t]) || s@[t] == '.',
            number@ == s@.take(k as int),
            dots == dot_count(number@),
            dots <= k,
            dot_at <= e,
            dot_at < e ==> dot_at < k,
            (dot_at == e) == (first_dot(number@) < 0),
            dot_at < e ==> first_dot(number@) == dot_at,
            forall|t: int| 0 <= t < k && t < dot_at ==> #[trigger] number@[t] != '.',
        decreases e - k,
    {
        proof {
            assert(s@.take(k + 1).drop_last() =~= s@.take(k as int));
            lemma_first_dot_push(number@, s@[k as int]);
        }
        if s[k] == '.' {
            dots = dots + 1;
            if dot_at == e {
                dot_at = k;
            }
        }
        number.push(s[k]);
        assert(number@ =~= s@.take(k + 1));
        k = k + 1;
    }
    let mut unit_raw: Vec<char> = Vec::new();
    let mut j: usize = e;
    while j < s.len()
        invariant
            e <= j <= s@.len(),
            unit_raw@ == s@.subrange(e as int, j as int),
        decreases s.len() - j,
    {
        unit_raw.push(s[j]);
        assert(unit_raw@ =~= s@.subrange(e as int, j + 1));
        j = j + 1;
    }
    assert(unit_raw@ =~= s@.skip(e as int));
    let unit = trim_chars(&unit_raw);
    assert(number@ == sv.take(number_end(sv)));
    assert(dot_count(number@) == dots);
    assert(number@.len() == e);
    if !(dots <= 1 && e > dots) {
        return Err(SentinelError::InvalidSize(input.to_owned()));
    }
    let factor: u64 = if unit.len() == 0 || chars_are(&unit, "b") {
        1
    } else if chars_are(&unit, "k") || chars_are(&unit, "kb") {
        1_000
    } else if chars_are(&unit, "m") || chars_are(&unit, "mb") {
        1_000_000
    } else if chars_are(&unit, "g") || chars_are(&unit, "gb") {
        1_000_000_000
    } else if chars_are(&unit, "t") || chars_are(&unit, "tb") {
        1_000_000_000_000
    } else if chars_are(&unit, "ki") || chars_are(&unit, "kib") {
        1024
    } else if chars_are(&unit, "mi") || chars_are(&unit, "mib") {
        1_048_576
    } else if chars_are(&unit, "gi") || chars_are(&unit, "gib") {
        1_073_741_824
    } else {
        return Err(SentinelError::InvalidSize(string_from_chars(&unit)));
    };
    proof {
        if unit.len() == 0 {

        }
        assert(unit_factor(unit@) == Some(factor as nat));
    }
    // the integer part, capped at 2^64
    let cap: u128 = 0x1_0000_0000_0000_0000;
    let int_end = dot_at;
    let ghost idigits = integer_digits(number@);
    assert(idigits =~= number@.take(int_end as int));
    let mut int_value: u128 = 0;
    let mut a: usize = 0;
    assert(number@.take(0) =~= seq![]);
    while a < int_end
        invariant
            int_end <= e,
            number@.len() == e,
            a <= int_end,
            forall|t: int| 0 <= t < e ==> #[trigger] is_digit(number@[t]) || number@[t] == '.',
            forall|t: int| 0 <= t < e && t < int_end ==> #[trigger] number@[t] != '.',
            cap == 0x1_0000_0000_0000_0000u128,
            int_value == if digits_value(number@.take(a as int)) < cap {
                digits_value(number@.take(a as int))
            } else {
                cap as nat
            },
        decreases int_end - a,
    {
        let c = number[a];
        assert(is_digit(c));
        let d = (c as u32 - 48) as u128;
        assert(number@.take(a + 1).drop_last() =~= number@.take(a as int));
        assert(d == digit_value(c));
        if int_value < cap {
            let next = int_value * 10 + d;
            int_value = if next < cap {
                next
            } else {
                cap
            };
        }
        a = a + 1;
    }
    // the fraction, read from its last digit back
    let m = factor as u128;
    let mut t: u128 = 0;
    let frac_start: usize = if dot_at < e {
        dot_at + 1
    } else {
        e
    };
    let ghost fdigits = fraction_digits(number@);
    assert(fdigits =~= number@.subrange(frac_start as int, e as int));
    let mut b: usize = e;
    assert(number@.subrange(e as int, e as int) =~= seq![]);
    while b > frac_start
        invariant
            frac_start <= b <= e,
            number@.len() == e,
            dot_count(number@) <= 1,
            dot_at < e ==> first_dot(number@) == dot_at && frac_start == dot_at + 1,
            dot_at >= e ==> frac_start == e,
            forall|t: int| 0 <= t < e ==> #[trigger] is_digit(number@[t]) || number@[t] == '.',
            1 <= m <= 1_000_000_000_000,
            t < m,
            t == fraction_floor(number@.subrange(b as int, e as int), m as nat),
        decreases b,
    {
        let c = number[b - 1];
        proof {
            lemma_no_second_dot(number@, b - 1);
        }
        assert(is_digit(c));
        let d = (c as u32 - 48) as u128;
        assert(d <= 9);
        assert(number@.subrange(b - 1, e as int).drop_first() =~= number@.subrange(b as int, e as int));
        assert(number@.subrange(b - 1, e as int)[0] == c);
        assert(d * m + t < 10 * m) by (nonlinear_arith)
            requires
                d <= 9,
                t < m,
        ;
        t = (d * m + t) / 10;
        b = b - 1;
    }
    proof {
        lemma_fraction_floor(fdigits, m as nat);
    }
    let result: u64 = if int_value >= cap {
        u64::MAX
    } else {
        assert(int_value * m <= 0x1_0000_0000_0000_0000u128 * 1_000_000_000_000u128) by (nonlinear_arith)
            requires
                int_value < 0x1_0000_0000_0000_0000u128,
                m <= 1_000_000_000_000u128,
        ;
        let total = int_value * m + t;
        if total > u64::MAX as u128 {
            u64::MAX
        } else {
            total as u64
        }
    };
    proof {
        let iv = digits_value(idigits);
        if int_value >= cap {
            assert(iv * (m as nat) >= iv) by (nonlinear_arith)
                requires
                    m >= 1,
            ;
        }
    }
    Ok(result)
}

/// In a number with at most one `.`, every character after the first `.` is
/// a digit.
proof fn lemma_no_second_dot(n: Seq<char>, i: int)
    requires
        0 <= i < n.len(),
        dot_count(n) <= 1,
        first_dot(n) >= 0,
        i > first_dot(n),
    ensures
        n[i] != '.',
{
    lemma_first_dot_is_dot(n);
    if n[i] == '.' {
        lemma_two_dots(n, first_dot(n), i);
    }
}

proof fn lemma_first_dot_is_dot(n: Seq<char>)
    requires
        first_dot(n) >= 0,
    ensures
        first_dot(n) < n.len(),
        n[first_dot(n)] == '.',
    decreases n.len(),
{
    if n.len() > 0 && n[0] != '.' {
        lemma_first_dot_is_dot(n.drop_first());
    }
}

proof fn lemma_one_dot(n: Seq<char>, p: int)
    requires
        0 <= p < n.len(),
        n[p] == '.',
    ensures
        dot_count(n) >= 1,
    decreases n.len(),
{
    if p < n.len() - 1 {
        lemma_one_dot(n.drop_last(), p);
    }
}

proof fn lemma_two_dots(n: Seq<char>, p: int, q: int)
    requires
        0 <= p < q < n.len(),
        n[p] == '.',
        n[q] == '.',
    ensures
        dot_count(n) >= 2,
    decreases n.len(),
{
    if q < n.len() - 1 {
        lemma_two_dots(n.drop_last(), p, q);
    } else {
        lemma_one_dot(n.drop_last(), p);
    }
}

proof fn lemma_first_dot_push(s: Seq<char>, c: char)
    ensures
        first_dot(s.push(c)) == if first_dot(s) >= 0 {
            first_dot(s)
        } else if c == '.' {
            s.len() as int
        } else {
            -1
        },
    decreases s.len(),
{
    if s.len() > 0 {
        lemma_first_dot_push(s.drop_first(), c);
        assert(s.push(c).drop_first() =~= s.drop_first().push(c));
        assert(s.push(c)[0] == s[0]);
        if s[0] != '.' {
            assert(first_dot(s.push(c)) == if first_dot(s.drop_first().push(c)) < 0 {
                -1
            } else {
                1 + first_dot(s.drop_first().push(c))
            });
            assert(first_dot(s) == if first_dot(s.drop_first()) < 0 {
                -1
            } else {
                1 + first_dot(s.drop_first())
            });
        }
    } else {
        assert(s.push(c).drop_first() =~= seq![]);
        assert(s.push(c)[0] == c);
        assert(first_dot(seq![]) == -1);
    }
}

/// Case and surrounding whitespace do not change what a size expression is
/// worth: two inputs that agree once trimmed and lowered are both readable
/// or both not, and read as the same byte count.
pub proof fn lemma_size_ignores_case(a: Seq<char>, b: Seq<char>)
    requires
        lower(trim(a)) == lower(trim(b)),
    ensures
        size_expression(a) is Ok <==> size_expression(b) is Ok,
        size_expression(a) is Ok ==> size_expression(a) == size_expression(b),
{
}

/// An ASCII letter.
pub open spec fn is_letter(c: char) -> bool {
    65 <= (c as u32) <= 90 || 97 <= (c as u32) <= 122
}

proof fn lemma_digit_char(d: int)
    requires
        0 <= d < 10,
    ensures
        is_digit(digit_chars()[d]),
        digit_value(digit_chars()[d]) == d,
{
    let c = digit_chars()[d];
    if d == 0 {
        assert(c == '0');
    } else if d == 1 {
        assert(c == '1');
    } else if d == 2 {
        assert(c == '2');
    } else if d == 3 {
        assert(c == '3');
    } else if d == 4 {
        assert(c == '4');
    } else if d == 5 {
        assert(c == '5');
    } else if d == 6 {
        assert(c == '6');
    } else if d == 7 {
        assert(c == '7');
    } else if d == 8 {
        assert(c == '8');
    } else {
        assert(c == '9');
    }
}

/// The decimal rendering of `n` is made of digits and is read back as `n`.
proof fn lemma_decimal_digits(n: nat)
    ensures
        decimal(n).len() > 0,
        forall|i: int| 0 <= i < decimal(n).len() ==> is_digit(#[trigger] decimal(n)[i]),
        digits_value(decimal(n)) == n,
    decreases n,
{
    if n < 10 {
        lemma_digit_char(n as int);
        assert(decimal(n).drop_last() =~= Seq::<char>::empty());
        assert(decimal(n).last() == digit_chars()[n as int]);
        assert(digits_value(Seq::<char>::empty()) == 0);
        assert(digits_value(decimal(n)) == digits_value(decimal(n).drop_last()) * 10 + digit_value(decimal(n).last()));
    } else {
        lemma_decimal_digits(n / 10);
        lemma_digit_char((n % 10) as int);
        let d = decimal(n);
        assert(d.drop_last() =~= decimal(n / 10));
        assert(d.last() == digit_chars()[(n % 10) as int]);
        assert(digits_value(d) == digits_value(decimal(n / 10)) * 10 + digit_value(d.last()));
        assert((n / 10) * 10 + n % 10 == n);
        assert forall|i: int| 0 <= i < d.len() implies is_digit(#[trigger] d[i]) by {
            if i < d.len() - 1 {
                assert(d[i] == decimal(n / 10)[i]);
            }
        }
    }
}

proof fn lemma_number_end_digits(a: Seq<char>, b: Seq<char>)
    requires
        forall|i: int| 0 <= i < a.len() ==> is_digit(#[trigger] a[i]),
        b.len() == 0 || !(is_digit(b[0]) || b[0] == '.'),
    ensures
        number_end(a + b) == a.len(),
    decreases a.len(),
{
    if a.len() == 0 {
        assert(a + b =~= b);
    } else {
        assert(is_digit(a[0]));
        assert((a + b).drop_first() =~= a.drop_first() + b);
        assert forall|i: int| 0 <= i < a.drop_first().len() implies is_digit(#[trigger] a.drop_first()[i]) by {
            assert(a.drop_first()[i] == a[i + 1]);
        }
        lemma_number_end_digits(a.drop_first(), b);
    }
}

proof fn lemma_digits_no_dot(a: Seq<char>)
    requires
        forall|i: int| 0 <= i < a.len() ==> is_digit(#[trigger] a[i]),
    ensures
        dot_count(a) == 0,
        first_dot(a) == -1,
    decreases a.len(),
{
    if a.len() > 0 {
        assert forall|i: int| 0 <= i < a.drop_last().len() implies is_digit(#[trigger] a.drop_last()[i]) by {
            assert(a.drop_last()[i] == a[i]);
        }
        assert forall|i: int| 0 <= i < a.drop_first().len() implies is_digit(#[trigger] a.drop_first()[i]) by {
            assert(a.drop_first()[i] == a[i + 1]);
        }
        assert(is_digit(a.last()));
        assert(is_digit(a[0]));
        lemma_digits_no_dot(a.drop_last());
        lemma_digits_no_dot(a.drop_first());
    }
}

/// A unit written in letters whose lower-case form has a factor: the
/// expression `N` followed by the unit is worth `N` times the factor (capped
/// at `u64::MAX`).
proof fn lemma_size_of_count(n: nat, u: Seq<char>, m: nat)
    requires
        forall|i: int| 0 <= i < u.len() ==> is_letter(#[trigger] u[i]),
        unit_factor(lower(u)) == Some(m),
    ensures
        size_expression(decimal(n) + u) == Ok::<u64, Seq<char>>(saturating(n * m)),
{
    let d = decimal(n);
    lemma_decimal_digits(n);
    let s = d + u;
    assert(trim_start(s) == s) by {
        assert(s[0] == d[0]);
        assert(is_digit(d[0]));
    }
    assert(trim_end(s) == s) by {
        if u.len() > 0 {
            assert(s.last() == u[u.len() - 1]);
            assert(is_letter(u[u.len() - 1]));
        } else {
            assert(s.last() == d[d.len() - 1]);
            assert(is_digit(d[d.len() - 1]));
        }
    }
    let lu = lower(u);
    assert(lower(s) =~= d + lu) by {
        assert forall|i: int| 0 <= i < d.len() implies lower_char(#[trigger] d[i]) == d[i] by {
            assert(is_digit(d[i]));
        }
    }
    assert forall|i: int| 0 <= i < lu.len() implies is_letter(#[trigger] lu[i]) by {
        assert(is_letter(u[i]));
    }
    if lu.len() > 0 {
        assert(is_letter(lu[0]));
    }
    lemma_number_end_digits(d, lu);
    let ls = d + lu;
    assert(ls.take(d.len() as int) =~= d);
    assert(ls.skip(d.len() as int) =~= lu);
    assert(trim(lu) == lu) by {
        if lu.len() > 0 {
            assert(is_letter(lu[0]));
            assert(is_letter(lu[lu.len() - 1]));
        }
    }
    lemma_digits_no_dot(d);
    assert(fraction_digits(d) =~= Seq::<char>::empty());
    assert(pow(10, 0) == 1) by {
        reveal(pow);
    }
    assert((0nat * m) / 1nat == 0) by (nonlinear_arith);
}

proof fn lemma_lower_letters(u: Seq<char>, lit: Seq<char>)
    requires
        lower(u) == lit,
        forall|i: int| 0 <= i < lit.len() ==> 97 <= (#[trigger] lit[i] as u32) <= 122,
    ensures
        forall|i: int| 0 <= i < u.len() ==> is_letter(#[trigger] u[i]),
{
    assert forall|i: int| 0 <= i < u.len() implies is_letter(#[trigger] u[i]) by {
        assert(lower(u)[i] == lower_char(u[i]));
        assert(97 <= (lit[i] as u32) <= 122);
    }
}

proof fn lemma_unit_table()
    ensures
        unit_factor(seq!['k']) == Some(1_000nat),
        unit_factor(seq!['k', 'b']) == Some(1_000nat),
        unit_factor(seq!['m']) == Some(1_000_000nat),
        unit_factor(seq!['m', 'b']) == Some(1_000_000nat),
        unit_factor(seq!['g']) == Some(1_000_000_000nat),
        unit_factor(seq!['g', 'b']) == Some(1_000_000_000nat),
        unit_factor(seq!['t']) == Some(1_000_000_000_000nat),
        unit_factor(seq!['t', 'b']) == Some(1_000_000_000_000nat),
{
    lemma_unit_literals();
    let b = seq!['b'];
    let k = seq!['k'];
    let m = seq!['m'];
    let g = seq!['g'];
    let t = seq!['t'];
    assert(k[0] != b[0] && m[0] != b[0] && g[0] != b[0] && t[0] != b[0]);
    assert(m[0] != k[0] && g[0] != k[0] && t[0] != k[0]);
    assert(g[0] != m[0] && t[0] != m[0]);
    assert(t[0] != g[0]);
    let kb = seq!['k', 'b'];
    let mb = seq!['m', 'b'];
    let gb = seq!['g', 'b'];
    let tb = seq!['t', 'b'];
    assert(mb[0] != kb[0] && gb[0] != kb[0] && tb[0] != kb[0]);
    assert(gb[0] != mb[0] && tb[0] != mb[0]);
    assert(tb[0] != gb[0]);
}

proof fn lemma_unit_literals()
    ensures
        "b"@ == seq!['b'],
        "k"@ == seq!['k'],
        "kb"@ == seq!['k', 'b'],
        "m"@ == seq!['m'],
        "mb"@ == seq!['m', 'b'],
        "g"@ == seq!['g'],
        "gb"@ == seq!['g', 'b'],
        "t"@ == seq!['t'],
        "tb"@ == seq!['t', 'b'],
        "ki"@ == seq!['k', 'i'],
        "kib"@ == seq!['k', 'i', 'b'],
        "mi"@ == seq!['m', 'i'],
        "mib"@ == seq!['m', 'i', 'b'],
        "gi"@ == seq!['g', 'i'],
        "gib"@ == seq!['g', 'i', 'b'],
{
    reveal_strlit("b");
    reveal_strlit("k");
    reveal_strlit("kb");
    reveal_strlit("m");
    reveal_strlit("mb");
    reveal_strlit("g");
    reveal_strlit("gb");
    reveal_strlit("t");
    reveal_strlit("tb");
    reveal_strlit("ki");
    reveal_strlit("kib");
    reveal_strlit("mi");
    reveal_strlit("mib");
    reveal_strlit("gi");
    reveal_strlit("gib");
    assert("b"@ =~= seq!['b']);
    assert("k"@ =~= seq!['k']);
    assert("kb"@ =~= seq!['k', 'b']);
    assert("m"@ =~= seq!['m']);
    assert("mb"@ =~= seq!['m', 'b']);
    assert("g"@ =~= seq!['g']);
    assert("gb"@ =~= seq!['g', 'b']);
    assert("t"@ =~= seq!['t']);
    assert("tb"@ =~= seq!['t', 'b']);
    assert("ki"@ =~= seq!['k', 'i']);
    assert("kib"@ =~= seq!['k', 'i', 'b']);
    assert("mi"@ =~= seq!['m', 'i']);
    assert("mib"@ =~= seq!['m', 'i', 'b']);
    assert("gi"@ =~= seq!['g', 'i']);
    assert("gib"@ =~= seq!['g', 'i', 'b']);
}

/// A bare count, or a count with `b` / `B`, is that many bytes:
/// `N` and `Nb` are worth `N`.
pub proof fn lemma_size_bytes(n: nat, u: Seq<char>)
    requires
        u.len() == 0 || lower(u) == seq!['b'],
    ensures
        size_expression(decimal(n) + u) == Ok::<u64, Seq<char>>(saturating(n)),
{
    lemma_unit_literals();
    if u.len() > 0 {
        lemma_lower_letters(u, seq!['b']);
    }
    assert(lower(u).len() == 0 ==> lower(u) =~= Seq::<char>::empty());
    lemma_size_of_count(n, u, 1);
}

/// `k` / `kb` in any case are thousands: `NKB` is worth `N * 1000`.
pub proof fn lemma_size_kilo(n: nat, u: Seq<char>)
    requires
        lower(u) == seq!['k'] || lower(u) == seq!['k', 'b'],
    ensures
        size_expression(decimal(n) + u) == Ok::<u64, Seq<char>>(saturating(n * 1_000)),
{
    lemma_unit_table();
    lemma_lower_letters(u, lower(u));
    lemma_size_of_count(n, u, 1_000);
}

/// `m` / `mb` in any case are millions: `NMB` is worth `N * 1000000`.
pub proof fn lemma_size_mega(n: nat, u: Seq<char>)
    requires
        lower(u) == seq!['m'] || lower(u) == seq!['m', 'b'],
    ensures
        size_expression(decimal(n) + u) == Ok::<u64, Seq<char>>(saturating(n * 1_000_000)),
{
    lemma_unit_table();
    lemma_lower_letters(u, lower(u));
    lemma_size_of_count(n, u, 1_000_000);
}

/// `g` / `gb` in any case are billions: `NGB` is worth `N * 1000000000`.
pub proof fn lemma_size_giga(n: nat, u: Seq<char>)
    requires
        lower(u) == seq!['g'] || lower(u) == seq!['g', 'b'],
    ensures
        size_expression(decimal(n) + u) == Ok::<u64, Seq<char>>(saturating(n * 1_000_000_000)),
{
    lemma_unit_table();
    lemma_lower_letters(u, lower(u));
    lemma_size_of_count(n, u, 1_000_000_000);
}

/// `t` / `tb` in any case are trillions: `NTB` is worth
/// `N * 1000000000000`.
pub proof fn lemma_size_tera(n: nat, u: Seq<char>)
    requires
        lower(u) == seq!['t'] || lower(u) == seq!['t', 'b'],
    ensures
        size_expression(decimal(n) + u) == Ok::<u64, Seq<char>>(saturating(n * 1_000_000_000_000)),
{
    lemma_unit_table();
    lemma_lower_letters(u, lower(u));
    lemma_size_of_count(n, u, 1_000_000_000_000);
}

/// `ki` / `kib` in any case are kibibytes: `NKiB` is worth `N * 1024`.
pub proof fn lemma_size_kibi(n: nat, u: Seq<char>)
    requires
        lower(u) == seq!['k', 'i'] || lower(u) == seq!['k', 'i', 'b'],
    ensures
        size_expression(decimal(n) + u) == Ok::<u64, Seq<char>>(saturating(n * 1024)),
{
    lemma_unit_literals();
    lemma_lower_letters(u, lower(u));
    lemma_size_of_count(n, u, 1024);
}

/// `mi` / `mib` in any case are mebibytes: `NMiB` is worth `N * 1048576`.
pub proof fn lemma_size_mebi(n: nat, u: Seq<char>)
    requires
        lower(u) == seq!['m', 'i'] || lower(u) == seq!['m', 'i', 'b'],
    ensures
        size_expression(decimal(n) + u) == Ok::<u64, Seq<char>>(saturating(n * 1_048_576)),
{
    lemma_unit_literals();
    lemma_lower_letters(u, lower(u));
    lemma_size_of_count(n, u, 1_048_576);
}

/// `gi` / `gib` in any case are gibibytes: `NGiB` is worth
/// `N * 1073741824`.
pub proof fn lemma_size_gibi(n: nat, u: Seq<char>)
    requires
        lower(u) == seq!['g', 'i'] || lower(u) == seq!['g', 'i', 'b'],
    ensures
        size_expression(decimal(n) + u) == Ok::<u64, Seq<char>>(saturating(n * 1_073_741_824)),
{
    lemma_unit_literals();
    lemma_lower_letters(u, lower(u));
    lemma_size_of_count(n, u, 1_073_741_824);
}

} // verus!
