//! Parsing of human-readable sizes such as `500B`, `10KB` or `2.5GB`.
//!
//! The number is read as an exact decimal and multiplied by the unit; the
//! result is rounded down and saturates at `u64::MAX`.
use crate::text::{chars_of, decimal, decimal_padded, digit_char, is_ws, string_of, trim, trim_end, trim_start, trim_chars};
use vstd::arithmetic::div_mod::{lemma_div_denominator, lemma_hoist_over_denominator};
use vstd::prelude::*;

verus! {

/// Why a size could not be parsed.
#[derive(Debug)]
pub enum ParseSizeError {
    /// The text is not a size; carries the offending (trimmed) text.
    InvalidFormat(String),
    /// The value does not fit.
    Overflow,
}

pub open spec fn is_digit(c: char) -> bool {
    '0' <= c && c <= '9'
}

pub open spec fn digit_val(c: char) -> nat {
    (c as int - '0' as int) as nat
}

/// Value of a string of decimal digits.
pub open spec fn digits_value(s: Seq<char>) -> nat
    decreases s.len(),
{
    if s.len() == 0 {
        0
    } else {
        digits_value(s.drop_last()) * 10 + digit_val(s.last())
    }
}

pub open spec fn pow10(m: nat) -> nat
    decreases m,
{
    if m == 0 {
        1
    } else {
        10 * pow10((m - 1) as nat)
    }
}

/// Characters allowed in the numeric part.
pub open spec fn is_numeric_char(c: char) -> bool {
    is_digit(c) || c == '.'
}

/// Index of the first character that is neither a digit nor '.', or the length.
pub open spec fn unit_start(s: Seq<char>) -> int
    decreases s.len(),
{
    if s.len() == 0 {
        0
    } else if !is_numeric_char(s[0]) {
        0
    } else {
        1 + unit_start(s.drop_first())
    }
}

/// The numeric part ("0" when the text starts with the unit) and the unit.
pub open spec fn split_number_unit_spec(s: Seq<char>) -> (Seq<char>, Seq<char>) {
    let k = unit_start(s);
    if k < s.len() {
        if k == 0 {
            (seq!['0'], s)
        } else {
            (s.subrange(0, k), s.subrange(k, s.len() as int))
        }
    } else {
        (s, Seq::empty())
    }
}

/// Number of '.' characters.
pub open spec fn dot_count(s: Seq<char>) -> nat
    decreases s.len(),
{
    if s.len() == 0 {
        0
    } else {
        dot_count(s.drop_last()) + (if s.last() == '.' {
            1nat
        } else {
            0nat
        })
    }
}

/// Index of the first '.', or the length.
pub open spec fn dot_index(s: Seq<char>) -> int
    decreases s.len(),
{
    if s.len() == 0 {
        0
    } else if s[0] == '.' {
        0
    } else {
        1 + dot_index(s.drop_first())
    }
}

/// A decimal number: digits with at most one '.', and at least one digit.
pub open spec fn number_valid(s: Seq<char>) -> bool {
    &&& forall|i: int| 0 <= i < s.len() ==> is_numeric_char(#[trigger] s[i])
    &&& dot_count(s) <= 1
    &&& exists|i: int| 0 <= i < s.len() && is_digit(#[trigger] s[i])
}

/// Digits before the point.
pub open spec fn int_digits(s: Seq<char>) -> Seq<char> {
    s.subrange(0, dot_index(s))
}

/// Digits after the point (empty without a point).
pub open spec fn frac_digits(s: Seq<char>) -> Seq<char> {
    if dot_index(s) < s.len() {
        s.subrange(dot_index(s) + 1, s.len() as int)
    } else {
        Seq::empty()
    }
}

/// Multiplier of a unit, if the unit is known.
pub open spec fn unit_multiplier(u: Seq<char>) -> Option<nat> {
    if u == seq!['B'] || u.len() == 0 {
        Some(1)
    } else if u == seq!['K', 'B'] {
        Some(1024)
    } else if u == seq!['M', 'B'] {
        Some(1048576)
    } else if u == seq!['G', 'B'] {
        Some(1073741824)
    } else if u == seq!['T', 'B'] {
        Some(1099511627776)
    } else {
        None
    }
}

/// `floor(number * mult)` for an exact decimal number.
pub open spec fn scaled_value(num: Seq<char>, mult: nat) -> nat {
    digits_value(int_digits(num)) * mult + (digits_value(frac_digits(num)) * mult) / pow10(
        frac_digits(num).len(),
    )
}

pub open spec fn saturate(v: nat) -> u64 {
    if v > u64::MAX {
        u64::MAX
    } else {
        v as u64
    }
}

/// Result of parsing `input`: `None` when it is not a size, else the number
/// of bytes (rounded down, saturated).
pub open spec fn human_size(input: Seq<char>) -> Option<u64> {
    let t = trim(input);
    let (num, unit) = split_number_unit_spec(t);
    if t.len() == 0 || !number_valid(num) {
        None
    } else {
        match unit_multiplier(unit) {
            None => None,
            Some(m) => Some(saturate(scaled_value(num, m))),
        }
    }
}

proof fn lemma_digits_value_front(s: Seq<char>)
    requires
        s.len() > 0,
    ensures
        digits_value(s) == digit_val(s[0]) * pow10((s.len() - 1) as nat) + digits_value(s.drop_first()),
    decreases s.len(),
{
    if s.len() == 1 {
        assert(s.drop_first().len() == 0);
        assert(s.drop_last().len() == 0);
        assert(s.last() == s[0]);
        assert(digits_value(s) == digits_value(s.drop_last()) * 10 + digit_val(s.last()));
        assert(pow10(0) == 1);
        assert(digits_value(s.drop_first()) == 0);
        assert(digits_value(s.drop_last()) == 0);
        assert(digit_val(s[0]) * pow10(0) == digit_val(s[0])) by (nonlinear_arith)
            requires pow10(0) == 1;
    } else {
        let d = s.drop_last();
        let t = s.drop_first();
        lemma_digits_value_front(d);
        assert(d.drop_first() =~= t.drop_last());
        assert(t.last() == s.last());
        assert(d[0] == s[0]);
        let p = pow10((d.len() - 1) as nat);
        assert(pow10((s.len() - 1) as nat) == 10 * p);
        let x = digits_value(d.drop_first());
        assert(digits_value(t) == digits_value(t.drop_last()) * 10 + digit_val(t.last()));
        assert(digits_value(s) == digits_value(d) * 10 + digit_val(s.last()));
        let g = digit_val(s[0]);
        let l = digit_val(s.last());
        assert((g * p + x) * 10 + l == g * (10 * p) + (x * 10 + l)) by (nonlinear_arith);
        assert(digits_value(d) == g * p + x);
        assert(digits_value(t) == x * 10 + l);
        assert(digits_value(s) == g * (10 * p) + digits_value(t));
    }
}

proof fn lemma_digits_value_bound(s: Seq<char>)
    requires
        forall|i: int| 0 <= i < s.len() ==> is_digit(#[trigger] s[i]),
    ensures
        digits_value(s) < pow10(s.len()),
    decreases s.len(),
{
    if s.len() > 0 {
        let d = s.drop_last();
        assert forall|i: int| 0 <= i < d.len() implies is_digit(#[trigger] d[i]) by {
            assert(d[i] == s[i]);
        }
        lemma_digits_value_bound(d);
        assert(is_digit(s[s.len() - 1]));
        let v = digits_value(d);
        let p = pow10(d.len());
        assert(v + 1 <= p);
        assert(v * 10 + 9 < p * 10) by (nonlinear_arith)
            requires
                v + 1 <= p,
        ;
    }
}

proof fn lemma_pow10_pos(m: nat)
    ensures
        pow10(m) >= 1,
    decreases m,
{
    if m > 0 {
        lemma_pow10_pos((m - 1) as nat);
    }
}

/// `(a + b / d) / 10 == (a * d + b) / (10 * d)`.
proof fn lemma_carry(a: int, b: int, d: int)
    requires
        a >= 0,
        b >= 0,
        d > 0,
    ensures
        (a + b / d) / 10 == (a * d + b) / (10 * d),
{
    lemma_hoist_over_denominator(b, a, d as nat);
    assert(b / d + a == (b + a * d) / d);
    lemma_div_denominator(b + a * d, d, 10);
    assert(d * 10 == 10 * d) by (nonlinear_arith);
    assert(a * d >= 0) by (nonlinear_arith)
        requires
            a >= 0,
            d > 0,
    ;
    assert(b + a * d == a * d + b);
}

fn is_digit_exec(c: char) -> (b: bool)
    ensures
        b == is_digit(c),
{
    '0' <= c && c <= '9'
}

fn digit_of(c: char) -> (d: u64)
    requires
        is_digit(c),
    ensures
        d == digit_val(c),
        d < 10,
{
    (c as u32 - '0' as u32) as u64
}

/// Splits at the first character that is neither a digit nor '.'.
pub fn split_number_unit(s: &[char]) -> (r: (Vec<char>, Vec<char>))
    ensures
        (r.0@, r.1@) == split_number_unit_spec(s@),
{
    let n = s.len();
    let mut k: usize = 0;
    proof {
        assert(s@.subrange(0, n as int) =~= s@);
    }
    while k < n && (is_digit_exec(s[k]) || s[k] == '.')
        invariant
            n == s@.len(),
            k <= n,
            unit_start(s@) == k + unit_start(s@.subrange(k as int, n as int)),
        decreases n - k,
    {
        proof {
            let r = s@.subrange(k as int, n as int);
            assert(r.drop_first() =~= s@.subrange(k + 1, n as int));
        }
        k = k + 1;
    }
    proof {
        assert(s@.subrange(0, n as int) =~= s@);
        if k < n {
            let r = s@.subrange(k as int, n as int);
            assert(r[0] == s@[k as int]);
        }
    }
    if k < n {
        let unit = vstd::slice::slice_to_vec(vstd::slice::slice_subrange(s, k, n));
        if k == 0 {
            let mut zero: Vec<char> = Vec::new();
            zero.push('0');
            proof {
                assert(zero@ =~= seq!['0']);
                assert(unit@ =~= s@);
            }
            (zero, unit)
        } else {
            (vstd::slice::slice_to_vec(vstd::slice::slice_subrange(s, 0, k)), unit)
        }
    } else {
        proof {
            assert(s@.subrange(0, n as int) =~= s@);
        }
        (vstd::slice::slice_to_vec(s), Vec::new())
    }
}

proof fn lemma_dot_count_prefix(s: Seq<char>, k: int)
    requires
        0 <= k < s.len(),
    ensures
        dot_count(s.take(k + 1)) == dot_count(s.take(k)) + (if s[k] == '.' { 1nat } else { 0nat }),
{
    assert(s.take(k + 1).drop_last() =~= s.take(k));
}

proof fn lemma_dot_index_prefix(s: Seq<char>, k: int)
    requires
        0 <= k <= s.len(),
        forall|j: int| 0 <= j < k ==> s[j] != '.',
    ensures
        dot_index(s) == k + dot_index(s.subrange(k, s.len() as int)),
    decreases k,
{
    if k > 0 {
        let d = s.drop_first();
        assert forall|j: int| 0 <= j < k - 1 implies d[j] != '.' by {
            assert(d[j] == s[j + 1]);
        }
        lemma_dot_index_prefix(d, k - 1);
        assert(d.subrange(k - 1, d.len() as int) =~= s.subrange(k, s.len() as int));
    } else {
        assert(s.subrange(0, s.len() as int) =~= s);
    }
}

/// Checks the number syntax and finds the point.
fn scan_number(num: &[char]) -> (r: (bool, usize))
    ensures
        r.0 == number_valid(num@),
        r.0 ==> r.1 as int == dot_index(num@) && r.1 <= num@.len(),
{
    let n = num.len();
    let mut dots: usize = 0;
    let mut digits: bool = false;
    let mut dot_at: usize = n;
    let mut i: usize = 0;
    while i < n
        invariant
            n == num@.len(),
            i <= n,
            forall|j: int| 0 <= j < i ==> is_numeric_char(#[trigger] num@[j]),
            dots as int == dot_count(num@.take(i as int)),
            dots <= 1,
            digits == exists|j: int| 0 <= j < i && is_digit(#[trigger] num@[j]),
            dots == 0 ==> dot_at == n && forall|j: int| 0 <= j < i ==> num@[j] != '.',
            dots == 1 ==> dot_at < i && num@[dot_at as int] == '.' && forall|j: int| 0 <= j < dot_at ==> num@[j] != '.',
        decreases n - i,
    {
        let c = num[i];
        proof {
            lemma_dot_count_prefix(num@, i as int);
        }
        if c == '.' {
            if dots == 1 {
                proof {
                    assert(dot_count(num@.take(i + 1)) == 2);
                    lemma_dot_count_le(num@, i + 1);
                }
                return (false, 0);
            }
            dots = 1;
            dot_at = i;
        } else if is_digit_exec(c) {
            digits = true;
        } else {
            return (false, 0);
        }
        i = i + 1;
    }
    proof {
        assert(num@.take(n as int) =~= num@);
        lemma_dot_index_prefix(num@, dot_at as int);
        if dot_at < n {
            assert(num@.subrange(dot_at as int, n as int)[0] == '.');
        } else {
            assert(num@.subrange(n as int, n as int).len() == 0);
        }
    }
    (digits, dot_at)
}

proof fn lemma_dot_count_le(s: Seq<char>, k: int)
    requires
        0 <= k <= s.len(),
    ensures
        dot_count(s.take(k)) <= dot_count(s),
    decreases s.len() - k,
{
    if k < s.len() {
        let d = s.drop_last();
        lemma_dot_count_le(d, k);
        assert(d.take(k) =~= s.take(k));
    } else {
        assert(s.take(k) =~= s);
    }
}

/// `min(digits_value(ds), u64::MAX)`.
fn saturating_digits(ds: &[char]) -> (v: u64)
    requires
        forall|i: int| 0 <= i < ds@.len() ==> is_digit(#[trigger] ds@[i]),
    ensures
        v == saturate(digits_value(ds@)),
{
    let mut acc: u64 = 0;
    let mut i: usize = 0;
    while i < ds.len()
        invariant
            i <= ds@.len(),
            forall|j: int| 0 <= j < ds@.len() ==> is_digit(#[trigger] ds@[j]),
            acc == saturate(digits_value(ds@.take(i as int))),
        decreases ds@.len() - i,
    {
        let d = digit_of(ds[i]);
        proof {
            assert(ds@.take(i + 1).drop_last() =~= ds@.take(i as int));
        }
        let ghost v = digits_value(ds@.take(i as int));
        if acc > (u64::MAX - d) / 10 {
            proof {
                assert(v * 10 + d > u64::MAX) by (nonlinear_arith)
                    requires
                        acc > (u64::MAX - d) / 10,
                        acc <= v,
                        d < 10,
                ;
            }
            acc = u64::MAX;
        } else {
            proof {
                assert(acc * 10 + d <= u64::MAX) by (nonlinear_arith)
                    requires
                        acc <= (u64::MAX - d) / 10,
                        d < 10,
                ;
                if v > u64::MAX {
                    assert(false);
                }
            }
            acc = acc * 10 + d;
        }
        i = i + 1;
    }
    proof {
        assert(ds@.take(ds@.len() as int) =~= ds@);
    }
    acc
}

/// `floor(0.f1 f2 ... fm * mult)`, exactly.
fn scaled_fraction(fs: &[char], mult: u64) -> (v: u64)
    requires
        forall|i: int| 0 <= i < fs@.len() ==> is_digit(#[trigger] fs@[i]),
        1 <= mult <= 1099511627776,
    ensures
        v as nat == (digits_value(fs@) * (mult as nat)) / pow10(fs@.len()),
        v < mult,
{
    let m = fs.len();
    let mut c: u64 = 0;
    let mut i: usize = m;
    proof {
        assert(fs@.subrange(m as int, m as int).len() == 0);
        assert(digits_value(fs@.subrange(m as int, m as int)) == 0);
        assert(pow10(0) == 1);
        assert(0 * (mult as nat) == 0);
    }
    while i > 0
        invariant
            m == fs@.len(),
            i <= m,
            1 <= mult <= 1099511627776,
            forall|j: int| 0 <= j < fs@.len() ==> is_digit(#[trigger] fs@[j]),
            c as nat == (digits_value(fs@.subrange(i as int, m as int)) * (mult as nat)) / pow10((m - i) as nat),
            c < mult,
        decreases i,
    {
        let d = digit_of(fs[i - 1]);
        proof {
            let tail = fs@.subrange(i as int, m as int);
            let whole = fs@.subrange(i - 1, m as int);
            assert(whole.drop_first() =~= tail);
            assert(whole[0] == fs@[i - 1]);
            lemma_digits_value_front(whole);
            let p = pow10((m - i) as nat);
            lemma_pow10_pos((m - i) as nat);
            let vt = digits_value(tail);
            lemma_carry(d * mult, vt * mult, p as int);
            assert((d * mult) * p + vt * mult == (d * p + vt) * mult) by (nonlinear_arith);
            assert(pow10((m - (i - 1)) as nat) == 10 * p);
            assert forall|j: int| 0 <= j < whole.len() implies is_digit(#[trigger] whole[j]) by {
                assert(whole[j] == fs@[i - 1 + j]);
            }
            lemma_digits_value_bound(whole);
            let vw = digits_value(whole);
            assert((vw * (mult as nat)) / (10 * p) < mult) by (nonlinear_arith)
                requires
                    vw < 10 * p,
                    mult >= 1,
                    p >= 1,
            ;
        }
        c = (d * mult + c) / 10;
        i = i - 1;
    }
    proof {
        assert(fs@.subrange(0, m as int) =~= fs@);
    }
    c
}

/// Parses a human-readable size (`500B`, `10KB`, `2.5GB`, `0`).
pub fn parse_human_size(input: &str) -> (r: Result<u64, ParseSizeError>)
    ensures
        human_size(input@) is None <==> r is Err,
        human_size(input@) matches Some(v) ==> r == Ok::<u64, ParseSizeError>(v),
        r matches Err(ParseSizeError::InvalidFormat(t)) ==> (t@ == trim(input@) || (trim(input@).len() == 0)),
{
    let chars = chars_of(input);
    let t = trim_chars(chars.as_slice());
    if t.len() == 0 {
        return Err(ParseSizeError::InvalidFormat(crate::text::string_from("empty string")));
    }
    let (num, unit) = split_number_unit(t.as_slice());
    let (ok, dot) = scan_number(num.as_slice());
    if !ok {
        return Err(ParseSizeError::InvalidFormat(string_of(t.as_slice())));
    }
    let mult: u64 = if unit.len() == 0 || (unit.len() == 1 && unit[0] == 'B') {
        1
    } else if unit.len() == 2 && unit[1] == 'B' && unit[0] == 'K' {
        1024
    } else if unit.len() == 2 && unit[1] == 'B' && unit[0] == 'M' {
        1048576
    } else if unit.len() == 2 && unit[1] == 'B' && unit[0] == 'G' {
        1073741824
    } else if unit.len() == 2 && unit[1] == 'B' && unit[0] == 'T' {
        1099511627776
    } else {
        proof {
            if unit@.len() == 1 {
                assert(unit@ != seq!['B']);
            }
            if unit@.len() == 2 {
                assert(unit@ != seq!['K', 'B'] && unit@ != seq!['M', 'B'] && unit@ != seq!['G', 'B'] && unit@ != seq!['T', 'B']);
            }
        }
        return Err(ParseSizeError::InvalidFormat(string_of(t.as_slice())));
    };
    proof {
        if unit@.len() == 1 {
            assert(unit@ =~= seq!['B']);
        }
        if unit@.len() == 2 {
            assert(unit@ =~= seq![unit@[0], 'B']);
        }
        assert(unit_multiplier(unit@) == Some(mult as nat));
    }
    let n = num.len();
    let ipart = vstd::slice::slice_subrange(num.as_slice(), 0, dot);
    let fpart: &[char] = if dot < n {
        vstd::slice::slice_subrange(num.as_slice(), dot + 1, n)
    } else {
        vstd::slice::slice_subrange(num.as_slice(), n, n)
    };
    proof {
        assert(ipart@ =~= int_digits(num@));
        assert(fpart@ =~= frac_digits(num@));
        assert forall|i: int| 0 <= i < ipart@.len() implies is_digit(#[trigger] ipart@[i]) by {
            assert(ipart@[i] == num@[i]);
            assert(is_numeric_char(num@[i]));
            lemma_before_dot(num@, i);
        }
        assert forall|i: int| 0 <= i < fpart@.len() implies is_digit(#[trigger] fpart@[i]) by {
            assert(fpart@[i] == num@[dot + 1 + i]);
            assert(is_numeric_char(num@[dot + 1 + i]));
            lemma_after_dot(num@, dot + 1 + i);
        }
    }
    let iv = saturating_digits(ipart);
    let fv = scaled_fraction(fpart, mult);
    let ghost exact = scaled_value(num@, mult as nat);
    let whole: u64 = match iv.checked_mul(mult) {
        Some(x) => x,
        None => u64::MAX,
    };
    let total: u64 = match whole.checked_add(fv) {
        Some(x) => x,
        None => u64::MAX,
    };
    proof {
        let vi = digits_value(int_digits(num@));
        if vi > u64::MAX {
            assert(vi * mult >= vi) by (nonlinear_arith)
                requires
                    mult >= 1,
            ;
        } else {
            assert(iv == vi);
        }
        if iv == u64::MAX {
            assert(iv * mult >= iv) by (nonlinear_arith)
                requires
                    mult >= 1,
            ;
            assert(vi * mult >= u64::MAX) by (nonlinear_arith)
                requires
                    mult >= 1,
                    vi >= u64::MAX,
            ;
        }
    }
    Ok(total)
}

proof fn lemma_before_dot(s: Seq<char>, i: int)
    requires
        0 <= i < dot_index(s),
        dot_index(s) <= s.len(),
        is_numeric_char(s[i]),
    ensures
        is_digit(s[i]),
    decreases s.len(),
{
    if i > 0 {
        assert(s.drop_first()[i - 1] == s[i]);
        lemma_before_dot(s.drop_first(), i - 1);
    }
}

proof fn lemma_after_dot(s: Seq<char>, j: int)
    requires
        dot_index(s) < j < s.len(),
        dot_count(s) <= 1,
        is_numeric_char(s[j]),
    ensures
        is_digit(s[j]),
{
    let d = dot_index(s);
    lemma_dot_index_range(s);
    lemma_dot_at_index(s);
    if s[j] == '.' {
        lemma_dot_count_prefix(s, d);
        lemma_dot_count_prefix(s, j);
        lemma_dot_count_grows(s, d + 1, j);
        lemma_dot_count_le(s, j + 1);
        assert(false);
    }
}

proof fn lemma_dot_at_index(s: Seq<char>)
    requires
        dot_index(s) < s.len(),
    ensures
        s[dot_index(s)] == '.',
    decreases s.len(),
{
    lemma_dot_index_range(s);
    if s.len() > 0 && s[0] != '.' {
        lemma_dot_index_range(s.drop_first());
        lemma_dot_at_index(s.drop_first());
        assert(s.drop_first()[dot_index(s.drop_first())] == s[dot_index(s)]);
    }
}

proof fn lemma_dot_index_range(s: Seq<char>)
    ensures
        0 <= dot_index(s) <= s.len(),
    decreases s.len(),
{
    if s.len() > 0 {
        lemma_dot_index_range(s.drop_first());
    }
}

proof fn lemma_dot_count_grows(s: Seq<char>, k: int, l: int)
    requires
        0 <= k <= l <= s.len(),
    ensures
        dot_count(s.take(k)) <= dot_count(s.take(l)),
    decreases l - k,
{
    if k < l {
        lemma_dot_count_grows(s, k, l - 1);
        lemma_dot_count_prefix(s, l - 1);
    }
}

/// Value of an unsigned decimal as `str::parse` reads it: an optional '+'
/// and at least one digit; `None` for anything else.
pub open spec fn uint_value(s: Seq<char>) -> Option<nat> {
    let d = unsigned_digits(s);
    if d.len() > 0 && all_digits(d) {
        Some(digits_value(d))
    } else {
        None
    }
}

/// `s` without one leading '+'.
pub open spec fn unsigned_digits(s: Seq<char>) -> Seq<char> {
    if s.len() > 0 && s[0] == '+' {
        s.drop_first()
    } else {
        s
    }
}

/// Every character of `d` is a decimal digit.
pub open spec fn all_digits(d: Seq<char>) -> bool {
    forall|i: int| 0 <= i < d.len() ==> is_digit(#[trigger] d[i])
}

/// `s` parsed as an unsigned integer no greater than `max`.
pub open spec fn parse_uint_spec(s: Seq<char>, max: nat) -> Option<nat> {
    match uint_value(s) {
        Some(v) => if v <= max {
            Some(v)
        } else {
            None
        },
        None => None,
    }
}

/// Parses an unsigned decimal no greater than `max` (as `str::parse` does
/// for `u64` with `max == u64::MAX`, and for `u32` with `u32::MAX`).
pub fn parse_uint(s: &[char], max: u64) -> (r: Option<u64>)
    ensures
        match r {
            Some(v) => parse_uint_spec(s@, max as nat) == Some(v as nat),
            None => parse_uint_spec(s@, max as nat) is None,
        },
{
    let start: usize = if s.len() > 0 && s[0] == '+' { 1 } else { 0 };
    let ghost d = unsigned_digits(s@);
    proof {
        assert(d =~= s@.subrange(start as int, s@.len() as int));
    }
    if start >= s.len() {
        return None;
    }
    let mut acc: u64 = 0;
    let mut over = false;
    let mut i: usize = start;
    while i < s.len()
        invariant
            start <= i <= s@.len(),
            start < s@.len(),
            d == s@.subrange(start as int, s@.len() as int),
            d == unsigned_digits(s@),
            forall|j: int| start <= j < i ==> is_digit(#[trigger] s@[j]),
            !over ==> acc == digits_value(d.take(i - start)),
            over ==> digits_value(d.take(i - start)) > max,
            acc <= max,
        decreases s@.len() - i,
    {
        if !is_digit_exec(s[i]) {
            proof {
                assert(d[i - start] == s@[i as int]);
                assert(!is_digit(d[i - start]));
            }
            return None;
        }
        let dg = digit_of(s[i]);
        let ghost prev = digits_value(d.take(i - start));
        proof {
            assert(d.take(i - start + 1).drop_last() =~= d.take(i - start));
            assert(d.take(i - start + 1).last() == s@[i as int]);
        }
        if !over {
            if dg > max || acc > (max - dg) / 10 {
                proof {
                    if dg <= max {
                        assert(prev * 10 + dg > max) by (nonlinear_arith)
                            requires
                                acc > (max - dg) / 10,
                                acc == prev,
                                dg <= max,
                        ;
                    }
                }
                over = true;
            } else {
                proof {
                    assert(acc * 10 + dg <= max) by (nonlinear_arith)
                        requires
                            acc <= (max - dg) / 10,
                            dg <= max,
                    ;
                }
                acc = acc * 10 + dg;
            }
        } else {
            proof {
                assert(prev * 10 + dg > max) by (nonlinear_arith)
                    requires
                        prev > max,
                ;
            }
        }
        i = i + 1;
    }
    proof {
        assert(d.take(s@.len() - start) =~= d);
        assert forall|j: int| 0 <= j < d.len() implies is_digit(#[trigger] d[j]) by {
            assert(d[j] == s@[start + j]);
        }
    }
    if over {
        None
    } else {
        Some(acc)
    }
}

/// The size unit of rank `k`: B, KB, MB, GB, TB.
pub open spec fn unit_of_rank(k: nat) -> Seq<char> {
    if k == 0 {
        seq!['B']
    } else if k == 1 {
        seq!['K', 'B']
    } else if k == 2 {
        seq!['M', 'B']
    } else if k == 3 {
        seq!['G', 'B']
    } else {
        seq!['T', 'B']
    }
}

proof fn lemma_decimal_digits(n: nat)
    ensures
        decimal(n).len() >= 1,
        forall|i: int| 0 <= i < decimal(n).len() ==> is_digit(#[trigger] decimal(n)[i]),
        digits_value(decimal(n)) == n,
    decreases n,
{
    if n >= 10 {
        lemma_decimal_digits(n / 10);
        let d = decimal(n / 10);
        let s = decimal(n);
        assert(s == d.push(digit_char(n % 10)));
        assert(s.drop_last() =~= d);
        assert forall|i: int| 0 <= i < s.len() implies is_digit(#[trigger] s[i]) by {
            if i < d.len() {
                assert(s[i] == d[i]);
            }
        }
        assert(digit_val(digit_char(n % 10)) == n % 10);
    } else {
        let s = decimal(n);
        assert(s.drop_last().len() == 0);
        assert(digits_value(s.drop_last()) == 0);
    }
}

proof fn lemma_digits_no_dot(a: Seq<char>)
    requires
        forall|i: int| 0 <= i < a.len() ==> is_digit(#[trigger] a[i]),
    ensures
        dot_count(a) == 0,
        dot_index(a) == a.len(),
    decreases a.len(),
{
    if a.len() > 0 {
        assert forall|i: int| 0 <= i < a.drop_last().len() implies is_digit(#[trigger] a.drop_last()[i]) by {
            assert(a.drop_last()[i] == a[i]);
        }
        assert forall|i: int| 0 <= i < a.drop_first().len() implies is_digit(#[trigger] a.drop_first()[i]) by {
            assert(a.drop_first()[i] == a[i + 1]);
        }
        lemma_digits_no_dot(a.drop_last());
        lemma_digits_no_dot(a.drop_first());
        assert(is_digit(a[0]) && is_digit(a.last()));
    }
}

proof fn lemma_unit_start_after(a: Seq<char>, b: Seq<char>)
    requires
        forall|i: int| 0 <= i < a.len() ==> is_digit(#[trigger] a[i]),
        b.len() > 0,
        !is_numeric_char(b[0]),
    ensures
        unit_start(a + b) == a.len(),
    decreases a.len(),
{
    if a.len() == 0 {
        assert((a + b)[0] == b[0]);
    } else {
        assert((a + b)[0] == a[0]);
        assert((a + b).drop_first() =~= a.drop_first() + b);
        assert forall|i: int| 0 <= i < a.drop_first().len() implies is_digit(#[trigger] a.drop_first()[i]) by {
            assert(a.drop_first()[i] == a[i + 1]);
        }
        lemma_unit_start_after(a.drop_first(), b);
    }
}

/// Whole sizes: a number followed by one of the units B, KB, MB, GB, TB is
/// that number times 1024 raised to the unit's rank (0 to 4), saturated at
/// the largest `u64`; so "1TB" is 1024^4 bytes and "3KB" is 3072.
/// `parse_human_size` returns exactly this value.
pub proof fn law_whole_sizes(n: nat, k: nat)
    requires
        k <= 4,
    ensures
        human_size(decimal(n) + unit_of_rank(k)) == Some(
            if n * vstd::arithmetic::power::pow(1024, k) <= u64::MAX {
                (n * vstd::arithmetic::power::pow(1024, k)) as u64
            } else {
                u64::MAX
            },
        ),
{
    let a = decimal(n);
    let u = unit_of_rank(k);
    let s = a + u;
    lemma_decimal_digits(n);
    lemma_digits_no_dot(a);
    assert(u.len() >= 1 && u.last() == 'B');
    assert(!is_numeric_char(u[0]));
    lemma_unit_start_after(a, u);
    assert(s[0] == a[0]);
    assert(!is_ws(s[0]));
    assert(trim_start(s) == s);
    assert(s.last() == 'B');
    assert(trim_end(s) == s);
    assert(trim(s) == s);
    assert(s.subrange(0, a.len() as int) =~= a);
    assert(s.subrange(a.len() as int, s.len() as int) =~= u);
    assert(split_number_unit_spec(s) == (a, u));
    assert(number_valid(a)) by {
        assert forall|i: int| 0 <= i < a.len() implies is_numeric_char(#[trigger] a[i]) by {
            assert(is_digit(a[i]));
        }
        assert(is_digit(a[0]));
    }
    assert(int_digits(a) =~= a);
    assert(frac_digits(a) =~= Seq::<char>::empty());
    assert(digits_value(Seq::<char>::empty()) == 0);
    assert(pow10(0) == 1);
    let m = vstd::arithmetic::power::pow(1024, k);
    assert(unit_multiplier(u) == Some(m as nat)) by {
        reveal_with_fuel(vstd::arithmetic::power::pow, 5);
        if k == 0 {
            assert(u =~= seq!['B']);
        }
    }
    assert(m >= 0) by {
        vstd::arithmetic::power::lemma_pow_positive(1024, k);
    }
    assert(scaled_value(a, m as nat) == n * m) by {
        let f = frac_digits(a);
        assert(digits_value(f) == 0);
        assert(f.len() == 0);
        assert(digits_value(int_digits(a)) == n);
        assert(digits_value(f) * (m as nat) == 0) by (nonlinear_arith)
            requires
                digits_value(f) == 0,
        ;
        assert((digits_value(f) * (m as nat)) / pow10(f.len()) == 0);
    }
}

proof fn lemma_unit_start_numeric(a: Seq<char>, b: Seq<char>)
    requires
        forall|i: int| 0 <= i < a.len() ==> is_numeric_char(#[trigger] a[i]),
        b.len() > 0,
        !is_numeric_char(b[0]),
    ensures
        unit_start(a + b) == a.len(),
    decreases a.len(),
{
    if a.len() == 0 {
        assert((a + b)[0] == b[0]);
    } else {
        assert((a + b)[0] == a[0]);
        assert((a + b).drop_first() =~= a.drop_first() + b);
        assert forall|i: int| 0 <= i < a.drop_first().len() implies is_numeric_char(#[trigger] a.drop_first()[i]) by {
            assert(a.drop_first()[i] == a[i + 1]);
        }
        lemma_unit_start_numeric(a.drop_first(), b);
    }
}

proof fn lemma_digits_value_concat(a: Seq<char>, b: Seq<char>)
    ensures
        digits_value(a + b) == digits_value(a) * pow10(b.len()) + digits_value(b),
    decreases b.len(),
{
    if b.len() == 0 {
        assert(a + b =~= a);
        assert(digits_value(a) * 1 == digits_value(a));
    } else {
        lemma_digits_value_concat(a, b.drop_last());
        assert((a + b).drop_last() =~= a + b.drop_last());
        assert((a + b).last() == b.last());
        let x = digits_value(a);
        let p = pow10(b.drop_last().len());
        let y = digits_value(b.drop_last());
        assert(pow10(b.len()) == 10 * p);
        assert((x * p + y) * 10 == x * (10 * p) + y * 10) by (nonlinear_arith);
    }
}

spec fn zeros(m: nat) -> Seq<char> {
    Seq::new(m, |i: int| '0')
}

proof fn lemma_zeros_value(m: nat)
    ensures
        digits_value(zeros(m)) == 0,
        forall|i: int| 0 <= i < m ==> is_digit(#[trigger] zeros(m)[i]),
    decreases m,
{
    if m > 0 {
        lemma_zeros_value((m - 1) as nat);
        assert(zeros(m).drop_last() =~= zeros((m - 1) as nat));
    }
}

proof fn lemma_decimal_len(f: nat, w: nat)
    requires
        w >= 1,
        f < pow10(w),
    ensures
        decimal(f).len() <= w,
    decreases w,
{
    if f >= 10 {
        assert(w >= 2) by {
            if w == 1 {
                assert(pow10(1) == 10 * pow10(0));
            }
        }
        assert(pow10(w) == 10 * pow10((w - 1) as nat));
        assert(f / 10 < pow10((w - 1) as nat));
        lemma_decimal_len(f / 10, (w - 1) as nat);
    }
}

proof fn lemma_pow10_is_pow(w: nat)
    ensures
        pow10(w) == vstd::arithmetic::power::pow(10, w),
        pow10(w) > 0,
    decreases w,
{
    reveal(vstd::arithmetic::power::pow);
    if w > 0 {
        lemma_pow10_is_pow((w - 1) as nat);
    }
}

proof fn lemma_padded(f: nat, w: nat)
    requires
        w >= 1,
        f < pow10(w),
    ensures
        decimal_padded(f, w).len() == w,
        digits_value(decimal_padded(f, w)) == f,
        forall|i: int| 0 <= i < w ==> is_digit(#[trigger] decimal_padded(f, w)[i]),
{
    lemma_decimal_len(f, w);
    lemma_decimal_digits(f);
    let d = decimal(f);
    if d.len() < w {
        let z = zeros((w - d.len()) as nat);
        assert(decimal_padded(f, w) =~= z + d);
        lemma_zeros_value((w - d.len()) as nat);
        lemma_digits_value_concat(z, d);
        assert(0 * pow10(d.len()) == 0);
        assert forall|i: int| 0 <= i < w implies is_digit(#[trigger] decimal_padded(f, w)[i]) by {
            if i < z.len() {
                assert(decimal_padded(f, w)[i] == z[i]);
            } else {
                assert(decimal_padded(f, w)[i] == d[i - z.len()]);
            }
        }
    }
}

proof fn lemma_no_dots(a: Seq<char>, b: Seq<char>)
    requires
        forall|i: int| 0 <= i < a.len() ==> is_digit(#[trigger] a[i]),
    ensures
        dot_index(a + b) == a.len() + dot_index(b),
        dot_count(b + a) == dot_count(b),
    decreases a.len(),
{
    if a.len() > 0 {
        assert forall|i: int| 0 <= i < a.drop_first().len() implies is_digit(#[trigger] a.drop_first()[i]) by {
            assert(a.drop_first()[i] == a[i + 1]);
        }
        assert forall|i: int| 0 <= i < a.drop_last().len() implies is_digit(#[trigger] a.drop_last()[i]) by {
            assert(a.drop_last()[i] == a[i]);
        }
        assert((a + b)[0] == a[0]);
        assert((a + b).drop_first() =~= a.drop_first() + b);
        lemma_no_dots(a.drop_first(), b);
        assert((b + a).drop_last() =~= b + a.drop_last());
        assert((b + a).last() == a.last());
        assert(is_digit(a.last()));
        lemma_no_dots(a.drop_last(), b);
    } else {
        assert(a + b =~= b);
        assert(b + a =~= b);
    }
}

/// Decimal sizes: a number with `w` digits after the point followed by one
/// of the units B, KB, MB, GB, TB is that exact value times 1024 raised to
/// the unit's rank, rounded down and saturated at the largest `u64`; so
/// "2.5GB" is 2684354560 bytes and "0.5KB" is 512. `parse_human_size`
/// returns exactly this value.
pub proof fn law_decimal_sizes(n: nat, f: nat, w: nat, k: nat)
    requires
        k <= 4,
        w >= 1,
        f < vstd::arithmetic::power::pow(10, w),
    ensures
        ({
            let v = ((n * vstd::arithmetic::power::pow(10, w) + f) * vstd::arithmetic::power::pow(1024, k))
                / vstd::arithmetic::power::pow(10, w);
            human_size(decimal(n) + seq!['.'] + decimal_padded(f, w) + unit_of_rank(k)) == Some(
                if v <= u64::MAX {
                    v as u64
                } else {
                    u64::MAX
                },
            )
        }),
{
    lemma_pow10_is_pow(w);
    let a = decimal(n);
    let p = decimal_padded(f, w);
    let u = unit_of_rank(k);
    let num = a + seq!['.'] + p;
    let s = num + u;
    lemma_decimal_digits(n);
    lemma_padded(f, w);
    assert forall|i: int| 0 <= i < num.len() implies is_numeric_char(#[trigger] num[i]) by {
        if i < a.len() {
            assert(num[i] == a[i]);
        } else if i > a.len() {
            assert(num[i] == p[i - a.len() - 1]);
        }
    }
    assert(!is_numeric_char(u[0]));
    lemma_unit_start_numeric(num, u);
    assert(s[0] == a[0]);
    assert(trim_start(s) == s);
    assert(s.last() == 'B');
    assert(trim_end(s) == s);
    assert(s.subrange(0, num.len() as int) =~= num);
    assert(s.subrange(num.len() as int, s.len() as int) =~= u);
    assert(split_number_unit_spec(s) == (num, u));
    // One point, right after the whole part.
    assert(num =~= a + (seq!['.'] + p));
    lemma_no_dots(a, seq!['.'] + p);
    assert((seq!['.'] + p)[0] == '.');
    assert(dot_index(num) == a.len());
    lemma_no_dots(p, a + seq!['.']);
    assert(num =~= (a + seq!['.']) + p);
    assert((a + seq!['.']).drop_last() =~= a);
    lemma_no_dots(a, Seq::<char>::empty());
    assert(a =~= Seq::<char>::empty() + a);
    assert(dot_count(Seq::<char>::empty()) == 0);
    assert(dot_count(a + seq!['.']) == dot_count(a) + 1);
    assert(dot_count(num) == 1);
    assert(number_valid(num)) by {
        assert(is_digit(num[0]));
    }
    assert(int_digits(num) =~= a);
    assert(frac_digits(num) =~= p);
    let m = vstd::arithmetic::power::pow(1024, k);
    assert(unit_multiplier(u) == Some(m as nat)) by {
        reveal_with_fuel(vstd::arithmetic::power::pow, 5);
        if k == 0 {
            assert(u =~= seq!['B']);
        }
    }
    vstd::arithmetic::power::lemma_pow_positive(1024, k);
    let d = pow10(w);
    assert(scaled_value(num, m as nat) == n * m + (f * m) / (d as int));
    assert((n * d + f) * m == f * m + (n * m) * d) by (nonlinear_arith);
    vstd::arithmetic::div_mod::lemma_hoist_over_denominator(f * m, n * m, d);
}

/// Units are exactly B, KB, MB, GB and TB (case matters): a number
/// followed by any other unit is not a size, and neither is an empty or
/// blank text. `parse_human_size` gives an error for these.
pub proof fn law_unknown_units(n: nat, u: Seq<char>)
    requires
        u.len() > 0,
        !is_numeric_char(u[0]),
        !is_ws(u.last()),
        forall|k: nat| k <= 4 ==> u != #[trigger] unit_of_rank(k),
    ensures
        human_size(decimal(n) + u) is None,
        human_size(Seq::<char>::empty()) is None,
{
    let a = decimal(n);
    let s = a + u;
    lemma_decimal_digits(n);
    lemma_unit_start_after(a, u);
    assert(s[0] == a[0]);
    assert(!is_ws(s[0]));
    assert(trim_start(s) == s);
    assert(s.last() == u.last());
    assert(trim_end(s) == s);
    assert(s.subrange(0, a.len() as int) =~= a);
    assert(s.subrange(a.len() as int, s.len() as int) =~= u);
    assert(split_number_unit_spec(s) == (a, u));
    assert(u != unit_of_rank(0) && u != unit_of_rank(1) && u != unit_of_rank(2) && u != unit_of_rank(3) && u != unit_of_rank(4));
    assert(unit_multiplier(u) is None);
    assert(trim(Seq::<char>::empty()) =~= Seq::<char>::empty());
}

} // verus!
