//! Human-readable rendering of sizes, deltas and counts.
//!
//! Sizes are shown in binary units (1 KB = 1024 B) with two decimals.  The
//! value shown is the one the display has always produced: the byte count is
//! first taken to the nearest double-precision value (53 significant bits,
//! ties to even), divided by 1024 per unit, and rounded to hundredths with
//! ties to even.  All of it is computed here on integers.
use crate::text::{decimal, decimal_padded, is_ws, is_whitespace, push_char, push_decimal, push_decimal_padded, push_str, string_from, trim};
use vstd::string::StrSliceExecFns;
use vstd::prelude::*;

verus! {

/// 2^53: below this every byte count is held exactly by a double.
pub const EXACT_LIMIT: u64 = 0x20_0000_0000_0000;

/// The power of two by which the nearest double to `b` is a multiple: 1
/// below 2^53, doubling with each further bit of `b`.
pub open spec fn f64_step(b: nat) -> nat
    decreases b,
{
    if b < EXACT_LIMIT {
        1
    } else {
        2 * f64_step(b / 2)
    }
}

/// `b` rounded to the nearest multiple of `d`, ties to the even multiple.
pub open spec fn round_to_multiple(b: nat, d: nat) -> nat {
    round_quotient(b, d) * d
}

/// `b / d` rounded to the nearest integer, ties to even.
pub open spec fn round_quotient(b: nat, d: nat) -> nat {
    let q = b / d;
    let r = b % d;
    if 2 * r > d || (2 * r == d && q % 2 == 1) {
        q + 1
    } else {
        q
    }
}

/// The double nearest to `b`, as an exact integer.
pub open spec fn f64_value(b: nat) -> nat {
    round_to_multiple(b, f64_step(b))
}

/// Binary unit of a value: the largest `k <= 4` with `v >= 1024^k`.
pub open spec fn unit_index(v: nat) -> nat {
    if v >= 0x100_0000_0000 {
        4
    } else if v >= 0x4000_0000 {
        3
    } else if v >= 0x10_0000 {
        2
    } else if v >= 0x400 {
        1
    } else {
        0
    }
}

/// 1024^k for a unit index.
pub open spec fn unit_scale(k: nat) -> nat {
    if k == 0 {
        1
    } else if k == 1 {
        0x400
    } else if k == 2 {
        0x10_0000
    } else if k == 3 {
        0x4000_0000
    } else {
        0x100_0000_0000
    }
}

/// Name of a unit index.
pub open spec fn unit_name(k: nat) -> Seq<char> {
    if k == 0 {
        "B"@
    } else if k == 1 {
        "KB"@
    } else if k == 2 {
        "MB"@
    } else if k == 3 {
        "GB"@
    } else {
        "TB"@
    }
}

/// Hundredths of the unit shown for `b` bytes.
pub open spec fn size_hundredths(b: nat) -> nat {
    let v = f64_value(b);
    round_quotient(100 * v, unit_scale(unit_index(v)))
}

/// The text shown for `b` bytes: the plain count with " B" below 1 KB, else
/// two decimals and the unit.
pub open spec fn size_text(b: nat) -> Seq<char> {
    let k = unit_index(f64_value(b));
    if k == 0 {
        decimal(b) + " B"@
    } else {
        let n = size_hundredths(b);
        decimal(n / 100) + "."@ + decimal_padded(n % 100, 2) + " "@ + unit_name(k)
    }
}

/// The nearest double to `b`, as an integer, and its unit index.
fn nearest_double(b: u64) -> (r: (u128, usize))
    ensures
        r.0 == f64_value(b as nat),
        r.1 == unit_index(f64_value(b as nat)),
        r.0 <= 0x2_0000_0000_0000_0000,
{
    let mut d: u128 = 1;
    let mut cur: u128 = b as u128;
    while cur >= EXACT_LIMIT as u128
        invariant
            1 <= d <= 0x1_0000_0000_0000_0000,
            cur == b as nat / d as nat,
            f64_step(b as nat) == d * f64_step(cur as nat),
            b < 0x1_0000_0000_0000_0000,
        decreases cur,
    {
        let ghost old_d = d;
        let ghost old_cur = cur;
        proof {
            vstd::arithmetic::div_mod::lemma_div_denominator(b as int, d as int, 2);
            assert(f64_step(cur as nat) == 2 * f64_step(cur as nat / 2));
            assert(d * (2 * f64_step(cur as nat / 2)) == (2 * d) * f64_step(cur as nat / 2)) by (nonlinear_arith);
            assert(cur as nat / 2 >= 1);
            assert(2 * d <= b) by (nonlinear_arith)
                requires
                    cur == b as nat / d as nat,
                    cur >= 2,
                    d >= 1,
            {
                vstd::arithmetic::div_mod::lemma_fundamental_div_mod(b as int, d as int);
                assert(b as int >= d * cur);
            }
        }
        cur = cur / 2;
        d = d * 2;
    }
    proof {
        assert(f64_step(cur as nat) == 1);
    }
    let q = (b as u128) / d;
    let r = (b as u128) % d;
    let up = 2 * r > d || (2 * r == d && q % 2 == 1);
    let q2 = if up { q + 1 } else { q };
    proof {
        vstd::arithmetic::div_mod::lemma_fundamental_div_mod(b as int, d as int);
        assert(q2 * d <= b + d) by (nonlinear_arith)
            requires
                q2 <= q + 1,
                b as int == d * q + r,
                r >= 0,
        {
        }
    }
    let v: u128 = q2 * d;
    proof {
        assert(f64_step(b as nat) == d) by (nonlinear_arith)
            requires
                f64_step(cur as nat) == 1,
                f64_step(b as nat) == d * f64_step(cur as nat),
        {
        }
        assert(round_quotient(b as nat, d as nat) == q2);
        assert(v == f64_value(b as nat));
    }
    let k: usize = if v >= 0x100_0000_0000 {
        4
    } else if v >= 0x4000_0000 {
        3
    } else if v >= 0x10_0000 {
        2
    } else if v >= 0x400 {
        1
    } else {
        0
    };
    (v, k)
}

fn unit_scale_exec(k: usize) -> (s: u128)
    requires
        k <= 4,
    ensures
        s == unit_scale(k as nat),
{
    if k == 0 {
        1
    } else if k == 1 {
        0x400
    } else if k == 2 {
        0x10_0000
    } else if k == 3 {
        0x4000_0000
    } else {
        0x100_0000_0000
    }
}

fn unit_name_exec(k: usize) -> (s: &'static str)
    ensures
        s@ == unit_name(k as nat),
{
    if k == 0 {
        "B"
    } else if k == 1 {
        "KB"
    } else if k == 2 {
        "MB"
    } else if k == 3 {
        "GB"
    } else {
        "TB"
    }
}

/// Formats a byte count, e.g. "500 B", "1.00 KB", "1.50 GB".
pub fn format_size(bytes: u64) -> (s: String)
    ensures
        s@ == size_text(bytes as nat),
{
    let (v, k) = nearest_double(bytes);
    if k == 0 {
        let mut s = String::new();
        push_decimal(&mut s, bytes);
        push_str(&mut s, " B");
        proof {
            reveal_strlit(" B");
            assert(s@ =~= size_text(bytes as nat));
        }
        return s;
    }
    let scale = unit_scale_exec(k);
    let num: u128 = 100 * v;
    let q = num / scale;
    let r = num % scale;
    let up = 2 * r > scale || (2 * r == scale && q % 2 == 1);
    let n: u128 = if up { q + 1 } else { q };
    proof {
        assert(n == size_hundredths(bytes as nat));
        assert(q <= num) by (nonlinear_arith)
            requires
                q == num / scale,
                scale >= 1,
        {
        }
    }
    proof {
        assert(n / 100 < 0x1_0000_0000_0000_0000) by (nonlinear_arith)
            requires
                q == num / scale,
                scale >= 0x400,
                num <= 100 * 0x2_0000_0000_0000_0000,
                n <= q + 1,
        {
            vstd::arithmetic::div_mod::lemma_fundamental_div_mod(num as int, scale as int);
        }
    }
    let whole = (n / 100) as u64;
    let frac = (n % 100) as u64;
    let mut s = String::new();
    push_decimal(&mut s, whole);
    push_str(&mut s, ".");
    push_decimal_padded(&mut s, frac, 2);
    push_str(&mut s, " ");
    push_str(&mut s, unit_name_exec(k));
    proof {
        reveal_strlit(".");
        reveal_strlit(" ");
        assert(s@ =~= size_text(bytes as nat));
    }
    s
}

/// Magnitude of a signed byte delta.
pub open spec fn abs_value(d: i64) -> nat {
    if d < 0 {
        (-(d as int)) as nat
    } else {
        d as nat
    }
}

/// Text of a signed delta: "+" or "-" and the size of its magnitude.
pub open spec fn delta_text(d: i64) -> Seq<char> {
    (if d >= 0 {
        "+"@
    } else {
        "-"@
    }) + size_text(abs_value(d))
}

fn magnitude(d: i64) -> (m: u64)
    ensures
        m as nat == abs_value(d),
{
    if d >= 0 {
        d as u64
    } else if d == i64::MIN {
        0x8000_0000_0000_0000u64
    } else {
        (-d) as u64
    }
}

/// Formats a signed size delta, e.g. "+100 B", "-1.00 KB", "+0 B".
pub fn format_delta(delta: i64) -> (s: String)
    ensures
        s@ == delta_text(delta),
{
    let mut s = if delta >= 0 {
        string_from("+")
    } else {
        string_from("-")
    };
    let body = format_size(magnitude(delta));
    push_str(&mut s, body.as_str());
    proof {
        reveal_strlit("+");
        reveal_strlit("-");
        assert(s@ =~= delta_text(delta));
    }
    s
}

/// Formats a signed size with its sign, e.g. "+1.00 KB" or "-100 B".
pub fn format_signed_size(bytes: i64) -> (s: String)
    ensures
        s@ == delta_text(bytes),
{
    format_delta(bytes)
}

/// `s` right-aligned in a field of `width` characters.
pub open spec fn pad_left(s: Seq<char>, width: nat) -> Seq<char> {
    if s.len() >= width {
        s
    } else {
        Seq::new((width - s.len()) as nat, |i: int| ' ') + s
    }
}

/// Width of the size column in the tree.
pub const SIZE_COLUMN_WIDTH: usize = 11;

/// Size label of a tree row: the size, or "?" for a directory that was
/// not scanned, right-aligned to the size column.
pub open spec fn size_label(is_dir: bool, has_scan_data: bool, size: u64) -> Seq<char> {
    pad_left(
        if is_dir && !has_scan_data {
            "?"@
        } else {
            size_text(size as nat)
        },
        SIZE_COLUMN_WIDTH as nat,
    )
}

/// Appends `t` right-aligned in `width` characters to an empty string.
fn padded(t: &str, width: usize) -> (s: String)
    ensures
        s@ == pad_left(t@, width as nat),
{
    let mut s = String::new();
    let n = t.unicode_len();
    let npad: usize = if n < width { width - n } else { 0 };
    let mut k: usize = 0;
    while k < npad
        invariant
            k <= npad,
            s@ == Seq::new(k as nat, |i: int| ' '),
        decreases npad - k,
    {
        push_char(&mut s, ' ');
        proof {
            assert(Seq::new((k + 1) as nat, |i: int| ' ') =~= Seq::new(k as nat, |i: int| ' ').push(' '));
        }
        k = k + 1;
    }
    push_str(&mut s, t);
    proof {
        if n >= width {
            assert(s@ =~= t@);
        } else {
            assert(s@ =~= pad_left(t@, width as nat));
        }
    }
    s
}

/// The size label a tree row shows: files always show their size; a
/// directory without scan data shows "?"; always 11 characters wide.
pub fn display_size_label(is_dir: bool, has_scan_data: bool, current_size: u64) -> (s: String)
    ensures
        s@ == size_label(is_dir, has_scan_data, current_size),
{
    if is_dir && !has_scan_data {
        proof {
            reveal_strlit("?");
        }
        padded("?", SIZE_COLUMN_WIDTH)
    } else {
        let t = format_size(current_size);
        padded(t.as_str(), SIZE_COLUMN_WIDTH)
    }
}

/// Decimal digits of `n` in groups of three separated by commas.
pub open spec fn count_text(n: nat) -> Seq<char>
    decreases n,
{
    if n < 1000 {
        decimal(n)
    } else {
        count_text(n / 1000) + ","@ + decimal_padded(n % 1000, 3)
    }
}

fn push_count(s: &mut String, n: u64)
    ensures
        final(s)@ == old(s)@ + count_text(n as nat),
    decreases n,
{
    if n < 1000 {
        push_decimal(s, n);
    } else {
        push_count(s, n / 1000);
        push_str(s, ",");
        push_decimal_padded(s, n % 1000, 3);
        proof {
            reveal_strlit(",");
            assert(final(s)@ =~= old(s)@ + count_text(n as nat));
        }
    }
}

/// Formats a count with thousands separators, e.g. "123,456".
pub fn format_count(count: u64) -> (s: String)
    ensures
        s@ == count_text(count as nat),
{
    let mut s = String::new();
    push_count(&mut s, count);
    proof {
        assert(s@ =~= count_text(count as nat));
    }
    s
}

/// Symbol shown for a key name in hints; other names show as they are.
pub open spec fn key_symbol_spec(key: Seq<char>) -> Seq<char> {
    if key == "Tab"@ {
        "⇥"@
    } else if key == "S-Tab"@ {
        "⇧⇥"@
    } else if key == "Esc"@ {
        "⎋"@
    } else if key == "Enter"@ {
        "⏎"@
    } else {
        key
    }
}

/// Maps common key names to their symbols.
pub fn key_symbol(key: &'static str) -> (s: &'static str)
    ensures
        s@ == key_symbol_spec(key@),
{
    if crate::model::str_eq(key, "Tab") {
        "⇥"
    } else if crate::model::str_eq(key, "S-Tab") {
        "⇧⇥"
    } else if crate::model::str_eq(key, "Esc") {
        "⎋"
    } else if crate::model::str_eq(key, "Enter") {
        "⏎"
    } else {
        key
    }
}

/// Index of the last whitespace character of `s`, or -1.
pub open spec fn last_ws(s: Seq<char>) -> int
    decreases s.len(),
{
    if s.len() == 0 {
        -1
    } else if is_ws(s.last()) {
        s.len() - 1
    } else {
        last_ws(s.drop_last())
    }
}

/// The unit word of a formatted size: its last whitespace-separated word,
/// "B" when it has none.
pub open spec fn unit_of(s: Seq<char>) -> Seq<char> {
    let t = trim(s);
    if t.len() == 0 {
        "B"@
    } else {
        t.subrange(last_ws(t) + 1, t.len() as int)
    }
}

proof fn lemma_last_ws_range(s: Seq<char>)
    ensures
        -1 <= last_ws(s) < s.len(),
        last_ws(s) >= 0 ==> is_ws(s[last_ws(s)]),
        forall|j: int| last_ws(s) < j < s.len() ==> !is_ws(#[trigger] s[j]),
    decreases s.len(),
{
    if s.len() > 0 && !is_ws(s.last()) {
        lemma_last_ws_range(s.drop_last());
        assert forall|j: int| last_ws(s) < j < s.len() implies !is_ws(#[trigger] s[j]) by {
            if j < s.len() - 1 {
                assert(s[j] == s.drop_last()[j]);
            }
        }
    }
}

/// Extracts the unit word of a formatted size ("1.23 MB" gives "MB").
pub fn extract_unit(s: &str) -> (u: String)
    ensures
        u@ == unit_of(s@),
{
    let cs = crate::text::chars_of(s);
    let t = crate::text::trim_chars(cs.as_slice());
    if t.len() == 0 {
        proof {
            reveal_strlit("B");
        }
        return string_from("B");
    }
    let mut k: usize = t.len();
    while k > 0 && !is_whitespace(t[k - 1])
        invariant
            k <= t@.len(),
            forall|j: int| k <= j < t@.len() ==> !is_ws(#[trigger] t@[j]),
        decreases k,
    {
        k = k - 1;
    }
    proof {
        lemma_last_ws_range(t@);
        lemma_last_ws_is(t@, k as int);
    }
    crate::text::string_of(vstd::slice::slice_subrange(t.as_slice(), k, t.len()))
}

proof fn lemma_last_ws_is(s: Seq<char>, k: int)
    requires
        0 <= k <= s.len(),
        k > 0 ==> is_ws(s[k - 1]),
        forall|j: int| k <= j < s.len() ==> !is_ws(#[trigger] s[j]),
    ensures
        last_ws(s) == k - 1,
    decreases s.len(),
{
    if s.len() > k {
        assert(!is_ws(s.last()));
        assert forall|j: int| k <= j < s.drop_last().len() implies !is_ws(#[trigger] s.drop_last()[j]) by {
            assert(s.drop_last()[j] == s[j]);
        }
        if k > 0 {
            assert(s.drop_last()[k - 1] == s[k - 1]);
        }
        lemma_last_ws_is(s.drop_last(), k);
    }
}

} // verus!
