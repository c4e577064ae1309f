//! Human-readable byte sizes.
//!
//! The demos print sizes with `{:.2}` on `f64` values such as
//! `bytes as f64 / 1024.0`. Here that text is computed with integers: the
//! conversion to `f64` keeps 53 significant bits (ties to even), division by
//! a power of two is exact, and `{:.2}` rounds the exact value to hundredths
//! (ties to even).

use vstd::prelude::*;
use crate::text::{decimal, digit, digit_char, push_char, push_decimal};

verus! {

/// Bytes in a kibibyte.
pub const KB: u64 = 1024;
/// Bytes in a mebibyte.
pub const MB: u64 = 1048576;
/// Bytes in a gibibyte.
pub const GB: u64 = 1073741824;

/// `2^k`.
pub open spec fn two_pow(k: nat) -> nat
    decreases k,
{
    if k == 0 { 1 } else { 2 * two_pow((k - 1) as nat) }
}

/// `n / d` rounded to the nearest integer, ties to the even one.
pub open spec fn round_half_even(n: nat, d: nat) -> nat
    recommends
        d > 0,
{
    let q = n / d;
    let r = n % d;
    if 2 * r > d || (2 * r == d && q % 2 == 1) { q + 1 } else { q }
}

/// How many low bits of `n` an `f64` cannot hold (it keeps 53 significant bits).
pub open spec fn excess_bits(n: nat) -> nat
    decreases n,
{
    if n < 9007199254740992 { 0 } else { 1 + excess_bits(n / 2) }
}

/// The value of `n as f64`: `n` rounded to 53 significant bits, ties to even.
pub open spec fn f64_nearest(n: nat) -> nat {
    let p = two_pow(excess_bits(n));
    round_half_even(n, p) * p
}

/// A count of hundredths written with two decimals: `h / 100` "." two digits.
pub open spec fn two_decimals(h: nat) -> Seq<char> {
    decimal(h / 100) + seq!['.', digit_char((h % 100) / 10), digit_char(h % 10)]
}

/// `{:.2} {unit}` of the `f64` value `bytes as f64 / unit_bytes as f64`,
/// where `unit_bytes` is a power of two.
pub open spec fn scaled_text(bytes: nat, unit_bytes: nat, unit: Seq<char>) -> Seq<char> {
    two_decimals(round_half_even(f64_nearest(bytes) * 100, unit_bytes)) + seq![' '] + unit
}

/// `{} bytes`.
pub open spec fn bytes_text(bytes: nat) -> Seq<char> {
    decimal(bytes) + " bytes"@
}

/// The size text of `format_size`: the largest unit among GB, MB and KB that
/// the size reaches, with two decimals, else the plain count of bytes.
pub open spec fn size_text(bytes: nat) -> Seq<char> {
    if bytes >= GB {
        scaled_text(bytes, GB as nat, "GB"@)
    } else if bytes >= MB {
        scaled_text(bytes, MB as nat, "MB"@)
    } else if bytes >= KB {
        scaled_text(bytes, KB as nat, "KB"@)
    } else {
        bytes_text(bytes)
    }
}

/// The unit that `format_size` writes a size in: 0 for bytes, 1 for KB, 2 for
/// MB and 3 for GB.
pub open spec fn size_rank(bytes: nat) -> nat {
    if bytes >= GB { 3 } else if bytes >= MB { 2 } else if bytes >= KB { 1 } else { 0 }
}

/// The bytes in the unit of a rank.
pub open spec fn rank_bytes(rank: nat) -> nat {
    if rank == 3 { GB as nat } else if rank == 2 { MB as nat } else if rank == 1 { KB as nat } else { 1 }
}

/// The name of the unit of a rank.
pub open spec fn rank_unit(rank: nat) -> Seq<char> {
    if rank == 3 { "GB"@ } else if rank == 2 { "MB"@ } else if rank == 1 { "KB"@ } else { "bytes"@ }
}

/// The number that `format_size` writes, in hundredths of its unit.
pub open spec fn size_figure(bytes: nat) -> nat {
    if size_rank(bytes) == 0 {
        bytes * 100
    } else {
        round_half_even(f64_nearest(bytes) * 100, rank_bytes(size_rank(bytes)))
    }
}

/// The size text of the file list in the metadata analysis: KB with two
/// decimals from 1024 bytes on, else the plain count of bytes.
pub open spec fn kb_or_bytes_text(bytes: nat) -> Seq<char> {
    if bytes >= KB {
        scaled_text(bytes, KB as nat, "KB"@)
    } else {
        bytes_text(bytes)
    }
}

fn round_half_even_exec(n: u128, d: u128) -> (r: u128)
    requires
        d > 0,
        n / d < u128::MAX,
    ensures
        r == round_half_even(n as nat, d as nat),
{
    let q = n / d;
    let r = n % d;
    if (r > d - r) || (r == d - r && q % 2 == 1) {
        q + 1
    } else {
        q
    }
}

/// `n as f64` as an integer value.
fn f64_nearest_exec(n: u64) -> (v: u128)
    ensures
        v == f64_nearest(n as nat),
        v <= 2 * (n as nat) + 1,
{
    let mut m: u128 = n as u128;
    let mut p: u128 = 1;
    let ghost mut s: nat = 0;
    while m >= 9007199254740992
        invariant
            1 <= p,
            p == 1 || p <= n,
            p == two_pow(s),
            m == (n as nat) / (p as nat),
            excess_bits(n as nat) == s + excess_bits(m as nat),
        decreases m,
    {
        proof {
            vstd::arithmetic::div_mod::lemma_div_denominator(n as int, p as int, 2);
            vstd::arithmetic::div_mod::lemma_fundamental_div_mod(n as int, (p * 2) as int);
            assert((p * 2) * (m / 2) <= n) by (nonlinear_arith)
                requires (p * 2) * ((n as int) / ((p * 2) as int)) <= n, m / 2 == (n as int) / ((p * 2) as int);
        }
        m = m / 2;
        p = p * 2;
        proof {
            s = s + 1;
            assert(m >= 4503599627370496);
            assert(p <= p * m) by (nonlinear_arith) requires m >= 1;
        }
    }
    proof {
        vstd::arithmetic::div_mod::lemma_fundamental_div_mod(n as int, p as int);
    }
    let q = (n as u128) / p;
    let r = round_half_even_exec(n as u128, p);
    proof {
        assert(r <= q + 1);
        assert(q * p <= n);
        assert(r * p <= q * p + p) by (nonlinear_arith) requires r <= q + 1, p >= 1;
    }
    r * p
}

/// Writes two decimals of a count of hundredths.
fn push_two_decimals(out: &mut String, h: u128)
    ensures
        final(out)@ == old(out)@ + two_decimals(h as nat),
{
    push_decimal(out, h / 100);
    push_char(out, '.');
    let c1 = digit((h % 100) / 10);
    let c2 = digit(h % 10);
    push_char(out, c1);
    push_char(out, c2);
    assert(final(out)@ =~= old(out)@ + two_decimals(h as nat));
}

/// `{:.2} {unit}` of `bytes as f64 / unit_bytes as f64`.
fn scaled(bytes: u64, unit_bytes: u64, unit: &str) -> (s: String)
    requires
        unit_bytes > 0,
    ensures
        s@ == scaled_text(bytes as nat, unit_bytes as nat, unit@),
{
    let v = f64_nearest_exec(bytes);
    let h = round_half_even_exec(v * 100, unit_bytes as u128);
    let mut s = String::new();
    push_two_decimals(&mut s, h);
    push_char(&mut s, ' ');
    s.append(unit);
    assert(s@ =~= scaled_text(bytes as nat, unit_bytes as nat, unit@));
    s
}

fn plain_bytes(bytes: u64) -> (s: String)
    ensures
        s@ == bytes_text(bytes as nat),
{
    let mut s = String::new();
    push_decimal(&mut s, bytes as u128);
    s.append(" bytes");
    assert(s@ =~= bytes_text(bytes as nat));
    s
}

/// A byte count for people: `{:.2} GB`, `{:.2} MB` or `{:.2} KB` of the
/// largest unit that the size reaches, else `{} bytes`.
pub fn format_size(bytes: u64) -> (s: String)
    ensures
        s@ == size_text(bytes as nat),
{
    if bytes >= GB {
        scaled(bytes, GB, "GB")
    } else if bytes >= MB {
        scaled(bytes, MB, "MB")
    } else if bytes >= KB {
        scaled(bytes, KB, "KB")
    } else {
        plain_bytes(bytes)
    }
}

/// A file size as the metadata analysis lists it: `{:.2} KB` from 1024
/// bytes on, else `{} bytes`.
pub fn format_kb_or_bytes(bytes: u64) -> (s: String)
    ensures
        s@ == kb_or_bytes_text(bytes as nat),
{
    if bytes >= KB {
        scaled(bytes, KB, "KB")
    } else {
        plain_bytes(bytes)
    }
}

/// `{:.2} KB` of `bytes as f64 / 1024.0`, whatever the size.
pub fn format_kb(bytes: u64) -> (s: String)
    ensures
        s@ == scaled_text(bytes as nat, KB as nat, "KB"@),
{
    scaled(bytes, KB, "KB")
}


/// How many times `x` must be doubled to reach `target` (0 for `x == 0`).
pub open spec fn doublings(x: nat, target: nat) -> nat
    decreases (if x >= target { 0int } else { target - x }),
{
    if x >= target || x == 0 { 0 } else { 1 + doublings(2 * x, target) }
}

/// `{:.2} KB` of `(total as f64 / count as f64) / 1024.0`.
///
/// The quotient of the two `f64` values is rounded to 53 significant bits
/// (ties to even): with `u` the number of doublings that lift `a` to
/// `2^52 * D`, where `D = 4096 * b`, its significand is `a * 2^u / D` rounded
/// and its value that significand times `4096 / 2^u`. A zero count gives
/// `NaN` (of a zero total) or `inf`.
pub open spec fn average_kb_text(total: nat, count: nat) -> Seq<char> {
    if count == 0 {
        if total == 0 { "NaN KB"@ } else { "inf KB"@ }
    } else if total == 0 {
        two_decimals(0) + " KB"@
    } else {
        let a = f64_nearest(total);
        let d = 4096 * f64_nearest(count);
        let u = doublings(a, 4503599627370496 * d);
        let m = round_half_even(a * two_pow(u), d);
        two_decimals(round_half_even(m * 409600, two_pow(u + 10))) + " KB"@
    }
}

proof fn lemma_two_pow_pos(k: nat)
    ensures
        two_pow(k) >= 1,
    decreases k,
{
    if k > 0 {
        lemma_two_pow_pos((k - 1) as nat);
    }
}

proof fn lemma_two_pow_monotone(j: nat, k: nat)
    requires
        j <= k,
    ensures
        two_pow(j) <= two_pow(k),
    decreases k,
{
    if j < k {
        lemma_two_pow_monotone(j, (k - 1) as nat);
    }
}

proof fn lemma_two_pow_adds(j: nat, k: nat)
    ensures
        two_pow(j + k) == two_pow(j) * two_pow(k),
    decreases k,
{
    if k > 0 {
        lemma_two_pow_adds(j, (k - 1) as nat);
        assert(two_pow(j + k) == 2 * two_pow((j + k - 1) as nat));
        assert(two_pow(j) * two_pow(k) == two_pow(j) * (2 * two_pow((k - 1) as nat)));
        assert(two_pow(j) * (2 * two_pow((k - 1) as nat)) == 2 * (two_pow(j) * two_pow((k - 1) as nat)))
            by (nonlinear_arith);
    } else {
        assert(two_pow(0) == 1);
        assert(two_pow(j) * 1 == two_pow(j));
    }
}

proof fn lemma_two_pow_64()
    ensures
        two_pow(8) == 256,
        two_pow(32) == 4294967296,
        two_pow(64) == 18446744073709551616,
{
    reveal_with_fuel(two_pow, 9);
    lemma_two_pow_adds(8, 8);
    assert(two_pow(16) == 65536);
    lemma_two_pow_adds(16, 16);
    assert(two_pow(32) == 4294967296);
    lemma_two_pow_adds(32, 32);
}

proof fn lemma_two_pow_72()
    ensures
        two_pow(72) == 4722366482869645213696,
{
    lemma_two_pow_64();
    lemma_two_pow_adds(64, 8);
}

proof fn lemma_two_pow_128()
    ensures
        two_pow(128) == 340282366920938463463374607431768211456,
{
    lemma_two_pow_64();
    lemma_two_pow_adds(64, 64);
}

/// One doubling step of the significand search keeps its invariant.
proof fn lemma_doubling_step(a: nat, d: nat, target: nat, u: nat, q0: nat, r0: nat, q: nat, r: nat)
    requires
        a >= 1,
        4096 <= d <= 302231454903657293676544,
        target == 4503599627370496 * d,
        q0 * d + r0 == a * two_pow(u),
        r0 < d,
        q0 < 4503599627370496,
        u <= 160,
        doublings(a, target) == u + doublings(a * two_pow(u), target),
        (q == 2 * q0 + 1 && r == 2 * r0 - d && 2 * r0 >= d) || (q == 2 * q0 && r == 2 * r0 && 2 * r0 < d),
    ensures
        q * d + r == a * two_pow(u + 1),
        r < d,
        q <= 9007199254740992,
        doublings(a, target) == (u + 1) + doublings(a * two_pow(u + 1), target),
        u + 1 <= 160,
{
    let x = a * two_pow(u);
    lemma_two_pow_pos(u);
    assert(x >= 1) by (nonlinear_arith) requires x == a * two_pow(u), a >= 1, two_pow(u) >= 1;
    assert(x < target) by (nonlinear_arith)
        requires q0 * d + r0 == x, r0 < d, q0 < 4503599627370496, target == 4503599627370496 * d;
    assert(two_pow(u + 1) == 2 * two_pow(u));
    assert(a * two_pow(u + 1) == 2 * x) by (nonlinear_arith)
        requires two_pow(u + 1) == 2 * two_pow(u), x == a * two_pow(u);
    assert(doublings(x, target) == 1 + doublings(2 * x, target));
    assert(q * d + r == 2 * x) by (nonlinear_arith)
        requires
            q0 * d + r0 == x,
            (q == 2 * q0 + 1 && r == 2 * r0 - d) || (q == 2 * q0 && r == 2 * r0);
    assert(two_pow(u) <= x) by (nonlinear_arith) requires x == a * two_pow(u), a >= 1;
    if u >= 160 {
        lemma_two_pow_monotone(160, u);
        lemma_two_pow_128();
        lemma_two_pow_64();
        lemma_two_pow_adds(128, 32);
        assert(false);
    }
}

/// The significand of `a / b` scaled as in `average_kb_text`, with its scale.
fn significand(a: u128, d: u128) -> (res: (u128, u32))
    requires
        1 <= a <= 36893488147419103233,
        4096 <= d <= 302231454903657293676544,
    ensures
        res.0 == round_half_even(a as nat * two_pow(res.1 as nat), d as nat),
        res.1 as nat == doublings(a as nat, 4503599627370496 * (d as nat)),
        res.0 <= 9007199254740993,
        res.1 <= 160,
{
    let ghost target: nat = 4503599627370496 * (d as nat);
    let mut q: u128 = a / d;
    let mut r: u128 = a % d;
    let mut u: u32 = 0;
    proof {
        vstd::arithmetic::div_mod::lemma_fundamental_div_mod(a as int, d as int);
        assert(q <= 9007199254740992) by (nonlinear_arith)
            requires q == a / d, a <= 36893488147419103233, d >= 4096;
        assert(two_pow(0) == 1);
        assert(a as nat * two_pow(0) == a);
    }
    while q < 4503599627370496
        invariant
            1 <= a,
            4096 <= d <= 302231454903657293676544,
            target == 4503599627370496 * (d as nat),
            q * d + r == a * two_pow(u as nat),
            r < d,
            q <= 9007199254740992,
            doublings(a as nat, target) == u + doublings(a as nat * two_pow(u as nat), target),
            u <= 160,
        decreases 160 - u,
    {
        let q0 = q;
        let r0 = r;
        let twice = 2 * r0;
        if twice >= d {
            q = 2 * q0 + 1;
            r = twice - d;
        } else {
            q = 2 * q0;
            r = twice;
        }
        proof {
            lemma_doubling_step(a as nat, d as nat, target, u as nat, q0 as nat, r0 as nat, q as nat, r as nat);
        }
        u = u + 1;
    }
    proof {
        lemma_two_pow_pos(u as nat);
        assert(a as nat * two_pow(u as nat) >= target) by (nonlinear_arith)
            requires q * d + r == a * two_pow(u as nat), q >= 4503599627370496, target == 4503599627370496 * d, r >= 0;
        assert(doublings(a as nat * two_pow(u as nat), target) == 0);
        vstd::arithmetic::div_mod::lemma_fundamental_div_mod_converse(
            (a as nat * two_pow(u as nat)) as int, d as int, q as int, r as int);
    }
    let m = if (r > d - r) || (r == d - r && q % 2 == 1) { q + 1 } else { q };
    (m, u)
}


fn two_pow_exec(k: u32) -> (p: u128)
    requires
        k < 127,
    ensures
        p == two_pow(k as nat),
{
    let mut p: u128 = 1;
    let mut i: u32 = 0;
    while i < k
        invariant
            i <= k < 127,
            p == two_pow(i as nat),
        decreases k - i,
    {
        proof {
            lemma_two_pow_monotone(i as nat, 126);
            lemma_two_pow_128();
            lemma_two_pow_adds(126, 2);
            reveal_with_fuel(two_pow, 3);
        }
        p = p * 2;
        i = i + 1;
    }
    p
}

/// The average file size in KB as the metadata analysis prints it:
/// `{:.2} KB` of `(total as f64 / count as f64) / 1024.0`.
pub fn format_average_kb(total: u64, count: usize) -> (s: String)
    ensures
        s@ == average_kb_text(total as nat, count as nat),
{
    if count == 0 {
        if total == 0 {
            String::from_str("NaN KB")
        } else {
            String::from_str("inf KB")
        }
    } else if total == 0 {
        let mut s = String::new();
        push_two_decimals(&mut s, 0);
        s.append(" KB");
        assert(s@ =~= average_kb_text(total as nat, count as nat));
        s
    } else {
        let a = f64_nearest_exec(total);
        let b = f64_nearest_exec(count as u64);
        proof {
            assert(f64_nearest(total as nat) >= 1) by {
                lemma_nearest_positive(total as nat);
            }
            assert(f64_nearest(count as nat) >= 1) by {
                lemma_nearest_positive(count as nat);
            }
        }
        let (m, u) = significand(a, 4096 * b);
        let h: u128;
        if u < 100 {
            let p = two_pow_exec(u + 10);
            proof { lemma_two_pow_pos((u + 10) as nat); }
            h = round_half_even_exec(m * 409600, p);
        } else {
            proof {
                lemma_two_pow_monotone(73, (u + 10) as nat);
                lemma_two_pow_72();
                assert(two_pow(73) == 2 * two_pow(72));
                assert(m * 409600 < 4722366482869645213696);
                lemma_round_small((m * 409600) as nat, two_pow((u + 10) as nat));
            }
            h = 0;
        }
        let mut s = String::new();
        push_two_decimals(&mut s, h);
        s.append(" KB");
        assert(s@ =~= average_kb_text(total as nat, count as nat));
        s
    }
}

proof fn lemma_round_small(n: nat, d: nat)
    requires
        2 * n < d,
    ensures
        round_half_even(n, d) == 0,
{
    vstd::arithmetic::div_mod::lemma_small_mod(n, d);
    vstd::arithmetic::div_mod::lemma_basic_div(n as int, d as int);
}

proof fn lemma_nearest_positive(n: nat)
    requires
        n >= 1,
    ensures
        f64_nearest(n) >= 1,
{
    lemma_excess_quotient(n);
    let p = two_pow(excess_bits(n));
    lemma_two_pow_pos(excess_bits(n));
    assert(round_half_even(n, p) >= n / p);
    assert(round_half_even(n, p) * p >= 1) by (nonlinear_arith)
        requires round_half_even(n, p) >= 1, p >= 1;
}

proof fn lemma_excess_quotient(n: nat)
    requires
        n >= 1,
    ensures
        n / two_pow(excess_bits(n)) >= 1,
    decreases n,
{
    if n >= 9007199254740992 {
        lemma_excess_quotient(n / 2);
        let e = excess_bits(n / 2);
        lemma_two_pow_pos(e);
        assert(two_pow(e + 1) == 2 * two_pow(e));
        vstd::arithmetic::div_mod::lemma_div_denominator(n as int, 2, two_pow(e) as int);
        assert(excess_bits(n) == 1 + excess_bits(n / 2));
        assert(excess_bits(n) == e + 1);
        assert(two_pow(excess_bits(n)) == 2 * two_pow(e));
        assert((n / 2) / two_pow(e) == n / (2 * two_pow(e)));
        assert(n / two_pow(excess_bits(n)) == (n / 2) / two_pow(e));
    } else {
        assert(excess_bits(n) == 0);
        assert(two_pow(0) == 1);
        assert(n / 1 == n);
    }
}

/// Rounding to the nearest multiple keeps the order of the numbers rounded.
pub(crate) proof fn lemma_round_monotone(n1: nat, n2: nat, d: nat)
    requires
        n1 <= n2,
        d > 0,
    ensures
        round_half_even(n1, d) <= round_half_even(n2, d),
{
    vstd::arithmetic::div_mod::lemma_div_is_ordered(n1 as int, n2 as int, d as int);
    vstd::arithmetic::div_mod::lemma_fundamental_div_mod(n1 as int, d as int);
    vstd::arithmetic::div_mod::lemma_fundamental_div_mod(n2 as int, d as int);
    if n1 / d == n2 / d {
        assert(n1 % d <= n2 % d);
    }
}

/// A larger number never keeps more of its bits in an `f64`.
proof fn lemma_excess_monotone(a: nat, b: nat)
    requires
        a <= b,
    ensures
        excess_bits(a) <= excess_bits(b),
    decreases b,
{
    if a >= 9007199254740992 {
        vstd::arithmetic::div_mod::lemma_div_is_ordered(a as int, b as int, 2);
        lemma_excess_monotone(a / 2, b / 2);
    }
}

/// What an `f64` keeps of `n` is below `2^53` and, once bits are dropped, at
/// least `2^52`.
proof fn lemma_excess_window(n: nat)
    ensures
        n / two_pow(excess_bits(n)) < 9007199254740992,
        excess_bits(n) > 0 ==> n / two_pow(excess_bits(n)) >= 4503599627370496,
    decreases n,
{
    if n >= 9007199254740992 {
        lemma_excess_window(n / 2);
        let e = excess_bits(n / 2);
        lemma_two_pow_pos(e);
        assert(excess_bits(n) == e + 1);
        assert(two_pow(e + 1) == 2 * two_pow(e));
        vstd::arithmetic::div_mod::lemma_div_denominator(n as int, 2, two_pow(e) as int);
        assert(n / two_pow(excess_bits(n)) == (n / 2) / two_pow(e));
        if e == 0 {
            assert(two_pow(0) == 1);
            assert((n / 2) / 1 == n / 2);
        }
    } else {
        assert(excess_bits(n) == 0);
        assert(two_pow(0) == 1);
        assert(n / 1 == n);
    }
}

/// Converting to `f64` keeps the order of the numbers converted.
pub(crate) proof fn lemma_nearest_monotone(a: nat, b: nat)
    requires
        a <= b,
    ensures
        f64_nearest(a) <= f64_nearest(b),
{
    let ea = excess_bits(a);
    let eb = excess_bits(b);
    lemma_excess_monotone(a, b);
    let pa = two_pow(ea);
    let pb = two_pow(eb);
    lemma_two_pow_pos(ea);
    lemma_two_pow_pos(eb);
    let ra = round_half_even(a, pa);
    let rb = round_half_even(b, pb);
    if ea == eb {
        lemma_round_monotone(a, b, pa);
        assert(ra * pa <= rb * pa) by (nonlinear_arith) requires ra <= rb;
    } else {
        lemma_excess_window(a);
        lemma_excess_window(b);
        assert(ra <= 9007199254740992);
        assert(rb >= 4503599627370496);
        lemma_two_pow_monotone(ea + 1, eb);
        assert(two_pow(ea + 1) == 2 * pa);
        assert(ra * pa <= 9007199254740992 * pa) by (nonlinear_arith) requires ra <= 9007199254740992;
        assert(rb * pb >= 4503599627370496 * pb) by (nonlinear_arith) requires rb >= 4503599627370496;
    }
}

} // verus!
