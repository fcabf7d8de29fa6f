//! Human-readable byte counts (`512 B`, `2.0 KB`, `1.5 MB`).
//!
//! The sizes are rendered as the nearest `f64` quotient printed with one
//! decimal (ties to even), computed here in exact integer arithmetic.

use vstd::prelude::*;

use crate::text;

verus! {

broadcast use vstd::string::group_string_axioms;

pub open spec fn two53() -> nat {
    0x20_0000_0000_0000
}

/// Number of low bits an integer below 2^64 loses when stored in an `f64`
/// (53 significant bits).
pub open spec fn lost_bits(n: nat) -> nat
    decreases 64 - n,
{
    lost_bits_from(n, 0)
}

pub open spec fn lost_bits_from(n: nat, k: nat) -> nat
    decreases 12 - k,
{
    if k >= 11 || n < two53() * pow2(k) {
        k
    } else {
        lost_bits_from(n, k + 1)
    }
}

pub open spec fn pow2(k: nat) -> nat
    decreases k,
{
    if k == 0 {
        1
    } else {
        2 * pow2((k - 1) as nat)
    }
}

/// `n as f64`, as an integer: `n` rounded to 53 significant bits, ties to even.
pub open spec fn as_f64(n: nat) -> nat {
    let k = lost_bits(n);
    if k == 0 {
        n
    } else {
        let unit = pow2(k);
        let q = n / unit;
        let r = n % unit;
        let half = unit / 2;
        if r > half || (r == half && q % 2 == 1) {
            (q + 1) * unit
        } else {
            q * unit
        }
    }
}

/// `v / d` in tenths, rounded to nearest, ties to even.
pub open spec fn tenths(v: nat, d: nat) -> nat
    recommends
        d > 0,
{
    let q = (v * 10) / d;
    let r = (v * 10) % d;
    if 2 * r > d || (2 * r == d && q % 2 == 1) {
        q + 1
    } else {
        q
    }
}

/// `t` tenths printed as `<units>.<tenths>`.
pub open spec fn one_decimal(t: nat) -> Seq<char> {
    text::decimal(t / 10) + seq!['.', text::digit_char(t % 10)]
}

pub open spec fn kib() -> nat {
    1024
}

pub open spec fn mib() -> nat {
    1024 * 1024
}

pub open spec fn gib() -> nat {
    1024 * 1024 * 1024
}

/// `format_file_size`: bytes below 1 KiB exactly, then KB, MB or GB with
/// one decimal.
pub open spec fn file_size_text(b: nat) -> Seq<char> {
    if b < kib() {
        text::decimal(b) + seq![' ', 'B']
    } else if b < mib() {
        one_decimal(tenths(b, kib())) + seq![' ', 'K', 'B']
    } else if b < gib() {
        one_decimal(tenths(b, mib())) + seq![' ', 'M', 'B']
    } else {
        one_decimal(tenths(as_f64(b), gib())) + seq![' ', 'G', 'B']
    }
}

proof fn lemma_pow2_mono(k: nat, j: nat)
    requires
        k <= j,
    ensures
        1 <= pow2(k) <= pow2(j),
    decreases j,
{
    if j > k {
        lemma_pow2_mono(k, (j - 1) as nat);
    } else if k > 0 {
        lemma_pow2_mono((k - 1) as nat, (k - 1) as nat);
    }
}

proof fn lemma_pow2_bound(k: nat)
    requires
        k < 11,
    ensures
        pow2(k) <= 1024,
        pow2(k) >= 1,
{
    reveal_with_fuel(pow2, 11);
    assert(pow2(10) == 1024);
    lemma_pow2_mono(k, 10);
}

proof fn lemma_lost_bits_bound(n: nat, k: nat)
    requires
        k <= 11,
    ensures
        k <= lost_bits_from(n, k) <= 11,
        lost_bits_from(n, k) < 11 ==> n < two53() * pow2(lost_bits_from(n, k)),
    decreases 12 - k,
{
    if !(k >= 11 || n < two53() * pow2(k)) {
        lemma_lost_bits_bound(n, k + 1);
    }
}

/// Appends `t` tenths as `<units>.<tenths>`.
fn push_one_decimal(s: &mut String, t: u128)
    requires
        t < 0x1_0000_0000_0000_0000,
    ensures
        final(s)@ == old(s)@ + one_decimal(t as nat),
{
    let units = (t / 10) as u64;
    assert(units as nat == (t as nat) / 10);
    text::push_decimal(s, units);
    text::push_char(s, '.');
    let d = (t % 10) as u32;
    let c: char = match d {
        0 => '0',
        1 => '1',
        2 => '2',
        3 => '3',
        4 => '4',
        5 => '5',
        6 => '6',
        7 => '7',
        8 => '8',
        _ => '9',
    };
    assert(d as nat == (t as nat) % 10);
    assert(c == text::digit_char((t as nat) % 10));
    text::push_char(s, c);
    assert(s@ =~= old(s)@ + one_decimal(t as nat));
}

/// `v / d` in tenths, rounded half to even.
fn tenths_of(v: u128, d: u128) -> (t: u128)
    requires
        0 < d <= 0x1_0000_0000_0000,
        v < 0x2_0000_0000_0000_0000,
    ensures
        t == tenths(v as nat, d as nat),
        t <= (v as nat) * 10 / (d as nat) + 1,
{
    let n = v * 10;
    let q = n / d;
    let r = n % d;
    if 2 * r > d || (2 * r == d && q % 2 == 1) {
        q + 1
    } else {
        q
    }
}

/// `n as f64` for a byte count, as an integer.
fn f64_value(n: u64) -> (v: u128)
    ensures
        v == as_f64(n as nat),
        v <= 0x1_0000_0000_0000_0800,
{
    let mut k: u32 = 0;
    let mut unit: u128 = 1;
    proof {
        lemma_lost_bits_bound(n as nat, 0);
    }
    while k < 11 && (n as u128) >= 0x20_0000_0000_0000u128 * unit
        invariant
            k <= 11,
            unit == pow2(k as nat),
            1 <= unit <= 2048,
            lost_bits(n as nat) == lost_bits_from(n as nat, k as nat),
        decreases 11 - k,
    {
        proof {
            lemma_pow2_bound(k as nat);
        }
        k = k + 1;
        unit = unit * 2;
        assert(pow2(k as nat) == 2 * pow2((k - 1) as nat));
    }
    proof {
        lemma_lost_bits_bound(n as nat, k as nat);
    }
    if k == 0 {
        return n as u128;
    }
    let q = (n as u128) / unit;
    let r = (n as u128) % unit;
    let half = unit / 2;
    assert(q * unit <= n as u128 && q <= n as u128) by (nonlinear_arith)
        requires
            q == (n as u128) / unit,
            unit >= 1,
    {
    }
    let v = if r > half || (r == half && q % 2 == 1) {
        q * unit + unit
    } else {
        q * unit
    };
    assert((q + 1) * unit == q * unit + unit) by (nonlinear_arith);
    v
}

/// `1.5 MB`-style size of a file.
pub fn format_file_size(bytes: u64) -> (s: String)
    ensures
        s@ == file_size_text(bytes as nat),
{
    let mut s = String::new();
    if bytes < 1024 {
        text::push_decimal(&mut s, bytes);
        text::push_char(&mut s, ' ');
        text::push_char(&mut s, 'B');
        assert(s@ =~= file_size_text(bytes as nat));
    } else if bytes < 1024 * 1024 {
        push_one_decimal(&mut s, tenths_of(bytes as u128, 1024));
        text::push_str(&mut s, " KB");
        proof {
            reveal_strlit(" KB");
        }
        assert(s@ =~= file_size_text(bytes as nat));
    } else if bytes < 1024 * 1024 * 1024 {
        push_one_decimal(&mut s, tenths_of(bytes as u128, 1024 * 1024));
        text::push_str(&mut s, " MB");
        proof {
            reveal_strlit(" MB");
        }
        assert(s@ =~= file_size_text(bytes as nat));
    } else {
        let v = f64_value(bytes);
        push_one_decimal(&mut s, tenths_of(v, 1024 * 1024 * 1024));
        text::push_str(&mut s, " GB");
        proof {
            reveal_strlit(" GB");
        }
        assert(s@ =~= file_size_text(bytes as nat));
    }
    s
}


/// The size of an attachment being composed: whole kilobytes rounded up
/// below 1 MiB, else megabytes with one decimal.
pub open spec fn bytes_text(b: nat) -> Seq<char> {
    if b < mib() {
        text::decimal((b + 1023) / 1024) + seq![' ', 'K', 'B']
    } else {
        one_decimal(tenths(as_f64(b), mib())) + seq![' ', 'M', 'B']
    }
}

/// `12 KB` or `1.5 MB`: the size of an attachment being composed.
pub fn format_bytes(bytes: u64) -> (s: String)
    ensures
        s@ == bytes_text(bytes as nat),
{
    let mut s = String::new();
    if bytes < 1024 * 1024 {
        text::push_decimal(&mut s, (bytes + 1023) / 1024);
        text::push_str(&mut s, " KB");
        proof {
            reveal_strlit(" KB");
        }
        assert(s@ =~= bytes_text(bytes as nat));
    } else {
        let v = f64_value(bytes);
        push_one_decimal(&mut s, tenths_of(v, 1024 * 1024));
        text::push_str(&mut s, " MB");
        proof {
            reveal_strlit(" MB");
        }
        assert(s@ =~= bytes_text(bytes as nat));
    }
    s
}

} // verus!
