use vstd::prelude::*;
use crate::text::{owned, push_char, push_decimal, spec_decimal, spec_digit};

verus! {

/// The number of times 1000 divides into `a` before it drops below 1000.
pub open spec fn spec_exponent(a: nat) -> nat
    decreases a,
{
    if a < 1000 { 0 } else { 1 + spec_exponent(a / 1000) }
}

/// 1000 to the power `e`.
pub open spec fn spec_pow1000(e: nat) -> nat
    decreases e,
{
    if e == 0 { 1 } else { 1000 * spec_pow1000((e - 1) as nat) }
}

/// The unit of 1000 to the power `e`.
pub open spec fn spec_unit(e: nat) -> Seq<char> {
    if e == 0 { "B"@ } else if e == 1 { "kB"@ } else if e == 2 { "MB"@ } else if e == 3 { "GB"@ }
    else if e == 4 { "TB"@ } else if e == 5 { "PB"@ } else if e == 6 { "EB"@ } else if e == 7 { "ZB"@ } else { "YB"@ }
}

/// Hundredths of `h / 100` written the shortest way: no fraction when it is
/// whole, one digit when the second is 0, otherwise two.
pub open spec fn spec_hundredths_text(h: nat) -> Seq<char> {
    let frac = h % 100;
    spec_decimal(h / 100) + if frac == 0 {
        seq![]
    } else if frac % 10 == 0 {
        seq!['.', spec_digit(frac / 10)]
    } else {
        seq!['.', spec_digit(frac / 10), spec_digit(frac % 10)]
    }
}

/// The human readable form of a byte count: below 1000 bytes the count with
/// two decimals and `B`; otherwise the count in the largest unit of powers of
/// 1000 that fits, rounded to two decimals, trailing zeros dropped. The sign
/// is `-` unless the count is positive (so 0 is `-0.00 B`).
///
/// The rounding is done on the exact decimal quotient, and a quotient that
/// lies exactly halfway between two hundredths is rounded up: 1005 bytes are
/// `1.01 kB`. This tie rule is a choice of this library. Rounding a binary
/// floating-point quotient to two decimals, as formatting an `f64` with
/// `{:.2}` does, can come out differently on such ties: 1.005 is held as a
/// value slightly below it, so 1005 bytes would read `1 kB` there.
pub open spec fn spec_human_readable_bytesize(num: int) -> Seq<char> {
    let sign = if num > 0 { Seq::<char>::empty() } else { seq!['-'] };
    let a = if num < 0 { -num } else { num };
    if a < 1000 {
        sign + spec_decimal(a as nat) + ".00 B"@
    } else {
        let e = spec_exponent(a as nat);
        let p = spec_pow1000(e);
        let h = (a * 200 + p as int) / (2 * p as int);
        sign + spec_hundredths_text(h as nat) + " "@ + spec_unit(e)
    }
}

proof fn lemma_pow_positive(e: nat)
    ensures
        spec_pow1000(e) >= 1,
    decreases e,
{
    if e > 0 { lemma_pow_positive((e - 1) as nat); }
}

/// Convert a raw bytesize into a human readable string, e.g. 4_248_578 returns 4.25 MB
pub fn human_readable_bytesize(num: i64) -> (r: String)
    requires
        num != i64::MIN,
    ensures
        r@ == spec_human_readable_bytesize(num as int),
{
    let mut r = if num > 0 { String::new() } else { owned("-") };
    proof { reveal_strlit("-"); }
    let ghost sign = if num > 0 { Seq::<char>::empty() } else { seq!['-'] };
    assert(r@ == sign);
    let a: u64 = if num < 0 { (-num) as u64 } else { num as u64 };
    assert(a as int == if num < 0 { -num } else { num as int });
    if a < 1000 {
        push_decimal(&mut r, a);
        r.append(".00 B");
        proof {
            assert(r@ =~= sign + spec_decimal(a as nat) + ".00 B"@);
        }
        return r;
    }
    let mut e: u64 = 0;
    let mut rest: u64 = a;
    let mut p: u128 = 1;
    proof {
        assert(spec_pow1000(7) == 1000000000000000000000) by { reveal_with_fuel(spec_pow1000, 8); }
    }
    while rest >= 1000
        invariant
            spec_exponent(a as nat) == e + spec_exponent(rest as nat),
            p == spec_pow1000(e as nat),
            rest == (a as nat) / (p as nat),
            p <= a,
            a <= i64::MAX,
            e <= 6,
            spec_pow1000(7) == 1000000000000000000000,
        decreases rest,
    {
        proof {
            lemma_pow_positive(e as nat);
            assert((p as nat) * 1000 <= (a as nat)) by (nonlinear_arith)
                requires rest >= 1000, rest == (a as nat) / (p as nat), p > 0;
            assert(spec_pow1000((e + 1) as nat) == 1000 * spec_pow1000(e as nat));
            assert(e < 6) by {
                if e >= 6 {
                    lemma_pow_monotone((e + 1) as nat, 7);
                    assert(spec_pow1000(7) <= (a as nat));
                }
            }
            assert(((a as nat) / (p as nat)) / 1000 == (a as nat) / ((p as nat) * 1000)) by (nonlinear_arith)
                requires p > 0;
            assert(p * 1000 <= a as nat) by (nonlinear_arith)
                requires rest >= 1000, rest == (a as nat) / (p as nat), p > 0;
        }
        rest = rest / 1000;
        p = p * 1000;
        e = e + 1;
    }
    proof { lemma_pow_positive(e as nat); }
    let h: u128 = ((a as u128) * 200 + p) / (2 * p);
    assert(h <= 200000) by (nonlinear_arith)
        requires h == ((a as u128) * 200 + p) / (2 * p), p > 0, (a as nat) / (p as nat) < 1000;
    let whole = (h / 100) as u64;
    let frac = (h % 100) as u8;
    push_decimal(&mut r, whole);
    let ghost before_frac = r@;
    if frac != 0 {
        push_char(&mut r, '.');
        push_char(&mut r, ((frac / 10) + 48) as char);
        if frac % 10 != 0 {
            push_char(&mut r, ((frac % 10) + 48) as char);
        }
    }
    let ghost frac_text = if frac == 0 { Seq::<char>::empty() } else if frac % 10 == 0 {
        seq!['.', spec_digit((frac / 10) as nat)] } else {
        seq!['.', spec_digit((frac / 10) as nat), spec_digit((frac % 10) as nat)] };
    assert(r@ =~= before_frac + frac_text);
    r.append(" ");
    let unit = if e == 1 { "kB" } else if e == 2 { "MB" } else if e == 3 { "GB" } else if e == 4 { "TB" }
        else if e == 5 { "PB" } else { "EB" };
    r.append(unit);
    proof {
        let hn = h as nat;
        assert(whole as nat == hn / 100);
        assert(frac as nat == hn % 100);
        assert(((frac / 10) + 48) as char == spec_digit((hn % 100) / 10));
        assert(((frac % 10) + 48) as char == spec_digit((hn % 100) % 10));
        assert(unit@ == spec_unit(e as nat));
        assert(spec_human_readable_bytesize(num as int) == sign + spec_hundredths_text(hn) + " "@ + spec_unit(e as nat));
        assert(r@ =~= sign + spec_hundredths_text(hn) + " "@ + spec_unit(e as nat));
    }
    r
}

proof fn lemma_pow_monotone(hi: nat, lo: nat)
    requires
        lo <= hi,
    ensures
        spec_pow1000(lo) <= spec_pow1000(hi),
    decreases hi,
{
    if lo < hi {
        lemma_pow_monotone((hi - 1) as nat, lo);
        lemma_pow_positive((hi - 1) as nat);
    }
}

} // verus!
