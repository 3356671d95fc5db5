//! Decimal rendering of unsigned integers and of microsecond durations.

use vstd::prelude::*;

verus! {

/// The decimal digit character for `d`, meaningful for `d < 10`.
pub open spec fn digit_char(d: nat) -> char {
    if d == 0 {
        '0'
    } else if d == 1 {
        '1'
    } else if d == 2 {
        '2'
    } else if d == 3 {
        '3'
    } else if d == 4 {
        '4'
    } else if d == 5 {
        '5'
    } else if d == 6 {
        '6'
    } else if d == 7 {
        '7'
    } else if d == 8 {
        '8'
    } else {
        '9'
    }
}

/// The usual decimal rendering of `n`, without leading zeros (except for
/// `n == 0`, which renders as the single digit `0`).
pub open spec fn dec_str(n: nat) -> Seq<char>
    decreases n,
{
    if n < 10 {
        seq![digit_char(n)]
    } else {
        dec_str(n / 10) + seq![digit_char(n % 10)]
    }
}

/// `10` raised to the power `k`.
pub open spec fn pow10(k: nat) -> nat
    decreases k,
{
    if k == 0 {
        1
    } else {
        10 * pow10((k - 1) as nat)
    }
}

/// A number in the half-open decade `[pow10(k - 1), pow10(k))` renders with
/// exactly `k` decimal digits; numbers below `10` render with one digit.
pub proof fn lemma_dec_str_len(n: nat, k: nat)
    requires
        1 <= k,
        n < pow10(k),
        k > 1 ==> n >= pow10((k - 1) as nat),
    ensures
        dec_str(n).len() == k,
    decreases k,
{
    reveal_with_fuel(pow10, 3);
    if k == 1 {
        reveal_with_fuel(dec_str, 2);
        assert(n < 10);
        assert(dec_str(n) == seq![digit_char(n)]);
    } else {
        assert(pow10((k - 1) as nat) >= pow10(1)) by {
            lemma_pow10_increases(1, (k - 1) as nat);
        }
        assert(n >= 10);
        assert(n / 10 < pow10((k - 1) as nat));
        if k - 1 > 1 {
            assert(n / 10 >= pow10((k - 2) as nat));
        }
        lemma_dec_str_len(n / 10, (k - 1) as nat);
        assert(dec_str(n) == dec_str(n / 10) + seq![digit_char(n % 10)]);
    }
}

/// `pow10` is non-decreasing in the exponent.
pub proof fn lemma_pow10_increases(j: nat, k: nat)
    requires
        j <= k,
    ensures
        pow10(j) <= pow10(k),
    decreases k,
{
    if j < k {
        lemma_pow10_increases(j, (k - 1) as nat);
    }
}

/// The single-character string for the decimal digit `d`.
fn digit_str(d: u64) -> (r: &'static str)
    requires
        d < 10,
    ensures
        r@ == seq![digit_char(d as nat)],
{
    proof {
        reveal_strlit("0");
        reveal_strlit("1");
        reveal_strlit("2");
        reveal_strlit("3");
        reveal_strlit("4");
        reveal_strlit("5");
        reveal_strlit("6");
        reveal_strlit("7");
        reveal_strlit("8");
        reveal_strlit("9");
    }
    let r = match d {
        0 => "0",
        1 => "1",
        2 => "2",
        3 => "3",
        4 => "4",
        5 => "5",
        6 => "6",
        7 => "7",
        8 => "8",
        _ => "9",
    };
    proof {
        assert(r@ =~= seq![digit_char(d as nat)]);
    }
    r
}

/// Renders `n` in decimal.
pub fn u64_to_string(n: u64) -> (r: String)
    ensures
        r@ == dec_str(n as nat),
    decreases n,
{
    if n < 10 {
        digit_str(n).to_owned()
    } else {
        let mut s = u64_to_string(n / 10);
        s.append(digit_str(n % 10));
        proof {
            assert(s@ =~= dec_str(n as nat));
        }
        s
    }
}

/// A duration of `micros` microseconds rendered as seconds with exactly six
/// decimal places: the whole seconds in decimal, a dot, then the fractional
/// microseconds zero-padded to six digits (the rendering of
/// `1_000_000 + micros % 1_000_000` with its leading `1` dropped).
pub open spec fn duration_str_spec(micros: u64) -> Seq<char> {
    dec_str((micros / 1000000) as nat) + seq!['.'] + dec_str(
        (1000000 + micros % 1000000) as nat,
    ).skip(1)
}

/// Renders a duration given in microseconds as seconds with six decimal
/// places, the form the encoder's concat manifest expects.
pub fn format_duration_micros(micros: u64) -> (r: String)
    ensures
        r@ == duration_str_spec(micros),
{
    let whole = micros / 1000000;
    let frac = micros % 1000000;
    let mut s = u64_to_string(whole);
    proof {
        reveal_strlit(".");
    }
    s.append(".");
    let padded = u64_to_string(1000000 + frac);
    proof {
        reveal_with_fuel(pow10, 8);
        assert(pow10(7) == 10000000);
        assert(pow10(6) == 1000000);
        lemma_dec_str_len((1000000 + frac) as nat, 7);
    }
    let tail = padded.as_str().substring_char(1, 7);
    s.append(tail);
    proof {
        assert(tail@ =~= dec_str((1000000 + micros % 1000000) as nat).skip(1));
        assert(s@ =~= duration_str_spec(micros));
    }
    s
}

} // verus!
