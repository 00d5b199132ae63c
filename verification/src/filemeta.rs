//! The size and age labels that the picker shows under each file.
use vstd::prelude::*;
use crate::text::{decimal, digit_char, push_char, push_decimal, push_str, decimal_string};

verus! {

/// The least power of two (the spacing of `f64` values) at which `b` is
/// represented: 1 below 2^53, doubling with every further binary digit.
pub open spec fn f64_spacing(b: nat) -> nat
    decreases b,
{
    if b < 0x20_0000_0000_0000 {
        1
    } else {
        2 * f64_spacing(b / 2)
    }
}

/// `n / d` rounded to the nearest integer, ties to the even one.
pub open spec fn round_half_even(n: nat, d: nat) -> nat
    recommends
        d > 0,
{
    let q = n / d;
    let r = n % d;
    if 2 * r > d || (2 * r == d && q % 2 == 1) {
        q + 1
    } else {
        q
    }
}

/// The value of `b as f64`: `b` rounded to the nearest multiple of its
/// spacing, ties to even.
pub open spec fn as_f64(b: nat) -> nat {
    round_half_even(b, f64_spacing(b)) * f64_spacing(b)
}

/// `t` tenths written with one decimal, as `{:.1}` writes `t / 10`.
pub open spec fn one_decimal(t: nat) -> Seq<char> {
    decimal(t / 10) + seq!['.', digit_char(t % 10)]
}

/// The label of a file size of `b` bytes: bytes below 1024, then kilobytes
/// below 1024 * 1024, then megabytes, with one decimal rounded half to even
/// (what `{:.1}` does to the exact `f64` quotient).
pub open spec fn size_label(b: nat) -> Seq<char> {
    if b < 1024 {
        decimal(b) + seq![' ', 'B']
    } else if b < 1024 * 1024 {
        one_decimal(round_half_even(10 * b, 1024)) + seq![' ', 'K', 'B']
    } else {
        one_decimal(round_half_even(10 * as_f64(b), 1024 * 1024)) + seq![' ', 'M', 'B']
    }
}

/// `n / d` rounded half to even, for `d > 0`.
fn div_round_half_even(n: u128, d: u128) -> (r: u128)
    requires
        d > 0,
        n < u128::MAX,
    ensures
        r == round_half_even(n as nat, d as nat),
{
    let q = n / d;
    let rem = n % d;
    assert(q <= n) by {
        vstd::arithmetic::div_mod::lemma_div_is_ordered_by_denominator(n as int, 1, d as int);
    }
    if rem > d - rem || (rem == d - rem && q % 2 == 1) {
        q + 1
    } else {
        q
    }
}

/// The value of `b as f64`, exactly.
fn u64_as_f64(b: u64) -> (f: u128)
    ensures
        f == as_f64(b as nat),
        f <= 0x1_0000_0000_0001_0000,
{
    let mut x: u128 = b as u128;
    let mut p: u128 = 1;
    while x >= 0x20_0000_0000_0000
        invariant
            p >= 1,
            x == b as nat / p as nat,
            f64_spacing(b as nat) == p * f64_spacing(x as nat),
            p <= 0x1_0000_0000_0000_0000,
            p * 0x10_0000_0000_0000 <= b as nat + 0x10_0000_0000_0000,
        decreases x,
    {
        proof {
            vstd::arithmetic::div_mod::lemma_div_denominator(b as int, p as int, 2);
            vstd::arithmetic::div_mod::lemma_fundamental_div_mod(b as int, p as int);
            vstd::arithmetic::div_mod::lemma_fundamental_div_mod(b as int, (p * 2) as int);
            assert(x * p <= b) by (nonlinear_arith)
                requires x == b as nat / p as nat, p >= 1, b as nat == p * (b as nat / p as nat) + b as nat % p as nat, b as nat % p as nat >= 0;
            assert(p * 0x20_0000_0000_0000 <= b) by (nonlinear_arith)
                requires x * p <= b, x >= 0x20_0000_0000_0000, p >= 1;
            assert(f64_spacing(x as nat) == 2 * f64_spacing((x / 2) as nat));
            assert(p * f64_spacing(x as nat) == (p * 2) * f64_spacing((x / 2) as nat)) by (nonlinear_arith)
                requires f64_spacing(x as nat) == 2 * f64_spacing((x / 2) as nat);
        }
        x = x / 2;
        p = p * 2;
    }
    proof {
        vstd::arithmetic::div_mod::lemma_fundamental_div_mod(b as int, p as int);
        assert(x * p <= b) by (nonlinear_arith)
            requires x == b as nat / p as nat, p >= 1, b as nat == p * (b as nat / p as nat) + b as nat % p as nat, b as nat % p as nat >= 0;
        assert(b as nat % p as nat == b - x * p);
        assert(f64_spacing(x as nat) == 1);
        assert(f64_spacing(b as nat) == p) by (nonlinear_arith)
            requires f64_spacing(x as nat) == 1, f64_spacing(b as nat) == p * f64_spacing(x as nat);
    }
    let r = b as u128 - x * p;
    let q = if r > p - r || (r == p - r && x % 2 == 1) {
        x + 1
    } else {
        x
    };
    proof {
        assert(q == round_half_even(b as nat, p as nat));
        assert(q * p <= 0x1_0000_0000_0001_0000) by (nonlinear_arith)
            requires q <= x + 1, x * p <= b, p * 0x10_0000_0000_0000 <= b as nat + 0x10_0000_0000_0000,
                x < 0x20_0000_0000_0000, b < 0x1_0000_0000_0000_0000, p >= 1;
    }
    q * p
}

/// Appends `t` tenths written with one decimal.
fn push_one_decimal(out: &mut String, t: u128)
    requires
        t <= u64::MAX,
    ensures
        final(out)@ == old(out)@ + one_decimal(t as nat),
{
    let ghost start = out@;
    push_decimal(out, (t / 10) as u64);
    push_char(out, '.');
    push_char(out, digit_of((t % 10) as u64));
    assert(out@ =~= start + one_decimal(t as nat));
}

fn digit_of(d: u64) -> (c: char)
    requires
        d < 10,
    ensures
        c == digit_char(d as nat),
{
    let s = decimal_string(d);
    proof {
        assert(decimal(d as nat) =~= seq![digit_char(d as nat)]);
    }
    s.as_str().get_char(0)
}

/// Human-readable file size: `"512 B"`, `"1.5 KB"`, `"2.0 MB"`.
pub fn format_size(bytes: u64) -> (s: String)
    ensures
        s@ == size_label(bytes as nat),
{
    let mut s = String::new();
    if bytes < 1024 {
        push_decimal(&mut s, bytes);
        push_char(&mut s, ' ');
        push_char(&mut s, 'B');
    } else if bytes < 1024 * 1024 {
        let t = div_round_half_even(10 * bytes as u128, 1024);
        assert(t <= u64::MAX) by {
            vstd::arithmetic::div_mod::lemma_div_is_ordered_by_denominator(10 * bytes as int, 1, 1024);
        }
        push_one_decimal(&mut s, t);
        push_char(&mut s, ' ');
        push_char(&mut s, 'K');
        push_char(&mut s, 'B');
    } else {
        let f = u64_as_f64(bytes);
        let t = div_round_half_even(10 * f, 1024 * 1024);
        assert(t <= u64::MAX) by {
            assert((10 * f) as int / 1048576int <= 0xa0_0000_0000_000a_0000int / 1048576int) by {
                vstd::arithmetic::div_mod::lemma_div_is_ordered((10 * f) as int, 0xa0_0000_0000_000a_0000int, 1048576int);
            }
        }
        push_one_decimal(&mut s, t);
        push_char(&mut s, ' ');
        push_char(&mut s, 'M');
        push_char(&mut s, 'B');
    }
    assert(s@ =~= size_label(bytes as nat));
    s
}

/// The label of a modification `secs` seconds ago.
pub open spec fn age_label(secs: nat) -> Seq<char> {
    let days = secs / 86400;
    if days == 0 {
        seq!['t', 'o', 'd', 'a', 'y']
    } else if days == 1 {
        seq!['y', 'e', 's', 't', 'e', 'r', 'd', 'a', 'y']
    } else if days < 14 {
        decimal(days) + seq![' ', 'd', 'a', 'y', 's', ' ', 'a', 'g', 'o']
    } else if days < 60 {
        decimal(days / 7) + seq![' ', 'w', 'e', 'e', 'k', 's', ' ', 'a', 'g', 'o']
    } else {
        decimal(days / 30) + seq![' ', 'm', 'o', 'n', 't', 'h', 's', ' ', 'a', 'g', 'o']
    }
}

/// How long ago a file was modified, given the seconds elapsed since:
/// `"today"`, `"yesterday"`, `"5 days ago"`, `"3 weeks ago"`, `"4 months ago"`.
pub fn relative_time(elapsed_secs: u64) -> (s: String)
    ensures
        s@ == age_label(elapsed_secs as nat),
{
    let days = elapsed_secs / 86400;
    let mut s = String::new();
    if days == 0 {
        push_str(&mut s, "today");
        proof { reveal_strlit("today"); }
    } else if days == 1 {
        push_str(&mut s, "yesterday");
        proof { reveal_strlit("yesterday"); }
    } else if days < 14 {
        push_decimal(&mut s, days);
        push_str(&mut s, " days ago");
        proof { reveal_strlit(" days ago"); }
    } else if days < 60 {
        push_decimal(&mut s, days / 7);
        push_str(&mut s, " weeks ago");
        proof { reveal_strlit(" weeks ago"); }
    } else {
        push_decimal(&mut s, days / 30);
        push_str(&mut s, " months ago");
        proof { reveal_strlit(" months ago"); }
    }
    assert(s@ =~= age_label(elapsed_secs as nat));
    s
}

/// The two labels of a file: its size and its age. `meta` is what the
/// file system reported: `None` when the metadata could not be read, else
/// the length in bytes and, when the modification time could be read, the
/// seconds elapsed since.
pub fn file_meta(meta: Option<(u64, Option<u64>)>) -> (r: (String, String))
    ensures
        r.0@ == (match meta {
            Some((len, _)) => size_label(len as nat),
            None => seq!['?', ' ', 'B'],
        }),
        r.1@ == (match meta {
            Some((_, Some(secs))) => age_label(secs as nat),
            _ => seq!['u', 'n', 'k', 'n', 'o', 'w', 'n'],
        }),
{
    proof {
        reveal_strlit("? B");
        reveal_strlit("unknown");
    }
    match meta {
        Some((len, modified)) => {
            let size = format_size(len);
            let time = match modified {
                Some(secs) => relative_time(secs),
                None => String::from_str("unknown"),
            };
            (size, time)
        },
        None => (String::from_str("? B"), String::from_str("unknown")),
    }
}

} // verus!
