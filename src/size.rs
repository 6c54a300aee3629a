//! Human-readable byte counts.
use vstd::prelude::*;
use vstd::string::*;
use vstd::arithmetic::div_mod::{lemma_fundamental_div_mod, lemma_fundamental_div_mod_converse};

verus! {

/// The decimal digit character for `d < 10`.
pub open spec fn digit_char(d: nat) -> char {
    if d == 0 {
        '0'
    } else if d == 1 {
        '1'
    } else if d == 2 {
        '2'
    } else if d == 3 {
        '3'
    } else if d == 4 {
        '4'
    } else if d == 5 {
        '5'
    } else if d == 6 {
        '6'
    } else if d == 7 {
        '7'
    } else if d == 8 {
        '8'
    } else {
        '9'
    }
}

/// The decimal notation of `n`, without leading zeros.
pub open spec fn decimal(n: nat) -> Seq<char>
    decreases n,
{
    if n < 10 {
        seq![digit_char(n)]
    } else {
        decimal(n / 10) + seq![digit_char(n % 10)]
    }
}

/// Index of the largest unit, among bytes, KB, MB and GB, that is at most `n`
/// (bytes for sizes under one KB).
pub open spec fn unit_index(n: nat) -> nat {
    if n < 1024 {
        0
    } else if n < 1048576 {
        1
    } else if n < 1073741824 {
        2
    } else {
        3
    }
}

/// How many bytes the unit of index `i` holds.
pub open spec fn unit_size(i: nat) -> nat {
    if i == 0 {
        1
    } else if i == 1 {
        1024
    } else if i == 2 {
        1048576
    } else {
        1073741824
    }
}

/// The name of the unit of index `i`.
pub open spec fn unit_name(i: nat) -> Seq<char> {
    if i == 0 {
        "Bytes"@
    } else if i == 1 {
        "KB"@
    } else if i == 2 {
        "MB"@
    } else {
        "GB"@
    }
}

/// `n / d` rounded to the nearest hundredth, ties to even, counted in
/// hundredths.
pub open spec fn hundredths(n: nat, d: nat) -> nat
    recommends
        d > 0,
{
    let f = (n * 100) / d;
    let r = (n * 100) % d;
    if r * 2 > d || (r * 2 == d && f % 2 == 1) {
        f + 1
    } else {
        f
    }
}

/// The size `n` in words: whole bytes under one KB, else the size in the
/// largest unit up to GB with two decimals.
pub open spec fn size_text(n: nat) -> Seq<char> {
    let i = unit_index(n);
    if i == 0 {
        decimal(n) + " "@ + unit_name(0)
    } else {
        let h = hundredths(n, unit_size(i));
        decimal(h / 100) + "."@ + seq![digit_char((h % 100) / 10)] + seq![digit_char(h % 10)] + " "@
            + unit_name(i)
    }
}

fn digit_str(d: u64) -> (r: &'static str)
    requires
        d < 10,
    ensures
        r@ == seq![digit_char(d as nat)],
{
    if d == 0 {
        proof { reveal_strlit("0"); }
        "0"
    } else if d == 1 {
        proof { reveal_strlit("1"); }
        "1"
    } else if d == 2 {
        proof { reveal_strlit("2"); }
        "2"
    } else if d == 3 {
        proof { reveal_strlit("3"); }
        "3"
    } else if d == 4 {
        proof { reveal_strlit("4"); }
        "4"
    } else if d == 5 {
        proof { reveal_strlit("5"); }
        "5"
    } else if d == 6 {
        proof { reveal_strlit("6"); }
        "6"
    } else if d == 7 {
        proof { reveal_strlit("7"); }
        "7"
    } else if d == 8 {
        proof { reveal_strlit("8"); }
        "8"
    } else {
        proof { reveal_strlit("9"); }
        "9"
    }
}

fn push_decimal(s: &mut String, n: u64)
    ensures
        final(s)@ == old(s)@ + decimal(n as nat),
    decreases n,
{
    if n >= 10 {
        push_decimal(s, n / 10);
    }
    s.append(digit_str(n % 10));
    proof {
        if n >= 10 {
            assert(old(s)@ + decimal((n / 10) as nat) + seq![digit_char((n % 10) as nat)] =~= old(s)@
                + decimal(n as nat));
        } else {
            assert(decimal(n as nat) == seq![digit_char(n as nat)]);
        }
    }
}

/// The whole and the fractional part of `n / d` rounded to hundredths.
fn split_hundredths(n: u64, d: u64) -> (r: (u64, u64))
    requires
        1024 <= d <= 1073741824,
    ensures
        r.0 as nat == hundredths(n as nat, d as nat) / 100,
        r.1 as nat == hundredths(n as nat, d as nat) % 100,
        r.1 < 100,
{
    let q = n / d;
    let r = n % d;
    let t = r * 100;
    let f = t / d;
    let rem = t % d;
    let f2 = if rem * 2 > d || (rem * 2 == d && f % 2 == 1) {
        f + 1
    } else {
        f
    };
    proof {
        let nn = n as int;
        let dd = d as int;
        lemma_fundamental_div_mod(nn, dd);
        lemma_fundamental_div_mod(t as int, dd);
        assert(nn == q * dd + r);
        assert(t == f * dd + rem);
        assert(nn * 100 == (q * 100 + f) * dd + rem) by (nonlinear_arith)
            requires
                nn == q * dd + r,
                t == r * 100,
                t == f * dd + rem,
        ;
        lemma_fundamental_div_mod_converse(nn * 100, dd, q * 100 + f, rem as int);
        assert(f < 100) by (nonlinear_arith)
            requires
                r < dd,
                t == r * 100,
                t == f * dd + rem,
                0 <= rem,
        ;
        assert(q * 1024 <= nn) by (nonlinear_arith)
            requires
                nn == q * dd + r,
                1024 <= dd,
                0 <= r,
                0 <= q,
        ;
    }
    let (ip, fp) = if f2 == 100 {
        (q + 1, 0u64)
    } else {
        (q, f2)
    };
    proof {
        let h = q * 100 + f2;
        assert(hundredths(n as nat, d as nat) == h);
        lemma_fundamental_div_mod_converse(h as int, 100, ip as int, fp as int);
    }
    (ip, fp)
}

/// Formats a byte count for display: "0 Bytes" to "1023 Bytes" as whole
/// numbers, larger sizes with two decimals in KB, MB or GB, where GB is the
/// largest unit ("5120.00 GB").
pub fn format_file_size(bytes: usize) -> (r: String)
    ensures
        r@ == size_text(bytes as nat),
{
    let n = bytes as u64;
    let mut s = String::new();
    if n < 1024 {
        push_decimal(&mut s, n);
        s.append(" ");
        s.append("Bytes");
        assert(s@ =~= size_text(bytes as nat));
        return s;
    }
    let ghost i: nat = unit_index(n as nat);
    let (d, unit) = if n < 1048576 {
        (1024u64, "KB")
    } else if n < 1073741824 {
        (1048576u64, "MB")
    } else {
        (1073741824u64, "GB")
    };
    assert(d as nat == unit_size(i) && unit@ == unit_name(i));
    let (ip, fp) = split_hundredths(n, d);
    push_decimal(&mut s, ip);
    s.append(".");
    s.append(digit_str(fp / 10));
    s.append(digit_str(fp % 10));
    s.append(" ");
    s.append(unit);
    assert(s@ =~= size_text(bytes as nat));
    s
}

} // verus!
