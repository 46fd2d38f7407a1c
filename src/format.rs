use vstd::arithmetic::div_mod::{lemma_fundamental_div_mod, lemma_fundamental_div_mod_converse};
use vstd::prelude::*;

verus! {

/// The decimal digit `d` (0 to 9) as a character.
pub open spec fn digit_char(d: int) -> char {
    if d == 0 {
        '0'
    } else if d == 1 {
        '1'
    } else if d == 2 {
        '2'
    } else if d == 3 {
        '3'
    } else if d == 4 {
        '4'
    } else if d == 5 {
        '5'
    } else if d == 6 {
        '6'
    } else if d == 7 {
        '7'
    } else if d == 8 {
        '8'
    } else {
        '9'
    }
}

/// The decimal digits of `n`, without leading zeros.
pub open spec fn decimal(n: nat) -> Seq<char>
    decreases n,
{
    if n < 10 {
        seq![digit_char(n as int)]
    } else {
        decimal(n / 10).push(digit_char((n % 10) as int))
    }
}

/// How many bytes one unit of index `k` is: B, KB, MB, GB, TB, 1000-based.
pub open spec fn unit_size(k: nat) -> nat {
    if k == 0 {
        1
    } else if k == 1 {
        1000
    } else if k == 2 {
        1000_000
    } else if k == 3 {
        1000_000_000
    } else {
        1000_000_000_000
    }
}

pub open spec fn unit_name(k: nat) -> Seq<char> {
    if k == 0 {
        seq!['B']
    } else if k == 1 {
        seq!['K', 'B']
    } else if k == 2 {
        seq!['M', 'B']
    } else if k == 3 {
        seq!['G', 'B']
    } else {
        seq!['T', 'B']
    }
}

/// The largest unit whose size the quantity `num / den` reaches (B below 1 KB).
pub open spec fn unit_index(num: nat, den: nat) -> nat {
    if num >= den * unit_size(4) {
        4
    } else if num >= den * unit_size(3) {
        3
    } else if num >= den * unit_size(2) {
        2
    } else if num >= den * unit_size(1) {
        1
    } else {
        0
    }
}

/// `num / den` in units of index `k`, in hundredths, rounded to the nearest
/// hundredth with halves rounded up.
pub open spec fn hundredths(num: nat, den: nat, k: nat) -> nat {
    let d = den * unit_size(k);
    ((200 * num + d) / (2 * d)) as nat
}

/// `num / den` bytes in the largest unit it reaches, with two decimals, then the
/// unit, then `/s` for a rate: `1500000 / 1` gives `1.50 MB`.
pub open spec fn format_spec(num: nat, den: nat, is_speed: bool) -> Seq<char> {
    let k = unit_index(num, den);
    let h = hundredths(num, den, k);
    decimal(h / 100) + seq!['.', digit_char(((h % 100) / 10) as int), digit_char((h % 10) as int), ' '] + unit_name(
        k,
    ) + if is_speed {
        seq!['/', 's']
    } else {
        Seq::empty()
    }
}

fn digit_str(d: u128) -> (r: &'static str)
    requires
        d < 10,
    ensures
        r@ == seq![digit_char(d as int)],
{
    proof {
        reveal_strlit("0");
        reveal_strlit("1");
        reveal_strlit("2");
        reveal_strlit("3");
        reveal_strlit("4");
        reveal_strlit("5");
        reveal_strlit("6");
        reveal_strlit("7");
        reveal_strlit("8");
        reveal_strlit("9");
    }
    if d == 0 {
        "0"
    } else if d == 1 {
        "1"
    } else if d == 2 {
        "2"
    } else if d == 3 {
        "3"
    } else if d == 4 {
        "4"
    } else if d == 5 {
        "5"
    } else if d == 6 {
        "6"
    } else if d == 7 {
        "7"
    } else if d == 8 {
        "8"
    } else {
        "9"
    }
}

/// Appends the decimal digits of `n` to `s`.
pub fn push_decimal(s: &mut String, n: u128)
    ensures
        final(s)@ == old(s)@ + decimal(n as nat),
    decreases n,
{
    if n >= 10 {
        push_decimal(s, n / 10);
    }
    s.append(digit_str(n % 10));
    proof {
        if n >= 10 {
            assert(final(s)@ =~= old(s)@ + decimal(n as nat));
        } else {
            assert(final(s)@ =~= old(s)@ + decimal(n as nat));
        }
    }
}

fn unit_str(k: u128) -> (r: &'static str)
    requires
        k <= 4,
    ensures
        r@ == unit_name(k as nat),
{
    proof {
        reveal_strlit("B");
        reveal_strlit("KB");
        reveal_strlit("MB");
        reveal_strlit("GB");
        reveal_strlit("TB");
    }
    if k == 0 {
        "B"
    } else if k == 1 {
        "KB"
    } else if k == 2 {
        "MB"
    } else if k == 3 {
        "GB"
    } else {
        "TB"
    }
}

fn unit_size_exec(k: u128) -> (r: u128)
    requires
        k <= 4,
    ensures
        r == unit_size(k as nat),
{
    if k == 0 {
        1
    } else if k == 1 {
        1000
    } else if k == 2 {
        1000_000
    } else if k == 3 {
        1000_000_000
    } else {
        1000_000_000_000
    }
}

/// Splits `num / d`, rounded to the nearest hundredth (halves up), into its whole
/// part and its hundredths.
fn split_hundredths(num: u128, d: u128) -> (r: (u128, u128))
    requires
        1 <= d <= u64::MAX * 1000_000_000_000,
    ensures
        r.1 < 100,
        r.0 * 100 + r.1 == (200 * num + d) / (2 * d),
{
    let q = num / d;
    let rem = num % d;
    let f = (200 * rem + d) / (2 * d);
    proof {
        lemma_fundamental_div_mod(num as int, d as int);
        lemma_fundamental_div_mod(200 * rem + d, 2 * d as int);
        let fr = (200 * rem + d) % (2 * d);
        assert(200 * num + d == (100 * q + f) * (2 * d) + fr) by (nonlinear_arith)
            requires
                num == d * q + rem,
                200 * rem + d == (2 * d) * f + fr,
        ;
        lemma_fundamental_div_mod_converse(200 * num + d, 2 * d as int, 100 * q + f, fr);
        assert(f <= 100) by (nonlinear_arith)
            requires
                rem < d,
                200 * rem + d == (2 * d) * f + fr,
                0 <= fr,
        ;
        if rem == 0 {
            lemma_fundamental_div_mod_converse(d as int, 2 * d as int, 0, d as int);
        }
        if f == 100 {
            assert(q < u128::MAX) by (nonlinear_arith)
                requires
                    num == d * q + rem,
                    rem < d,
                    rem > 0,
                    num <= u128::MAX,
            ;
        }
    }
    if f == 100 {
        (q + 1, 0)
    } else {
        (q, f)
    }
}

/// Formats the quantity `num / den` bytes: the largest unit among B, KB, MB, GB
/// and TB (1000-based) that it reaches, two decimals, and `/s` where it is a rate.
pub fn format_ratio(num: u128, den: u64, is_speed: bool) -> (r: String)
    requires
        den >= 1,
    ensures
        r@ == format_spec(num as nat, den as nat, is_speed),
{
    let den = den as u128;
    let mut k: u128 = 4;
    while k > 0 && num < den * unit_size_exec(k)
        invariant
            k <= 4,
            1 <= den <= u64::MAX,
            forall|j: nat| k < j <= 4 ==> num < den * unit_size(j),
        decreases k,
    {
        assert(den * unit_size(k as nat) <= u64::MAX * 1000_000_000_000) by (nonlinear_arith)
            requires
                den <= u64::MAX,
                unit_size(k as nat) <= 1000_000_000_000,
        ;
        k = k - 1;
    }
    assert(den * unit_size(k as nat) <= u64::MAX * 1000_000_000_000) by (nonlinear_arith)
        requires
            den <= u64::MAX,
            unit_size(k as nat) <= 1000_000_000_000,
    ;
    assert(k as nat == unit_index(num as nat, den as nat));
    assert(den * unit_size(k as nat) >= 1) by (nonlinear_arith)
        requires
            den >= 1,
            unit_size(k as nat) >= 1,
    ;
    let d = den * unit_size_exec(k);
    let (whole, frac) = split_hundredths(num, d);
    proof {
        let h = hundredths(num as nat, den as nat, k as nat);
        lemma_fundamental_div_mod_converse(h as int, 100, whole as int, frac as int);
    }
    let mut s = String::new();
    push_decimal(&mut s, whole);
    proof {
        reveal_strlit(".");
        reveal_strlit(" ");
        reveal_strlit("/s");
    }
    s.append(".");
    s.append(digit_str(frac / 10));
    s.append(digit_str(frac % 10));
    s.append(" ");
    s.append(unit_str(k));
    if is_speed {
        s.append("/s");
    }
    proof {
        let h = hundredths(num as nat, den as nat, k as nat);
        assert(frac / 10 == (h % 100) / 10);
        assert(s@ =~= format_spec(num as nat, den as nat, is_speed));
    }
    s
}

/// Formats a whole number of bytes; see `format_ratio`.
pub fn format_bytes(bytes: u128, is_speed: bool) -> (r: String)
    ensures
        r@ == format_spec(bytes as nat, 1, is_speed),
{
    format_ratio(bytes, 1, is_speed)
}

} // verus!
