//! Verified text building: decimal rendering and concatenation, used to
//! compose exact diagnostic messages.

use vstd::prelude::*;

verus! {

/// The decimal digit character of `d`.
pub open spec fn digit_char(d: int) -> char {
    if d == 0 {
        '0'
    } else if d == 1 {
        '1'
    } else if d == 2 {
        '2'
    } else if d == 3 {
        '3'
    } else if d == 4 {
        '4'
    } else if d == 5 {
        '5'
    } else if d == 6 {
        '6'
    } else if d == 7 {
        '7'
    } else if d == 8 {
        '8'
    } else {
        '9'
    }
}

/// The decimal rendering of a non-negative number.
pub open spec fn dec_str(n: nat) -> Seq<char>
    decreases n,
{
    if n < 10 {
        seq![digit_char(n as int)]
    } else {
        dec_str(n / 10) + seq![digit_char((n % 10) as int)]
    }
}

/// The single-character text of a digit.
fn digit_str(d: u64) -> (r: &'static str)
    requires
        d < 10,
    ensures
        r@ == seq![digit_char(d as int)],
{
    proof {
        reveal_strlit("0");
        reveal_strlit("1");
        reveal_strlit("2");
        reveal_strlit("3");
        reveal_strlit("4");
        reveal_strlit("5");
        reveal_strlit("6");
        reveal_strlit("7");
        reveal_strlit("8");
        reveal_strlit("9");
    }
    let r: &'static str = if d == 0 {
        "0"
    } else if d == 1 {
        "1"
    } else if d == 2 {
        "2"
    } else if d == 3 {
        "3"
    } else if d == 4 {
        "4"
    } else if d == 5 {
        "5"
    } else if d == 6 {
        "6"
    } else if d == 7 {
        "7"
    } else if d == 8 {
        "8"
    } else {
        "9"
    };
    proof {
        assert(r@ =~= seq![digit_char(d as int)]);
    }
    r
}

/// Render a number in decimal.
pub fn u64_to_string(n: u64) -> (s: String)
    ensures
        s@ == dec_str(n as nat),
{
    let mut digits: Vec<u64> = Vec::new();
    let mut rest: u64 = n;
    let ghost rendered: Seq<char> = dec_str(n as nat);
    // Collect the digits from the least significant end.
    while rest >= 10
        invariant
            forall|j: int| 0 <= j < digits@.len() ==> (#[trigger] digits@[j]) < 10,
            dec_str(n as nat) == dec_str(rest as nat) + digits@.map_values(
                |d: u64| digit_char(d as int),
            ).reverse(),
        decreases rest,
    {
        let d = rest % 10;
        let ghost pre = digits@;
        digits.push(d);
        rest = rest / 10;
        proof {
            assert(digits@.map_values(|dd: u64| digit_char(dd as int)).reverse() =~= seq![
                digit_char(d as int),
            ] + pre.map_values(|dd: u64| digit_char(dd as int)).reverse());
            assert(dec_str((rest * 10 + d) as nat) == dec_str(rest as nat) + seq![
                digit_char(d as int),
            ]);
            assert(dec_str(rest as nat) + seq![digit_char(d as int)] + pre.map_values(
                |dd: u64| digit_char(dd as int),
            ).reverse() =~= dec_str(rest as nat) + digits@.map_values(
                |dd: u64| digit_char(dd as int),
            ).reverse());
        }
    }
    let ghost pre = digits@;
    digits.push(rest);
    proof {
        assert(digits@.map_values(|dd: u64| digit_char(dd as int)).reverse() =~= seq![
            digit_char(rest as int),
        ] + pre.map_values(|dd: u64| digit_char(dd as int)).reverse());
        assert(dec_str(rest as nat) =~= seq![digit_char(rest as int)]);
        assert(dec_str(n as nat) =~= digits@.map_values(|dd: u64| digit_char(dd as int)).reverse());
    }
    let ghost out: Seq<char> = digits@.map_values(|dd: u64| digit_char(dd as int)).reverse();
    let mut s = String::new();
    let nd = digits.len();
    for i in 0..nd
        invariant
            nd == digits@.len(),
            forall|j: int| 0 <= j < nd ==> (#[trigger] digits@[j]) < 10,
            out == digits@.map_values(|dd: u64| digit_char(dd as int)).reverse(),
            out.len() == nd,
            dec_str(n as nat) == out,
            s@ =~= out.take(i as int),
    {
        s.append(digit_str(digits[nd - 1 - i]));
        proof {
            assert(out[i as int] == digit_char(digits@[nd - 1 - i as int] as int));
            assert(s@ =~= out.take(i as int + 1));
        }
    }
    proof {
        assert(out.take(nd as int) =~= out);
    }
    s
}

/// Concatenate two pieces of text.
pub fn concat2(a: &str, b: &str) -> (s: String)
    ensures
        s@ == a@ + b@,
{
    let mut s = a.to_owned();
    s.append(b);
    s
}

/// Concatenate three pieces of text.
pub fn concat3(a: &str, b: &str, c: &str) -> (s: String)
    ensures
        s@ == a@ + b@ + c@,
{
    let mut s = a.to_owned();
    s.append(b);
    s.append(c);
    s
}

} // verus!
