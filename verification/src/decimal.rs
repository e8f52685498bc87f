//! Decimal numerals: whole numbers, and numbers with a fixed count of
//! digits after the point.

use vstd::prelude::*;

verus! {

/// The character of the decimal digit `d`.
pub open spec fn digit_char(d: nat) -> char
    recommends
        d < 10,
{
    if d == 0 {
        '0'
    } else if d == 1 {
        '1'
    } else if d == 2 {
        '2'
    } else if d == 3 {
        '3'
    } else if d == 4 {
        '4'
    } else if d == 5 {
        '5'
    } else if d == 6 {
        '6'
    } else if d == 7 {
        '7'
    } else if d == 8 {
        '8'
    } else {
        '9'
    }
}

/// The decimal numeral of `n`, without leading zeros.
pub open spec fn decimal_text(n: nat) -> Seq<char>
    decreases n,
{
    if n < 10 {
        seq![digit_char(n)]
    } else {
        decimal_text(n / 10).push(digit_char(n % 10))
    }
}

/// `n` without its last `places` decimal digits.
pub open spec fn whole_part(n: nat, places: nat) -> nat
    decreases places,
{
    if places == 0 {
        n
    } else {
        whole_part(n / 10, (places - 1) as nat)
    }
}

/// The last `places` decimal digits of `n`, with leading zeros where `n`
/// has fewer digits.
pub open spec fn fraction_text(n: nat, places: nat) -> Seq<char>
    decreases places,
{
    if places == 0 {
        Seq::empty()
    } else {
        fraction_text(n / 10, (places - 1) as nat).push(digit_char(n % 10))
    }
}

/// The numeral of `n` counted in units of ten to the minus `places`: the
/// numeral of `n` with a point before its last `places` digits, and no
/// point where `places` is zero.
pub open spec fn fixed_text(n: nat, places: nat) -> Seq<char> {
    if places == 0 {
        decimal_text(n)
    } else {
        decimal_text(whole_part(n, places)) + seq!['.'] + fraction_text(n, places)
    }
}

/// The decimal digit `d` as a string of one character.
pub fn digit_str(d: u8) -> (s: &'static str)
    requires
        d < 10,
    ensures
        s@ == seq![digit_char(d as nat)],
{
    proof {
        reveal_strlit("0");
        reveal_strlit("1");
        reveal_strlit("2");
        reveal_strlit("3");
        reveal_strlit("4");
        reveal_strlit("5");
        reveal_strlit("6");
        reveal_strlit("7");
        reveal_strlit("8");
        reveal_strlit("9");
    }
    let s: &'static str = match d {
        0 => "0",
        1 => "1",
        2 => "2",
        3 => "3",
        4 => "4",
        5 => "5",
        6 => "6",
        7 => "7",
        8 => "8",
        _ => "9",
    };
    assert(s@ =~= seq![digit_char(d as nat)]);
    s
}

/// The decimal numeral of `n`.
pub fn decimal_string(n: u128) -> (s: String)
    ensures
        s@ == decimal_text(n as nat),
    decreases n,
{
    if n < 10 {
        String::from_str(digit_str(n as u8))
    } else {
        let mut s: String = decimal_string(n / 10);
        s.append(digit_str((n % 10) as u8));
        s
    }
}

/// The last `places` decimal digits of `n`.
pub fn fraction_string(n: u128, places: u8) -> (s: String)
    ensures
        s@ == fraction_text(n as nat, places as nat),
    decreases places,
{
    if places == 0 {
        String::new()
    } else {
        let mut s: String = fraction_string(n / 10, places - 1);
        s.append(digit_str((n % 10) as u8));
        s
    }
}

/// The numeral of `n` with `places` digits after the point.
pub fn fixed_string(n: u128, places: u8) -> (s: String)
    ensures
        s@ == fixed_text(n as nat, places as nat),
{
    if places == 0 {
        decimal_string(n)
    } else {
        let mut whole: u128 = n;
        let mut left: u8 = places;
        while left > 0
            invariant
                whole_part(whole as nat, left as nat) == whole_part(n as nat, places as nat),
            decreases left,
        {
            whole = whole / 10;
            left = left - 1;
        }
        let mut s: String = decimal_string(whole);
        s.append(".");
        s.append(fraction_string(n, places).as_str());
        proof {
            reveal_strlit(".");
            assert("."@ =~= seq!['.']);
        }
        s
    }
}

} // verus!
