//! Decimal text of unsigned integers.

use vstd::prelude::*;
use vstd::string::StringExecFns;

verus! {

/// The character of a decimal digit.
pub open spec fn digit(d: nat) -> char {
    if d == 0 {
        '0'
    } else if d == 1 {
        '1'
    } else if d == 2 {
        '2'
    } else if d == 3 {
        '3'
    } else if d == 4 {
        '4'
    } else if d == 5 {
        '5'
    } else if d == 6 {
        '6'
    } else if d == 7 {
        '7'
    } else if d == 8 {
        '8'
    } else {
        '9'
    }
}

/// The decimal text of `n`: its digits from the most significant down,
/// with no sign and no leading zero (zero itself is `"0"`).
pub open spec fn decimal(n: nat) -> Seq<char>
    decreases n,
{
    if n < 10 {
        seq![digit(n)]
    } else {
        decimal(n / 10).push(digit(n % 10))
    }
}

/// The text of digits that were collected from the least significant up.
spec fn reversed_digits(digits: Seq<u8>) -> Seq<char> {
    Seq::new(digits.len(), |i: int| digit(digits[digits.len() - 1 - i] as nat))
}

fn digit_text(d: u8) -> (text: &'static str)
    requires
        d < 10,
    ensures
        text@ == seq![digit(d as nat)],
{
    proof {
        reveal_strlit("0");
        reveal_strlit("1");
        reveal_strlit("2");
        reveal_strlit("3");
        reveal_strlit("4");
        reveal_strlit("5");
        reveal_strlit("6");
        reveal_strlit("7");
        reveal_strlit("8");
        reveal_strlit("9");
    }
    let text: &'static str = if d == 0 {
        "0"
    } else if d == 1 {
        "1"
    } else if d == 2 {
        "2"
    } else if d == 3 {
        "3"
    } else if d == 4 {
        "4"
    } else if d == 5 {
        "5"
    } else if d == 6 {
        "6"
    } else if d == 7 {
        "7"
    } else if d == 8 {
        "8"
    } else {
        "9"
    };
    assert(text@ =~= seq![digit(d as nat)]);
    text
}

/// Writes `n` in decimal.
pub fn decimal_string(n: u128) -> (text: String)
    ensures
        text@ == decimal(n as nat),
{
    let mut digits: Vec<u8> = Vec::new();
    let mut rest: u128 = n;
    while rest >= 10
        invariant
            forall|i: int| 0 <= i < digits@.len() ==> (#[trigger] digits@[i]) < 10,
            decimal(n as nat) == decimal(rest as nat) + reversed_digits(digits@),
        decreases rest,
    {
        let low: u8 = (rest % 10) as u8;
        proof {
            let longer = digits@.push(low);
            assert(reversed_digits(longer) =~= seq![digit(low as nat)] + reversed_digits(
                digits@,
            ));
            assert(decimal(rest as nat) =~= decimal((rest / 10) as nat) + seq![
                digit(low as nat),
            ]);
            assert(decimal((rest / 10) as nat) + reversed_digits(longer) =~= decimal(rest as nat)
                + reversed_digits(digits@));
        }
        digits.push(low);
        rest = rest / 10;
    }
    let mut text: String = String::from_str(digit_text(rest as u8));
    let mut left: usize = digits.len();
    while left > 0
        invariant
            left <= digits@.len(),
            forall|i: int| 0 <= i < digits@.len() ==> (#[trigger] digits@[i]) < 10,
            text@ == decimal(rest as nat) + reversed_digits(digits@).subrange(
                0,
                digits@.len() - left,
            ),
        decreases left,
    {
        left = left - 1;
        let d: u8 = digits[left];
        proof {
            let all = reversed_digits(digits@);
            let done = digits@.len() - left - 1;
            assert(all.subrange(0, done + 1) =~= all.subrange(0, done) + seq![digit(d as nat)]);
        }
        text.append(digit_text(d));
    }
    assert(reversed_digits(digits@).subrange(0, digits@.len() as int) =~= reversed_digits(
        digits@,
    ));
    text
}

} // verus!
