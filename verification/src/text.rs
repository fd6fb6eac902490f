//! Numbers as text.

use vstd::prelude::*;
use vstd::string::StringExecFns;

verus! {

/// The character of a decimal digit.
pub open spec fn digit(d: nat) -> char {
    if d == 0 {
        '0'
    } else if d == 1 {
        '1'
    } else if d == 2 {
        '2'
    } else if d == 3 {
        '3'
    } else if d == 4 {
        '4'
    } else if d == 5 {
        '5'
    } else if d == 6 {
        '6'
    } else if d == 7 {
        '7'
    } else if d == 8 {
        '8'
    } else {
        '9'
    }
}

/// A number in decimal digits, without leading zeros.
pub open spec fn decimal(n: nat) -> Seq<char>
    decreases n,
{
    if n < 10 {
        seq![digit(n)]
    } else {
        decimal(n / 10).push(digit(n % 10))
    }
}

/// A number in decimal digits, with a minus sign where it is negative.
pub open spec fn signed_decimal(n: int) -> Seq<char> {
    if n < 0 {
        seq!['-'] + decimal((-n) as nat)
    } else {
        decimal(n as nat)
    }
}

/// A fee rate in satoshis per virtual byte: the thousands as a whole number,
/// then, where the rest is not 0, a point and the rest in up to three digits
/// without zeros at the end.
pub open spec fn rate_text(rate: nat) -> Seq<char> {
    let whole = decimal(rate / 1000);
    let rest = rate % 1000;
    if rest == 0 {
        whole
    } else if rest % 100 == 0 {
        whole + seq!['.', digit(rest / 100)]
    } else if rest % 10 == 0 {
        whole + seq!['.', digit(rest / 100), digit((rest / 10) % 10)]
    } else {
        whole + seq!['.', digit(rest / 100), digit((rest / 10) % 10), digit(rest % 10)]
    }
}

fn digit_text(d: u64) -> (s: &'static str)
    requires
        d < 10,
    ensures
        s@ == seq![digit(d as nat)],
{
    proof {
        reveal_strlit("0");
        reveal_strlit("1");
        reveal_strlit("2");
        reveal_strlit("3");
        reveal_strlit("4");
        reveal_strlit("5");
        reveal_strlit("6");
        reveal_strlit("7");
        reveal_strlit("8");
        reveal_strlit("9");
    }
    let s = if d == 0 {
        "0"
    } else if d == 1 {
        "1"
    } else if d == 2 {
        "2"
    } else if d == 3 {
        "3"
    } else if d == 4 {
        "4"
    } else if d == 5 {
        "5"
    } else if d == 6 {
        "6"
    } else if d == 7 {
        "7"
    } else if d == 8 {
        "8"
    } else {
        "9"
    };
    assert(s@ =~= seq![digit(d as nat)]);
    s
}

/// Writes a number in decimal digits behind what the text holds.
pub fn push_decimal(out: &mut String, n: u64)
    ensures
        final(out)@ == old(out)@ + decimal(n as nat),
    decreases n,
{
    if n >= 10 {
        push_decimal(out, n / 10);
    }
    out.append(digit_text(n % 10));
    assert(out@ =~= old(out)@ + decimal(n as nat));
}

/// Writes a number in decimal digits, with its sign where it is negative,
/// behind what the text holds.
pub fn push_signed(out: &mut String, n: i64)
    ensures
        final(out)@ == old(out)@ + signed_decimal(n as int),
{
    if n < 0 {
        proof {
            reveal_strlit("-");
        }
        out.append("-");
        let magnitude: i128 = 0 - (n as i128);
        push_decimal(out, magnitude as u64);
        assert(out@ =~= old(out)@ + signed_decimal(n as int));
    } else {
        push_decimal(out, n as u64);
    }
}

/// Writes a fee rate in satoshis per virtual byte behind what the text holds.
pub fn push_rate(out: &mut String, rate: u64)
    ensures
        final(out)@ == old(out)@ + rate_text(rate as nat),
{
    push_decimal(out, rate / 1000);
    let rest = rate % 1000;
    if rest != 0 {
        proof {
            reveal_strlit(".");
        }
        out.append(".");
        out.append(digit_text(rest / 100));
        if rest % 100 != 0 {
            out.append(digit_text((rest / 10) % 10));
            if rest % 10 != 0 {
                out.append(digit_text(rest % 10));
            }
        }
    }
    assert(out@ =~= old(out)@ + rate_text(rate as nat));
}

} // verus!
