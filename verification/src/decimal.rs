//! Decimal text of integers, as `Display` writes them: the digits with no
//! leading zeros, and a minus sign before negative numbers.
use vstd::prelude::*;

verus! {

/// The character of the decimal digit `d` (for `0 <= d < 10`).
pub open spec fn digit_char(d: int) -> char {
    if d == 0 {
        '0'
    } else if d == 1 {
        '1'
    } else if d == 2 {
        '2'
    } else if d == 3 {
        '3'
    } else if d == 4 {
        '4'
    } else if d == 5 {
        '5'
    } else if d == 6 {
        '6'
    } else if d == 7 {
        '7'
    } else if d == 8 {
        '8'
    } else {
        '9'
    }
}

/// The decimal digits of `n`, most significant first, with no leading zeros
/// (`"0"` for zero).
pub open spec fn nat_text(n: nat) -> Seq<char>
    decreases n,
{
    if n < 10 {
        seq![digit_char(n as int)]
    } else {
        nat_text(n / 10).push(digit_char((n % 10) as int))
    }
}

/// The decimal text of `n`: a minus sign before the digits of `|n|` when `n` is negative.
pub open spec fn int_text(n: int) -> Seq<char> {
    if n < 0 {
        seq!['-'] + nat_text((-n) as nat)
    } else {
        nat_text(n as nat)
    }
}

/// The one-character text of the digit `d`.
fn digit_text(d: u64) -> (s: &'static str)
    requires
        d < 10,
    ensures
        s@ == seq![digit_char(d as int)],
{
    proof {
        reveal_strlit("0");
        reveal_strlit("1");
        reveal_strlit("2");
        reveal_strlit("3");
        reveal_strlit("4");
        reveal_strlit("5");
        reveal_strlit("6");
        reveal_strlit("7");
        reveal_strlit("8");
        reveal_strlit("9");
    }
    if d == 0 {
        "0"
    } else if d == 1 {
        "1"
    } else if d == 2 {
        "2"
    } else if d == 3 {
        "3"
    } else if d == 4 {
        "4"
    } else if d == 5 {
        "5"
    } else if d == 6 {
        "6"
    } else if d == 7 {
        "7"
    } else if d == 8 {
        "8"
    } else {
        "9"
    }
}

/// Append the decimal digits of `n` to `out`.
pub(crate) fn append_u64(out: &mut String, n: u64)
    ensures
        final(out)@ == old(out)@ + nat_text(n as nat),
    decreases n,
{
    if n >= 10 {
        append_u64(out, n / 10);
    }
    out.append(digit_text(n % 10));
    proof {
        if n >= 10 {
            assert(old(out)@ + nat_text((n / 10) as nat) + seq![digit_char((n % 10) as int)]
                =~= old(out)@ + nat_text((n / 10) as nat).push(digit_char((n % 10) as int)));
        } else {
            assert(n % 10 == n);
        }
    }
}

/// Append the decimal text of `n` to `out`.
pub(crate) fn append_i32(out: &mut String, n: i32)
    ensures
        final(out)@ == old(out)@ + int_text(n as int),
{
    if n < 0 {
        out.append("-");
        let magnitude: i64 = -(n as i64);
        append_u64(out, magnitude as u64);
        proof {
            reveal_strlit("-");
            assert(old(out)@ + "-"@ + nat_text((-n) as nat) =~= old(out)@ + (seq!['-'] + nat_text(
                (-n) as nat,
            )));
        }
    } else {
        append_u64(out, n as u64);
    }
}

/// Append the decimal digits of `n` to `out`.
pub(crate) fn append_usize(out: &mut String, n: usize)
    ensures
        final(out)@ == old(out)@ + nat_text(n as nat),
{
    append_u64(out, n as u64);
}

} // verus!
