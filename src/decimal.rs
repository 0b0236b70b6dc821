use vstd::prelude::*;
use vstd::string::*;

verus! {

/// The character of the decimal digit `d` (`0 <= d < 10`).
pub open spec fn digit_char(d: int) -> char {
    "0123456789"@[d]
}

/// The decimal digits of `n`, most significant first, with no leading zero.
pub open spec fn decimal(n: nat) -> Seq<char>
    decreases n,
{
    if n < 10 {
        seq![digit_char(n as int)]
    } else {
        decimal(n / 10).push(digit_char((n % 10) as int))
    }
}

/// Appends the decimal digits of `n` to `out`.
pub fn push_decimal(out: &mut String, n: u32)
    ensures
        final(out)@ == old(out)@ + decimal(n as nat),
    decreases n,
{
    let digits: &str = "0123456789";
    proof {
        reveal_strlit("0123456789");
    }
    let d: u32 = n % 10;
    if n >= 10 {
        push_decimal(out, n / 10);
    }
    let digit: &str = digits.substring_char(d as usize, d as usize + 1);
    out.append(digit);
    assert(digit@ =~= seq![digit_char(d as int)]);
    assert(decimal(n as nat) == if n < 10 {
        seq![digit_char(d as int)]
    } else {
        decimal((n / 10) as nat).push(digit_char(d as int))
    });
    assert(out@ =~= old(out)@ + decimal(n as nat));
}

} // verus!
