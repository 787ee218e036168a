//! Numbers and tuples as text.

use vstd::prelude::*;
use vstd::string::StringExecFns;

verus! {

/// The character for a digit below ten.
pub open spec fn digit_char(d: int) -> char {
    "0123456789"@[d]
}

/// A natural number in decimal, without leading zeros.
pub open spec fn decimal(n: nat) -> Seq<char>
    decreases n,
{
    if n < 10 {
        seq![digit_char(n as int)]
    } else {
        decimal(n / 10).push(digit_char((n % 10) as int))
    }
}

/// A number of tenths as a decimal fraction with one place: 607 is `60.7`.
pub open spec fn one_decimal(tenths: nat) -> Seq<char> {
    decimal(tenths / 10) + "."@ + decimal(tenths % 10)
}

/// Three items in round brackets, separated by a comma and a space.
pub open spec fn triple_text(a: Seq<char>, b: Seq<char>, c: Seq<char>) -> Seq<char> {
    "("@ + a + ", "@ + b + ", "@ + c + ")"@
}

/// Four items in round brackets, separated by a comma and a space.
pub open spec fn quad_text(a: Seq<char>, b: Seq<char>, c: Seq<char>, d: Seq<char>) -> Seq<
    char,
> {
    "("@ + a + ", "@ + b + ", "@ + c + ", "@ + d + ")"@
}

/// The character for a digit is a decimal digit, as far above `0` as the
/// digit is above zero.
pub proof fn lemma_digit_char(d: int)
    requires
        0 <= d < 10,
    ensures
        '0' <= digit_char(d) <= '9',
        digit_char(d) as int - '0' as int == d,
{
    reveal_strlit("0123456789");
}

/// The text of one digit.
fn digit_text(d: u32) -> (s: &'static str)
    requires
        d < 10,
    ensures
        s@ == seq![digit_char(d as int)],
{
    proof {
        reveal_strlit("0123456789");
        reveal_strlit("0");
        reveal_strlit("1");
        reveal_strlit("2");
        reveal_strlit("3");
        reveal_strlit("4");
        reveal_strlit("5");
        reveal_strlit("6");
        reveal_strlit("7");
        reveal_strlit("8");
        reveal_strlit("9");
    }
    let s: &'static str = match d {
        0 => "0",
        1 => "1",
        2 => "2",
        3 => "3",
        4 => "4",
        5 => "5",
        6 => "6",
        7 => "7",
        8 => "8",
        _ => "9",
    };
    assert(s@ =~= seq![digit_char(d as int)]);
    s
}

/// Appends `n` in decimal to `out`.
pub fn push_decimal(out: &mut String, n: u32)
    ensures
        final(out)@ == old(out)@ + decimal(n as nat),
    decreases n,
{
    if n >= 10 {
        push_decimal(out, n / 10);
    }
    out.append(digit_text(n % 10));
    assert(out@ =~= old(out)@ + decimal(n as nat));
}

/// Appends a number of tenths to `out` as a decimal fraction with one place.
pub fn push_one_decimal(out: &mut String, tenths: u32)
    ensures
        final(out)@ == old(out)@ + one_decimal(tenths as nat),
{
    push_decimal(out, tenths / 10);
    out.append(".");
    push_decimal(out, tenths % 10);
    assert(out@ =~= old(out)@ + one_decimal(tenths as nat));
}

} // verus!
