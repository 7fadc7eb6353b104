//! Decimal rendering of machine integers, used by the AST display
//! helpers and by the execution driver's output lines.
use vstd::prelude::*;

verus! {

/// The decimal digit character for `d` (`0` maps to `'0'`, ..., `9` to `'9'`).
pub open spec fn digit_char(d: nat) -> char
    recommends
        d < 10,
{
    "0123456789"@[d as int]
}

/// The decimal rendering of a natural number, most significant digit first,
/// with no leading zeros (a single `'0'` for zero).
pub open spec fn decimal_chars(n: nat) -> Seq<char>
    decreases n,
{
    if n < 10 {
        seq![digit_char(n)]
    } else {
        decimal_chars(n / 10).push(digit_char(n % 10))
    }
}

/// The decimal rendering of a signed number: a leading `'-'` for negatives.
pub open spec fn signed_chars(n: int) -> Seq<char> {
    if n >= 0 {
        decimal_chars(n as nat)
    } else {
        seq!['-'] + decimal_chars((-n) as nat)
    }
}

/// Renders one decimal digit as a string.
fn digit_string(d: u64) -> (s: String)
    requires
        d < 10,
    ensures
        s@ == seq![digit_char(d as nat)],
{
    proof {
        reveal_strlit("0123456789");
    }
    let lit = "0123456789";
    let piece = lit.substring_char(d as usize, d as usize + 1);
    proof {
        assert(piece@ =~= seq![digit_char(d as nat)]);
    }
    piece.to_owned()
}

/// Renders an unsigned machine integer in decimal.
pub fn decimal_string(n: u64) -> (s: String)
    ensures
        s@ == decimal_chars(n as nat),
    decreases n,
{
    if n < 10 {
        digit_string(n)
    } else {
        let mut s = decimal_string(n / 10);
        let d = digit_string(n % 10);
        s.append(d.as_str());
        proof {
            assert(s@ =~= decimal_chars(n as nat));
        }
        s
    }
}

/// Renders a signed machine integer in decimal.
pub fn signed_string(n: i64) -> (s: String)
    ensures
        s@ == signed_chars(n as int),
{
    if n >= 0 {
        decimal_string(n as u64)
    } else {
        let mag: u64 = if n == i64::MIN {
            9223372036854775808u64
        } else {
            (-n) as u64
        };
        proof {
            reveal_strlit("-");
        }
        let mut s = "-".to_owned();
        let d = decimal_string(mag);
        s.append(d.as_str());
        proof {
            assert(s@ =~= signed_chars(n as int));
        }
        s
    }
}

} // verus!
