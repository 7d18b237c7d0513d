//! Error messages that quote a number.

use vstd::prelude::*;
use vstd::string::StringExecFns;

use crate::utils::text::{digit_str_of, decimal};

verus! {

/// The decimal text of `n`, with a minus sign when it is negative.
pub open spec fn int_text(n: int) -> Seq<char> {
    if n < 0 {
        seq!['-'] + decimal((-n) as nat)
    } else {
        decimal(n as nat)
    }
}

/// Appends the decimal digits of `m`.
fn push_decimal_u64(s: &mut String, m: u64)
    ensures
        final(s)@ == old(s)@ + decimal(m as nat),
    decreases m,
{
    if m >= 10 {
        push_decimal_u64(s, m / 10);
    }
    s.append(digit_str_of((m % 10) as u8));
    proof {
        assert(final(s)@ =~= old(s)@ + decimal(m as nat)) by {
            assert(m < 10 ==> decimal(m as nat) == seq![crate::utils::text::digit_char(m as nat)]);
        }
    }
}

/// The text `prefix`, the decimal text of `n`, then `suffix`.
pub(crate) fn number_message(prefix: &str, n: i64, suffix: &str) -> (s: String)
    ensures
        s@ == prefix@ + int_text(n as int) + suffix@,
{
    let mut s = String::from_str(prefix);
    let ghost p = s@;
    if n < 0 {
        proof {
            reveal_strlit("-");
        }
        s.append("-");
        let m: u64 = if n == i64::MIN {
            9223372036854775808u64
        } else {
            (-n) as u64
        };
        push_decimal_u64(&mut s, m);
    } else {
        push_decimal_u64(&mut s, n as u64);
    }
    s.append(suffix);
    assert(s@ =~= prefix@ + int_text(n as int) + suffix@);
    s
}

} // verus!
