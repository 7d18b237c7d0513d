//! Comparing and joining text.

use vstd::prelude::*;
use vstd::string::{StringExecFns, StringSliceAdditionalSpecFns};

verus! {

/// Whether `a` and `b` are the same text.
pub fn str_eq(a: &str, b: &str) -> (r: bool)
    ensures
        r == (a@ == b@),
{
    let x = a.as_bytes();
    let y = b.as_bytes();
    proof {
        vstd::utf8::encode_utf8_decode_utf8(a@);
        vstd::utf8::encode_utf8_decode_utf8(b@);
    }
    if x.len() != y.len() {
        return false;
    }
    let mut i: usize = 0;
    while i < x.len()
        invariant
            x@ == a.spec_bytes(),
            y@ == b.spec_bytes(),
            x@.len() == y@.len(),
            i <= x@.len(),
            x@.take(i as int) == y@.take(i as int),
        decreases x@.len() - i,
    {
        if x[i] != y[i] {
            assert(x@[i as int] != y@[i as int]);
            assert(x@ != y@);
            return false;
        }
        i = i + 1;
        assert(x@.take(i as int) =~= y@.take(i as int));
    }
    assert(x@ =~= x@.take(x@.len() as int));
    assert(y@ =~= y@.take(y@.len() as int));
    true
}

/// The text `a`, then `sep`, then `b`.
pub(crate) fn join3(a: &str, sep: &str, b: &str) -> (r: String)
    ensures
        r@ == a@ + sep@ + b@,
{
    let mut r = String::from_str(a);
    r.append(sep);
    r.append(b);
    r
}

/// A copy of each text of `v`, in order.
pub fn clone_strings(v: &[String]) -> (out: Vec<String>)
    ensures
        out@ == v@,
{
    let mut out: Vec<String> = Vec::with_capacity(v.len());
    let mut i: usize = 0;
    while i < v.len()
        invariant
            i <= v@.len(),
            out@ == v@.take(i as int),
        decreases v@.len() - i,
    {
        out.push(v[i].clone());
        i = i + 1;
        assert(out@ =~= v@.take(i as int));
    }
    assert(v@.take(v@.len() as int) =~= v@);
    out
}

/// The character of the decimal digit `d`.
pub open spec fn digit_char(d: nat) -> char {
    if d == 0 { '0' } else if d == 1 { '1' } else if d == 2 { '2' } else if d == 3 { '3' }
    else if d == 4 { '4' } else if d == 5 { '5' } else if d == 6 { '6' } else if d == 7 { '7' }
    else if d == 8 { '8' } else { '9' }
}

/// The decimal digits of `n`, without leading zeros.
pub open spec fn decimal(n: nat) -> Seq<char>
    decreases n,
{
    if n < 10 {
        seq![digit_char(n)]
    } else {
        decimal(n / 10) + seq![digit_char(n % 10)]
    }
}

/// The numbers of `bs` in decimal, separated by a comma and a space.
pub open spec fn byte_list(bs: Seq<u8>) -> Seq<char>
    decreases bs.len(),
{
    if bs.len() == 0 {
        Seq::empty()
    } else if bs.len() == 1 {
        decimal(bs[0] as nat)
    } else {
        byte_list(bs.drop_last()) + seq![',', ' '] + decimal(bs.last() as nat)
    }
}

/// The debug text of a list of bytes, as `std` writes it: the list in square brackets.
pub open spec fn bytes_debug_text(bs: Seq<u8>) -> Seq<char> {
    seq!['['] + byte_list(bs) + seq![']']
}

/// The text of the decimal digit `d`.
pub(crate) fn digit_str_of(d: u8) -> (s: &'static str)
    requires
        d < 10,
    ensures
        s@ == seq![digit_char(d as nat)],
{
    proof {
        reveal_strlit("0");
        reveal_strlit("1");
        reveal_strlit("2");
        reveal_strlit("3");
        reveal_strlit("4");
        reveal_strlit("5");
        reveal_strlit("6");
        reveal_strlit("7");
        reveal_strlit("8");
        reveal_strlit("9");
    }
    match d {
        0 => "0",
        1 => "1",
        2 => "2",
        3 => "3",
        4 => "4",
        5 => "5",
        6 => "6",
        7 => "7",
        8 => "8",
        _ => "9",
    }
}

/// Appends the decimal digits of `n`.
fn push_decimal(s: &mut String, n: u8)
    ensures
        final(s)@ == old(s)@ + decimal(n as nat),
{
    proof {
        reveal_with_fuel(decimal, 3);
    }
    if n >= 100 {
        s.append(digit_str_of(n / 100));
        assert((n / 10) as nat / 10 == n / 100);
    }
    if n >= 10 {
        s.append(digit_str_of((n / 10) % 10));
    }
    s.append(digit_str_of(n % 10));
    proof {
        if n >= 100 {
            assert(decimal((n / 10) as nat) == seq![digit_char((n / 100) as nat)] + seq![digit_char(((n / 10) % 10) as nat)]);
        }
        assert(s@ =~= old(s)@ + decimal(n as nat));
    }
}

/// The debug text of a list of bytes, as `std` writes it: each byte in decimal,
/// separated by a comma and a space, in square brackets.
pub fn bytes_debug(bs: &[u8]) -> (s: String)
    ensures
        s@ == bytes_debug_text(bs@),
{
    proof {
        reveal_strlit("[");
        reveal_strlit("]");
        reveal_strlit(", ");
    }
    let mut s = String::from_str("[");
    let mut i: usize = 0;
    while i < bs.len()
        invariant
            i <= bs@.len(),
            s@ == seq!['['] + byte_list(bs@.take(i as int)),
        decreases bs@.len() - i,
    {
        let ghost before = s@;
        let ghost t = bs@.take(i + 1);
        assert(t.drop_last() =~= bs@.take(i as int));
        assert(t.last() == bs@[i as int]);
        if i > 0 {
            proof {
                reveal_strlit(", ");
            }
            s.append(", ");
        }
        push_decimal(&mut s, bs[i]);
        proof {
            if i == 0 {
                assert(bs@.take(0) =~= Seq::<u8>::empty());
                assert(byte_list(t) == decimal(bs@[0] as nat));
            }
            assert(s@ =~= seq!['['] + byte_list(t));
        }
        i = i + 1;
    }
    proof {
        reveal_strlit("]");
    }
    s.append("]");
    assert(bs@.take(bs@.len() as int) =~= bs@);
    assert(s@ =~= bytes_debug_text(bs@));
    s
}

} // verus!
