//! Decimal rendering of nonnegative integers, used for image headers and
//! diagnostics.

use vstd::prelude::*;
use vstd::string::StringExecFns;

verus! {

/// The character for one decimal digit.
pub open spec fn digit_char(d: int) -> char {
    if d == 0 {
        '0'
    } else if d == 1 {
        '1'
    } else if d == 2 {
        '2'
    } else if d == 3 {
        '3'
    } else if d == 4 {
        '4'
    } else if d == 5 {
        '5'
    } else if d == 6 {
        '6'
    } else if d == 7 {
        '7'
    } else if d == 8 {
        '8'
    } else {
        '9'
    }
}

/// The digits of a positive number, most significant first; empty for zero.
pub open spec fn dec_digits(n: int) -> Seq<char>
    decreases n,
{
    if n <= 0 {
        Seq::empty()
    } else {
        dec_digits(n / 10) + seq![digit_char(n % 10)]
    }
}

/// The usual decimal writing of a nonnegative number.
pub open spec fn dec_str(n: int) -> Seq<char> {
    if n == 0 {
        seq!['0']
    } else {
        dec_digits(n)
    }
}

/// One decimal digit as a string slice.
fn digit_str(d: usize) -> (r: &'static str)
    requires
        d < 10,
    ensures
        r@ == seq![digit_char(d as int)],
{
    proof {
        reveal_strlit("0");
        reveal_strlit("1");
        reveal_strlit("2");
        reveal_strlit("3");
        reveal_strlit("4");
        reveal_strlit("5");
        reveal_strlit("6");
        reveal_strlit("7");
        reveal_strlit("8");
        reveal_strlit("9");
    }
    let r: &'static str = if d == 0 {
        "0"
    } else if d == 1 {
        "1"
    } else if d == 2 {
        "2"
    } else if d == 3 {
        "3"
    } else if d == 4 {
        "4"
    } else if d == 5 {
        "5"
    } else if d == 6 {
        "6"
    } else if d == 7 {
        "7"
    } else if d == 8 {
        "8"
    } else {
        "9"
    };
    proof {
        assert(r@ =~= seq![digit_char(d as int)]);
    }
    r
}

/// The bytes of ASCII text, one per character.
pub open spec fn ascii_bytes(s: Seq<char>) -> Seq<u8> {
    Seq::new(s.len(), |i: int| s[i] as u8)
}

/// Append the decimal writing of a number, as bytes.
pub fn push_dec_bytes(out: &mut Vec<u8>, n: usize)
    ensures
        final(out)@ == old(out)@ + ascii_bytes(dec_str(n as int)),
    decreases n,
{
    if n < 10 {
        out.push(48 + n as u8);
        proof {
            if n > 0 {
                assert(dec_digits((n as int) / 10) =~= Seq::<char>::empty());
            }
            assert(ascii_bytes(dec_str(n as int)) =~= seq![(48 + n) as u8]);
        }
    } else {
        push_dec_bytes(out, n / 10);
        out.push(48 + (n % 10) as u8);
        proof {
            assert(dec_str((n as int) / 10) == dec_digits((n as int) / 10));
            assert(ascii_bytes(dec_str(n as int)) =~= ascii_bytes(dec_str((n as int) / 10))
                + seq![(48 + n % 10) as u8]);
            assert(out@ =~= old(out)@ + ascii_bytes(dec_str(n as int)));
        }
    }
}

/// Write a number in decimal.
pub fn usize_to_string(n: usize) -> (r: String)
    ensures
        r@ == dec_str(n as int),
    decreases n,
{
    if n < 10 {
        let mut s = String::new();
        s.append(digit_str(n));
        proof {
            assert(s@ =~= dec_str(n as int)) by {
                if n > 0 {
                    assert(dec_digits((n as int) / 10) =~= Seq::<char>::empty());
                }
            }
        }
        s
    } else {
        let mut s = usize_to_string(n / 10);
        s.append(digit_str(n % 10));
        proof {
            assert(dec_str((n as int) / 10) == dec_digits((n as int) / 10));
            assert(s@ =~= dec_str(n as int));
        }
        s
    }
}

} // verus!
