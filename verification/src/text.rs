//! Small verified text utilities: string comparison and decimal formatting.

use vstd::prelude::*;

verus! {

/// The decimal digit character for `d` in `0 .. 10`.
pub open spec fn digit_char(d: int) -> char {
    if d == 0 {
        '0'
    } else if d == 1 {
        '1'
    } else if d == 2 {
        '2'
    } else if d == 3 {
        '3'
    } else if d == 4 {
        '4'
    } else if d == 5 {
        '5'
    } else if d == 6 {
        '6'
    } else if d == 7 {
        '7'
    } else if d == 8 {
        '8'
    } else {
        '9'
    }
}

/// The decimal text of a nonnegative integer, without sign or padding.
pub open spec fn dec_digits(n: int) -> Seq<char>
    recommends
        n >= 0,
    decreases n,
{
    if n < 10 {
        seq![digit_char(if n < 0 { 0 } else { n })]
    } else {
        dec_digits(n / 10).push(digit_char(n % 10))
    }
}

/// The decimal text of an integer: a `-` sign for negative values, then the digits.
pub open spec fn int_dec(i: int) -> Seq<char> {
    if i < 0 {
        seq!['-'] + dec_digits(-i)
    } else {
        dec_digits(i)
    }
}

/// Compares two strings character by character.
pub fn str_eq(a: &str, b: &str) -> (r: bool)
    ensures
        r == (a@ == b@),
{
    let la = a.unicode_len();
    let lb = b.unicode_len();
    if la != lb {
        return false;
    }
    let mut i: usize = 0;
    while i < la
        invariant
            la == a@.len(),
            la == b@.len(),
            i <= la,
            forall|j: int| 0 <= j < i ==> a@[j] == b@[j],
        decreases la - i,
    {
        if a.get_char(i) != b.get_char(i) {
            return false;
        }
        i = i + 1;
    }
    proof {
        assert(a@ =~= b@);
    }
    true
}

/// The one-character string for a decimal digit.
fn digit_str(d: u64) -> (r: &'static str)
    requires
        d < 10,
    ensures
        r@ == seq![digit_char(d as int)],
{
    match d {
        0 => {
            let s = "0";
            proof {
                reveal_strlit("0");
                assert(s@ =~= seq![digit_char(0)]);
            }
            s
        },
        1 => {
            let s = "1";
            proof {
                reveal_strlit("1");
                assert(s@ =~= seq![digit_char(1)]);
            }
            s
        },
        2 => {
            let s = "2";
            proof {
                reveal_strlit("2");
                assert(s@ =~= seq![digit_char(2)]);
            }
            s
        },
        3 => {
            let s = "3";
            proof {
                reveal_strlit("3");
                assert(s@ =~= seq![digit_char(3)]);
            }
            s
        },
        4 => {
            let s = "4";
            proof {
                reveal_strlit("4");
                assert(s@ =~= seq![digit_char(4)]);
            }
            s
        },
        5 => {
            let s = "5";
            proof {
                reveal_strlit("5");
                assert(s@ =~= seq![digit_char(5)]);
            }
            s
        },
        6 => {
            let s = "6";
            proof {
                reveal_strlit("6");
                assert(s@ =~= seq![digit_char(6)]);
            }
            s
        },
        7 => {
            let s = "7";
            proof {
                reveal_strlit("7");
                assert(s@ =~= seq![digit_char(7)]);
            }
            s
        },
        8 => {
            let s = "8";
            proof {
                reveal_strlit("8");
                assert(s@ =~= seq![digit_char(8)]);
            }
            s
        },
        _ => {
            let s = "9";
            proof {
                reveal_strlit("9");
                assert(s@ =~= seq![digit_char(9)]);
            }
            s
        },
    }
}

/// The decimal text of a `u64`.
pub fn u64_dec(n: u64) -> (r: String)
    ensures
        r@ == dec_digits(n as int),
    decreases n,
{
    if n < 10 {
        String::from_str(digit_str(n))
    } else {
        let mut s = u64_dec(n / 10);
        s.append(digit_str(n % 10));
        proof {
            assert(s@ =~= dec_digits(n as int / 10).push(digit_char(n as int % 10)));
        }
        s
    }
}

/// The decimal text of an `i64`, with a `-` sign for negative values.
pub fn i64_dec(i: i64) -> (r: String)
    ensures
        r@ == int_dec(i as int),
{
    if i >= 0 {
        u64_dec(i as u64)
    } else {
        let m: u64 = (-(i as i128)) as u64;
        proof {
            assert(m as int == -(i as int));
        }
        let mut s = String::from_str("-");
        proof {
            reveal_strlit("-");
            assert(s@ =~= seq!['-']);
        }
        s.append(u64_dec(m).as_str());
        s
    }
}

} // verus!
