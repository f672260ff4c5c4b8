use vstd::prelude::*;
use vstd::string::StringExecFns;

verus! {

/// The character for one decimal digit.
pub open spec fn digit_char(d: int) -> char {
    if d == 0 {
        '0'
    } else if d == 1 {
        '1'
    } else if d == 2 {
        '2'
    } else if d == 3 {
        '3'
    } else if d == 4 {
        '4'
    } else if d == 5 {
        '5'
    } else if d == 6 {
        '6'
    } else if d == 7 {
        '7'
    } else if d == 8 {
        '8'
    } else {
        '9'
    }
}

/// The decimal digits of a nonnegative number, most significant first, with
/// no leading zeroes (zero itself renders as a single `'0'`).
pub open spec fn dec_digits(n: int) -> Seq<char>
    recommends
        n >= 0,
    decreases n,
{
    if n < 10 {
        seq![digit_char(n)]
    } else {
        dec_digits(n / 10) + seq![digit_char(n % 10)]
    }
}

/// The decimal rendering of an integer: its digits, preceded by a minus
/// sign when it is negative.
pub open spec fn int_str(n: int) -> Seq<char> {
    if n < 0 {
        seq!['-'] + dec_digits(-n)
    } else {
        dec_digits(n)
    }
}

/// The digits of `ds` read back to front, as characters: `ds` collects the
/// digits of a number least significant first, and this is the number as
/// written.
spec fn rev_digit_chars(ds: Seq<u64>) -> Seq<char> {
    Seq::new(ds.len(), |i: int| digit_char(ds[ds.len() - 1 - i] as int))
}

fn push_digit(s: &mut String, d: u64)
    requires
        d < 10,
    ensures
        final(s)@ == old(s)@ + seq![digit_char(d as int)],
{
    if d == 0 {
        proof {
            reveal_strlit("0");
            assert("0"@ =~= seq![digit_char(0)]);
        }
        s.append("0");
    } else if d == 1 {
        proof {
            reveal_strlit("1");
            assert("1"@ =~= seq![digit_char(1)]);
        }
        s.append("1");
    } else if d == 2 {
        proof {
            reveal_strlit("2");
            assert("2"@ =~= seq![digit_char(2)]);
        }
        s.append("2");
    } else if d == 3 {
        proof {
            reveal_strlit("3");
            assert("3"@ =~= seq![digit_char(3)]);
        }
        s.append("3");
    } else if d == 4 {
        proof {
            reveal_strlit("4");
            assert("4"@ =~= seq![digit_char(4)]);
        }
        s.append("4");
    } else if d == 5 {
        proof {
            reveal_strlit("5");
            assert("5"@ =~= seq![digit_char(5)]);
        }
        s.append("5");
    } else if d == 6 {
        proof {
            reveal_strlit("6");
            assert("6"@ =~= seq![digit_char(6)]);
        }
        s.append("6");
    } else if d == 7 {
        proof {
            reveal_strlit("7");
            assert("7"@ =~= seq![digit_char(7)]);
        }
        s.append("7");
    } else if d == 8 {
        proof {
            reveal_strlit("8");
            assert("8"@ =~= seq![digit_char(8)]);
        }
        s.append("8");
    } else {
        proof {
            reveal_strlit("9");
            assert("9"@ =~= seq![digit_char(9)]);
        }
        s.append("9");
    }
}

/// Renders a nonnegative number in decimal.
pub fn u64_to_string(n: u64) -> (s: String)
    ensures
        s@ == dec_digits(n as int),
{
    let mut digits: Vec<u64> = Vec::new();
    let mut m: u64 = n;
    digits.push(m % 10);
    m = m / 10;
    proof {
        assert(rev_digit_chars(digits@) =~= seq![digit_char(n as int % 10)]);
        if n < 10 {
            assert(dec_digits(n as int) =~= rev_digit_chars(digits@));
        } else {
            assert(dec_digits(n as int) =~= dec_digits(m as int) + rev_digit_chars(digits@));
        }
    }
    while m > 0
        invariant
            forall|k: int| 0 <= k < digits@.len() ==> digits@[k] < 10,
            digits@.len() >= 1,
            dec_digits(n as int) == (if m == 0 {
                Seq::<char>::empty()
            } else {
                dec_digits(m as int)
            }) + rev_digit_chars(digits@),
        decreases m,
    {
        let d = m % 10;
        let ghost prev = digits@;
        let ghost m0 = m;
        digits.push(d);
        m = m / 10;
        proof {
            assert(rev_digit_chars(digits@) =~= seq![digit_char(d as int)] + rev_digit_chars(
                prev,
            ));
            if m0 < 10 {
                assert(dec_digits(m0 as int) == seq![digit_char(m0 as int)]);
                assert(dec_digits(n as int) =~= rev_digit_chars(digits@));
            } else {
                assert(dec_digits(m0 as int) == dec_digits(m as int) + seq![
                    digit_char(m0 as int % 10),
                ]);
                assert(dec_digits(n as int) =~= dec_digits(m as int) + rev_digit_chars(digits@));
            }
        }
    }
    let mut s = String::new();
    let total = digits.len();
    let mut i: usize = total;
    while i > 0
        invariant
            total == digits@.len(),
            0 <= i <= total,
            forall|k: int| 0 <= k < digits@.len() ==> digits@[k] < 10,
            s@ == rev_digit_chars(digits@).take(total - i),
        decreases i,
    {
        push_digit(&mut s, digits[i - 1]);
        proof {
            assert(rev_digit_chars(digits@).take(total - (i - 1)) =~= rev_digit_chars(
                digits@,
            ).take(total - i) + seq![digit_char(digits@[i - 1] as int)]);
        }
        i = i - 1;
    }
    proof {
        assert(rev_digit_chars(digits@).take(total as int) =~= rev_digit_chars(digits@));
    }
    s
}

/// Renders a signed number in decimal, with a leading minus sign when it is
/// negative.
pub fn i64_to_string(n: i64) -> (s: String)
    ensures
        s@ == int_str(n as int),
{
    if n >= 0 {
        u64_to_string(n as u64)
    } else {
        let mag: u64 = ((-(n + 1)) as u64) + 1;
        proof {
            assert(mag as int == -(n as int));
        }
        let mut s = String::from_str("-");
        let digs = u64_to_string(mag);
        s.append(digs.as_str());
        proof {
            reveal_strlit("-");
            assert("-"@ =~= seq!['-']);
            assert(s@ =~= int_str(n as int));
        }
        s
    }
}

} // verus!
