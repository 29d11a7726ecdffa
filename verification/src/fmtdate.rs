//! Formatting a calendar date as `YYYY-MM-DD`, fully specified.

use vstd::prelude::*;

verus! {

pub open spec fn digit_char(d: int) -> char {
    if d == 0 {
        '0'
    } else if d == 1 {
        '1'
    } else if d == 2 {
        '2'
    } else if d == 3 {
        '3'
    } else if d == 4 {
        '4'
    } else if d == 5 {
        '5'
    } else if d == 6 {
        '6'
    } else if d == 7 {
        '7'
    } else if d == 8 {
        '8'
    } else {
        '9'
    }
}

/// The decimal digits of `n`, most significant first, no leading zeros.
pub open spec fn dec_digits(n: nat) -> Seq<char>
    decreases n,
{
    if n < 10 {
        seq![digit_char(n as int)]
    } else {
        dec_digits(n / 10).push(digit_char((n % 10) as int))
    }
}

/// A number below 100 printed with exactly two digits.
pub open spec fn two_digit(n: int) -> Seq<char> {
    seq![digit_char(n / 10), digit_char(n % 10)]
}

/// A non-negative year, zero-padded to at least four digits.
pub open spec fn year_label_nonneg(y: int) -> Seq<char>
    recommends
        y >= 0,
{
    if y < 10 {
        seq!['0', '0', '0'] + dec_digits(y as nat)
    } else if y < 100 {
        seq!['0', '0'] + dec_digits(y as nat)
    } else if y < 1000 {
        seq!['0'] + dec_digits(y as nat)
    } else {
        dec_digits(y as nat)
    }
}

pub open spec fn year_label(y: int) -> Seq<char> {
    if y < 0 {
        seq!['-'] + year_label_nonneg(-y)
    } else {
        year_label_nonneg(y)
    }
}

/// The date label `YYYY-MM-DD` used to bucket daily activity.
pub open spec fn date_label(y: int, m: int, d: int) -> Seq<char> {
    year_label(y) + seq!['-'] + two_digit(m) + seq!['-'] + two_digit(d)
}

fn digit_str(d: u32) -> (r: &'static str)
    requires
        d < 10,
    ensures
        r@ == seq![digit_char(d as int)],
{
    if d == 0 {
        proof {
            reveal_strlit("0");
            assert("0"@ =~= seq![digit_char(0)]);
        }
        "0"
    } else if d == 1 {
        proof {
            reveal_strlit("1");
            assert("1"@ =~= seq![digit_char(1)]);
        }
        "1"
    } else if d == 2 {
        proof {
            reveal_strlit("2");
            assert("2"@ =~= seq![digit_char(2)]);
        }
        "2"
    } else if d == 3 {
        proof {
            reveal_strlit("3");
            assert("3"@ =~= seq![digit_char(3)]);
        }
        "3"
    } else if d == 4 {
        proof {
            reveal_strlit("4");
            assert("4"@ =~= seq![digit_char(4)]);
        }
        "4"
    } else if d == 5 {
        proof {
            reveal_strlit("5");
            assert("5"@ =~= seq![digit_char(5)]);
        }
        "5"
    } else if d == 6 {
        proof {
            reveal_strlit("6");
            assert("6"@ =~= seq![digit_char(6)]);
        }
        "6"
    } else if d == 7 {
        proof {
            reveal_strlit("7");
            assert("7"@ =~= seq![digit_char(7)]);
        }
        "7"
    } else if d == 8 {
        proof {
            reveal_strlit("8");
            assert("8"@ =~= seq![digit_char(8)]);
        }
        "8"
    } else {
        proof {
            reveal_strlit("9");
            assert("9"@ =~= seq![digit_char(9)]);
        }
        "9"
    }
}

fn push_decimal(out: &mut String, n: u32)
    ensures
        final(out)@ == old(out)@ + dec_digits(n as nat),
    decreases n,
{
    if n >= 10 {
        push_decimal(out, n / 10);
        out.append(digit_str(n % 10));
        proof {
            assert(dec_digits(n as nat) == dec_digits((n as nat) / 10).push(
                digit_char(((n as nat) % 10) as int),
            ));
            assert((n / 10) as nat == (n as nat) / 10);
            assert(dec_digits((n as nat) / 10).push(digit_char(((n as nat) % 10) as int))
                =~= dec_digits((n as nat) / 10) + seq![digit_char((n % 10) as int)]);
        }
    } else {
        out.append(digit_str(n));
    }
}

fn push_two_digits(out: &mut String, n: u32)
    requires
        n < 100,
    ensures
        final(out)@ == old(out)@ + two_digit(n as int),
{
    out.append(digit_str(n / 10));
    out.append(digit_str(n % 10));
    proof {
        assert(old(out)@ + seq![digit_char(n as int / 10)] + seq![digit_char(n as int % 10)]
            =~= old(out)@ + two_digit(n as int));
    }
}

/// Formats a calendar date as `YYYY-MM-DD`: the year zero-padded to four
/// digits (more digits or a leading minus only outside 0..=9999), month and
/// day always two digits.
pub fn format_date(y: i32, m: u32, d: u32) -> (r: String)
    requires
        m < 100,
        d < 100,
    ensures
        r@ == date_label(y as int, m as int, d as int),
{
    let mut out = String::new();
    let ya: i64 = y as i64;
    let yabs: u32 = if ya < 0 {
        out.append("-");
        proof {
            reveal_strlit("-");
            assert(Seq::<char>::empty() + "-"@ =~= seq!['-']);
        }
        (-ya) as u32
    } else {
        y as u32
    };
    let ghost mark = out@;
    if yabs < 10 {
        out.append("000");
        proof {
            reveal_strlit("000");
            assert(mark + "000"@ =~= mark + seq!['0', '0', '0']);
        }
    } else if yabs < 100 {
        out.append("00");
        proof {
            reveal_strlit("00");
            assert(mark + "00"@ =~= mark + seq!['0', '0']);
        }
    } else if yabs < 1000 {
        out.append("0");
        proof {
            reveal_strlit("0");
            assert(mark + "0"@ =~= mark + seq!['0']);
        }
    }
    push_decimal(&mut out, yabs);
    proof {
        assert(out@ =~= year_label(y as int));
    }
    out.append("-");
    proof {
        reveal_strlit("-");
        assert(year_label(y as int) + "-"@ =~= year_label(y as int) + seq!['-']);
    }
    push_two_digits(&mut out, m);
    out.append("-");
    push_two_digits(&mut out, d);
    proof {
        assert(out@ =~= date_label(y as int, m as int, d as int));
    }
    out
}

} // verus!
