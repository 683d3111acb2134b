//! Verified decimal rendering: the digit strings that the disassembler and
//! the interpreter's diagnostics are built from.

use vstd::prelude::*;
use vstd::string::StringExecFns;

verus! {

/// The decimal digit character for `d` (meaningful for `d < 10`).
pub open spec fn digit_char(d: nat) -> char {
    if d == 0 {
        '0'
    } else if d == 1 {
        '1'
    } else if d == 2 {
        '2'
    } else if d == 3 {
        '3'
    } else if d == 4 {
        '4'
    } else if d == 5 {
        '5'
    } else if d == 6 {
        '6'
    } else if d == 7 {
        '7'
    } else if d == 8 {
        '8'
    } else {
        '9'
    }
}

/// The decimal digits of `n`, most significant first, with no leading zeros
/// (a single `'0'` for zero itself).
pub open spec fn dec_digits(n: nat) -> Seq<char>
    decreases n,
{
    if n < 10 {
        seq![digit_char(n)]
    } else {
        dec_digits(n / 10).push(digit_char(n % 10))
    }
}

/// `s` left-padded with `fill` to a field of width four; a longer `s` is
/// kept whole.
pub open spec fn pad4_left(s: Seq<char>, fill: char) -> Seq<char> {
    if s.len() >= 4 {
        s
    } else if s.len() == 3 {
        seq![fill] + s
    } else if s.len() == 2 {
        seq![fill, fill] + s
    } else if s.len() == 1 {
        seq![fill, fill, fill] + s
    } else {
        seq![fill, fill, fill, fill] + s
    }
}

/// The signed decimal rendering of `v`: a leading `'-'` for negative values.
pub open spec fn int_digits(v: int) -> Seq<char> {
    if v < 0 {
        seq!['-'] + dec_digits((-v) as nat)
    } else {
        dec_digits(v as nat)
    }
}

/// How many digits `dec_digits` produces over each decade.
pub proof fn lemma_dec_digits_len(n: nat)
    ensures
        n < 10 ==> dec_digits(n).len() == 1,
        10 <= n < 100 ==> dec_digits(n).len() == 2,
        100 <= n < 1000 ==> dec_digits(n).len() == 3,
        1000 <= n < 10000 ==> dec_digits(n).len() == 4,
        10000 <= n ==> dec_digits(n).len() >= 5,
    decreases n,
{
    if n >= 10 {
        lemma_dec_digits_len(n / 10);
    }
}

/// The one-character string for decimal digit `d`.
fn digit_str(d: u64) -> (s: &'static str)
    requires
        d < 10,
    ensures
        s@ == seq![digit_char(d as nat)],
{
    let s: &'static str = if d == 0 {
        "0"
    } else if d == 1 {
        "1"
    } else if d == 2 {
        "2"
    } else if d == 3 {
        "3"
    } else if d == 4 {
        "4"
    } else if d == 5 {
        "5"
    } else if d == 6 {
        "6"
    } else if d == 7 {
        "7"
    } else if d == 8 {
        "8"
    } else {
        "9"
    };
    proof {
        reveal_strlit("0");
        reveal_strlit("1");
        reveal_strlit("2");
        reveal_strlit("3");
        reveal_strlit("4");
        reveal_strlit("5");
        reveal_strlit("6");
        reveal_strlit("7");
        reveal_strlit("8");
        reveal_strlit("9");
        assert(s@ =~= seq![digit_char(d as nat)]);
    }
    s
}

/// The decimal rendering of `n`, without padding.
pub fn dec_string(n: u64) -> (s: String)
    ensures
        s@ == dec_digits(n as nat),
    decreases n,
{
    if n < 10 {
        String::from_str(digit_str(n))
    } else {
        let mut s = dec_string(n / 10);
        s.append(digit_str(n % 10));
        proof {
            assert(s@ =~= dec_digits(n as nat));
        }
        s
    }
}

/// The decimal rendering of `n`, right-aligned with spaces in a field of
/// width four.
pub fn dec_string_space4(n: u64) -> (s: String)
    ensures
        s@ == pad4_left(dec_digits(n as nat), ' '),
{
    proof {
        lemma_dec_digits_len(n as nat);
        reveal_strlit(" ");
        reveal_strlit("  ");
        reveal_strlit("   ");
    }
    let mut s: String = if n < 10 {
        String::from_str("   ")
    } else if n < 100 {
        String::from_str("  ")
    } else if n < 1000 {
        String::from_str(" ")
    } else {
        String::new()
    };
    let digits = dec_string(n);
    s.append(digits.as_str());
    proof {
        assert(s@ =~= pad4_left(dec_digits(n as nat), ' '));
    }
    s
}

/// The decimal rendering of `n`, zero-padded to a field of width four.
pub fn dec_string_zero4(n: u64) -> (s: String)
    ensures
        s@ == pad4_left(dec_digits(n as nat), '0'),
{
    proof {
        lemma_dec_digits_len(n as nat);
        reveal_strlit("0");
        reveal_strlit("00");
        reveal_strlit("000");
    }
    let mut s: String = if n < 10 {
        String::from_str("000")
    } else if n < 100 {
        String::from_str("00")
    } else if n < 1000 {
        String::from_str("0")
    } else {
        String::new()
    };
    let digits = dec_string(n);
    s.append(digits.as_str());
    proof {
        assert(s@ =~= pad4_left(dec_digits(n as nat), '0'));
    }
    s
}

/// The signed decimal rendering of `v`.
pub fn int_string(v: isize) -> (s: String)
    ensures
        s@ == int_digits(v as int),
{
    if v < 0 {
        let m: u64 = (-(v as i128)) as u64;
        proof {
            assert(m as nat == (-(v as int)) as nat);
        }
        let mut s = String::from_str("-");
        s.append(dec_string(m).as_str());
        proof {
            reveal_strlit("-");
            assert(s@ =~= int_digits(v as int));
        }
        s
    } else {
        dec_string(v as u64)
    }
}

} // verus!
