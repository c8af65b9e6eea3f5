//! Decimal rendering of unsigned cost values, used when a collapsed stack
//! line is terminated by its numeric cost.

use vstd::prelude::*;
use vstd::string::StrSliceExecFns;
use vstd::string::StringExecFns;

verus! {

/// The character for one decimal digit.
pub open spec fn digit_char(d: nat) -> char {
    if d == 0 {
        '0'
    } else if d == 1 {
        '1'
    } else if d == 2 {
        '2'
    } else if d == 3 {
        '3'
    } else if d == 4 {
        '4'
    } else if d == 5 {
        '5'
    } else if d == 6 {
        '6'
    } else if d == 7 {
        '7'
    } else if d == 8 {
        '8'
    } else {
        '9'
    }
}

/// The decimal rendering of a natural number, most significant digit first,
/// with no leading zeros (except for the number zero itself).
pub open spec fn dec_of(n: nat) -> Seq<char>
    decreases n,
{
    if n < 10 {
        seq![digit_char(n)]
    } else {
        dec_of(n / 10) + seq![digit_char(n % 10)]
    }
}

fn digit_str(d: u64) -> (r: &'static str)
    requires
        d < 10,
    ensures
        r@ == seq![digit_char(d as nat)],
{
    proof {
        reveal_strlit("0");
        reveal_strlit("1");
        reveal_strlit("2");
        reveal_strlit("3");
        reveal_strlit("4");
        reveal_strlit("5");
        reveal_strlit("6");
        reveal_strlit("7");
        reveal_strlit("8");
        reveal_strlit("9");
    }
    let r = match d {
        0 => "0",
        1 => "1",
        2 => "2",
        3 => "3",
        4 => "4",
        5 => "5",
        6 => "6",
        7 => "7",
        8 => "8",
        _ => "9",
    };
    proof {
        assert(r@ =~= seq![digit_char(d as nat)]);
    }
    r
}

/// Every character of a decimal rendering is a digit, and a number of ten
/// or more renders with at least two of them.
pub proof fn lemma_dec_of_digits(n: nat)
    ensures
        dec_of(n).len() >= 1,
        n >= 10 ==> dec_of(n).len() >= 2,
        forall|j: int|
            0 <= j < dec_of(n).len() ==> 48 <= (#[trigger] dec_of(n)[j]) as u32 <= 57,
    decreases n,
{
    if n >= 10 {
        lemma_dec_of_digits(n / 10);
    }
}

/// Distinct numbers render to distinct decimal texts.
pub proof fn lemma_dec_of_injective(a: nat, b: nat)
    requires
        dec_of(a) == dec_of(b),
    ensures
        a == b,
    decreases a + b,
{
    lemma_dec_of_digits(a);
    lemma_dec_of_digits(b);
    if a < 10 && b < 10 {
        assert(dec_of(a)[0] == dec_of(b)[0]);
        assert(dec_of(a)[0] == digit_char(a));
        assert(dec_of(b)[0] == digit_char(b));
    } else if a < 10 || b < 10 {
        assert(false);
    } else {
        assert(dec_of(a).last() == dec_of(b).last());
        assert(dec_of(a).last() == digit_char(a % 10));
        assert(dec_of(b).last() == digit_char(b % 10));
        assert(a % 10 == b % 10);
        assert(dec_of(a).drop_last() =~= dec_of(a / 10));
        assert(dec_of(b).drop_last() =~= dec_of(b / 10));
        lemma_dec_of_injective(a / 10, b / 10);
        assert(a == (a / 10) * 10 + a % 10);
        assert(b == (b / 10) * 10 + b % 10);
    }
}

/// Renders `n` in decimal.
pub fn u64_string(n: u64) -> (r: String)
    ensures
        r@ == dec_of(n as nat),
    decreases n,
{
    if n < 10 {
        digit_str(n).to_owned()
    } else {
        let mut r = u64_string(n / 10);
        r.append(digit_str(n % 10));
        proof {
            assert(r@ =~= dec_of(n as nat));
        }
        r
    }
}

} // verus!
