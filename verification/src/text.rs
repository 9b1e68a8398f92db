//! Text: numbers in decimal, and texts joined.
use vstd::arithmetic::power;
use vstd::prelude::*;
use vstd::string::*;

verus! {

/// `String::from` on a string slice: the string holds the same characters.
pub assume_specification<'a>[ <String as From<&'a str>>::from ](slice: &str) -> (string: String)
    ensures
        string@ == slice@,
;

/// The character of a decimal digit.
pub open spec fn digit(d: nat) -> char
    recommends
        d < 10,
{
    (48 + d) as char
}

/// `n` in decimal, without leading zeros.
pub open spec fn decimal(n: nat) -> Seq<char>
    decreases n,
{
    if n < 10 {
        seq![digit(n)]
    } else {
        decimal(n / 10).push(digit(n % 10))
    }
}

/// `n` in decimal, with a leading minus sign where it is negative.
pub open spec fn signed_decimal(n: int) -> Seq<char> {
    if n < 0 {
        seq!['-'] + decimal((-n) as nat)
    } else {
        decimal(n as nat)
    }
}

/// The text of one decimal digit.
fn digit_text(d: u64) -> (text: &'static str)
    requires
        d < 10,
    ensures
        text@ == seq![digit(d as nat)],
{
    proof {
        reveal_strlit("0");
        reveal_strlit("1");
        reveal_strlit("2");
        reveal_strlit("3");
        reveal_strlit("4");
        reveal_strlit("5");
        reveal_strlit("6");
        reveal_strlit("7");
        reveal_strlit("8");
        reveal_strlit("9");
    }
    let text = match d {
        0 => "0",
        1 => "1",
        2 => "2",
        3 => "3",
        4 => "4",
        5 => "5",
        6 => "6",
        7 => "7",
        8 => "8",
        _ => "9",
    };
    assert(text@ =~= seq![digit(d as nat)]);
    text
}

/// `n` as decimal text.
pub fn decimal_text(n: u64) -> (text: String)
    ensures
        text@ == decimal(n as nat),
    decreases n,
{
    if n < 10 {
        String::from(digit_text(n))
    } else {
        let mut text = decimal_text(n / 10);
        text.append(digit_text(n % 10));
        assert(text@ =~= decimal(n as nat));
        text
    }
}

/// `n` as decimal text, signed.
pub fn signed_decimal_text(n: i64) -> (text: String)
    ensures
        text@ == signed_decimal(n as int),
{
    if n < 0 {
        let magnitude: u64 = (-(n as i128)) as u64;
        let mut text = String::from("-");
        text.append(decimal_text(magnitude).as_str());
        proof {
            reveal_strlit("-");
        }
        assert(text@ =~= signed_decimal(n as int));
        text
    } else {
        decimal_text(n as u64)
    }
}

/// The text `prefix` followed by `rest`.
pub fn joined(prefix: &str, rest: &str) -> (text: String)
    ensures
        text@ == prefix@ + rest@,
{
    let mut text = String::from(prefix);
    text.append(rest);
    text
}

/// Each digit of a number in decimal is its digit at that place, counted from
/// the right, and there are as many digits as the number has: no more, so no
/// leading zeros, and no fewer.
pub proof fn decimal_digits_stand_at_their_places(n: nat, place: nat)
    ensures
        decimal(n).len() >= 1,
        n < power::pow(10, decimal(n).len()),
        decimal(n).len() == 1 || n >= power::pow(10, (decimal(n).len() - 1) as nat),
        place < decimal(n).len() ==> decimal(n)[decimal(n).len() - 1 - place] as int - '0' as int
            == (n as int / power::pow(10, place)) % 10,
    decreases n,
{
    power::lemma_pow0(10);
    power::lemma_pow1(10);
    if n >= 10 {
        let m = n / 10;
        let shorter = decimal(m);
        decimal_digits_stand_at_their_places(m, if place > 0 { (place - 1) as nat } else { 0 });
        power::lemma_pow_adds(10, 1, shorter.len());
        if shorter.len() > 1 {
            power::lemma_pow_adds(10, 1, (shorter.len() - 1) as nat);
        }
        assert(n < 10 * (m + 1) && n >= 10 * m);
        assert(n < power::pow(10, shorter.len() + 1));
        if place > 0 {
            let rest = (place - 1) as nat;
            power::lemma_pow_adds(10, 1, rest);
            power::lemma_pow_positive(10, rest);
            vstd::arithmetic::div_mod::lemma_div_denominator(n as int, 10, power::pow(10, rest));
            assert(n as int / power::pow(10, place) == m as int / power::pow(10, rest));
        } else {
            vstd::arithmetic::div_mod::lemma_div_by_self(1);
            assert(n as int / 1 == n);
        }
    } else if place == 0 {
        assert(n as int / 1 == n);
    }
}

/// A negative number is written as a minus sign and its magnitude, any other
/// number as its magnitude alone.
pub proof fn only_negative_numbers_have_a_sign(n: int)
    ensures
        n >= 0 ==> signed_decimal(n) == decimal(n as nat),
        n < 0 ==> signed_decimal(n).len() > 0 && signed_decimal(n)[0] == '-'
            && signed_decimal(n).drop_first() == decimal((-n) as nat),
{
    if n < 0 {
        assert(signed_decimal(n).drop_first() =~= decimal((-n) as nat));
    }
}

} // verus!
