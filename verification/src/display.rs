//! Decimal text for the fixed-point quantities of this library.

use crate::fixed::{div_round, magnitude, rounded_quotient};
use vstd::prelude::*;

verus! {

/// The character of a decimal digit.
pub open spec fn digit_char(d: int) -> char
    recommends
        0 <= d < 10,
{
    if d == 0 {
        '0'
    } else if d == 1 {
        '1'
    } else if d == 2 {
        '2'
    } else if d == 3 {
        '3'
    } else if d == 4 {
        '4'
    } else if d == 5 {
        '5'
    } else if d == 6 {
        '6'
    } else if d == 7 {
        '7'
    } else if d == 8 {
        '8'
    } else {
        '9'
    }
}

/// The decimal digits of `n`, most significant first, without leading
/// zeros; zero is the single digit `0`.
pub open spec fn digits_of(n: nat) -> Seq<char>
    decreases n,
{
    if n < 10 {
        seq![digit_char(n as int)]
    } else {
        digits_of(n / 10).push(digit_char((n % 10) as int))
    }
}

/// The last `count` decimal digits of `n`, most significant first, with
/// zeros in front where `n` has fewer digits.
pub open spec fn last_digits(n: nat, count: nat) -> Seq<char>
    decreases count,
{
    if count == 0 {
        Seq::empty()
    } else {
        last_digits(n / 10, (count - 1) as nat).push(digit_char((n % 10) as int))
    }
}

/// `n` without its last `count` decimal digits: `n` divided by ten to the
/// power `count`, rounded down.
pub open spec fn without_last_digits(n: nat, count: nat) -> nat
    decreases count,
{
    if count == 0 {
        n
    } else {
        without_last_digits(n / 10, (count - 1) as nat)
    }
}

/// The text of `value / 10^places` with exactly `places` digits after the
/// decimal point: a minus sign where `value` is negative, the digits of the
/// whole part, and, where `places` is not zero, a point and the fraction.
pub open spec fn decimal_text(value: int, places: nat) -> Seq<char> {
    let m = magnitude(value) as nat;
    let whole = digits_of(without_last_digits(m, places));
    let body = if places == 0 {
        whole
    } else {
        whole + seq!['.'] + last_digits(m, places)
    };
    if value < 0 {
        seq!['-'] + body
    } else {
        body
    }
}

/// [`decimal_text`] with a plus sign in front of a value that is not
/// negative.
pub open spec fn signed_decimal_text(value: int, places: nat) -> Seq<char> {
    if value < 0 {
        decimal_text(value, places)
    } else {
        seq!['+'] + decimal_text(value, places)
    }
}

/// The text of a percent change in hundredths of a percent: signed, with two
/// decimals and a percent sign; a dash where there is no change to show.
pub open spec fn change_text(change: Option<i128>) -> Seq<char> {
    match change {
        Some(c) => signed_decimal_text(c as int, 2) + seq!['%'],
        None => seq!['-'],
    }
}

/// The text of a price in hundredths, with two decimals; a dash where there
/// is no price to show.
pub open spec fn price_text(price: Option<i64>) -> Seq<char> {
    match price {
        Some(p) => decimal_text(p as int, 2),
        None => seq!['-'],
    }
}

/// The text of a quantity in hundredths: without decimals where it is a
/// whole number, and with two decimals otherwise.
pub open spec fn quantity_text(quantity: int) -> Seq<char> {
    if quantity % 100 == 0 {
        decimal_text(quantity / 100, 0)
    } else {
        decimal_text(quantity, 2)
    }
}

/// The text of a rate in millionths, rounded to four decimals.
pub open spec fn rate_text(rate_micros: u64) -> Seq<char> {
    decimal_text(div_round(rate_micros as int, 100), 4)
}

/// The text of an amount in whole units beside its currency code: the
/// amount with two decimals, a space, and the code.
pub open spec fn amount_text(amount: u64, code: Seq<char>) -> Seq<char> {
    decimal_text(amount * 100, 2) + seq![' '] + code
}

/// The value of a decimal digit character; zero for any other character.
pub open spec fn digit_value(c: char) -> nat {
    if c == '1' {
        1
    } else if c == '2' {
        2
    } else if c == '3' {
        3
    } else if c == '4' {
        4
    } else if c == '5' {
        5
    } else if c == '6' {
        6
    } else if c == '7' {
        7
    } else if c == '8' {
        8
    } else if c == '9' {
        9
    } else {
        0
    }
}

/// The number that a text of decimal digits denotes.
pub open spec fn number_of(digits: Seq<char>) -> nat
    decreases digits.len(),
{
    if digits.len() == 0 {
        0
    } else {
        number_of(digits.drop_last()) * 10 + digit_value(digits.last())
    }
}

/// Ten to the power `places`.
pub open spec fn power_of_ten(places: nat) -> nat
    decreases places,
{
    if places == 0 {
        1
    } else {
        10 * power_of_ten((places - 1) as nat)
    }
}

/// The digits of a number denote it.
pub proof fn lemma_digits_denote(n: nat)
    ensures
        number_of(digits_of(n)) == n,
    decreases n,
{
    if n < 10 {
        assert(digits_of(n).drop_last() =~= Seq::<char>::empty());
        assert(number_of(Seq::<char>::empty()) == 0);
    } else {
        lemma_digits_denote(n / 10);
        assert(digits_of(n).drop_last() =~= digits_of(n / 10));
    }
}

/// The last `count` digits of a number are `count` digits, and with the
/// number that is left without them they make up the number:
/// `n == without_last_digits(n, count) * 10^count + number_of(last_digits(n, count))`.
pub proof fn lemma_last_digits_denote(n: nat, count: nat)
    ensures
        last_digits(n, count).len() == count,
        number_of(last_digits(n, count)) < power_of_ten(count),
        n == without_last_digits(n, count) * power_of_ten(count) + number_of(
            last_digits(n, count),
        ),
    decreases count,
{
    if count > 0 {
        let rest = (count - 1) as nat;
        lemma_last_digits_denote(n / 10, rest);
        assert(last_digits(n, count).drop_last() =~= last_digits(n / 10, rest));
        let w = without_last_digits(n / 10, rest);
        let p = power_of_ten(rest);
        let f = number_of(last_digits(n / 10, rest));
        let d = n % 10;
        assert(digit_value(digit_char(d as int)) == d);
        assert(last_digits(n, count).last() == digit_char(d as int));
        assert(number_of(last_digits(n, count)) == f * 10 + d);
        assert(without_last_digits(n, count) == w);
        assert(power_of_ten(count) == 10 * p);
        assert(n == (n / 10) * 10 + d);
        assert(w * (10 * p) + (f * 10 + d) == (w * p + f) * 10 + d) by (nonlinear_arith);
    } else {
        assert(number_of(last_digits(n, 0)) == 0);
        assert(without_last_digits(n, 0) * power_of_ten(0) == n) by (nonlinear_arith)
            requires
                without_last_digits(n, 0) == n,
                power_of_ten(0) == 1,
        ;
    }
}

/// The text of a value denotes it: the digits before the point times
/// `10^places`, plus the digits after it, are the magnitude of the value,
/// and the text begins with a minus sign exactly where the value is
/// negative.
pub proof fn lemma_decimal_text_denotes(value: int, places: nat)
    ensures
        ({
            let m = magnitude(value) as nat;
            let whole = digits_of(without_last_digits(m, places));
            let fraction = last_digits(m, places);
            &&& m == number_of(whole) * power_of_ten(places) + number_of(fraction)
            &&& fraction.len() == places
            &&& decimal_text(value, places) == (if value < 0 {
                seq!['-']
            } else {
                Seq::<char>::empty()
            }) + whole + (if places == 0 {
                Seq::<char>::empty()
            } else {
                seq!['.'] + fraction
            })
        }),
{
    let m = magnitude(value) as nat;
    lemma_digits_denote(without_last_digits(m, places));
    lemma_last_digits_denote(m, places);
    let whole = digits_of(without_last_digits(m, places));
    let fraction = last_digits(m, places);
    let sign = if value < 0 {
        seq!['-']
    } else {
        Seq::<char>::empty()
    };
    let tail = if places == 0 {
        Seq::<char>::empty()
    } else {
        seq!['.'] + fraction
    };
    assert(decimal_text(value, places) =~= sign + whole + tail);
}

/// The digits held in `reversed`, least significant first, read as text.
spec fn text_of(reversed: Seq<u8>) -> Seq<char> {
    Seq::new(reversed.len(), |j: int| digit_char(reversed[reversed.len() - 1 - j] as int))
}

/// One digit as text.
fn digit_str(d: u8) -> (s: &'static str)
    requires
        d < 10,
    ensures
        s@ == seq![digit_char(d as int)],
{
    let s = match d {
        0 => "0",
        1 => "1",
        2 => "2",
        3 => "3",
        4 => "4",
        5 => "5",
        6 => "6",
        7 => "7",
        8 => "8",
        _ => "9",
    };
    proof {
        reveal_strlit("0");
        reveal_strlit("1");
        reveal_strlit("2");
        reveal_strlit("3");
        reveal_strlit("4");
        reveal_strlit("5");
        reveal_strlit("6");
        reveal_strlit("7");
        reveal_strlit("8");
        reveal_strlit("9");
        assert(s@ =~= seq![digit_char(d as int)]);
    }
    s
}

/// Appends to `out` the digits held in `reversed`, last one first.
fn append_digits(out: &mut String, reversed: &Vec<u8>)
    requires
        forall|j: int| 0 <= j < reversed.len() ==> reversed[j] < 10,
    ensures
        final(out)@ == old(out)@ + text_of(reversed@),
{
    let ghost start = out@;
    let n: usize = reversed.len();
    let mut left: usize = n;
    while left > 0
        invariant
            left <= n,
            n == reversed.len(),
            forall|j: int| 0 <= j < reversed.len() ==> reversed[j] < 10,
            out@ == start + text_of(reversed@).take(n - left),
        decreases left,
    {
        left -= 1;
        out.append(digit_str(reversed[left]));
        assert(text_of(reversed@).take(n - left) =~= text_of(reversed@).take(n - left - 1).push(
            digit_char(reversed[left as int] as int),
        ));
    }
    assert(text_of(reversed@).take(n as int) =~= text_of(reversed@));
}

/// Writes `value / 10^places` with exactly `places` digits after the
/// decimal point.
pub fn format_decimal(value: i128, places: u8) -> (text: String)
    ensures
        text@ == decimal_text(value as int, places as nat),
{
    let m0: u128 = if value < 0 {
        (-(value + 1)) as u128 + 1
    } else {
        value as u128
    };
    let mut m: u128 = m0;
    let mut fraction: Vec<u8> = Vec::new();
    let mut k: u8 = 0;
    while k < places
        invariant
            k <= places,
            fraction.len() == k,
            forall|j: int| 0 <= j < fraction.len() ==> fraction[j] < 10,
            last_digits(m0 as nat, places as nat) == last_digits(m as nat, (places - k) as nat)
                + text_of(fraction@),
            without_last_digits(m0 as nat, places as nat) == without_last_digits(
                m as nat,
                (places - k) as nat,
            ),
        decreases places - k,
    {
        let ghost before = fraction@;
        let d: u8 = (m % 10) as u8;
        fraction.push(d);
        proof {
            assert(text_of(fraction@) =~= seq![digit_char(d as int)] + text_of(before));
            assert(last_digits(m as nat, (places - k) as nat) + text_of(before) =~= last_digits(
                (m / 10) as nat,
                (places - k - 1) as nat,
            ) + text_of(fraction@));
        }
        m = m / 10;
        k += 1;
    }
    let ghost w0 = m;
    let mut whole: Vec<u8> = Vec::new();
    loop
        invariant_except_break
            forall|j: int| 0 <= j < whole.len() ==> whole[j] < 10,
            digits_of(w0 as nat) == digits_of(m as nat) + text_of(whole@),
        ensures
            forall|j: int| 0 <= j < whole.len() ==> whole[j] < 10,
            digits_of(w0 as nat) == text_of(whole@),
        decreases m,
    {
        let ghost before = whole@;
        let d: u8 = (m % 10) as u8;
        whole.push(d);
        proof {
            assert(text_of(whole@) =~= seq![digit_char(d as int)] + text_of(before));
        }
        if m < 10 {
            assert(digits_of(m as nat) + text_of(before) =~= text_of(whole@));
            break ;
        }
        proof {
            assert(digits_of(m as nat) + text_of(before) =~= digits_of((m / 10) as nat) + text_of(
                whole@,
            ));
        }
        m = m / 10;
    }
    let mut text = String::new();
    if value < 0 {
        text.append("-");
    }
    append_digits(&mut text, &whole);
    if places > 0 {
        text.append(".");
        append_digits(&mut text, &fraction);
    }
    proof {
        reveal_strlit("-");
        reveal_strlit(".");
        assert("-"@ =~= seq!['-']);
        assert("."@ =~= seq!['.']);
        assert(text_of(fraction@) =~= last_digits(m0 as nat, places as nat)) by {
            assert(last_digits(w0 as nat, 0) =~= Seq::<char>::empty());
        }
        assert(text@ =~= decimal_text(value as int, places as nat));
    }
    text
}

/// Writes `value / 10^places` as [`format_decimal`] does, with a plus sign
/// in front of a value that is not negative.
pub fn format_signed_decimal(value: i128, places: u8) -> (text: String)
    ensures
        text@ == signed_decimal_text(value as int, places as nat),
{
    let body = format_decimal(value, places);
    if value < 0 {
        body
    } else {
        let mut text = String::new();
        text.append("+");
        text.append(body.as_str());
        proof {
            reveal_strlit("+");
            assert("+"@ =~= seq!['+']);
            assert(text@ =~= signed_decimal_text(value as int, places as nat));
        }
        text
    }
}

/// Writes a percent change for display: `+11.11%` for a change of `1111`,
/// and a dash for none.
pub fn format_change(change: Option<i128>) -> (text: String)
    ensures
        text@ == change_text(change),
{
    match change {
        Some(c) => {
            let mut text = format_signed_decimal(c, 2);
            text.append("%");
            proof {
                reveal_strlit("%");
                assert("%"@ =~= seq!['%']);
            }
            text
        },
        None => {
            let mut text = String::new();
            text.append("-");
            proof {
                reveal_strlit("-");
                assert(text@ =~= seq!['-']);
            }
            text
        },
    }
}

/// Writes a price in hundredths for display: `42.50` for `4250`, and a dash
/// for none.
pub fn format_price(price: Option<i64>) -> (text: String)
    ensures
        text@ == price_text(price),
{
    match price {
        Some(p) => format_decimal(p as i128, 2),
        None => {
            let mut text = String::new();
            text.append("-");
            proof {
                reveal_strlit("-");
                assert(text@ =~= seq!['-']);
            }
            text
        },
    }
}

/// Writes a quantity in hundredths for display: `3` for `300`, and `2.50`
/// for `250`.
pub fn format_quantity(quantity: i128) -> (text: String)
    ensures
        text@ == quantity_text(quantity as int),
{
    let m: u128 = if quantity < 0 {
        (-(quantity + 1)) as u128 + 1
    } else {
        quantity as u128
    };
    if m % 100 == 0 {
        let whole: i128 = (m / 100) as i128;
        if quantity < 0 {
            format_decimal(-whole, 0)
        } else {
            format_decimal(whole, 0)
        }
    } else {
        format_decimal(quantity, 2)
    }
}

/// Writes a rate in millionths for display, rounded to four decimals:
/// `1.0900` for `1_090_000`.
pub fn format_rate(rate_micros: u64) -> (text: String)
    ensures
        text@ == rate_text(rate_micros),
{
    format_decimal(rounded_quotient(rate_micros as i128, 100), 4)
}

/// Writes an amount in whole units beside its currency code: `109.00 USD`.
pub fn format_amount(amount: u64, code: &str) -> (text: String)
    ensures
        text@ == amount_text(amount, code@),
{
    let mut text = format_decimal(amount as i128 * 100, 2);
    text.append(" ");
    text.append(code);
    proof {
        reveal_strlit(" ");
        assert(" "@ =~= seq![' ']);
    }
    text
}

} // verus!
