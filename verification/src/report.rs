//! The report: one line per account.

use vstd::arithmetic::div_mod::lemma_div_denominator;
use vstd::prelude::*;
use vstd::string::StringExecFns;
use crate::account::Account;
use crate::account::account_views;
use crate::account::AccountView;
use crate::amount::amount_of;
use crate::amount::exponent_of;
use crate::amount::fraction_of;
use crate::amount::is_mantissa;
use crate::amount::lemma_four_digits;
use crate::amount::lemma_mantissa_parts;
use crate::amount::mantissa_of;
use crate::amount::pow10;
use crate::amount::shifted;
use crate::amount::whole_of;
use crate::text::all_digits;
use crate::text::decimal_value;
use crate::text::digit_value;
use crate::text::is_digit;
use crate::text::texts;
use crate::text::unsigned_of;
use crate::text::without_plus;

verus! {

/// The character of a decimal digit.
pub open spec fn digit_char(digit: nat) -> char
    recommends
        digit < 10,
{
    ('0' as nat + digit) as char
}

/// A whole number in decimal digits, without leading zeros.
pub open spec fn decimal_text(number: nat) -> Seq<char>
    decreases number,
{
    if number < 10 {
        seq![digit_char(number)]
    } else {
        decimal_text(number / 10).push(digit_char(number % 10))
    }
}

/// An amount with exactly four decimal places.
pub open spec fn amount_text(units: nat) -> Seq<char> {
    decimal_text(units / 10_000) + seq![
        '.',
        digit_char(units / 1000 % 10),
        digit_char(units / 100 % 10),
        digit_char(units / 10 % 10),
        digit_char(units % 10),
    ]
}

/// The first line of a report.
pub open spec fn header_text() -> Seq<char> {
    "client,available,held,total,locked"@
}

/// The report line of an account: the client, the available, held and total
/// amounts, and whether the account is locked, with commas between them.
pub open spec fn row_text(account: AccountView) -> Seq<char> {
    decimal_text(account.client_id as nat) + seq![','] + amount_text(account.available) + seq![
        ',',
    ] + amount_text(account.held) + seq![','] + amount_text(account.total()) + seq![','] + (
    if account.locked {
        "true"@
    } else {
        "false"@
    })
}

/// The report of a list of accounts: the header, then one line per account,
/// in the order of the list.
pub open spec fn report_text(accounts: Seq<AccountView>) -> Seq<Seq<char>> {
    seq![header_text()] + accounts.map_values(|account: AccountView| row_text(account))
}

/// A digit's character is a digit and stands for it.
pub proof fn lemma_digit_char(digit: nat)
    requires
        digit < 10,
    ensures
        is_digit(digit_char(digit)),
        digit_value(digit_char(digit)) == digit,
        digit_char(digit) != '.',
        digit_char(digit) != '+',
{
}

/// A number's decimal text is made of digits, at least one, and writes the
/// number.
pub proof fn lemma_decimal_text(number: nat)
    ensures
        decimal_text(number).len() > 0,
        all_digits(decimal_text(number)),
        decimal_value(decimal_text(number)) == number,
    decreases number,
{
    if number < 10 {
        lemma_digit_char(number);
        let text = seq![digit_char(number)];
        assert(text.drop_last() == Seq::<char>::empty());
        assert(decimal_value(text.drop_last()) == 0);
    } else {
        lemma_decimal_text(number / 10);
        lemma_digit_char(number % 10);
        let head = decimal_text(number / 10);
        let text = head.push(digit_char(number % 10));
        assert(text.drop_last() == head);
        assert forall|i: int| 0 <= i < text.len() implies is_digit(#[trigger] text[i]) by {
            if i < head.len() {
                assert(text[i] == head[i]);
            }
        }
    }
}

/// What is written is read back: the decimal text of a number writes that
/// number.
pub proof fn lemma_decimal_text_is_read_back(number: nat, max: nat)
    requires
        number <= max,
    ensures
        unsigned_of(decimal_text(number), max) == Some(number),
{
    lemma_decimal_text(number);
    assert(is_digit(decimal_text(number)[0]));
}

/// An amount is its whole units and its four decimal places.
pub proof fn lemma_places_make_amount(units: nat)
    ensures
        units == (units / 10_000) * 10_000 + (units / 1000 % 10) * 1000 + (units / 100 % 10) * 100
            + (units / 10 % 10) * 10 + units % 10,
{
    let tens = units / 10;
    let hundreds = units / 100;
    let thousands = units / 1000;
    assert(tens / 10 == hundreds) by {
        lemma_div_denominator(units as int, 10, 10);
    }
    assert(hundreds / 10 == thousands) by {
        lemma_div_denominator(units as int, 100, 10);
    }
    assert(thousands / 10 == units / 10_000) by {
        lemma_div_denominator(units as int, 1000, 10);
    }
    assert(units == tens * 10 + units % 10);
    assert(tens == hundreds * 10 + tens % 10);
    assert(hundreds == thousands * 10 + hundreds % 10);
    assert(thousands == (units / 10_000) * 10 + thousands % 10);
}

/// A text of digits, a point and four digits is read as those digits before
/// the point and those four after it, with no exponent.
pub proof fn lemma_parts_of_amount_text(head: Seq<char>, fraction: Seq<char>)
    requires
        head.len() > 0,
        all_digits(head),
        fraction.len() == 4,
        all_digits(fraction),
    ensures
        without_plus(head + seq!['.'] + fraction) == head + seq!['.'] + fraction,
        whole_of(mantissa_of(head + seq!['.'] + fraction)) == head,
        fraction_of(mantissa_of(head + seq!['.'] + fraction)) == fraction,
        exponent_of(head + seq!['.'] + fraction) == Some(0int),
{
    let text = head + seq!['.'] + fraction;
    let point = head.len() as int;
    assert(text[0] == head[0]);
    assert(is_digit(head[0]));
    assert(without_plus(text) == text);
    assert forall|k: int| 0 <= k < point implies is_digit(#[trigger] text[k]) by {
        assert(text[k] == head[k]);
    }
    assert forall|k: int| point + 1 <= k < text.len() implies is_digit(#[trigger] text[k]) by {
        assert(text[k] == fraction[k - point - 1]);
    }
    assert(text[point] == '.');
    assert(is_mantissa(text, point, point + 1, text.len() as int));
    lemma_mantissa_parts(text, point, point + 1, text.len() as int);
    assert(text.subrange(0, point) == head);
    assert(text.subrange(point + 1, text.len() as int) == fraction);
}

/// Digits before four more digits count ten thousand times.
pub proof fn lemma_value_before_four_digits(head: Seq<char>, a: char, b: char, c: char, d: char)
    ensures
        decimal_value(head + seq![a, b, c, d]) == decimal_value(head) * 10_000 + decimal_value(
            seq![a, b, c, d],
        ),
{
    let s1 = head + seq![a];
    let s2 = head + seq![a, b];
    let s3 = head + seq![a, b, c];
    let s4 = head + seq![a, b, c, d];
    assert(s1.drop_last() == head);
    assert(s2.drop_last() == s1);
    assert(s3.drop_last() == s2);
    assert(s4.drop_last() == s3);
    assert(decimal_value(s1) == decimal_value(head) * 10 + digit_value(a));
    assert(decimal_value(s2) == decimal_value(s1) * 10 + digit_value(b));
    assert(decimal_value(s3) == decimal_value(s2) * 10 + digit_value(c));
    assert(decimal_value(s4) == decimal_value(s3) * 10 + digit_value(d));
    lemma_four_digits(a, b, c, d);
}

/// What is written is read back: the text of an amount writes that amount.
pub proof fn lemma_amount_text_is_read_back(units: nat)
    requires
        units <= u64::MAX,
    ensures
        amount_of(amount_text(units)) == Some(units),
{
    let head = decimal_text(units / 10_000);
    let d3 = digit_char(units / 1000 % 10);
    let d2 = digit_char(units / 100 % 10);
    let d1 = digit_char(units / 10 % 10);
    let d0 = digit_char(units % 10);
    let fraction = seq![d3, d2, d1, d0];
    lemma_decimal_text(units / 10_000);
    lemma_digit_char(units / 1000 % 10);
    lemma_digit_char(units / 100 % 10);
    lemma_digit_char(units / 10 % 10);
    lemma_digit_char(units % 10);
    assert(amount_text(units) == head + seq!['.'] + fraction);
    lemma_parts_of_amount_text(head, fraction);
    lemma_value_before_four_digits(head, d3, d2, d1, d0);
    lemma_four_digits(d3, d2, d1, d0);
    lemma_places_make_amount(units);
    assert(pow10(0) == 1);
    assert(shifted(decimal_value(head + fraction), 0) == decimal_value(head + fraction));
}

fn digit_text(digit: u64) -> (text: &'static str)
    requires
        digit < 10,
    ensures
        text@ == seq![digit_char(digit as nat)],
{
    proof {
        reveal_strlit("0");
        reveal_strlit("1");
        reveal_strlit("2");
        reveal_strlit("3");
        reveal_strlit("4");
        reveal_strlit("5");
        reveal_strlit("6");
        reveal_strlit("7");
        reveal_strlit("8");
        reveal_strlit("9");
    }
    let text = if digit == 0 {
        "0"
    } else if digit == 1 {
        "1"
    } else if digit == 2 {
        "2"
    } else if digit == 3 {
        "3"
    } else if digit == 4 {
        "4"
    } else if digit == 5 {
        "5"
    } else if digit == 6 {
        "6"
    } else if digit == 7 {
        "7"
    } else if digit == 8 {
        "8"
    } else {
        "9"
    };
    assert(text@ =~= seq![digit_char(digit as nat)]);
    text
}

/// Writes a whole number in decimal digits.
pub fn format_unsigned(number: u64) -> (text: String)
    ensures
        text@ == decimal_text(number as nat),
    decreases number,
{
    if number < 10 {
        String::from_str(digit_text(number))
    } else {
        let mut text = format_unsigned(number / 10);
        text.append(digit_text(number % 10));
        text
    }
}

/// Writes an amount with exactly four decimal places.
pub fn format_amount(units: u64) -> (text: String)
    ensures
        text@ == amount_text(units as nat),
{
    proof {
        reveal_strlit(".");
    }
    let mut text = format_unsigned(units / 10_000);
    text.append(".");
    text.append(digit_text(units / 1000 % 10));
    text.append(digit_text(units / 100 % 10));
    text.append(digit_text(units / 10 % 10));
    text.append(digit_text(units % 10));
    assert(text@ =~= amount_text(units as nat));
    text
}

/// The first line of a report.
pub fn header() -> (text: String)
    ensures
        text@ == header_text(),
{
    String::from_str("client,available,held,total,locked")
}

/// The report line of an account.
pub fn row(account: &Account) -> (text: String)
    ensures
        text@ == row_text(account@),
{
    proof {
        reveal_strlit(",");
    }
    let mut text = format_unsigned(account.client_id() as u64);
    text.append(",");
    text.append(format_amount(account.available()).as_str());
    text.append(",");
    text.append(format_amount(account.held()).as_str());
    text.append(",");
    text.append(format_amount(account.total()).as_str());
    text.append(",");
    text.append(if account.is_locked() { "true" } else { "false" });
    assert(text@ =~= row_text(account@));
    text
}

/// The report of the accounts: the header, then one line per account.
pub fn report(accounts: &Vec<Account>) -> (lines: Vec<String>)
    ensures
        texts(lines@) == report_text(account_views(accounts@)),
{
    let mut lines: Vec<String> = Vec::new();
    lines.push(header());
    let mut i: usize = 0;
    while i < accounts.len()
        invariant
            i <= accounts.len(),
            lines.len() == i + 1,
            lines[0]@ == header_text(),
            forall|j: int| 1 <= j <= i ==> (#[trigger] lines[j])@ == row_text(accounts[j - 1]@),
        decreases accounts.len() - i,
    {
        lines.push(row(&accounts[i]));
        i += 1;
    }
    let ghost expected = report_text(account_views(accounts@));
    assert(texts(lines@).len() == expected.len());
    assert forall|j: int| 0 <= j < expected.len() implies texts(lines@)[j] == expected[j] by {
        if j > 0 {
            assert(expected[j] == row_text(accounts[j - 1]@));
        }
    }
    assert(texts(lines@) =~= expected);
    lines
}

} // verus!
