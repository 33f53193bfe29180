//! Amounts of money as text.
//!
//! An amount is a whole number of ten-thousandths of a unit, held in a `u64`.
//! As text it is a decimal number: `2.5` is 25,000 ten-thousandths.

use vstd::arithmetic::div_mod::lemma_div_denominator;
use vstd::prelude::*;
use vstd::string::StringSliceAdditionalSpecFns;
use crate::text::all_digits;
use crate::text::decimal_value;
use crate::text::digit_value;
use crate::text::digits_end;
use crate::text::digits_value;
use crate::text::has_plus;
use crate::text::is_digit;
use crate::text::lemma_ascii_byte;
use crate::text::lemma_beyond_ascii;
use crate::text::lemma_decimal_value_grows;
use crate::text::without_plus;

verus! {

/// How many ten-thousandths make a unit.
pub const SCALE: u64 = 10_000;

/// The largest exponent that is read exactly. A larger one takes every
/// number but zero out of range, or down to zero.
pub const EXPONENT_LIMIT: u128 = 0x1_0000_0000_0000_0000_0000;

/// Ten to the power of `exponent`.
pub open spec fn pow10(exponent: nat) -> nat
    decreases exponent,
{
    if exponent == 0 {
        1
    } else {
        10 * pow10((exponent - 1) as nat)
    }
}

/// The number times ten to the power of `shift`, rounded down to a whole
/// number.
pub open spec fn shifted(number: nat, shift: int) -> nat {
    if shift >= 0 {
        number * pow10(shift as nat)
    } else {
        number / pow10((-shift) as nat)
    }
}

/// Where the decimal point stands: the number of characters before the first
/// point, or the length of a text without a point.
pub open spec fn point_of(text: Seq<char>) -> int
    decreases text.len(),
{
    if text.len() == 0 || text[0] == '.' {
        0
    } else {
        1 + point_of(text.drop_first())
    }
}

/// Whether the character marks the start of an exponent.
pub open spec fn is_mark(c: char) -> bool {
    c == 'e' || c == 'E'
}

/// Where the exponent mark stands: the number of characters before the first
/// `e` or `E`, or the length of a text without one.
pub open spec fn mark_of(text: Seq<char>) -> int
    decreases text.len(),
{
    if text.len() == 0 || is_mark(text[0]) {
        0
    } else {
        1 + mark_of(text.drop_first())
    }
}

/// What stands before the exponent mark.
pub open spec fn mantissa_of(body: Seq<char>) -> Seq<char> {
    body.take(mark_of(body))
}

/// The digits before the point.
pub open spec fn whole_of(mantissa: Seq<char>) -> Seq<char> {
    mantissa.take(point_of(mantissa))
}

/// The digits after the point; none where there is no point.
pub open spec fn fraction_of(mantissa: Seq<char>) -> Seq<char> {
    if point_of(mantissa) < mantissa.len() {
        mantissa.skip(point_of(mantissa) + 1)
    } else {
        Seq::empty()
    }
}

/// The text without the sign that may lead it.
pub open spec fn without_sign(text: Seq<char>) -> Seq<char> {
    if text.len() > 0 && (text[0] == '+' || text[0] == '-') {
        text.drop_first()
    } else {
        text
    }
}

/// The whole number that the text writes: decimal digits, at least one, after
/// an optional sign.
pub open spec fn signed_of(text: Seq<char>) -> Option<int> {
    let digits = without_sign(text);
    if digits.len() > 0 && all_digits(digits) {
        if text[0] == '-' {
            Some(-(decimal_value(digits) as int))
        } else {
            Some(decimal_value(digits) as int)
        }
    } else {
        None
    }
}

/// The exponent that the text gives behind its mark; zero where the text has
/// no mark.
pub open spec fn exponent_of(body: Seq<char>) -> Option<int> {
    if mark_of(body) < body.len() {
        signed_of(body.skip(mark_of(body) + 1))
    } else {
        Some(0)
    }
}

/// The amount that the text writes, in ten-thousandths.
///
/// An amount is written as a decimal number without a minus sign: decimal
/// digits, before or after one optional decimal point or on both sides of
/// it, at least one digit in all; in front an optional plus sign; behind an
/// optional exponent, which is `e` or `E`, an optional sign, and digits. So
/// `7`, `7.`, `.5`, `+7.25` and `725e-2` are amounts. What the number holds
/// beyond its fourth decimal place is dropped. Nothing else is an amount: no
/// negative number, no blank, no number beyond what a `u64` holds in
/// ten-thousandths.
pub open spec fn amount_of(text: Seq<char>) -> Option<nat> {
    let body = without_plus(text);
    let whole = whole_of(mantissa_of(body));
    let fraction = fraction_of(mantissa_of(body));
    if whole.len() + fraction.len() > 0 && all_digits(whole) && all_digits(fraction)
        && exponent_of(body) is Some {
        let units = shifted(
            decimal_value(whole + fraction),
            exponent_of(body)->0 + 4 - fraction.len(),
        );
        if units <= u64::MAX {
            Some(units)
        } else {
            None
        }
    } else {
        None
    }
}

/// The point stands within the text, on the first point.
pub proof fn lemma_point_of(text: Seq<char>)
    ensures
        0 <= point_of(text) <= text.len(),
        forall|k: int| 0 <= k < point_of(text) ==> #[trigger] text[k] != '.',
        point_of(text) < text.len() ==> text[point_of(text)] == '.',
    decreases text.len(),
{
    if text.len() > 0 && text[0] != '.' {
        let rest = text.drop_first();
        lemma_point_of(rest);
        assert forall|k: int| 0 <= k < point_of(text) implies #[trigger] text[k] != '.' by {
            if k > 0 {
                assert(rest[k - 1] == text[k]);
            }
        }
    }
}

/// The mark stands within the text, on the first `e` or `E`.
pub proof fn lemma_mark_of(text: Seq<char>)
    ensures
        0 <= mark_of(text) <= text.len(),
        forall|k: int| 0 <= k < mark_of(text) ==> !is_mark(#[trigger] text[k]),
        mark_of(text) < text.len() ==> is_mark(text[mark_of(text)]),
    decreases text.len(),
{
    if text.len() > 0 && !is_mark(text[0]) {
        let rest = text.drop_first();
        lemma_mark_of(rest);
        assert forall|k: int| 0 <= k < mark_of(text) implies !is_mark(#[trigger] text[k]) by {
            if k > 0 {
                assert(rest[k - 1] == text[k]);
            }
        }
    }
}

/// A power of ten is at least one, and a higher power is no smaller.
pub proof fn lemma_pow10_grows(low: nat, high: nat)
    requires
        low <= high,
    ensures
        1 <= pow10(low) <= pow10(high),
    decreases high,
{
    if low < high {
        lemma_pow10_grows(low, (high - 1) as nat);
    } else if low > 0 {
        lemma_pow10_grows((low - 1) as nat, (low - 1) as nat);
    }
}

/// Ten to the twentieth is more than a `u64` holds.
pub proof fn lemma_pow10_twenty()
    ensures
        pow10(20) == 100_000_000_000_000_000_000,
        pow10(20) > u64::MAX,
{
    reveal_with_fuel(pow10, 21);
}

/// Digits write a number below the power of ten of their count.
pub proof fn lemma_decimal_value_is_below(digits: Seq<char>)
    requires
        all_digits(digits),
    ensures
        decimal_value(digits) < pow10(digits.len()),
    decreases digits.len(),
{
    if digits.len() > 0 {
        let front = digits.drop_last();
        assert forall|i: int| 0 <= i < front.len() implies is_digit(#[trigger] front[i]) by {
            assert(front[i] == digits[i]);
        }
        lemma_decimal_value_is_below(front);
        assert(is_digit(digits.last()));
    }
}

/// Dropping digits at the end divides by the power of ten of their count.
pub proof fn lemma_decimal_value_of_front(digits: Seq<char>, dropped: nat)
    requires
        all_digits(digits),
        dropped <= digits.len(),
    ensures
        decimal_value(digits) / pow10(dropped) == decimal_value(
            digits.take(digits.len() - dropped),
        ),
    decreases dropped,
{
    if dropped == 0 {
        assert(digits.take(digits.len() as int) == digits);
        assert(pow10(0) == 1);
    } else {
        let front = digits.drop_last();
        let less = (dropped - 1) as nat;
        assert forall|i: int| 0 <= i < front.len() implies is_digit(#[trigger] front[i]) by {
            assert(front[i] == digits[i]);
        }
        lemma_decimal_value_of_front(front, less);
        assert(front.take(front.len() - less) == digits.take(digits.len() - dropped));
        assert(is_digit(digits.last()));
        lemma_pow10_grows(less, less);
        let number = decimal_value(digits) as int;
        let power = pow10(less) as int;
        assert(pow10(dropped) == 10 * power);
        assert(number / 10 == decimal_value(front));
        assert((number / 10) / power == number / (10 * power)) by {
            lemma_div_denominator(number, 10, power);
        }
        assert(decimal_value(front) / pow10(less) == decimal_value(
            digits.take(digits.len() - dropped),
        ));
        assert(number / (10 * power) == decimal_value(digits.take(digits.len() - dropped)));
        assert(decimal_value(digits) / pow10(dropped) == number / (10 * power));
    }
}

/// What four digits write.
pub proof fn lemma_four_digits(a: char, b: char, c: char, d: char)
    ensures
        decimal_value(seq![a, b, c, d]) == digit_value(a) * 1000 + digit_value(b) * 100
            + digit_value(c) * 10 + digit_value(d),
{
    let s4 = seq![a, b, c, d];
    let s3 = seq![a, b, c];
    let s2 = seq![a, b];
    let s1 = seq![a];
    assert(s4.drop_last() == s3);
    assert(s3.drop_last() == s2);
    assert(s2.drop_last() == s1);
    assert(s1.drop_last() == Seq::<char>::empty());
    assert(decimal_value(s1.drop_last()) == 0);
    assert(decimal_value(s1) == digit_value(a));
    assert(decimal_value(s2) == digit_value(a) * 10 + digit_value(b));
    assert(decimal_value(s3) == decimal_value(s2) * 10 + digit_value(c));
    assert(decimal_value(s4) == decimal_value(s3) * 10 + digit_value(d));
}

/// Takes the digits from `from` to `end` behind those already taken:
/// `value` is what the digits `taken` write, and the result what they and
/// the new digits write together, if a `u64` holds it.
fn take_digits(
    text: &str,
    from: usize,
    end: usize,
    value: u64,
    Ghost(taken): Ghost<Seq<char>>,
) -> (more: Option<u64>)
    requires
        text.is_ascii(),
        from <= end <= text@.len(),
        forall|k: int| from <= k < end ==> is_digit(#[trigger] text@[k]),
        value == decimal_value(taken),
    ensures
        match more {
            Some(v) => v == decimal_value(taken + text@.subrange(from as int, end as int)),
            None => decimal_value(taken + text@.subrange(from as int, end as int)) > u64::MAX,
        },
{
    broadcast use vstd::string::is_ascii_spec_bytes;

    let bytes = text.as_bytes();
    let ghost all = taken + text@.subrange(from as int, end as int);
    let mut value: u64 = value;
    let mut i: usize = from;
    assert(all.take(taken.len() as int) == taken);
    while i < end
        invariant
            text.is_ascii(),
            bytes@ == text.spec_bytes(),
            from <= i <= end <= text@.len(),
            all == taken + text@.subrange(from as int, end as int),
            forall|k: int| from <= k < end ==> is_digit(#[trigger] text@[k]),
            value == decimal_value(all.take(taken.len() + i - from)),
        decreases end - i,
    {
        let ghost count = taken.len() + i - from;
        proof {
            lemma_ascii_byte(text@[i as int]);
            lemma_decimal_value_grows(all, count + 1);
        }
        assert(all[count] == text@[i as int]);
        assert(all.take(count + 1).drop_last() == all.take(count));
        assert(all.take(count + 1).last() == all[count]);
        let next = value as u128 * 10 + (bytes[i] - 48) as u128;
        if next > u64::MAX as u128 {
            return None;
        }
        value = next as u64;
        i += 1;
    }
    assert(all.take(taken.len() + i - from) == all);
    Some(value)
}

/// The number that the first `keep` digits of a mantissa write, if a `u64`
/// holds it. The mantissa's digits stand from `start` to `point` and from
/// `first` to `end`.
fn leading_value(
    text: &str,
    start: usize,
    point: usize,
    first: usize,
    end: usize,
    keep: usize,
) -> (value: Option<u64>)
    requires
        text.is_ascii(),
        start <= point <= first <= end <= text@.len(),
        forall|k: int| start <= k < point ==> is_digit(#[trigger] text@[k]),
        forall|k: int| first <= k < end ==> is_digit(#[trigger] text@[k]),
        keep <= (point - start) + (end - first),
    ensures
        ({
            let digits = text@.subrange(start as int, point as int) + text@.subrange(
                first as int,
                end as int,
            );
            match value {
                Some(v) => v == decimal_value(digits.take(keep as int)),
                None => decimal_value(digits.take(keep as int)) > u64::MAX,
            }
        }),
{
    let ghost whole = text@.subrange(start as int, point as int);
    let ghost fraction = text@.subrange(first as int, end as int);
    let ghost wanted = (whole + fraction).take(keep as int);
    let before: usize = if keep < point - start {
        keep
    } else {
        point - start
    };
    let after: usize = keep - before;
    let ghost front = text@.subrange(start as int, start + before);
    assert(Seq::<char>::empty() + front == front);
    assert(wanted.take(before as int) == front);
    proof {
        lemma_decimal_value_grows(wanted, before as int);
    }
    let value = match take_digits(text, start, start + before, 0, Ghost(Seq::empty())) {
        Some(value) => value,
        None => {
            return None;
        },
    };
    assert(front + text@.subrange(first as int, first + after) == wanted);
    take_digits(text, first, first + after, value, Ghost(front))
}

/// The number times ten to the power of `shift`, if a `u64` holds it.
fn scale_up(number: u64, shift: u128) -> (scaled: Option<u64>)
    ensures
        match scaled {
            Some(v) => v == number * pow10(shift as nat),
            None => number * pow10(shift as nat) > u64::MAX,
        },
{
    if number == 0 {
        assert(0 * pow10(shift as nat) == 0) by (nonlinear_arith);
        return Some(0);
    }
    if shift >= 20 {
        proof {
            lemma_pow10_twenty();
            lemma_pow10_grows(20, shift as nat);
            assert(number * pow10(shift as nat) >= pow10(shift as nat)) by (nonlinear_arith)
                requires
                    number >= 1,
                    pow10(shift as nat) >= 0,
            ;
        }
        return None;
    }
    let mut scaled: u64 = number;
    let mut done: u128 = 0;
    assert(number * pow10(0) == number) by {
        assert(pow10(0) == 1);
    }
    while done < shift
        invariant
            done <= shift < 20,
            scaled == number * pow10(done as nat),
        decreases shift - done,
    {
        proof {
            lemma_pow10_grows((done + 1) as nat, shift as nat);
            assert(number * pow10((done + 1) as nat) == (number * pow10(done as nat)) * 10)
                by (nonlinear_arith)
                requires
                    pow10((done + 1) as nat) == 10 * pow10(done as nat),
            ;
            assert(number * pow10(shift as nat) >= number * pow10((done + 1) as nat))
                by (nonlinear_arith)
                requires
                    pow10(shift as nat) >= pow10((done + 1) as nat),
            ;
        }
        let next = scaled as u128 * 10;
        if next > u64::MAX as u128 {
            return None;
        }
        scaled = next as u64;
        done += 1;
    }
    Some(scaled)
}

/// A text with a character beyond ASCII writes no amount.
pub proof fn lemma_not_ascii_is_no_amount(text: Seq<char>)
    requires
        !vstd::utf8::is_ascii_chars(text),
    ensures
        amount_of(text) is None,
{
    let i = lemma_beyond_ascii(text);
    let body = without_plus(text);
    let k = if text[0] == '+' {
        i - 1
    } else {
        i
    };
    assert(body[k] == text[i]);
    lemma_mark_of(body);
    let mark = mark_of(body);
    let mantissa = mantissa_of(body);
    lemma_point_of(mantissa);
    let point = point_of(mantissa);
    if k < mark {
        assert(mantissa[k] == body[k]);
        if k < point {
            assert(whole_of(mantissa)[k] == body[k]);
        } else {
            assert(k > point);
            assert(fraction_of(mantissa)[k - point - 1] == body[k]);
        }
    } else {
        assert(k > mark);
        let tail = body.skip(mark + 1);
        let q = k - mark - 1;
        assert(tail[q] == body[k]);
        let digits = without_sign(tail);
        if q == 0 {
            assert(digits[0] == tail[0]);
        } else if tail[0] == '+' || tail[0] == '-' {
            assert(digits[q - 1] == tail[q]);
        } else {
            assert(digits[q] == tail[q]);
        }
    }
}

/// Whether the parts are those of a mantissa: digits up to `point`, then
/// either a point and digits from `first` to `end`, or no point and no more
/// digits.
pub open spec fn is_mantissa(body: Seq<char>, point: int, first: int, end: int) -> bool {
    &&& 0 <= point <= first <= end <= body.len()
    &&& forall|k: int| 0 <= k < point ==> is_digit(#[trigger] body[k])
    &&& forall|k: int| first <= k < end ==> is_digit(#[trigger] body[k])
    &&& if first == point {
        end == point && (point == body.len() || body[point] != '.')
    } else {
        first == point + 1 && body[point] == '.'
    }
    &&& end == body.len() || !is_digit(body[end])
}

/// A mantissa that ends with the text or on an exponent mark is read as its
/// parts.
pub proof fn lemma_mantissa_parts(body: Seq<char>, point: int, first: int, end: int)
    requires
        is_mantissa(body, point, first, end),
        end == body.len() || is_mark(body[end]),
    ensures
        mark_of(body) == end,
        whole_of(mantissa_of(body)) == body.subrange(0, point),
        fraction_of(mantissa_of(body)) == body.subrange(first, end),
{
    lemma_mark_of(body);
    assert(mark_of(body) == end) by {
        if mark_of(body) < end {
            assert(is_mark(body[mark_of(body)]));
            assert(!is_digit(body[mark_of(body)]));
        }
    }
    let mantissa = mantissa_of(body);
    assert(mantissa == body.subrange(0, end));
    lemma_point_of(mantissa);
    assert(point_of(mantissa) == point) by {
        if point_of(mantissa) < point {
            assert(mantissa[point_of(mantissa)] == body[point_of(mantissa)]);
            assert(is_digit(body[point_of(mantissa)]));
        }
        if point < point_of(mantissa) {
            assert(mantissa[point] == body[point]);
            assert(mantissa[point] != '.');
        }
    }
    assert(whole_of(mantissa) == body.subrange(0, point));
    assert(fraction_of(mantissa) == body.subrange(first, end));
}

/// A mantissa that ends on anything but an exponent mark writes no amount.
pub proof fn lemma_mantissa_breaks(body: Seq<char>, point: int, first: int, end: int)
    requires
        is_mantissa(body, point, first, end),
        end < body.len(),
        !is_mark(body[end]),
    ensures
        !(all_digits(whole_of(mantissa_of(body))) && all_digits(fraction_of(mantissa_of(body)))),
{
    lemma_mark_of(body);
    let mantissa = mantissa_of(body);
    assert(mark_of(body) > end) by {
        if mark_of(body) < end {
            assert(is_mark(body[mark_of(body)]));
            assert(!is_digit(body[mark_of(body)]));
        }
    }
    lemma_point_of(mantissa);
    assert(mantissa[end] == body[end]);
    if first == point {
        assert(point_of(mantissa) > point) by {
            if point_of(mantissa) < point {
                assert(mantissa[point_of(mantissa)] == body[point_of(mantissa)]);
                assert(is_digit(body[point_of(mantissa)]));
            }
        }
        assert(whole_of(mantissa)[point] == mantissa[point]);
    } else {
        assert(mantissa[point] == body[point]);
        assert(point_of(mantissa) == point) by {
            if point_of(mantissa) < point {
                assert(mantissa[point_of(mantissa)] == body[point_of(mantissa)]);
                assert(is_digit(body[point_of(mantissa)]));
            }
        }
        assert(fraction_of(mantissa)[end - first] == mantissa[end]);
    }
}

/// Finds the parts of the mantissa that starts at `start`: where its whole
/// digits end, and where the digits behind its point start and end.
fn scan_mantissa(text: &str, start: usize) -> (parts: (usize, usize, usize))
    requires
        text.is_ascii(),
        start <= text@.len(),
    ensures
        start <= parts.0 <= parts.1 <= parts.2 <= text@.len(),
        is_mantissa(
            text@.skip(start as int),
            parts.0 - start,
            parts.1 - start,
            parts.2 - start,
        ),
{
    broadcast use vstd::string::is_ascii_spec_bytes;

    let bytes = text.as_bytes();
    let ghost body = text@.skip(start as int);
    let point = digits_end(text, start);
    proof {
        if point < bytes.len() {
            lemma_ascii_byte(text@[point as int]);
        }
    }
    let first: usize = if point < bytes.len() && bytes[point] == 46 {
        point + 1
    } else {
        point
    };
    let end = if first == point {
        point
    } else {
        digits_end(text, first)
    };
    assert forall|k: int| 0 <= k < point - start implies is_digit(#[trigger] body[k]) by {
        assert(body[k] == text@[start + k]);
    }
    assert forall|k: int| first - start <= k < end - start implies is_digit(
        #[trigger] body[k],
    ) by {
        assert(body[k] == text@[start + k]);
    }
    (point, first, end)
}

/// Reads the exponent that stands from `from` to the end of the text: whether
/// a minus sign leads it, and the number that its digits write, if that is at
/// most [`EXPONENT_LIMIT`]. `None` where no exponent stands there.
fn scan_exponent(text: &str, from: usize) -> (exponent: Option<(bool, Option<u128>)>)
    requires
        text.is_ascii(),
        from <= text@.len(),
    ensures
        match exponent {
            None => signed_of(text@.skip(from as int)) is None,
            Some((negative, size)) => signed_of(text@.skip(from as int)) matches Some(e) && (
            if negative {
                e <= 0
            } else {
                e >= 0
            }) && match size {
                Some(n) => n <= EXPONENT_LIMIT && (e == n || e == -n),
                None => e > EXPONENT_LIMIT || -e > EXPONENT_LIMIT,
            },
        },
{
    broadcast use vstd::string::is_ascii_spec_bytes;

    let bytes = text.as_bytes();
    let length = bytes.len();
    let ghost tail = text@.skip(from as int);
    proof {
        if from < length {
            lemma_ascii_byte(text@[from as int]);
            assert(tail[0] == text@[from as int]);
            assert('-' as u8 == 45 && '+' as u8 == 43);
        }
    }
    let negative = from < length && bytes[from] == 45;
    let digits_from: usize = if from < length && (bytes[from] == 45 || bytes[from] == 43) {
        from + 1
    } else {
        from
    };
    let ghost digits = without_sign(tail);
    assert(digits == text@.subrange(digits_from as int, length as int));
    let stop = digits_end(text, digits_from);
    if stop < length {
        assert(digits[stop - digits_from] == text@[stop as int]);
        return None;
    }
    if stop == digits_from {
        return None;
    }
    assert forall|k: int| 0 <= k < digits.len() implies is_digit(#[trigger] digits[k]) by {
        assert(digits[k] == text@[digits_from + k]);
    }
    Some((negative, digits_value(text, digits_from, stop, EXPONENT_LIMIT)))
}

/// The amount of a mantissa and an exponent, if a `u64` holds it. The
/// mantissa's digits stand from `start` to `point` and from `first` to `end`.
fn amount_from(
    text: &str,
    start: usize,
    point: usize,
    first: usize,
    end: usize,
    negative: bool,
    size: Option<u128>,
    Ghost(exponent): Ghost<int>,
) -> (amount: Option<u64>)
    requires
        text.is_ascii(),
        start <= point <= first <= end <= text@.len(),
        forall|k: int| start <= k < point ==> is_digit(#[trigger] text@[k]),
        forall|k: int| first <= k < end ==> is_digit(#[trigger] text@[k]),
        if negative {
            exponent <= 0
        } else {
            exponent >= 0
        },
        match size {
            Some(n) => n <= EXPONENT_LIMIT && (exponent == n || exponent == -n),
            None => exponent > EXPONENT_LIMIT || -exponent > EXPONENT_LIMIT,
        },
    ensures
        ({
            let digits = text@.subrange(start as int, point as int) + text@.subrange(
                first as int,
                end as int,
            );
            let units = shifted(decimal_value(digits), exponent + 4 - (end - first));
            match amount {
                Some(v) => v == units,
                None => units > u64::MAX,
            }
        }),
{
    let ghost digits = text@.subrange(start as int, point as int) + text@.subrange(
        first as int,
        end as int,
    );
    let ghost shift = exponent + 4 - (end - first);
    let count: usize = (point - start) + (end - first);
    assert(digits.take(count as int) == digits);
    assert forall|k: int| 0 <= k < digits.len() implies is_digit(#[trigger] digits[k]) by {
        if k < point - start {
            assert(digits[k] == text@[start + k]);
        } else {
            assert(digits[k] == text@[first + (k - (point - start))]);
        }
    }
    proof {
        lemma_decimal_value_is_below(digits);
    }
    let places = (end - first) as u128;
    let up: Option<u128> = match size {
        Some(n) => if negative {
            if places + n <= 4 {
                Some((4 - places - n) as u128)
            } else {
                None
            }
        } else {
            if n + 4 >= places {
                Some((n + 4 - places) as u128)
            } else {
                None
            }
        },
        None => if negative {
            None
        } else {
            Some(20)
        },
    };
    match up {
        Some(up) => {
            // The exponent moves the digits up: zeros follow them.
            assert(shift >= up && (size is Some ==> shift == up));
            match leading_value(text, start, point, first, end, count) {
                Some(number) => {
                    if number == 0 {
                        assert(0 * pow10(shift as nat) == 0) by (nonlinear_arith);
                        return Some(0);
                    }
                    proof {
                        if size is None {
                            lemma_pow10_twenty();
                            lemma_pow10_grows(20, shift as nat);
                            assert(number * pow10(shift as nat) >= pow10(shift as nat))
                                by (nonlinear_arith)
                                requires
                                    number >= 1,
                                    pow10(shift as nat) >= 0,
                            ;
                        }
                    }
                    if size.is_none() {
                        return None;
                    }
                    scale_up(number, up)
                },
                None => {
                    proof {
                        lemma_pow10_grows(0, shift as nat);
                        assert(decimal_value(digits) * pow10(shift as nat) >= decimal_value(
                            digits,
                        )) by (nonlinear_arith)
                            requires
                                pow10(shift as nat) >= 1,
                                decimal_value(digits) >= 0,
                        ;
                    }
                    None
                },
            }
        },
        None => {
            // The exponent moves the digits down: those at the end are dropped.
            let dropped: Option<u128> = match size {
                Some(n) => if negative {
                    Some((places + n - 4) as u128)
                } else {
                    Some((places - 4 - n) as u128)
                },
                None => None,
            };
            assert(shift < 0);
            assert(dropped matches Some(d) ==> d == -shift);
            assert(dropped is None ==> -shift > count);
            match dropped {
                Some(dropped) if dropped < count as u128 => {
                    proof {
                        lemma_decimal_value_of_front(digits, dropped as nat);
                    }
                    leading_value(text, start, point, first, end, count - dropped as usize)
                },
                _ => {
                    proof {
                        lemma_pow10_grows(count as nat, (-shift) as nat);
                        assert(decimal_value(digits) / pow10((-shift) as nat) == 0) by {
                            vstd::arithmetic::div_mod::lemma_basic_div(
                                decimal_value(digits) as int,
                                pow10((-shift) as nat) as int,
                            );
                        }
                    }
                    Some(0)
                },
            }
        },
    }
}

/// Reads an amount.
pub fn parse_amount(text: &str) -> (amount: Option<u64>)
    ensures
        match amount {
            Some(units) => amount_of(text@) == Some(units as nat),
            None => amount_of(text@) is None,
        },
{
    broadcast use vstd::string::is_ascii_spec_bytes;

    if !text.is_ascii() {
        proof {
            lemma_not_ascii_is_no_amount(text@);
        }
        return None;
    }
    let bytes = text.as_bytes();
    let length = bytes.len();
    let start: usize = if has_plus(text) {
        1
    } else {
        0
    };
    let ghost body = without_plus(text@);
    assert(body == text@.skip(start as int));
    let (point, first, end) = scan_mantissa(text, start);
    proof {
        if end < length {
            lemma_ascii_byte(text@[end as int]);
            assert(body[end - start] == text@[end as int]);
            assert('e' as u8 == 101 && 'E' as u8 == 69);
        }
    }
    if end < length && !(bytes[end] == 101 || bytes[end] == 69) {
        proof {
            lemma_mantissa_breaks(body, point - start, first - start, end - start);
        }
        return None;
    }
    proof {
        lemma_mantissa_parts(body, point - start, first - start, end - start);
    }
    assert(body.subrange(0, point - start) == text@.subrange(start as int, point as int));
    assert(body.subrange(first - start, end - start) == text@.subrange(
        first as int,
        end as int,
    ));
    if point == start && end == first {
        return None;
    }
    assert forall|k: int| start <= k < point implies is_digit(#[trigger] text@[k]) by {
        assert(body[k - start] == text@[k]);
    }
    assert forall|k: int| first <= k < end implies is_digit(#[trigger] text@[k]) by {
        assert(body[k - start] == text@[k]);
    }
    let ghost whole = whole_of(mantissa_of(body));
    let ghost fraction = fraction_of(mantissa_of(body));
    assert forall|k: int| 0 <= k < whole.len() implies is_digit(#[trigger] whole[k]) by {
        assert(whole[k] == text@[start + k]);
    }
    assert forall|k: int| 0 <= k < fraction.len() implies is_digit(#[trigger] fraction[k]) by {
        assert(fraction[k] == text@[first + k]);
    }
    if end < length {
        assert(body.skip(end - start + 1) == text@.skip(end + 1));
        match scan_exponent(text, end + 1) {
            Some((negative, size)) => amount_from(
                text,
                start,
                point,
                first,
                end,
                negative,
                size,
                Ghost(exponent_of(body)->0),
            ),
            None => None,
        }
    } else {
        amount_from(text, start, point, first, end, false, Some(0), Ghost(0))
    }
}

} // verus!
