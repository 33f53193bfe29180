//! Text: comparing it, and reading whole numbers from it.

use vstd::prelude::*;
use vstd::string::StringSliceAdditionalSpecFns;
use vstd::utf8::encode_utf8;
use vstd::utf8::encode_utf8_decode_utf8;

verus! {

/// The texts of a list of strings.
pub open spec fn texts(strings: Seq<String>) -> Seq<Seq<char>> {
    strings.map_values(|string: String| string@)
}

/// Whether two byte slices hold the same bytes.
pub fn same_bytes(a: &[u8], b: &[u8]) -> (r: bool)
    ensures
        r == (a@ == b@),
{
    if a.len() != b.len() {
        return false;
    }
    let mut i: usize = 0;
    while i < a.len()
        invariant
            i <= a.len(),
            a.len() == b.len(),
            forall|j: int| 0 <= j < i ==> a@[j] == b@[j],
        decreases a.len() - i,
    {
        if a[i] != b[i] {
            return false;
        }
        i += 1;
    }
    assert(a@ =~= b@);
    true
}

/// Two texts with the same UTF-8 encoding are the same text.
pub proof fn lemma_encoding_is_injective(a: Seq<char>, b: Seq<char>)
    requires
        encode_utf8(a) == encode_utf8(b),
    ensures
        a == b,
{
    encode_utf8_decode_utf8(a);
    encode_utf8_decode_utf8(b);
}

/// Whether two string slices hold the same text.
pub fn same_text(a: &str, b: &str) -> (r: bool)
    ensures
        r == (a@ == b@),
{
    let r = same_bytes(a.as_bytes(), b.as_bytes());
    proof {
        if r {
            lemma_encoding_is_injective(a@, b@);
        }
    }
    r
}

/// Whether the character is one of the ten decimal digits.
pub open spec fn is_digit(c: char) -> bool {
    '0' <= c <= '9'
}

/// The number that a decimal digit stands for.
pub open spec fn digit_value(c: char) -> nat {
    (c as nat - '0' as nat) as nat
}

/// Whether the text is made of decimal digits alone.
pub open spec fn all_digits(text: Seq<char>) -> bool {
    forall|i: int| 0 <= i < text.len() ==> is_digit(#[trigger] text[i])
}

/// The number that a string of decimal digits writes.
pub open spec fn decimal_value(digits: Seq<char>) -> nat
    decreases digits.len(),
{
    if digits.len() == 0 {
        0
    } else {
        decimal_value(digits.drop_last()) * 10 + digit_value(digits.last())
    }
}

/// The text without the plus sign that may lead it.
pub open spec fn without_plus(text: Seq<char>) -> Seq<char> {
    if text.len() > 0 && text[0] == '+' {
        text.drop_first()
    } else {
        text
    }
}

/// The number that the text writes, where the text is a whole number of at
/// most `max`: decimal digits, at least one, after an optional plus sign.
/// Nothing else is a number: no blank, no minus sign, no empty text.
pub open spec fn unsigned_of(text: Seq<char>, max: nat) -> Option<nat> {
    let digits = without_plus(text);
    if digits.len() > 0 && all_digits(digits) && decimal_value(digits) <= max {
        Some(decimal_value(digits))
    } else {
        None
    }
}

/// More digits write no smaller a number.
pub proof fn lemma_decimal_value_grows(digits: Seq<char>, n: int)
    requires
        0 <= n <= digits.len(),
    ensures
        decimal_value(digits.take(n)) <= decimal_value(digits),
    decreases digits.len() - n,
{
    if n < digits.len() {
        lemma_decimal_value_grows(digits, n + 1);
        assert(digits.take(n + 1).drop_last() == digits.take(n));
    } else {
        assert(digits.take(n) == digits);
    }
}

/// An ASCII character and its byte are the same number.
pub proof fn lemma_ascii_byte(c: char)
    requires
        c <= '\u{7f}',
    ensures
        (c as u8) as int == c as int,
        is_digit(c) <==> 48 <= (c as u8) <= 57,
        is_digit(c) ==> digit_value(c) == (c as u8) - 48,
        c == '+' <==> (c as u8) == 43,
        c == '.' <==> (c as u8) == 46,
{
}

/// Where the digits that start at `from` end: the position of the first
/// character at or after `from` that is no digit, or the end of the text.
pub fn digits_end(text: &str, from: usize) -> (end: usize)
    requires
        text.is_ascii(),
        from <= text@.len(),
    ensures
        from <= end <= text@.len(),
        forall|k: int| from <= k < end ==> is_digit(#[trigger] text@[k]),
        end < text@.len() ==> !is_digit(text@[end as int]),
{
    broadcast use vstd::string::is_ascii_spec_bytes;

    let bytes = text.as_bytes();
    let mut end: usize = from;
    while end < bytes.len()
        invariant
            text.is_ascii(),
            bytes@ == text.spec_bytes(),
            from <= end <= text@.len(),
            forall|k: int| from <= k < end ==> is_digit(#[trigger] text@[k]),
        decreases bytes.len() - end,
    {
        proof {
            lemma_ascii_byte(text@[end as int]);
        }
        if bytes[end] < 48 || bytes[end] > 57 {
            return end;
        }
        end += 1;
    }
    end
}

/// The largest limit that [`digits_value`] takes.
pub const DIGITS_LIMIT: u128 = 0x0fff_ffff_ffff_ffff_ffff_ffff_ffff_ffff;

/// The number that the digits from `from` to `end` write, if it is at most
/// `limit`.
pub fn digits_value(text: &str, from: usize, end: usize, limit: u128) -> (value: Option<u128>)
    requires
        text.is_ascii(),
        from <= end <= text@.len(),
        forall|k: int| from <= k < end ==> is_digit(#[trigger] text@[k]),
        limit <= DIGITS_LIMIT,
    ensures
        match value {
            Some(v) => v == decimal_value(text@.subrange(from as int, end as int)) && v <= limit,
            None => decimal_value(text@.subrange(from as int, end as int)) > limit,
        },
{
    broadcast use vstd::string::is_ascii_spec_bytes;

    let bytes = text.as_bytes();
    let ghost digits = text@.subrange(from as int, end as int);
    let mut value: u128 = 0;
    let mut i: usize = from;
    while i < end
        invariant
            text.is_ascii(),
            bytes@ == text.spec_bytes(),
            from <= i <= end <= text@.len(),
            digits == text@.subrange(from as int, end as int),
            forall|k: int| from <= k < end ==> is_digit(#[trigger] text@[k]),
            value == decimal_value(digits.take(i - from)),
            value <= limit <= DIGITS_LIMIT,
        decreases end - i,
    {
        proof {
            lemma_ascii_byte(text@[i as int]);
            lemma_decimal_value_grows(digits, i - from + 1);
        }
        assert(digits[i - from] == text@[i as int]);
        assert(digits.take(i - from + 1).drop_last() == digits.take(i - from));
        assert(digits.take(i - from + 1).last() == digits[i - from]);
        let next = value * 10 + (bytes[i] - 48) as u128;
        if next > limit {
            return None;
        }
        value = next;
        i += 1;
    }
    assert(digits.take(i - from) == digits);
    Some(value)
}

/// A text that is not ASCII holds a character beyond ASCII.
pub proof fn lemma_beyond_ascii(text: Seq<char>) -> (i: int)
    requires
        !vstd::utf8::is_ascii_chars(text),
    ensures
        0 <= i < text.len(),
        !('\0' <= text[i] <= '\u{7f}'),
{
    choose|i: int| 0 <= i < text.len() && !('\0' <= #[trigger] text[i] <= '\u{7f}')
}

/// Whether the text starts with a plus sign.
pub fn has_plus(text: &str) -> (plus: bool)
    requires
        text.is_ascii(),
    ensures
        plus == (text@.len() > 0 && text@[0] == '+'),
{
    broadcast use vstd::string::is_ascii_spec_bytes;

    let bytes = text.as_bytes();
    proof {
        if text@.len() > 0 {
            lemma_ascii_byte(text@[0]);
        }
    }
    bytes.len() > 0 && bytes[0] == 43
}

/// Reads a whole number of at most `max`.
pub fn parse_unsigned(text: &str, max: u64) -> (number: Option<u64>)
    ensures
        match number {
            Some(n) => unsigned_of(text@, max as nat) == Some(n as nat),
            None => unsigned_of(text@, max as nat) is None,
        },
{
    broadcast use vstd::string::is_ascii_spec_bytes;

    let ghost digits = without_plus(text@);
    if !text.is_ascii() {
        proof {
            let i = lemma_beyond_ascii(text@);
            let k = if text@[0] == '+' {
                i - 1
            } else {
                i
            };
            assert(digits[k] == text@[i]);
        }
        return None;
    }
    let start: usize = if has_plus(text) {
        1
    } else {
        0
    };
    let end = digits_end(text, start);
    let length = text.as_bytes().len();
    assert(digits == text@.subrange(start as int, length as int));
    if end < length {
        assert(digits[end - start] == text@[end as int]);
        return None;
    }
    if end == start {
        return None;
    }
    assert forall|k: int| 0 <= k < digits.len() implies is_digit(#[trigger] digits[k]) by {
        assert(digits[k] == text@[start + k]);
    }
    match digits_value(text, start, end, max as u128) {
        Some(number) => Some(number as u64),
        None => None,
    }
}

} // verus!
