//! Whole numbers written in decimal digits.

use vstd::prelude::*;
use vstd::string::*;

verus! {

/// Whether `c` is one of the ten decimal digits.
pub open spec fn is_digit(c: char) -> bool {
    '0' <= c <= '9'
}

/// The number that the digit `c` stands for.
pub open spec fn digit_value(c: char) -> int {
    c as int - '0' as int
}

/// Whether `text` holds decimal digits and nothing else.
pub open spec fn all_digits(text: Seq<char>) -> bool {
    forall|i: int| 0 <= i < text.len() ==> is_digit(#[trigger] text[i])
}

/// The number that a run of digits denotes, the first digit weighing most.
pub open spec fn digits_value(digits: Seq<char>) -> int
    decreases digits.len(),
{
    if digits.len() == 0 {
        0
    } else {
        10 * digits_value(digits.drop_last()) + digit_value(digits.last())
    }
}

/// Whether `text` opens with a plus or a minus sign.
pub open spec fn has_sign(text: Seq<char>) -> bool {
    text.len() > 0 && (text[0] == '+' || text[0] == '-')
}

/// The digits of `text`: all of it but a leading sign.
pub open spec fn digits_part(text: Seq<char>) -> Seq<char> {
    if has_sign(text) {
        text.subrange(1, text.len() as int)
    } else {
        text
    }
}

/// The number that `text` denotes: an optional sign, then one digit or more,
/// and nothing else. Any other text denotes no number.
pub open spec fn decimal_value(text: Seq<char>) -> Option<int> {
    let digits = digits_part(text);
    if digits.len() == 0 || !all_digits(digits) {
        None
    } else if text[0] == '-' {
        Some(-digits_value(digits))
    } else {
        Some(digits_value(digits))
    }
}

/// The number that `text` denotes, where it is one that an `i32` holds.
pub open spec fn decimal_i32(text: Seq<char>) -> Option<i32> {
    match decimal_value(text) {
        Some(value) => if i32::MIN <= value <= i32::MAX {
            Some(value as i32)
        } else {
            None
        },
        None => None,
    }
}

/// A text with a character outside ASCII denotes no number.
proof fn lemma_not_ascii_no_number(text: Seq<char>)
    requires
        !vstd::utf8::is_ascii_chars(text),
    ensures
        decimal_value(text) is None,
{
    let i = choose|i: int| 0 <= i < text.len() && !('\0' <= #[trigger] text[i] <= '\u{7f}');
    let digits = digits_part(text);
    if has_sign(text) {
        assert(i >= 1);
        assert(digits[i - 1] == text[i]);
        assert(!is_digit(digits[i - 1]));
    } else {
        assert(!is_digit(digits[i]));
    }
}

/// Reads a whole number as `str::parse::<i32>` does: an optional `+` or `-`,
/// then decimal digits only, the value within the range of `i32`.
pub fn parse_i32(text: &str) -> (value: Option<i32>)
    ensures
        value == decimal_i32(text@),
{
    broadcast use is_ascii_spec_bytes;

    if !text.is_ascii() {
        proof {
            lemma_not_ascii_no_number(text@);
        }
        return None;
    }
    let bytes: &[u8] = text.as_bytes();
    let length: usize = bytes.len();
    if length == 0 {
        return None;
    }
    let first: u8 = bytes[0];
    let negative: bool = first == 45;
    let start: usize = if first == 43 || first == 45 {
        1
    } else {
        0
    };
    if start == length {
        return None;
    }
    let ghost digits = digits_part(text@);
    let mut magnitude: i64 = 0;
    let mut too_large: bool = false;
    let mut at: usize = start;
    while at < length
        invariant
            text.is_ascii(),
            bytes@ == text.spec_bytes(),
            length == text@.len(),
            start <= at <= length,
            start == (if has_sign(text@) { 1int } else { 0int }),
            digits == digits_part(text@),
            digits.len() == length - start,
            all_digits(digits.take(at - start)),
            !too_large ==> magnitude == digits_value(digits.take(at - start)),
            !too_large ==> 0 <= magnitude <= 0x8000_0000,
            too_large ==> digits_value(digits.take(at - start)) > 0x8000_0000,
        decreases length - at,
    {
        let byte: u8 = bytes[at];
        assert(digits[at - start] == text@[at as int]);
        if byte < 48 || byte > 57 {
            assert(!is_digit(digits[at - start]));
            return None;
        }
        proof {
            let longer = digits.take(at - start + 1);
            assert(longer.drop_last() =~= digits.take(at - start));
            assert(longer.last() == digits[at - start]);
            assert(digits_value(longer) == 10 * digits_value(digits.take(at - start))
                + digit_value(digits[at - start]));
            assert forall|i: int| 0 <= i < longer.len() implies is_digit(#[trigger] longer[i]) by {
                if i < at - start {
                    assert(longer[i] == digits.take(at - start)[i]);
                }
            }
        }
        if !too_large {
            let next: i64 = magnitude * 10 + (byte - 48) as i64;
            if next > 0x8000_0000 {
                too_large = true;
            } else {
                magnitude = next;
            }
        }
        at = at + 1;
    }
    assert(digits.take(at - start) =~= digits);
    if too_large {
        None
    } else if negative {
        Some((-magnitude) as i32)
    } else if magnitude > 0x7fff_ffff {
        None
    } else {
        Some(magnitude as i32)
    }
}

/// The digit that stands for `d`, for `d` from 0 to 9.
pub open spec fn digit_char(d: int) -> char {
    (d + '0' as int) as u8 as char
}

/// The digits of `n`, without leading zeros; a single `0` for zero.
pub open spec fn digits_text(n: nat) -> Seq<char>
    decreases n,
{
    if n < 10 {
        seq![digit_char(n as int)]
    } else {
        digits_text(n / 10).push(digit_char((n % 10) as int))
    }
}

/// The decimal text of `n`: its digits, after a minus sign where `n` is
/// negative.
pub open spec fn decimal_text(n: int) -> Seq<char> {
    if n < 0 {
        seq!['-'] + digits_text((-n) as nat)
    } else {
        digits_text(n as nat)
    }
}

/// The one-character text of a digit.
fn digit_str(d: u32) -> (text: &'static str)
    requires
        d < 10,
    ensures
        text@ == seq![digit_char(d as int)],
{
    proof {
        reveal_strlit("0");
        reveal_strlit("1");
        reveal_strlit("2");
        reveal_strlit("3");
        reveal_strlit("4");
        reveal_strlit("5");
        reveal_strlit("6");
        reveal_strlit("7");
        reveal_strlit("8");
        reveal_strlit("9");
    }
    let text = if d == 0 {
        "0"
    } else if d == 1 {
        "1"
    } else if d == 2 {
        "2"
    } else if d == 3 {
        "3"
    } else if d == 4 {
        "4"
    } else if d == 5 {
        "5"
    } else if d == 6 {
        "6"
    } else if d == 7 {
        "7"
    } else if d == 8 {
        "8"
    } else {
        "9"
    };
    assert(text@ =~= seq![digit_char(d as int)]);
    text
}

/// Appends the digits of `n` to `out`.
fn append_digits(out: &mut String, n: u32)
    ensures
        final(out)@ == old(out)@ + digits_text(n as nat),
    decreases n,
{
    if n >= 10 {
        append_digits(out, n / 10);
    }
    out.append(digit_str(n % 10));
    assert(out@ =~= old(out)@ + digits_text(n as nat));
}

/// Appends the decimal text of `value` to `out`.
pub fn append_decimal(out: &mut String, value: i32)
    ensures
        final(out)@ == old(out)@ + decimal_text(value as int),
{
    if value < 0 {
        out.append("-");
        proof {
            reveal_strlit("-");
        }
        append_digits(out, (-(value as i64)) as u32);
        assert(out@ =~= old(out)@ + decimal_text(value as int));
    } else {
        append_digits(out, value as u32);
    }
}

} // verus!
