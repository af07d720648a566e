//! The plain-text form of a value on the wire: decimal digits.

use vstd::prelude::*;
use vstd::string::*;
use vstd::utf8::is_ascii_chars;

use crate::error::ProtocolError;
use crate::ring::Value;

verus! {

/// The byte of the plus sign.
const PLUS_SIGN: u8 = 43;

/// The byte of the digit zero.
const DIGIT_ZERO: u8 = 48;

/// The byte of the digit nine.
const DIGIT_NINE: u8 = 57;

/// Whether a character is one of the ten decimal digits.
pub open spec fn is_digit(c: char) -> bool {
    '0' <= c <= '9'
}

/// The number a digit stands for.
pub open spec fn digit_value(c: char) -> nat {
    (c as int - '0' as int) as nat
}

/// The number that a sequence of digits denotes, most significant first.
pub open spec fn number_of(digits: Seq<char>) -> nat
    decreases digits.len(),
{
    if digits.len() == 0 {
        0
    } else {
        number_of(digits.drop_last()) * 10 + digit_value(digits.last())
    }
}

/// Whether every character of a sequence is a digit.
pub open spec fn all_digits(digits: Seq<char>) -> bool {
    forall|i: int| 0 <= i < digits.len() ==> is_digit(#[trigger] digits[i])
}

/// A text without its plus sign, if it starts with one.
pub open spec fn unsigned_part(text: Seq<char>) -> Seq<char> {
    if text.len() > 0 && text[0] == '+' {
        text.skip(1)
    } else {
        text
    }
}

/// Whether a text is the decimal form of a value: an optional plus sign,
/// then one digit or more, denoting a number below 2^32. Leading zeros are
/// accepted; spaces, a minus sign and an empty text are not.
pub open spec fn is_value_text(text: Seq<char>) -> bool {
    let digits = unsigned_part(text);
    digits.len() > 0 && all_digits(digits) && number_of(digits) <= u32::MAX
}

/// A number of digits is at least the number of any of its prefixes.
pub proof fn lemma_number_of_prefix(digits: Seq<char>, k: int)
    requires
        0 <= k <= digits.len(),
    ensures
        number_of(digits.take(k)) <= number_of(digits),
    decreases digits.len(),
{
    if k == digits.len() {
        assert(digits.take(k) =~= digits);
    } else {
        assert(digits.drop_last().take(k) =~= digits.take(k));
        lemma_number_of_prefix(digits.drop_last(), k);
    }
}

/// Reads a value from its decimal form.
///
/// Returns the value where the text is the decimal form of one, and
/// `MalformedRequest` for every other text.
pub fn parse_value(text: &str) -> (parsed: Result<Value, ProtocolError>)
    ensures
        is_value_text(text@) ==> parsed == Ok::<Value, ProtocolError>(
            number_of(unsigned_part(text@)) as u32,
        ),
        !is_value_text(text@) ==> parsed == Err::<Value, ProtocolError>(
            ProtocolError::MalformedRequest,
        ),
{
    broadcast use is_ascii_spec_bytes;

    if !text.is_ascii() {
        proof {
            let i = choose|i: int|
                0 <= i < text@.len() && !('\0' <= #[trigger] text@[i] <= '\u{7f}');
            let digits = unsigned_part(text@);
            if digits.len() > 0 && all_digits(digits) {
                if text@[0] == '+' {
                    assert(i > 0);
                    assert(is_digit(digits[i - 1]));
                } else {
                    assert(is_digit(digits[i]));
                }
            }
        }
        return Err(ProtocolError::MalformedRequest);
    }
    let bytes = text.as_bytes();
    let len = bytes.len();
    let start: usize = if len > 0 && bytes[0] == PLUS_SIGN {
        1
    } else {
        0
    };
    let ghost digits = unsigned_part(text@);
    assert(digits.len() == len - start);
    assert(forall|k: int| 0 <= k < digits.len() ==> digits[k] == text@[k + start]);
    if start == len {
        return Err(ProtocolError::MalformedRequest);
    }
    let mut acc: u64 = 0;
    let mut i: usize = start;
    while i < len
        invariant
            start <= i <= len,
            len == bytes@.len(),
            len == text@.len(),
            digits == unsigned_part(text@),
            digits.len() == len - start,
            forall|k: int| 0 <= k < len ==> bytes@[k] == text@[k] as u8,
            is_ascii_chars(text@),
            forall|k: int| 0 <= k < digits.len() ==> digits[k] == text@[k + start],
            forall|k: int| 0 <= k < i - start ==> is_digit(#[trigger] digits[k]),
            acc == number_of(digits.take(i - start)),
            acc <= u32::MAX,
        decreases len - i,
    {
        let b = bytes[i];
        proof {
            let c = text@[i as int];
            assert(b == c as u8);
            assert('\0' <= c <= '\u{7f}');
            assert(digits[i - start] == c);
            assert(c as int == b as int);
        }
        if b < DIGIT_ZERO || b > DIGIT_NINE {
            assert(!is_digit(digits[i - start]));
            return Err(ProtocolError::MalformedRequest);
        }
        proof {
            assert(digits.take(i - start + 1).drop_last() =~= digits.take(i - start));
            assert(digits.take(i - start + 1).last() == digits[i - start]);
        }
        acc = acc * 10 + (b - DIGIT_ZERO) as u64;
        if acc > 0xffff_ffff {
            proof {
                if all_digits(digits) {
                    lemma_number_of_prefix(digits, i - start + 1);
                }
            }
            return Err(ProtocolError::MalformedRequest);
        }
        i = i + 1;
    }
    proof {
        assert(digits.take(i - start) =~= digits);
    }
    Ok(acc as u32)
}

/// The character of one decimal digit.
pub open spec fn digit_char(d: int) -> char {
    (d + '0' as int) as char
}

/// The decimal digits of a number, most significant first, with no leading
/// zero and no sign.
pub open spec fn decimal(n: nat) -> Seq<char>
    decreases n,
{
    if n < 10 {
        seq![digit_char(n as int)]
    } else {
        decimal(n / 10).push(digit_char((n % 10) as int))
    }
}

fn digit_text(d: u64) -> (text: &'static str)
    requires
        d < 10,
    ensures
        text@ == seq![digit_char(d as int)],
{
    proof {
        reveal_strlit("0");
        reveal_strlit("1");
        reveal_strlit("2");
        reveal_strlit("3");
        reveal_strlit("4");
        reveal_strlit("5");
        reveal_strlit("6");
        reveal_strlit("7");
        reveal_strlit("8");
        reveal_strlit("9");
    }
    let text = if d == 0 {
        "0"
    } else if d == 1 {
        "1"
    } else if d == 2 {
        "2"
    } else if d == 3 {
        "3"
    } else if d == 4 {
        "4"
    } else if d == 5 {
        "5"
    } else if d == 6 {
        "6"
    } else if d == 7 {
        "7"
    } else if d == 8 {
        "8"
    } else {
        "9"
    };
    assert(text@ =~= seq![digit_char(d as int)]);
    text
}

/// Writes a number in decimal.
pub fn render_decimal(n: u64) -> (text: String)
    ensures
        text@ == decimal(n as nat),
    decreases n,
{
    if n < 10 {
        String::from_str(digit_text(n))
    } else {
        let head = render_decimal(n / 10);
        let text = head.concat(digit_text(n % 10));
        assert(text@ =~= decimal(n as nat));
        text
    }
}

/// Writes a value in decimal: digits only, no sign, no leading zero.
pub fn render_value(value: Value) -> (text: String)
    ensures
        text@ == decimal(value as nat),
{
    render_decimal(value as u64)
}

/// The decimal form of a number is made of digits, one at least, and denotes
/// that number.
pub proof fn lemma_decimal_denotes(n: nat)
    ensures
        decimal(n).len() > 0,
        all_digits(decimal(n)),
        number_of(decimal(n)) == n,
    decreases n,
{
    if n < 10 {
        assert(decimal(n).drop_last() =~= Seq::<char>::empty());
        assert(number_of(decimal(n).drop_last()) == 0);
    } else {
        lemma_decimal_denotes(n / 10);
        assert(decimal(n).drop_last() =~= decimal(n / 10));
    }
}

/// Reading undoes writing: what `render_value` writes for a value is a text
/// that `parse_value` accepts, and it denotes that value.
pub proof fn lemma_decimal_round_trip(value: Value)
    ensures
        is_value_text(decimal(value as nat)),
        number_of(unsigned_part(decimal(value as nat))) == value,
{
    lemma_decimal_denotes(value as nat);
    let text = decimal(value as nat);
    assert(is_digit(text[0]));
}

} // verus!
