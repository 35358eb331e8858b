//! Decimal integers as text: reading a 32-bit integer from its digits, and
//! writing one out.

use vstd::prelude::*;
use vstd::string::StringExecFns;
use vstd::utf8::{is_ascii_chars, is_ascii_chars_encode_utf8};

verus! {

/// Whether the character is one of the ten decimal digits.
pub open spec fn is_digit(c: char) -> bool {
    '0' <= c <= '9'
}

/// The number that a decimal digit stands for.
pub open spec fn digit_value(c: char) -> int {
    c as int - '0' as int
}

/// Whether the text consists of decimal digits only.
pub open spec fn all_digits(text: Seq<char>) -> bool {
    forall|i: int| 0 <= i < text.len() ==> is_digit(#[trigger] text[i])
}

/// The number that a run of decimal digits stands for, 0 for an empty run.
pub open spec fn digits_value(text: Seq<char>) -> int
    decreases text.len(),
{
    if text.len() == 0 {
        0
    } else {
        digits_value(text.drop_last()) * 10 + digit_value(text.last())
    }
}

/// Whether the text begins with a sign.
pub open spec fn has_sign(text: Seq<char>) -> bool {
    text.len() > 0 && (text[0] == '-' || text[0] == '+')
}

/// The text without its sign, if it has one.
pub open spec fn unsigned_part(text: Seq<char>) -> Seq<char> {
    if has_sign(text) {
        text.skip(1)
    } else {
        text
    }
}

/// The integer that the text denotes before its range is looked at: the
/// value of its digits, negated after a minus sign.
pub open spec fn signed_value(text: Seq<char>) -> int {
    if text.len() > 0 && text[0] == '-' {
        -digits_value(unsigned_part(text))
    } else {
        digits_value(unsigned_part(text))
    }
}

/// The 32-bit integer that a text denotes in decimal: an optional sign,
/// then one digit or more and nothing else, with a value that fits.
pub open spec fn decimal_i32(text: Seq<char>) -> Option<i32> {
    if unsigned_part(text).len() > 0 && all_digits(unsigned_part(text)) && i32::MIN
        <= signed_value(text) <= i32::MAX {
        Some(signed_value(text) as i32)
    } else {
        None
    }
}

/// The value of a run of digits is never negative, and no prefix of the run
/// is worth more than the whole.
pub proof fn lemma_digits_value_grows(text: Seq<char>, k: int)
    requires
        all_digits(text),
        0 <= k <= text.len(),
    ensures
        0 <= digits_value(text.take(k)) <= digits_value(text),
    decreases text.len(),
{
    if text.len() == 0 {
        assert(text.take(k) =~= text);
    } else if k == text.len() {
        assert(text.take(k) =~= text);
        lemma_digits_value_grows(text.drop_last(), k - 1);
        assert(text.drop_last().take(k - 1) =~= text.drop_last());
    } else {
        lemma_digits_value_grows(text.drop_last(), k);
        assert(text.drop_last().take(k) =~= text.take(k));
    }
}

/// Reads a 32-bit integer from its decimal text.
pub fn parse_i32(text: &str) -> (value: Option<i32>)
    ensures
        value == decimal_i32(text@),
{
    if !text.is_ascii() {
        proof {
            let i = choose|i: int|
                0 <= i < text@.len() && !('\0' <= #[trigger] text@[i] && text@[i] <= '\u{7f}');
            if has_sign(text@) {
                if i > 0 {
                    assert(unsigned_part(text@)[i - 1] == text@[i]);
                }
            }
        }
        return None;
    }
    let bytes = text.as_bytes();
    proof {
        is_ascii_chars_encode_utf8(text@);
    }
    let n = bytes.len();
    if n == 0 {
        return None;
    }
    let first = bytes[0];
    let negative = first == 45;
    let start: usize = if first == 45 || first == 43 {
        1
    } else {
        0
    };
    if start == n {
        return None;
    }
    let ghost digits = unsigned_part(text@);
    let mut magnitude: i64 = 0;
    let mut i: usize = start;
    assert(digits.take(0) =~= Seq::<char>::empty());
    while i < n
        invariant
            start <= i <= n,
            n == text@.len(),
            n == bytes@.len(),
            start <= 1,
            digits == unsigned_part(text@),
            digits.len() == n - start,
            forall|j: int| 0 <= j < n ==> text@[j] as u8 == #[trigger] bytes@[j],
            forall|j: int| 0 <= j < n - start ==> digits[j] == text@[j + start],
            is_ascii_chars(text@),
            all_digits(digits.take(i - start)),
            magnitude == digits_value(digits.take(i - start)),
            0 <= magnitude <= 2147483648,
        decreases n - i,
    {
        let b = bytes[i];
        if b < 48 || b > 57 {
            proof {
                assert(text@[i as int] as u8 == bytes@[i as int]);
                assert(!is_digit(digits[i - start]));
            }
            return None;
        }
        proof {
            let longer = digits.take(i + 1 - start);
            assert(longer.drop_last() =~= digits.take(i - start));
            assert(longer.last() == text@[i as int]);
            assert(text@[i as int] as u8 == bytes@[i as int]);
            assert(digit_value(longer.last()) == b - 48);
        }
        magnitude = magnitude * 10 + (b - 48) as i64;
        if magnitude > 2147483648 {
            proof {
                if all_digits(digits) {
                    lemma_digits_value_grows(digits, i + 1 - start);
                }
            }
            return None;
        }
        i += 1;
    }
    assert(digits.take(n - start) =~= digits);
    if negative {
        Some((-magnitude) as i32)
    } else if magnitude <= 2147483647 {
        Some(magnitude as i32)
    } else {
        None
    }
}

/// The character that writes a number below ten.
pub open spec fn digit_char(d: int) -> char {
    (d + '0' as int) as u8 as char
}

/// The decimal digits of a natural number, without leading zeros.
pub open spec fn natural_text(n: nat) -> Seq<char>
    decreases n,
{
    if n < 10 {
        seq![digit_char(n as int)]
    } else {
        natural_text(n / 10) + seq![digit_char((n % 10) as int)]
    }
}

/// The decimal text of an integer: a minus sign before a negative one.
pub open spec fn integer_text(i: int) -> Seq<char> {
    if i < 0 {
        seq!['-'] + natural_text((-i) as nat)
    } else {
        natural_text(i as nat)
    }
}

/// The text of one decimal digit.
fn digit_text(d: u32) -> (text: &'static str)
    requires
        d < 10,
    ensures
        text@ == seq![digit_char(d as int)],
{
    proof {
        reveal_strlit("0");
        reveal_strlit("1");
        reveal_strlit("2");
        reveal_strlit("3");
        reveal_strlit("4");
        reveal_strlit("5");
        reveal_strlit("6");
        reveal_strlit("7");
        reveal_strlit("8");
        reveal_strlit("9");
    }
    let text = match d {
        0 => "0",
        1 => "1",
        2 => "2",
        3 => "3",
        4 => "4",
        5 => "5",
        6 => "6",
        7 => "7",
        8 => "8",
        _ => "9",
    };
    assert(text@ =~= seq![digit_char(d as int)]);
    text
}

/// Appends the decimal digits of a number to a text.
fn push_natural(out: &mut String, n: u32)
    ensures
        final(out)@ == old(out)@ + natural_text(n as nat),
    decreases n,
{
    if n >= 10 {
        push_natural(out, n / 10);
    }
    out.append(digit_text(n % 10));
    assert(final(out)@ =~= old(out)@ + natural_text(n as nat));
}

/// Writes a 32-bit integer in decimal.
pub fn integer_to_text(i: i32) -> (text: String)
    ensures
        text@ == integer_text(i as int),
{
    let mut text = String::new();
    if i < 0 {
        proof {
            reveal_strlit("-");
        }
        text.append("-");
        push_natural(&mut text, (-(i as i64)) as u32);
        assert(text@ =~= integer_text(i as int));
    } else {
        push_natural(&mut text, i as u32);
        assert(text@ =~= integer_text(i as int));
    }
    text
}

/// The digits written for a natural number are digits, and their value
/// is the number.
pub proof fn lemma_natural_text_reads_back(n: nat)
    ensures
        natural_text(n).len() > 0,
        all_digits(natural_text(n)),
        digits_value(natural_text(n)) == n,
    decreases n,
{
    let text = natural_text(n);
    if n < 10 {
        assert(text.drop_last() =~= Seq::<char>::empty());
        assert(digits_value(text.drop_last()) == 0);
    } else {
        lemma_natural_text_reads_back(n / 10);
        assert(text.drop_last() =~= natural_text(n / 10));
    }
}

/// What is written for a 32-bit integer reads back as that integer.
pub proof fn lemma_written_integer_reads_back(i: i32)
    ensures
        decimal_i32(integer_text(i as int)) == Some(i),
{
    let text = integer_text(i as int);
    if i < 0 {
        lemma_natural_text_reads_back((-i) as nat);
        assert(text.skip(1) =~= natural_text((-i) as nat));
    } else {
        lemma_natural_text_reads_back(i as nat);
    }
}

} // verus!
