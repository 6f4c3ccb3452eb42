//! Text: UTF-8, and numbers and bytes written out as characters.

use vstd::prelude::*;
use vstd::utf8::{decode_utf8, valid_utf8};

verus! {

/// The decimal digits of `n`, without leading zeros.
pub open spec fn decimal(n: nat) -> Seq<char>
    decreases n,
{
    if n < 10 {
        seq![digit(n)]
    } else {
        decimal(n / 10).push(digit(n % 10))
    }
}

/// The lower-case hexadecimal digits of `n`, without leading zeros.
pub open spec fn hexadecimal(n: nat) -> Seq<char>
    decreases n,
{
    if n < 16 {
        seq![digit(n)]
    } else {
        hexadecimal(n / 16).push(digit(n % 16))
    }
}

/// The character for a digit below sixteen.
pub open spec fn digit(n: nat) -> char {
    if n < 10 {
        ('0' as u32 + n) as char
    } else {
        ('a' as u32 + (n - 10)) as char
    }
}

/// Two lower-case hexadecimal digits for every byte, in order.
pub open spec fn hex_text(bytes: Seq<u8>) -> Seq<char> {
    Seq::new(
        2 * bytes.len(),
        |i: int|
            if i % 2 == 0 {
                digit((bytes[i / 2] / 16) as nat)
            } else {
                digit((bytes[i / 2] % 16) as nat)
            },
    )
}

/// `hex::encode`: every byte as two lower-case hexadecimal digits.
#[verifier::external_body]
pub(crate) fn hex_encode(bytes: &[u8]) -> (text: String)
    ensures
        text@ == hex_text(bytes@),
{
    hex::encode(bytes)
}

/// `std::str::from_utf8`: the text that the bytes encode, or nothing where they are no valid
/// UTF-8.
#[verifier::external_body]
pub(crate) fn utf8_text(bytes: &[u8]) -> (text: Option<&str>)
    ensures
        text is Some <==> valid_utf8(bytes@),
        text matches Some(s) ==> s@ == decode_utf8(bytes@),
{
    std::str::from_utf8(bytes).ok()
}

/// `std::string::String::push`: appends one character.
#[verifier::external_body]
fn push_char(text: &mut String, c: char)
    ensures
        final(text)@ == old(text)@.push(c),
{
    text.push(c)
}

/// The digit character of a number below sixteen.
fn digit_char(n: u8) -> (c: char)
    requires
        n < 16,
    ensures
        c == digit(n as nat),
{
    if n < 10 {
        (48u8 + n) as char
    } else {
        (97u8 + (n - 10)) as char
    }
}

/// Appends `n` in decimal.
pub fn push_decimal(text: &mut String, n: u128)
    ensures
        final(text)@ == old(text)@ + decimal(n as nat),
    decreases n,
{
    if n >= 10 {
        push_decimal(text, n / 10);
    }
    push_char(text, digit_char((n % 10) as u8));
}

/// Appends `n` in lower-case hexadecimal.
pub fn push_hexadecimal(text: &mut String, n: u128)
    ensures
        final(text)@ == old(text)@ + hexadecimal(n as nat),
    decreases n,
{
    if n >= 16 {
        push_hexadecimal(text, n / 16);
    }
    push_char(text, digit_char((n % 16) as u8));
}

/// The number that a digit stands for.
pub open spec fn digit_value(c: char) -> int {
    if c <= '9' {
        c as int - '0' as int
    } else {
        c as int - 'a' as int + 10
    }
}

/// The number that digits stand for.
pub open spec fn reads(text: Seq<char>, base: int) -> int
    decreases text.len(),
{
    if text.len() == 0 {
        0
    } else {
        reads(text.drop_last(), base) * base + digit_value(text.last())
    }
}

/// Whether a character is a digit below ten.
pub open spec fn is_decimal(c: char) -> bool {
    '0' <= c <= '9'
}

/// Whether a character is a lower-case hexadecimal digit.
pub open spec fn is_hexadecimal(c: char) -> bool {
    '0' <= c <= '9' || 'a' <= c <= 'f'
}

/// A digit stands for its number.
proof fn lemma_digit(n: nat)
    requires
        n < 16,
    ensures
        digit_value(digit(n)) == n,
        is_hexadecimal(digit(n)),
        n < 10 ==> is_decimal(digit(n)),
        n > 0 ==> digit(n) != '0',
{
}

/// A number in decimal consists of digits, the first of which is no zero unless it is the only one,
/// and reads as the number.
pub proof fn decimals_read_back(n: nat)
    ensures
        reads(decimal(n), 10) == n,
        decimal(n).len() > 0,
        n > 0 ==> decimal(n)[0] != '0',
        n == 0 ==> decimal(n).len() == 1,
        forall|i: int| 0 <= i < decimal(n).len() ==> is_decimal(#[trigger] decimal(n)[i]),
    decreases n,
{
    let text = decimal(n);
    if n < 10 {
        lemma_digit(n);
        assert(text.drop_last() =~= seq![]);
        assert(reads(text.drop_last(), 10) == 0);
    } else {
        decimals_read_back(n / 10);
        lemma_digit(n % 10);
        let front = decimal(n / 10);
        assert(text.drop_last() =~= front);
        assert(text[0] == front[0]);
        assert forall|i: int| 0 <= i < text.len() implies is_decimal(#[trigger] text[i]) by {
            if i < front.len() {
                assert(text[i] == front[i]);
            }
        }
    }
}

/// A number in hexadecimal consists of lower-case digits, the first of which is no zero unless it is
/// the only one, and reads as the number.
pub proof fn hexadecimals_read_back(n: nat)
    ensures
        reads(hexadecimal(n), 16) == n,
        hexadecimal(n).len() > 0,
        n > 0 ==> hexadecimal(n)[0] != '0',
        n == 0 ==> hexadecimal(n).len() == 1,
        forall|i: int|
            0 <= i < hexadecimal(n).len() ==> is_hexadecimal(#[trigger] hexadecimal(n)[i]),
    decreases n,
{
    let text = hexadecimal(n);
    if n < 16 {
        lemma_digit(n);
        assert(text.drop_last() =~= seq![]);
        assert(reads(text.drop_last(), 16) == 0);
    } else {
        hexadecimals_read_back(n / 16);
        lemma_digit(n % 16);
        let front = hexadecimal(n / 16);
        assert(text.drop_last() =~= front);
        assert(text[0] == front[0]);
        assert forall|i: int| 0 <= i < text.len() implies is_hexadecimal(#[trigger] text[i]) by {
            if i < front.len() {
                assert(text[i] == front[i]);
            }
        }
    }
}

/// Bytes in hexadecimal read back byte by byte.
pub proof fn bytes_read_back(bytes: Seq<u8>, i: int)
    requires
        0 <= i < bytes.len(),
    ensures
        hex_text(bytes).len() == 2 * bytes.len(),
        digit_value(hex_text(bytes)[2 * i]) * 16 + digit_value(hex_text(bytes)[2 * i + 1])
            == bytes[i],
        is_hexadecimal(hex_text(bytes)[2 * i]),
        is_hexadecimal(hex_text(bytes)[2 * i + 1]),
{
    lemma_digit((bytes[i] / 16) as nat);
    lemma_digit((bytes[i] % 16) as nat);
}

} // verus!
