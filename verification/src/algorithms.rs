//! Algorithms that confirm a candidate match, such as the Luhn checksum.

use vstd::prelude::*;

verus! {

/// The ASCII decimal digits.
pub open spec fn is_digit_byte(b: u8) -> bool {
    0x30 <= b <= 0x39
}

/// The ASCII decimal digits, as characters.
pub open spec fn is_digit_char(c: char) -> bool {
    '0' <= c <= '9'
}

/// What a doubled or plain digit adds to a Luhn sum.
pub open spec fn luhn_term(digit: int, doubled: bool) -> int {
    if !doubled {
        digit
    } else if 2 * digit > 9 {
        2 * digit - 9
    } else {
        2 * digit
    }
}

/// The Luhn sum of a sequence of digit values. The last digit is taken
/// plain when `doubled` is false, and every second digit leftwards from it
/// is doubled.
pub open spec fn luhn_total(digits: Seq<int>, doubled: bool) -> int
    decreases digits.len(),
{
    if digits.len() == 0 {
        0
    } else {
        luhn_total(digits.drop_last(), !doubled) + luhn_term(digits.last(), doubled)
    }
}

/// The mod-10 Luhn check on a sequence of digit values: there is at least
/// one digit, and the Luhn sum is a multiple of ten.
pub open spec fn luhn_holds(digits: Seq<int>) -> bool {
    digits.len() > 0 && luhn_total(digits, false) % 10 == 0
}

/// The values of the decimal digits of a byte string; meaningful where every
/// byte is a digit.
pub open spec fn byte_digits(data: Seq<u8>) -> Seq<int> {
    Seq::new(data.len(), |i: int| data[i] - 0x30)
}

/// A byte string passes the Luhn check: it is made of decimal digits only,
/// and their values satisfy `luhn_holds`.
pub open spec fn luhn_bytes(data: Seq<u8>) -> bool {
    (forall|i: int| 0 <= i < data.len() ==> is_digit_byte(#[trigger] data[i])) && luhn_holds(
        byte_digits(data),
    )
}

/// The values of the decimal digits of a text; meaningful where every
/// character is a digit.
pub open spec fn char_digits(text: Seq<char>) -> Seq<int> {
    Seq::new(text.len(), |i: int| text[i] as int - 0x30)
}

/// A text passes the Luhn check: it is made of decimal digits only, and
/// their values satisfy `luhn_holds`.
pub open spec fn luhn_text(text: Seq<char>) -> bool {
    (forall|i: int| 0 <= i < text.len() ==> is_digit_char(#[trigger] text[i])) && luhn_holds(
        char_digits(text),
    )
}

/// The values of the decimal digits that occur in a text, in order; every
/// other character is passed over.
pub open spec fn decimal_digits(text: Seq<char>) -> Seq<int>
    decreases text.len(),
{
    if text.len() == 0 {
        Seq::empty()
    } else if is_digit_char(text.last()) {
        decimal_digits(text.drop_last()).push(text.last() as int - 0x30)
    } else {
        decimal_digits(text.drop_last())
    }
}

/// In a text made of digits only, no character is passed over.
pub proof fn lemma_decimal_digits_of_digits(text: Seq<char>)
    requires
        forall|i: int| 0 <= i < text.len() ==> is_digit_char(#[trigger] text[i]),
    ensures
        decimal_digits(text) == char_digits(text),
    decreases text.len(),
{
    if text.len() > 0 {
        lemma_decimal_digits_of_digits(text.drop_last());
        assert(decimal_digits(text) =~= char_digits(text));
    } else {
        assert(decimal_digits(text) =~= char_digits(text));
    }
}

/// Whether the digit at `at` is doubled, in a sequence of `len` digits
/// whose last digit is doubled or not as `doubled` says.
pub open spec fn doubled_at(len: int, at: int, doubled: bool) -> bool {
    if (len - 1 - at) % 2 == 0 {
        doubled
    } else {
        !doubled
    }
}

/// Replacing one digit changes the Luhn sum by the difference of what the
/// two digits add to it.
pub proof fn lemma_luhn_total_update(digits: Seq<int>, doubled: bool, at: int, value: int)
    requires
        0 <= at < digits.len(),
    ensures
        luhn_total(digits.update(at, value), doubled) == luhn_total(digits, doubled) + luhn_term(
            value,
            doubled_at(digits.len() as int, at, doubled),
        ) - luhn_term(digits[at], doubled_at(digits.len() as int, at, doubled)),
    decreases digits.len(),
{
    let changed = digits.update(at, value);
    if at == digits.len() - 1 {
        assert(changed.drop_last() =~= digits.drop_last());
    } else {
        assert(changed.drop_last() =~= digits.drop_last().update(at, value));
        lemma_luhn_total_update(digits.drop_last(), !doubled, at, value);
    }
}

/// The Luhn check catches every change of a single digit: where a digit
/// string passes, the string with one digit replaced by another fails.
pub proof fn lemma_luhn_rejects_single_digit_change(digits: Seq<int>, at: int, value: int)
    requires
        luhn_holds(digits),
        0 <= at < digits.len(),
        0 <= digits[at] <= 9,
        0 <= value <= 9,
        value != digits[at],
    ensures
        !luhn_holds(digits.update(at, value)),
{
    lemma_luhn_total_update(digits, false, at, value);
    let flag = doubled_at(digits.len() as int, at, false);
    let delta = luhn_term(value, flag) - luhn_term(digits[at], flag);
    assert(-9 <= delta <= 9 && delta != 0);
}

/// The first byte of the UTF-8 encoding of a character that is not a
/// decimal digit is not a decimal digit either.
pub proof fn lemma_first_byte_of_non_digit(c: char)
    requires
        !is_digit_char(c),
    ensures
        vstd::utf8::encode_scalar(c as u32).len() > 0,
        !is_digit_byte(vstd::utf8::encode_scalar(c as u32)[0]),
{
    let v = c as u32;
    assert(v <= 0x7F ==> (v & 0x7F) as u8 == v) by (bit_vector);
    assert((0xC0u8 | ((v >> 6) & 0x1F) as u8) >= 0xC0) by (bit_vector);
    assert((0xE0u8 | ((v >> 12) & 0x0F) as u8) >= 0xE0) by (bit_vector);
    assert((0xF0u8 | ((v >> 18) & 0x7) as u8) >= 0xF0) by (bit_vector);
}

/// The UTF-8 encoding of a text is made of decimal digits only exactly
/// where the text is, and the digits then have the same values.
pub proof fn lemma_digits_of_encoding(text: Seq<char>)
    ensures
        (forall|i: int|
            0 <= i < vstd::utf8::encode_utf8(text).len() ==> is_digit_byte(
                #[trigger] vstd::utf8::encode_utf8(text)[i],
            )) <==> (forall|i: int| 0 <= i < text.len() ==> is_digit_char(#[trigger] text[i])),
        (forall|i: int| 0 <= i < text.len() ==> is_digit_char(#[trigger] text[i]))
            ==> byte_digits(vstd::utf8::encode_utf8(text)) == char_digits(text),
    decreases text.len(),
{
    let bytes = vstd::utf8::encode_utf8(text);
    if forall|i: int| 0 <= i < text.len() ==> is_digit_char(#[trigger] text[i]) {
        assert(vstd::utf8::is_ascii_chars(text));
        vstd::utf8::is_ascii_chars_encode_utf8(text);
        assert forall|i: int| 0 <= i < bytes.len() implies is_digit_byte(#[trigger] bytes[i]) by {
            assert(is_digit_char(text[i]));
        }
        assert(byte_digits(bytes) =~= char_digits(text)) by {
            assert forall|i: int| 0 <= i < text.len() implies byte_digits(bytes)[i]
                == char_digits(text)[i] by {
                assert(is_digit_char(text[i]));
                assert(bytes[i] == text[i] as u8);
            }
        }
    } else {
        let bad = choose|i: int| 0 <= i < text.len() && !is_digit_char(#[trigger] text[i]);
        let head = vstd::utf8::encode_scalar(text[0] as u32);
        let rest = text.drop_first();
        assert(bytes == head + vstd::utf8::encode_utf8(rest));
        if bad == 0 {
            lemma_first_byte_of_non_digit(text[0]);
            assert(bytes[0] == head[0]);
            assert(!is_digit_byte(bytes[0]));
        } else {
            lemma_digits_of_encoding(rest);
            assert(!is_digit_char(rest[bad - 1]));
            let tail = vstd::utf8::encode_utf8(rest);
            let j = choose|j: int| 0 <= j < tail.len() && !is_digit_byte(#[trigger] tail[j]);
            assert(bytes[head.len() + j] == tail[j]);
            assert(!is_digit_byte(bytes[head.len() + j]));
        }
    }
}

/// An algorithm gives a text and its UTF-8 encoding the same answer.
pub proof fn lemma_text_and_bytes_agree(algorithm: AlgorithmName, text: Seq<char>)
    ensures
        algorithm.accepts_text(text) == algorithm.accepts_bytes(vstd::utf8::encode_utf8(text)),
{
    lemma_digits_of_encoding(text);
}

/// Calls `luhn::valid`, which keeps the decimal digits of the text, passes
/// over every other character, and answers whether at least one digit is
/// left and the Luhn sum of the digits is a multiple of ten.
#[verifier::external_body]
fn luhn_valid(text: &str) -> (ok: bool)
    ensures
        ok == luhn_holds(decimal_digits(text@)),
{
    luhn::valid(text)
}

/// Whether every byte is an ASCII decimal digit.
pub fn all_digit_bytes(data: &[u8]) -> (ok: bool)
    ensures
        ok == (forall|i: int| 0 <= i < data.len() ==> is_digit_byte(#[trigger] data[i])),
{
    let mut i: usize = 0;
    while i < data.len()
        invariant
            i <= data.len(),
            forall|j: int| 0 <= j < i ==> is_digit_byte(#[trigger] data[j]),
        decreases data.len() - i,
    {
        if data[i] < 0x30 || data[i] > 0x39 {
            return false;
        }
        i += 1;
    }
    true
}

/// The Luhn check on a byte string, with no decoding: a byte that is not a
/// decimal digit fails the check.
pub fn luhn_valid_bytes(data: &[u8]) -> (ok: bool)
    ensures
        ok == luhn_bytes(data@),
{
    let n: usize = data.len();
    if n == 0 || !all_digit_bytes(data) {
        return false;
    }
    let ghost digits = byte_digits(data@);
    let ghost mut total: int = 0;
    let mut acc: u8 = 0;
    let mut doubled: bool = false;
    let mut i: usize = n;
    assert(digits.take(n as int) =~= digits);
    while i > 0
        invariant
            n == data.len(),
            i <= n,
            digits == byte_digits(data@),
            forall|j: int| 0 <= j < n ==> is_digit_byte(#[trigger] data[j]),
            total >= 0,
            acc < 10,
            acc == total % 10,
            luhn_total(digits, false) == luhn_total(digits.take(i as int), doubled) + total,
        decreases i,
    {
        let d: u8 = data[i - 1] - 0x30;
        let term: u8 = if !doubled {
            d
        } else if 2 * d > 9 {
            2 * d - 9
        } else {
            2 * d
        };
        proof {
            let prefix = digits.take(i as int);
            assert(prefix.last() == d);
            assert(prefix.drop_last() =~= digits.take(i - 1));
            assert(term == luhn_term(d as int, doubled));
            total = total + term;
        }
        acc = (acc + term) % 10;
        doubled = !doubled;
        i -= 1;
    }
    assert(digits.take(0).len() == 0);
    acc == 0
}

/// The Luhn check on a text: a character that is not a decimal digit fails
/// the check.
pub fn luhn_valid_text(text: &str) -> (ok: bool)
    ensures
        ok == luhn_text(text@),
{
    if !text.is_ascii() {
        return false;
    }
    let bytes = text.as_bytes();
    proof {
        vstd::utf8::is_ascii_chars_encode_utf8(text@);
    }
    if !all_digit_bytes(bytes) {
        return false;
    }
    proof {
        assert forall|i: int| 0 <= i < text@.len() implies is_digit_char(#[trigger] text@[i]) by {
            assert(is_digit_byte(bytes@[i]));
        }
        lemma_decimal_digits_of_digits(text@);
    }
    luhn_valid(text)
}

/// The algorithms that can confirm a candidate match.
#[derive(Copy, Clone, PartialEq, Eq, Structural, Debug)]
pub enum AlgorithmName {
    /// Accepts every candidate.
    AlwaysTrue,
    /// Accepts the digit strings that pass the Luhn check.
    LuhnNumbers,
}

impl Default for AlgorithmName {
    fn default() -> (algorithm: Self)
        ensures
            algorithm == AlgorithmName::AlwaysTrue,
    {
        AlgorithmName::AlwaysTrue
    }
}

impl AlgorithmName {
    /// The name under which the algorithm is reported.
    pub fn label(&self) -> (text: &'static str)
        ensures
            text@ == (match *self {
                AlgorithmName::AlwaysTrue => "AlwaysTrue"@,
                AlgorithmName::LuhnNumbers => "Luhn"@,
            }),
    {
        match self {
            AlgorithmName::AlwaysTrue => "AlwaysTrue",
            AlgorithmName::LuhnNumbers => "Luhn",
        }
    }
}

/// A check that confirms or rejects a candidate match, given as raw bytes or
/// as text.
pub trait AlgorithmMethods {
    /// The byte strings that the algorithm accepts.
    spec fn accepts_bytes(&self, data: Seq<u8>) -> bool;

    /// The texts that the algorithm accepts.
    spec fn accepts_text(&self, text: Seq<char>) -> bool;

    fn validate_bytes(&self, data: &[u8]) -> (ok: bool)
        ensures
            ok == self.accepts_bytes(data@),
    ;

    fn validate_string(&self, data: &str) -> (ok: bool)
        ensures
            ok == self.accepts_text(data@),
    ;
}

impl AlgorithmMethods for AlgorithmName {
    open spec fn accepts_bytes(&self, data: Seq<u8>) -> bool {
        match *self {
            AlgorithmName::AlwaysTrue => true,
            AlgorithmName::LuhnNumbers => luhn_bytes(data),
        }
    }

    open spec fn accepts_text(&self, text: Seq<char>) -> bool {
        match *self {
            AlgorithmName::AlwaysTrue => true,
            AlgorithmName::LuhnNumbers => luhn_text(text),
        }
    }

    fn validate_bytes(&self, data: &[u8]) -> (ok: bool) {
        match self {
            AlgorithmName::AlwaysTrue => true,
            AlgorithmName::LuhnNumbers => luhn_valid_bytes(data),
        }
    }

    fn validate_string(&self, data: &str) -> (ok: bool) {
        match self {
            AlgorithmName::AlwaysTrue => true,
            AlgorithmName::LuhnNumbers => luhn_valid_text(data),
        }
    }
}

} // verus!
