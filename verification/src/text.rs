//! The text format of a slot: a JSON object with one numeric member, padded
//! with spaces to a fixed width.

use vstd::prelude::*;
use vstd::slice::slice_subrange;
use crate::error::TsdfError;

verus! {

/// The widest that the decimal form of a 64-bit number gets.
pub const MAX_DECIMAL_DIGITS: u64 = 20;

/// The decimal form of `n` in ASCII, most significant digit first and without
/// leading zeros.
pub open spec fn decimal_digits(n: nat) -> Seq<u8>
    decreases n,
{
    if n < 10 {
        seq![(48 + n) as u8]
    } else {
        decimal_digits(n / 10).push((48 + n % 10) as u8)
    }
}

/// Whether `b` is an ASCII decimal digit.
pub open spec fn is_digit(b: u8) -> bool {
    48 <= b <= 57
}

/// Whether `text` holds ASCII decimal digits and nothing else.
pub open spec fn all_digits(text: Seq<u8>) -> bool {
    forall|i: int| 0 <= i < text.len() ==> is_digit(#[trigger] text[i])
}

/// The number that a run of decimal digits stands for.
pub open spec fn decimal_value(text: Seq<u8>) -> nat
    decreases text.len(),
{
    if text.len() == 0 {
        0
    } else {
        (decimal_value(text.drop_last()) * 10 + (text.last() - 48)) as nat
    }
}

/// The JSON object with the single member `field`, whose value is the number
/// `n`, written without any white space.
pub open spec fn json_object(field: Seq<u8>, n: u64) -> Seq<u8> {
    seq![123u8, 34u8] + field + seq![34u8, 58u8] + decimal_digits(n as nat) + seq![125u8]
}

/// `text`, followed by as many spaces as it takes to reach `width` bytes. A
/// text that is already that wide stays as it is.
pub open spec fn space_padded(text: Seq<u8>, width: int) -> Seq<u8> {
    if text.len() < width {
        text + Seq::new((width - text.len()) as nat, |i: int| 32u8)
    } else {
        text
    }
}

/// `text` without the spaces at its end.
pub open spec fn padding_stripped(text: Seq<u8>) -> Seq<u8>
    decreases text.len(),
{
    if text.len() > 0 && text.last() == 32u8 {
        padding_stripped(text.drop_last())
    } else {
        text
    }
}

/// The number that `text` holds, where `text` is exactly the JSON object with
/// the single member `field` and a number for its value, followed by any
/// number of spaces.
pub open spec fn json_object_number(field: Seq<u8>, text: Seq<u8>) -> Option<u64> {
    let core = padding_stripped(text);
    if exists|n: u64| core == json_object(field, n) {
        Some(choose|n: u64| core == json_object(field, n))
    } else {
        None
    }
}

/// The number that `text` holds, where `text` is exactly the decimal form of
/// a 64-bit number, followed by any number of spaces.
pub open spec fn json_number(text: Seq<u8>) -> Option<u64> {
    let core = padding_stripped(text);
    if exists|n: u64| core == decimal_digits(n as nat) {
        Some(choose|n: u64| core == decimal_digits(n as nat))
    } else {
        None
    }
}

/// Whether every byte of `text` is an ASCII character.
pub open spec fn all_ascii(text: Seq<u8>) -> bool {
    forall|i: int| 0 <= i < text.len() ==> #[trigger] text[i] < 128
}

/// The characters that a run of ASCII bytes stands for.
pub open spec fn ascii_chars(text: Seq<u8>) -> Seq<char> {
    Seq::new(text.len(), |i: int| text[i] as char)
}

/// The bytes of a run of ASCII characters.
pub open spec fn ascii_bytes(chars: Seq<char>) -> Seq<u8> {
    Seq::new(chars.len(), |i: int| chars[i] as u8)
}

/// The decimal form of any number is a nonempty run of digits that stands
/// for that number.
pub proof fn lemma_decimal_digits(n: nat)
    ensures
        decimal_digits(n).len() >= 1,
        all_digits(decimal_digits(n)),
        decimal_value(decimal_digits(n)) == n,
    decreases n,
{
    if n < 10 {
        let d = decimal_digits(n);
        assert(d.drop_last() =~= Seq::<u8>::empty());
        assert(decimal_value(d.drop_last()) == 0);
    } else {
        lemma_decimal_digits(n / 10);
        let d = decimal_digits(n);
        assert(d.drop_last() =~= decimal_digits(n / 10));
        assert(d.last() == (48 + n % 10) as u8);
    }
}

/// Two numbers with the same decimal form are the same number.
pub proof fn lemma_decimal_digits_injective(a: nat, b: nat)
    requires
        decimal_digits(a) == decimal_digits(b),
    ensures
        a == b,
{
    lemma_decimal_digits(a);
    lemma_decimal_digits(b);
}

spec fn pow10(k: nat) -> nat
    decreases k,
{
    if k == 0 {
        1
    } else {
        10 * pow10((k - 1) as nat)
    }
}

proof fn lemma_decimal_digits_len(n: nat, k: nat)
    requires
        k >= 1,
        n < pow10(k),
    ensures
        decimal_digits(n).len() <= k,
    decreases n,
{
    if n >= 10 {
        assert(k >= 2) by {
            if k == 1 {
                assert(pow10(1) == 10 * pow10(0));
            }
        }
        assert(pow10(k) == 10 * pow10((k - 1) as nat));
        lemma_decimal_digits_len(n / 10, (k - 1) as nat);
    }
}

/// The decimal form of a 64-bit number has at most twenty digits.
pub proof fn lemma_decimal_digits_width(n: u64)
    ensures
        1 <= decimal_digits(n as nat).len() <= MAX_DECIMAL_DIGITS,
{
    lemma_decimal_digits(n as nat);
    assert(pow10(20) == 100000000000000000000nat) by {
        reveal_with_fuel(pow10, 21);
    }
    lemma_decimal_digits_len(n as nat, 20);
}

/// Where the parts of a JSON object of one numeric member lie.
pub proof fn lemma_json_object_parts(field: Seq<u8>, n: u64)
    ensures
        json_object(field, n).len() == field.len() + 5 + decimal_digits(n as nat).len(),
        json_object(field, n).subrange(
            field.len() as int + 4,
            json_object(field, n).len() - 1,
        ) == decimal_digits(n as nat),
        json_object(field, n).last() == 125u8,
{
    let object = json_object(field, n);
    let digits = decimal_digits(n as nat);
    assert(object.subrange(field.len() as int + 4, object.len() - 1) =~= digits);
}

/// A JSON object of one numeric member is ASCII where the member's name is.
pub proof fn lemma_json_object_ascii(field: Seq<u8>, n: u64, width: int)
    requires
        all_ascii(field),
    ensures
        all_ascii(json_object(field, n)),
        all_ascii(space_padded(json_object(field, n), width)),
{
    lemma_decimal_digits(n as nat);
    let digits = decimal_digits(n as nat);
    let object = json_object(field, n);
    assert forall|i: int| 0 <= i < object.len() implies #[trigger] object[i] < 128 by {
        if i < 2 {
        } else if i < 2 + field.len() {
            assert(object[i] == field[i - 2]);
        } else if i < 4 + field.len() {
        } else if i < 4 + field.len() + digits.len() {
            assert(object[i] == digits[i - 4 - field.len()]);
            assert(is_digit(digits[i - 4 - field.len()]));
        } else {
        }
    }
}

/// Stripping removes exactly the spaces that padding has added.
pub proof fn lemma_padding_stripped(text: Seq<u8>, width: int)
    requires
        text.len() > 0,
        text.last() != 32u8,
    ensures
        padding_stripped(space_padded(text, width)) == text,
    decreases width - text.len(),
{
    if text.len() < width {
        let wide = space_padded(text, width);
        assert(wide.last() == 32u8);
        assert(wide.drop_last() =~= space_padded(text, width - 1));
        lemma_padding_stripped(text, width - 1);
    }
}

/// A padded JSON object decodes to the number that it was made from.
pub proof fn lemma_json_object_round_trip(field: Seq<u8>, n: u64, width: int)
    ensures
        json_object_number(field, space_padded(json_object(field, n), width)) == Some(n),
{
    let object = json_object(field, n);
    lemma_json_object_parts(field, n);
    lemma_padding_stripped(object, width);
    let m = choose|m: u64| object == json_object(field, m);
    lemma_json_object_parts(field, m);
    lemma_decimal_digits_injective(n as nat, m as nat);
}

/// A padded number decodes to the number that it was made from.
pub proof fn lemma_json_number_round_trip(n: u64, width: int)
    ensures
        json_number(space_padded(decimal_digits(n as nat), width)) == Some(n),
        all_ascii(space_padded(decimal_digits(n as nat), width)),
{
    let digits = decimal_digits(n as nat);
    lemma_decimal_digits(n as nat);
    assert(is_digit(digits.last()));
    lemma_padding_stripped(digits, width);
    let m = choose|m: u64| digits == decimal_digits(m as nat);
    lemma_decimal_digits_injective(n as nat, m as nat);
    let padded = space_padded(digits, width);
    assert forall|i: int| 0 <= i < padded.len() implies #[trigger] padded[i] < 128 by {
        if i < digits.len() {
            assert(is_digit(digits[i]));
        }
    }
}

/// The outside type in which `serde_json` reports why a text is no JSON of
/// the shape asked for.
#[verifier::external_type_specification]
#[verifier::external_body]
pub struct ExJsonError(serde_json::Error);

/// `serde_json::to_vec` on a 64-bit unsigned number: the JSON text of such a
/// number is its decimal form.
#[verifier::external_body]
pub(crate) fn json_number_text(n: u64) -> (text: Vec<u8>)
    ensures
        text@ == decimal_digits(n as nat),
{
    serde_json::to_vec(&n).unwrap_or_default()
}

/// `serde_json::from_slice` for a 64-bit unsigned number, on a text of
/// digits: it yields the number of which the text is the decimal form, and
/// refuses a text that is the decimal form of no such number (an empty one,
/// one with a leading zero, one too large).
#[verifier::external_body]
fn json_number_value(text: &[u8]) -> (r: Result<u64, serde_json::Error>)
    requires
        all_digits(text@),
    ensures
        match r {
            Ok(n) => text@ == decimal_digits(n as nat),
            Err(_) => forall|n: u64| text@ != decimal_digits(n as nat),
        },
{
    serde_json::from_slice::<u64>(text)
}

/// `String::from_utf8` on ASCII bytes: the string has one character for each
/// byte.
#[verifier::external_body]
pub(crate) fn ascii_string(text: Vec<u8>) -> (s: String)
    requires
        all_ascii(text@),
    ensures
        s@ == ascii_chars(text@),
{
    String::from_utf8(text).unwrap_or_default()
}

/// Adds the bytes of `more` to the end of `text`.
pub fn append_bytes(text: &mut Vec<u8>, more: &[u8])
    ensures
        final(text)@ == old(text)@ + more@,
{
    let mut i: usize = 0;
    while i < more.len()
        invariant
            i <= more@.len(),
            text@ == old(text)@ + more@.subrange(0, i as int),
        decreases more@.len() - i,
    {
        text.push(more[i]);
        i = i + 1;
        assert(text@ =~= old(text)@ + more@.subrange(0, i as int));
    }
    assert(more@.subrange(0, more@.len() as int) =~= more@);
}

/// Writes the JSON object with the single member `field` and the value `n`.
pub fn json_object_text(field: &[u8], n: u64) -> (text: Vec<u8>)
    ensures
        text@ == json_object(field@, n),
{
    let mut text: Vec<u8> = Vec::new();
    text.push(123u8);
    text.push(34u8);
    append_bytes(&mut text, field);
    text.push(34u8);
    text.push(58u8);
    let digits = json_number_text(n);
    append_bytes(&mut text, digits.as_slice());
    text.push(125u8);
    assert(text@ =~= json_object(field@, n));
    text
}

/// Pads `text` on the right with spaces up to `width` bytes.
pub fn pad_with_spaces(text: Vec<u8>, width: u64) -> (padded: Vec<u8>)
    ensures
        padded@ == space_padded(text@, width as int),
{
    let mut padded = text;
    let ghost start = padded@;
    while (padded.len() as u64) < width
        invariant
            start == text@,
            padded@.len() >= start.len(),
            padded@.len() <= width || padded@.len() == start.len(),
            padded@ == start + Seq::new((padded@.len() - start.len()) as nat, |i: int| 32u8),
        decreases width - padded@.len(),
    {
        let ghost before = padded@;
        padded.push(32u8);
        assert(padded@ =~= start + Seq::new((padded@.len() - start.len()) as nat, |i: int| 32u8));
    }
    assert(padded@ =~= space_padded(text@, width as int));
    padded
}

/// Whether `text` holds ASCII decimal digits and nothing else.
pub fn is_all_digits(text: &[u8]) -> (r: bool)
    ensures
        r == all_digits(text@),
{
    let mut i: usize = 0;
    while i < text.len()
        invariant
            i <= text@.len(),
            forall|j: int| 0 <= j < i ==> is_digit(#[trigger] text@[j]),
        decreases text@.len() - i,
    {
        if text[i] < 48 || text[i] > 57 {
            return false;
        }
        i = i + 1;
    }
    true
}

/// Whether every byte of `text` is an ASCII character.
pub fn is_all_ascii(text: &[u8]) -> (r: bool)
    ensures
        r == all_ascii(text@),
{
    let mut i: usize = 0;
    while i < text.len()
        invariant
            i <= text@.len(),
            forall|j: int| 0 <= j < i ==> #[trigger] text@[j] < 128,
        decreases text@.len() - i,
    {
        if text[i] >= 128 {
            return false;
        }
        i = i + 1;
    }
    true
}

/// Whether two runs of bytes are the same.
pub fn same_bytes(a: &[u8], b: &[u8]) -> (r: bool)
    ensures
        r == (a@ == b@),
{
    if a.len() != b.len() {
        return false;
    }
    let mut i: usize = 0;
    while i < a.len()
        invariant
            i <= a@.len(),
            a@.len() == b@.len(),
            forall|j: int| 0 <= j < i ==> a@[j] == b@[j],
        decreases a@.len() - i,
    {
        if a[i] != b[i] {
            return false;
        }
        i = i + 1;
    }
    assert(a@ =~= b@);
    true
}

/// Where the text ends that stands before the spaces at the end of `text`.
pub fn padding_start(text: &[u8]) -> (end: usize)
    ensures
        end <= text@.len(),
        padding_stripped(text@) == text@.subrange(0, end as int),
{
    let mut end: usize = text.len();
    assert(text@.subrange(0, end as int) =~= text@);
    while end > 0 && text[end - 1] == 32u8
        invariant
            end <= text@.len(),
            padding_stripped(text@) == padding_stripped(text@.subrange(0, end as int)),
        decreases end,
    {
        assert(text@.subrange(0, end as int).drop_last() =~= text@.subrange(0, end - 1));
        end = end - 1;
    }
    end
}

/// Reads a padded number. Anything but the decimal form of a 64-bit number,
/// followed by spaces only, is refused with `CorruptEncoding`.
pub fn number_value(text: &[u8]) -> (r: Result<u64, TsdfError>)
    ensures
        r == (match json_number(text@) {
            Some(n) => Ok::<u64, TsdfError>(n),
            None => Err::<u64, TsdfError>(TsdfError::CorruptEncoding),
        }),
{
    let end = padding_start(text);
    let digits = slice_subrange(text, 0, end);
    if !is_all_digits(digits) {
        proof {
            assert forall|m: u64| digits@ != decimal_digits(m as nat) by {
                lemma_decimal_digits(m as nat);
            }
        }
        return Err(TsdfError::CorruptEncoding);
    }
    match json_number_value(digits) {
        Ok(n) => {
            proof {
                let m = choose|m: u64| digits@ == decimal_digits(m as nat);
                lemma_decimal_digits_injective(n as nat, m as nat);
            }
            Ok(n)
        },
        Err(_) => Err(TsdfError::CorruptEncoding),
    }
}

/// Reads the number out of a padded JSON object with the single member
/// `field`. Anything but the exact text that `json_object_text` writes for
/// some number, followed by spaces only, is refused with `CorruptEncoding`.
pub fn json_object_value(field: &[u8], text: &[u8]) -> (r: Result<u64, TsdfError>)
    ensures
        r == (match json_object_number(field@, text@) {
            Some(n) => Ok::<u64, TsdfError>(n),
            None => Err::<u64, TsdfError>(TsdfError::CorruptEncoding),
        }),
{
    let end = padding_start(text);
    let ghost core = text@.subrange(0, end as int);
    proof {
        assert forall|m: u64| core == json_object(field@, m) implies core.len() >= field@.len()
            + 6 && core.subrange(field@.len() as int + 4, core.len() - 1) == decimal_digits(
            m as nat,
        ) by {
            lemma_json_object_parts(field@, m);
            lemma_decimal_digits(m as nat);
        }
    }
    if field.len() > usize::MAX - 6 || end < field.len() + 6 {
        return Err(TsdfError::CorruptEncoding);
    }
    let middle = slice_subrange(text, field.len() + 4, end - 1);
    assert(middle@ =~= core.subrange(field@.len() as int + 4, core.len() - 1));
    if !is_all_digits(middle) {
        proof {
            assert forall|m: u64| core != json_object(field@, m) by {
                lemma_decimal_digits(m as nat);
            }
        }
        return Err(TsdfError::CorruptEncoding);
    }
    match json_number_value(middle) {
        Ok(n) => {
            let expected = json_object_text(field, n);
            if same_bytes(slice_subrange(text, 0, end), expected.as_slice()) {
                proof {
                    let m = choose|m: u64| core == json_object(field@, m);
                    lemma_decimal_digits_injective(n as nat, m as nat);
                }
                Ok(n)
            } else {
                proof {
                    assert forall|m: u64| core != json_object(field@, m) by {
                        if core == json_object(field@, m) {
                            lemma_decimal_digits_injective(n as nat, m as nat);
                        }
                    }
                }
                Err(TsdfError::CorruptEncoding)
            }
        },
        Err(_) => Err(TsdfError::CorruptEncoding),
    }
}

} // verus!
