//! Bytes written as pairs of hexadecimal digits.
use vstd::prelude::*;

use crate::text;

verus! {

/// The digit for a number below sixteen.
pub open spec fn hex_digit(n: int) -> char {
    if n < 10 {
        (48 + n) as char
    } else {
        (87 + n) as char
    }
}

/// Bytes in hexadecimal: two lower-case digits each, the higher one first.
pub open spec fn hex_text(bytes: Seq<u8>) -> Seq<char> {
    Seq::new(
        2 * bytes.len(),
        |i: int|
            if i % 2 == 0 {
                hex_digit(bytes[i / 2] as int / 16)
            } else {
                hex_digit(bytes[i / 2] as int % 16)
            },
    )
}

/// The number that a hexadecimal digit of either case stands for.
pub open spec fn digit_value(c: char) -> Option<int> {
    if '0' <= c <= '9' {
        Some(c as int - 48)
    } else if 'a' <= c <= 'f' {
        Some(c as int - 87)
    } else if 'A' <= c <= 'F' {
        Some(c as int - 55)
    } else {
        None
    }
}

/// The number that two characters stand for: two digits, or a plus sign and one.
pub open spec fn pair_value(a: char, b: char) -> Option<int> {
    match (digit_value(a), digit_value(b)) {
        (Some(high), Some(low)) => Some(high * 16 + low),
        (None, Some(low)) => if a == '+' {
            Some(low)
        } else {
            None
        },
        _ => None,
    }
}

/// Whether a text is made of pairs that stand for bytes.
pub open spec fn is_hex(s: Seq<char>) -> bool {
    &&& s.len() % 2 == 0
    &&& forall|k: int| 0 <= k < s.len() / 2 ==> (#[trigger] pair_value(s[2 * k], s[2 * k + 1])) is Some
}

/// The bytes that the pairs of a text stand for.
pub open spec fn hex_bytes(s: Seq<char>) -> Seq<u8> {
    Seq::new(s.len() / 2, |k: int| (pair_value(s[2 * k], s[2 * k + 1])->0) as u8)
}

fn digit_of(n: u8) -> (c: char)
    requires
        n < 16,
    ensures
        c == hex_digit(n as int),
{
    if n < 10 {
        (48 + n) as char
    } else {
        (87 + n) as char
    }
}

fn value_of(c: char) -> (value: Option<u8>)
    ensures
        match value {
            Some(v) => digit_value(c) == Some(v as int) && v < 16,
            None => digit_value(c) is None,
        },
{
    if '0' <= c && c <= '9' {
        Some((c as u32 - 48) as u8)
    } else if 'a' <= c && c <= 'f' {
        Some((c as u32 - 87) as u8)
    } else if 'A' <= c && c <= 'F' {
        Some((c as u32 - 55) as u8)
    } else {
        None
    }
}

/// The byte that two characters stand for.
pub fn hex_pair(a: char, b: char) -> (value: Option<u8>)
    ensures
        match value {
            Some(v) => pair_value(a, b) == Some(v as int),
            None => pair_value(a, b) is None,
        },
{
    match (value_of(a), value_of(b)) {
        (Some(high), Some(low)) => Some(high * 16 + low),
        (None, Some(low)) => if a == '+' {
            Some(low)
        } else {
            None
        },
        _ => None,
    }
}

/// Writes bytes in hexadecimal.
pub fn hex_encode(bytes: &[u8]) -> (result: String)
    ensures
        result@ == hex_text(bytes@),
{
    let mut result = String::new();
    let mut i: usize = 0;
    while i < bytes.len()
        invariant
            i <= bytes@.len(),
            result@ == hex_text(bytes@.take(i as int)),
        decreases bytes@.len() - i,
    {
        result.push(digit_of(bytes[i] / 16));
        result.push(digit_of(bytes[i] % 16));
        i += 1;
        assert(result@ == hex_text(bytes@.take(i as int)));
    }
    assert(bytes@.take(bytes@.len() as int) == bytes@);
    result
}

/// Reads bytes written in hexadecimal; nothing if the text is not made of pairs.
pub fn hex_decode(text: &str) -> (bytes: Option<Vec<u8>>)
    ensures
        match bytes {
            Some(read) => is_hex(text@) && read@ == hex_bytes(text@),
            None => !is_hex(text@),
        },
{
    let chars: Vec<char> = text::chars_of(text);
    if chars.len() % 2 != 0 {
        return None;
    }
    let mut bytes: Vec<u8> = Vec::new();
    let mut i: usize = 0;
    while i < chars.len()
        invariant
            chars@ == text@,
            chars@.len() % 2 == 0,
            i % 2 == 0,
            i <= chars@.len(),
            bytes@.len() == i / 2,
            forall|k: int|
                0 <= k < i / 2 ==> (#[trigger] pair_value(text@[2 * k], text@[2 * k + 1])) is Some,
            forall|k: int|
                0 <= k < i / 2 ==> bytes@[k] == (pair_value(
                    text@[2 * k],
                    text@[2 * k + 1],
                )->0) as u8,
        decreases chars@.len() - i,
    {
        let ghost k = i as int / 2;
        assert(2 * k == i);
        match hex_pair(chars[i], chars[i + 1]) {
            Some(byte) => {
                assert(pair_value(text@[2 * k], text@[2 * k + 1]) is Some);
                bytes.push(byte);
            },
            None => {
                assert(pair_value(text@[2 * k], text@[2 * k + 1]) is None);
                return None;
            },
        }
        i += 2;
    }
    assert(bytes@ == hex_bytes(text@));
    Some(bytes)
}

/// Bytes read back from their hexadecimal form.
pub proof fn law_hex_reads_back(bytes: Seq<u8>)
    ensures
        is_hex(hex_text(bytes)),
        hex_bytes(hex_text(bytes)) == bytes,
{
    let s = hex_text(bytes);
    assert forall|k: int| 0 <= k < s.len() / 2 implies (#[trigger] pair_value(
        s[2 * k],
        s[2 * k + 1],
    )) == Some(bytes[k] as int) by {
        assert((2 * k) / 2 == k && (2 * k + 1) / 2 == k);
        assert(s[2 * k] == hex_digit(bytes[k] as int / 16));
        assert(s[2 * k + 1] == hex_digit(bytes[k] as int % 16));
    }
    assert(hex_bytes(s) == bytes);
}

pub proof fn lemma_hex_characters(bytes: Seq<u8>, i: int)
    requires
        0 <= i < hex_text(bytes).len(),
    ensures
        ({
            let c = hex_text(bytes)[i];
            '0' <= c <= '9' || 'a' <= c <= 'f'
        }),
{
    assert(0 <= i / 2 < bytes.len());
}

/// Each byte is written as two digits, the higher half first: `0` to `9` for the
/// numbers below ten and `a` to `f` for the six above.
pub proof fn law_bytes_are_two_digits(bytes: Seq<u8>, k: int)
    requires
        0 <= k < bytes.len(),
    ensures
        hex_text(bytes).len() == 2 * bytes.len(),
        ({
            let high = bytes[k] as int / 16;
            let low = bytes[k] as int % 16;
            &&& high < 10 ==> hex_text(bytes)[2 * k] as int == '0' as int + high
            &&& high >= 10 ==> hex_text(bytes)[2 * k] as int == 'a' as int + high - 10
            &&& low < 10 ==> hex_text(bytes)[2 * k + 1] as int == '0' as int + low
            &&& low >= 10 ==> hex_text(bytes)[2 * k + 1] as int == 'a' as int + low - 10
        }),
{
    assert(2 * k % 2 == 0 && 2 * k / 2 == k && (2 * k + 1) % 2 == 1 && (2 * k + 1) / 2 == k);
}

/// Digits count the same in either case, and no other character is one.
pub proof fn law_digits_count_in_either_case(c: char)
    ensures
        '0' <= c <= '9' ==> digit_value(c) == Some(c as int - '0' as int),
        'a' <= c <= 'f' ==> digit_value(c) == Some(c as int - 'a' as int + 10),
        'A' <= c <= 'F' ==> digit_value(c) == Some(c as int - 'A' as int + 10),
        !('0' <= c <= '9' || 'a' <= c <= 'f' || 'A' <= c <= 'F') ==> digit_value(c) is None,
{
}

} // verus!
