//! Text as sequences of characters: character classes, trimming, splitting,
//! searching, and decimal numbers.
use vstd::prelude::*;

use crate::order::Ranked;

verus! {

/// Appends one character, as `String::push` documents.
pub assume_specification[ String::push ](s: &mut String, c: char)
    ensures
        final(s)@ == old(s)@.push(c),
;

/// Removes and returns the last character, as `String::pop` documents.
pub assume_specification[ String::pop ](s: &mut String) -> (last: Option<char>)
    ensures
        old(s)@.len() == 0 ==> last is None && final(s)@ == old(s)@,
        old(s)@.len() > 0 ==> last == Some(old(s)@.last()) && final(s)@ == old(s)@.drop_last(),
;

/// The lower-case form of a text, as Unicode's full case mapping gives it.
pub uninterp spec fn lowercase(text: Seq<char>) -> Seq<char>;

/// Whether a text holds the characters of ASCII only.
pub open spec fn ascii(text: Seq<char>) -> bool {
    forall|i: int| 0 <= i < text.len() ==> #[trigger] text[i] as u32 <= 0x7f
}

/// The lower-case form of an ASCII letter; every other character as it is.
pub open spec fn ascii_lower(c: char) -> char {
    if 'A' <= c && c <= 'Z' {
        (c as u32 + 32) as char
    } else {
        c
    }
}

/// A text with its ASCII letters in lower case.
pub open spec fn ascii_lowered(text: Seq<char>) -> Seq<char> {
    text.map_values(|c: char| ascii_lower(c))
}

/// ASCII stays ASCII in lower case, character for character.
pub proof fn lemma_ascii_lowered(text: Seq<char>)
    requires
        ascii(text),
    ensures
        ascii_lowered(text).len() == text.len(),
        ascii(ascii_lowered(text)),
{
}

/// Calls `str::to_lowercase`. In a text of ASCII alone, `A` to `Z` become `a` to
/// `z` and the rest stays; the result for other texts is named, not described.
#[verifier::external_body]
pub(crate) fn to_lowercase(text: &str) -> (lower: String)
    ensures
        lower@ == lowercase(text@),
        ascii(text@) ==> lower@ == ascii_lowered(text@),
{
    text.to_lowercase()
}

/// The upper-case form of a text, as Unicode's full case mapping gives it.
pub uninterp spec fn uppercase(text: Seq<char>) -> Seq<char>;

/// The upper-case form of an ASCII letter; every other character as it is.
pub open spec fn ascii_upper(c: char) -> char {
    if 'a' <= c && c <= 'z' {
        (c as u32 - 32) as char
    } else {
        c
    }
}

/// A text with its ASCII letters in upper case.
pub open spec fn ascii_uppered(text: Seq<char>) -> Seq<char> {
    text.map_values(|c: char| ascii_upper(c))
}

/// Calls `str::to_uppercase`. In a text of ASCII alone, `a` to `z` become `A` to
/// `Z` and the rest stays; the result for other texts is named, not described.
#[verifier::external_body]
pub(crate) fn to_uppercase(text: &str) -> (upper: String)
    ensures
        upper@ == uppercase(text@),
        ascii(text@) ==> upper@ == ascii_uppered(text@),
{
    text.to_uppercase()
}

/// Calls `String::from_utf8`, which accepts exactly the well-formed byte
/// sequences and returns the characters that they encode.
#[verifier::external_body]
pub(crate) fn utf8_to_string(bytes: Vec<u8>) -> (text: Option<String>)
    ensures
        text is Some <==> vstd::utf8::valid_utf8(bytes@),
        text matches Some(s) ==> s@ == vstd::utf8::decode_utf8(bytes@),
{
    String::from_utf8(bytes).ok()
}

/// What a byte sequence reads as when every malformed part is shown as the
/// replacement character.
pub uninterp spec fn utf8_lossy(bytes: Seq<u8>) -> Seq<char>;

/// Calls `String::from_utf8_lossy`. Well-formed bytes decode to their
/// characters; the reading of malformed bytes is named, not described.
#[verifier::external_body]
pub(crate) fn utf8_to_string_lossy(bytes: &[u8]) -> (text: String)
    ensures
        text@ == utf8_lossy(bytes@),
        vstd::utf8::valid_utf8(bytes@) ==> text@ == vstd::utf8::decode_utf8(bytes@),
{
    String::from_utf8_lossy(bytes).into_owned()
}

/// The characters with Unicode's `White_Space` property.
pub open spec fn space(c: char) -> bool {
    let u = c as u32;
    ||| 0x09 <= u <= 0x0d
    ||| u == 0x20
    ||| u == 0x85
    ||| u == 0xa0
    ||| u == 0x1680
    ||| 0x2000 <= u <= 0x200a
    ||| u == 0x2028
    ||| u == 0x2029
    ||| u == 0x202f
    ||| u == 0x205f
    ||| u == 0x3000
}

/// Whether a character is white space.
pub fn is_space(c: char) -> (yes: bool)
    ensures
        yes == space(c),
{
    let u: u32 = c as u32;
    (0x09 <= u && u <= 0x0d) || u == 0x20 || u == 0x85 || u == 0xa0 || u == 0x1680 || (0x2000 <= u
        && u <= 0x200a) || u == 0x2028 || u == 0x2029 || u == 0x202f || u == 0x205f || u == 0x3000
}

/// The control characters, Unicode's category `Cc`.
pub open spec fn control(c: char) -> bool {
    c as u32 <= 0x1f || 0x7f <= c as u32 <= 0x9f
}

/// Whether a character is a control character.
pub fn is_control(c: char) -> (yes: bool)
    ensures
        yes == control(c),
{
    let u: u32 = c as u32;
    u <= 0x1f || (0x7f <= u && u <= 0x9f)
}

/// The letters `A` to `Z` and `a` to `z` and the digits `0` to `9`.
pub open spec fn ascii_alphanumeric(c: char) -> bool {
    ||| 'a' <= c <= 'z'
    ||| 'A' <= c <= 'Z'
    ||| '0' <= c <= '9'
}

/// Whether a character is an ASCII letter or digit.
pub fn is_ascii_alphanumeric(c: char) -> (yes: bool)
    ensures
        yes == ascii_alphanumeric(c),
{
    ('a' <= c && c <= 'z') || ('A' <= c && c <= 'Z') || ('0' <= c && c <= '9')
}

/// The characters of a string.
pub fn chars_of(text: &str) -> (chars: Vec<char>)
    ensures
        chars@ == text@,
{
    let mut chars: Vec<char> = Vec::new();
    for c in it: text.chars()
        invariant
            chars@ == it.seq().take(it.index() as int),
            it.seq() == text@,
    {
        chars.push(c);
    }
    assert(text@.take(text@.len() as int) == text@);
    chars
}

/// The string of a sequence of characters.
pub fn string_of(chars: &[char]) -> (text: String)
    ensures
        text@ == chars@,
{
    let mut text = String::new();
    let mut i: usize = 0;
    while i < chars.len()
        invariant
            i <= chars.len(),
            text@ == chars@.take(i as int),
        decreases chars.len() - i,
    {
        text.push(chars[i]);
        i += 1;
    }
    assert(chars@.take(chars@.len() as int) == chars@);
    text
}

/// A copy of a string slice.
pub fn owned(text: &str) -> (copy: String)
    ensures
        copy@ == text@,
{
    text.to_string()
}

/// A copy of the bytes from `start` up to `end`.
pub fn bytes_between(bytes: &[u8], start: usize, end: usize) -> (part: Vec<u8>)
    requires
        start <= end <= bytes@.len(),
    ensures
        part@ == bytes@.subrange(start as int, end as int),
{
    let mut part: Vec<u8> = Vec::new();
    let mut i: usize = start;
    while i < end
        invariant
            start <= i <= end <= bytes@.len(),
            part@ == bytes@.subrange(start as int, i as int),
        decreases end - i,
    {
        part.push(bytes[i]);
        i += 1;
    }
    part
}

/// A copy of the characters from `start` up to `end`.
pub fn chars_between(chars: &[char], start: usize, end: usize) -> (part: Vec<char>)
    requires
        start <= end <= chars@.len(),
    ensures
        part@ == chars@.subrange(start as int, end as int),
{
    let mut part: Vec<char> = Vec::new();
    let mut i: usize = start;
    while i < end
        invariant
            start <= i <= end <= chars@.len(),
            part@ == chars@.subrange(start as int, i as int),
        decreases end - i,
    {
        part.push(chars[i]);
        i += 1;
    }
    part
}

/// Strings as sequences of characters.
pub open spec fn views(strings: Seq<String>) -> Seq<Seq<char>> {
    strings.map_values(|s: String| s@)
}

/// Whether a text holds nothing but white space.
pub open spec fn blank(s: Seq<char>) -> bool {
    forall|i: int| 0 <= i < s.len() ==> space(#[trigger] s[i])
}

/// Whether the characters are all white space.
pub fn is_blank(chars: &[char]) -> (yes: bool)
    ensures
        yes == blank(chars@),
{
    let mut i: usize = 0;
    while i < chars.len()
        invariant
            i <= chars@.len(),
            forall|k: int| 0 <= k < i ==> space(#[trigger] chars@[k]),
        decreases chars@.len() - i,
    {
        if !is_space(chars[i]) {
            return false;
        }
        i += 1;
    }
    true
}

/// The place of the first character from `at` on that is no white space.
pub open spec fn skip_space(s: Seq<char>, at: int) -> int
    decreases s.len() - at,
{
    if at >= s.len() || !space(s[at]) {
        at
    } else {
        skip_space(s, at + 1)
    }
}

/// The place behind the last character before `end`, from `start` on, that is
/// no white space.
pub open spec fn drop_space(s: Seq<char>, start: int, end: int) -> int
    decreases end - start,
{
    if end <= start || !space(s[end - 1]) {
        end
    } else {
        drop_space(s, start, end - 1)
    }
}

/// A text without the white space at its beginning and end.
pub open spec fn trimmed(s: Seq<char>) -> Seq<char> {
    let start = skip_space(s, 0);
    s.subrange(start, drop_space(s, start, s.len() as int))
}

/// Removes the white space at both ends.
pub fn trim(chars: &[char]) -> (result: Vec<char>)
    ensures
        result@ == trimmed(chars@),
{
    let mut start: usize = 0;
    while start < chars.len() && is_space(chars[start])
        invariant
            start <= chars@.len(),
            skip_space(chars@, start as int) == skip_space(chars@, 0),
        decreases chars@.len() - start,
    {
        start += 1;
    }
    let mut end: usize = chars.len();
    while end > start && is_space(chars[end - 1])
        invariant
            start <= end <= chars@.len(),
            drop_space(chars@, start as int, end as int) == drop_space(
                chars@,
                start as int,
                chars@.len() as int,
            ),
        decreases end - start,
    {
        end -= 1;
    }
    chars_between(chars, start, end)
}

/// The place of the first `c` from `at` on; the length if there is none.
pub open spec fn first_of(s: Seq<char>, c: char, at: int) -> int
    decreases s.len() - at,
{
    if at >= s.len() {
        s.len() as int
    } else if s[at] == c {
        at
    } else {
        first_of(s, c, at + 1)
    }
}

pub proof fn lemma_first_of(s: Seq<char>, c: char, at: int)
    requires
        0 <= at <= s.len(),
    ensures
        at <= first_of(s, c, at) <= s.len(),
        first_of(s, c, at) < s.len() ==> s[first_of(s, c, at)] == c,
        forall|k: int| at <= k < first_of(s, c, at) ==> #[trigger] s[k] != c,
    decreases s.len() - at,
{
    if at < s.len() && s[at] != c {
        lemma_first_of(s, c, at + 1);
    }
}

/// Looks for a character.
pub fn find_char(chars: &[char], c: char, at: usize) -> (place: usize)
    requires
        at <= chars@.len(),
    ensures
        place == first_of(chars@, c, at as int),
        at <= place <= chars@.len(),
{
    let mut i: usize = at;
    while i < chars.len() && chars[i] != c
        invariant
            at <= i <= chars@.len(),
            first_of(chars@, c, i as int) == first_of(chars@, c, at as int),
        decreases chars@.len() - i,
    {
        i += 1;
    }
    i
}

/// The pieces of a text between separators, from `start` on: one more than
/// there are separators.
pub open spec fn pieces_from(s: Seq<char>, separator: char, start: int) -> Seq<Seq<char>>
    decreases s.len() - start,
{
    proof {
        if 0 <= start <= s.len() {
            lemma_first_of(s, separator, start);
        }
    }
    let end = first_of(s, separator, start);
    if start < 0 || start >= s.len() || end >= s.len() {
        seq![s.subrange(start, s.len() as int)]
    } else {
        seq![s.subrange(start, end)] + pieces_from(s, separator, end + 1)
    }
}

/// The pieces of a text between separators.
pub open spec fn pieces(s: Seq<char>, separator: char) -> Seq<Seq<char>> {
    pieces_from(s, separator, 0)
}

/// Lists of characters as sequences.
pub open spec fn char_lists(lists: Seq<Vec<char>>) -> Seq<Seq<char>> {
    lists.map_values(|list: Vec<char>| list@)
}

/// Splits a text at each separator.
pub fn split(chars: &[char], separator: char) -> (parts: Vec<Vec<char>>)
    ensures
        char_lists(parts@) == pieces(chars@, separator),
        parts@.len() >= 1,
{
    let mut parts: Vec<Vec<char>> = Vec::new();
    let mut start: usize = 0;
    loop
        invariant
            start <= chars@.len(),
            char_lists(parts@) + pieces_from(chars@, separator, start as int) == pieces(
                chars@,
                separator,
            ),
        decreases chars@.len() - start,
    {
        let end: usize = find_char(chars, separator, start);
        let ghost before = parts@;
        let part: Vec<char> = chars_between(chars, start, end);
        parts.push(part);
        proof {
            assert(char_lists(parts@) == char_lists(before).push(part@));
            assert(char_lists(parts@).len() == parts@.len());
        }
        if end >= chars.len() {
            assert(char_lists(before) + seq![part@] == char_lists(parts@));
            return parts;
        }
        proof {
            let rest = pieces_from(chars@, separator, end + 1);
            assert(char_lists(before) + (seq![part@] + rest) == char_lists(parts@) + rest);
        }
        start = end + 1;
    }
}

/// A line without the carriage return at its end.
pub open spec fn without_return(line: Seq<char>) -> Seq<char> {
    if line.len() > 0 && line.last() == '\r' {
        line.drop_last()
    } else {
        line
    }
}

/// The lines of a text from `start` on. A line feed ends a line, a carriage
/// return before it does not belong to the line, and nothing after the last
/// line feed is no line.
pub open spec fn lines_from(s: Seq<char>, start: int) -> Seq<Seq<char>>
    decreases s.len() - start,
{
    proof {
        if 0 <= start <= s.len() {
            lemma_first_of(s, '\n', start);
        }
    }
    let end = first_of(s, '\n', start);
    if start < 0 || start >= s.len() {
        Seq::empty()
    } else if end >= s.len() {
        seq![s.subrange(start, s.len() as int)]
    } else {
        seq![without_return(s.subrange(start, end))] + lines_from(s, end + 1)
    }
}

/// The lines of a text.
pub open spec fn lines_of(s: Seq<char>) -> Seq<Seq<char>> {
    lines_from(s, 0)
}

/// Splits a text into its lines.
pub fn lines(chars: &[char]) -> (result: Vec<Vec<char>>)
    ensures
        char_lists(result@) == lines_of(chars@),
{
    let mut result: Vec<Vec<char>> = Vec::new();
    let mut start: usize = 0;
    assert(char_lists(result@) + lines_of(chars@) == lines_of(chars@));
    while start < chars.len()
        invariant
            start <= chars@.len(),
            char_lists(result@) + lines_from(chars@, start as int) == lines_of(chars@),
        decreases chars@.len() - start,
    {
        let end: usize = find_char(chars, '\n', start);
        let ghost before = result@;
        if end >= chars.len() {
            let line: Vec<char> = chars_between(chars, start, end);
            result.push(line);
            assert(char_lists(before) + seq![line@] == char_lists(result@));
            return result;
        }
        let line: Vec<char> = if end > start && chars[end - 1] == '\r' {
            chars_between(chars, start, end - 1)
        } else {
            chars_between(chars, start, end)
        };
        result.push(line);
        proof {
            assert(line@ == without_return(chars@.subrange(start as int, end as int)));
            let rest = lines_from(chars@, end + 1);
            assert(char_lists(result@) == char_lists(before).push(line@));
            assert(char_lists(before) + (seq![line@] + rest) == char_lists(result@) + rest);
        }
        start = end + 1;
    }
    assert(char_lists(result@) + Seq::<Seq<char>>::empty() == char_lists(result@));
    result
}

/// The digit for a number below ten.
pub open spec fn digit(n: nat) -> char {
    (48 + n) as char
}

/// A number in decimal.
pub open spec fn decimal(n: nat) -> Seq<char>
    decreases n,
{
    if n < 10 {
        seq![digit(n)]
    } else {
        decimal(n / 10).push(digit(n % 10))
    }
}

/// Writes a number in decimal.
pub fn decimal_text(n: u128) -> (result: String)
    ensures
        result@ == decimal(n as nat),
    decreases n,
{
    let mut result: String = if n < 10 {
        String::new()
    } else {
        decimal_text(n / 10)
    };
    let last: u8 = 48 + (n % 10) as u8;
    result.push(last as char);
    result
}

pub open spec fn is_digit(c: char) -> bool {
    '0' <= c <= '9'
}

/// The number that decimal digits spell.
pub open spec fn number(s: Seq<char>) -> nat
    decreases s.len(),
{
    if s.len() == 0 {
        0
    } else {
        number(s.drop_last()) * 10 + (s.last() as nat - 48) as nat
    }
}

pub open spec fn all_digits(s: Seq<char>) -> bool {
    forall|i: int| 0 <= i < s.len() ==> is_digit(#[trigger] s[i])
}

/// The number up to a limit that a text spells with digits alone, at least one.
pub open spec fn digits_value(s: Seq<char>, limit: nat) -> Option<nat> {
    if s.len() > 0 && all_digits(s) && number(s) <= limit {
        Some(number(s))
    } else {
        None
    }
}

/// The number up to a limit that a text spells: digits, with a plus sign before
/// them or none.
pub open spec fn unsigned_value(s: Seq<char>, limit: nat) -> Option<nat> {
    if s.len() > 0 && s[0] == '+' {
        digits_value(s.skip(1), limit)
    } else {
        digits_value(s, limit)
    }
}

proof fn lemma_number_grows(s: Seq<char>, count: int)
    requires
        0 <= count <= s.len(),
    ensures
        number(s.take(count)) <= number(s),
    decreases s.len(),
{
    if count < s.len() {
        lemma_number_grows(s.drop_last(), count);
        assert(s.drop_last().take(count) == s.take(count));
    } else {
        assert(s.take(count) == s);
    }
}

/// Reads the digits from `start` on.
fn parse_digits(chars: &[char], start: usize, limit: u64) -> (value: Option<u64>)
    requires
        start <= chars@.len(),
    ensures
        match value {
            Some(v) => digits_value(chars@.skip(start as int), limit as nat) == Some(v as nat),
            None => digits_value(chars@.skip(start as int), limit as nat) is None,
        },
{
    let ghost body = chars@.skip(start as int);
    if start >= chars.len() {
        return None;
    }
    let mut total: u128 = 0;
    let mut i: usize = start;
    while i < chars.len()
        invariant
            start <= i <= chars@.len(),
            body == chars@.skip(start as int),
            forall|k: int| 0 <= k < i - start ==> is_digit(#[trigger] body[k]),
            total == number(body.take(i - start)),
            total <= limit,
        decreases chars@.len() - i,
    {
        let c: char = chars[i];
        if !('0' <= c && c <= '9') {
            assert(!is_digit(body[i - start]));
            return None;
        }
        proof {
            assert(body.take(i + 1 - start).drop_last() == body.take(i - start));
            assert(body.take(i + 1 - start).last() == c);
            lemma_number_grows(body, i + 1 - start);
        }
        total = total * 10 + (c as u32 - 48) as u128;
        if total > limit as u128 {
            return None;
        }
        i += 1;
    }
    assert(body.take(chars@.len() - start) == body);
    Some(total as u64)
}

/// Reads a number of at most `limit`.
pub fn parse_unsigned(chars: &[char], limit: u64) -> (value: Option<u64>)
    ensures
        match value {
            Some(v) => unsigned_value(chars@, limit as nat) == Some(v as nat),
            None => unsigned_value(chars@, limit as nat) is None,
        },
{
    assert(chars@.skip(0) == chars@);
    if chars.len() > 0 && chars[0] == '+' {
        parse_digits(chars, 1, limit)
    } else {
        parse_digits(chars, 0, limit)
    }
}

/// The number from -128 to 127 that a text spells.
pub open spec fn signed_byte_value(s: Seq<char>) -> Option<int> {
    if s.len() > 0 && s[0] == '-' {
        match digits_value(s.skip(1), 128) {
            Some(v) => Some(-(v as int)),
            None => None,
        }
    } else {
        match unsigned_value(s, 127) {
            Some(v) => Some(v as int),
            None => None,
        }
    }
}

/// Reads a number from -128 to 127.
pub fn parse_i8(chars: &[char]) -> (value: Option<i8>)
    ensures
        match value {
            Some(v) => signed_byte_value(chars@) == Some(v as int),
            None => signed_byte_value(chars@) is None,
        },
{
    if chars.len() > 0 && chars[0] == '-' {
        match parse_digits(chars, 1, 128) {
            Some(v) => {
                let negative: i16 = 0 - (v as i16);
                Some(negative as i8)
            },
            None => None,
        }
    } else {
        match parse_unsigned(chars, 127) {
            Some(v) => Some(v as i8),
            None => None,
        }
    }
}

pub proof fn lemma_decimal(n: nat)
    ensures
        decimal(n).len() > 0,
        all_digits(decimal(n)),
        number(decimal(n)) == n,
    decreases n,
{
    reveal_with_fuel(number, 2);
    if n >= 10 {
        lemma_decimal(n / 10);
        assert(decimal(n).drop_last() == decimal(n / 10));
    } else {
        assert(decimal(n).drop_last() == Seq::<char>::empty());
    }
}

/// A number reads back from its decimal form.
pub proof fn law_numbers_read_back(n: nat, limit: nat)
    requires
        n <= limit,
    ensures
        unsigned_value(decimal(n), limit) == Some(n),
{
    lemma_decimal(n);
    assert(is_digit(decimal(n)[0]));
}

/// Whether `part` stands in a text at a place.
pub open spec fn occurs_at(s: Seq<char>, part: Seq<char>, at: int) -> bool {
    0 <= at && at + part.len() <= s.len() && s.subrange(at, at + part.len()) == part
}

/// Whether `part` stands anywhere in a text.
pub open spec fn occurs_in(s: Seq<char>, part: Seq<char>) -> bool {
    exists|at: int| occurs_at(s, part, at)
}

/// The first place from `at` on where `part` stands, if there is one.
pub open spec fn first_occurrence(s: Seq<char>, part: Seq<char>, at: int) -> Option<int>
    decreases s.len() + 1 - at,
{
    if at + part.len() > s.len() {
        None
    } else if occurs_at(s, part, at) {
        Some(at)
    } else {
        first_occurrence(s, part, at + 1)
    }
}

fn stands_at(chars: &[char], part: &[char], at: usize) -> (yes: bool)
    requires
        at + part@.len() <= chars@.len(),
    ensures
        yes == occurs_at(chars@, part@, at as int),
{
    let mut k: usize = 0;
    while k < part.len()
        invariant
            k <= part@.len(),
            at + part.len() <= chars.len(),
            forall|j: int| 0 <= j < k ==> chars@[at + j] == part@[j],
        decreases part@.len() - k,
    {
        if chars[at + k] != part[k] {
            assert(chars@.subrange(at as int, at + part@.len())[k as int] != part@[k as int]);
            return false;
        }
        k += 1;
    }
    assert(chars@.subrange(at as int, at + part@.len()) == part@);
    true
}

/// Looks for `part` from `at` on.
pub fn find(chars: &[char], part: &[char], at: usize) -> (place: Option<usize>)
    ensures
        match place {
            Some(p) => first_occurrence(chars@, part@, at as int) == Some(p as int) && occurs_at(
                chars@,
                part@,
                p as int,
            ) && at <= p,
            None => first_occurrence(chars@, part@, at as int) is None,
        },
{
    if at > chars.len() {
        return None;
    }
    let mut i: usize = at;
    while part.len() <= chars.len() - i
        invariant
            at <= i <= chars@.len(),
            first_occurrence(chars@, part@, i as int) == first_occurrence(
                chars@,
                part@,
                at as int,
            ),
        decreases chars@.len() - i,
    {
        if stands_at(chars, part, i) {
            return Some(i);
        }
        assert(part@.len() == 0 ==> chars@.subrange(i as int, i as int) == part@);
        i += 1;
    }
    None
}

pub proof fn lemma_first_occurrence(s: Seq<char>, part: Seq<char>, at: int)
    requires
        0 <= at,
    ensures
        match first_occurrence(s, part, at) {
            Some(p) => at <= p && occurs_at(s, part, p) && forall|q: int|
                at <= q < p ==> !occurs_at(s, part, q),
            None => forall|q: int| at <= q ==> !occurs_at(s, part, q),
        },
    decreases s.len() + 1 - at,
{
    if at + part.len() <= s.len() && !occurs_at(s, part, at) {
        lemma_first_occurrence(s, part, at + 1);
    }
}

/// Whether `part` stands in a text.
pub fn contains(chars: &[char], part: &[char]) -> (yes: bool)
    ensures
        yes == occurs_in(chars@, part@),
{
    proof {
        lemma_first_occurrence(chars@, part@, 0);
    }
    find(chars, part, 0).is_some()
}

/// Whether two texts are the same.
pub fn same(a: &str, b: &str) -> (yes: bool)
    ensures
        yes == (a@ == b@),
{
    same_chars(chars_of(a).as_slice(), chars_of(b).as_slice())
}

/// Whether two sequences of characters are the same.
pub fn same_chars(a: &[char], b: &[char]) -> (yes: bool)
    ensures
        yes == (a@ == b@),
{
    if a.len() != b.len() {
        return false;
    }
    let mut i: usize = 0;
    while i < a.len()
        invariant
            i <= a@.len() == b@.len(),
            forall|k: int| 0 <= k < i ==> a@[k] == b@[k],
        decreases a@.len() - i,
    {
        if a[i] != b[i] {
            return false;
        }
        i += 1;
    }
    assert(a@ == b@);
    true
}

/// Whether a text begins with another.
pub fn starts_with(chars: &[char], part: &[char]) -> (yes: bool)
    ensures
        yes == part@.is_prefix_of(chars@),
{
    if part.len() > chars.len() {
        return false;
    }
    let yes: bool = stands_at(chars, part, 0);
    assert(chars@.subrange(0, part@.len() as int) == chars@.take(part@.len() as int));
    yes
}

/// Whether one text comes before another or is the same, character by
/// character from `at` on.
pub open spec fn text_at_most(a: Seq<char>, b: Seq<char>, at: int) -> bool
    decreases a.len() - at,
{
    if at >= a.len() {
        true
    } else if at >= b.len() {
        false
    } else if a[at] != b[at] {
        a[at] < b[at]
    } else {
        text_at_most(a, b, at + 1)
    }
}

pub proof fn lemma_text_total(a: Seq<char>, b: Seq<char>, at: int)
    ensures
        text_at_most(a, b, at) || text_at_most(b, a, at),
    decreases a.len() - at,
{
    if at < a.len() && at < b.len() && a[at] == b[at] {
        lemma_text_total(a, b, at + 1);
    }
}

pub proof fn lemma_text_transitive(a: Seq<char>, b: Seq<char>, c: Seq<char>, at: int)
    requires
        text_at_most(a, b, at),
        text_at_most(b, c, at),
    ensures
        text_at_most(a, c, at),
    decreases a.len() - at,
{
    if at < a.len() && at < b.len() && at < c.len() && a[at] == b[at] && b[at] == c[at] {
        lemma_text_transitive(a, b, c, at + 1);
    }
}

pub proof fn lemma_text_antisymmetric(a: Seq<char>, b: Seq<char>, at: int)
    requires
        0 <= at,
        text_at_most(a, b, at),
        text_at_most(b, a, at),
        forall|k: int| 0 <= k < at && k < a.len() && k < b.len() ==> a[k] == b[k],
        at <= a.len(),
        at <= b.len(),
    ensures
        a == b,
    decreases a.len() - at,
{
    if at < a.len() && at < b.len() {
        lemma_text_antisymmetric(a, b, at + 1);
    } else {
        assert(a == b);
    }
}

/// Compares two texts by their characters.
pub fn comes_at_most(a: &[char], b: &[char]) -> (yes: bool)
    ensures
        yes == text_at_most(a@, b@, 0),
{
    let mut i: usize = 0;
    while i < a.len()
        invariant
            i <= a@.len(),
            text_at_most(a@, b@, i as int) == text_at_most(a@, b@, 0),
        decreases a@.len() - i,
    {
        if i >= b.len() {
            return false;
        }
        if a[i] != b[i] {
            return a[i] < b[i];
        }
        i += 1;
    }
    true
}

impl Ranked for String {
    open spec fn at_most(self, other: String) -> bool {
        text_at_most(self@, other@, 0)
    }

    proof fn total(a: String, b: String) {
        lemma_text_total(a@, b@, 0);
    }

    proof fn transitive(a: String, b: String, c: String) {
        lemma_text_transitive(a@, b@, c@, 0);
    }

    fn ranks_at_most(&self, other: &String) -> (yes: bool) {
        comes_at_most(chars_of(self.as_str()).as_slice(), chars_of(other.as_str()).as_slice())
    }
}

proof fn lemma_first_of_skip(s: Seq<char>, c: char, start: int, at: int)
    requires
        0 <= start <= at <= s.len(),
    ensures
        first_of(s.skip(start), c, at - start) == first_of(s, c, at) - start,
    decreases s.len() - at,
{
    if at < s.len() && s[at] != c {
        lemma_first_of_skip(s, c, start, at + 1);
    }
}

proof fn lemma_pieces_from_skip(s: Seq<char>, separator: char, start: int, at: int)
    requires
        0 <= start <= at <= s.len(),
    ensures
        pieces_from(s.skip(start), separator, at - start) == pieces_from(s, separator, at),
    decreases s.len() - at,
{
    let rest = s.skip(start);
    lemma_first_of_skip(s, separator, start, at);
    lemma_first_of(s, separator, at);
    let end = first_of(s, separator, at);
    assert(rest.subrange(at - start, rest.len() as int) == s.subrange(at, s.len() as int));
    if at < s.len() && end < s.len() {
        assert(rest.subrange(at - start, end - start) == s.subrange(at, end));
        lemma_pieces_from_skip(s, separator, start, end + 1);
    }
}

/// The pieces of a text that begins with a piece and a separator.
pub proof fn lemma_pieces_join(head: Seq<char>, separator: char, tail: Seq<char>)
    requires
        !head.contains(separator),
    ensures
        pieces(head + seq![separator] + tail, separator) == seq![head] + pieces(tail, separator),
{
    let whole = head + seq![separator] + tail;
    lemma_first_of(whole, separator, 0);
    let end = first_of(whole, separator, 0);
    if end < head.len() {
        assert(head[end] == whole[end]);
        assert(head.contains(separator));
    }
    assert(whole[head.len() as int] == separator);
    assert(end == head.len());
    assert(whole.subrange(0, end) == head);
    assert(whole.skip(end + 1) == tail);
    lemma_pieces_from_skip(whole, separator, end + 1, end + 1);
}

/// A text without separators is one piece.
pub proof fn lemma_pieces_single(s: Seq<char>, separator: char)
    requires
        !s.contains(separator),
    ensures
        pieces(s, separator) == seq![s],
{
    lemma_first_of(s, separator, 0);
    let end = first_of(s, separator, 0);
    if end < s.len() {
        assert(s.contains(separator));
    }
    assert(s.subrange(0, s.len() as int) == s);
}

/// A text framed by something other than white space keeps all but the line
/// feed behind it.
pub proof fn lemma_trimmed_line(s: Seq<char>)
    requires
        s.len() > 0,
        !space(s[0]),
        !space(s.last()),
    ensures
        trimmed(s + seq!['\n']) == s,
        trimmed(s) == s,
{
    let line = s + seq!['\n'];
    assert(line[0] == s[0]);
    assert(skip_space(line, 0) == 0);
    assert(line[line.len() - 1] == '\n');
    assert(line[line.len() - 2] == s.last());
    reveal_with_fuel(drop_space, 2);
    assert(drop_space(line, 0, line.len() as int) == s.len());
    assert(line.subrange(0, s.len() as int) == s);
    assert(s.subrange(0, s.len() as int) == s);
}

proof fn lemma_lines_from_skip(s: Seq<char>, start: int, at: int)
    requires
        0 <= start <= at <= s.len(),
    ensures
        lines_from(s.skip(start), at - start) == lines_from(s, at),
    decreases s.len() - at,
{
    let rest = s.skip(start);
    lemma_first_of_skip(s, '\n', start, at);
    lemma_first_of(s, '\n', at);
    let end = first_of(s, '\n', at);
    assert(rest.subrange(at - start, rest.len() as int) == s.subrange(at, s.len() as int));
    if at < s.len() && end < s.len() {
        assert(rest.subrange(at - start, end - start) == s.subrange(at, end));
        lemma_lines_from_skip(s, start, end + 1);
    }
}

/// The lines of a text that begins with a line.
pub proof fn lemma_lines_join(head: Seq<char>, tail: Seq<char>)
    requires
        !head.contains('\n'),
        head.len() == 0 || head.last() != '\r',
    ensures
        lines_of(head + seq!['\n'] + tail) == seq![head] + lines_of(tail),
{
    let whole = head + seq!['\n'] + tail;
    lemma_first_of(whole, '\n', 0);
    let end = first_of(whole, '\n', 0);
    if end < head.len() {
        assert(head[end] == whole[end]);
        assert(head.contains('\n'));
    }
    assert(whole[head.len() as int] == '\n');
    assert(end == head.len());
    assert(whole.subrange(0, end) == head);
    assert(whole.skip(end + 1) == tail);
    lemma_lines_from_skip(whole, end + 1, end + 1);
}

/// A text without line feeds is one line, unless it is empty.
pub proof fn lemma_lines_single(s: Seq<char>)
    requires
        s.len() > 0,
        !s.contains('\n'),
    ensures
        lines_of(s) == seq![s],
{
    lemma_first_of(s, '\n', 0);
    let end = first_of(s, '\n', 0);
    if end < s.len() {
        assert(s.contains('\n'));
    }
    assert(s.subrange(0, s.len() as int) == s);
}

/// The bytes of a text.
pub fn bytes_of(text: &str) -> (bytes: Vec<u8>)
    ensures
        bytes@ == vstd::utf8::encode_utf8(text@),
{
    text.as_bytes_vec()
}

/// Whether two byte strings are the same.
pub fn same_bytes(a: &[u8], b: &[u8]) -> (yes: bool)
    ensures
        yes == (a@ == b@),
{
    if a.len() != b.len() {
        return false;
    }
    let mut i: usize = 0;
    while i < a.len()
        invariant
            i <= a@.len() == b@.len(),
            forall|k: int| 0 <= k < i ==> a@[k] == b@[k],
        decreases a@.len() - i,
    {
        if a[i] != b[i] {
            return false;
        }
        i += 1;
    }
    assert(a@ == b@);
    true
}

/// Texts are ordered by their characters: where two of them first differ, the one
/// with the smaller character comes first, and only that one; a text comes before
/// every longer one that begins with it.
pub proof fn law_texts_are_ordered_by_their_characters(a: Seq<char>, b: Seq<char>, k: int)
    requires
        0 <= k <= a.len(),
        k <= b.len(),
        a.take(k) == b.take(k),
    ensures
        k < a.len() && k < b.len() && a[k] < b[k] ==> text_at_most(a, b, 0) && !text_at_most(
            b,
            a,
            0,
        ),
        k == a.len() ==> text_at_most(a, b, 0),
        k == a.len() && k < b.len() ==> !text_at_most(b, a, 0),
{
    lemma_order_after(a, b, k, 0);
}

proof fn lemma_order_after(a: Seq<char>, b: Seq<char>, k: int, at: int)
    requires
        0 <= at <= k <= a.len(),
        k <= b.len(),
        a.take(k) == b.take(k),
    ensures
        text_at_most(a, b, at) == text_at_most(a, b, k),
        text_at_most(b, a, at) == text_at_most(b, a, k),
    decreases k - at,
{
    if at < k {
        assert(a[at] == a.take(k)[at] && b[at] == b.take(k)[at]);
        lemma_order_after(a, b, k, at + 1);
    }
}

/// Of two different texts one comes first, and they differ there as stated.
pub proof fn law_the_first_difference_decides(a: Seq<char>, b: Seq<char>) -> (k: int)
    requires
        text_at_most(a, b, 0),
        a != b,
    ensures
        0 <= k <= a.len(),
        k < b.len(),
        a.take(k) == b.take(k),
        k == a.len() || a[k] < b[k],
{
    assert(a.take(0) == b.take(0));
    let k = lemma_difference(a, b, 0);
    law_texts_are_ordered_by_their_characters(b, a, k);
    if k < a.len() && k < b.len() && b[k] < a[k] {
        assert(false);
    }
    if k == b.len() && k < a.len() {
        assert(false);
    }
    if k == a.len() && k == b.len() {
        assert(a.take(k) == a && b.take(k) == b);
    }
    k
}

proof fn lemma_difference(a: Seq<char>, b: Seq<char>, at: int) -> (k: int)
    requires
        0 <= at <= a.len(),
        at <= b.len(),
        a.take(at) == b.take(at),
    ensures
        at <= k <= a.len(),
        k <= b.len(),
        a.take(k) == b.take(k),
        k == a.len() || k == b.len() || a[k] != b[k],
    decreases a.len() - at,
{
    if at < a.len() && at < b.len() && a[at] == b[at] {
        assert(a.take(at + 1) == a.take(at).push(a[at]));
        assert(b.take(at + 1) == b.take(at).push(b[at]));
        lemma_difference(a, b, at + 1)
    } else {
        at
    }
}

/// Among the characters of ASCII, white space is the space, the tab and the ends
/// of lines and pages; the control characters are those below the space, and the
/// one that deletes. No letter, digit or sign is either.
pub proof fn law_white_space_and_control_in_ascii(c: char)
    requires
        c as u32 <= 0x7f,
    ensures
        space(c) <==> c == ' ' || c == '\t' || c == '\n' || c == '\r' || c == '\x0b' || c
            == '\x0c',
        control(c) <==> c < ' ' || c == '\x7f',
{
}

/// Beyond ASCII, no letter of the Latin, Greek and Cyrillic alphabets, no
/// ideograph and no Hangul syllable is white space or a control character, and the
/// wide and the fixed space are white space.
pub proof fn law_letters_are_no_white_space(c: char)
    ensures
        '\u{a1}' <= c <= '\u{167f}' || '\u{3040}' <= c <= '\u{d7ff}' ==> !space(c) && !control(c),
        c == '\u{a0}' || c == '\u{3000}' || '\u{2000}' <= c <= '\u{200a}' ==> space(c),
{
}

proof fn lemma_skip_space(before: Seq<char>, rest: Seq<char>, at: int)
    requires
        0 <= at <= before.len(),
        blank(before),
        rest.len() > 0 ==> !space(rest[0]),
    ensures
        skip_space(before + rest, at) == before.len(),
    decreases before.len() - at,
{
    let s = before + rest;
    if at < before.len() {
        assert(s[at] == before[at]);
        lemma_skip_space(before, rest, at + 1);
    } else if rest.len() > 0 {
        assert(s[at] == rest[0]);
    }
}

proof fn lemma_drop_space(s: Seq<char>, start: int, stop: int, end: int)
    requires
        0 <= start <= stop <= end <= s.len(),
        forall|i: int| stop <= i < end ==> space(#[trigger] s[i]),
        stop == start || !space(s[stop - 1]),
    ensures
        drop_space(s, start, end) == stop,
    decreases end - stop,
{
    if stop < end {
        assert(space(s[end - 1]));
        lemma_drop_space(s, start, stop, end - 1);
    }
}

/// Trimming takes away the white space at both ends and nothing else: what is
/// framed by white space comes out as it is.
pub proof fn law_trimming_takes_only_the_ends(before: Seq<char>, core: Seq<char>, after: Seq<char>)
    requires
        blank(before),
        blank(after),
        core.len() > 0 ==> !space(core[0]) && !space(core.last()),
    ensures
        trimmed(before + core + after) == core,
{
    let s = before + core + after;
    if core.len() == 0 {
        assert forall|i: int| 0 <= i < s.len() implies space(#[trigger] s[i]) by {
            if i < before.len() {
                assert(s[i] == before[i]);
            } else {
                assert(s[i] == after[i - before.len()]);
            }
        }
        assert(s + Seq::<char>::empty() == s);
        lemma_skip_space(s, Seq::empty(), 0);
        assert(trimmed(s) == core);
    } else {
        assert(s == before + (core + after));
        lemma_skip_space(before, core + after, 0);
        let start = before.len() as int;
        let stop = start + core.len();
        assert forall|i: int| stop <= i < s.len() implies space(#[trigger] s[i]) by {
            assert(s[i] == after[i - stop]);
        }
        assert(s[stop - 1] == core.last());
        lemma_drop_space(s, start, stop, s.len() as int);
        assert(s.subrange(start, stop) == core);
    }
}

/// A text is cut at its separators and nowhere else: a text without any is one
/// piece, and one that begins with a piece and a separator has that piece and then
/// the pieces of the rest.
pub proof fn law_pieces_lie_between_separators(head: Seq<char>, separator: char, tail: Seq<char>)
    requires
        !head.contains(separator),
    ensures
        pieces(head, separator) == seq![head],
        pieces(head + seq![separator] + tail, separator) == seq![head] + pieces(tail, separator),
{
    lemma_pieces_single(head, separator);
    lemma_pieces_join(head, separator, tail);
}

/// Lines end at line feeds, with or without a carriage return before them: an
/// empty text has none, one without a line feed is a line, and one that begins with
/// a line has that and then the lines of the rest.
pub proof fn law_lines_end_at_line_feeds(head: Seq<char>, tail: Seq<char>)
    requires
        !head.contains('\n'),
    ensures
        lines_of(Seq::<char>::empty()) == Seq::<Seq<char>>::empty(),
        head.len() > 0 ==> lines_of(head) == seq![head],
        head.len() == 0 || head.last() != '\r' ==> lines_of(head + seq!['\n'] + tail) == seq![head]
            + lines_of(tail),
        lines_of(head + seq!['\r'] + seq!['\n'] + tail) == seq![head] + lines_of(tail),
{
    if head.len() > 0 {
        lemma_lines_single(head);
    }
    if head.len() == 0 || head.last() != '\r' {
        lemma_lines_join(head, tail);
    }
    let line = head.push('\r');
    let whole = line + seq!['\n'] + tail;
    assert(whole == head + seq!['\r'] + seq!['\n'] + tail);
    lemma_first_of(whole, '\n', 0);
    let end = first_of(whole, '\n', 0);
    assert(whole[line.len() as int] == '\n');
    if end < line.len() {
        assert(line[end] == whole[end]);
        if end < head.len() {
            assert(head[end] == '\n');
            assert(head.contains('\n'));
        }
    }
    assert(end == line.len());
    assert(whole.subrange(0, end) == line);
    assert(line.drop_last() == head);
    assert(whole.skip(end + 1) == tail);
    lemma_lines_from_skip(whole, end + 1, end + 1);
}

/// Digits count by tens: a digit alone is its own number, and behind others it
/// adds to ten times their number. A number is written with digits, the first of
/// which is a nought only where it is nought.
pub proof fn law_digits_count_by_tens(s: Seq<char>, c: char, n: nat)
    requires
        '0' <= c <= '9',
    ensures
        number(seq![c]) == c as int - '0' as int,
        number(s.push(c)) == 10 * number(s) + (c as int - '0' as int),
        number(decimal(n)) == n,
        decimal(n).len() > 0,
        forall|i: int| 0 <= i < decimal(n).len() ==> '0' <= #[trigger] decimal(n)[i] <= '9',
        n > 0 ==> decimal(n)[0] != '0',
        n < 10 ==> decimal(n).len() == 1,
        n >= 10 ==> decimal(n).len() == decimal(n / 10).len() + 1,
    decreases n,
{
    reveal_with_fuel(number, 2);
    lemma_decimal(n);
    assert(seq![c].drop_last() == Seq::<char>::empty());
    assert(s.push(c).drop_last() == s);
    assert forall|i: int| 0 <= i < decimal(n).len() implies '0' <= #[trigger] decimal(n)[i]
        <= '9' by {
        assert(is_digit(decimal(n)[i]));
    }
    if n >= 10 {
        law_digits_count_by_tens(s, c, n / 10);
        assert(decimal(n)[0] == decimal(n / 10)[0]);
    }
}

/// A number is read from digits alone, with a sign before them or none, and only
/// within its limits; anything else is no number.
pub proof fn law_numbers_are_read_within_limits(n: nat, limit: nat, s: Seq<char>, i: int)
    ensures
        n <= limit ==> unsigned_value(decimal(n), limit) == Some(n),
        n <= limit ==> unsigned_value(seq!['+'] + decimal(n), limit) == Some(n),
        n > limit ==> unsigned_value(decimal(n), limit) is None,
        n <= 127 ==> signed_byte_value(decimal(n)) == Some(n as int),
        n <= 128 ==> signed_byte_value(seq!['-'] + decimal(n)) == Some(-(n as int)),
        n > 127 ==> signed_byte_value(decimal(n)) is None,
        n > 128 ==> signed_byte_value(seq!['-'] + decimal(n)) is None,
        unsigned_value(Seq::empty(), limit) is None,
        0 <= i < s.len() && !('0' <= s[i] <= '9') && !(i == 0 && (s[0] == '+' || s[0] == '-'))
            ==> unsigned_value(s, limit) is None && signed_byte_value(s) is None,
{
    lemma_decimal(n);
    assert(is_digit(decimal(n)[0]));
    assert((seq!['+'] + decimal(n)).skip(1) == decimal(n));
    assert((seq!['-'] + decimal(n)).skip(1) == decimal(n));
    if 0 <= i < s.len() && !('0' <= s[i] <= '9') {
        assert(!is_digit(s[i]));
        if i > 0 {
            assert(s.skip(1)[i - 1] == s[i]);
            assert(!is_digit(s.skip(1)[i - 1]));
        }
    }
}

/// A search finds the first place, and one exactly where there is one.
pub proof fn law_the_first_occurrence_is_found(s: Seq<char>, part: Seq<char>, at: int, q: int)
    requires
        0 <= at <= q,
        q + part.len() <= s.len(),
        s.subrange(q, q + part.len()) == part,
    ensures
        ({
            let found = first_occurrence(s, part, at);
            &&& found is Some
            &&& at <= found->0 <= q
            &&& found->0 + part.len() <= s.len()
            &&& s.subrange(found->0, found->0 + part.len()) == part
        }),
{
    lemma_first_occurrence(s, part, at);
    assert(occurs_at(s, part, q));
}

/// Whether a text ends with another.
pub open spec fn ends_with(s: Seq<char>, end: Seq<char>) -> bool {
    end.len() <= s.len() && s.skip(s.len() - end.len()) == end
}

pub proof fn lemma_ends_behind(before: Seq<char>, s: Seq<char>, end: Seq<char>)
    requires
        ends_with(s, end),
    ensures
        ends_with(before + s, end),
{
    let whole = before + s;
    assert(whole.skip(whole.len() - end.len()) == s.skip(s.len() - end.len()));
}

pub proof fn lemma_ends_more(s: Seq<char>, end: Seq<char>, more: Seq<char>)
    requires
        ends_with(s, end),
    ensures
        ends_with(s + more, end + more),
{
    let whole = s + more;
    assert(whole.skip(whole.len() - (end + more).len()) == s.skip(s.len() - end.len()) + more);
}

pub proof fn lemma_end_is_inside(s: Seq<char>, end: Seq<char>)
    requires
        ends_with(s, end),
    ensures
        occurs_in(s, end),
{
    let at = s.len() - end.len();
    assert(s.subrange(at, at + end.len()) == s.skip(at));
    assert(occurs_at(s, end, at));
}

pub proof fn lemma_inside_stays(s: Seq<char>, part: Seq<char>, before: Seq<char>, after: Seq<char>)
    requires
        occurs_in(s, part),
    ensures
        occurs_in(before + s, part),
        occurs_in(s + after, part),
{
    let at = choose|at: int| occurs_at(s, part, at);
    assert((before + s).subrange(before.len() + at, before.len() + at + part.len()) == s.subrange(
        at,
        at + part.len(),
    ));
    assert(occurs_at(before + s, part, before.len() + at));
    assert((s + after).subrange(at, at + part.len()) == s.subrange(at, at + part.len()));
    assert(occurs_at(s + after, part, at));
}

/// The letters of ASCII go from one case to the other, by thirty-two places, and
/// every other character stays.
pub proof fn law_letters_change_their_case(c: char)
    ensures
        'A' <= c <= 'Z' ==> ascii_lower(c) as u32 == c as u32 + 32,
        'a' <= c <= 'z' ==> ascii_upper(c) as u32 == c as u32 - 32,
        !('A' <= c <= 'Z') ==> ascii_lower(c) == c,
        !('a' <= c <= 'z') ==> ascii_upper(c) == c,
        ascii_alphanumeric(c) <==> 'a' <= c <= 'z' || 'A' <= c <= 'Z' || '0' <= c <= '9',
{
}

} // verus!
