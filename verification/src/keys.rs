//! Keys, as a terminal sends them and as the desk understands them.
use vstd::prelude::*;

use crate::text;

verus! {

/// What a key asks for.
#[derive(Debug, Clone, Copy, PartialEq, Eq, Structural)]
pub enum Key {
    Char(char),
    Enter,
    Backspace,
    Delete,
    Left,
    Right,
    Up,
    Down,
    Home,
    End,
    PageUp,
    PageDown,
    Save,
    New,
    Quit,
    Redraw,
    Help,
    Browser,
    Escape,
    Theme,
    Rotate,
    Larger,
    Smaller,
    Undo,
    Redo,
    Restore,
    Search,
    FindNext,
    Sprint,
    Target,
    Outline,
    PreviousHeading,
    NextHeading,
    SplitView,
    Unknown,
}

/// The keys that a single control byte stands for.
pub open spec fn control_key(byte: u8) -> Option<Key> {
    if byte == 17 {
        Some(Key::Quit)
    } else if byte == 19 {
        Some(Key::Save)
    } else if byte == 14 {
        Some(Key::New)
    } else if byte == 12 {
        Some(Key::Redraw)
    } else if byte == 26 {
        Some(Key::Undo)
    } else if byte == 25 {
        Some(Key::Redo)
    } else if byte == 18 {
        Some(Key::Restore)
    } else if byte == 6 {
        Some(Key::Search)
    } else if byte == 7 {
        Some(Key::Target)
    } else if byte == 13 || byte == 10 {
        Some(Key::Enter)
    } else if byte == 8 || byte == 127 {
        Some(Key::Backspace)
    } else {
        None
    }
}

/// The escape sequences that a terminal or the console sends, and their keys.
pub open spec fn escape_sequences() -> Seq<(Seq<u8>, Key)> {
    seq![
        (seq![27u8, 91u8, 65u8], Key::Up),
        (seq![27u8, 91u8, 66u8], Key::Down),
        (seq![27u8, 91u8, 49u8, 59u8, 53u8, 65u8], Key::PreviousHeading),
        (seq![27u8, 91u8, 49u8, 59u8, 53u8, 66u8], Key::NextHeading),
        (seq![27u8, 91u8, 53u8, 65u8], Key::PreviousHeading),
        (seq![27u8, 91u8, 53u8, 66u8], Key::NextHeading),
        (seq![27u8, 91u8, 67u8], Key::Right),
        (seq![27u8, 91u8, 68u8], Key::Left),
        (seq![27u8, 91u8, 72u8], Key::Home),
        (seq![27u8, 91u8, 70u8], Key::End),
        (seq![27u8, 91u8, 49u8, 126u8], Key::Home),
        (seq![27u8, 91u8, 52u8, 126u8], Key::End),
        (seq![27u8, 91u8, 51u8, 126u8], Key::Delete),
        (seq![27u8, 91u8, 53u8, 126u8], Key::PageUp),
        (seq![27u8, 91u8, 54u8, 126u8], Key::PageDown),
        (seq![27u8, 79u8, 80u8], Key::Help),
        (seq![27u8, 91u8, 49u8, 49u8, 126u8], Key::Help),
        (seq![27u8, 91u8, 91u8, 65u8], Key::Help),
        (seq![27u8, 79u8, 81u8], Key::Browser),
        (seq![27u8, 91u8, 49u8, 50u8, 126u8], Key::Browser),
        (seq![27u8, 79u8, 82u8], Key::FindNext),
        (seq![27u8, 91u8, 49u8, 51u8, 126u8], Key::FindNext),
        (seq![27u8, 79u8, 83u8], Key::Sprint),
        (seq![27u8, 91u8, 49u8, 52u8, 126u8], Key::Sprint),
        (seq![27u8, 91u8, 49u8, 53u8, 126u8], Key::Theme),
        (seq![27u8, 91u8, 91u8, 69u8], Key::Theme),
        (seq![27u8, 91u8, 49u8, 55u8, 126u8], Key::Rotate),
        (seq![27u8, 91u8, 49u8, 56u8, 126u8], Key::Larger),
        (seq![27u8, 91u8, 49u8, 57u8, 126u8], Key::Smaller),
        (seq![27u8, 91u8, 50u8, 48u8, 126u8], Key::Outline),
        (seq![27u8, 91u8, 50u8, 49u8, 126u8], Key::SplitView),
    ]
}

/// How many bytes a character takes whose first byte is this one; one for a
/// byte that begins no character.
pub open spec fn character_length(byte: u8) -> int {
    if byte < 0xc0 {
        1
    } else if byte < 0xe0 {
        2
    } else if byte < 0xf0 {
        3
    } else if byte < 0xf8 {
        4
    } else {
        1
    }
}

/// What the bytes at hand begin with.
pub enum Reading {
    /// A key, and how many bytes it took.
    Complete(Key, int),
    /// The beginning of something longer.
    Partial,
}

/// The reading of bytes that begin with an escape, by the sequences from `row`
/// on. What matches none of them is one unknown byte.
pub open spec fn escape_reading(bytes: Seq<u8>, row: int) -> Reading
    decreases escape_sequences().len() - row,
{
    let table = escape_sequences();
    if row >= table.len() {
        Reading::Complete(Key::Unknown, 1)
    } else if table[row].0.is_prefix_of(bytes) {
        Reading::Complete(table[row].1, table[row].0.len() as int)
    } else if bytes.is_prefix_of(table[row].0) {
        Reading::Partial
    } else {
        escape_reading(bytes, row + 1)
    }
}

/// The reading of bytes that begin a character.
pub open spec fn character_reading(bytes: Seq<u8>) -> Reading {
    let length = character_length(bytes[0]);
    let head = bytes.take(length);
    if bytes.len() < length {
        Reading::Partial
    } else if vstd::utf8::valid_utf8(head) && vstd::utf8::decode_utf8(head).len() > 0 {
        Reading::Complete(Key::Char(vstd::utf8::decode_utf8(head)[0]), length)
    } else {
        Reading::Complete(Key::Unknown, length)
    }
}

/// What the bytes at hand begin with.
pub open spec fn reading(bytes: Seq<u8>) -> Reading {
    if bytes.len() == 0 {
        Reading::Partial
    } else if control_key(bytes[0]) is Some {
        Reading::Complete(control_key(bytes[0])->0, 1)
    } else if bytes[0] == 27 {
        escape_reading(bytes, 0)
    } else if bytes[0] == 9 {
        Reading::Complete(Key::Char('\t'), 1)
    } else if bytes[0] < 32 {
        Reading::Complete(Key::Unknown, 1)
    } else {
        character_reading(bytes)
    }
}

fn control(byte: u8) -> (key: Option<Key>)
    ensures
        key == control_key(byte),
{
    match byte {
        17 => Some(Key::Quit),
        19 => Some(Key::Save),
        14 => Some(Key::New),
        12 => Some(Key::Redraw),
        26 => Some(Key::Undo),
        25 => Some(Key::Redo),
        18 => Some(Key::Restore),
        6 => Some(Key::Search),
        7 => Some(Key::Target),
        13 | 10 => Some(Key::Enter),
        8 | 127 => Some(Key::Backspace),
        _ => None,
    }
}

fn escape_table() -> (table: Vec<(Vec<u8>, Key)>)
    ensures
        table@.len() == escape_sequences().len(),
        forall|i: int|
            0 <= i < table@.len() ==> (#[trigger] table@[i]).0@ == escape_sequences()[i].0
                && table@[i].1 == escape_sequences()[i].1,
{
    let table: Vec<(Vec<u8>, Key)> = vec![
        (vec![27u8, 91u8, 65u8], Key::Up),
        (vec![27u8, 91u8, 66u8], Key::Down),
        (vec![27u8, 91u8, 49u8, 59u8, 53u8, 65u8], Key::PreviousHeading),
        (vec![27u8, 91u8, 49u8, 59u8, 53u8, 66u8], Key::NextHeading),
        (vec![27u8, 91u8, 53u8, 65u8], Key::PreviousHeading),
        (vec![27u8, 91u8, 53u8, 66u8], Key::NextHeading),
        (vec![27u8, 91u8, 67u8], Key::Right),
        (vec![27u8, 91u8, 68u8], Key::Left),
        (vec![27u8, 91u8, 72u8], Key::Home),
        (vec![27u8, 91u8, 70u8], Key::End),
        (vec![27u8, 91u8, 49u8, 126u8], Key::Home),
        (vec![27u8, 91u8, 52u8, 126u8], Key::End),
        (vec![27u8, 91u8, 51u8, 126u8], Key::Delete),
        (vec![27u8, 91u8, 53u8, 126u8], Key::PageUp),
        (vec![27u8, 91u8, 54u8, 126u8], Key::PageDown),
        (vec![27u8, 79u8, 80u8], Key::Help),
        (vec![27u8, 91u8, 49u8, 49u8, 126u8], Key::Help),
        (vec![27u8, 91u8, 91u8, 65u8], Key::Help),
        (vec![27u8, 79u8, 81u8], Key::Browser),
        (vec![27u8, 91u8, 49u8, 50u8, 126u8], Key::Browser),
        (vec![27u8, 79u8, 82u8], Key::FindNext),
        (vec![27u8, 91u8, 49u8, 51u8, 126u8], Key::FindNext),
        (vec![27u8, 79u8, 83u8], Key::Sprint),
        (vec![27u8, 91u8, 49u8, 52u8, 126u8], Key::Sprint),
        (vec![27u8, 91u8, 49u8, 53u8, 126u8], Key::Theme),
        (vec![27u8, 91u8, 91u8, 69u8], Key::Theme),
        (vec![27u8, 91u8, 49u8, 55u8, 126u8], Key::Rotate),
        (vec![27u8, 91u8, 49u8, 56u8, 126u8], Key::Larger),
        (vec![27u8, 91u8, 49u8, 57u8, 126u8], Key::Smaller),
        (vec![27u8, 91u8, 50u8, 48u8, 126u8], Key::Outline),
        (vec![27u8, 91u8, 50u8, 49u8, 126u8], Key::SplitView),
    ];
    proof {
        assert(table@.len() == 31 && escape_sequences().len() == 31);
        assert(table@[0].0@ == escape_sequences()[0].0);
        assert(table@[1].0@ == escape_sequences()[1].0);
        assert(table@[2].0@ == escape_sequences()[2].0);
        assert(table@[3].0@ == escape_sequences()[3].0);
        assert(table@[4].0@ == escape_sequences()[4].0);
        assert(table@[5].0@ == escape_sequences()[5].0);
        assert(table@[6].0@ == escape_sequences()[6].0);
        assert(table@[7].0@ == escape_sequences()[7].0);
        assert(table@[8].0@ == escape_sequences()[8].0);
        assert(table@[9].0@ == escape_sequences()[9].0);
        assert(table@[10].0@ == escape_sequences()[10].0);
        assert(table@[11].0@ == escape_sequences()[11].0);
        assert(table@[12].0@ == escape_sequences()[12].0);
        assert(table@[13].0@ == escape_sequences()[13].0);
        assert(table@[14].0@ == escape_sequences()[14].0);
        assert(table@[15].0@ == escape_sequences()[15].0);
        assert(table@[16].0@ == escape_sequences()[16].0);
        assert(table@[17].0@ == escape_sequences()[17].0);
        assert(table@[18].0@ == escape_sequences()[18].0);
        assert(table@[19].0@ == escape_sequences()[19].0);
        assert(table@[20].0@ == escape_sequences()[20].0);
        assert(table@[21].0@ == escape_sequences()[21].0);
        assert(table@[22].0@ == escape_sequences()[22].0);
        assert(table@[23].0@ == escape_sequences()[23].0);
        assert(table@[24].0@ == escape_sequences()[24].0);
        assert(table@[25].0@ == escape_sequences()[25].0);
        assert(table@[26].0@ == escape_sequences()[26].0);
        assert(table@[27].0@ == escape_sequences()[27].0);
        assert(table@[28].0@ == escape_sequences()[28].0);
        assert(table@[29].0@ == escape_sequences()[29].0);
        assert(table@[30].0@ == escape_sequences()[30].0);
    }
    table
}

/// Whether one byte string begins another.
pub fn begins(whole: &[u8], part: &[u8]) -> (yes: bool)
    ensures
        yes == part@.is_prefix_of(whole@),
{
    if part.len() > whole.len() {
        return false;
    }
    let mut i: usize = 0;
    while i < part.len()
        invariant
            i <= part.len() <= whole.len(),
            forall|k: int| 0 <= k < i ==> part@[k] == whole@[k],
        decreases part.len() - i,
    {
        if part[i] != whole[i] {
            assert(part@[i as int] != whole@.take(part@.len() as int)[i as int]);
            return false;
        }
        i += 1;
    }
    assert(part@ == whole@.take(part@.len() as int));
    true
}

fn drop_front(bytes: &mut Vec<u8>, count: usize)
    requires
        count <= old(bytes)@.len(),
    ensures
        final(bytes)@ == old(bytes)@.skip(count as int),
{
    let rest: Vec<u8> = bytes.split_off(count);
    *bytes = rest;
}

/// Takes one key off the front of the bytes that have come in. Nothing is taken
/// while they are only the beginning of a key.
pub fn decode_key(bytes: &mut Vec<u8>) -> (key: Option<Key>)
    ensures
        match reading(old(bytes)@) {
            Reading::Complete(read, count) => key == Some(read) && 1 <= count <= old(bytes)@.len()
                && final(bytes)@ == old(bytes)@.skip(count),
            Reading::Partial => key is None && final(bytes)@ == old(bytes)@,
        },
{
    if bytes.len() == 0 {
        return None;
    }
    let b: u8 = bytes[0];
    let known: Option<Key> = control(b);
    if let Some(key) = known {
        drop_front(bytes, 1);
        return Some(key);
    }
    if b == 27 {
        let table: Vec<(Vec<u8>, Key)> = escape_table();
        let mut row: usize = 0;
        while row < table.len()
            invariant
                bytes@ == old(bytes)@,
                bytes@.len() > 0,
                bytes@[0] == 27,
                row <= table@.len(),
                table@.len() == escape_sequences().len(),
                forall|i: int|
                    0 <= i < table@.len() ==> (#[trigger] table@[i]).0@ == escape_sequences()[i].0
                        && table@[i].1 == escape_sequences()[i].1,
                reading(bytes@) == escape_reading(bytes@, row as int),
            decreases table@.len() - row,
        {
            assert(table@[row as int].0@ == escape_sequences()[row as int].0);
            if begins(bytes.as_slice(), table[row].0.as_slice()) {
                let count: usize = table[row].0.len();
                proof {
                    lemma_sequences_are_not_empty(row as int);
                }
                drop_front(bytes, count);
                return Some(table[row].1);
            }
            if begins(table[row].0.as_slice(), bytes.as_slice()) {
                return None;
            }
            row += 1;
        }
        drop_front(bytes, 1);
        return Some(Key::Unknown);
    }
    if b < 32 {
        drop_front(bytes, 1);
        return Some(
            if b == 9 {
                Key::Char('\t')
            } else {
                Key::Unknown
            },
        );
    }
    let length: usize = if b < 0xc0 {
        1
    } else if b < 0xe0 {
        2
    } else if b < 0xf0 {
        3
    } else if b < 0xf8 {
        4
    } else {
        1
    };
    if bytes.len() < length {
        return None;
    }
    let head: Vec<u8> = text::bytes_between(bytes.as_slice(), 0, length);
    assert(head@ == bytes@.take(length as int));
    let mut key: Key = Key::Unknown;
    if let Some(decoded) = text::utf8_to_string(head) {
        let chars: Vec<char> = text::chars_of(decoded.as_str());
        if chars.len() > 0 {
            key = Key::Char(chars[0]);
        }
    }
    drop_front(bytes, length);
    Some(key)
}

proof fn lemma_sequences_are_not_empty(row: int)
    requires
        0 <= row < escape_sequences().len(),
    ensures
        3 <= escape_sequences()[row].0.len() <= 6,
{
}

/// A key of a terminal event.
#[derive(Debug, Clone, Copy, PartialEq, Eq, Structural)]
pub enum KeyCode {
    Char(char),
    F(u8),
    Enter,
    Backspace,
    Delete,
    Left,
    Right,
    Up,
    Down,
    Home,
    End,
    PageUp,
    PageDown,
    Esc,
    Tab,
    Other,
}

/// A terminal event: a key, whether Control was held, and whether the key was
/// let go of rather than pressed.
#[derive(Debug, Clone, Copy, PartialEq, Eq, Structural)]
pub struct KeyPress {
    pub code: KeyCode,
    pub control: bool,
    pub released: bool,
}

/// The keys that Control and a letter or an arrow stand for.
pub open spec fn with_control(code: KeyCode) -> Key {
    match code {
        KeyCode::Char(letter) => if letter == 'q' {
            Key::Quit
        } else if letter == 's' {
            Key::Save
        } else if letter == 'n' {
            Key::New
        } else if letter == 'o' {
            Key::Browser
        } else if letter == 'l' {
            Key::Redraw
        } else if letter == 'z' {
            Key::Undo
        } else if letter == 'y' {
            Key::Redo
        } else if letter == 'r' {
            Key::Restore
        } else if letter == 'f' {
            Key::Search
        } else if letter == 'g' {
            Key::Target
        } else if letter == 'k' {
            Key::PreviousHeading
        } else if letter == 'j' {
            Key::NextHeading
        } else {
            Key::Unknown
        },
        KeyCode::Up => Key::PreviousHeading,
        KeyCode::Down => Key::NextHeading,
        _ => Key::Unknown,
    }
}

/// The keys that stand for themselves, and the function keys.
pub open spec fn without_control(code: KeyCode) -> Key {
    match code {
        KeyCode::Char(character) => Key::Char(character),
        KeyCode::Enter => Key::Enter,
        KeyCode::Backspace => Key::Backspace,
        KeyCode::Delete => Key::Delete,
        KeyCode::Left => Key::Left,
        KeyCode::Right => Key::Right,
        KeyCode::Up => Key::Up,
        KeyCode::Down => Key::Down,
        KeyCode::Home => Key::Home,
        KeyCode::End => Key::End,
        KeyCode::PageUp => Key::PageUp,
        KeyCode::PageDown => Key::PageDown,
        KeyCode::Esc => Key::Escape,
        KeyCode::Tab => Key::Char('\t'),
        KeyCode::F(number) => if number == 1 {
            Key::Help
        } else if number == 2 {
            Key::Browser
        } else if number == 3 {
            Key::FindNext
        } else if number == 4 {
            Key::Sprint
        } else if number == 5 {
            Key::Theme
        } else if number == 6 {
            Key::Rotate
        } else if number == 7 {
            Key::Larger
        } else if number == 8 {
            Key::Smaller
        } else if number == 9 {
            Key::Outline
        } else if number == 10 {
            Key::SplitView
        } else {
            Key::Unknown
        },
        KeyCode::Other => Key::Unknown,
    }
}

/// What a terminal event asks for. Letting go of a key asks for nothing.
pub fn crossterm_key(event: KeyPress) -> (key: Key)
    ensures
        key == (if event.released {
            Key::Unknown
        } else if event.control {
            with_control(event.code)
        } else {
            without_control(event.code)
        }),
{
    if event.released {
        return Key::Unknown;
    }
    if event.control {
        return match event.code {
            KeyCode::Char('q') => Key::Quit,
            KeyCode::Char('s') => Key::Save,
            KeyCode::Char('n') => Key::New,
            KeyCode::Char('o') => Key::Browser,
            KeyCode::Char('l') => Key::Redraw,
            KeyCode::Char('z') => Key::Undo,
            KeyCode::Char('y') => Key::Redo,
            KeyCode::Char('r') => Key::Restore,
            KeyCode::Char('f') => Key::Search,
            KeyCode::Char('g') => Key::Target,
            KeyCode::Char('k') => Key::PreviousHeading,
            KeyCode::Char('j') => Key::NextHeading,
            KeyCode::Up => Key::PreviousHeading,
            KeyCode::Down => Key::NextHeading,
            _ => Key::Unknown,
        };
    }
    match event.code {
        KeyCode::Char(character) => Key::Char(character),
        KeyCode::Enter => Key::Enter,
        KeyCode::Backspace => Key::Backspace,
        KeyCode::Delete => Key::Delete,
        KeyCode::Left => Key::Left,
        KeyCode::Right => Key::Right,
        KeyCode::Up => Key::Up,
        KeyCode::Down => Key::Down,
        KeyCode::Home => Key::Home,
        KeyCode::End => Key::End,
        KeyCode::PageUp => Key::PageUp,
        KeyCode::PageDown => Key::PageDown,
        KeyCode::Esc => Key::Escape,
        KeyCode::F(1) => Key::Help,
        KeyCode::F(2) => Key::Browser,
        KeyCode::F(3) => Key::FindNext,
        KeyCode::F(4) => Key::Sprint,
        KeyCode::F(5) => Key::Theme,
        KeyCode::F(6) => Key::Rotate,
        KeyCode::F(7) => Key::Larger,
        KeyCode::F(8) => Key::Smaller,
        KeyCode::F(9) => Key::Outline,
        KeyCode::F(10) => Key::SplitView,
        KeyCode::Tab => Key::Char('\t'),
        _ => Key::Unknown,
    }
}

/// A place at which two different escape sequences differ.
proof fn lemma_sequences_differ(i: int, j: int) -> (k: int)
    requires
        0 <= i < escape_sequences().len(),
        0 <= j < escape_sequences().len(),
        i != j,
    ensures
        0 <= k < escape_sequences()[i].0.len(),
        k < escape_sequences()[j].0.len(),
        escape_sequences()[i].0[k] != escape_sequences()[j].0[k],
{
    let a = escape_sequences()[i].0;
    let b = escape_sequences()[j].0;
    if a[1] != b[1] {
        1
    } else if a[2] != b[2] {
        2
    } else if a[3] != b[3] {
        3
    } else if a[4] != b[4] {
        4
    } else {
        5
    }
}

proof fn lemma_escape_reading(row: int, rest: Seq<u8>, from: int)
    requires
        0 <= from <= row < escape_sequences().len(),
    ensures
        escape_reading(escape_sequences()[row].0 + rest, from) == Reading::Complete(
            escape_sequences()[row].1,
            escape_sequences()[row].0.len() as int,
        ),
    decreases row - from,
{
    let own = escape_sequences()[row].0;
    let bytes = own + rest;
    if from < row {
        let other = escape_sequences()[from].0;
        let k = lemma_sequences_differ(from, row);
        assert(bytes[k] == own[k]);
        if other.is_prefix_of(bytes) {
            assert(other[k] == bytes[k]);
        }
        if bytes.is_prefix_of(other) {
            assert(other[k] == bytes[k]);
        }
        lemma_escape_reading(row, rest, from + 1);
    } else {
        assert(own == bytes.take(own.len() as int));
    }
}

/// Every escape sequence is read as its key, whatever follows it.
pub proof fn law_escape_sequences_are_read(row: int, rest: Seq<u8>)
    requires
        0 <= row < escape_sequences().len(),
    ensures
        reading(escape_sequences()[row].0 + rest) == Reading::Complete(
            escape_sequences()[row].1,
            escape_sequences()[row].0.len() as int,
        ),
{
    lemma_sequences_are_not_empty(row);
    let bytes = escape_sequences()[row].0 + rest;
    assert(bytes[0] == escape_sequences()[row].0[0]);
    assert(escape_sequences()[row].0[0] == 27);
    lemma_escape_reading(row, rest, 0);
}

proof fn lemma_partial_reading(row: int, count: int, from: int)
    requires
        0 <= from <= row < escape_sequences().len(),
        0 < count < escape_sequences()[row].0.len(),
    ensures
        escape_reading(escape_sequences()[row].0.take(count), from) == Reading::Partial,
    decreases row - from,
{
    let own = escape_sequences()[row].0;
    let bytes = own.take(count);
    let other = escape_sequences()[from].0;
    if from < row {
        let k = lemma_sequences_differ(from, row);
        if other.is_prefix_of(bytes) {
            assert(other[k] == bytes[k]);
        }
        lemma_partial_reading(row, count, from + 1);
    } else {
        assert(bytes == own.take(bytes.len() as int));
    }
}

/// The beginning of an escape sequence waits for the rest of it.
pub proof fn law_split_sequences_wait(row: int, count: int)
    requires
        0 <= row < escape_sequences().len(),
        0 < count < escape_sequences()[row].0.len(),
    ensures
        reading(escape_sequences()[row].0.take(count)) == Reading::Partial,
{
    lemma_sequences_are_not_empty(row);
    assert(escape_sequences()[row].0[0] == 27);
    lemma_partial_reading(row, count, 0);
}

/// The function keys do what they are for, from the help on F1 to the reference on
/// F10, whether they come as events or as the bytes of a terminal: the two
/// digits of their code, or a letter for the first four.
pub proof fn law_function_keys_do_what_they_are_for(n: int, rest: Seq<u8>)
    requires
        1 <= n <= 10,
    ensures
        without_control(KeyCode::F(n as u8)) == if n == 1 {
            Key::Help
        } else if n == 2 {
            Key::Browser
        } else if n == 3 {
            Key::FindNext
        } else if n == 4 {
            Key::Sprint
        } else if n == 5 {
            Key::Theme
        } else if n == 6 {
            Key::Rotate
        } else if n == 7 {
            Key::Larger
        } else if n == 8 {
            Key::Smaller
        } else if n == 9 {
            Key::Outline
        } else {
            Key::SplitView
        },
        ({
            let code = if n <= 5 {
                10 + n
            } else {
                11 + n
            };
            let bytes = seq![27u8, 91u8, (48 + code / 10) as u8, (48 + code % 10) as u8, 126u8];
            reading(bytes + rest) == Reading::Complete(without_control(KeyCode::F(n as u8)), 5)
        }),
        n <= 4 ==> reading(seq![27u8, 79u8, (79 + n) as u8] + rest) == Reading::Complete(
            without_control(KeyCode::F(n as u8)),
            3,
        ),
{
    let code = if n <= 5 {
        10 + n
    } else {
        11 + n
    };
    let bytes = seq![27u8, 91u8, (48 + code / 10) as u8, (48 + code % 10) as u8, 126u8];
    let row = if n == 1 {
        16
    } else if n == 2 {
        19
    } else if n == 3 {
        21
    } else if n == 4 {
        23
    } else if n == 5 {
        24
    } else {
        20 + n
    };
    assert(escape_sequences()[row].0 == bytes);
    law_escape_sequences_are_read(row, rest);
    if n <= 4 {
        let short = if n == 1 {
            15
        } else {
            14 + 2 * n
        };
        assert(escape_sequences()[short].0 == seq![27u8, 79u8, (79 + n) as u8]);
        law_escape_sequences_are_read(short, rest);
    }
}

/// The arrows and the keys above them stand for themselves, whether they come as
/// events or as the bytes of a terminal, and with Control the arrows lead from
/// heading to heading.
pub proof fn law_arrows_lead_where_they_point(rest: Seq<u8>)
    ensures
        reading(seq![27u8, 91u8, 65u8] + rest) == Reading::Complete(Key::Up, 3),
        reading(seq![27u8, 91u8, 66u8] + rest) == Reading::Complete(Key::Down, 3),
        reading(seq![27u8, 91u8, 67u8] + rest) == Reading::Complete(Key::Right, 3),
        reading(seq![27u8, 91u8, 68u8] + rest) == Reading::Complete(Key::Left, 3),
        reading(seq![27u8, 91u8, 72u8] + rest) == Reading::Complete(Key::Home, 3),
        reading(seq![27u8, 91u8, 70u8] + rest) == Reading::Complete(Key::End, 3),
        reading(seq![27u8, 91u8, 49u8, 126u8] + rest) == Reading::Complete(Key::Home, 4),
        reading(seq![27u8, 91u8, 51u8, 126u8] + rest) == Reading::Complete(Key::Delete, 4),
        reading(seq![27u8, 91u8, 52u8, 126u8] + rest) == Reading::Complete(Key::End, 4),
        reading(seq![27u8, 91u8, 53u8, 126u8] + rest) == Reading::Complete(Key::PageUp, 4),
        reading(seq![27u8, 91u8, 54u8, 126u8] + rest) == Reading::Complete(Key::PageDown, 4),
        reading(seq![27u8, 91u8, 49u8, 59u8, 53u8, 65u8] + rest) == Reading::Complete(
            Key::PreviousHeading,
            6,
        ),
        reading(seq![27u8, 91u8, 49u8, 59u8, 53u8, 66u8] + rest) == Reading::Complete(
            Key::NextHeading,
            6,
        ),
        with_control(KeyCode::Up) == Key::PreviousHeading,
        with_control(KeyCode::Down) == Key::NextHeading,
        without_control(KeyCode::Up) == Key::Up,
        without_control(KeyCode::Down) == Key::Down,
        without_control(KeyCode::Left) == Key::Left,
        without_control(KeyCode::Right) == Key::Right,
        without_control(KeyCode::Home) == Key::Home,
        without_control(KeyCode::End) == Key::End,
        without_control(KeyCode::PageUp) == Key::PageUp,
        without_control(KeyCode::PageDown) == Key::PageDown,
        without_control(KeyCode::Delete) == Key::Delete,
        without_control(KeyCode::Backspace) == Key::Backspace,
        without_control(KeyCode::Enter) == Key::Enter,
        without_control(KeyCode::Esc) == Key::Escape,
{
    lemma_row_is_read(0, seq![27u8, 91u8, 65u8], rest);
    lemma_row_is_read(1, seq![27u8, 91u8, 66u8], rest);
    lemma_row_is_read(6, seq![27u8, 91u8, 67u8], rest);
    lemma_row_is_read(7, seq![27u8, 91u8, 68u8], rest);
    lemma_row_is_read(8, seq![27u8, 91u8, 72u8], rest);
    lemma_row_is_read(9, seq![27u8, 91u8, 70u8], rest);
    lemma_row_is_read(10, seq![27u8, 91u8, 49u8, 126u8], rest);
    lemma_row_is_read(12, seq![27u8, 91u8, 51u8, 126u8], rest);
    lemma_row_is_read(11, seq![27u8, 91u8, 52u8, 126u8], rest);
    lemma_row_is_read(13, seq![27u8, 91u8, 53u8, 126u8], rest);
    lemma_row_is_read(14, seq![27u8, 91u8, 54u8, 126u8], rest);
    lemma_row_is_read(2, seq![27u8, 91u8, 49u8, 59u8, 53u8, 65u8], rest);
    lemma_row_is_read(3, seq![27u8, 91u8, 49u8, 59u8, 53u8, 66u8], rest);
}

proof fn lemma_row_is_read(row: int, bytes: Seq<u8>, rest: Seq<u8>)
    requires
        0 <= row < escape_sequences().len(),
        escape_sequences()[row].0 =~= bytes,
    ensures
        reading(bytes + rest) == Reading::Complete(
            escape_sequences()[row].1,
            bytes.len() as int,
        ),
{
    law_escape_sequences_are_read(row, rest);
}

/// Control and a letter ask for the same as an event and as the byte of a
/// terminal: Q to quit, S to save, N for a new note, Z and Y to undo and redo, R to
/// restore, F to find, G for a target, L to draw anew. The bytes of H and of delete
/// are backspace, those of J and M enter, that of I a tab.
pub proof fn law_control_letters_ask_for_the_same(letter: char, rest: Seq<u8>)
    requires
        'a' <= letter <= 'z',
    ensures
        with_control(KeyCode::Char('q')) == Key::Quit,
        with_control(KeyCode::Char('s')) == Key::Save,
        with_control(KeyCode::Char('n')) == Key::New,
        with_control(KeyCode::Char('z')) == Key::Undo,
        with_control(KeyCode::Char('y')) == Key::Redo,
        with_control(KeyCode::Char('r')) == Key::Restore,
        with_control(KeyCode::Char('f')) == Key::Search,
        with_control(KeyCode::Char('g')) == Key::Target,
        with_control(KeyCode::Char('l')) == Key::Redraw,
        letter != 'h' && letter != 'i' && letter != 'j' && letter != 'k' && letter != 'm' && letter
            != 'o' ==> reading(seq![(letter as u32 - 96) as u8] + rest) == Reading::Complete(
            with_control(KeyCode::Char(letter)),
            1,
        ),
        letter == 'h' ==> reading(seq![(letter as u32 - 96) as u8] + rest) == Reading::Complete(
            Key::Backspace,
            1,
        ),
        letter == 'j' || letter == 'm' ==> reading(seq![(letter as u32 - 96) as u8] + rest)
            == Reading::Complete(Key::Enter, 1),
        letter == 'i' ==> reading(seq![(letter as u32 - 96) as u8] + rest) == Reading::Complete(
            Key::Char('\t'),
            1,
        ),
        reading(seq![127u8] + rest) == Reading::Complete(Key::Backspace, 1),
{
    let byte = (letter as u32 - 96) as u8;
    assert((seq![byte] + rest)[0] == byte);
    assert((seq![127u8] + rest)[0] == 127);
}

/// Every character that is typed is read as itself, whatever its length and
/// whatever follows it, and the beginning of one waits for the rest.
pub proof fn law_characters_are_read(c: char, rest: Seq<u8>, count: int)
    requires
        c >= ' ',
        c != '\x7f',
    ensures
        ({
            let bytes = vstd::utf8::encode_utf8(seq![c]);
            &&& reading(bytes + rest) == Reading::Complete(Key::Char(c), bytes.len() as int)
            &&& 0 < count < bytes.len() ==> reading(bytes.take(count)) == Reading::Partial
        }),
        without_control(KeyCode::Char(c)) == Key::Char(c),
        reading(Seq::empty()) == Reading::Partial,
{
    let u = c as u32;
    let bytes = vstd::utf8::encode_utf8(seq![c]);
    vstd::utf8::char_is_scalar(c);
    reveal_with_fuel(vstd::utf8::encode_utf8, 2);
    assert(seq![c].drop_first() == Seq::<char>::empty());
    assert(vstd::utf8::encode_utf8(seq![c].drop_first()) == Seq::<u8>::empty());
    assert(bytes == vstd::utf8::encode_scalar(u));
    assert(u <= 0x7f ==> (u & 0x7f) as u8 == u) by (bit_vector);
    assert(0xc0 <= (0xc0u8 | ((u >> 6) & 0x1f) as u8) <= 0xdf) by (bit_vector);
    assert(0xe0 <= (0xe0u8 | ((u >> 12) & 0x0f) as u8) <= 0xef) by (bit_vector);
    assert(0xf0 <= (0xf0u8 | ((u >> 18) & 0x7) as u8) <= 0xf7) by (bit_vector);
    assert(bytes.len() == character_length(bytes[0]));
    let whole = bytes + rest;
    assert(whole[0] == bytes[0]);
    assert(whole.take(bytes.len() as int) == bytes);
    vstd::utf8::encode_utf8_valid_utf8(seq![c]);
    vstd::utf8::encode_utf8_decode_utf8(seq![c]);
    if 0 < count < bytes.len() {
        assert(bytes.take(count)[0] == bytes[0]);
    }
}

} // verus!
