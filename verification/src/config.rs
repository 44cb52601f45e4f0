//! What the desk remembers between sessions, as the text of its files.
use vstd::prelude::*;

use crate::order;
use crate::text;
use crate::theme;

verus! {

/// How the page is shown: quarter turns, size, and theme.
#[derive(Debug, Clone, Copy, PartialEq, Eq, Structural)]
pub struct DisplayConfig {
    pub rotation: u8,
    pub zoom: i8,
    pub theme: u8,
}

impl DisplayConfig {
    /// What the keys keep the settings within.
    pub open spec fn in_range(self) -> bool {
        self.rotation < 4 && -8 <= self.zoom <= 5 && self.theme < theme::THEME_COUNT
    }
}

/// What a line sets, if it begins with a name: the rest of it.
pub open spec fn setting(line: Seq<char>, name: Seq<char>) -> Option<Seq<char>> {
    if name.is_prefix_of(line) {
        Some(line.skip(name.len() as int))
    } else {
        None
    }
}

pub open spec fn number_or_zero(value: Option<nat>) -> nat {
    match value {
        Some(number) => number,
        None => 0,
    }
}

pub open spec fn integer_or_zero(value: Option<int>) -> int {
    match value {
        Some(number) => number,
        None => 0,
    }
}

/// The settings after a line. A value that is no number counts as zero; a turn
/// or a theme past the last begins anew, and the size is held between its ends.
pub open spec fn after_line(config: DisplayConfig, line: Seq<char>) -> DisplayConfig {
    match setting(line, "rotation="@) {
        Some(value) => DisplayConfig {
            rotation: (number_or_zero(text::unsigned_value(value, 255)) % 4) as u8,
            ..config
        },
        None => match setting(line, "zoom="@) {
            Some(value) => {
                let zoom = integer_or_zero(text::signed_byte_value(value));
                DisplayConfig {
                    zoom: (if zoom < -8 {
                        -8
                    } else if zoom > 5 {
                        5
                    } else {
                        zoom
                    }) as i8,
                    ..config
                }
            },
            None => match setting(line, "theme="@) {
                Some(value) => DisplayConfig {
                    theme: (number_or_zero(text::unsigned_value(value, 255))
                        % theme::THEME_COUNT as nat) as u8,
                    ..config
                },
                None => config,
            },
        },
    }
}

/// The settings after the first `count` lines of a file.
pub open spec fn after_lines(lines: Seq<Seq<char>>, count: int) -> DisplayConfig
    decreases count,
{
    if count <= 0 {
        DisplayConfig { rotation: 0, zoom: (-2) as i8, theme: 0 }
    } else {
        after_line(after_lines(lines, count - 1), lines[count - 1])
    }
}

/// The settings that a file holds.
pub open spec fn display_settings(contents: Seq<char>) -> DisplayConfig {
    let lines = text::lines_of(contents);
    after_lines(lines, lines.len() as int)
}

fn setting_of(line: &[char], name: &str) -> (value: Option<Vec<char>>)
    ensures
        match value {
            Some(v) => setting(line@, name@) == Some(v@),
            None => setting(line@, name@) is None,
        },
{
    let prefix: Vec<char> = text::chars_of(name);
    if text::starts_with(line, prefix.as_slice()) {
        let value: Vec<char> = text::chars_between(line, prefix.len(), line.len());
        assert(value@ == line@.skip(name@.len() as int));
        Some(value)
    } else {
        None
    }
}

fn byte_or_zero(value: &[char]) -> (number: u8)
    ensures
        number == number_or_zero(text::unsigned_value(value@, 255)),
{
    match text::parse_unsigned(value, 255) {
        Some(number) => number as u8,
        None => 0,
    }
}

/// Reads the settings of the page. Without a file it stands upright, a little
/// smaller than full size, in the first theme.
pub fn read_display_config(contents: Option<&str>) -> (config: DisplayConfig)
    ensures
        config == match contents {
            Some(file) => display_settings(file@),
            None => display_settings(Seq::empty()),
        },
        config.in_range(),
{
    let mut config = DisplayConfig { rotation: 0, zoom: -2, theme: 0 };
    match contents {
        Some(file) => {
            let lines: Vec<Vec<char>> = text::lines(text::chars_of(file).as_slice());
            let ghost shown = text::lines_of(file@);
            assert(text::char_lists(lines@).len() == lines@.len());
            let mut i: usize = 0;
            while i < lines.len()
                invariant
                    i <= lines@.len(),
                    shown == text::char_lists(lines@),
                    config == after_lines(shown, i as int),
                    config.in_range(),
                decreases lines@.len() - i,
            {
                let line: &Vec<char> = &lines[i];
                assert(shown[i as int] == line@);
                match setting_of(line.as_slice(), "rotation=") {
                    Some(value) => {
                        config.rotation = byte_or_zero(value.as_slice()) % 4;
                    },
                    None => match setting_of(line.as_slice(), "zoom=") {
                        Some(value) => {
                            let zoom: i8 = match text::parse_i8(value.as_slice()) {
                                Some(number) => number,
                                None => 0,
                            };
                            config.zoom = if zoom < -8 {
                                -8
                            } else if zoom > 5 {
                                5
                            } else {
                                zoom
                            };
                        },
                        None => match setting_of(line.as_slice(), "theme=") {
                            Some(value) => {
                                config.theme = byte_or_zero(value.as_slice()) % theme::THEME_COUNT;
                            },
                            None => {},
                        },
                    },
                }
                i += 1;
            }
        },
        None => {
            assert(text::lines_of(Seq::<char>::empty()).len() == 0);
        },
    }
    config
}

/// A small integer in decimal.
pub open spec fn signed_decimal(n: int) -> Seq<char> {
    if n < 0 {
        "-"@ + text::decimal((-n) as nat)
    } else {
        text::decimal(n as nat)
    }
}

/// The file that holds the settings.
pub open spec fn display_text(config: DisplayConfig) -> Seq<char> {
    "rotation="@ + text::decimal(config.rotation as nat) + "\nzoom="@ + signed_decimal(
        config.zoom as int,
    ) + "\ntheme="@ + text::decimal(config.theme as nat) + "\n"@
}

/// Writes the settings of the page.
pub fn display_config_text(config: DisplayConfig) -> (contents: String)
    ensures
        contents@ == display_text(config),
{
    let mut contents: String = text::owned("rotation=");
    contents.append(text::decimal_text(config.rotation as u128).as_str());
    contents.append("\nzoom=");
    let mut zoom: String = String::new();
    if config.zoom < 0 {
        let positive: i16 = 0 - (config.zoom as i16);
        zoom.append("-");
        zoom.append(text::decimal_text(positive as u128).as_str());
        assert(zoom@ == "-"@ + text::decimal(positive as nat));
    } else {
        zoom.append(text::decimal_text(config.zoom as u128).as_str());
        assert(zoom@ == text::decimal(config.zoom as nat));
    }
    contents.append(zoom.as_str());
    contents.append("\ntheme=");
    contents.append(text::decimal_text(config.theme as u128).as_str());
    contents.append("\n");
    contents
}

/// The file that holds the note last worked on and the cursor in it.
pub open spec fn cursor_state(place: Seq<char>, cursor: nat) -> Seq<char> {
    place + "\n"@ + text::decimal(cursor) + "\n"@
}

/// Writes the note last worked on and the cursor in it.
pub fn cursor_state_text(place: &str, cursor: usize) -> (contents: String)
    ensures
        contents@ == cursor_state(place@, cursor as nat),
{
    let mut contents: String = text::owned(place);
    contents.append("\n");
    contents.append(text::decimal_text(cursor as u128).as_str());
    contents.append("\n");
    contents
}

/// The cursor that a file holds for a note: its second line, if its first names
/// the note and the second is a number.
pub open spec fn remembered_cursor(contents: Seq<char>, place: Seq<char>) -> Option<nat> {
    let lines = text::lines_of(contents);
    if lines.len() >= 2 && lines[0] == place {
        text::unsigned_value(lines[1], usize::MAX as nat)
    } else {
        None
    }
}

/// Reads the cursor that a file holds for a note.
pub fn read_cursor_state(contents: &str, place: &str) -> (cursor: Option<usize>)
    ensures
        match cursor {
            Some(c) => remembered_cursor(contents@, place@) == Some(c as nat),
            None => remembered_cursor(contents@, place@) is None,
        },
{
    let lines: Vec<Vec<char>> = text::lines(text::chars_of(contents).as_slice());
    let ghost shown = text::char_lists(lines@);
    assert(shown.len() == lines@.len());
    if lines.len() < 2 {
        return None;
    }
    assert(shown[0] == lines@[0]@ && shown[1] == lines@[1]@);
    if !text::same_chars(lines[0].as_slice(), text::chars_of(place).as_slice()) {
        return None;
    }
    match text::parse_unsigned(lines[1].as_slice(), usize::MAX as u64) {
        Some(number) => Some(number as usize),
        None => None,
    }
}

/// The lines that are not empty.
pub open spec fn filled_lines(lines: Seq<Seq<char>>) -> Seq<Seq<char>> {
    lines.filter(|line: Seq<char>| line.len() > 0)
}

/// The pinned notes that a file names: one on each line that is not empty.
pub fn read_pins(contents: &str) -> (names: Vec<String>)
    ensures
        text::views(names@) == filled_lines(text::lines_of(contents@)),
{
    let lines: Vec<Vec<char>> = text::lines(text::chars_of(contents).as_slice());
    let ghost shown = text::char_lists(lines@);
    let mut names: Vec<String> = Vec::new();
    let mut i: usize = 0;
    proof {
        reveal(Seq::filter);
        assert(text::views(names@) == filled_lines(shown.take(0)));
    }
    while i < lines.len()
        invariant
            i <= lines@.len(),
            shown == text::char_lists(lines@),
            text::views(names@) == filled_lines(shown.take(i as int)),
        decreases lines@.len() - i,
    {
        let ghost before = names@;
        proof {
            reveal(Seq::filter);
            assert(shown.take(i + 1).drop_last() == shown.take(i as int));
            assert(shown.take(i + 1).last() == lines@[i as int]@);
        }
        if lines[i].len() > 0 {
            let name: String = text::string_of(lines[i].as_slice());
            names.push(name);
            assert(text::views(names@) == text::views(before).push(name@));
        }
        i += 1;
    }
    assert(shown.take(shown.len() as int) == shown);
    names
}

/// Names with line feeds between them.
pub open spec fn listed(names: Seq<Seq<char>>) -> Seq<char>
    decreases names.len(),
{
    if names.len() == 0 {
        Seq::empty()
    } else if names.len() == 1 {
        names[0]
    } else {
        names[0] + "\n"@ + listed(names.skip(1))
    }
}

/// Texts in order.
pub open spec fn in_text_order(names: Seq<Seq<char>>) -> Seq<Seq<char>> {
    order::sorted_by(names, |a: Seq<char>, b: Seq<char>| text::text_at_most(a, b, 0))
}

/// The file that names the pinned notes: one on each line, in order.
pub fn pins_text(names: Vec<String>) -> (contents: String)
    ensures
        contents@ == listed(in_text_order(text::views(names@))),
{
    proof {
        order::lemma_sorted_views(
            names@,
            |name: String| name@,
            |a: Seq<char>, b: Seq<char>| text::text_at_most(a, b, 0),
        );
    }
    let sorted: Vec<String> = order::sort(names);
    let ghost shown = text::views(sorted@);
    let mut contents = String::new();
    let mut i: usize = sorted.len();
    assert(contents@ == listed(shown.skip(i as int)));
    while i > 0
        invariant
            i <= sorted@.len(),
            shown == text::views(sorted@),
            contents@ == listed(shown.skip(i as int)),
        decreases i,
    {
        let last: bool = i == sorted.len();
        i -= 1;
        let mut longer: String = text::owned(sorted[i].as_str());
        proof {
            assert(shown.skip(i as int).skip(1) == shown.skip(i + 1));
            assert(shown.skip(i as int)[0] == sorted@[i as int]@);
        }
        if !last {
            longer.append("\n");
            longer.append(contents.as_str());
        }
        contents = longer;
    }
    assert(shown.skip(0) == shown);
    contents
}

/// Whether a name can stand on a line of its own and be read back.
pub open spec fn fits_a_line(name: Seq<char>) -> bool {
    name.len() > 0 && !name.contains('\n') && name.last() != '\r'
}

/// Pinned notes read back from the file that names them, where each name fits on
/// a line.
pub proof fn law_pins_read_back(names: Seq<Seq<char>>)
    requires
        forall|i: int| 0 <= i < names.len() ==> fits_a_line(#[trigger] names[i]),
    ensures
        filled_lines(text::lines_of(listed(names))) == names,
    decreases names.len(),
{
    reveal(Seq::filter);
    reveal_strlit("\n");
    if names.len() == 0 {
        assert(filled_lines(Seq::<Seq<char>>::empty()) == names);
    } else {
        let rest = names.skip(1);
        assert(fits_a_line(names[0]));
        assert forall|i: int| 0 <= i < rest.len() implies fits_a_line(#[trigger] rest[i]) by {
            assert(rest[i] == names[i + 1]);
        }
        law_pins_read_back(rest);
        assert("\n"@ == seq!['\n']);
        if names.len() == 1 {
            text::lemma_lines_single(names[0]);
            assert(seq![names[0]].drop_last() == Seq::<Seq<char>>::empty());
            assert(filled_lines(seq![names[0]]) == names);
        } else {
            text::lemma_lines_join(names[0], listed(rest));
            let lines = text::lines_of(listed(rest));
            lemma_filled_lines_prepend(names[0], lines);
            assert(seq![names[0]] + rest == names);
        }
    }
}

proof fn lemma_filled_lines_prepend(line: Seq<char>, lines: Seq<Seq<char>>)
    requires
        line.len() > 0,
    ensures
        filled_lines(seq![line] + lines) == seq![line] + filled_lines(lines),
{
    let kept = |l: Seq<char>| l.len() > 0;
    Seq::filter_distributes_over_add(seq![line], lines, kept);
    reveal(Seq::filter);
    assert(seq![line].drop_last() == Seq::<Seq<char>>::empty());
    assert(seq![line].filter(kept) == seq![line]);
}

/// The cursor in a note reads back from the file that remembers it, where the
/// name of the note fits on a line.
pub proof fn law_cursor_reads_back(place: Seq<char>, cursor: nat)
    requires
        cursor <= usize::MAX,
        fits_a_line(place),
    ensures
        remembered_cursor(cursor_state(place, cursor), place) == Some(cursor),
{
    reveal_strlit("\n");
    assert("\n"@ == seq!['\n']);
    let number = text::decimal(cursor);
    text::lemma_decimal(cursor);
    lemma_digits_fit(number);
    let empty = Seq::<char>::empty();
    assert(cursor_state(place, cursor) == place + seq!['\n'] + (number + seq!['\n'] + empty));
    text::lemma_lines_join(place, number + seq!['\n'] + empty);
    text::lemma_lines_join(number, empty);
    let lines = text::lines_of(cursor_state(place, cursor));
    assert(lines == seq![place] + (seq![number] + text::lines_of(empty)));
    assert(lines[0] == place && lines[1] == number);
    text::law_numbers_read_back(cursor, usize::MAX as nat);
}

proof fn lemma_digits_fit(s: Seq<char>)
    requires
        s.len() > 0,
        text::all_digits(s),
    ensures
        fits_a_line(s),
{
    assert forall|i: int| 0 <= i < s.len() implies s[i] != '\n' by {
        assert(text::is_digit(s[i]));
    }
    assert(text::is_digit(s[s.len() - 1]));
}

/// The settings of the page read back from the file that holds them.
pub proof fn law_display_settings_read_back(config: DisplayConfig)
    requires
        config.in_range(),
    ensures
        display_settings(display_text(config)) == config,
{
    reveal_strlit("\n");
    reveal_strlit("\nzoom=");
    reveal_strlit("\ntheme=");
    reveal_strlit("rotation=");
    reveal_strlit("zoom=");
    reveal_strlit("theme=");
    reveal_strlit("-");
    let r = text::decimal(config.rotation as nat);
    let z = signed_decimal(config.zoom as int);
    let t = text::decimal(config.theme as nat);
    text::lemma_decimal(config.rotation as nat);
    text::lemma_decimal(config.theme as nat);
    lemma_digits_fit(r);
    lemma_digits_fit(t);
    lemma_signed_decimal(config.zoom as int);
    let first = "rotation="@ + r;
    let second = "zoom="@ + z;
    let third = "theme="@ + t;
    let empty = Seq::<char>::empty();
    let nl = seq!['\n'];
    assert("\nzoom="@ == nl + "zoom="@);
    assert("\ntheme="@ == nl + "theme="@);
    assert("\n"@ == nl);
    assert(display_text(config) == first + nl + (second + nl + (third + nl + empty)));
    assert(first.last() == r.last());
    assert(second.last() == z.last());
    assert(third.last() == t.last());
    text::lemma_lines_join(first, second + nl + (third + nl + empty));
    text::lemma_lines_join(second, third + nl + empty);
    text::lemma_lines_join(third, empty);
    let lines = text::lines_of(display_text(config));
    assert(lines == seq![first] + (seq![second] + (seq![third] + text::lines_of(empty))));
    assert(lines.len() == 3);
    assert(lines[0] == first && lines[1] == second && lines[2] == third);
    assert(first.take(9) == "rotation="@ && first.skip(9) == r);
    assert(second[0] == 'z' && third[0] == 't');
    assert(second.take(5) == "zoom="@ && second.skip(5) == z);
    assert(third.take(6) == "theme="@ && third.skip(6) == t);
    assert(second.len() >= 9 ==> second.take(9)[0] != "rotation="@[0]);
    assert(third.len() >= 9 ==> third.take(9)[0] != "rotation="@[0]);
    assert(third.take(5)[0] != "zoom="@[0]);
    text::law_numbers_read_back(config.rotation as nat, 255);
    text::law_numbers_read_back(config.theme as nat, 255);
    reveal_with_fuel(after_lines, 4);
    assert(setting(first, "rotation="@) == Some(r));
    assert(setting(second, "rotation="@) is None);
    assert(setting(second, "zoom="@) == Some(z));
    assert(setting(third, "rotation="@) is None);
    assert(setting(third, "zoom="@) is None);
    assert(setting(third, "theme="@) == Some(t));
}

proof fn lemma_signed_decimal(n: int)
    requires
        -128 <= n <= 127,
    ensures
        text::signed_byte_value(signed_decimal(n)) == Some(n),
        fits_a_line(signed_decimal(n)),
{
    reveal_strlit("-");
    if n < 0 {
        let digits = text::decimal((-n) as nat);
        text::lemma_decimal((-n) as nat);
        lemma_digits_fit(digits);
        let s = signed_decimal(n);
        assert(s.skip(1) == digits);
        assert(s[0] == '-');
        assert forall|i: int| 0 <= i < s.len() implies s[i] != '\n' by {
            if i > 0 {
                assert(s[i] == digits[i - 1]);
            }
        }
        assert(s.last() == digits.last());
    } else {
        text::lemma_decimal(n as nat);
        lemma_digits_fit(text::decimal(n as nat));
        text::law_numbers_read_back(n as nat, 127);
        assert(text::is_digit(text::decimal(n as nat)[0]));
    }
}

/// What a line sets is taken as it stands where it is in range. A turn or a theme
/// past the last begins anew, and a size past its ends is held at them. A line that
/// names none of the three changes nothing.
pub proof fn law_settings_are_held_in_range(
    config: DisplayConfig,
    n: nat,
    zoom: int,
    line: Seq<char>,
)
    requires
        n <= 255,
        -128 <= zoom <= 127,
    ensures
        after_line(config, "rotation="@ + text::decimal(n)) == (DisplayConfig {
            rotation: (n % 4) as u8,
            ..config
        }),
        after_line(config, "theme="@ + text::decimal(n)) == (DisplayConfig {
            theme: (n % 3) as u8,
            ..config
        }),
        after_line(config, "zoom="@ + signed_decimal(zoom)).rotation == config.rotation,
        after_line(config, "zoom="@ + signed_decimal(zoom)).theme == config.theme,
        -8 <= zoom <= 5 ==> after_line(config, "zoom="@ + signed_decimal(zoom)).zoom == zoom,
        zoom < -8 ==> after_line(config, "zoom="@ + signed_decimal(zoom)).zoom == -8,
        zoom > 5 ==> after_line(config, "zoom="@ + signed_decimal(zoom)).zoom == 5,
        !"rotation="@.is_prefix_of(line) && !"zoom="@.is_prefix_of(line)
            && !"theme="@.is_prefix_of(line) ==> after_line(config, line) == config,
        display_settings(Seq::empty()) == (DisplayConfig { rotation: 0, zoom: -2i8, theme: 0 }),
{
    reveal_strlit("rotation=");
    reveal_strlit("zoom=");
    reveal_strlit("theme=");
    reveal_strlit("-");
    let r = "rotation="@ + text::decimal(n);
    let t = "theme="@ + text::decimal(n);
    let z = "zoom="@ + signed_decimal(zoom);
    text::law_numbers_are_read_within_limits(n, 255, line, 0);
    assert(r.take(9) == "rotation="@);
    assert(r.skip(9) == text::decimal(n));
    assert(t[0] == 't' && z[0] == 'z');
    if "rotation="@.is_prefix_of(t) {
        assert(t[0] == "rotation="@[0]);
    }
    if "zoom="@.is_prefix_of(t) {
        assert(t[0] == "zoom="@[0]);
    }
    assert(t.take(6) == "theme="@);
    assert(t.skip(6) == text::decimal(n));
    if "rotation="@.is_prefix_of(z) {
        assert(z[0] == "rotation="@[0]);
    }
    assert(z.take(5) == "zoom="@);
    assert(z.skip(5) == signed_decimal(zoom));
    if zoom >= 0 {
        text::law_numbers_are_read_within_limits(zoom as nat, 127, line, 0);
    } else {
        text::law_numbers_are_read_within_limits((-zoom) as nat, 127, line, 0);
        assert("-"@ == seq!['-']);
    }
    text::law_lines_end_at_line_feeds(Seq::empty(), Seq::empty());
}

/// Of several lines that set the same, the last one counts: the settings of a file
/// are those before its last line, changed by that line.
pub proof fn law_the_last_line_counts(lines: Seq<Seq<char>>, line: Seq<char>)
    ensures
        after_lines(lines.push(line), lines.len() as int + 1) == after_line(
            after_lines(lines, lines.len() as int),
            line,
        ),
{
    lemma_earlier_lines(lines, line, lines.len() as int);
}

proof fn lemma_earlier_lines(lines: Seq<Seq<char>>, line: Seq<char>, count: int)
    requires
        0 <= count <= lines.len(),
    ensures
        after_lines(lines.push(line), count) == after_lines(lines, count),
    decreases count,
{
    if count > 0 {
        lemma_earlier_lines(lines, line, count - 1);
    }
}

/// A cursor is remembered for its own note only.
pub proof fn law_a_cursor_is_remembered_for_its_note(
    place: Seq<char>,
    cursor: nat,
    other: Seq<char>,
)
    requires
        fits_a_line(place),
        other != place,
    ensures
        remembered_cursor(cursor_state(place, cursor), other) is None,
{
    reveal_strlit("\n");
    assert("\n"@ == seq!['\n']);
    let rest = text::decimal(cursor) + seq!['\n'];
    assert(cursor_state(place, cursor) == place + seq!['\n'] + rest);
    text::lemma_lines_join(place, rest);
    assert(text::lines_of(cursor_state(place, cursor))[0] == place);
}

/// The pinned notes are written in the order of their characters: each that is
/// pinned, and no other, and of two names that differ the one with the smaller
/// character where they first do comes first.
pub proof fn law_pins_are_written_in_order(
    names: Seq<Seq<char>>,
    name: Seq<char>,
    i: int,
    j: int,
    c: int,
)
    requires
        0 <= i < j < in_text_order(names).len(),
    ensures
        in_text_order(names).contains(name) <==> names.contains(name),
        ({
            let a = in_text_order(names)[i];
            let b = in_text_order(names)[j];
            0 <= c < a.len() && c < b.len() && a.take(c) == b.take(c) && a[c] != b[c] ==> a[c]
                < b[c]
        }),
{
    let at_most = |a: Seq<char>, b: Seq<char>| text::text_at_most(a, b, 0);
    order::law_sorting_by_keeps_members(names, at_most, name);
    assert forall|a: Seq<char>, b: Seq<char>| #[trigger] at_most(a, b) || at_most(b, a) by {
        text::lemma_text_total(a, b, 0);
    }
    assert forall|a: Seq<char>, b: Seq<char>, d: Seq<char>| #[trigger]
        at_most(a, b) && #[trigger] at_most(b, d) implies at_most(a, d) by {
        text::lemma_text_transitive(a, b, d, 0);
    }
    order::lemma_sorted_by_orders(names, at_most);
    let a = in_text_order(names)[i];
    let b = in_text_order(names)[j];
    assert(at_most(a, b));
    if 0 <= c < a.len() && c < b.len() && a.take(c) == b.take(c) && a[c] != b[c] {
        text::law_texts_are_ordered_by_their_characters(b, a, c);
    }
}

} // verus!
