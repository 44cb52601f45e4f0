//! Visual columns, soft wrapping, and the way between a place in the text and
//! a place on the page.
use vstd::prelude::*;

use crate::text;

verus! {

/// The characters that take two columns.
pub open spec fn full_width(ch: char) -> bool {
    let u = ch as u32;
    ||| 0x1100 <= u <= 0x115f
    ||| 0x2329 <= u <= 0x232a
    ||| 0x2e80 <= u <= 0xa4cf
    ||| 0xac00 <= u <= 0xd7a3
    ||| 0xf900 <= u <= 0xfaff
    ||| 0xfe10 <= u <= 0xfe19
    ||| 0xfe30 <= u <= 0xfe6f
    ||| 0xff00 <= u <= 0xff60
    ||| 0xffe0 <= u <= 0xffe6
    ||| 0x1f300 <= u <= 0x1faff
    ||| 0x20000 <= u <= 0x3fffd
}

/// The columns that a character takes when it stands at a column.
pub open spec fn width_of(ch: char, column: int) -> int {
    if ch == '\t' {
        4 - column % 4
    } else if text::control(ch) {
        0
    } else if full_width(ch) {
        2
    } else {
        1
    }
}

/// The columns that a character takes when it stands at `column`: a tab runs to
/// the next multiple of four, a control character takes none, the common
/// full-width ranges take two.
pub fn char_width(ch: char, column: usize) -> (width: usize)
    ensures
        width == width_of(ch, column as int),
        width <= 4,
{
    if ch == '\t' {
        return 4 - (column % 4);
    }
    if text::is_control(ch) {
        return 0;
    }
    let u: u32 = ch as u32;
    if (0x1100 <= u && u <= 0x115f) || (0x2329 <= u && u <= 0x232a) || (0x2e80 <= u && u <= 0xa4cf)
        || (0xac00 <= u && u <= 0xd7a3) || (0xf900 <= u && u <= 0xfaff) || (0xfe10 <= u && u
        <= 0xfe19) || (0xfe30 <= u && u <= 0xfe6f) || (0xff00 <= u && u <= 0xff60) || (0xffe0 <= u
        && u <= 0xffe6) || (0x1f300 <= u && u <= 0x1faff) || (0x20000 <= u && u <= 0x3fffd) {
        2
    } else {
        1
    }
}

/// The columns that the characters from `start` up to `end` take on one row.
pub open spec fn columns(text: Seq<char>, start: int, end: int) -> int
    decreases end - start,
{
    if end <= start {
        0
    } else {
        let before = columns(text, start, end - 1);
        before + width_of(text[end - 1], before)
    }
}

/// Whether the character at `at` no longer fits on the row that begins at
/// `start`. The first character of a row always fits.
pub open spec fn overflows(text: Seq<char>, width: int, start: int, at: int) -> bool {
    let column = columns(text, start, at);
    at > start && column + width_of(text[at], column) > width
}

/// Where the row that begins at `start` ends, looking from `at` on: at the end
/// of the text, at a line feed, or before the first character that does not fit.
pub open spec fn row_end(text: Seq<char>, width: int, start: int, at: int) -> int
    decreases text.len() - at,
{
    if at >= text.len() {
        text.len() as int
    } else if text[at] == '\n' || overflows(text, width, start, at) {
        at
    } else {
        row_end(text, width, start, at + 1)
    }
}

/// The rows from `start` on, each as the place of its first character and the
/// place after its last. A line feed ends its row and stands on none.
pub open spec fn rows_from(text: Seq<char>, width: int, start: int) -> Seq<(int, int)>
    decreases text.len() - start,
{
    proof {
        lemma_row_end(text, width, start, start);
    }
    let end = row_end(text, width, start, start);
    if start >= text.len() || end >= text.len() {
        seq![(start, text.len() as int)]
    } else if text[end] == '\n' {
        seq![(start, end)] + rows_from(text, width, end + 1)
    } else {
        seq![(start, end)] + rows_from(text, width, end)
    }
}

/// The rows of a text on a page `width` columns wide, at least one.
pub open spec fn rows(text: Seq<char>, width: int) -> Seq<(int, int)> {
    rows_from(text, if width < 1 {
        1
    } else {
        width
    }, 0)
}

/// The places of a list of rows as mathematical integers.
pub open spec fn places(ranges: Seq<(usize, usize)>) -> Seq<(int, int)> {
    ranges.map_values(|range: (usize, usize)| (range.0 as int, range.1 as int))
}

pub proof fn lemma_row_end(text: Seq<char>, width: int, start: int, at: int)
    requires
        start <= at,
    ensures
        row_end(text, width, start, at) >= if at < text.len() {
            at
        } else {
            text.len() as int
        },
        row_end(text, width, start, at) <= text.len(),
        row_end(text, width, start, at) < text.len() && text[row_end(text, width, start, at)]
            != '\n' ==> overflows(text, width, start, row_end(text, width, start, at)),
        forall|k: int|
            at <= k < row_end(text, width, start, at) ==> #[trigger] text[k] != '\n' && !overflows(
                text,
                width,
                start,
                k,
            ),
    decreases text.len() - at,
{
    if at < text.len() && text[at] != '\n' && !overflows(text, width, start, at) {
        lemma_row_end(text, width, start, at + 1);
    }
}

pub proof fn lemma_columns_grow(text: Seq<char>, start: int, mid: int, end: int)
    requires
        start <= mid <= end,
    ensures
        0 <= columns(text, start, mid) <= columns(text, start, end),
    decreases end - start,
{
    if start < end {
        if mid < end {
            lemma_columns_grow(text, start, mid, end - 1);
        } else {
            lemma_columns_grow(text, start, start, end - 1);
        }
    }
}

/// Breaks a text into the rows of a page `width` columns wide.
pub fn wrapped_ranges(text: &[char], width: usize) -> (ranges: Vec<(usize, usize)>)
    ensures
        places(ranges@) == rows(text@, width as int),
        ranges@.len() >= 1,
{
    let width: usize = if width < 1 {
        1
    } else {
        width
    };
    let mut ranges: Vec<(usize, usize)> = Vec::new();
    let mut start: usize = 0;
    let mut i: usize = 0;
    let mut column: usize = 0;
    while i < text.len()
        invariant
            1 <= width,
            start <= i <= text.len(),
            column == columns(text@, start as int, i as int),
            i > start + 1 ==> column <= width,
            i == start + 1 ==> column <= 4,
            row_end(text@, width as int, start as int, i as int) == row_end(
                text@,
                width as int,
                start as int,
                start as int,
            ),
            places(ranges@) + rows_from(text@, width as int, start as int) == rows_from(
                text@,
                width as int,
                0,
            ),
        decreases text.len() - i, i - start,
    {
        let ghost before = ranges@;
        if text[i] == '\n' {
            ranges.push((start, i));
            proof {
                let row = seq![(start as int, i as int)];
                let rest = rows_from(text@, width as int, i + 1);
                assert(rows_from(text@, width as int, start as int) == row + rest);
                assert(places(ranges@) == places(before) + row);
                assert(places(before) + (row + rest) == (places(before) + row) + rest);
            }
            i += 1;
            start = i;
            column = 0;
            continue ;
        }
        let w: usize = char_width(text[i], column);
        if i > start && (column > width || w > width - column) {
            ranges.push((start, i));
            proof {
                let row = seq![(start as int, i as int)];
                let rest = rows_from(text@, width as int, i as int);
                assert(rows_from(text@, width as int, start as int) == row + rest);
                assert(places(ranges@) == places(before) + row);
                assert(places(before) + (row + rest) == (places(before) + row) + rest);
            }
            start = i;
            column = 0;
            continue ;
        }
        column += w;
        i += 1;
    }
    ranges.push((start, text.len()));
    assert(places(ranges@) == rows_from(text@, width as int, 0));
    assert(places(ranges@).len() == ranges@.len());
    ranges
}

/// The row that holds a place, looking at the first `count` rows: the last of
/// them that reaches it. Row zero, column zero if there is none.
pub open spec fn position(text: Seq<char>, ranges: Seq<(int, int)>, count: int, cursor: int) -> (
    int,
    int,
)
    decreases count,
{
    if count <= 0 {
        (0, 0)
    } else if ranges[count - 1].0 <= cursor <= ranges[count - 1].1 {
        (count - 1, columns(text, ranges[count - 1].0, cursor))
    } else {
        position(text, ranges, count - 1, cursor)
    }
}

/// The columns before a place on its row.
fn columns_before(text: &[char], start: usize, cursor: usize) -> (column: usize)
    requires
        start <= cursor <= text.len(),
        columns(text@, start as int, cursor as int) <= usize::MAX,
    ensures
        column == columns(text@, start as int, cursor as int),
{
    let mut column: usize = 0;
    let mut k: usize = start;
    while k < cursor
        invariant
            start <= k <= cursor <= text.len(),
            column == columns(text@, start as int, k as int),
            columns(text@, start as int, cursor as int) <= usize::MAX,
        decreases cursor - k,
    {
        proof {
            lemma_columns_grow(text@, start as int, k + 1, cursor as int);
        }
        column += char_width(text[k], column);
        k += 1;
    }
    column
}

/// The row and column of a place in the text.
pub fn cursor_position(text: &[char], ranges: &[(usize, usize)], cursor: usize) -> (found: (
    usize,
    usize,
))
    requires
        cursor <= text.len(),
        forall|k: int|
            0 <= k < ranges@.len() && #[trigger] ranges@[k].0 <= cursor <= ranges@[k].1 ==> columns(
                text@,
                ranges@[k].0 as int,
                cursor as int,
            ) <= usize::MAX,
    ensures
        (found.0 as int, found.1 as int) == position(
            text@,
            places(ranges@),
            ranges@.len() as int,
            cursor as int,
        ),
        found.0 == 0 || found.0 < ranges@.len(),
{
    let mut found: (usize, usize) = (0, 0);
    let mut row: usize = 0;
    while row < ranges.len()
        invariant
            row <= ranges.len(),
            cursor <= text.len(),
            forall|k: int|
                0 <= k < ranges@.len() && #[trigger] ranges@[k].0 <= cursor <= ranges@[k].1
                    ==> columns(text@, ranges@[k].0 as int, cursor as int) <= usize::MAX,
            (found.0 as int, found.1 as int) == position(
                text@,
                places(ranges@),
                row as int,
                cursor as int,
            ),
            found.0 == 0 || found.0 < row,
        decreases ranges.len() - row,
    {
        let (start, end): (usize, usize) = ranges[row];
        if start <= cursor && cursor <= end {
            found = (row, columns_before(text, start, cursor));
        }
        row += 1;
    }
    found
}

/// The first place from `at` on, before `end`, whose character reaches past
/// column `target` of the row that begins at `start`; `end` if there is none.
pub open spec fn place_at_column(
    text: Seq<char>,
    start: int,
    end: int,
    target: int,
    at: int,
) -> int
    decreases end - at,
{
    if at >= end || columns(text, start, at + 1) > target {
        at
    } else {
        place_at_column(text, start, end, target, at + 1)
    }
}

/// The place in a row that a visual column falls on.
pub fn index_at_visual_column(text: &[char], start: usize, end: usize, target: usize) -> (index:
    usize)
    requires
        end <= text.len(),
    ensures
        index == place_at_column(text@, start as int, end as int, target as int, start as int),
        start <= end ==> start <= index <= end,
{
    let mut index: usize = start;
    let mut column: usize = 0;
    while index < end
        invariant
            end <= text.len(),
            start <= index,
            start <= end ==> index <= end,
            column == columns(text@, start as int, index as int),
            column <= target,
            place_at_column(text@, start as int, end as int, target as int, index as int)
                == place_at_column(text@, start as int, end as int, target as int, start as int),
        decreases end - index,
    {
        let width: usize = char_width(text[index], column);
        if width > target - column {
            return index;
        }
        column += width;
        index += 1;
    }
    index
}

/// What the rows of a text spell: each row's characters, and a line feed
/// wherever the next row begins past the end of the one before.
pub open spec fn rejoined(text: Seq<char>, rows: Seq<(int, int)>) -> Seq<char>
    decreases rows.len(),
{
    if rows.len() == 0 {
        Seq::empty()
    } else if rows.len() > 1 && rows[1].0 > rows[0].1 {
        text.subrange(rows[0].0, rows[0].1) + seq!['\n'] + rejoined(text, rows.skip(1))
    } else {
        text.subrange(rows[0].0, rows[0].1) + rejoined(text, rows.skip(1))
    }
}

proof fn lemma_rejoined(text: Seq<char>, width: int, start: int)
    requires
        0 <= start <= text.len(),
    ensures
        rows_from(text, width, start).len() >= 1,
        rows_from(text, width, start)[0].0 == start,
        rejoined(text, rows_from(text, width, start)) == text.skip(start),
    decreases text.len() - start,
{
    let end = row_end(text, width, start, start);
    lemma_row_end(text, width, start, start);
    let all = rows_from(text, width, start);
    if start >= text.len() || end >= text.len() {
        reveal_with_fuel(rejoined, 2);
        assert(rejoined(text, all) == text.skip(start));
    } else if text[end] == '\n' {
        let rest = rows_from(text, width, end + 1);
        lemma_rejoined(text, width, end + 1);
        assert(all.skip(1) == rest);
        assert(text.skip(start) == text.subrange(start, end) + seq!['\n'] + text.skip(end + 1));
    } else {
        let rest = rows_from(text, width, end);
        lemma_rejoined(text, width, end);
        assert(all.skip(1) == rest);
        assert(text.skip(start) == text.subrange(start, end) + text.skip(end));
    }
}

/// Wrapping loses nothing and adds nothing: the rows, read in order, spell the
/// text.
pub proof fn law_wrapping_preserves_every_character(text: Seq<char>, width: int)
    ensures
        rejoined(text, rows(text, width)) == text,
{
    lemma_rejoined(text, if width < 1 {
        1
    } else {
        width
    }, 0);
    assert(text.skip(0) == text);
}

pub proof fn lemma_rows(text: Seq<char>, width: int, start: int)
    requires
        0 <= start <= text.len(),
    ensures
        forall|k: int|
            0 <= k < rows_from(text, width, start).len() ==> {
                let row = #[trigger] rows_from(text, width, start)[k];
                &&& start <= row.0 <= row.1 <= text.len()
                &&& row.1 - row.0 <= 1 || columns(text, row.0, row.1) <= width
                &&& forall|j: int| row.0 <= j < row.1 ==> #[trigger] text[j] != '\n'
            },
    decreases text.len() - start,
{
    let end = row_end(text, width, start, start);
    lemma_row_end(text, width, start, start);
    if end - start > 1 {
        assert(text[end - 1] != '\n');
        assert(!overflows(text, width, start, end - 1));
    }
    let all = rows_from(text, width, start);
    if start >= text.len() || end >= text.len() {
        assert(all == seq![(start, text.len() as int)]);
    } else {
        let next = if text[end] == '\n' {
            end + 1
        } else {
            end
        };
        let rest = rows_from(text, width, next);
        lemma_rows(text, width, next);
        assert(all == seq![(start, end)] + rest);
        assert forall|k: int| 0 <= k < all.len() implies {
            let row = #[trigger] all[k];
            &&& start <= row.0 <= row.1 <= text.len()
            &&& row.1 - row.0 <= 1 || columns(text, row.0, row.1) <= width
            &&& forall|j: int| row.0 <= j < row.1 ==> #[trigger] text[j] != '\n'
        } by {
            if k > 0 {
                assert(all[k] == rest[k - 1]);
            }
        }
    }
}

/// No row holds a line feed, and no row is wider than the page unless it is a
/// single character.
pub proof fn law_rows_fit_the_page(text: Seq<char>, width: int, k: int)
    requires
        width >= 1,
        0 <= k < rows(text, width).len(),
    ensures
        0 <= rows(text, width)[k].0 <= rows(text, width)[k].1 <= text.len(),
        !text.subrange(rows(text, width)[k].0, rows(text, width)[k].1).contains('\n'),
        rows(text, width)[k].1 - rows(text, width)[k].0 <= 1 || columns(
            text,
            rows(text, width)[k].0,
            rows(text, width)[k].1,
        ) <= width,
{
    lemma_rows(text, width, 0);
}

/// Every place in a row is on the page or one character into it.
pub proof fn lemma_row_columns(text: Seq<char>, width: int, k: int, cursor: int)
    requires
        0 <= k < rows(text, width).len(),
        rows(text, width)[k].0 <= cursor <= rows(text, width)[k].1,
    ensures
        columns(text, rows(text, width)[k].0, cursor) <= if width < 4 {
            4
        } else {
            width
        },
{
    let w = if width < 1 {
        1
    } else {
        width
    };
    lemma_rows(text, w, 0);
    let row = rows(text, width)[k];
    lemma_columns_grow(text, row.0, cursor, row.1);
    if row.1 - row.0 == 1 {
        reveal_with_fuel(columns, 2);
    }
}

/// The columns that a text takes on a row of its own.
pub open spec fn visible(text: Seq<char>) -> int {
    columns(text, 0, text.len() as int)
}

/// The columns that a text takes on a row of its own.
pub fn visible_width(text: &str) -> (width: usize)
    requires
        visible(text@) <= usize::MAX,
    ensures
        width == visible(text@),
{
    let chars: Vec<char> = text::chars_of(text);
    let count: usize = chars.len();
    columns_before(chars.as_slice(), 0, count)
}

/// As much of a text, from its beginning, as fits into a number of columns.
pub open spec fn truncated(text: Seq<char>, width: int) -> Seq<char> {
    text.take(place_at_column(text, 0, text.len() as int, width, 0))
}

/// Cuts a text to a number of columns.
pub fn truncate(text: &str, width: usize) -> (result: String)
    ensures
        result@ == truncated(text@, width as int),
        0 <= visible(result@) <= width,
{
    let chars: Vec<char> = text::chars_of(text);
    let end: usize = index_at_visual_column(chars.as_slice(), 0, chars.len(), width);
    proof {
        lemma_truncated(text@, width as int);
    }
    text::string_of(text::chars_between(chars.as_slice(), 0, end).as_slice())
}

proof fn lemma_columns_agree(a: Seq<char>, b: Seq<char>, start: int, end: int)
    requires
        forall|k: int| start <= k < end ==> a[k] == b[k],
    ensures
        columns(a, start, end) == columns(b, start, end),
    decreases end - start,
{
    if start < end {
        lemma_columns_agree(a, b, start, end - 1);
    }
}

proof fn lemma_place_at_column(text: Seq<char>, end: int, target: int, at: int)
    requires
        0 <= at <= end <= text.len(),
        columns(text, 0, at) <= target,
    ensures
        at <= place_at_column(text, 0, end, target, at) <= end,
        columns(text, 0, place_at_column(text, 0, end, target, at)) <= target,
    decreases end - at,
{
    if at < end && columns(text, 0, at + 1) <= target {
        lemma_place_at_column(text, end, target, at + 1);
    }
}

pub proof fn lemma_truncated(text: Seq<char>, width: int)
    requires
        0 <= width,
    ensures
        0 <= visible(truncated(text, width)) <= width,
        truncated(text, width).is_prefix_of(text),
{
    lemma_place_at_column(text, text.len() as int, width, 0);
    let end = place_at_column(text, 0, text.len() as int, width, 0);
    lemma_columns_agree(text, truncated(text, width), 0, end);
    lemma_columns_grow(text, 0, 0, end);
}

/// A text cut to a number of columns takes no more of them, and is the
/// beginning of the whole.
pub proof fn law_truncation_fits(text: Seq<char>, width: int)
    requires
        0 <= width,
    ensures
        visible(truncated(text, width)) <= width,
        truncated(text, width).is_prefix_of(text),
{
    lemma_truncated(text, width);
}

/// A number of spaces.
pub open spec fn spaces(count: int) -> Seq<char> {
    Seq::new(if count < 0 {
        0
    } else {
        count as nat
    }, |i: int| ' ')
}

/// Writes a number of spaces behind a text.
pub fn push_spaces(line: &mut String, count: usize)
    ensures
        final(line)@ == old(line)@ + spaces(count as int),
{
    let mut written: usize = 0;
    assert(line@ == old(line)@ + spaces(0));
    while written < count
        invariant
            written <= count,
            line@ == old(line)@ + spaces(written as int),
        decreases count - written,
    {
        line.push(' ');
        written += 1;
        assert(line@ == old(line)@ + spaces(written as int));
    }
}

/// A line with one text at its left and another at its right end. The right one
/// is cut to the line; the left one gives way to it, with a space between.
pub open spec fn two_sided(left: Seq<char>, right: Seq<char>, width: int) -> Seq<char> {
    let r = truncated(right, width);
    if visible(r) >= width {
        r
    } else {
        let l = truncated(left, width - visible(r) - 1);
        l + spaces(width - visible(l) - visible(r)) + r
    }
}

/// Sets two texts at the two ends of a line.
pub fn two_sided_line(left: &str, right: &str, width: usize) -> (line: String)
    ensures
        line@ == two_sided(left@, right@, width as int),
{
    let right: String = truncate(right, width);
    let right_width: usize = visible_width(right.as_str());
    if right_width >= width {
        return right;
    }
    let mut line: String = truncate(left, width - right_width - 1);
    let left_width: usize = visible_width(line.as_str());
    push_spaces(&mut line, width - left_width - right_width);
    line.append(right.as_str());
    line
}

proof fn lemma_columns_of_spaces(text: Seq<char>, start: int, end: int)
    requires
        0 <= start <= end <= text.len(),
        forall|k: int| start <= k < end ==> text[k] == ' ',
    ensures
        columns(text, 0, end) == columns(text, 0, start) + (end - start),
    decreases end - start,
{
    if start < end {
        lemma_columns_of_spaces(text, start, end - 1);
    }
}

/// Without tabs, what stands behind a text takes the same columns as alone.
proof fn lemma_columns_shift(text: Seq<char>, start: int, end: int)
    requires
        0 <= start <= end <= text.len(),
        forall|k: int| start <= k < end ==> text[k] != '\t',
    ensures
        columns(text, 0, end) == columns(text, 0, start) + visible(text.subrange(start, end)),
    decreases end - start,
{
    let part = text.subrange(start, end);
    if start < end {
        lemma_columns_shift(text, start, end - 1);
        assert(part.take(part.len() - 1) == text.subrange(start, end - 1));
        lemma_columns_agree(part, text.subrange(start, end - 1), 0, part.len() - 1);
    }
}

/// A two-sided line takes exactly the columns of the line, unless a tab stands
/// in its right text.
pub proof fn law_two_sided_lines_fill_the_width(left: Seq<char>, right: Seq<char>, width: int)
    requires
        0 <= width,
        !right.contains('\t'),
    ensures
        visible(two_sided(left, right, width)) == width,
{
    let r = truncated(right, width);
    lemma_truncated(right, width);
    if visible(r) < width {
        let l = truncated(left, width - visible(r) - 1);
        lemma_truncated(left, width - visible(r) - 1);
        let gap = width - visible(l) - visible(r);
        let line = l + spaces(gap) + r;
        let a = l.len() as int;
        let b = a + gap;
        assert(line.subrange(b, line.len() as int) == r);
        lemma_columns_agree(l, line, 0, a);
        lemma_columns_of_spaces(line, a, b);
        assert forall|k: int| b <= k < line.len() implies line[k] != '\t' by {
            assert(line[k] == right[k - b]);
        }
        lemma_columns_shift(line, b, line.len() as int);
    }
}

pub proof fn lemma_visible_bound(text: Seq<char>)
    ensures
        0 <= visible(text) <= 4 * text.len(),
{
    lemma_columns_bound(text, 0, text.len() as int);
}

proof fn lemma_columns_bound(text: Seq<char>, start: int, end: int)
    requires
        start <= end,
    ensures
        0 <= columns(text, start, end) <= 4 * (end - start),
    decreases end - start,
{
    if start < end {
        lemma_columns_bound(text, start, end - 1);
    }
}

/// How wide characters are. A tab reaches to the next multiple of four; any other
/// character is as wide wherever it stands: one column if it is of ASCII and can
/// be seen, none if it is a control character of ASCII, and never more than two.
/// The ideographs, kana and Hangul syllables take two, Latin, Greek and Cyrillic
/// letters one.
pub proof fn law_characters_have_their_width(ch: char, column: int)
    requires
        0 <= column,
    ensures
        ch == '\t' ==> 1 <= width_of(ch, column) <= 4 && (column + width_of(ch, column)) % 4 == 0,
        ch != '\t' ==> width_of(ch, column) == width_of(ch, 0) && 0 <= width_of(ch, column) <= 2,
        ' ' <= ch <= '~' ==> width_of(ch, column) == 1,
        (ch < ' ' && ch != '\t') || ch == '\x7f' ==> width_of(ch, column) == 0,
        '\u{a0}' <= ch <= '\u{10ff}' ==> width_of(ch, column) == 1,
        '\u{3041}' <= ch <= '\u{30ff}' || '\u{4e00}' <= ch <= '\u{9fff}' || '\u{ac00}' <= ch
            <= '\u{d7a3}' || '\u{1f300}' <= ch <= '\u{1f9ff}' ==> width_of(ch, column) == 2,
        '\u{1100}' <= ch <= '\u{115f}' || '\u{2329}' <= ch <= '\u{232a}' || '\u{2e80}' <= ch
            <= '\u{a4cf}' || '\u{ac00}' <= ch <= '\u{d7a3}' || '\u{f900}' <= ch <= '\u{faff}'
            || '\u{fe10}' <= ch <= '\u{fe19}' || '\u{fe30}' <= ch <= '\u{fe6f}' || '\u{ff00}' <= ch
            <= '\u{ff60}' || '\u{ffe0}' <= ch <= '\u{ffe6}' || '\u{1f300}' <= ch <= '\u{1faff}'
            || '\u{20000}' <= ch <= '\u{3fffd}' ==> width_of(ch, column) == 2,
        '\u{1160}' <= ch <= '\u{2328}' || '\u{232b}' <= ch <= '\u{2e7f}' || '\u{a4d0}' <= ch
            <= '\u{abff}' || '\u{d7a4}' <= ch <= '\u{f8ff}' || '\u{fb00}' <= ch <= '\u{fe0f}'
            || '\u{fe1a}' <= ch <= '\u{fe2f}' || '\u{fe70}' <= ch <= '\u{feff}' || '\u{ff61}' <= ch
            <= '\u{ffdf}' || '\u{ffe7}' <= ch <= '\u{1f2ff}' || '\u{1fb00}' <= ch <= '\u{1ffff}'
            || '\u{3fffe}' <= ch ==> width_of(ch, column) == 1,
{
}

/// The columns of a stretch of text add up, character by character: none for
/// nothing, and each character as wide as it is at the column that it stands at.
pub proof fn law_columns_add_up(text: Seq<char>, start: int, end: int)
    requires
        0 <= start <= end < text.len(),
    ensures
        columns(text, start, start) == 0,
        columns(text, start, end + 1) == columns(text, start, end) + width_of(
            text[end],
            columns(text, start, end),
        ),
{
}

proof fn lemma_rows_are_full(text: Seq<char>, width: int, start: int)
    requires
        0 <= start <= text.len(),
    ensures
        ({
            let all = rows_from(text, width, start);
            &&& all.len() >= 1
            &&& all[0].0 == start
            &&& all.last().1 == text.len()
            &&& forall|k: int|
                0 <= k < all.len() - 1 ==> {
                    let row = #[trigger] all[k];
                    let next = all[k + 1];
                    &&& row.1 < text.len()
                    &&& text[row.1] == '\n' ==> next.0 == row.1 + 1
                    &&& text[row.1] != '\n' ==> next.0 == row.1 && row.0 < row.1 && columns(
                        text,
                        row.0,
                        row.1 + 1,
                    ) > width
                }
        }),
    decreases text.len() - start,
{
    let end = row_end(text, width, start, start);
    lemma_row_end(text, width, start, start);
    let all = rows_from(text, width, start);
    if start >= text.len() || end >= text.len() {
    } else {
        let next = if text[end] == '\n' {
            end + 1
        } else {
            end
        };
        let rest = rows_from(text, width, next);
        lemma_rows_are_full(text, width, next);
        assert(all == seq![(start, end)] + rest);
        assert(all.last() == rest.last());
        assert forall|k: int| 0 <= k < all.len() - 1 implies {
            let row = #[trigger] all[k];
            let next = all[k + 1];
            &&& row.1 < text.len()
            &&& text[row.1] == '\n' ==> next.0 == row.1 + 1
            &&& text[row.1] != '\n' ==> next.0 == row.1 && row.0 < row.1 && columns(
                text,
                row.0,
                row.1 + 1,
            ) > width
        } by {
            assert(all[k + 1] == rest[k]);
            if k > 0 {
                assert(all[k] == rest[k - 1]);
            }
        }
    }
}

/// Rows are as long as the page allows. The first begins with the text and the
/// last ends with it. One that is followed by another ends at a line feed, behind
/// which the next begins, or where the next character, with which the next
/// begins, would reach past the page.
pub proof fn law_rows_are_as_long_as_the_page(text: Seq<char>, width: int, k: int)
    requires
        width >= 1,
        0 <= k < rows(text, width).len(),
    ensures
        rows(text, width)[0].0 == 0,
        rows(text, width).last().1 == text.len(),
        k + 1 < rows(text, width).len() ==> {
            let row = rows(text, width)[k];
            let next = rows(text, width)[k + 1];
            &&& 0 <= row.0 <= row.1 < text.len()
            &&& text[row.1] == '\n' ==> next.0 == row.1 + 1
            &&& text[row.1] != '\n' ==> next.0 == row.1 && columns(text, row.0, row.1 + 1) > width
        },
{
    lemma_rows_are_full(text, width, 0);
    lemma_rows(text, width, 0);
    assert(rows(text, width)[k].0 <= rows(text, width)[k].1);
}

/// A page without columns is treated as one of a single column.
pub proof fn law_a_page_has_a_column(text: Seq<char>, width: int)
    requires
        width < 1,
    ensures
        rows(text, width) == rows(text, 1),
{
}

proof fn lemma_position(text: Seq<char>, ranges: Seq<(int, int)>, count: int, cursor: int, at: int)
    requires
        0 <= at < count <= ranges.len(),
        ranges[at].0 <= cursor <= ranges[at].1,
    ensures
        ({
            let (row, column) = position(text, ranges, count, cursor);
            &&& at <= row < count
            &&& ranges[row].0 <= cursor <= ranges[row].1
            &&& column == columns(text, ranges[row].0, cursor)
            &&& forall|k: int|
                row < k < count ==> !((#[trigger] ranges[k]).0 <= cursor <= ranges[k].1)
        }),
    decreases count,
{
    if !(ranges[count - 1].0 <= cursor <= ranges[count - 1].1) {
        lemma_position(text, ranges, count - 1, cursor, at);
    }
}

proof fn lemma_every_place_has_a_row(text: Seq<char>, width: int, start: int, cursor: int)
    requires
        0 <= start <= cursor <= text.len(),
    ensures
        exists|k: int|
            0 <= k < rows_from(text, width, start).len() && (#[trigger] rows_from(
                text,
                width,
                start,
            )[k]).0 <= cursor <= rows_from(text, width, start)[k].1,
    decreases text.len() - start,
{
    let end = row_end(text, width, start, start);
    lemma_row_end(text, width, start, start);
    let all = rows_from(text, width, start);
    if start >= text.len() || end >= text.len() {
        assert(all[0] == (start, text.len() as int));
    } else {
        let next = if text[end] == '\n' {
            end + 1
        } else {
            end
        };
        let rest = rows_from(text, width, next);
        assert(all == seq![(start, end)] + rest);
        if cursor <= end {
            assert(all[0].0 <= cursor <= all[0].1);
        } else {
            lemma_every_place_has_a_row(text, width, next, cursor);
            let k = choose|k: int|
                0 <= k < rest.len() && (#[trigger] rest[k]).0 <= cursor <= rest[k].1;
            assert(all[k + 1] == rest[k]);
        }
    }
}

/// Every place of the text stands on a row of the page: the row that is found for
/// it holds it, no later row does, and its column is what stands before it on that
/// row.
pub proof fn law_the_cursor_stands_on_its_row(text: Seq<char>, width: int, cursor: int)
    requires
        width >= 1,
        0 <= cursor <= text.len(),
    ensures
        ({
            let all = rows(text, width);
            let (row, column) = position(text, all, all.len() as int, cursor);
            &&& 0 <= row < all.len()
            &&& all[row].0 <= cursor <= all[row].1
            &&& column == columns(text, all[row].0, cursor)
            &&& row + 1 < all.len() ==> cursor < all[row + 1].0
        }),
{
    let all = rows(text, width);
    lemma_every_place_has_a_row(text, width, 0, cursor);
    let at = choose|k: int| 0 <= k < all.len() && (#[trigger] all[k]).0 <= cursor <= all[k].1;
    lemma_position(text, all, all.len() as int, cursor, at);
    let (row, column) = position(text, all, all.len() as int, cursor);
    if row + 1 < all.len() {
        lemma_rows_are_full(text, width, 0);
        lemma_rows(text, width, 0);
        let next = all[row + 1];
        assert(next.0 <= next.1);
        assert(all[row].1 <= next.0);
        assert(!(next.0 <= cursor <= next.1));
    }
}

proof fn lemma_place_in_row(text: Seq<char>, start: int, end: int, target: int, at: int)
    requires
        0 <= start <= at <= end <= text.len(),
        columns(text, start, at) <= target,
    ensures
        ({
            let place = place_at_column(text, start, end, target, at);
            &&& at <= place <= end
            &&& columns(text, start, place) <= target
            &&& place < end ==> columns(text, start, place + 1) > target
        }),
    decreases end - at,
{
    if at < end && columns(text, start, at + 1) <= target {
        lemma_place_in_row(text, start, end, target, at + 1);
    }
}

/// The place at a column of a row is as far in it as the column allows: what
/// stands before it takes no more columns, and with one character more it would.
pub proof fn law_a_column_leads_to_its_place(text: Seq<char>, start: int, end: int, target: int)
    requires
        0 <= start <= end <= text.len(),
        0 <= target,
    ensures
        ({
            let place = place_at_column(text, start, end, target, start);
            &&& start <= place <= end
            &&& columns(text, start, place) <= target
            &&& place < end ==> columns(text, start, place + 1) > target
        }),
{
    lemma_place_in_row(text, start, end, target, start);
}

/// A text is cut only where it has to be: the whole of it stays where it fits, and
/// where it does not, one character more would be too wide.
pub proof fn law_truncation_keeps_what_fits(text: Seq<char>, width: int)
    requires
        0 <= width,
    ensures
        visible(text) <= width ==> truncated(text, width) == text,
        truncated(text, width).len() < text.len() ==> visible(
            text.take(truncated(text, width).len() as int + 1),
        ) > width,
{
    let end = place_at_column(text, 0, text.len() as int, width, 0);
    lemma_place_in_row(text, 0, text.len() as int, width, 0);
    if end < text.len() {
        lemma_columns_grow(text, 0, end + 1, text.len() as int);
        lemma_columns_agree(text, text.take(end + 1), 0, end + 1);
    } else {
        assert(text.take(end) == text);
    }
}

/// A two-sided line ends with its right text and begins with its left one, each
/// cut only where it has to be, and holds nothing but spaces between them.
pub proof fn law_two_sided_lines_hold_both_texts(left: Seq<char>, right: Seq<char>, width: int)
    requires
        0 <= width,
    ensures
        visible(right) <= width ==> right.is_suffix_of(two_sided(left, right, width)),
        visible(left) + visible(right) < width ==> ({
            let line = two_sided(left, right, width);
            &&& left.is_prefix_of(line)
            &&& left.len() + right.len() < line.len()
            &&& forall|i: int|
                left.len() <= i < line.len() - right.len() ==> #[trigger] line[i] == ' '
        }),
{
    law_truncation_keeps_what_fits(right, width);
    lemma_visible_bound(left);
    lemma_visible_bound(right);
    if visible(right) <= width {
        let line = two_sided(left, right, width);
        assert(line.skip(line.len() - right.len()) == right);
        if visible(left) + visible(right) < width {
            law_truncation_keeps_what_fits(left, width - visible(right) - 1);
            assert(line.take(left.len() as int) == left);
        }
    }
}

} // verus!
