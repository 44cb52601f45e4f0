//! The page as a plain terminal shows it: one string of text and escape
//! sequences.
use vstd::prelude::*;

use crate::app::{App, AppView};
use crate::framebuffer;
use crate::page::Page;
use crate::status;
use crate::text;
use crate::wrap;

verus! {

/// A line of the help.
pub open spec fn help_line(row: int) -> Seq<char> {
    if row == 0 {
        "QuietWrite keys"@
    } else if row == 2 {
        "Ctrl+S  Save"@
    } else if row == 3 {
        "Ctrl+N  New note"@
    } else if row == 4 {
        "Ctrl+Q  Save & quit"@
    } else if row == 5 {
        "F5      Change theme"@
    } else if row == 6 {
        "F6      Rotate"@
    } else if row == 7 {
        "F7      Larger text"@
    } else if row == 8 {
        "F8      Smaller text"@
    } else if row == 10 {
        "F1      Close help"@
    } else {
        ""@
    }
}

fn help_words(row: usize) -> (line: &'static str)
    ensures
        line@ == help_line(row as int),
{
    match row {
        0 => "QuietWrite keys",
        2 => "Ctrl+S  Save",
        3 => "Ctrl+N  New note",
        4 => "Ctrl+Q  Save & quit",
        5 => "F5      Change theme",
        6 => "F6      Rotate",
        7 => "F7      Larger text",
        8 => "F8      Smaller text",
        10 => "F1      Close help",
        _ => "",
    }
}

/// The first `count` lines of the help.
pub open spec fn help_frame(columns: int, count: int) -> Seq<char>
    decreases count,
{
    if count <= 0 {
        "\x1b[H\x1b[2J\x1b[?25l"@
    } else {
        help_frame(columns, count - 1) + wrap::truncated(help_line(count - 1), columns) + "\r\n"@
    }
}

/// What is shown of a row: tabs as spaces, and no other control character.
pub open spec fn expanded(text: Seq<char>, start: int, end: int) -> Seq<char>
    decreases end - start,
{
    if end <= start {
        Seq::empty()
    } else {
        let before = expanded(text, start, end - 1);
        let c = text[end - 1];
        if c == '\t' {
            before + wrap::spaces(wrap::width_of(c, wrap::columns(text, start, end - 1)))
        } else if text::control(c) {
            before
        } else {
            before.push(c)
        }
    }
}

/// The first `count` rows of the page.
pub open spec fn page_rows(v: AppView, margin: int, width: int, count: int) -> Seq<char>
    decreases count,
{
    if count <= 0 {
        "\x1b[H\x1b[0m"@
    } else {
        let before = page_rows(v, margin, width, count - 1) + "\x1b[2K"@ + wrap::spaces(margin);
        let row = v.scroll + (count - 1);
        if row < v.rows(width).len() {
            before + expanded(v.document.text, v.rows(width)[row].0, v.rows(width)[row].1)
                + "\r\n"@
        } else {
            before + "\r\n"@
        }
    }
}

pub open spec fn margin_of(columns: int) -> int {
    if columns >= 60 {
        2
    } else {
        1
    }
}

/// The columns that are left for the text.
pub open spec fn width_of_page(columns: int) -> int {
    framebuffer::at_least(framebuffer::less(columns, margin_of(columns) * 2), 1)
}

/// The rows that are left for the text.
pub open spec fn height_of_page(rows: int) -> int {
    framebuffer::at_least(framebuffer::less(rows, 2), 1)
}

/// The smaller of two numbers.
pub open spec fn at_most(a: int, b: int) -> int {
    if a > b {
        b
    } else {
        a
    }
}

/// The page with the two lines under it, and the cursor put in its place.
pub open spec fn page_frame(v: AppView, columns: int, rows: int) -> Seq<char> {
    let margin = margin_of(columns);
    let width = width_of_page(columns);
    let height = height_of_page(rows);
    let line = wrap::truncated(status::plain_status(v), columns);
    let (row, column) = v.cursor_place(width);
    page_rows(v, margin, width, height) + "\x1b[2K\x1b[7m"@ + line + wrap::spaces(
        columns - wrap::visible(line),
    ) + "\x1b[0m\r\n\x1b[2K"@ + wrap::truncated(
        " F1 Help  ·  F5 Theme  ·  F6 Rotate "@,
        columns,
    ) + "\x1b["@ + text::decimal(
        (at_most(framebuffer::less(row, v.scroll), height - 1) + 1) as nat,
    ) + ";"@ + text::decimal(
        (at_most(margin + column, framebuffer::less(columns, 1)) + 1) as nat,
    ) + "H\x1b[?25h"@
}

impl AppView {
    /// The desk after a plain terminal has shown it.
    pub open spec fn after_terminal(self, columns: int, rows: int) -> AppView {
        if self.help_visible {
            self
        } else {
            self.followed(width_of_page(columns), height_of_page(rows))
        }
    }

    /// What a plain terminal shows.
    pub open spec fn terminal_frame(self, columns: int, rows: int) -> Seq<char> {
        if self.help_visible {
            help_frame(columns, at_most(rows, 11))
        } else {
            page_frame(self.after_terminal(columns, rows), columns, rows)
        }
    }
}

fn push_expanded(frame: &mut String, text: &[char], start: usize, end: usize)
    requires
        start <= end <= text@.len(),
        wrap::columns(text@, start as int, end as int) <= usize::MAX,
    ensures
        final(frame)@ == old(frame)@ + expanded(text@, start as int, end as int),
{
    let mut column: usize = 0;
    let mut i: usize = start;
    assert(frame@ == old(frame)@ + expanded(text@, start as int, start as int));
    while i < end
        invariant
            start <= i <= end <= text@.len(),
            wrap::columns(text@, start as int, end as int) <= usize::MAX,
            column == wrap::columns(text@, start as int, i as int),
            frame@ == old(frame)@ + expanded(text@, start as int, i as int),
        decreases end - i,
    {
        let c: char = text[i];
        let ghost before = expanded(text@, start as int, i as int);
        proof {
            wrap::lemma_columns_grow(text@, start as int, i + 1, end as int);
        }
        let width: usize = wrap::char_width(c, column);
        if c == '\t' {
            wrap::push_spaces(frame, width);
        } else if text::is_control(c) {
        } else {
            frame.push(c);
        }
        column += width;
        i += 1;
        assert(frame@ == old(frame)@ + expanded(text@, start as int, i as int));
    }
}

impl App {
    fn help_text(columns: usize, rows: usize) -> (frame: String)
        ensures
            frame@ == help_frame(columns as int, at_most(rows as int, 11)),
    {
        let count: usize = if rows > 11 {
            11
        } else {
            rows
        };
        let mut frame: String = text::owned("\x1b[H\x1b[2J\x1b[?25l");
        let mut row: usize = 0;
        while row < count
            invariant
                row <= count,
                frame@ == help_frame(columns as int, row as int),
            decreases count - row,
        {
            frame.append(wrap::truncate(help_words(row), columns).as_str());
            frame.append("\r\n");
            row += 1;
        }
        frame
    }

    fn page_text(&self, page: &Page, margin: usize, width: usize, height: usize) -> (frame: String)
        requires
            self@.wf(),
            page.shows(self@, width as int),
        ensures
            frame@ == page_rows(self@, margin as int, width as int, height as int),
    {
        let mut frame: String = text::owned("\x1b[H\x1b[0m");
        assert(wrap::places(page.ranges@).len() == page.ranges@.len());
        let mut k: usize = 0;
        while k < height
            invariant
                k <= height,
                self@.wf(),
                page.shows(self@, width as int),
                wrap::places(page.ranges@).len() == page.ranges@.len(),
                frame@ == page_rows(self@, margin as int, width as int, k as int),
            decreases height - k,
        {
            frame.append("\x1b[2K");
            wrap::push_spaces(&mut frame, margin);
            if self.scroll < page.ranges.len() && k < page.ranges.len() - self.scroll {
                let (start, end): (usize, usize) = page.ranges[self.scroll + k];
                proof {
                    let row = self.scroll + k;
                    assert(wrap::places(page.ranges@)[row] == self@.rows(width as int)[row]);
                    wrap::lemma_row_columns(self@.document.text, width as int, row, end as int);
                }
                push_expanded(&mut frame, self.document.text.as_slice(), start, end);
            }
            frame.append("\r\n");
            k += 1;
        }
        frame
    }

    /// What a plain terminal of a size is to show.
    pub fn render_terminal(&mut self, columns: usize, rows: usize) -> (frame: String)
        requires
            old(self)@.wf(),
        ensures
            frame@ == old(self)@.terminal_frame(columns as int, rows as int),
            final(self)@ == old(self)@.after_terminal(columns as int, rows as int),
            final(self)@.wf(),
    {
        if self.help_visible {
            return App::help_text(columns, rows);
        }
        let margin: usize = if columns >= 60 {
            2
        } else {
            1
        };
        let width: usize = if columns > margin * 2 {
            columns - margin * 2
        } else {
            1
        };
        let height: usize = if rows > 2 {
            rows - 2
        } else {
            1
        };
        let page: Page = self.follow_cursor(width, height);
        let mut frame: String = self.page_text(&page, margin, width, height);
        frame.append("\x1b[2K\x1b[7m");
        let line: String = wrap::truncate(self.plain_status_text().as_str(), columns);
        frame.append(line.as_str());
        wrap::push_spaces(&mut frame, columns - wrap::visible_width(line.as_str()));
        frame.append("\x1b[0m\r\n\x1b[2K");
        frame.append(
            wrap::truncate(" F1 Help  ·  F5 Theme  ·  F6 Rotate ", columns).as_str(),
        );
        let below: usize = page.row - self.scroll;
        let cursor_row: usize = if below > height - 1 {
            height - 1
        } else {
            below
        };
        let last: usize = if columns > 1 {
            columns - 1
        } else {
            0
        };
        let cursor_column: usize = if margin + page.column > last {
            last
        } else {
            margin + page.column
        };
        frame.append("\x1b[");
        frame.append(text::decimal_text(cursor_row as u128 + 1).as_str());
        frame.append(";");
        frame.append(text::decimal_text(cursor_column as u128 + 1).as_str());
        frame.append("H\x1b[?25h");
        frame
    }
}

/// A row is shown character by character: a tab as the spaces to the next stop, no
/// other control character, and everything else as itself.
pub proof fn law_rows_are_shown_by_characters(text: Seq<char>, start: int, end: int)
    requires
        0 <= start <= end < text.len(),
    ensures
        expanded(text, start, start) == Seq::<char>::empty(),
        ({
            let c = text[end];
            let before = expanded(text, start, end);
            let later = expanded(text, start, end + 1);
            &&& c == '\t' ==> later.len() == before.len() + 4 - wrap::columns(text, start, end) % 4
                && later.take(before.len() as int) == before && forall|i: int|
                before.len() <= i < later.len() ==> #[trigger] later[i] == ' '
            &&& ' ' <= c <= '~' || '\u{a0}' <= c ==> later == before + seq![c]
            &&& c != '\t' && c < ' ' || c == '\x7f' ==> later == before
        }),
{
    let before = expanded(text, start, end);
    let later = expanded(text, start, end + 1);
    if text[end] == '\t' {
        let gap = wrap::spaces(4 - wrap::columns(text, start, end) % 4);
        assert(later == before + gap);
        assert(later.take(before.len() as int) == before);
        assert forall|i: int| before.len() <= i < later.len() implies #[trigger] later[i] == ' ' by {
            assert(later[i] == gap[i - before.len()]);
        }
    }
    let c = text[end];
    if c != '\t' && text::control(c) {
        assert(later == before);
    }
    if c != '\t' && !text::control(c) {
        assert(later == before.push(c));
        assert(before.push(c) == before + seq![c]);
    }
    lemma_shown(c);
}

proof fn lemma_shown(c: char)
    ensures
        ' ' <= c <= '~' || '\u{a0}' <= c ==> !text::control(c) && c != '\t',
        c < ' ' || c == '\x7f' ==> text::control(c),
{
}

/// A text without control characters is shown as it is.
pub proof fn law_plain_rows_are_shown_as_they_are(text: Seq<char>, start: int, end: int)
    requires
        0 <= start <= end <= text.len(),
        forall|i: int| start <= i < end ==> ' ' <= #[trigger] text[i] <= '~',
    ensures
        expanded(text, start, end) == text.subrange(start, end),
    decreases end - start,
{
    if start < end {
        law_plain_rows_are_shown_as_they_are(text, start, end - 1);
        assert(' ' <= text[end - 1] <= '~');
        assert(text.subrange(start, end - 1).push(text[end - 1]) == text.subrange(start, end));
    } else {
        assert(text.subrange(start, end) == Seq::<char>::empty());
    }
}

/// A terminal has a margin of two columns on either side, a narrow one of one, and
/// two lines under the page; a page has a column and a row at least.
pub proof fn law_the_terminal_leaves_its_margins(columns: int, rows: int)
    ensures
        columns >= 60 ==> margin_of(columns) == 2 && width_of_page(columns) == columns - 4,
        2 < columns < 60 ==> margin_of(columns) == 1 && width_of_page(columns) == columns - 2,
        columns <= 2 ==> width_of_page(columns) == 1,
        rows > 2 ==> height_of_page(rows) == rows - 2,
        rows <= 2 ==> height_of_page(rows) == 1,
{
}

proof fn lemma_rows_stay(v: AppView, margin: int, width: int, less: int, count: int, part: Seq<char>)
    requires
        0 <= less <= count,
        text::occurs_in(page_rows(v, margin, width, less), part),
    ensures
        text::occurs_in(page_rows(v, margin, width, count), part),
    decreases count,
{
    if less < count {
        lemma_rows_stay(v, margin, width, less, count - 1, part);
        let nothing = Seq::<char>::empty();
        let above = page_rows(v, margin, width, count - 1);
        text::lemma_inside_stays(above, part, nothing, "\x1b[2K"@);
        text::lemma_inside_stays(above + "\x1b[2K"@, part, nothing, wrap::spaces(margin));
        let before = above + "\x1b[2K"@ + wrap::spaces(margin);
        text::lemma_inside_stays(before, part, nothing, "\r\n"@);
        let row = v.scroll + (count - 1);
        if row < v.rows(width).len() {
            let shown = expanded(v.document.text, v.rows(width)[row].0, v.rows(width)[row].1);
            text::lemma_inside_stays(before, part, nothing, shown);
            text::lemma_inside_stays(before + shown, part, nothing, "\r\n"@);
        }
    }
}

/// Every row of the text that is in sight is shown, each on a line of its own
/// behind the margin.
pub proof fn law_the_terminal_shows_the_rows_in_sight(
    v: AppView,
    margin: int,
    width: int,
    height: int,
    k: int,
)
    requires
        0 <= k < height,
        0 <= v.scroll + k < v.rows(width).len(),
    ensures
        text::occurs_in(
            page_rows(v, margin, width, height),
            wrap::spaces(margin) + expanded(
                v.document.text,
                v.rows(width)[v.scroll + k].0,
                v.rows(width)[v.scroll + k].1,
            ) + "\r\n"@,
        ),
{
    let shown = expanded(
        v.document.text,
        v.rows(width)[v.scroll + k].0,
        v.rows(width)[v.scroll + k].1,
    );
    let head = page_rows(v, margin, width, k) + "\x1b[2K"@;
    let space = wrap::spaces(margin);
    assert(space.skip(0) == space);
    text::lemma_ends_behind(head, space, space);
    text::lemma_ends_more(head + space, space, shown);
    text::lemma_ends_more(head + space + shown, space + shown, "\r\n"@);
    let part = space + shown + "\r\n"@;
    text::lemma_end_is_inside(head + space + shown + "\r\n"@, part);
    assert(page_rows(v, margin, width, k + 1) == head + space + shown + "\r\n"@);
    lemma_rows_stay(v, margin, width, k + 1, height, part);
}

/// The page ends by putting the cursor to its row and column, both counted from
/// one: that of the cursor in the text, below the rows that are scrolled away and
/// behind the margin, held on the page.
pub proof fn law_the_cursor_is_put_in_its_place(v: AppView, columns: int, rows: int)
    requires
        columns > 0,
        0 <= v.scroll <= v.cursor_place(width_of_page(columns)).0,
        v.cursor_place(width_of_page(columns)).0 - v.scroll < height_of_page(rows),
        0 <= v.cursor_place(width_of_page(columns)).1,
        margin_of(columns) + v.cursor_place(width_of_page(columns)).1 < columns,
    ensures
        ({
            let (row, column) = v.cursor_place(width_of_page(columns));
            text::ends_with(
                page_frame(v, columns, rows),
                "\x1b["@ + text::decimal((row - v.scroll + 1) as nat) + ";"@ + text::decimal(
                    (margin_of(columns) + column + 1) as nat,
                ) + "H\x1b[?25h"@,
            )
        }),
{
    let margin = margin_of(columns);
    let width = width_of_page(columns);
    let height = height_of_page(rows);
    let line = wrap::truncated(status::plain_status(v), columns);
    let (row, column) = v.cursor_place(width);
    let keys = wrap::truncated(" F1 Help  ·  F5 Theme  ·  F6 Rotate "@, columns);
    let above = page_rows(v, margin, width, height) + "\x1b[2K\x1b[7m"@ + line + wrap::spaces(
        columns - wrap::visible(line),
    ) + "\x1b[0m\r\n\x1b[2K"@ + keys;
    let a = text::decimal((row - v.scroll + 1) as nat);
    let b = text::decimal((margin + column + 1) as nat);
    let mark = "\x1b["@;
    assert(mark.skip(0) == mark);
    text::lemma_ends_behind(above, mark, mark);
    text::lemma_ends_more(above + mark, mark, a);
    text::lemma_ends_more(above + mark + a, mark + a, ";"@);
    text::lemma_ends_more(above + mark + a + ";"@, mark + a + ";"@, b);
    text::lemma_ends_more(above + mark + a + ";"@ + b, mark + a + ";"@ + b, "H\x1b[?25h"@);
}

/// Under the page stands the line that tells of the text, and under it the keys,
/// each cut to the columns there are.
pub proof fn law_two_lines_stand_under_the_page(v: AppView, columns: int, rows: int)
    ensures
        text::occurs_in(
            page_frame(v, columns, rows),
            "\x1b[7m"@ + wrap::truncated(status::plain_status(v), columns),
        ),
        text::occurs_in(
            page_frame(v, columns, rows),
            wrap::truncated(" F1 Help  ·  F5 Theme  ·  F6 Rotate "@, columns),
        ),
{
    let nothing = Seq::<char>::empty();
    let margin = margin_of(columns);
    let width = width_of_page(columns);
    let height = height_of_page(rows);
    let line = wrap::truncated(status::plain_status(v), columns);
    let (row, column) = v.cursor_place(width);
    let keys = wrap::truncated(" F1 Help  ·  F5 Theme  ·  F6 Rotate "@, columns);
    let top = page_rows(v, margin, width, height) + "\x1b[2K\x1b[7m"@;
    let fill = wrap::spaces(columns - wrap::visible(line));
    let said = "\x1b[7m"@ + line;
    assert(text::ends_with("\x1b[2K\x1b[7m"@, "\x1b[7m"@)) by {
        reveal_strlit("\x1b[2K\x1b[7m");
        reveal_strlit("\x1b[7m");
        assert("\x1b[2K\x1b[7m"@.skip(4) == "\x1b[7m"@);
    }
    text::lemma_ends_behind(page_rows(v, margin, width, height), "\x1b[2K\x1b[7m"@, "\x1b[7m"@);
    text::lemma_ends_more(top, "\x1b[7m"@, line);
    text::lemma_end_is_inside(top + line, said);
    text::lemma_inside_stays(top + line, said, nothing, fill);
    let mark = "\x1b[0m\r\n\x1b[2K"@;
    text::lemma_inside_stays(top + line + fill, said, nothing, mark);
    let low = top + line + fill + mark;
    text::lemma_inside_stays(low, said, nothing, keys);
    assert(keys.skip(0) == keys);
    text::lemma_ends_behind(low, keys, keys);
    text::lemma_end_is_inside(low + keys, keys);
    let a = text::decimal(
        (at_most(framebuffer::less(row, v.scroll), height - 1) + 1) as nat,
    );
    let b = text::decimal((at_most(margin + column, framebuffer::less(columns, 1)) + 1) as nat);
    let s0 = low + keys;
    lemma_four_more(s0, said, "\x1b["@, a, ";"@, b);
    lemma_four_more(s0, keys, "\x1b["@, a, ";"@, b);
    let s1 = s0 + "\x1b["@ + a + ";"@ + b;
    text::lemma_inside_stays(s1, said, nothing, "H\x1b[?25h"@);
    text::lemma_inside_stays(s1, keys, nothing, "H\x1b[?25h"@);
}

proof fn lemma_four_more(
    s: Seq<char>,
    part: Seq<char>,
    a: Seq<char>,
    b: Seq<char>,
    c: Seq<char>,
    d: Seq<char>,
)
    requires
        text::occurs_in(s, part),
    ensures
        text::occurs_in(s + a + b + c + d, part),
{
    let nothing = Seq::<char>::empty();
    text::lemma_inside_stays(s, part, nothing, a);
    text::lemma_inside_stays(s + a, part, nothing, b);
    text::lemma_inside_stays(s + a + b, part, nothing, c);
    text::lemma_inside_stays(s + a + b + c, part, nothing, d);
}

proof fn lemma_help_stays(columns: int, less: int, count: int, part: Seq<char>)
    requires
        0 <= less <= count,
        text::occurs_in(help_frame(columns, less), part),
    ensures
        text::occurs_in(help_frame(columns, count), part),
    decreases count,
{
    if less < count {
        lemma_help_stays(columns, less, count - 1, part);
        let nothing = Seq::<char>::empty();
        let above = help_frame(columns, count - 1);
        let line = wrap::truncated(help_line(count - 1), columns);
        text::lemma_inside_stays(above, part, nothing, line);
        text::lemma_inside_stays(above + line, part, nothing, "\r\n"@);
    }
}

/// The help has a line for every row that there is room for.
pub proof fn law_the_help_shows_its_lines(v: AppView, columns: int, rows: int, row: int)
    requires
        v.help_visible,
        0 <= row < 11,
        row < rows,
    ensures
        text::occurs_in(
            v.terminal_frame(columns, rows),
            wrap::truncated(help_line(row), columns) + "\r\n"@,
        ),
        v.after_terminal(columns, rows) == v,
{
    let line = wrap::truncated(help_line(row), columns);
    let above = help_frame(columns, row);
    assert(line.skip(0) == line);
    text::lemma_ends_behind(above, line, line);
    text::lemma_ends_more(above + line, line, "\r\n"@);
    text::lemma_end_is_inside(above + line + "\r\n"@, line + "\r\n"@);
    lemma_help_stays(columns, row + 1, at_most(rows, 11), line + "\r\n"@);
}

/// The lines of the help name the keys for saving, new notes, leaving, the display
/// and the help itself.
pub proof fn law_the_help_names_the_keys()
    ensures
        help_line(2) == "Ctrl+S  Save"@,
        help_line(3) == "Ctrl+N  New note"@,
        help_line(4) == "Ctrl+Q  Save & quit"@,
        help_line(5) == "F5      Change theme"@,
        help_line(6) == "F6      Rotate"@,
        help_line(7) == "F7      Larger text"@,
        help_line(8) == "F8      Smaller text"@,
        help_line(10) == "F1      Close help"@,
{
}

} // verus!
