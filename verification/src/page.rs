//! The page: the rows of the text that are in sight, and the cursor among them.
use vstd::prelude::*;

use crate::app::{App, AppView};
use crate::text;
use crate::wrap;

verus! {

/// What of a row is drawn: everything but control characters, tabs excepted.
pub open spec fn drawn(c: char) -> bool {
    !text::control(c) || c == '\t'
}

pub open spec fn printable(s: Seq<char>) -> Seq<char> {
    s.filter(|c: char| drawn(c))
}

/// The characters of a row that are drawn.
pub fn printable_row(chars: &[char], start: usize, end: usize) -> (row: Vec<char>)
    requires
        start <= end <= chars@.len(),
    ensures
        row@ == printable(chars@.subrange(start as int, end as int)),
{
    let ghost whole = chars@.subrange(start as int, end as int);
    let mut row: Vec<char> = Vec::new();
    let mut i: usize = start;
    proof {
        reveal(Seq::filter);
        assert(row@ == printable(whole.take(0)));
    }
    while i < end
        invariant
            start <= i <= end <= chars@.len(),
            whole == chars@.subrange(start as int, end as int),
            row@ == printable(whole.take(i - start)),
        decreases end - i,
    {
        let c: char = chars[i];
        proof {
            reveal(Seq::filter);
            assert(whole.take(i + 1 - start).drop_last() == whole.take(i - start));
            assert(whole.take(i + 1 - start).last() == c);
        }
        if !text::is_control(c) || c == '\t' {
            row.push(c);
        }
        i += 1;
    }
    assert(whole.take(end - start) == whole);
    row
}

/// The first row in sight, moved as little as keeps the cursor's row in sight.
pub open spec fn scrolled(scroll: int, row: int, height: int) -> int {
    if row < scroll {
        row
    } else if row >= scroll + height {
        row + 1 - height
    } else {
        scroll
    }
}

/// The cursor's row is in sight after scrolling, and a row in sight stays where
/// it is.
pub proof fn law_scrolling_keeps_the_cursor_in_sight(scroll: int, row: int, height: int)
    requires
        0 <= scroll,
        0 <= row,
        1 <= height,
    ensures
        0 <= scrolled(scroll, row, height) <= row < scrolled(scroll, row, height) + height,
        scroll <= row < scroll + height ==> scrolled(scroll, row, height) == scroll,
{
}

/// The rows of a text on a page, and the row and column of its cursor.
#[derive(Debug)]
pub struct Page {
    pub ranges: Vec<(usize, usize)>,
    pub row: usize,
    pub column: usize,
}

impl AppView {
    /// The rows of the text on a page of a width.
    pub open spec fn rows(self, width: int) -> Seq<(int, int)> {
        wrap::rows(self.document.text, width)
    }

    /// The row and column of the cursor on a page of a width.
    pub open spec fn cursor_place(self, width: int) -> (int, int) {
        wrap::position(
            self.document.text,
            self.rows(width),
            self.rows(width).len() as int,
            self.document.cursor,
        )
    }

    /// The page scrolled to the cursor.
    pub open spec fn followed(self, width: int, height: int) -> AppView {
        AppView { scroll: scrolled(self.scroll, self.cursor_place(width).0, height), ..self }
    }

    /// What is drawn of a row.
    pub open spec fn row_text(self, width: int, row: int) -> Seq<char> {
        let (start, end) = self.rows(width)[row];
        printable(self.document.text.subrange(start, end))
    }

    /// How many rows of a page of a height are in sight.
    pub open spec fn rows_in_sight(self, width: int, height: int) -> int {
        let left = self.rows(width).len() - self.scroll;
        if left < 0 {
            0
        } else if left < height {
            left
        } else {
            height
        }
    }

    /// The rows in sight, as they are drawn.
    pub open spec fn page_lines(self, width: int, height: int) -> Seq<Seq<char>> {
        Seq::new(
            self.rows_in_sight(width, height) as nat,
            |k: int| self.row_text(width, self.scroll + k),
        )
    }
}

impl Page {
    /// Whether this is the page of a desk, of a width.
    pub open spec fn shows(&self, v: AppView, width: int) -> bool {
        &&& wrap::places(self.ranges@) == v.rows(width)
        &&& (self.row as int, self.column as int) == v.cursor_place(width)
        &&& self.row < self.ranges@.len()
        &&& self.column <= (if width < 4 {
            4
        } else {
            width
        })
        &&& forall|k: int|
            0 <= k < self.ranges@.len() ==> (#[trigger] self.ranges@[k]).0 <= self.ranges@[k].1
                <= v.document.text.len()
    }
}

impl App {
    /// Breaks the text into the rows of a page and finds the cursor on it.
    pub fn page(&self, width: usize) -> (page: Page)
        requires
            self@.wf(),
        ensures
            page.shows(self@, width as int),
    {
        let ranges: Vec<(usize, usize)> = wrap::wrapped_ranges(
            self.document.text.as_slice(),
            width,
        );
        let ghost all = self@.rows(width as int);
        proof {
            wrap::lemma_rows(
                self@.document.text,
                if width < 1 {
                    1
                } else {
                    width as int
                },
                0,
            );
            assert(wrap::places(ranges@).len() == ranges@.len());
            assert forall|k: int| 0 <= k < ranges@.len() implies (#[trigger] ranges@[k]).0
                <= ranges@[k].1 <= self@.document.text.len() by {
                assert(wrap::places(ranges@)[k] == all[k]);
            }
            assert forall|k: int|
                0 <= k < ranges@.len() && #[trigger] ranges@[k].0 <= self.document.cursor
                    <= ranges@[k].1 implies wrap::columns(
                self@.document.text,
                ranges@[k].0 as int,
                self.document.cursor as int,
            ) <= usize::MAX by {
                assert(wrap::places(ranges@)[k] == all[k]);
                wrap::lemma_row_columns(
                    self@.document.text,
                    width as int,
                    k,
                    self.document.cursor as int,
                );
            }
        }
        let (row, column): (usize, usize) = wrap::cursor_position(
            self.document.text.as_slice(),
            ranges.as_slice(),
            self.document.cursor,
        );
        proof {
            lemma_cursor_column(
                self@.document.text,
                width as int,
                all.len() as int,
                self@.document.cursor,
            );
        }
        Page { ranges, row, column }
    }

    /// Scrolls the page to the cursor.
    pub fn follow_cursor(&mut self, width: usize, height: usize) -> (page: Page)
        requires
            old(self)@.wf(),
            1 <= height,
        ensures
            final(self)@ == old(self)@.followed(width as int, height as int),
            final(self)@.wf(),
            page.shows(final(self)@, width as int),
            final(self)@.scroll <= page.row < final(self)@.scroll + height,
    {
        let page: Page = self.page(width);
        if page.row < self.scroll {
            self.scroll = page.row;
        } else if page.row - self.scroll >= height {
            self.scroll = page.row - (height - 1);
        }
        page
    }

    /// The rows in sight, as they are drawn.
    pub fn lines_in_sight(&self, page: &Page, width: usize, height: usize) -> (lines: Vec<String>)
        requires
            page.shows(self@, width as int),
        ensures
            text::views(lines@) == self@.page_lines(width as int, height as int),
    {
        let mut lines: Vec<String> = Vec::new();
        let ghost all = self@.page_lines(width as int, height as int);
        assert(wrap::places(page.ranges@).len() == page.ranges@.len());
        let count: usize = if self.scroll >= page.ranges.len() {
            0
        } else if page.ranges.len() - self.scroll < height {
            page.ranges.len() - self.scroll
        } else {
            height
        };
        let mut k: usize = 0;
        assert(text::views(lines@) == all.take(0));
        while k < count
            invariant
                k <= count,
                count == all.len(),
                all == self@.page_lines(width as int, height as int),
                page.shows(self@, width as int),
                self.scroll + count <= page.ranges.len() || count == 0,
                text::views(lines@) == all.take(k as int),
            decreases count - k,
        {
            let (start, end): (usize, usize) = page.ranges[self.scroll + k];
            let ghost before = lines@;
            let line: String = text::string_of(
                printable_row(self.document.text.as_slice(), start, end).as_slice(),
            );
            lines.push(line);
            proof {
                assert(wrap::places(page.ranges@)[self.scroll + k] == (start as int, end as int));
                assert(all[k as int] == line@);
                assert(text::views(lines@) == text::views(before).push(line@));
                assert(all.take(k + 1) == all.take(k as int).push(line@));
            }
            k += 1;
        }
        assert(all.take(all.len() as int) == all);
        lines
    }
}

proof fn lemma_cursor_column(text: Seq<char>, width: int, count: int, cursor: int)
    requires
        0 <= count <= wrap::rows(text, width).len(),
    ensures
        ({
            let place = wrap::position(text, wrap::rows(text, width), count, cursor);
            place.1 <= (if width < 4 {
                4
            } else {
                width
            })
        }),
    decreases count,
{
    if count > 0 {
        let row = wrap::rows(text, width)[count - 1];
        if row.0 <= cursor <= row.1 {
            wrap::lemma_row_columns(text, width, count - 1, cursor);
        } else {
            lemma_cursor_column(text, width, count - 1, cursor);
        }
    }
}

/// Scrolling moves the page no further than it must: up until the cursor's row is
/// the first in sight, down until it is the last.
pub proof fn law_scrolling_moves_as_little_as_it_can(scroll: int, row: int, height: int)
    requires
        0 <= scroll,
        0 <= row,
        1 <= height,
    ensures
        row < scroll ==> scrolled(scroll, row, height) == row,
        row >= scroll + height ==> scrolled(scroll, row, height) + height == row + 1,
        scrolled(scrolled(scroll, row, height), row, height) == scrolled(scroll, row, height),
{
}

/// What is drawn of a text goes by characters: letters, digits, signs, spaces and
/// tabs are drawn, control characters are not, and two texts one behind the other
/// are drawn one behind the other.
pub proof fn law_all_but_control_characters_are_drawn(a: Seq<char>, b: Seq<char>, c: char)
    ensures
        printable(Seq::empty()) == Seq::<char>::empty(),
        printable(a + b) == printable(a) + printable(b),
        ' ' <= c <= '~' || c == '\t' || '\u{a0}' <= c ==> printable(seq![c]) == seq![c],
        (c < ' ' && c != '\t') || c == '\x7f' ==> printable(seq![c]) == Seq::<char>::empty(),
    decreases b.len(),
{
    reveal(Seq::filter);
    reveal_with_fuel(Seq::filter, 2);
    assert(seq![c].drop_last() == Seq::<char>::empty());
    assert(printable(Seq::<char>::empty()) == Seq::<char>::empty());
    if drawn(c) {
        assert(printable(seq![c]) == Seq::<char>::empty().push(c));
        assert(Seq::<char>::empty().push(c) == seq![c]);
    }
    if b.len() == 0 {
        assert(a + b == a);
        assert(printable(a) + Seq::<char>::empty() == printable(a));
    } else {
        law_all_but_control_characters_are_drawn(a, b.drop_last(), c);
        assert((a + b).drop_last() == a + b.drop_last());
        if drawn(b.last()) {
            assert((printable(a) + printable(b.drop_last())).push(b.last()) == printable(a)
                + printable(b.drop_last()).push(b.last()));
        }
    }
}

/// The page shows the rows of the text from the scrolled one on, as many as there
/// are and have room, each with what is drawn of its stretch of the text.
pub proof fn law_the_page_shows_its_rows(v: AppView, width: int, height: int, k: int)
    requires
        0 <= v.scroll,
        0 <= height,
    ensures
        0 <= k < v.page_lines(width, height).len() <==> 0 <= k < height && v.scroll + k
            < wrap::rows(v.document.text, width).len(),
        0 <= k < v.page_lines(width, height).len() ==> v.page_lines(width, height)[k] == printable(
            v.document.text.subrange(
                wrap::rows(v.document.text, width)[v.scroll + k].0,
                wrap::rows(v.document.text, width)[v.scroll + k].1,
            ),
        ),
{
}

/// To follow the cursor changes nothing but the scrolling, and brings the row of
/// the cursor into sight.
pub proof fn law_the_page_follows_the_cursor(v: AppView, width: int, height: int)
    requires
        v.document.wf(),
        0 <= v.scroll,
        1 <= height,
    ensures
        v.followed(width, height) == (AppView { scroll: v.followed(width, height).scroll, ..v }),
        v.followed(width, height).cursor_place(width) == v.cursor_place(width),
        0 <= v.cursor_place(width).0 ==> 0 <= v.cursor_place(width).0 - v.followed(
            width,
            height,
        ).scroll < height,
{
}

} // verus!
