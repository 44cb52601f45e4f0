//! The headings of a Markdown text, and the way from one to the next.
use vstd::prelude::*;

use crate::document;
use crate::text;

verus! {

/// A heading: where its line begins, its level, and its title.
pub type HeadingView = (int, int, Seq<char>);

/// The number signs that a line begins with, from `at` on.
pub open spec fn signs(line: Seq<char>, at: int) -> int
    decreases line.len() - at,
{
    if at >= line.len() || line[at] != '#' {
        at
    } else {
        signs(line, at + 1)
    }
}

/// Whether a line is a heading: one to six number signs, a space, and a title
/// that is more than white space.
pub open spec fn is_heading(line: Seq<char>) -> bool {
    let level = signs(line, 0);
    &&& 1 <= level <= 6
    &&& level < line.len()
    &&& line[level] == ' '
    &&& !text::blank(line.skip(level + 1))
}

/// The headings of the lines that begin at `start` or later.
pub open spec fn headings_from(text: Seq<char>, start: int) -> Seq<HeadingView>
    decreases text.len() + 1 - start,
{
    proof {
        if 0 <= start <= text.len() {
            document::law_line_end_is_the_nearest(text, start);
        }
    }
    if start < 0 || start > text.len() {
        Seq::empty()
    } else {
        let end = document::line_end_of(text, start);
        let line = text.subrange(start, end);
        let rest = headings_from(text, end + 1);
        if is_heading(line) {
            let level = signs(line, 0);
            seq![(start, level, line.skip(level + 1))] + rest
        } else {
            rest
        }
    }
}

/// The headings of a text, in order.
pub open spec fn headings(text: Seq<char>) -> Seq<HeadingView> {
    headings_from(text, 0)
}

pub open spec fn heading_view(heading: (usize, usize, String)) -> HeadingView {
    (heading.0 as int, heading.1 as int, heading.2@)
}

pub open spec fn heading_views(list: Seq<(usize, usize, String)>) -> Seq<HeadingView> {
    list.map_values(|heading: (usize, usize, String)| heading_view(heading))
}

/// Reads one line as a heading.
fn heading_of(text: &[char], start: usize, end: usize) -> (heading: Option<(usize, usize, String)>)
    requires
        start <= end <= text@.len(),
    ensures
        ({
            let line = text@.subrange(start as int, end as int);
            match heading {
                Some(found) => is_heading(line) && heading_view(found) == (
                    start as int,
                    signs(line, 0),
                    line.skip(signs(line, 0) + 1),
                ),
                None => !is_heading(line),
            }
        }),
{
    let line: Vec<char> = text::chars_between(text, start, end);
    let mut level: usize = 0;
    while level < line.len() && line[level] == '#'
        invariant
            level <= line@.len(),
            signs(line@, level as int) == signs(line@, 0),
        decreases line@.len() - level,
    {
        level += 1;
    }
    if level < 1 || level > 6 || level >= line.len() || line[level] != ' ' {
        return None;
    }
    let title: Vec<char> = text::chars_between(line.as_slice(), level + 1, line.len());
    assert(title@ == line@.skip(level + 1));
    if text::is_blank(title.as_slice()) {
        None
    } else {
        Some((start, level, text::string_of(title.as_slice())))
    }
}

/// Finds the headings of a Markdown text: the place, the level and the title of
/// each.
pub fn markdown_headings(text: &[char]) -> (found: Vec<(usize, usize, String)>)
    ensures
        heading_views(found@) == headings(text@),
{
    let mut found: Vec<(usize, usize, String)> = Vec::new();
    let mut start: usize = 0;
    assert(heading_views(found@) + headings(text@) == headings(text@));
    loop
        invariant
            start <= text@.len(),
            heading_views(found@) + headings_from(text@, start as int) == headings(text@),
        decreases text@.len() - start,
    {
        let mut end: usize = start;
        while end < text.len() && text[end] != '\n'
            invariant
                start <= end <= text@.len(),
                document::line_end_of(text@, end as int) == document::line_end_of(
                    text@,
                    start as int,
                ),
            decreases text@.len() - end,
        {
            end += 1;
        }
        let ghost before = found@;
        let ghost rest = headings_from(text@, end + 1);
        match heading_of(text, start, end) {
            Some(heading) => {
                found.push(heading);
                proof {
                    assert(heading_views(found@) == heading_views(before).push(
                        heading_view(heading),
                    ));
                    assert(heading_views(before) + (seq![heading_view(heading)] + rest)
                        == heading_views(found@) + rest);
                }
            },
            None => {},
        }
        if end >= text.len() {
            assert(heading_views(found@) + Seq::<HeadingView>::empty() == heading_views(found@));
            return found;
        }
        start = end + 1;
    }
}

/// The first heading, from `row` on, behind a cursor.
pub open spec fn heading_after(list: Seq<HeadingView>, cursor: int, row: int) -> Option<HeadingView>
    decreases list.len() - row,
{
    if row >= list.len() {
        None
    } else if list[row].0 > cursor {
        Some(list[row])
    } else {
        heading_after(list, cursor, row + 1)
    }
}

/// The last heading, among the first `count`, before a cursor.
pub open spec fn heading_before(list: Seq<HeadingView>, cursor: int, count: int) -> Option<
    HeadingView,
>
    decreases count,
{
    if count <= 0 {
        None
    } else if list[count - 1].0 < cursor {
        Some(list[count - 1])
    } else {
        heading_before(list, cursor, count - 1)
    }
}

/// The heading to go to: the next one, or the first when there is none behind
/// the cursor; backward, the one before, or the last.
pub open spec fn next_heading(list: Seq<HeadingView>, cursor: int, forward: bool) -> Option<
    HeadingView,
> {
    if list.len() == 0 {
        None
    } else if forward {
        match heading_after(list, cursor, 0) {
            Some(found) => Some(found),
            None => Some(list.first()),
        }
    } else {
        match heading_before(list, cursor, list.len() as int) {
            Some(found) => Some(found),
            None => Some(list.last()),
        }
    }
}

/// Chooses the heading to go to.
pub fn choose_heading(list: &Vec<(usize, usize, String)>, cursor: usize, forward: bool) -> (row:
    Option<usize>)
    ensures
        match row {
            Some(r) => r < list@.len() && next_heading(
                heading_views(list@),
                cursor as int,
                forward,
            ) == Some(heading_view(list@[r as int])),
            None => list@.len() == 0 && next_heading(heading_views(list@), cursor as int, forward)
                is None,
        },
{
    let ghost shown = heading_views(list@);
    if list.len() == 0 {
        return None;
    }
    if forward {
        let mut row: usize = 0;
        while row < list.len()
            invariant
                forward,
                row <= list@.len(),
                shown == heading_views(list@),
                heading_after(shown, cursor as int, row as int) == heading_after(
                    shown,
                    cursor as int,
                    0,
                ),
            decreases list@.len() - row,
        {
            if list[row].0 > cursor {
                return Some(row);
            }
            row += 1;
        }
        Some(0)
    } else {
        let mut count: usize = list.len();
        while count > 0
            invariant
                !forward,
                count <= list@.len(),
                shown == heading_views(list@),
                heading_before(shown, cursor as int, count as int) == heading_before(
                    shown,
                    cursor as int,
                    list@.len() as int,
                ),
            decreases count,
        {
            if list[count - 1].0 < cursor {
                return Some(count - 1);
            }
            count -= 1;
        }
        Some(list.len() - 1)
    }
}

proof fn lemma_headings_stand_in_the_text(text: Seq<char>, start: int)
    requires
        0 <= start,
    ensures
        forall|k: int|
            0 <= k < headings_from(text, start).len() ==> {
                let heading = #[trigger] headings_from(text, start)[k];
                start <= heading.0 < text.len() && text[heading.0] == '#' && 1 <= heading.1 <= 6
            },
    decreases text.len() + 1 - start,
{
    if start <= text.len() {
        document::law_line_end_is_the_nearest(text, start);
        let end = document::line_end_of(text, start);
        let line = text.subrange(start, end);
        let rest = headings_from(text, end + 1);
        lemma_headings_stand_in_the_text(text, end + 1);
        if is_heading(line) {
            assert(line[0] == text[start]);
            let all = headings_from(text, start);
            assert forall|k: int| 0 <= k < all.len() implies ({
                let heading = #[trigger] all[k];
                start <= heading.0 < text.len() && text[heading.0] == '#' && 1 <= heading.1 <= 6
            }) by {
                if k > 0 {
                    assert(all[k] == rest[k - 1]);
                }
            }
        }
    }
}

/// Every heading begins with a number sign at its place and has a level from
/// one to six.
pub proof fn law_headings_stand_in_the_text(text: Seq<char>, k: int)
    requires
        0 <= k < headings(text).len(),
    ensures
        0 <= headings(text)[k].0 < text.len(),
        text[headings(text)[k].0] == '#',
        1 <= headings(text)[k].1 <= 6,
{
    lemma_headings_stand_in_the_text(text, 0);
}

proof fn lemma_heading_after(list: Seq<HeadingView>, cursor: int, row: int)
    requires
        0 <= row,
    ensures
        match heading_after(list, cursor, row) {
            Some(found) => list.contains(found) && found.0 > cursor,
            None => forall|k: int| row <= k < list.len() ==> (#[trigger] list[k]).0 <= cursor,
        },
    decreases list.len() - row,
{
    if row < list.len() && list[row].0 <= cursor {
        lemma_heading_after(list, cursor, row + 1);
    }
}

proof fn lemma_heading_before(list: Seq<HeadingView>, cursor: int, count: int)
    requires
        count <= list.len(),
    ensures
        match heading_before(list, cursor, count) {
            Some(found) => list.contains(found) && found.0 < cursor,
            None => forall|k: int| 0 <= k < count ==> (#[trigger] list[k]).0 >= cursor,
        },
    decreases count,
{
    if count > 0 && list[count - 1].0 >= cursor {
        lemma_heading_before(list, cursor, count - 1);
    }
}

/// Going from heading to heading always ends on one of them, as long as there is
/// any, and wraps round at the ends.
pub proof fn law_heading_navigation_wraps(list: Seq<HeadingView>, cursor: int, forward: bool)
    requires
        list.len() > 0,
    ensures
        next_heading(list, cursor, forward) is Some,
        list.contains(next_heading(list, cursor, forward)->0),
        forward && (forall|k: int| 0 <= k < list.len() ==> (#[trigger] list[k]).0 <= cursor)
            ==> next_heading(list, cursor, forward) == Some(list.first()),
        !forward && (forall|k: int| 0 <= k < list.len() ==> (#[trigger] list[k]).0 >= cursor)
            ==> next_heading(list, cursor, forward) == Some(list.last()),
{
    lemma_heading_after(list, cursor, 0);
    lemma_heading_before(list, cursor, list.len() as int);
    if forward && heading_after(list, cursor, 0) is Some {
        let found = heading_after(list, cursor, 0)->0;
        let k = choose|k: int| 0 <= k < list.len() && list[k] == found;
        assert(list[k].0 > cursor);
    }
    if !forward && heading_before(list, cursor, list.len() as int) is Some {
        let found = heading_before(list, cursor, list.len() as int)->0;
        let k = choose|k: int| 0 <= k < list.len() && list[k] == found;
        assert(list[k].0 < cursor);
    }
}

proof fn lemma_signs(line: Seq<char>, n: int, at: int)
    requires
        0 <= at <= n <= line.len(),
        forall|i: int| 0 <= i < n ==> #[trigger] line[i] == '#',
        n == line.len() || line[n] != '#',
    ensures
        signs(line, at) == n,
    decreases n - at,
{
    if at < n {
        assert(line[at] == '#');
        lemma_signs(line, n, at + 1);
    }
}

proof fn lemma_signs_are_signs(line: Seq<char>, at: int)
    requires
        0 <= at <= line.len(),
    ensures
        at <= signs(line, at) <= line.len(),
        forall|i: int| at <= i < signs(line, at) ==> #[trigger] line[i] == '#',
        signs(line, at) == line.len() || line[signs(line, at)] != '#',
    decreases line.len() - at,
{
    if at < line.len() && line[at] == '#' {
        lemma_signs_are_signs(line, at + 1);
    }
}

/// Where a line ends that holds no line feed up to there.
proof fn lemma_line_ends(text: Seq<char>, start: int, end: int)
    requires
        0 <= start <= end <= text.len(),
        forall|i: int| start <= i < end ==> #[trigger] text[i] != '\n',
        end == text.len() || text[end] == '\n',
    ensures
        document::line_end_of(text, start) == end,
    decreases end - start,
{
    if start < end {
        assert(text[start] != '\n');
        lemma_line_ends(text, start + 1, end);
    }
}

proof fn lemma_headings_reach(text: Seq<char>, from: int, p: int)
    requires
        0 <= from <= p <= text.len(),
        p == from || text[p - 1] == '\n',
    ensures
        forall|heading: HeadingView|
            headings_from(text, p).contains(heading) ==> #[trigger] headings_from(
                text,
                from,
            ).contains(heading),
    decreases p - from,
{
    if from < p {
        document::law_line_end_is_the_nearest(text, from);
        let end = document::line_end_of(text, from);
        assert(end < p) by {
            if end >= p {
                assert(text.subrange(from, end)[p - 1 - from] == '\n');
                assert(text.subrange(from, end).contains('\n'));
            }
        }
        lemma_headings_reach(text, end + 1, p);
        let rest = headings_from(text, end + 1);
        let all = headings_from(text, from);
        assert forall|heading: HeadingView|
            headings_from(text, p).contains(heading) implies #[trigger] all.contains(heading) by {
            assert(rest.contains(heading));
            let k = choose|k: int| 0 <= k < rest.len() && rest[k] == heading;
            if all.len() == rest.len() {
                assert(all[k] == heading);
            } else {
                assert(all[k + 1] == heading);
            }
        }
    }
}

/// The outline misses no heading: a line that begins with one to six number signs
/// and a space, and has something behind them that is more than white space, is in
/// it, with the place where it begins, the number of its signs, and the rest of
/// the line as its title.
pub proof fn law_every_heading_is_in_the_outline(text: Seq<char>, p: int, n: int, end: int, seen: int)
    requires
        0 <= p,
        p == 0 || text[p - 1] == '\n',
        1 <= n <= 6,
        p + n < end <= text.len(),
        forall|i: int| p <= i < p + n ==> #[trigger] text[i] == '#',
        text[p + n] == ' ',
        forall|i: int| p <= i < end ==> #[trigger] text[i] != '\n',
        end == text.len() || text[end] == '\n',
        p + n < seen < end,
        !text::space(text[seen]),
    ensures
        headings(text).contains((p, n, text.subrange(p + n + 1, end))),
{
    lemma_line_ends(text, p, end);
    let line = text.subrange(p, end);
    assert forall|i: int| 0 <= i < n implies #[trigger] line[i] == '#' by {
        assert(text[p + i] == '#');
    }
    assert(line[n] == text[p + n]);
    lemma_signs(line, n, 0);
    let title = line.skip(n + 1);
    assert(title == text.subrange(p + n + 1, end));
    assert(title[seen - p - n - 1] == text[seen]);
    assert(!text::blank(title));
    let here = headings_from(text, p);
    assert(here[0] == (p, n, title));
    assert(here.contains((p, n, title)));
    lemma_headings_reach(text, 0, p);
}

proof fn lemma_outline_is_true(text: Seq<char>, start: int)
    requires
        0 <= start,
        start == 0 || start > text.len() || text[start - 1] == '\n',
    ensures
        forall|k: int|
            0 <= k < headings_from(text, start).len() ==> {
                let (p, n, title) = #[trigger] headings_from(text, start)[k];
                is_in_text(text, start, p, n, title)
            },
        forall|i: int, j: int|
            0 <= i < j < headings_from(text, start).len() ==> (#[trigger] headings_from(
                text,
                start,
            )[i]).0 < (#[trigger] headings_from(text, start)[j]).0,
    decreases text.len() + 1 - start,
{
    if start <= text.len() {
        document::law_line_end_is_the_nearest(text, start);
        let end = document::line_end_of(text, start);
        let line = text.subrange(start, end);
        let rest = headings_from(text, end + 1);
        let all = headings_from(text, start);
        lemma_outline_is_true(text, end + 1);
        lemma_signs_are_signs(line, 0);
        if is_heading(line) {
            let level = signs(line, 0);
            let title = line.skip(level + 1);
            assert(title == text.subrange(start + level + 1, end));
            assert forall|i: int| start <= i < start + level implies #[trigger] text[i] == '#' by {
                assert(line[i - start] == '#');
            }
            assert(line[level] == text[start + level]);
            assert forall|i: int| start <= i < end implies #[trigger] text[i] != '\n' by {
                assert(line[i - start] == text[i]);
                if text[i] == '\n' {
                    assert(line.contains('\n'));
                }
            }
            assert(is_in_text(text, start, start, level, title));
        }
        assert forall|k: int| 0 <= k < all.len() implies {
            let (p, n, title) = #[trigger] all[k];
            is_in_text(text, start, p, n, title)
        } by {
            if !is_heading(line) {
                let (p, n, title) = rest[k];
                assert(is_in_text(text, end + 1, p, n, title));
            } else if k > 0 {
                assert(all[k] == rest[k - 1]);
                let (p, n, title) = rest[k - 1];
                assert(is_in_text(text, end + 1, p, n, title));
            }
        }
        assert forall|i: int, j: int| 0 <= i < j < all.len() implies (#[trigger] all[i]).0
            < (#[trigger] all[j]).0 by {
            if is_heading(line) {
                assert(all[j] == rest[j - 1]);
                let (p, n, title) = rest[j - 1];
                assert(is_in_text(text, end + 1, p, n, title));
                if i > 0 {
                    assert(all[i] == rest[i - 1]);
                }
            } else {
                assert(all[i] == rest[i] && all[j] == rest[j]);
            }
        }
    }
}

/// Whether a heading stands in a text as a line of its own, from `start` on: so
/// many number signs at its place, a space, and its title up to the end of the
/// line.
pub open spec fn is_in_text(
    text: Seq<char>,
    start: int,
    p: int,
    n: int,
    title: Seq<char>,
) -> bool {
    let end = p + n + 1 + title.len();
    &&& start <= p
    &&& p == 0 || text[p - 1] == '\n'
    &&& 1 <= n <= 6
    &&& end <= text.len()
    &&& forall|i: int| p <= i < p + n ==> #[trigger] text[i] == '#'
    &&& text[p + n] == ' '
    &&& title == text.subrange(p + n + 1, end)
    &&& forall|i: int| p <= i < end ==> #[trigger] text[i] != '\n'
    &&& end == text.len() || text[end] == '\n'
    &&& exists|i: int| 0 <= i < title.len() && !text::space(#[trigger] title[i])
}

/// The outline holds nothing but headings: each of its entries is a line of the
/// text, and they stand in it in the order of the outline, none of them twice.
pub proof fn law_the_outline_holds_only_headings(text: Seq<char>, i: int, j: int)
    requires
        0 <= i < headings(text).len(),
    ensures
        ({
            let (p, n, title) = headings(text)[i];
            let end = p + n + 1 + title.len();
            &&& 0 <= p
            &&& p == 0 || text[p - 1] == '\n'
            &&& 1 <= n <= 6
            &&& end <= text.len()
            &&& forall|k: int| p <= k < p + n ==> #[trigger] text[k] == '#'
            &&& text[p + n] == ' '
            &&& title == text.subrange(p + n + 1, end)
            &&& forall|k: int| p <= k < end ==> #[trigger] text[k] != '\n'
            &&& end == text.len() || text[end] == '\n'
            &&& exists|k: int| 0 <= k < title.len() && !text::space(#[trigger] title[k])
        }),
        i < j < headings(text).len() ==> headings(text)[i].0 < headings(text)[j].0,
{
    lemma_outline_is_true(text, 0);
    let (p, n, title) = headings(text)[i];
    assert(is_in_text(text, 0, p, n, title));
}

/// Going on leads to the nearest heading behind the cursor, going back to the
/// nearest before it, in an outline whose headings stand in order.
pub proof fn law_the_nearest_heading_is_next(list: Seq<HeadingView>, cursor: int, k: int)
    requires
        0 <= k < list.len(),
        forall|i: int, j: int|
            0 <= i < j < list.len() ==> (#[trigger] list[i]).0 < (#[trigger] list[j]).0,
    ensures
        list[k].0 > cursor ==> {
            let found = next_heading(list, cursor, true);
            found is Some && list.contains(found->0) && cursor < (found->0).0 <= list[k].0
        },
        list[k].0 < cursor ==> {
            let found = next_heading(list, cursor, false);
            found is Some && list.contains(found->0) && list[k].0 <= (found->0).0 < cursor
        },
{
    if list[k].0 > cursor {
        lemma_nearest_after(list, cursor, 0, k);
    }
    if list[k].0 < cursor {
        lemma_nearest_before(list, cursor, list.len() as int, k);
    }
}

proof fn lemma_nearest_after(list: Seq<HeadingView>, cursor: int, row: int, k: int)
    requires
        0 <= row <= k < list.len(),
        list[k].0 > cursor,
        forall|i: int, j: int|
            0 <= i < j < list.len() ==> (#[trigger] list[i]).0 < (#[trigger] list[j]).0,
    ensures
        heading_after(list, cursor, row) is Some,
        list.contains(heading_after(list, cursor, row)->0),
        cursor < (heading_after(list, cursor, row)->0).0 <= list[k].0,
    decreases k - row,
{
    if list[row].0 > cursor {
        assert(list.contains(list[row]));
        if row < k {
            assert(list[row].0 < list[k].0);
        }
    } else {
        lemma_nearest_after(list, cursor, row + 1, k);
    }
}

proof fn lemma_nearest_before(list: Seq<HeadingView>, cursor: int, count: int, k: int)
    requires
        0 <= k < count <= list.len(),
        list[k].0 < cursor,
        forall|i: int, j: int|
            0 <= i < j < list.len() ==> (#[trigger] list[i]).0 < (#[trigger] list[j]).0,
    ensures
        heading_before(list, cursor, count) is Some,
        list.contains(heading_before(list, cursor, count)->0),
        list[k].0 <= (heading_before(list, cursor, count)->0).0 < cursor,
    decreases count,
{
    if list[count - 1].0 < cursor {
        assert(list.contains(list[count - 1]));
        if k < count - 1 {
            assert(list[k].0 < list[count - 1].0);
        }
    } else {
        lemma_nearest_before(list, cursor, count - 1, k);
    }
}

} // verus!
