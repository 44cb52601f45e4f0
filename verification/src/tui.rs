//! What a full-screen terminal shows: its panes, and the words in each.
use vstd::prelude::*;

use crate::app::{App, AppView, LockPrompt, Screen, TextPrompt};
use crate::framebuffer;
use crate::handle;
use crate::outline;
use crate::page::Page;
use crate::path;
use crate::path::NotePath;
use crate::scene;
use crate::shelf;
use crate::status;
use crate::text;
use crate::wrap;
use ratatui::layout;

verus! {

/// A part of the terminal, in cells.
#[derive(Debug, Clone, Copy, PartialEq, Eq, Structural)]
pub struct Area {
    pub x: u16,
    pub y: u16,
    pub width: u16,
    pub height: u16,
}

impl Area {
    /// Whether all of the part lies inside another.
    pub open spec fn inside(self, whole: Area) -> bool {
        &&& whole.x <= self.x
        &&& self.x + self.width <= whole.x + whole.width
        &&& whole.y <= self.y
        &&& self.y + self.height <= whole.y + whole.height
    }
}

/// How large a part is to be.
#[derive(Debug, Clone, Copy, PartialEq, Eq, Structural)]
pub enum PartSize {
    /// At least so many cells.
    Min(u16),
    /// So many cells.
    Length(u16),
    /// So many hundredths of the whole.
    Percentage(u16),
}

/// Which way parts follow each other.
#[derive(Debug, Clone, Copy, PartialEq, Eq, Structural)]
pub enum Axis {
    Across,
    Down,
}

/// The cells of a side that are shared out: it ends at the last cell that has a
/// number.
pub open spec fn shared_length(start: int, length: int) -> int {
    if start + length > 65535 {
        65535 - start
    } else {
        length
    }
}

/// The cell at which so many hundredths of a side end, rounded to the nearest.
pub open spec fn share_end(start: int, length: int, hundredths: int) -> int {
    (100 * start + hundredths * shared_length(start, length) + 50) / 100
}

/// The part of an area between two shares of one of its sides.
pub open spec fn share_of(area: Area, axis: Axis, from: int, to: int) -> Area {
    match axis {
        Axis::Across => {
            let start = share_end(area.x as int, area.width as int, from);
            let end = share_end(area.x as int, area.width as int, to);
            Area { x: start as u16, width: (end - start) as u16, ..area }
        },
        Axis::Down => {
            let start = share_end(area.y as int, area.height as int, from);
            let end = share_end(area.y as int, area.height as int, to);
            Area { y: start as u16, height: (end - start) as u16, ..area }
        },
    }
}

/// Two shares of a side, and the rest of it.
pub open spec fn shares(first: u16, second: u16) -> Seq<PartSize> {
    seq![PartSize::Percentage(first), PartSize::Percentage(second), PartSize::Min(0)]
}

/// How many hundredths the first `count` sizes ask for.
pub open spec fn hundredths(sizes: Seq<PartSize>, count: int) -> int
    decreases count,
{
    if count <= 0 {
        0
    } else {
        hundredths(sizes, count - 1) + match sizes[count - 1] {
            PartSize::Percentage(share) => share as int,
            _ => 0,
        }
    }
}

/// Whether all sizes are shares, and together no more than the whole.
pub open spec fn all_shares(sizes: Seq<PartSize>) -> bool {
    &&& forall|i: int| 0 <= i < sizes.len() ==> (#[trigger] sizes[i]) is Percentage
    &&& hundredths(sizes, sizes.len() as int) <= 100
}

/// How many cells those of the first `count` sizes take that ask for a length.
pub open spec fn lengths(sizes: Seq<PartSize>, count: int) -> int
    decreases count,
{
    if count <= 0 {
        0
    } else {
        lengths(sizes, count - 1) + match sizes[count - 1] {
            PartSize::Length(cells) => cells as int,
            _ => 0,
        }
    }
}

/// Whether the size at a place takes what the others, which are lengths, leave.
pub open spec fn rest_at(sizes: Seq<PartSize>, at: int) -> bool {
    &&& 0 <= at < sizes.len()
    &&& sizes[at] is Min
    &&& forall|i: int| 0 <= i < sizes.len() && i != at ==> (#[trigger] sizes[i]) is Length
}

/// Where the first `count` parts end, counted from the start of a side, when the
/// part at a place takes the rest.
pub open spec fn run_end(sizes: Seq<PartSize>, at: int, side: int, count: int) -> int {
    lengths(sizes, count) + if count > at {
        side - lengths(sizes, sizes.len() as int)
    } else {
        0
    }
}

/// The cells of a side of an area that are shared out.
pub open spec fn side_of(area: Area, axis: Axis) -> int {
    match axis {
        Axis::Across => shared_length(area.x as int, area.width as int),
        Axis::Down => shared_length(area.y as int, area.height as int),
    }
}

/// The part of an area between two cells of one of its sides, counted from the
/// start.
pub open spec fn cells_of(area: Area, axis: Axis, from: int, to: int) -> Area {
    match axis {
        Axis::Across => Area { x: (area.x + from) as u16, width: (to - from) as u16, ..area },
        Axis::Down => Area { y: (area.y + from) as u16, height: (to - from) as u16, ..area },
    }
}

/// A part that takes the rest, and a length behind it.
pub open spec fn rest_and_length(least: u16, length: u16) -> Seq<PartSize> {
    seq![PartSize::Min(least), PartSize::Length(length)]
}

/// How many cells are left before a length: no fewer than the least, as far as
/// the side has them.
pub open spec fn rest_cells(least: int, length: int, side: int) -> int {
    if least + length <= side {
        side - length
    } else if least <= side {
        least
    } else {
        side
    }
}

/// Calls `ratatui::layout::Layout::split`. It gives a part for each size, and
/// every part lies inside the whole; parts that follow each other across keep the
/// rows of the whole, parts that follow each other down keep its columns. Sizes
/// that can all be granted are granted, and no weaker wish moves them:
/// percentages that fit together become shares, rounded to whole cells, also
/// where the rest is left behind two of them; lengths that fit beside the least
/// of a single `Min` are kept, and it takes the rest. Of a `Min` and one length
/// that do not fit, the least goes before the length. Where the parts lie for
/// other sizes is left to a solver that walks hash maps and may have several ways
/// to choose from, and is not stated.
#[verifier::external_body]
fn split_area(area: Area, axis: Axis, sizes: &Vec<PartSize>) -> (parts: Vec<Area>)
    ensures
        parts@.len() == sizes@.len(),
        forall|k: int| 0 <= k < parts@.len() ==> (#[trigger] parts@[k]).inside(area),
        forall|first: u16, second: u16|
            sizes@ == #[trigger] shares(first, second) && first + second <= 100 ==> parts@[1]
                == share_of(area, axis, first as int, first + second),
        all_shares(sizes@) ==> forall|k: int|
            0 <= k < parts@.len() ==> #[trigger] parts@[k] == share_of(
                area,
                axis,
                hundredths(sizes@, k),
                hundredths(sizes@, k + 1),
            ),
        forall|at: int, k: int|
            #![trigger rest_at(sizes@, at), parts@[k]]
            rest_at(sizes@, at) && sizes@[at]->Min_0 + lengths(sizes@, sizes@.len() as int)
                <= side_of(area, axis) && 0 <= k < parts@.len() ==> parts@[k] == cells_of(
                area,
                axis,
                run_end(sizes@, at, side_of(area, axis), k),
                run_end(sizes@, at, side_of(area, axis), k + 1),
            ),
        forall|least: u16, length: u16|
            sizes@ == #[trigger] rest_and_length(least, length) && least <= 32767 ==> {
                let side = side_of(area, axis);
                let rest = rest_cells(least as int, length as int, side);
                parts@[0] == cells_of(area, axis, 0, rest) && parts@[1] == cells_of(
                    area,
                    axis,
                    rest,
                    side,
                )
            },
        axis == Axis::Across ==> forall|k: int|
            0 <= k < parts@.len() ==> (#[trigger] parts@[k]).y == area.y && parts@[k].height
                == area.height,
        axis == Axis::Down ==> forall|k: int|
            0 <= k < parts@.len() ==> (#[trigger] parts@[k]).x == area.x && parts@[k].width
                == area.width,
{
    let direction = match axis {
        Axis::Across => layout::Direction::Horizontal,
        Axis::Down => layout::Direction::Vertical,
    };
    let constraints = sizes.iter().map(|size| match *size {
        PartSize::Min(cells) => layout::Constraint::Min(cells),
        PartSize::Length(cells) => layout::Constraint::Length(cells),
        PartSize::Percentage(hundredths) => layout::Constraint::Percentage(hundredths),
    });
    let whole = layout::Rect { x: area.x, y: area.y, width: area.width, height: area.height };
    let parts = layout::Layout::default().direction(direction).constraints(constraints).split(whole);
    parts.iter().map(|r| Area { x: r.x, y: r.y, width: r.width, height: r.height }).collect()
}

/// How a side is divided for a part in its middle, so many hundredths of it.
pub open spec fn middle_split(hundredths: u16) -> Seq<PartSize> {
    shares((framebuffer::less(100, hundredths as int) / 2) as u16, hundredths)
}

/// How a side is divided for a part in its middle.
pub fn middle_sizes(hundredths: u16) -> (sizes: Vec<PartSize>)
    ensures
        sizes@ == middle_split(hundredths),
{
    let before: u16 = less_cells(100, hundredths) / 2;
    let sizes: Vec<PartSize> = vec![
        PartSize::Percentage(before),
        PartSize::Percentage(hundredths),
        PartSize::Min(0),
    ];
    assert(sizes@ == middle_split(hundredths));
    sizes
}

/// The part of a side between what is left free before its middle and what is
/// left free behind.
pub open spec fn middle_of(area: Area, axis: Axis, hundredths: int) -> Area {
    share_of(area, axis, (100 - hundredths) / 2, (100 - hundredths) / 2 + hundredths)
}

/// The part in the middle of an area, so many hundredths wide and high.
pub open spec fn centered_in(area: Area, width: int, height: int) -> Area {
    middle_of(middle_of(area, Axis::Down, height), Axis::Across, width)
}

/// A part in the middle of the terminal, so many hundredths wide and high: the
/// middle one of three across, in the middle one of three down.
fn centered_rect(width: u16, height: u16, area: Area) -> (part: Area)
    requires
        width <= 100,
        height <= 100,
    ensures
        part == centered_in(area, width as int, height as int),
        part.inside(area),
{
    let rows: Vec<Area> = split_area(area, Axis::Down, &middle_sizes(height));
    let columns: Vec<Area> = split_area(rows[1], Axis::Across, &middle_sizes(width));
    columns[1]
}

/// The panes of the page.
#[derive(Debug, Clone, Copy, PartialEq, Eq, Structural)]
pub struct Panes {
    pub outline: Option<Area>,
    pub editor: Area,
    pub reference: Option<Area>,
    pub status: Area,
    pub info: Area,
}

impl Panes {
    /// Whether every pane lies inside an area.
    pub open spec fn inside(self, area: Area) -> bool {
        &&& self.outline matches Some(left) ==> left.inside(area)
        &&& self.editor.inside(area)
        &&& self.reference matches Some(right) ==> right.inside(area)
        &&& self.status.inside(area)
        &&& self.info.inside(area)
    }
}

/// How the terminal is divided downwards for the page: the page, and two lines at
/// the foot.
pub open spec fn foot_split() -> Seq<PartSize> {
    seq![PartSize::Min(1), PartSize::Length(1), PartSize::Length(1)]
}

/// How the terminal is divided downwards for the page.
pub fn foot_sizes() -> (sizes: Vec<PartSize>)
    ensures
        sizes@ == foot_split(),
{
    let sizes: Vec<PartSize> = vec![PartSize::Min(1), PartSize::Length(1), PartSize::Length(1)];
    assert(sizes@ == foot_split());
    sizes
}

/// How the page is divided across, with the outline at its left and the reference
/// at its right where they are wanted; it stays whole where neither is.
pub open spec fn pane_split(outline: bool, split: bool) -> Seq<PartSize> {
    if outline && split {
        seq![PartSize::Percentage(24), PartSize::Percentage(38), PartSize::Percentage(38)]
    } else if outline {
        seq![PartSize::Percentage(28), PartSize::Percentage(72)]
    } else if split {
        seq![PartSize::Percentage(50), PartSize::Percentage(50)]
    } else {
        seq![PartSize::Percentage(100)]
    }
}

/// How the page is divided across.
pub fn pane_sizes(outline: bool, split: bool) -> (sizes: Vec<PartSize>)
    ensures
        sizes@ == pane_split(outline, split),
{
    let sizes: Vec<PartSize> = if outline && split {
        vec![PartSize::Percentage(24), PartSize::Percentage(38), PartSize::Percentage(38)]
    } else if outline {
        vec![PartSize::Percentage(28), PartSize::Percentage(72)]
    } else if split {
        vec![PartSize::Percentage(50), PartSize::Percentage(50)]
    } else {
        vec![PartSize::Percentage(100)]
    };
    assert(sizes@ == pane_split(outline, split));
    sizes
}

/// The panes in parts that follow each other down and, in the first of them,
/// across.
pub open spec fn panes_in(rows: Seq<Area>, parts: Seq<Area>, outline: bool, split: bool) -> Panes {
    Panes {
        outline: if outline {
            Some(parts[0])
        } else {
            None
        },
        editor: if outline {
            parts[1]
        } else if split {
            parts[0]
        } else {
            rows[0]
        },
        reference: if split {
            Some(parts.last())
        } else {
            None
        },
        status: rows[1],
        info: rows[2],
    }
}

/// Puts the panes in their parts.
pub fn arrange_panes(rows: &Vec<Area>, parts: &Vec<Area>, outline: bool, split: bool) -> (panes:
    Panes)
    requires
        rows@.len() == 3,
        parts@.len() == pane_split(outline, split).len(),
    ensures
        panes == panes_in(rows@, parts@, outline, split),
{
    Panes {
        outline: if outline {
            Some(parts[0])
        } else {
            None
        },
        editor: if outline {
            parts[1]
        } else if split {
            parts[0]
        } else {
            rows[0]
        },
        reference: if split {
            Some(parts[parts.len() - 1])
        } else {
            None
        },
        status: rows[1],
        info: rows[2],
    }
}

/// The rows of the page and of the two lines at its foot, where there is room for
/// them.
pub open spec fn foot_rows(area: Area) -> Seq<Area> {
    let side = side_of(area, Axis::Down);
    seq![
        cells_of(area, Axis::Down, 0, side - 2),
        cells_of(area, Axis::Down, side - 2, side - 1),
        cells_of(area, Axis::Down, side - 1, side),
    ]
}

/// Whether these are three parts of an area, each as wide as it.
pub open spec fn three_rows(area: Area, rows: Seq<Area>) -> bool {
    &&& rows.len() == 3
    &&& forall|k: int|
        0 <= k < 3 ==> (#[trigger] rows[k]).inside(area) && rows[k].x == area.x && rows[k].width
            == area.width
}

/// Whether these may be the rows of the page and its foot: in a terminal of fewer
/// than three rows, which of them are missing is open.
pub open spec fn foot_rows_of(area: Area, rows: Seq<Area>) -> bool {
    &&& three_rows(area, rows)
    &&& side_of(area, Axis::Down) >= 3 ==> rows == foot_rows(area)
}

/// The parts across the page.
pub open spec fn pane_parts(row: Area, outline: bool, split: bool) -> Seq<Area> {
    let sizes = pane_split(outline, split);
    Seq::new(
        sizes.len(),
        |k: int| share_of(row, Axis::Across, hundredths(sizes, k), hundredths(sizes, k + 1)),
    )
}

impl Panes {
    /// Whether these are the panes of a terminal.
    pub open spec fn laid_out(self, area: Area, outline: bool, split: bool) -> bool {
        exists|rows: Seq<Area>| #[trigger]
            foot_rows_of(area, rows) && self == panes_in(
                rows,
                pane_parts(rows[0], outline, split),
                outline,
                split,
            )
    }
}

/// Divides the terminal for the page: the outline at the left and the reference
/// at the right, where they are wanted, and two lines at the foot.
#[verifier::spinoff_prover]
#[verifier::rlimit(40)]
pub fn editor_panes(area: Area, outline: bool, split: bool) -> (panes: Panes)
    ensures
        panes.laid_out(area, outline, split),
        side_of(area, Axis::Down) >= 3 ==> panes == panes_in(
            foot_rows(area),
            pane_parts(foot_rows(area)[0], outline, split),
            outline,
            split,
        ),
        panes.outline is Some == outline,
        panes.reference is Some == split,
        panes.inside(area),
{
    let sizes: Vec<PartSize> = foot_sizes();
    let rows: Vec<Area> = split_area(area, Axis::Down, &sizes);
    proof {
        reveal_with_fuel(lengths, 4);
        assert(rest_at(sizes@, 0));
        if side_of(area, Axis::Down) >= 3 {
            assert(rows@ == foot_rows(area));
        }
    }
    let parts: Vec<Area> = if outline || split {
        let shares: Vec<PartSize> = pane_sizes(outline, split);
        let parts: Vec<Area> = split_area(rows[0], Axis::Across, &shares);
        proof {
            reveal_with_fuel(hundredths, 4);
            assert(all_shares(shares@));
            assert(parts@ == pane_parts(rows@[0], outline, split));
        }
        parts
    } else {
        vec![rows[0]]
    };
    proof {
        assert(foot_rows_of(area, rows@));
    }
    arrange_panes(&rows, &parts, outline, split)
}

/// How the terminal is divided downwards for a list: its title, the list, and the
/// lines at the foot.
pub open spec fn list_split() -> Seq<PartSize> {
    seq![PartSize::Length(3), PartSize::Min(3), PartSize::Length(2)]
}

/// How the terminal is divided downwards for a list.
pub fn list_sizes() -> (sizes: Vec<PartSize>)
    ensures
        sizes@ == list_split(),
{
    let sizes: Vec<PartSize> = vec![PartSize::Length(3), PartSize::Min(3), PartSize::Length(2)];
    assert(sizes@ == list_split());
    sizes
}

/// The rows of a title, a list and the lines at its foot, where there is room for
/// them.
pub open spec fn list_rows(area: Area) -> Seq<Area> {
    let side = side_of(area, Axis::Down);
    seq![
        cells_of(area, Axis::Down, 0, 3),
        cells_of(area, Axis::Down, 3, side - 2),
        cells_of(area, Axis::Down, side - 2, side),
    ]
}

/// Whether these may be the rows of a title, a list and its foot: in a terminal of
/// fewer than eight rows, which of them are short is open.
pub open spec fn list_rows_of(area: Area, rows: Seq<Area>) -> bool {
    &&& three_rows(area, rows)
    &&& side_of(area, Axis::Down) >= 8 ==> rows == list_rows(area)
}

/// Divides the terminal for a list.
fn list_parts(area: Area) -> (rows: Vec<Area>)
    ensures
        list_rows_of(area, rows@),
{
    let sizes: Vec<PartSize> = list_sizes();
    let rows: Vec<Area> = split_area(area, Axis::Down, &sizes);
    proof {
        reveal_with_fuel(lengths, 4);
        assert(rest_at(sizes@, 1));
        if side_of(area, Axis::Down) >= 8 {
            assert(rows@ == list_rows(area));
        }
    }
    rows
}

/// The width of a bar: as many cells as it has characters.
pub open spec fn bar_width(bar: Seq<char>) -> int {
    if bar.len() > 65535 {
        65535
    } else {
        bar.len() as int
    }
}

/// How the line at the foot is divided: the keys, and a bar that is as wide as it
/// has characters.
pub open spec fn info_split(bar: Seq<char>) -> Seq<PartSize> {
    rest_and_length(1, bar_width(bar) as u16)
}

/// How the line at the foot is divided for a bar.
pub fn info_sizes(bar: &str) -> (sizes: Vec<PartSize>)
    ensures
        sizes@ == info_split(bar@),
{
    let count: usize = text::chars_of(bar).len();
    let width: u16 = if count > 65535 {
        65535
    } else {
        count as u16
    };
    let sizes: Vec<PartSize> = vec![PartSize::Min(1), PartSize::Length(width)];
    assert(sizes@ == info_split(bar@));
    sizes
}

/// The last heading, among the first `count`, at or before a cursor; -1 if there
/// is none.
pub open spec fn active_heading(
    list: Seq<outline::HeadingView>,
    cursor: int,
    count: int,
) -> int
    decreases count,
{
    if count <= 0 {
        -1
    } else if list[count - 1].0 <= cursor {
        count - 1
    } else {
        active_heading(list, cursor, count - 1)
    }
}

/// A line of the outline: the heading that the cursor is under is marked, and
/// each level is set further in.
pub open spec fn outline_line(heading: outline::HeadingView, active: bool) -> Seq<char> {
    (if active {
        "›"@
    } else {
        " "@
    }) + " "@ + wrap::spaces(2 * (heading.1 - 1)) + heading.2
}

/// The lines of the outline.
pub open spec fn outline_lines(v: AppView) -> Seq<Seq<char>> {
    let list = outline::headings(v.document.text);
    let active = active_heading(list, v.document.cursor, list.len() as int);
    Seq::new(list.len(), |i: int| outline_line(list[i], i == active))
}

/// The columns for the text of the reference.
pub open spec fn reference_width(area: Area) -> int {
    framebuffer::at_least(framebuffer::less(area.width as int, 2), 1)
}

/// The lines of the reference that find room.
pub open spec fn reference_lines(v: AppView, area: Area) -> Seq<Seq<char>> {
    let rows = wrap::rows(v.reference_text, reference_width(area));
    let room = framebuffer::less(area.height as int, 2);
    Seq::new(
        (if rows.len() < room {
            rows.len() as int
        } else {
            room
        }) as nat,
        |i: int| v.reference_text.subrange(rows[i].0, rows[i].1),
    )
}

/// What stands over the reference.
pub open spec fn reference_title(v: AppView) -> Seq<char> {
    " Reference: "@ + (match v.reference_path {
        Some(place) => status::name_or(place, "Reference"@),
        None => "Reference"@,
    }) + " "@
}

/// The columns for the text of the page.
pub open spec fn page_width(editor: Area) -> int {
    framebuffer::at_least(framebuffer::less(editor.width as int, 4), 1)
}

/// The rows for the text of the page.
pub open spec fn page_height(editor: Area) -> int {
    framebuffer::at_least(editor.height as int, 1)
}

/// A sum of cells, held at the largest number.
pub open spec fn cells(a: int, b: int) -> int {
    if a + b > u16::MAX {
        u16::MAX as int
    } else {
        a + b
    }
}

/// Where the cursor of the terminal goes.
pub open spec fn cursor_cell(v: AppView, editor: Area) -> (int, int) {
    let (row, column) = v.cursor_place(page_width(editor));
    let shown = if column > page_width(editor) {
        page_width(editor)
    } else {
        column
    };
    let x = cells(cells(editor.x as int, 2), shown);
    let y = cells(editor.y as int, framebuffer::less(row, v.scroll));
    let right = framebuffer::less(cells(editor.x as int, editor.width as int), 1);
    let bottom = framebuffer::less(cells(editor.y as int, editor.height as int), 1);
    (
        if x > right {
            right
        } else {
            x
        },
        if y > bottom {
            bottom
        } else {
            y
        },
    )
}

/// The page in a terminal.
#[derive(Debug)]
pub struct EditorScene {
    pub panes: Panes,
    /// The lines of the outline.
    pub outline: Option<Vec<String>>,
    /// The lines of the reference, and what stands over them.
    pub reference: Option<(Vec<String>, String)>,
    /// The rows in sight.
    pub lines: Vec<String>,
    /// What an empty page says.
    pub blank: Option<String>,
    pub status: String,
    /// Where the cursor goes; it is hidden under the help.
    pub cursor: Option<(u16, u16)>,
}

impl EditorScene {
    /// Whether this is what the desk shows in panes at a moment.
    pub open spec fn shows(&self, v: AppView, panes: Panes, now: int) -> bool {
        let after = v.followed(page_width(panes.editor), page_height(panes.editor));
        &&& self.panes == panes
        &&& match panes.outline {
            Some(_) => self.outline matches Some(lines) && text::views(lines@) == outline_lines(v),
            None => self.outline is None,
        }
        &&& match panes.reference {
            Some(area) => self.reference matches Some(found) && text::views(found.0@)
                == reference_lines(v, area) && found.1@ == reference_title(v),
            None => self.reference is None,
        }
        &&& text::views(self.lines@) == after.page_lines(
            page_width(panes.editor),
            page_height(panes.editor),
        )
        &&& if v.document.text.len() == 0 {
            self.blank matches Some(words) && words@ == status::blank_words(v.path)
        } else {
            self.blank is None
        }
        &&& self.status@ == wrap::truncated(
            status::full_status(v, now),
            panes.status.width as int,
        )
        &&& if v.help_visible {
            self.cursor is None
        } else {
            self.cursor matches Some(place) && (place.0 as int, place.1 as int) == cursor_cell(
                after,
                panes.editor,
            )
        }
    }
}

/// A line of the list of notes: a star for a pinned one, and its name; in the
/// projects, the way to it.
pub open spec fn note_line(v: AppView, place: path::PathView) -> Seq<char> {
    let projects = shelf::category_folder(v.directory, shelf::PROJECTS_CATEGORY_INDEX as int);
    (if v.pinned.contains(place) {
        "★ "@
    } else {
        "  "@
    }) + (if v.category_index == shelf::PROJECTS_CATEGORY_INDEX {
        if place.below(projects) {
            path::slashed(stemmed(place.parts.skip(projects.parts.len() as int)))
        } else {
            place.root + path::slashed(stemmed(place.parts))
        }
    } else {
        scene::listed_name(place)
    })
}

/// Names with the extension of the last one left out.
pub open spec fn stemmed(parts: Seq<Seq<char>>) -> Seq<Seq<char>> {
    if parts.len() == 0 {
        parts
    } else {
        parts.drop_last().push(path::stem_of(parts.last()))
    }
}

/// The entries of a list, each with its lines.
pub open spec fn entry_lines(v: AppView) -> Seq<Seq<Seq<char>>> {
    if v.screen == Screen::Categories {
        Seq::new(
            shelf::CATEGORY_COUNT as nat,
            |i: int| seq!["  "@ + text::uppercase(shelf::category_title(i)), ""@],
        )
    } else if v.documents.len() == 0 {
        seq![seq!["  No writing yet — Enter creates one"@]]
    } else {
        Seq::new(v.documents.len(), |i: int| seq![note_line(v, v.documents[i])])
    }
}

/// The keys named under a list.
pub open spec fn browser_keys(v: AppView) -> Seq<char> {
    if v.screen == Screen::Categories {
        if v.category_index == shelf::SECRET_CATEGORY_INDEX {
            " ↑↓ choose · Enter unlock · F5 theme · F7/F8 size on Pi · app lock only "@
        } else {
            " ↑↓ choose · Enter open · F5 theme · F7/F8 size on Pi · Ctrl+Q quit "@
        }
    } else if v.category_index == shelf::PROJECTS_CATEGORY_INDEX {
        " ↑↓ open · j book · c chapter · e export · v reference · / search · p pin "@
    } else {
        " ↑↓ open · v reference · / search · p pin · r rename · m move · a archive · d trash "@
    }
}

/// A list in a terminal.
#[derive(Debug)]
pub struct BrowserScene {
    pub title_area: Area,
    pub title: String,
    pub list_area: Area,
    pub entries: Vec<Vec<String>>,
    pub selected: usize,
}

/// Entries as sequences of characters.
pub open spec fn entry_views(entries: Seq<Vec<String>>) -> Seq<Seq<Seq<char>>> {
    entries.map_values(|lines: Vec<String>| text::views(lines@))
}

/// The names of the shelves as they are listed, in capitals.
pub open spec fn shelf_lines() -> Seq<Seq<Seq<char>>> {
    Seq::new(
        shelf::CATEGORY_COUNT as nat,
        |i: int| seq!["  "@ + text::ascii_uppered(shelf::category_title(i)), ""@],
    )
}

impl BrowserScene {
    /// Whether this is the list that the desk shows.
    pub open spec fn shows(&self, v: AppView) -> bool {
        &&& v.screen == Screen::Categories ==> entry_views(self.entries@) == shelf_lines()
        &&& self.title@ == scene::list_title(v)
        &&& entry_views(self.entries@) == entry_lines(v)
        &&& self.selected == scene::chosen_entry(v)
    }
}

/// The lines of the help.
pub open spec fn help_lines() -> Seq<Seq<char>> {
    seq![
        "QuietWrite keys"@,
        ""@,
        "Ctrl+S   Save"@,
        "Ctrl+N   New note"@,
        "Ctrl+Z/Y Undo / redo"@,
        "Ctrl+R   Restore previous version"@,
        "Ctrl+F   Find in draft · F3 next"@,
        "F4       Start / stop 25m sprint"@,
        "Ctrl+G   Set word target"@,
        "Ctrl+Q   Save and quit"@,
        "F2       Browse shelves"@,
        "F5       Change theme"@,
        "F9       Toggle outline"@,
        "F10      Toggle reference split"@,
        "Ctrl+↑/↓ Previous / next heading"@,
        "F1 / Esc Close help"@,
    ]
}

/// A window over the rest: where it lies, its title, and its lines.
#[derive(Debug)]
pub struct Popup {
    pub area: Area,
    pub title: String,
    pub lines: Vec<String>,
}

impl Popup {
    /// Whether this is the window that asks a question.
    pub open spec fn asks(&self, v: AppView, prompt: TextPrompt) -> bool {
        &&& self.title@ == " "@ + scene::prompt_heading(prompt) + " "@
        &&& text::views(self.lines@) == seq![
            ""@,
            "  "@ + v.prompt_input + "_"@,
            ""@,
            "  Enter confirm · Esc cancel"@,
        ]
    }

    /// Whether this is the window that asks for a password.
    pub open spec fn asks_password(&self, v: AppView, prompt: LockPrompt) -> bool {
        &&& self.title@ == " "@ + scene::lock_heading(prompt) + " "@
        &&& text::views(self.lines@) == seq![
            ""@,
            scene::repeated('•', v.password_input.len()),
            ""@,
            v.message,
            ""@,
            "Enter continue · Esc cancel"@,
        ]
    }

    /// Whether this is the help.
    pub open spec fn helps(&self) -> bool {
        &&& self.title@ == " Help "@
        &&& text::views(self.lines@) == help_lines()
    }
}

/// The line with the keys at its left and the bar at its right.
#[derive(Debug)]
pub struct InfoLine {
    pub keys_area: Area,
    pub keys: String,
    pub bar_area: Area,
    pub bar: String,
}

impl InfoLine {
    /// Whether the keys and the bar share an area: the bar at its right, as wide
    /// as its text, but for the one cell that the keys keep.
    pub open spec fn lies_in(&self, area: Area) -> bool {
        let side = side_of(area, Axis::Across);
        let rest = rest_cells(1, bar_width(self.bar@), side);
        &&& self.keys_area == cells_of(area, Axis::Across, 0, rest)
        &&& self.bar_area == cells_of(area, Axis::Across, rest, side)
    }
}

/// All that a terminal shows.
#[derive(Debug)]
pub struct TuiScene {
    pub editor: Option<EditorScene>,
    pub browser: Option<BrowserScene>,
    pub info: InfoLine,
    pub help: Option<Popup>,
    pub password: Option<Popup>,
    pub question: Option<Popup>,
}

fn less_cells(a: u16, b: u16) -> (difference: u16)
    ensures
        difference == framebuffer::less(a as int, b as int),
{
    if a > b {
        a - b
    } else {
        0
    }
}

fn sum_cells(a: u16, b: u16) -> (sum: u16)
    ensures
        sum == cells(a as int, b as int),
{
    if b > u16::MAX - a {
        u16::MAX
    } else {
        a + b
    }
}

fn smaller(a: u16, b: u16) -> (least: u16)
    ensures
        least == (if a > b {
            b
        } else {
            a
        }),
{
    if a > b {
        b
    } else {
        a
    }
}

fn push_line(lines: &mut Vec<String>, line: &str)
    ensures
        text::views(final(lines)@) == text::views(old(lines)@).push(line@),
{
    lines.push(text::owned(line));
    assert(text::views(lines@) == text::views(old(lines)@).push(line@));
}

impl App {
    fn outline_text(&self) -> (lines: Vec<String>)
        ensures
            text::views(lines@) == outline_lines(self@),
    {
        let found: Vec<(usize, usize, String)> = self.headings();
        let ghost list = outline::headings(self@.document.text);
        let ghost all = outline_lines(self@);
        assert(outline::heading_views(found@).len() == found@.len());
        let mut count: usize = found.len();
        while count > 0 && found[count - 1].0 > self.document.cursor
            invariant
                count <= found@.len(),
                list == outline::heading_views(found@),
                active_heading(list, self.document.cursor as int, count as int)
                    == active_heading(list, self.document.cursor as int, list.len() as int),
            decreases count,
        {
            assert(list[count - 1].0 == found@[count - 1].0);
            count -= 1;
        }
        proof {
            if count > 0 {
                assert(list[count - 1].0 == found@[count - 1].0);
            }
        }
        let ghost active = active_heading(
            list,
            self@.document.cursor,
            list.len() as int,
        );
        assert(active == count - 1);
        let mut lines: Vec<String> = Vec::new();
        let mut i: usize = 0;
        assert(text::views(lines@) == all.take(0));
        while i < found.len()
            invariant
                i <= found@.len(),
                list == outline::headings(self@.document.text),
                list == outline::heading_views(found@),
                all == outline_lines(self@),
                active == count - 1,
                active == active_heading(list, self@.document.cursor, list.len() as int),
                text::views(lines@) == all.take(i as int),
            decreases found@.len() - i,
        {
            proof {
                assert(list[i as int] == outline::heading_view(found@[i as int]));
                outline::law_headings_stand_in_the_text(self@.document.text, i as int);
            }
            let mut line: String = if i + 1 == count {
                text::owned("›")
            } else {
                text::owned(" ")
            };
            line.append(" ");
            wrap::push_spaces(&mut line, 2 * (found[i].1 - 1));
            line.append(found[i].2.as_str());
            push_line(&mut lines, line.as_str());
            proof {
                assert(all[i as int] == outline_line(list[i as int], i == active));
                assert(all[i as int] == line@);
                assert(all.take(i + 1) == all.take(i as int).push(line@));
            }
            i += 1;
        }
        assert(all.take(all.len() as int) == all);
        lines
    }

    fn reference_text_lines(&self, area: Area) -> (lines: Vec<String>)
        ensures
            text::views(lines@) == reference_lines(self@, area),
    {
        let width: usize = {
            let inner: u16 = less_cells(area.width, 2);
            if inner < 1 {
                1
            } else {
                inner as usize
            }
        };
        let ranges: Vec<(usize, usize)> = wrap::wrapped_ranges(
            self.reference_text.as_slice(),
            width,
        );
        let ghost rows = wrap::rows(self@.reference_text, reference_width(area));
        let ghost all = reference_lines(self@, area);
        let room: usize = less_cells(area.height, 2) as usize;
        let count: usize = if ranges.len() < room {
            ranges.len()
        } else {
            room
        };
        proof {
            assert(wrap::places(ranges@).len() == ranges@.len());
            wrap::lemma_rows(self@.reference_text, width as int, 0);
        }
        let mut lines: Vec<String> = Vec::new();
        let mut i: usize = 0;
        assert(text::views(lines@) == all.take(0));
        while i < count
            invariant
                i <= count <= ranges@.len(),
                count == all.len(),
                rows == wrap::places(ranges@),
                rows == wrap::rows(self@.reference_text, reference_width(area)),
                all == reference_lines(self@, area),
                forall|k: int|
                    0 <= k < rows.len() ==> 0 <= (#[trigger] rows[k]).0 <= rows[k].1
                        <= self@.reference_text.len(),
                text::views(lines@) == all.take(i as int),
            decreases count - i,
        {
            let (start, end): (usize, usize) = ranges[i];
            assert(rows[i as int] == (start as int, end as int));
            let line: String = text::string_of(
                text::chars_between(self.reference_text.as_slice(), start, end).as_slice(),
            );
            push_line(&mut lines, line.as_str());
            proof {
                assert(all[i as int] == line@);
                assert(all.take(i + 1) == all.take(i as int).push(line@));
            }
            i += 1;
        }
        assert(all.take(all.len() as int) == all);
        lines
    }

    fn reference_heading(&self) -> (title: String)
        ensures
            title@ == reference_title(self@),
    {
        let mut title: String = text::owned(" Reference: ");
        match &self.reference_path {
            Some(place) => {
                title.append(status::file_name_or(place, "Reference").as_str());
            },
            None => {
                title.append("Reference");
            },
        }
        title.append(" ");
        title
    }

    fn terminal_cursor(&self, page: &Page, editor: Area, width: usize) -> (place: (u16, u16))
        requires
            self@.wf(),
            width == page_width(editor),
            page.shows(self@, width as int),
            self.scroll <= page.row < self.scroll + page_height(editor),
        ensures
            (place.0 as int, place.1 as int) == cursor_cell(self@, editor),
    {
        let shown: usize = if page.column > width {
            width
        } else {
            page.column
        };
        let below: usize = page.row - self.scroll;
        let x: u16 = sum_cells(sum_cells(editor.x, 2), shown as u16);
        let y: u16 = sum_cells(editor.y, below as u16);
        let right: u16 = less_cells(sum_cells(editor.x, editor.width), 1);
        let bottom: u16 = less_cells(sum_cells(editor.y, editor.height), 1);
        (smaller(x, right), smaller(y, bottom))
    }

    /// The page in given panes.
    pub fn editor_scene(&mut self, panes: Panes, now: u64) -> (scene: EditorScene)
        requires
            old(self)@.wf(),
        ensures
            scene.shows(old(self)@, panes, now as int),
            final(self)@ == old(self)@.followed(
                page_width(panes.editor),
                page_height(panes.editor),
            ),
            final(self)@.wf(),
    {
        let outline: Option<Vec<String>> = match panes.outline {
            Some(_) => Some(self.outline_text()),
            None => None,
        };
        let reference: Option<(Vec<String>, String)> = match panes.reference {
            Some(area) => Some((self.reference_text_lines(area), self.reference_heading())),
            None => None,
        };
        let width: usize = {
            let inner: u16 = less_cells(panes.editor.width, 4);
            if inner < 1 {
                1
            } else {
                inner as usize
            }
        };
        let height: usize = if panes.editor.height < 1 {
            1
        } else {
            panes.editor.height as usize
        };
        let status: String = wrap::truncate(
            self.full_status_text(now).as_str(),
            panes.status.width as usize,
        );
        let blank: Option<String> = if self.document.text.len() == 0 {
            Some(text::owned(status::blank_prompt(&self.path)))
        } else {
            None
        };
        let page: Page = self.follow_cursor(width, height);
        let lines: Vec<String> = self.lines_in_sight(&page, width, height);
        let cursor: Option<(u16, u16)> = if self.help_visible {
            None
        } else {
            Some(self.terminal_cursor(&page, panes.editor, width))
        };
        EditorScene { panes, outline, reference, lines, blank, status, cursor }
    }

    fn note_text(&self, place: &NotePath) -> (line: String)
        ensures
            line@ == note_line(self@, place@),
    {
        let found: Option<usize> = handle::position_of(&self.pinned, place);
        proof {
            if let Some(p) = found {
                assert(self@.pinned[p as int] == place@);
            }
        }
        let mut line: String = if found.is_some() {
            text::owned("★ ")
        } else {
            text::owned("  ")
        };
        if self.category_index == shelf::PROJECTS_CATEGORY_INDEX {
            let projects: NotePath = self.category_directory(shelf::PROJECTS_CATEGORY_INDEX);
            if place.starts_with(&projects) {
                line.append(stemmed_text(place, projects.parts.len()).as_str());
            } else {
                let mut whole: String = text::owned(place.root.as_str());
                whole.append(stemmed_text(place, 0).as_str());
                assert(place@.parts.skip(0) == place@.parts);
                line.append(whole.as_str());
            }
        } else {
            match place.file_name() {
                Some(name) => {
                    line.append(path::file_stem(name.as_str()).as_str());
                },
                None => {
                    line.append("Untitled");
                },
            }
        }
        line
    }

    fn category_entries() -> (entries: Vec<Vec<String>>)
        ensures
            entry_views(entries@) == shelf_lines(),
            entry_views(entries@) == Seq::new(
                shelf::CATEGORY_COUNT as nat,
                |i: int| seq!["  "@ + text::uppercase(shelf::category_title(i)), ""@],
            ),
    {
        let ghost all = Seq::new(
            shelf::CATEGORY_COUNT as nat,
            |i: int| seq!["  "@ + text::uppercase(shelf::category_title(i)), ""@],
        );
        let mut entries: Vec<Vec<String>> = Vec::new();
        let mut i: usize = 0;
        assert(entry_views(entries@) == all.take(0));
        assert(entry_views(entries@) == shelf_lines().take(0));
        while i < shelf::CATEGORY_COUNT
            invariant
                i <= shelf::CATEGORY_COUNT,
                all == Seq::new(
                    shelf::CATEGORY_COUNT as nat,
                    |i: int| seq!["  "@ + text::uppercase(shelf::category_title(i)), ""@],
                ),
                entry_views(entries@) == all.take(i as int),
                entry_views(entries@) == shelf_lines().take(i as int),
            decreases shelf::CATEGORY_COUNT - i,
        {
            let ghost before = entries@;
            proof {
                shelf::lemma_titles_are_ascii(i as int);
            }
            let mut name: String = text::owned("  ");
            name.append(text::to_uppercase(shelf::category_name(i)).as_str());
            let mut lines: Vec<String> = Vec::new();
            push_line(&mut lines, name.as_str());
            push_line(&mut lines, "");
            entries.push(lines);
            proof {
                assert(text::views(lines@) == seq![
                    "  "@ + text::uppercase(shelf::category_title(i as int)),
                    ""@,
                ]);
                assert(entry_views(entries@) == entry_views(before).push(text::views(lines@)));
                assert(all[i as int] == text::views(lines@));
                assert(all.take(i + 1) == all.take(i as int).push(text::views(lines@)));
                assert(shelf_lines()[i as int] == text::views(lines@));
                assert(shelf_lines().take(i + 1) == shelf_lines().take(i as int).push(
                    text::views(lines@),
                ));
            }
            i += 1;
        }
        assert(all.take(all.len() as int) == all);
        assert(shelf_lines().take(shelf_lines().len() as int) == shelf_lines());
        entries
    }

    /// The entries of the list, each with its lines.
    pub fn entry_texts(&self) -> (entries: Vec<Vec<String>>)
        ensures
            entry_views(entries@) == entry_lines(self@),
            self@.screen == Screen::Categories ==> entry_views(entries@) == shelf_lines(),
    {
        if self.screen == Screen::Categories {
            return App::category_entries();
        }
        let mut entries: Vec<Vec<String>> = Vec::new();
        let ghost all = entry_lines(self@);
        if self.documents.len() == 0 {
            let mut lines: Vec<String> = Vec::new();
            push_line(&mut lines, "  No writing yet — Enter creates one");
            entries.push(lines);
            proof {
                assert(text::views(lines@) == seq!["  No writing yet — Enter creates one"@]);
                assert(entry_views(entries@) == all);
            }
            return entries;
        }
        let mut i: usize = 0;
        assert(entry_views(entries@) == all.take(0));
        while i < self.documents.len()
            invariant
                i <= self.documents@.len(),
                all == Seq::new(
                    self@.documents.len(),
                    |k: int| seq![note_line(self@, self@.documents[k])],
                ),
                entry_views(entries@) == all.take(i as int),
            decreases self.documents@.len() - i,
        {
            let ghost before = entries@;
            let line: String = self.note_text(&self.documents[i]);
            let mut lines: Vec<String> = Vec::new();
            push_line(&mut lines, line.as_str());
            entries.push(lines);
            proof {
                assert(self@.documents[i as int] == self.documents@[i as int]@);
                assert(text::views(lines@) == seq![line@]);
                assert(entry_views(entries@) == entry_views(before).push(text::views(lines@)));
                assert(all[i as int] == text::views(lines@));
                assert(all.take(i + 1) == all.take(i as int).push(text::views(lines@)));
            }
            i += 1;
        }
        assert(all.take(all.len() as int) == all);
        entries
    }

    /// The keys named under the list.
    pub fn browser_footer(&self) -> (keys: &'static str)
        ensures
            keys@ == browser_keys(self@),
    {
        if self.screen == Screen::Categories {
            if self.category_index == shelf::SECRET_CATEGORY_INDEX {
                " ↑↓ choose · Enter unlock · F5 theme · F7/F8 size on Pi · app lock only "
            } else {
                " ↑↓ choose · Enter open · F5 theme · F7/F8 size on Pi · Ctrl+Q quit "
            }
        } else if self.category_index == shelf::PROJECTS_CATEGORY_INDEX {
            " ↑↓ open · j book · c chapter · e export · v reference · / search · p pin "
        } else {
            " ↑↓ open · v reference · / search · p pin · r rename · m move · a archive · d trash "
        }
    }

    /// The list in given areas.
    pub fn draw_tui_browser(&self, title_area: Area, list_area: Area) -> (scene: BrowserScene)
        ensures
            scene.shows(self@),
            scene.title_area == title_area,
            scene.list_area == list_area,
    {
        BrowserScene {
            title_area,
            title: text::owned(self.list_heading()),
            list_area,
            entries: self.entry_texts(),
            selected: self.chosen(),
        }
    }

    /// The window that asks a question, in a given area.
    pub fn draw_text_prompt(&self, area: Area, prompt: TextPrompt) -> (popup: Popup)
        ensures
            popup.asks(self@, prompt),
            popup.area == area,
    {
        let mut title: String = text::owned(" ");
        title.append(scene::prompt_title(prompt));
        title.append(" ");
        let mut answer: String = text::owned("  ");
        answer.append(self.prompt_input.as_str());
        answer.append("_");
        let mut lines: Vec<String> = Vec::new();
        push_line(&mut lines, "");
        push_line(&mut lines, answer.as_str());
        push_line(&mut lines, "");
        push_line(&mut lines, "  Enter confirm · Esc cancel");
        assert(text::views(lines@) == seq![
            ""@,
            "  "@ + self@.prompt_input + "_"@,
            ""@,
            "  Enter confirm · Esc cancel"@,
        ]);
        Popup { area, title, lines }
    }

    /// The window that asks for a password, in a given area.
    pub fn draw_lock_prompt(&self, area: Area, prompt: LockPrompt) -> (popup: Popup)
        ensures
            popup.asks_password(self@, prompt),
            popup.area == area,
    {
        let mut title: String = text::owned(" ");
        title.append(scene::lock_title(prompt));
        title.append(" ");
        let bullets: String = bullets(text::chars_of(self.password_input.as_str()).len());
        let mut lines: Vec<String> = Vec::new();
        push_line(&mut lines, "");
        push_line(&mut lines, bullets.as_str());
        push_line(&mut lines, "");
        push_line(&mut lines, self.message.as_str());
        push_line(&mut lines, "");
        push_line(&mut lines, "Enter continue · Esc cancel");
        assert(text::views(lines@) == seq![
            ""@,
            scene::repeated('•', self@.password_input.len()),
            ""@,
            self@.message,
            ""@,
            "Enter continue · Esc cancel"@,
        ]);
        Popup { area, title, lines }
    }

    /// The line at the foot of a given area: the keys, and the bar.
    fn draw_info_bar(&self, keys: &str, area: Area) -> (line: InfoLine)
        ensures
            line.keys@ == keys@,
            line.lies_in(area),
            exists|time: Seq<char>|
                status::is_time(time) && line.bar@ == " "@ + #[trigger] status::info_words(
                    time,
                    self@.network_status,
                ) + " "@,
    {
        let mut bar: String = text::owned(" ");
        bar.append(self.info_bar().as_str());
        bar.append(" ");
        let parts: Vec<Area> = split_area(area, Axis::Across, &info_sizes(bar.as_str()));
        InfoLine { keys_area: parts[0], keys: text::owned(keys), bar_area: parts[1], bar }
    }

    /// Draws the terminal.
    pub fn draw_tui(&mut self, area: Area, now: u64) -> (scene: TuiScene)
        requires
            old(self)@.wf(),
        ensures
            if old(self)@.screen == Screen::Editor {
                &&& scene.browser is None
                &&& scene.password is None
                &&& scene.editor matches Some(editor) && editor.panes.outline is Some
                    == old(self)@.outline_visible && editor.panes.reference is Some
                    == old(self)@.split_visible && editor.shows(
                    old(self)@,
                    editor.panes,
                    now as int,
                ) && final(self)@ == old(self)@.followed(
                    page_width(editor.panes.editor),
                    page_height(editor.panes.editor),
                )
                &&& scene.editor->0.panes.inside(area)
                &&& scene.editor->0.panes.laid_out(
                    area,
                    old(self)@.outline_visible,
                    old(self)@.split_visible,
                )
                &&& scene.info.lies_in(scene.editor->0.panes.info)
                &&& scene.info.keys@
                    == " F1 help · F2 browse · F9 outline · F10 split · Ctrl+↑/↓ headings · Ctrl+S save "@
            } else {
                &&& scene.editor is None
                &&& scene.browser matches Some(browser) && browser.shows(old(self)@)
                &&& exists|rows: Seq<Area>| #[trigger]
                    list_rows_of(area, rows) && scene.browser->0.title_area == rows[0]
                        && scene.browser->0.list_area == rows[1] && scene.info.lies_in(rows[2])
                &&& scene.info.keys@ == browser_keys(old(self)@)
                &&& scene.password is Some == old(self)@.lock_prompt is Some
                &&& scene.password matches Some(popup) ==> popup.asks_password(
                    old(self)@,
                    old(self)@.lock_prompt->0,
                ) && popup.area == centered_in(area, 60, 35) && popup.area.inside(area)
                &&& final(self)@ == old(self)@
            },
            exists|time: Seq<char>|
                status::is_time(time) && scene.info.bar@ == " "@ + #[trigger] status::info_words(
                    time,
                    old(self)@.network_status,
                ) + " "@,
            scene.help is Some == old(self)@.help_visible,
            scene.help matches Some(popup) ==> popup.helps() && popup.area == centered_in(
                area,
                64,
                70,
            ) && popup.area.inside(area),
            scene.question is Some == old(self)@.text_prompt is Some,
            scene.question matches Some(popup) ==> popup.asks(
                old(self)@,
                old(self)@.text_prompt->0,
            ) && popup.area == centered_in(area, 64, 22) && popup.area.inside(area),
            final(self)@.wf(),
    {
        let question: Option<Popup> = match self.text_prompt {
            Some(prompt) => Some(self.draw_text_prompt(centered_rect(64, 22, area), prompt)),
            None => None,
        };
        let help: Option<Popup> = if self.help_visible {
            Some(draw_help(centered_rect(64, 70, area)))
        } else {
            None
        };
        if self.screen != Screen::Editor {
            let rows: Vec<Area> = list_parts(area);
            assert(list_rows_of(area, rows@));
            let password: Option<Popup> = match self.lock_prompt {
                Some(prompt) => Some(self.draw_lock_prompt(centered_rect(60, 35, area), prompt)),
                None => None,
            };
            return TuiScene {
                editor: None,
                browser: Some(self.draw_tui_browser(rows[0], rows[1])),
                info: self.draw_info_bar(self.browser_footer(), rows[2]),
                help,
                password,
                question,
            };
        }
        let panes: Panes = editor_panes(area, self.outline_visible, self.split_visible);
        let info: InfoLine = self.draw_info_bar(
            " F1 help · F2 browse · F9 outline · F10 split · Ctrl+↑/↓ headings · Ctrl+S save ",
            panes.info,
        );
        let editor: EditorScene = self.editor_scene(panes, now);
        TuiScene { editor: Some(editor), browser: None, info, help, password: None, question }
    }
}

fn bullets(count: usize) -> (row: String)
    ensures
        row@ == scene::repeated('•', count as nat),
{
    let mut row = String::new();
    let mut i: usize = 0;
    assert(row@ == scene::repeated('•', 0));
    while i < count
        invariant
            i <= count,
            row@ == scene::repeated('•', i as nat),
        decreases count - i,
    {
        row.push('•');
        i += 1;
        assert(row@ == scene::repeated('•', i as nat));
    }
    row
}

/// The names of a path from `from` on, the extension of the last one left out.
fn stemmed_text(place: &NotePath, from: usize) -> (shown: String)
    requires
        from <= place@.parts.len(),
    ensures
        shown@ == path::slashed(stemmed(place@.parts.skip(from as int))),
{
    let mut names: Vec<String> = Vec::new();
    let ghost parts = place@.parts.skip(from as int);
    let ghost all = stemmed(parts);
    assert(place@.parts.len() == place.parts@.len());
    let mut i: usize = from;
    assert(text::views(names@) == all.take(0));
    while i < place.parts.len()
        invariant
            from <= i <= place.parts@.len(),
            place@.parts.len() == place.parts@.len(),
            parts == place@.parts.skip(from as int),
            all == stemmed(parts),
            text::views(names@) == all.take(i - from),
        decreases place.parts@.len() - i,
    {
        assert(parts[i - from] == place.parts@[i as int]@);
        let name: String = if i + 1 == place.parts.len() {
            path::file_stem(place.parts[i].as_str())
        } else {
            text::owned(place.parts[i].as_str())
        };
        push_line(&mut names, name.as_str());
        proof {
            assert(all[i - from] == name@);
            assert(all.take(i + 1 - from) == all.take(i - from).push(name@));
        }
        i += 1;
    }
    assert(all.take(all.len() as int) == all);
    assert(text::views(names@).skip(0) == text::views(names@));
    path::join_with_slashes(&names, 0)
}

/// The help, in a given area.
fn draw_help(area: Area) -> (popup: Popup)
    ensures
        popup.helps(),
        popup.area == area,
{
    let mut lines: Vec<String> = Vec::new();
    push_line(&mut lines, "QuietWrite keys");
    push_line(&mut lines, "");
    push_line(&mut lines, "Ctrl+S   Save");
    push_line(&mut lines, "Ctrl+N   New note");
    push_line(&mut lines, "Ctrl+Z/Y Undo / redo");
    push_line(&mut lines, "Ctrl+R   Restore previous version");
    push_line(&mut lines, "Ctrl+F   Find in draft · F3 next");
    push_line(&mut lines, "F4       Start / stop 25m sprint");
    push_line(&mut lines, "Ctrl+G   Set word target");
    push_line(&mut lines, "Ctrl+Q   Save and quit");
    push_line(&mut lines, "F2       Browse shelves");
    push_line(&mut lines, "F5       Change theme");
    push_line(&mut lines, "F9       Toggle outline");
    push_line(&mut lines, "F10      Toggle reference split");
    push_line(&mut lines, "Ctrl+↑/↓ Previous / next heading");
    push_line(&mut lines, "F1 / Esc Close help");
    assert(text::views(lines@) == help_lines());
    Popup { area, title: text::owned(" Help "), lines }
}

/// A share of a side ends at the cell that is nearest to where it would end if
/// cells could be divided; no share begins at the start and the whole ends at the
/// end.
pub proof fn law_shares_are_rounded_to_cells(start: int, length: int, share: int)
    requires
        0 <= start <= 65535,
        0 <= length,
        start + length <= 65535,
        0 <= share <= 100,
    ensures
        share_end(start, length, 0) == start,
        share_end(start, length, 100) == start + length,
        ({
            let exact = 100 * start + share * length;
            let end = share_end(start, length, share);
            exact - 50 <= 100 * end <= exact + 50
        }),
{
    let exact = 100 * start + share * length;
    assert(share_end(start, length, share) == (exact + 50) / 100);
    assert(share_end(start, length, 0) == (100 * start + 50) / 100) by {
        assert(0 * length == 0);
    }
    assert(share_end(start, length, 100) == (100 * start + 100 * length + 50) / 100);
}

proof fn lemma_ends_grow(start: int, length: int, a: int, b: int)
    requires
        0 <= length,
        0 <= start,
        start + length <= 65535,
        a <= b,
    ensures
        share_end(start, length, a) <= share_end(start, length, b),
{
    assert(a * length <= b * length) by (nonlinear_arith)
        requires
            a <= b,
            0 <= length,
    ;
}

/// The panes beside each other fill the page from its left to its right: each
/// begins where the one before it ends. The outline takes a good quarter, a bit
/// less beside a reference; the page and the reference share the rest alike.
pub proof fn law_panes_fill_the_page(row: Area, outline: bool, split: bool)
    requires
        row.x + row.width <= 65535,
    ensures
        ({
            let parts = pane_parts(row, outline, split);
            let w = row.width as int;
            &&& outline && split ==> {
                &&& parts.len() == 3
                &&& parts[0].x == row.x
                &&& parts[0].x + parts[0].width == parts[1].x
                &&& parts[1].x + parts[1].width == parts[2].x
                &&& parts[2].x + parts[2].width == row.x + row.width
                &&& 24 * w - 50 <= 100 * parts[0].width <= 24 * w + 50
                &&& 62 * w - 50 <= 100 * (parts[0].width + parts[1].width) <= 62 * w + 50
            }
            &&& outline && !split ==> {
                &&& parts.len() == 2
                &&& parts[0].x == row.x
                &&& parts[0].x + parts[0].width == parts[1].x
                &&& parts[1].x + parts[1].width == row.x + row.width
                &&& 28 * w - 50 <= 100 * parts[0].width <= 28 * w + 50
            }
            &&& !outline && split ==> {
                &&& parts.len() == 2
                &&& parts[0].x == row.x
                &&& parts[0].x + parts[0].width == parts[1].x
                &&& parts[1].x + parts[1].width == row.x + row.width
                &&& 50 * w - 50 <= 100 * parts[0].width <= 50 * w + 50
            }
        }),
        forall|k: int|
            0 <= k < pane_parts(row, outline, split).len() ==> (#[trigger] pane_parts(
                row,
                outline,
                split,
            )[k]).y == row.y && pane_parts(row, outline, split)[k].height == row.height,
{
    reveal_with_fuel(hundredths, 4);
    let sizes = pane_split(outline, split);
    let x = row.x as int;
    let w = row.width as int;
    assert(hundredths(sizes, 0) == 0);
    if outline && split {
        assert(hundredths(sizes, 1) == 24 && hundredths(sizes, 2) == 62 && hundredths(sizes, 3)
            == 100);
    } else if outline {
        assert(hundredths(sizes, 1) == 28 && hundredths(sizes, 2) == 100);
    } else if split {
        assert(hundredths(sizes, 1) == 50 && hundredths(sizes, 2) == 100);
    }
    law_shares_are_rounded_to_cells(x, w, 24);
    law_shares_are_rounded_to_cells(x, w, 62);
    law_shares_are_rounded_to_cells(x, w, 28);
    law_shares_are_rounded_to_cells(x, w, 50);
    lemma_ends_grow(x, w, 0, 24);
    lemma_ends_grow(x, w, 24, 62);
    lemma_ends_grow(x, w, 62, 100);
    lemma_ends_grow(x, w, 0, 28);
    lemma_ends_grow(x, w, 28, 100);
    lemma_ends_grow(x, w, 0, 50);
    lemma_ends_grow(x, w, 50, 100);
}

/// Where the panes lie: the outline at the left, the reference at the right, the
/// page between them, and the two lines under them all.
pub proof fn law_panes_have_their_places(
    rows: Seq<Area>,
    parts: Seq<Area>,
    outline: bool,
    split: bool,
)
    requires
        parts.len() == pane_split(outline, split).len(),
    ensures
        ({
            let panes = panes_in(rows, parts, outline, split);
            &&& panes.outline is Some <==> outline
            &&& panes.reference is Some <==> split
            &&& outline ==> panes.outline == Some(parts[0]) && panes.editor == parts[1]
            &&& !outline && split ==> panes.editor == parts[0]
            &&& !outline && !split ==> panes.editor == rows[0]
            &&& outline && split ==> panes.reference == Some(parts[2])
            &&& !outline && split ==> panes.reference == Some(parts[1])
            &&& panes.status == rows[1]
            &&& panes.info == rows[2]
        }),
{
}

/// The page has all rows of the terminal but two; these are the line that tells of
/// the text and, last, the line with the keys. A list has three rows over it for
/// its title and two under it.
pub proof fn law_the_terminal_is_divided_downwards(area: Area)
    requires
        area.y + area.height <= 65535,
        area.height >= 8,
    ensures
        ({
            let rows = foot_rows(area);
            &&& rows.len() == 3
            &&& rows[0] == (Area { height: (area.height - 2) as u16, ..area })
            &&& rows[1] == (Area {
                y: (area.y + area.height - 2) as u16,
                height: 1,
                ..area
            })
            &&& rows[2] == (Area {
                y: (area.y + area.height - 1) as u16,
                height: 1,
                ..area
            })
        }),
        ({
            let rows = list_rows(area);
            &&& rows.len() == 3
            &&& rows[0] == (Area { height: 3, ..area })
            &&& rows[1] == (Area {
                y: (area.y + 3) as u16,
                height: (area.height - 5) as u16,
                ..area
            })
            &&& rows[2] == (Area {
                y: (area.y + area.height - 2) as u16,
                height: 2,
                ..area
            })
        }),
{
}

/// A window in the middle takes its hundredths of the terminal and leaves as much
/// free before it as behind, but for the rounding to cells.
pub proof fn law_windows_lie_in_the_middle(area: Area, width: int, height: int)
    requires
        area.x + area.width <= 65535,
        area.y + area.height <= 65535,
        0 <= width <= 100,
        0 <= height <= 100,
        width % 2 == 0,
        height % 2 == 0,
    ensures
        ({
            let part = centered_in(area, width, height);
            let left = 100 * (part.x - area.x);
            let right = 100 * (area.x + area.width - part.x - part.width);
            let top = 100 * (part.y - area.y);
            let bottom = 100 * (area.y + area.height - part.y - part.height);
            &&& -100 <= 100 * part.width - width * area.width <= 100
            &&& -100 <= 100 * part.height - height * area.height <= 100
            &&& -100 <= left - right <= 100
            &&& -100 <= top - bottom <= 100
        }),
{
    let a = (100 - height) / 2;
    let b = (100 - width) / 2;
    let x = area.x as int;
    let y = area.y as int;
    let w = area.width as int;
    let h = area.height as int;
    law_shares_are_rounded_to_cells(y, h, a);
    law_shares_are_rounded_to_cells(y, h, a + height);
    law_shares_are_rounded_to_cells(x, w, b);
    law_shares_are_rounded_to_cells(x, w, b + width);
    lemma_ends_grow(y, h, 0, a);
    lemma_ends_grow(y, h, a, a + height);
    lemma_ends_grow(y, h, a + height, 100);
    lemma_ends_grow(x, w, 0, b);
    lemma_ends_grow(x, w, b, b + width);
    lemma_ends_grow(x, w, b + width, 100);
    assert((a + height) * h == a * h + height * h) by (nonlinear_arith);
    assert((b + width) * w == b * w + width * w) by (nonlinear_arith);
    assert(2 * (a * h) + height * h == 100 * h) by (nonlinear_arith)
        requires
            2 * a + height == 100,
    ;
    assert(2 * (b * w) + width * w == 100 * w) by (nonlinear_arith)
        requires
            2 * b + width == 100,
    ;
    let row = middle_of(area, Axis::Down, height);
    assert(row.x == area.x && row.width == area.width);
}

/// The keys and the bar share a line: the bar has as many cells as characters, and
/// the keys have the rest, though never none.
pub proof fn law_the_bar_is_as_wide_as_its_words(bar: Seq<char>, side: int)
    requires
        side >= 1,
    ensures
        bar.len() <= 65535 ==> bar_width(bar) == bar.len(),
        bar.len() + 1 <= side <= 65535 ==> rest_cells(1, bar_width(bar), side) == side - bar.len(),
        bar.len() + 1 > side ==> rest_cells(1, bar_width(bar), side) == 1 || side > 65535,
{
}

/// The heading that is marked in the outline is the last one at or before the
/// cursor; before the first heading none is.
pub proof fn law_the_heading_over_the_cursor_is_marked(
    list: Seq<outline::HeadingView>,
    cursor: int,
    count: int,
    i: int,
)
    requires
        0 <= count <= list.len(),
    ensures
        ({
            let marked = active_heading(list, cursor, count);
            &&& -1 <= marked < count
            &&& 0 <= marked ==> list[marked].0 <= cursor
            &&& marked < i < count ==> list[i].0 > cursor
        }),
    decreases count,
{
    if count > 0 && list[count - 1].0 > cursor {
        law_the_heading_over_the_cursor_is_marked(list, cursor, count - 1, i);
    }
}

/// The outline has a line for every heading, in their order: a mark or a space,
/// another space, two more for each level below the first, and the title.
pub proof fn law_the_outline_is_set_in_by_levels(v: AppView, i: int)
    requires
        0 <= i < outline::headings(v.document.text).len(),
    ensures
        ({
            let heading = outline::headings(v.document.text)[i];
            let line = outline_lines(v)[i];
            let list = outline::headings(v.document.text);
            let marked = i == active_heading(list, v.document.cursor, list.len() as int);
            &&& outline_lines(v).len() == list.len()
            &&& line.len() == 2 + 2 * (heading.1 - 1) + heading.2.len()
            &&& marked ==> line[0] == '›'
            &&& !marked ==> line[0] == ' '
            &&& forall|k: int| 1 <= k < 2 * heading.1 ==> #[trigger] line[k] == ' '
            &&& line.skip(2 * heading.1) == heading.2
        }),
{
    reveal_strlit("›");
    reveal_strlit(" ");
    let heading = outline::headings(v.document.text)[i];
    outline::law_the_outline_holds_only_headings(v.document.text, i, i);
    let line = outline_lines(v)[i];
    let gap = wrap::spaces(2 * (heading.1 - 1));
    assert(gap.len() == 2 * (heading.1 - 1));
    assert forall|k: int| 1 <= k < 2 * heading.1 implies #[trigger] line[k] == ' ' by {
        if k >= 2 {
            assert(line[k] == gap[k - 2]);
        }
    }
    assert(line.skip(2 * heading.1) == heading.2);
}

/// The reference is wrapped to its pane, inside a frame, and shown from its
/// beginning, row by row.
pub proof fn law_the_reference_is_wrapped_to_its_pane(v: AppView, area: Area, i: int)
    ensures
        area.width > 3 ==> reference_width(area) == area.width - 2,
        area.width <= 3 ==> reference_width(area) == 1,
        ({
            let rows = wrap::rows(v.reference_text, reference_width(area));
            let lines = reference_lines(v, area);
            &&& 0 <= i < lines.len() <==> 0 <= i < rows.len() && i < area.height - 2
            &&& 0 <= i < lines.len() ==> lines[i] == v.reference_text.subrange(
                rows[i].0,
                rows[i].1,
            )
        }),
        v.reference_path is None ==> reference_title(v) == " Reference: "@ + "Reference"@ + " "@,
        v.reference_path matches Some(place) ==> reference_title(v) == " Reference: "@
            + status::name_or(place, "Reference"@) + " "@,
{
}

/// The text has the width of its pane without two columns at either side, and all
/// of its rows; the cursor stands two columns in, at its column and row, wherever
/// these lie in the pane.
pub proof fn law_the_cursor_stands_in_its_pane(v: AppView, editor: Area)
    ensures
        editor.width > 5 ==> page_width(editor) == editor.width - 4,
        editor.width <= 5 ==> page_width(editor) == 1,
        editor.height > 0 ==> page_height(editor) == editor.height,
        ({
            let (row, column) = v.cursor_place(page_width(editor));
            0 <= v.scroll <= row && 0 <= column <= page_width(editor) && row - v.scroll
                < editor.height && 2 + column < editor.width && editor.x + editor.width <= 65535
                && editor.y + editor.height <= 65535 ==> cursor_cell(v, editor) == (
                editor.x + 2 + column,
                editor.y + row - v.scroll,
            )
        }),
{
}

/// A note is listed with a star where it is pinned, and by its name without the
/// ending; among the books, by the way to it from there.
pub proof fn law_notes_are_listed_by_their_names(
    v: AppView,
    folder: path::PathView,
    book: Seq<char>,
    stem: Seq<char>,
)
    requires
        stem.len() > 0,
    ensures
        ({
            let place = folder.joined(stem + seq!['.', 'm', 'd']);
            v.category_index != 5 ==> note_line(v, place) == (if v.pinned.contains(place) {
                "★ "@
            } else {
                "  "@
            }) + stem
        }),
        ({
            let place = v.directory.joined("Projects"@).joined(book).joined(
                stem + seq!['.', 'm', 'd'],
            );
            v.category_index == 5 ==> note_line(v, place) == (if v.pinned.contains(place) {
                "★ "@
            } else {
                "  "@
            }) + (book + seq!['/'] + stem)
        }),
{
    reveal_strlit("..");
    reveal_strlit("/");
    assert("/"@ == seq!['/']);
    let extension = seq!['m', 'd'];
    assert(extension[0] == 'm' && extension[1] == 'd');
    assert(!extension.contains('.'));
    path::law_names_are_cut_at_the_last_dot(stem, extension);
    let name = stem + seq!['.', 'm', 'd'];
    assert(stem + seq!['.'] + extension == name);
    assert(name.len() >= 4 && ".."@.len() == 2);
    assert(folder.joined(name).parts.last() == name);
    let projects = v.directory.joined("Projects"@);
    assert(shelf::category_folder(v.directory, 5) == projects);
    let place = projects.joined(book).joined(name);
    let depth = projects.parts.len() as int;
    assert(place.parts.take(depth) == projects.parts);
    assert(place.parts.skip(depth) == seq![book, name]);
    assert(seq![book, name].drop_last() == seq![book]);
    let shown = stemmed(seq![book, name]);
    assert(shown == seq![book, stem]);
    reveal_with_fuel(path::slashed, 3);
    assert(shown.drop_last() == seq![book]);
    assert(seq![book].drop_last() == Seq::<Seq<char>>::empty());
    assert(path::slashed(shown) == book + seq!['/'] + stem);
}

/// A list in a terminal has an entry for every note or shelf, or says that nothing
/// is written yet.
pub proof fn law_every_note_has_its_line(v: AppView, i: int)
    ensures
        v.screen == Screen::Categories ==> entry_lines(v).len() == 9,
        v.screen == Screen::Categories && 0 <= i < 9 ==> entry_lines(v)[i] == seq![
            "  "@ + text::uppercase(shelf::category_title(i)),
            ""@,
        ],
        v.screen == Screen::Documents && v.documents.len() > 0 ==> entry_lines(v).len()
            == v.documents.len(),
        v.screen == Screen::Documents && 0 <= i < v.documents.len() ==> entry_lines(v)[i] == seq![
            note_line(v, v.documents[i]),
        ],
        v.screen == Screen::Documents && v.documents.len() == 0 ==> entry_lines(v) == seq![
            seq!["  No writing yet — Enter creates one"@],
        ],
        0 <= i < 9 ==> shelf_lines()[i] == seq![
            "  "@ + text::ascii_uppered(shelf::category_title(i)),
            ""@,
        ],
{
}

/// The keys named under a list are those that work there.
pub proof fn law_the_list_names_its_keys(v: AppView)
    ensures
        v.screen == Screen::Categories && v.category_index == 6 ==> browser_keys(v)
            == " ↑↓ choose · Enter unlock · F5 theme · F7/F8 size on Pi · app lock only "@,
        v.screen == Screen::Categories && v.category_index != 6 ==> browser_keys(v)
            == " ↑↓ choose · Enter open · F5 theme · F7/F8 size on Pi · Ctrl+Q quit "@,
        v.screen == Screen::Documents && v.category_index == 5 ==> browser_keys(v)
            == " ↑↓ open · j book · c chapter · e export · v reference · / search · p pin "@,
        v.screen == Screen::Documents && v.category_index != 5 ==> browser_keys(v)
            == " ↑↓ open · v reference · / search · p pin · r rename · m move · a archive · d trash "@,
{
}

/// The help in a terminal names the keys of the page and of the display.
pub proof fn law_the_window_of_help_names_the_keys()
    ensures
        help_lines().len() == 16,
        help_lines()[0] == "QuietWrite keys"@,
        help_lines()[2] == "Ctrl+S   Save"@,
        help_lines()[3] == "Ctrl+N   New note"@,
        help_lines()[4] == "Ctrl+Z/Y Undo / redo"@,
        help_lines()[5] == "Ctrl+R   Restore previous version"@,
        help_lines()[6] == "Ctrl+F   Find in draft · F3 next"@,
        help_lines()[7] == "F4       Start / stop 25m sprint"@,
        help_lines()[8] == "Ctrl+G   Set word target"@,
        help_lines()[9] == "Ctrl+Q   Save and quit"@,
        help_lines()[10] == "F2       Browse shelves"@,
        help_lines()[11] == "F5       Change theme"@,
        help_lines()[12] == "F9       Toggle outline"@,
        help_lines()[13] == "F10      Toggle reference split"@,
        help_lines()[14] == "Ctrl+↑/↓ Previous / next heading"@,
        help_lines()[15] == "F1 / Esc Close help"@,
{
}

/// A window that asks a question is headed by it and shows the answer so far, with
/// a mark behind it.
pub proof fn law_a_window_asks_its_question(window: Popup, v: AppView, prompt: TextPrompt)
    requires
        window.asks(v, prompt),
    ensures
        window.title@ == " "@ + scene::prompt_heading(prompt) + " "@,
        window.lines@.len() == 4,
        window.lines@[1]@ == "  "@ + v.prompt_input + "_"@,
        window.lines@[3]@ == "  Enter confirm · Esc cancel"@,
{
    assert(text::views(window.lines@).len() == window.lines@.len());
    assert(text::views(window.lines@)[1] == window.lines@[1]@);
    assert(text::views(window.lines@)[3] == window.lines@[3]@);
}

/// A window that asks for a password shows a dot for each of its characters, and
/// the message; what the password holds makes no difference.
pub proof fn law_a_window_hides_the_password(
    window: Popup,
    v: AppView,
    prompt: LockPrompt,
    password: Seq<char>,
    i: int,
)
    requires
        window.asks_password(v, prompt),
        password.len() == v.password_input.len(),
    ensures
        window.title@ == " "@ + scene::lock_heading(prompt) + " "@,
        window.lines@.len() == 6,
        window.lines@[1]@.len() == v.password_input.len(),
        0 <= i < v.password_input.len() ==> window.lines@[1]@[i] == '•',
        window.lines@[3]@ == v.message,
        window.asks_password((AppView { password_input: password, ..v }), prompt),
{
    assert(text::views(window.lines@).len() == window.lines@.len());
    assert(text::views(window.lines@)[1] == window.lines@[1]@);
    assert(text::views(window.lines@)[3] == window.lines@[3]@);
}

/// The window of the help has a line for each of its keys.
pub proof fn law_a_window_helps(window: Popup, i: int)
    requires
        window.helps(),
    ensures
        window.title@ == " Help "@,
        window.lines@.len() == 16,
        0 <= i < 16 ==> window.lines@[i]@ == help_lines()[i],
{
    assert(text::views(window.lines@).len() == window.lines@.len());
    if 0 <= i < 16 {
        assert(text::views(window.lines@)[i] == window.lines@[i]@);
    }
}

/// A page in a terminal shows the rows in sight of the text, the line that tells of
/// it, the outline and the reference where they have a pane, and on an empty page a
/// few words. The cursor is hidden under the help.
pub proof fn law_a_page_is_shown_in_its_panes(
    shown: EditorScene,
    v: AppView,
    panes: Panes,
    now: int,
    k: int,
)
    requires
        shown.shows(v, panes, now),
        0 <= v.scroll,
    ensures
        ({
            let width = page_width(panes.editor);
            let height = page_height(panes.editor);
            let later = v.followed(width, height);
            &&& 0 <= k < height && 0 <= later.scroll + k < later.rows(width).len() ==> k
                < shown.lines@.len() && shown.lines@[k]@ == later.row_text(
                width,
                later.scroll + k,
            )
            &&& shown.lines@.len() <= height
            &&& shown.status@ == wrap::truncated(
                status::full_status(v, now),
                panes.status.width as int,
            )
            &&& shown.cursor is None <==> v.help_visible
            &&& !v.help_visible ==> ((shown.cursor->0).0 as int, (shown.cursor->0).1 as int)
                == cursor_cell(later, panes.editor)
            &&& shown.outline is Some <==> panes.outline is Some
            &&& shown.outline matches Some(lines) ==> text::views(lines@) == outline_lines(v)
            &&& shown.reference is Some <==> panes.reference is Some
            &&& v.document.text.len() == 0 ==> shown.blank is Some && (shown.blank->0)@
                == status::blank_words(v.path)
            &&& v.document.text.len() > 0 ==> shown.blank is None
        }),
{
    let width = page_width(panes.editor);
    let height = page_height(panes.editor);
    let later = v.followed(width, height);
    let lines = later.page_lines(width, height);
    assert(text::views(shown.lines@).len() == shown.lines@.len());
    if 0 <= k < lines.len() {
        assert(text::views(shown.lines@)[k] == shown.lines@[k]@);
    }
}

/// A list in a terminal has the title, the entries and the choice of the desk.
pub proof fn law_a_list_is_shown_as_it_is(shown: BrowserScene, v: AppView, i: int)
    requires
        shown.shows(v),
    ensures
        shown.title@ == scene::list_title(v),
        shown.selected == scene::chosen_entry(v),
        shown.entries@.len() == entry_lines(v).len(),
        0 <= i < shown.entries@.len() ==> text::views(shown.entries@[i]@) == entry_lines(v)[i],
{
    assert(entry_views(shown.entries@).len() == shown.entries@.len());
    if 0 <= i < shown.entries@.len() {
        assert(entry_views(shown.entries@)[i] == text::views(shown.entries@[i]@));
    }
}

/// The keys begin at the left of their line and the bar ends at its right; between
/// them nothing is left out.
pub proof fn law_keys_and_bar_fill_their_line(line: InfoLine, area: Area)
    requires
        line.lies_in(area),
        area.x + area.width <= 65535,
        area.width > 0,
    ensures
        line.keys_area.x == area.x,
        line.keys_area.x + line.keys_area.width == line.bar_area.x,
        line.bar_area.x + line.bar_area.width == area.x + area.width,
        line.bar@.len() < area.width ==> line.bar_area.width == line.bar@.len(),
        line.bar@.len() >= area.width ==> line.keys_area.width == 1,
        line.keys_area.y == area.y && line.bar_area.y == area.y,
        line.keys_area.height == area.height && line.bar_area.height == area.height,
{
}

/// A terminal of three rows or more has the page over the two lines at its foot,
/// whether the outline and the reference are shown or not.
pub proof fn law_the_foot_lies_under_the_panes(
    panes: Panes,
    area: Area,
    outline: bool,
    split: bool,
)
    requires
        panes.laid_out(area, outline, split),
        area.height >= 3,
        area.y + area.height <= 65535,
        area.x + area.width <= 65535,
    ensures
        panes.status == (Area { y: (area.y + area.height - 2) as u16, height: 1, ..area }),
        panes.info == (Area { y: (area.y + area.height - 1) as u16, height: 1, ..area }),
        panes.editor.y == area.y && panes.editor.height == area.height - 2,
        !outline && !split ==> panes.editor == (Area { height: (area.height - 2) as u16, ..area }),
        panes.outline is Some <==> outline,
        panes.reference is Some <==> split,
        panes.outline matches Some(left) ==> left.x == area.x && left.x + left.width
            == panes.editor.x,
        panes.reference matches Some(right) ==> panes.editor.x + panes.editor.width == right.x
            && right.x + right.width == area.x + area.width,
{
    let rows = choose|rows: Seq<Area>| #[trigger]
        foot_rows_of(area, rows) && panes == panes_in(
            rows,
            pane_parts(rows[0], outline, split),
            outline,
            split,
        );
    assert(rows == foot_rows(area));
    law_panes_fill_the_page(rows[0], outline, split);
    let parts = pane_parts(rows[0], outline, split);
    assert(parts.len() == pane_split(outline, split).len());
    if outline || split {
        assert(parts[0].y == rows[0].y && parts[0].height == rows[0].height);
        assert(parts[1].y == rows[0].y && parts[1].height == rows[0].height);
    }
}

} // verus!
