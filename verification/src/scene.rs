//! What is drawn on the screen, step by step: the page, the lists, the
//! questions.
use vstd::prelude::*;

use crate::app::{App, AppView, LockPrompt, Screen, TextPrompt};
use crate::framebuffer;
use crate::framebuffer::Layout;
use crate::page::Page;
use crate::path;
use crate::shelf;
use crate::status;
use crate::text;
use crate::theme;
use crate::theme::{Rgb, ThemePalette};
use crate::wrap;

verus! {

/// One step of drawing.
#[derive(Debug)]
pub enum DrawOp {
    /// The whole page in a colour.
    Clear(Rgb),
    Rect { x: usize, y: usize, width: usize, height: usize, color: Rgb },
    Text { x: usize, y: usize, text: String, foreground: Rgb, background: Rgb },
}

/// One step of drawing, as a mathematical value.
pub enum OpView {
    Clear(Rgb),
    Rect(int, int, int, int, Rgb),
    Text(int, int, Seq<char>, Rgb, Rgb),
}

impl View for DrawOp {
    type V = OpView;

    open spec fn view(&self) -> OpView {
        match self {
            DrawOp::Clear(color) => OpView::Clear(*color),
            DrawOp::Rect { x, y, width, height, color } => OpView::Rect(
                *x as int,
                *y as int,
                *width as int,
                *height as int,
                *color,
            ),
            DrawOp::Text { x, y, text, foreground, background } => OpView::Text(
                *x as int,
                *y as int,
                text@,
                *foreground,
                *background,
            ),
        }
    }
}

pub open spec fn op_views(ops: Seq<DrawOp>) -> Seq<OpView> {
    ops.map_values(|op: DrawOp| op@)
}

fn clear(ops: &mut Vec<DrawOp>, color: Rgb)
    ensures
        op_views(final(ops)@) == op_views(old(ops)@).push(OpView::Clear(color)),
{
    ops.push(DrawOp::Clear(color));
    assert(op_views(ops@) == op_views(old(ops)@).push(OpView::Clear(color)));
}

fn rect(ops: &mut Vec<DrawOp>, x: usize, y: usize, width: usize, height: usize, color: Rgb)
    ensures
        op_views(final(ops)@) == op_views(old(ops)@).push(
            OpView::Rect(x as int, y as int, width as int, height as int, color),
        ),
{
    ops.push(DrawOp::Rect { x, y, width, height, color });
    assert(op_views(ops@) == op_views(old(ops)@).push(
        OpView::Rect(x as int, y as int, width as int, height as int, color),
    ));
}

fn write(ops: &mut Vec<DrawOp>, x: usize, y: usize, words: &str, foreground: Rgb, background: Rgb)
    ensures
        op_views(final(ops)@) == op_views(old(ops)@).push(
            OpView::Text(x as int, y as int, words@, foreground, background),
        ),
{
    let text: String = text::owned(words);
    ops.push(DrawOp::Text { x, y, text, foreground, background });
    assert(op_views(ops@) == op_views(old(ops)@).push(
        OpView::Text(x as int, y as int, words@, foreground, background),
    ));
}

/// The height of a row of text on the page, counted from its margin.
pub open spec fn row_y(layout: Layout, row: int) -> int {
    layout.margin_y + layout.line_height * row
}

/// The height of the line at the foot of the page.
pub open spec fn foot_y(layout: Layout) -> int {
    framebuffer::less(layout.logical_height as int, layout.line_height * 2)
}

proof fn lemma_row_y(layout: Layout, row: int)
    requires
        layout.sound(),
        0 <= row <= layout.content_rows + 8,
    ensures
        layout.margin_y <= row_y(layout, row) <= 0x3fff_ffff,
        0 <= layout.line_height * row <= 0x3fff_ffff,
{
    let h = layout.line_height as int;
    let n = layout.content_rows as int;
    assert(h * row <= h * n + h * 8) by (nonlinear_arith)
        requires
            0 <= row <= n + 8,
            0 <= h,
    ;
    assert(0 <= h * row) by (nonlinear_arith)
        requires
            0 <= row,
            0 <= h,
    ;
    assert(h * n == n * h) by (nonlinear_arith);
    if n == 1 {
        assert(h * n == h) by (nonlinear_arith)
            requires
                n == 1,
        ;
    }
}

fn y_of_row(layout: Layout, row: usize) -> (y: usize)
    requires
        layout.sound(),
        row <= layout.content_rows + 8,
    ensures
        y == row_y(layout, row as int),
        y <= 0x3fff_ffff,
{
    proof {
        lemma_row_y(layout, row as int);
    }
    layout.margin_y + layout.line_height * row
}

fn minus(a: usize, b: usize) -> (difference: usize)
    ensures
        difference == framebuffer::less(a as int, b as int),
{
    if a > b {
        a - b
    } else {
        0
    }
}

fn no_less(a: usize, b: usize) -> (larger: usize)
    ensures
        larger == framebuffer::at_least(a as int, b as int),
{
    if a < b {
        b
    } else {
        a
    }
}

fn y_of_foot(layout: Layout) -> (y: usize)
    requires
        layout.sound(),
    ensures
        y == foot_y(layout),
{
    minus(layout.logical_height, layout.line_height * 2)
}

/// The heading of a question.
pub open spec fn prompt_heading(prompt: TextPrompt) -> Seq<char> {
    match prompt {
        TextPrompt::Rename => "Rename document"@,
        TextPrompt::SearchShelf => "Search this shelf"@,
        TextPrompt::FindDraft => "Find in draft"@,
        TextPrompt::WordTarget => "Session word target"@,
        TextPrompt::NewProject => "New project"@,
        TextPrompt::NewChapter => "New chapter"@,
    }
}

/// The heading of a question.
pub fn prompt_title(prompt: TextPrompt) -> (title: &'static str)
    ensures
        title@ == prompt_heading(prompt),
{
    match prompt {
        TextPrompt::Rename => "Rename document",
        TextPrompt::SearchShelf => "Search this shelf",
        TextPrompt::FindDraft => "Find in draft",
        TextPrompt::WordTarget => "Session word target",
        TextPrompt::NewProject => "New project",
        TextPrompt::NewChapter => "New chapter",
    }
}

/// The heading over a password.
pub open spec fn lock_heading(prompt: LockPrompt) -> Seq<char> {
    match prompt {
        LockPrompt::Create => "Create Secret Thoughts password"@,
        LockPrompt::Confirm => "Confirm password"@,
        LockPrompt::Unlock => "Unlock Secret Thoughts"@,
    }
}

/// The heading over a password.
pub fn lock_title(prompt: LockPrompt) -> (title: &'static str)
    ensures
        title@ == lock_heading(prompt),
{
    match prompt {
        LockPrompt::Create => "Create Secret Thoughts password",
        LockPrompt::Confirm => "Confirm password",
        LockPrompt::Unlock => "Unlock Secret Thoughts",
    }
}

/// The colours of a theme by their use.
pub open spec fn background(v: AppView) -> Rgb {
    theme::theme_colors(v.theme).0
}

pub open spec fn foreground(v: AppView) -> Rgb {
    theme::theme_colors(v.theme).1
}

pub open spec fn muted(v: AppView) -> Rgb {
    theme::theme_colors(v.theme).2
}

pub open spec fn accent(v: AppView) -> Rgb {
    theme::theme_colors(v.theme).3
}

pub open spec fn status_color(v: AppView) -> Rgb {
    theme::theme_colors(v.theme).4
}

/// A question: its heading, the answer so far, and how to go on.
pub open spec fn prompt_scene(v: AppView, layout: Layout, prompt: TextPrompt) -> Seq<OpView> {
    seq![
        OpView::Clear(background(v)),
        OpView::Text(
            layout.margin_x as int,
            row_y(layout, 2),
            prompt_heading(prompt),
            accent(v),
            background(v),
        ),
        OpView::Text(
            layout.margin_x as int,
            row_y(layout, 5),
            v.prompt_input + "_"@,
            foreground(v),
            background(v),
        ),
        OpView::Text(
            layout.margin_x as int,
            foot_y(layout),
            "Enter confirm · F2 cancel"@,
            muted(v),
            background(v),
        ),
    ]
}

/// What stands over a list.
pub open spec fn list_title(v: AppView) -> Seq<char> {
    if v.screen == Screen::Categories {
        "Choose a shelf"@
    } else {
        shelf::category_title(v.category_index)
    }
}

/// A character many times.
pub open spec fn repeated(c: char, count: nat) -> Seq<char> {
    Seq::new(count, |i: int| c)
}

/// The head of a list.
pub open spec fn list_head(v: AppView, layout: Layout) -> Seq<OpView> {
    seq![
        OpView::Clear(background(v)),
        OpView::Text(
            layout.margin_x as int,
            layout.margin_y as int,
            status::APP_NAME@,
            accent(v),
            background(v),
        ),
        OpView::Text(
            layout.margin_x as int,
            row_y(layout, 2),
            list_title(v),
            muted(v),
            background(v),
        ),
    ]
}

/// A password being typed: its heading, a star for each character, the message,
/// and how to go on.
pub open spec fn lock_scene(v: AppView, layout: Layout, prompt: LockPrompt) -> Seq<OpView> {
    list_head(v, layout) + seq![
        OpView::Text(
            layout.margin_x as int,
            row_y(layout, 4),
            lock_heading(prompt),
            foreground(v),
            background(v),
        ),
        OpView::Text(
            layout.margin_x as int,
            row_y(layout, 6),
            repeated('*', v.password_input.len()),
            accent(v),
            background(v),
        ),
        OpView::Text(
            layout.margin_x as int,
            row_y(layout, 8),
            v.message,
            muted(v),
            background(v),
        ),
        OpView::Text(
            layout.margin_x as int,
            foot_y(layout),
            "Enter continue · F2 cancel"@,
            muted(v),
            background(v),
        ),
    ]
}

/// The name under which a note is listed.
pub open spec fn listed_name(place: path::PathView) -> Seq<char> {
    match place.name() {
        Some(name) => path::stem_of(name),
        None => "Untitled"@,
    }
}

/// The entries of a list.
pub open spec fn list_entries(v: AppView) -> Seq<Seq<char>> {
    if v.screen == Screen::Categories {
        Seq::new(shelf::CATEGORY_COUNT as nat, |i: int| shelf::category_title(i))
    } else if v.documents.len() == 0 {
        seq!["No writing yet — Enter creates one"@]
    } else {
        v.documents.map_values(|place: path::PathView| listed_name(place))
    }
}

/// The chosen entry of a list.
pub open spec fn chosen_entry(v: AppView) -> int {
    if v.screen == Screen::Categories {
        v.category_index
    } else {
        v.document_index
    }
}

/// The first `count` entries of a list, the chosen one marked.
pub open spec fn entry_ops(
    v: AppView,
    layout: Layout,
    entries: Seq<Seq<char>>,
    count: int,
) -> Seq<OpView>
    decreases count,
{
    if count <= 0 {
        Seq::empty()
    } else {
        let index = count - 1;
        let before = entry_ops(v, layout, entries, index);
        let y = row_y(layout, 4 + index);
        if index == chosen_entry(v) {
            before.push(
                OpView::Rect(
                    layout.margin_x as int / 2,
                    y,
                    framebuffer::less(layout.logical_width as int, layout.margin_x as int),
                    layout.line_height as int,
                    foreground(v),
                ),
            ).push(
                OpView::Text(
                    layout.margin_x as int,
                    y,
                    "› "@ + entries[index],
                    background(v),
                    foreground(v),
                ),
            )
        } else {
            before.push(
                OpView::Text(
                    layout.margin_x as int,
                    y,
                    "  "@ + entries[index],
                    muted(v),
                    background(v),
                ),
            )
        }
    }
}

/// How many entries of a list find room.
pub open spec fn entries_shown(v: AppView, layout: Layout) -> int {
    let room = framebuffer::less(layout.content_rows as int, 5);
    if list_entries(v).len() < room {
        list_entries(v).len() as int
    } else {
        room
    }
}

/// The line at the foot of a list.
pub open spec fn list_footer(v: AppView) -> Seq<char> {
    if v.screen == Screen::Categories {
        "↑↓ choose · Enter open · F5 theme · F7/F8 size"@
    } else {
        "↑↓ choose · Enter open · Ctrl+N new · F2 back"@
    }
}

/// A list: its head, as many entries as find room, and its foot.
pub open spec fn list_scene(v: AppView, layout: Layout, info: Seq<char>) -> Seq<OpView> {
    (list_head(v, layout) + entry_ops(v, layout, list_entries(v), entries_shown(v, layout))).push(
        OpView::Text(
            layout.margin_x as int,
            foot_y(layout),
            wrap::two_sided(list_footer(v), info, layout.columns as int),
            muted(v),
            background(v),
        ),
    )
}

/// A line of the help.
pub open spec fn help_line(row: int) -> Seq<char> {
    if row == 0 {
        "QuietWrite keys"@
    } else if row == 1 {
        "Ctrl+S   Save"@
    } else if row == 2 {
        "Ctrl+N   New note"@
    } else if row == 3 {
        "Ctrl+Q   Save & quit"@
    } else if row == 4 {
        "F2       Browse writing"@
    } else if row == 5 {
        "F5       Change theme"@
    } else if row == 6 {
        "F6       Rotate screen"@
    } else if row == 7 {
        "F7       Larger text"@
    } else if row == 8 {
        "F8       Smaller text"@
    } else {
        "F1       Close help"@
    }
}

fn help_words(row: usize) -> (line: &'static str)
    ensures
        line@ == help_line(row as int),
{
    match row {
        0 => "QuietWrite keys",
        1 => "Ctrl+S   Save",
        2 => "Ctrl+N   New note",
        3 => "Ctrl+Q   Save & quit",
        4 => "F2       Browse writing",
        5 => "F5       Change theme",
        6 => "F6       Rotate screen",
        7 => "F7       Larger text",
        8 => "F8       Smaller text",
        _ => "F1       Close help",
    }
}

/// The first `count` lines of the help.
pub open spec fn help_ops(v: AppView, layout: Layout, count: int) -> Seq<OpView>
    decreases count,
{
    if count <= 0 {
        Seq::empty()
    } else {
        let row = count - 1;
        help_ops(v, layout, row).push(
            OpView::Text(
                layout.margin_x as int,
                layout.margin_y as int / 2 + layout.line_height * row,
                help_line(row),
                if row == 0 {
                    accent(v)
                } else if row == 9 {
                    muted(v)
                } else {
                    foreground(v)
                },
                status_color(v),
            ),
        )
    }
}

/// The help: a panel with a stripe, and a line for each key.
pub open spec fn help_scene(v: AppView, layout: Layout) -> Seq<OpView> {
    seq![
        OpView::Clear(background(v)),
        OpView::Rect(
            layout.margin_x as int / 2,
            layout.margin_y as int / 2,
            framebuffer::less(layout.logical_width as int, layout.margin_x as int),
            11 * layout.line_height,
            status_color(v),
        ),
        OpView::Rect(
            layout.margin_x as int / 2,
            layout.margin_y as int / 2,
            framebuffer::at_least(layout.cell_width as int / 7, 4),
            11 * layout.line_height,
            accent(v),
        ),
    ] + help_ops(v, layout, 10)
}

/// One of the three dots over the page.
pub open spec fn dot_op(v: AppView, layout: Layout, index: int) -> OpView {
    let dot = framebuffer::at_least(layout.cell_width as int / 5, 5);
    OpView::Rect(
        framebuffer::less(layout.logical_width as int, layout.margin_x + dot * (index + 1) * 2),
        layout.margin_y as int / 2,
        dot,
        dot,
        accent(v),
    )
}

/// The page before its text: the rail at its side and the dots over it.
pub open spec fn page_head(v: AppView, layout: Layout) -> Seq<OpView> {
    seq![
        OpView::Clear(background(v)),
        OpView::Rect(
            layout.margin_x as int / 3,
            layout.margin_y as int,
            framebuffer::at_least(layout.cell_width as int / 8, 4),
            layout.line_height * layout.content_rows,
            accent(v),
        ),
        dot_op(v, layout, 0),
        dot_op(v, layout, 1),
        dot_op(v, layout, 2),
    ]
}

/// What an empty page says, in its middle.
pub open spec fn blank_ops(v: AppView, layout: Layout) -> Seq<OpView> {
    if v.document.text.len() == 0 {
        let words = status::blank_words(v.path);
        seq![
            OpView::Text(
                framebuffer::less(
                    layout.logical_width as int,
                    wrap::visible(words) * layout.cell_width,
                ) / 2,
                row_y(layout, layout.content_rows as int / 3),
                words,
                muted(v),
                background(v),
            ),
        ]
    } else {
        Seq::empty()
    }
}

/// The first `count` rows in sight.
pub open spec fn line_ops(v: AppView, layout: Layout, count: int) -> Seq<OpView>
    decreases count,
{
    if count <= 0 {
        Seq::empty()
    } else {
        line_ops(v, layout, count - 1).push(
            OpView::Text(
                layout.margin_x as int,
                row_y(layout, count - 1),
                v.row_text(layout.columns as int, v.scroll + (count - 1)),
                foreground(v),
                background(v),
            ),
        )
    }
}

/// The cursor, and the two lines under the page.
pub open spec fn page_foot(v: AppView, layout: Layout, info: Seq<char>) -> Seq<OpView> {
    let (row, column) = v.cursor_place(layout.columns as int);
    let below = framebuffer::less(row, v.scroll);
    let cursor_row = if below > layout.content_rows - 1 {
        layout.content_rows - 1
    } else {
        below
    };
    let status_y = row_y(layout, layout.content_rows as int);
    seq![
        OpView::Rect(
            layout.margin_x + column * layout.cell_width,
            row_y(layout, cursor_row) + 3,
            framebuffer::at_least(layout.cell_width as int / 10, 3),
            framebuffer::less(layout.line_height as int, 6),
            accent(v),
        ),
        OpView::Rect(
            0,
            status_y,
            layout.logical_width as int,
            layout.line_height as int,
            status_color(v),
        ),
        OpView::Text(
            layout.margin_x as int,
            status_y,
            wrap::truncated(
                status::screen_status(v, layout.columns as int),
                layout.columns as int,
            ),
            foreground(v),
            status_color(v),
        ),
        OpView::Text(
            layout.margin_x as int,
            status_y + layout.line_height,
            wrap::two_sided(page_keys(layout.columns as int), info, layout.columns as int),
            muted(v),
            background(v),
        ),
    ]
}

/// The keys named under the page.
pub open spec fn page_keys(columns: int) -> Seq<char> {
    if columns < 36 {
        " F1 help · F5 · F6 "@
    } else {
        " F1 help · F5 theme · F6 rotate · F7 larger · F8 smaller "@
    }
}

/// The page: its head, what it says when it is empty, the rows in sight, and its
/// foot.
pub open spec fn page_scene(v: AppView, layout: Layout, info: Seq<char>) -> Seq<OpView> {
    page_head(v, layout) + blank_ops(v, layout) + line_ops(
        v,
        layout,
        v.rows_in_sight(layout.columns as int, layout.content_rows as int),
    ) + page_foot(v, layout, info)
}

impl AppView {
    /// Whether the page itself is to be drawn.
    pub open spec fn shows_page(self) -> bool {
        self.text_prompt is None && self.screen == Screen::Editor && !self.help_visible
    }

    /// The size at which the screen is drawn: that of the settings for the page,
    /// a smaller one for all else.
    pub open spec fn scene_size(self) -> int {
        if self.help_visible {
            -4
        } else if self.text_prompt is Some || self.screen != Screen::Editor {
            -3
        } else {
            self.zoom
        }
    }

    /// Whether a password is asked for on the screen.
    pub open spec fn asks_password(self) -> bool {
        self.screen != Screen::Editor && self.lock_prompt is Some
    }

    /// The desk after it has been drawn: the page follows the cursor.
    pub open spec fn after_drawing(self, layout: Layout) -> AppView {
        if self.shows_page() {
            self.followed(layout.columns as int, layout.content_rows as int)
        } else {
            self
        }
    }

    /// What is drawn on the screen.
    pub open spec fn screen_scene(self, layout: Layout, info: Seq<char>) -> Seq<OpView> {
        if self.help_visible {
            help_scene(self, layout)
        } else if self.text_prompt is Some {
            prompt_scene(self, layout, self.text_prompt->0)
        } else if self.asks_password() {
            lock_scene(self, layout, self.lock_prompt->0)
        } else if self.screen != Screen::Editor {
            list_scene(self, layout, info)
        } else {
            page_scene(self.after_drawing(layout), layout, info)
        }
    }
}

fn stars(count: usize) -> (row: String)
    ensures
        row@ == repeated('*', count as nat),
{
    let mut row = String::new();
    let mut i: usize = 0;
    assert(row@ == repeated('*', 0));
    while i < count
        invariant
            i <= count,
            row@ == repeated('*', i as nat),
        decreases count - i,
    {
        row.push('*');
        i += 1;
        assert(row@ == repeated('*', i as nat));
    }
    row
}

impl App {
    /// The size at which the screen is drawn.
    pub fn scene_zoom(&self) -> (zoom: i8)
        ensures
            zoom == self@.scene_size(),
    {
        if self.help_visible {
            -4
        } else if self.text_prompt.is_some() || self.screen != Screen::Editor {
            -3
        } else {
            self.zoom
        }
    }

    fn colors(&self) -> (palette: ThemePalette)
        requires
            self@.wf(),
        ensures
            palette.background == background(self@),
            palette.foreground == foreground(self@),
            palette.muted == muted(self@),
            palette.accent == accent(self@),
            palette.status == status_color(self@),
    {
        theme::palette(self.theme)
    }

    fn draw_prompt(&self, layout: Layout, prompt: TextPrompt) -> (ops: Vec<DrawOp>)
        requires
            self@.wf(),
            layout.sound(),
        ensures
            op_views(ops@) == prompt_scene(self@, layout, prompt),
    {
        let palette: ThemePalette = self.colors();
        let mut ops: Vec<DrawOp> = Vec::new();
        let x: usize = layout.margin_x;
        let mut answer: String = text::owned(self.prompt_input.as_str());
        answer.append("_");
        clear(&mut ops, palette.background);
        write(
            &mut ops,
            x,
            y_of_row(layout, 2),
            prompt_title(prompt),
            palette.accent,
            palette.background,
        );
        write(
            &mut ops,
            x,
            y_of_row(layout, 5),
            answer.as_str(),
            palette.foreground,
            palette.background,
        );
        write(
            &mut ops,
            x,
            y_of_foot(layout),
            "Enter confirm · F2 cancel",
            palette.muted,
            palette.background,
        );
        assert(op_views(ops@) == prompt_scene(self@, layout, prompt));
        ops
    }

    /// What stands over a list.
    pub fn list_heading(&self) -> (title: &'static str)
        ensures
            title@ == list_title(self@),
    {
        if self.screen == Screen::Categories {
            "Choose a shelf"
        } else {
            shelf::category_name(self.category_index)
        }
    }

    fn draw_list_head(&self, layout: Layout) -> (ops: Vec<DrawOp>)
        requires
            self@.wf(),
            layout.sound(),
        ensures
            op_views(ops@) == list_head(self@, layout),
    {
        let palette: ThemePalette = self.colors();
        let mut ops: Vec<DrawOp> = Vec::new();
        clear(&mut ops, palette.background);
        write(
            &mut ops,
            layout.margin_x,
            layout.margin_y,
            status::APP_NAME,
            palette.accent,
            palette.background,
        );
        write(
            &mut ops,
            layout.margin_x,
            y_of_row(layout, 2),
            self.list_heading(),
            palette.muted,
            palette.background,
        );
        assert(op_views(ops@) == list_head(self@, layout));
        ops
    }

    fn draw_lock(&self, layout: Layout, prompt: LockPrompt) -> (ops: Vec<DrawOp>)
        requires
            self@.wf(),
            layout.sound(),
        ensures
            op_views(ops@) == lock_scene(self@, layout, prompt),
    {
        let palette: ThemePalette = self.colors();
        let mut ops: Vec<DrawOp> = self.draw_list_head(layout);
        let x: usize = layout.margin_x;
        let hidden: String = stars(text::chars_of(self.password_input.as_str()).len());
        write(
            &mut ops,
            x,
            y_of_row(layout, 4),
            lock_title(prompt),
            palette.foreground,
            palette.background,
        );
        write(
            &mut ops,
            x,
            y_of_row(layout, 6),
            hidden.as_str(),
            palette.accent,
            palette.background,
        );
        write(
            &mut ops,
            x,
            y_of_row(layout, 8),
            self.message.as_str(),
            palette.muted,
            palette.background,
        );
        write(
            &mut ops,
            x,
            y_of_foot(layout),
            "Enter continue · F2 cancel",
            palette.muted,
            palette.background,
        );
        assert(op_views(ops@) == lock_scene(self@, layout, prompt));
        ops
    }

    /// The entries of a list.
    pub fn entries(&self) -> (entries: Vec<String>)
        ensures
            text::views(entries@) == list_entries(self@),
    {
        let mut entries: Vec<String> = Vec::new();
        let ghost all = list_entries(self@);
        if self.screen == Screen::Categories {
            let mut i: usize = 0;
            assert(text::views(entries@) == all.take(0));
            while i < shelf::CATEGORY_COUNT
                invariant
                    i <= shelf::CATEGORY_COUNT,
                    all == Seq::new(
                        shelf::CATEGORY_COUNT as nat,
                        |k: int| shelf::category_title(k),
                    ),
                    text::views(entries@) == all.take(i as int),
                decreases shelf::CATEGORY_COUNT - i,
            {
                let ghost before = entries@;
                let name: String = text::owned(shelf::category_name(i));
                entries.push(name);
                proof {
                    assert(text::views(entries@) == text::views(before).push(name@));
                    assert(all.take(i + 1) == all.take(i as int).push(name@));
                }
                i += 1;
            }
            assert(all.take(all.len() as int) == all);
        } else if self.documents.len() == 0 {
            entries.push(text::owned("No writing yet — Enter creates one"));
            assert(text::views(entries@) == all);
        } else {
            let mut i: usize = 0;
            assert(text::views(entries@) == all.take(0));
            while i < self.documents.len()
                invariant
                    i <= self.documents@.len(),
                    all == self@.documents.map_values(|place: path::PathView| listed_name(place)),
                    text::views(entries@) == all.take(i as int),
                decreases self.documents@.len() - i,
            {
                let ghost before = entries@;
                let name: String = match self.documents[i].file_name() {
                    Some(name) => path::file_stem(name.as_str()),
                    None => text::owned("Untitled"),
                };
                entries.push(name);
                proof {
                    assert(text::views(entries@) == text::views(before).push(name@));
                    assert(all[i as int] == name@);
                    assert(all.take(i + 1) == all.take(i as int).push(name@));
                }
                i += 1;
            }
            assert(all.take(all.len() as int) == all);
        }
        entries
    }

    /// The chosen entry of a list.
    pub fn chosen(&self) -> (index: usize)
        ensures
            index == chosen_entry(self@),
    {
        if self.screen == Screen::Categories {
            self.category_index
        } else {
            self.document_index
        }
    }

    fn draw_list(&self, layout: Layout, info: &str) -> (ops: Vec<DrawOp>)
        requires
            self@.wf(),
            layout.sound(),
        ensures
            op_views(ops@) == list_scene(self@, layout, info@),
    {
        let palette: ThemePalette = self.colors();
        let mut ops: Vec<DrawOp> = self.draw_list_head(layout);
        let ghost head = op_views(ops@);
        let entries: Vec<String> = self.entries();
        let ghost all = list_entries(self@);
        assert(all.len() == entries@.len());
        let selected: usize = self.chosen();
        let room: usize = minus(layout.content_rows, 5);
        let count: usize = if entries.len() < room {
            entries.len()
        } else {
            room
        };
        let mut index: usize = 0;
        assert(head + entry_ops(self@, layout, all, 0) == head);
        while index < count
            invariant
                index <= count <= entries@.len(),
                count == 0 || count + 5 <= layout.content_rows,
                self@.wf(),
                layout.sound(),
                all == text::views(entries@),
                selected == chosen_entry(self@),
                palette.background == background(self@),
                palette.foreground == foreground(self@),
                palette.muted == muted(self@),
                op_views(ops@) == head + entry_ops(self@, layout, all, index as int),
            decreases count - index,
        {
            let y: usize = y_of_row(layout, 4 + index);
            let ghost before = entry_ops(self@, layout, all, index as int);
            assert(all[index as int] == entries@[index as int]@);
            if index == selected {
                rect(
                    &mut ops,
                    layout.margin_x / 2,
                    y,
                    minus(layout.logical_width, layout.margin_x),
                    layout.line_height,
                    palette.foreground,
                );
                let mut line: String = text::owned("› ");
                line.append(entries[index].as_str());
                write(
                    &mut ops,
                    layout.margin_x,
                    y,
                    line.as_str(),
                    palette.background,
                    palette.foreground,
                );
            } else {
                let mut line: String = text::owned("  ");
                line.append(entries[index].as_str());
                write(
                    &mut ops,
                    layout.margin_x,
                    y,
                    line.as_str(),
                    palette.muted,
                    palette.background,
                );
            }
            index += 1;
            assert(op_views(ops@) == head + entry_ops(self@, layout, all, index as int));
        }
        let footer: &str = if self.screen == Screen::Categories {
            "↑↓ choose · Enter open · F5 theme · F7/F8 size"
        } else {
            "↑↓ choose · Enter open · Ctrl+N new · F2 back"
        };
        let line: String = wrap::two_sided_line(footer, info, layout.columns);
        write(
            &mut ops,
            layout.margin_x,
            y_of_foot(layout),
            line.as_str(),
            palette.muted,
            palette.background,
        );
        ops
    }

    fn draw_help(&self, layout: Layout) -> (ops: Vec<DrawOp>)
        requires
            self@.wf(),
            layout.sound(),
        ensures
            op_views(ops@) == help_scene(self@, layout),
    {
        let palette: ThemePalette = self.colors();
        let mut ops: Vec<DrawOp> = Vec::new();
        let panel_x: usize = layout.margin_x / 2;
        let panel_y: usize = layout.margin_y / 2;
        clear(&mut ops, palette.background);
        rect(
            &mut ops,
            panel_x,
            panel_y,
            minus(layout.logical_width, layout.margin_x),
            11 * layout.line_height,
            palette.status,
        );
        rect(
            &mut ops,
            panel_x,
            panel_y,
            no_less(layout.cell_width / 7, 4),
            11 * layout.line_height,
            palette.accent,
        );
        let ghost head = op_views(ops@);
        let mut row: usize = 0;
        assert(head + help_ops(self@, layout, 0) == head);
        while row < 10
            invariant
                row <= 10,
                layout.sound(),
                panel_y == layout.margin_y / 2,
                palette.foreground == foreground(self@),
                palette.muted == muted(self@),
                palette.accent == accent(self@),
                palette.status == status_color(self@),
                op_views(ops@) == head + help_ops(self@, layout, row as int),
            decreases 10 - row,
        {
            let color: Rgb = if row == 0 {
                palette.accent
            } else if row == 9 {
                palette.muted
            } else {
                palette.foreground
            };
            assert(layout.line_height * row <= layout.line_height * 10) by (nonlinear_arith)
                requires
                    row <= 10,
                    0 <= layout.line_height,
            ;
            assert(layout.line_height * row == row * layout.line_height) by (nonlinear_arith);
            write(
                &mut ops,
                layout.margin_x,
                panel_y + row * layout.line_height,
                help_words(row),
                color,
                palette.status,
            );
            row += 1;
            assert(op_views(ops@) == head + help_ops(self@, layout, row as int));
        }
        assert(head == seq![
            OpView::Clear(background(self@)),
            OpView::Rect(
                layout.margin_x as int / 2,
                layout.margin_y as int / 2,
                framebuffer::less(layout.logical_width as int, layout.margin_x as int),
                11 * layout.line_height,
                status_color(self@),
            ),
            OpView::Rect(
                layout.margin_x as int / 2,
                layout.margin_y as int / 2,
                framebuffer::at_least(layout.cell_width as int / 7, 4),
                11 * layout.line_height,
                accent(self@),
            ),
        ]);
        ops
    }

    fn draw_page_head(&self, layout: Layout) -> (ops: Vec<DrawOp>)
        requires
            self@.wf(),
            layout.sound(),
        ensures
            op_views(ops@) == page_head(self@, layout),
    {
        let palette: ThemePalette = self.colors();
        let mut ops: Vec<DrawOp> = Vec::new();
        clear(&mut ops, palette.background);
        proof {
            lemma_row_y(layout, layout.content_rows as int);
            assert(layout.line_height * layout.content_rows == layout.content_rows
                * layout.line_height) by (nonlinear_arith);
        }
        rect(
            &mut ops,
            layout.margin_x / 3,
            layout.margin_y,
            no_less(layout.cell_width / 8, 4),
            layout.content_rows * layout.line_height,
            palette.accent,
        );
        let dot: usize = no_less(layout.cell_width / 5, 5);
        rect(
            &mut ops,
            minus(layout.logical_width, layout.margin_x + dot * 2),
            layout.margin_y / 2,
            dot,
            dot,
            palette.accent,
        );
        rect(
            &mut ops,
            minus(layout.logical_width, layout.margin_x + dot * 4),
            layout.margin_y / 2,
            dot,
            dot,
            palette.accent,
        );
        rect(
            &mut ops,
            minus(layout.logical_width, layout.margin_x + dot * 6),
            layout.margin_y / 2,
            dot,
            dot,
            palette.accent,
        );
        proof {
            assert(dot * (0 + 1) * 2 == dot * 2) by (nonlinear_arith);
            assert(dot * (1 + 1) * 2 == dot * 4) by (nonlinear_arith);
            assert(dot * (2 + 1) * 2 == dot * 6) by (nonlinear_arith);
        }
        assert(op_views(ops@) == page_head(self@, layout));
        ops
    }

    fn draw_blank(&self, layout: Layout, ops: &mut Vec<DrawOp>)
        requires
            self@.wf(),
            layout.sound(),
        ensures
            op_views(final(ops)@) == op_views(old(ops)@) + blank_ops(self@, layout),
    {
        if self.document.text.len() == 0 {
            let palette: ThemePalette = self.colors();
            let words: &str = status::blank_prompt(&self.path);
            proof {
                wrap::lemma_visible_bound(words@);
            }
            let columns: usize = wrap::visible_width(words);
            assert(columns * layout.cell_width <= 76 * 65535) by (nonlinear_arith)
                requires
                    columns <= 76,
                    layout.cell_width <= 65535,
            ;
            let wide: usize = columns * layout.cell_width;
            write(
                ops,
                minus(layout.logical_width, wide) / 2,
                y_of_row(layout, layout.content_rows / 3),
                words,
                palette.muted,
                palette.background,
            );
        }
        assert(op_views(ops@) == op_views(old(ops)@) + blank_ops(self@, layout));
    }

    fn draw_lines(&self, layout: Layout, page: &Page, ops: &mut Vec<DrawOp>)
        requires
            self@.wf(),
            layout.sound(),
            page.shows(self@, layout.columns as int),
        ensures
            op_views(final(ops)@) == op_views(old(ops)@) + line_ops(
                self@,
                layout,
                self@.rows_in_sight(layout.columns as int, layout.content_rows as int),
            ),
    {
        let palette: ThemePalette = self.colors();
        let lines: Vec<String> = self.lines_in_sight(page, layout.columns, layout.content_rows);
        let ghost all = self@.page_lines(layout.columns as int, layout.content_rows as int);
        assert(all.len() == lines@.len());
        let mut k: usize = 0;
        assert(op_views(ops@) == op_views(old(ops)@) + line_ops(self@, layout, 0));
        while k < lines.len()
            invariant
                k <= lines@.len() <= layout.content_rows,
                layout.sound(),
                all == text::views(lines@),
                all == self@.page_lines(layout.columns as int, layout.content_rows as int),
                palette.foreground == foreground(self@),
                palette.background == background(self@),
                op_views(ops@) == op_views(old(ops)@) + line_ops(self@, layout, k as int),
            decreases lines@.len() - k,
        {
            assert(all[k as int] == lines@[k as int]@);
            proof {
                lemma_page_line(
                    self@,
                    layout.columns as int,
                    layout.content_rows as int,
                    k as int,
                );
            }
            write(
                ops,
                layout.margin_x,
                y_of_row(layout, k),
                lines[k].as_str(),
                palette.foreground,
                palette.background,
            );
            k += 1;
            assert(op_views(ops@) == op_views(old(ops)@) + line_ops(self@, layout, k as int));
        }
    }

    fn draw_page_foot(&self, layout: Layout, page: &Page, info: &str, ops: &mut Vec<DrawOp>)
        requires
            self@.wf(),
            layout.sound(),
            page.shows(self@, layout.columns as int),
        ensures
            op_views(final(ops)@) == op_views(old(ops)@) + page_foot(self@, layout, info@),
    {
        let palette: ThemePalette = self.colors();
        let below: usize = minus(page.row, self.scroll);
        let cursor_row: usize = if below > layout.content_rows - 1 {
            layout.content_rows - 1
        } else {
            below
        };
        proof {
            lemma_cursor_x(layout, page.column as int);
            lemma_row_y(layout, cursor_row as int);
            lemma_row_y(layout, layout.content_rows as int);
        }
        rect(
            ops,
            layout.margin_x + page.column * layout.cell_width,
            y_of_row(layout, cursor_row) + 3,
            no_less(layout.cell_width / 10, 3),
            minus(layout.line_height, 6),
            palette.accent,
        );
        let status_y: usize = y_of_row(layout, layout.content_rows);
        rect(ops, 0, status_y, layout.logical_width, layout.line_height, palette.status);
        let line: String = wrap::truncate(
            self.screen_status_text(layout.columns).as_str(),
            layout.columns,
        );
        write(
            ops,
            layout.margin_x,
            status_y,
            line.as_str(),
            palette.foreground,
            palette.status,
        );
        let keys: &str = if layout.columns < 36 {
            " F1 help · F5 · F6 "
        } else {
            " F1 help · F5 theme · F6 rotate · F7 larger · F8 smaller "
        };
        let help: String = wrap::two_sided_line(keys, info, layout.columns);
        write(
            ops,
            layout.margin_x,
            status_y + layout.line_height,
            help.as_str(),
            palette.muted,
            palette.background,
        );
        assert(op_views(ops@) == op_views(old(ops)@) + page_foot(self@, layout, info@));
    }

    /// Draws the screen with a given bar.
    pub fn draw_screen(&mut self, layout: Layout, info: &str) -> (ops: Vec<DrawOp>)
        requires
            old(self)@.wf(),
            layout.sound(),
        ensures
            op_views(ops@) == old(self)@.screen_scene(layout, info@),
            final(self)@ == old(self)@.after_drawing(layout),
            final(self)@.wf(),
    {
        if self.help_visible {
            return self.draw_help(layout);
        }
        if let Some(prompt) = self.text_prompt {
            return self.draw_prompt(layout, prompt);
        }
        if self.screen != Screen::Editor {
            if let Some(prompt) = self.lock_prompt {
                return self.draw_lock(layout, prompt);
            }
        }
        if self.screen != Screen::Editor {
            return self.draw_list(layout, info);
        }
        let page: Page = self.follow_cursor(layout.columns, layout.content_rows);
        let mut ops: Vec<DrawOp> = self.draw_page_head(layout);
        self.draw_blank(layout, &mut ops);
        self.draw_lines(layout, &page, &mut ops);
        self.draw_page_foot(layout, &page, info, &mut ops);
        ops
    }

    /// Draws the screen.
    pub fn render_framebuffer(&mut self, layout: Layout) -> (ops: Vec<DrawOp>)
        requires
            old(self)@.wf(),
            layout.sound(),
        ensures
            exists|time: Seq<char>|
                status::is_time(time) && op_views(ops@) == old(self)@.screen_scene(
                    layout,
                    #[trigger] status::info_words(time, old(self)@.network_status),
                ),
            final(self)@ == old(self)@.after_drawing(layout),
            final(self)@.wf(),
    {
        let info: String = self.info_bar();
        self.draw_screen(layout, info.as_str())
    }
}

proof fn lemma_page_line(v: AppView, width: int, height: int, k: int)
    requires
        0 <= k < v.page_lines(width, height).len(),
    ensures
        v.page_lines(width, height)[k] == v.row_text(width, v.scroll + k),
{
}

proof fn lemma_cursor_x(layout: Layout, column: int)
    requires
        layout.sound(),
        0 <= column <= (if layout.columns < 4 {
            4
        } else {
            layout.columns as int
        }),
    ensures
        0 <= column * layout.cell_width <= 0x1fff_ffff,
{
    let w = layout.cell_width as int;
    let n = layout.columns as int;
    assert(0 <= column * w) by (nonlinear_arith)
        requires
            0 <= column,
            0 <= w,
    ;
    if n < 4 {
        assert(column * w <= 4 * w) by (nonlinear_arith)
            requires
                column <= 4,
                0 <= w,
        ;
    } else {
        assert(column * w <= n * w) by (nonlinear_arith)
            requires
                column <= n,
                0 <= w,
        ;
    }
}

/// The colours of words: that of the characters, and that behind them.
pub type Ink = (Rgb, Rgb);

/// Whether among steps of drawing there are words at a place, in colours.
pub open spec fn says(ops: Seq<OpView>, x: int, y: int, words: Seq<char>, ink: Ink) -> bool {
    ops.contains(OpView::Text(x, y, words, ink.0, ink.1))
}

proof fn lemma_said_before(
    ops: Seq<OpView>,
    more: Seq<OpView>,
    x: int,
    y: int,
    words: Seq<char>,
    ink: Ink,
)
    requires
        says(ops, x, y, words, ink),
    ensures
        says(ops + more, x, y, words, ink),
        says(more + ops, x, y, words, ink),
{
    let op = OpView::Text(x, y, words, ink.0, ink.1);
    let i = choose|i: int| 0 <= i < ops.len() && ops[i] == op;
    assert((ops + more)[i] == op);
    assert((more + ops)[more.len() + i] == op);
}

/// The colours of a line of the help.
pub open spec fn help_ink(v: AppView, row: int) -> Ink {
    (
        if row == 0 {
            theme::theme_colors(v.theme).3
        } else if row == 9 {
            theme::theme_colors(v.theme).2
        } else {
            theme::theme_colors(v.theme).1
        },
        theme::theme_colors(v.theme).4,
    )
}

/// A colour of the theme on its ground: the text, what is muted, or the accent.
pub open spec fn on_ground(v: AppView, front: Rgb) -> Ink {
    (front, theme::theme_colors(v.theme).0)
}

/// The screen is drawn anew each time, on the background of the theme.
pub proof fn law_the_screen_is_drawn_anew(v: AppView, layout: Layout, info: Seq<char>)
    ensures
        v.screen_scene(layout, info).len() > 0,
        v.screen_scene(layout, info)[0] == OpView::Clear(theme::theme_colors(v.theme).0),
{
    let page = page_scene(v.after_drawing(layout), layout, info);
    assert(page[0] == page_head(v.after_drawing(layout), layout)[0]);
}

proof fn lemma_help_said(v: AppView, layout: Layout, count: int, row: int)
    requires
        0 <= row < count,
    ensures
        says(
            help_ops(v, layout, count),
            layout.margin_x as int,
            layout.margin_y as int / 2 + layout.line_height * row,
            help_line(row),
            help_ink(v, row),
        ),
    decreases count,
{
    let ops = help_ops(v, layout, count);
    let less = help_ops(v, layout, count - 1);
    if row == count - 1 {
        assert(ops[ops.len() - 1] == ops.last());
    } else {
        lemma_help_said(v, layout, count - 1, row);
        let x = layout.margin_x as int;
        let y = layout.margin_y as int / 2 + layout.line_height * row;
        lemma_said_before(less, seq![ops.last()], x, y, help_line(row), help_ink(v, row));
        assert(less + seq![ops.last()] == ops);
    }
}

/// The help lies over all else: while it is open its ten lines are shown, one under
/// the other.
pub proof fn law_the_open_help_is_shown(v: AppView, layout: Layout, info: Seq<char>, row: int)
    requires
        v.help_visible,
        0 <= row < 10,
    ensures
        says(
            v.screen_scene(layout, info),
            layout.margin_x as int,
            layout.margin_y as int / 2 + layout.line_height * row,
            help_line(row),
            help_ink(v, row),
        ),
        v.after_drawing(layout) == v,
{
    lemma_help_said(v, layout, 10, row);
    let x = layout.margin_x as int;
    let y = layout.margin_y as int / 2 + layout.line_height * row;
    let head = help_scene(v, layout).take(3);
    lemma_said_before(help_ops(v, layout, 10), head, x, y, help_line(row), help_ink(v, row));
    assert(head + help_ops(v, layout, 10) == help_scene(v, layout));
}

/// The lines of the help name the keys.
pub proof fn law_the_help_names_its_keys()
    ensures
        help_line(0) == "QuietWrite keys"@,
        help_line(1) == "Ctrl+S   Save"@,
        help_line(2) == "Ctrl+N   New note"@,
        help_line(3) == "Ctrl+Q   Save & quit"@,
        help_line(4) == "F2       Browse writing"@,
        help_line(5) == "F5       Change theme"@,
        help_line(6) == "F6       Rotate screen"@,
        help_line(7) == "F7       Larger text"@,
        help_line(8) == "F8       Smaller text"@,
        help_line(9) == "F1       Close help"@,
{
}

/// A question shows its heading, the answer so far with a mark behind it, and how
/// to go on.
pub proof fn law_a_question_is_shown_with_its_answer(v: AppView, layout: Layout, info: Seq<char>)
    requires
        !v.help_visible,
        v.text_prompt is Some,
    ensures
        says(
            v.screen_scene(layout, info),
            layout.margin_x as int,
            layout.margin_y + layout.line_height * 2,
            prompt_heading(v.text_prompt->0),
            on_ground(v, theme::theme_colors(v.theme).3),
        ),
        says(
            v.screen_scene(layout, info),
            layout.margin_x as int,
            layout.margin_y + layout.line_height * 5,
            v.prompt_input + "_"@,
            on_ground(v, theme::theme_colors(v.theme).1),
        ),
        says(
            v.screen_scene(layout, info),
            layout.margin_x as int,
            framebuffer::less(layout.logical_height as int, 2 * layout.line_height),
            "Enter confirm · F2 cancel"@,
            on_ground(v, theme::theme_colors(v.theme).2),
        ),
        v.after_drawing(layout) == v,
{
    let ops = v.screen_scene(layout, info);
    assert(ops[1] == prompt_scene(v, layout, v.text_prompt->0)[1]);
    assert(ops[2] == prompt_scene(v, layout, v.text_prompt->0)[2]);
    assert(ops[3] == prompt_scene(v, layout, v.text_prompt->0)[3]);
}

/// What each question is headed by.
pub proof fn law_questions_have_their_headings()
    ensures
        prompt_heading(TextPrompt::Rename) == "Rename document"@,
        prompt_heading(TextPrompt::SearchShelf) == "Search this shelf"@,
        prompt_heading(TextPrompt::FindDraft) == "Find in draft"@,
        prompt_heading(TextPrompt::WordTarget) == "Session word target"@,
        prompt_heading(TextPrompt::NewProject) == "New project"@,
        prompt_heading(TextPrompt::NewChapter) == "New chapter"@,
        lock_heading(LockPrompt::Create) == "Create Secret Thoughts password"@,
        lock_heading(LockPrompt::Confirm) == "Confirm password"@,
        lock_heading(LockPrompt::Unlock) == "Unlock Secret Thoughts"@,
{
}

/// A password is shown as stars, one for each character, and nothing else that is
/// drawn depends on what it holds: two passwords of the same length look the same.
pub proof fn law_passwords_do_not_show(
    v: AppView,
    password: Seq<char>,
    layout: Layout,
    info: Seq<char>,
)
    requires
        password.len() == v.password_input.len(),
        !v.help_visible,
        v.text_prompt is None,
        v.lock_prompt is Some,
        v.screen != Screen::Editor,
    ensures
        (AppView { password_input: password, ..v }).screen_scene(layout, info) == v.screen_scene(
            layout,
            info,
        ),
        says(
            v.screen_scene(layout, info),
            layout.margin_x as int,
            layout.margin_y + layout.line_height * 6,
            Seq::new(v.password_input.len(), |i: int| '*'),
            on_ground(v, theme::theme_colors(v.theme).3),
        ),
        says(
            v.screen_scene(layout, info),
            layout.margin_x as int,
            layout.margin_y + layout.line_height * 4,
            lock_heading(v.lock_prompt->0),
            on_ground(v, theme::theme_colors(v.theme).1),
        ),
        says(
            v.screen_scene(layout, info),
            layout.margin_x as int,
            layout.margin_y + layout.line_height * 8,
            v.message,
            on_ground(v, theme::theme_colors(v.theme).2),
        ),
        says(
            v.screen_scene(layout, info),
            layout.margin_x as int,
            framebuffer::less(layout.logical_height as int, 2 * layout.line_height),
            "Enter continue · F2 cancel"@,
            on_ground(v, theme::theme_colors(v.theme).2),
        ),
{
    let ops = v.screen_scene(layout, info);
    let stars = Seq::new(v.password_input.len(), |i: int| '*');
    assert(repeated('*', v.password_input.len()) == stars);
    let ground = theme::theme_colors(v.theme).0;
    let x = layout.margin_x as int;
    assert(ops[3] == OpView::Text(
        x,
        row_y(layout, 4),
        lock_heading(v.lock_prompt->0),
        foreground(v),
        ground,
    ));
    assert(ops[4] == OpView::Text(x, row_y(layout, 6), stars, accent(v), ground));
    assert(ops[5] == OpView::Text(x, row_y(layout, 8), v.message, muted(v), ground));
    assert(ops[6] == OpView::Text(
        x,
        foot_y(layout),
        "Enter continue · F2 cancel"@,
        muted(v),
        ground,
    ));
    let other = AppView { password_input: password, ..v };
    assert(other.screen_scene(layout, info) == ops);
}

/// The colours of an entry: the chosen one is drawn the other way round.
pub open spec fn entry_ink(v: AppView, k: int) -> Ink {
    if k == chosen_entry(v) {
        (theme::theme_colors(v.theme).0, theme::theme_colors(v.theme).1)
    } else {
        (theme::theme_colors(v.theme).2, theme::theme_colors(v.theme).0)
    }
}

proof fn lemma_entry_said(
    v: AppView,
    layout: Layout,
    entries: Seq<Seq<char>>,
    count: int,
    k: int,
)
    requires
        0 <= k < count,
    ensures
        says(
            entry_ops(v, layout, entries, count),
            layout.margin_x as int,
            row_y(layout, 4 + k),
            (if k == chosen_entry(v) {
                "› "@
            } else {
                "  "@
            }) + entries[k],
            entry_ink(v, k),
        ),
        k == chosen_entry(v) ==> entry_ops(v, layout, entries, count).contains(
            OpView::Rect(
                layout.margin_x as int / 2,
                row_y(layout, 4 + k),
                framebuffer::less(layout.logical_width as int, layout.margin_x as int),
                layout.line_height as int,
                foreground(v),
            ),
        ),
    decreases count,
{
    let ops = entry_ops(v, layout, entries, count);
    let less = entry_ops(v, layout, entries, count - 1);
    let mark = OpView::Rect(
        layout.margin_x as int / 2,
        row_y(layout, 4 + k),
        framebuffer::less(layout.logical_width as int, layout.margin_x as int),
        layout.line_height as int,
        foreground(v),
    );
    if k == count - 1 {
        assert(ops[ops.len() - 1] == ops.last());
        if k == chosen_entry(v) {
            assert(ops[ops.len() - 2] == mark);
        }
    } else {
        lemma_entry_said(v, layout, entries, count - 1, k);
        let words = if k == chosen_entry(v) {
            "› "@ + entries[k]
        } else {
            "  "@ + entries[k]
        };
        let more = ops.skip(less.len() as int);
        lemma_said_before(
            less,
            more,
            layout.margin_x as int,
            row_y(layout, 4 + k),
            words,
            entry_ink(v, k),
        );
        assert(less + more == ops);
        if k == chosen_entry(v) {
            let i = choose|i: int| 0 <= i < less.len() && less[i] == mark;
            assert(ops[i] == mark);
        }
    }
}

/// A list shows its title and its entries, one under the other, as many as find
/// room. The chosen one is marked and stands on a bar.
pub proof fn law_a_list_shows_its_entries(
    v: AppView,
    layout: Layout,
    info: Seq<char>,
    k: int,
)
    requires
        !v.help_visible,
        v.text_prompt is None,
        v.lock_prompt is None,
        v.screen != Screen::Editor,
        0 <= k < list_entries(v).len(),
        k < layout.content_rows - 5,
    ensures
        ({
            let ops = v.screen_scene(layout, info);
            let y = layout.margin_y + layout.line_height * (4 + k);
            &&& k == chosen_entry(v) ==> says(
                ops,
                layout.margin_x as int,
                y,
                "› "@ + list_entries(v)[k],
                entry_ink(v, k),
            ) && ops.contains(
                OpView::Rect(
                    layout.margin_x as int / 2,
                    y,
                    framebuffer::less(layout.logical_width as int, layout.margin_x as int),
                    layout.line_height as int,
                    theme::theme_colors(v.theme).1,
                ),
            )
            &&& k != chosen_entry(v) ==> says(
                ops,
                layout.margin_x as int,
                y,
                "  "@ + list_entries(v)[k],
                entry_ink(v, k),
            )
            &&& says(
                ops,
                layout.margin_x as int,
                layout.margin_y + layout.line_height * 2,
                list_title(v),
                on_ground(v, theme::theme_colors(v.theme).2),
            )
            &&& says(
                ops,
                layout.margin_x as int,
                framebuffer::less(layout.logical_height as int, 2 * layout.line_height),
                wrap::two_sided(list_footer(v), info, layout.columns as int),
                on_ground(v, theme::theme_colors(v.theme).2),
            )
        }),
        v.after_drawing(layout) == v,
{
    let ops = v.screen_scene(layout, info);
    let head = list_head(v, layout);
    let count = entries_shown(v, layout);
    let shown = entry_ops(v, layout, list_entries(v), count);
    lemma_entry_said(v, layout, list_entries(v), count, k);
    let words = if k == chosen_entry(v) {
        "› "@ + list_entries(v)[k]
    } else {
        "  "@ + list_entries(v)[k]
    };
    let x = layout.margin_x as int;
    let ink = entry_ink(v, k);
    lemma_said_before(shown, head, x, row_y(layout, 4 + k), words, ink);
    lemma_said_before(head + shown, seq![ops.last()], x, row_y(layout, 4 + k), words, ink);
    assert(head + shown + seq![ops.last()] == ops);
    assert(ops[2] == head[2]);
    assert(ops[ops.len() - 1] == ops.last());
    if k == chosen_entry(v) {
        let mark = OpView::Rect(
            x / 2,
            row_y(layout, 4 + k),
            framebuffer::less(layout.logical_width as int, x),
            layout.line_height as int,
            foreground(v),
        );
        let i = choose|i: int| 0 <= i < shown.len() && shown[i] == mark;
        assert(ops[head.len() + i] == mark);
    }
}

/// The list of shelves has their names; that of notes has the names of the notes
/// without their endings, or says that there is none yet.
pub proof fn law_lists_hold_names(v: AppView, k: int, folder: path::PathView, stem: Seq<char>)
    requires
        stem.len() > 0,
    ensures
        v.screen == Screen::Categories && 0 <= k < 9 ==> list_entries(v).len() == 9
            && list_entries(v)[k] == shelf::category_title(k) && chosen_entry(v)
            == v.category_index && list_title(v) == "Choose a shelf"@,
        v.screen == Screen::Documents && v.documents.len() > 0 ==> list_entries(v).len()
            == v.documents.len(),
        v.screen == Screen::Documents && 0 <= k < v.documents.len() && v.documents[k]
            == folder.joined(stem + seq!['.', 'm', 'd']) ==> list_entries(v)[k] == stem,
        v.screen == Screen::Documents && v.documents.len() == 0 ==> list_entries(v) == seq![
            "No writing yet — Enter creates one"@,
        ],
        v.screen == Screen::Documents ==> chosen_entry(v) == v.document_index && list_title(v)
            == shelf::category_title(v.category_index),
{
    reveal_strlit("..");
    let extension = seq!['m', 'd'];
    assert(extension[0] == 'm' && extension[1] == 'd');
    assert(!extension.contains('.'));
    path::law_names_are_cut_at_the_last_dot(stem, extension);
    let name = stem + seq!['.', 'm', 'd'];
    assert(stem + seq!['.'] + extension == name);
    assert(name.len() >= 4 && ".."@.len() == 2);
    let place = folder.joined(name);
    assert(place.parts.last() == name);
}

proof fn lemma_line_said(v: AppView, layout: Layout, count: int, k: int)
    requires
        0 <= k < count,
    ensures
        says(
            line_ops(v, layout, count),
            layout.margin_x as int,
            row_y(layout, k),
            v.row_text(layout.columns as int, v.scroll + k),
            on_ground(v, theme::theme_colors(v.theme).1),
        ),
    decreases count,
{
    let ops = line_ops(v, layout, count);
    let less = line_ops(v, layout, count - 1);
    if k == count - 1 {
        assert(ops[ops.len() - 1] == ops.last());
    } else {
        lemma_line_said(v, layout, count - 1, k);
        lemma_said_before(
            less,
            seq![ops.last()],
            layout.margin_x as int,
            row_y(layout, k),
            v.row_text(layout.columns as int, v.scroll + k),
            on_ground(v, theme::theme_colors(v.theme).1),
        );
        assert(less + seq![ops.last()] == ops);
    }
}

/// The page shows every row that is in sight, each at its height, and the line that
/// tells of the text under the last of them. The cursor is a stroke of the accent
/// at its row and column.
pub proof fn law_the_page_is_drawn_row_by_row(
    v: AppView,
    layout: Layout,
    info: Seq<char>,
    k: int,
)
    requires
        v.shows_page(),
        0 <= v.scroll,
    ensures
        ({
            let later = v.after_drawing(layout);
            let ops = v.screen_scene(layout, info);
            let columns = layout.columns as int;
            let (row, column) = later.cursor_place(columns);
            let end = layout.margin_y + layout.line_height * layout.content_rows;
            &&& 0 <= k < layout.content_rows && 0 <= later.scroll + k < later.rows(columns).len()
                ==> says(
                ops,
                layout.margin_x as int,
                layout.margin_y + layout.line_height * k,
                later.row_text(columns, later.scroll + k),
                on_ground(v, theme::theme_colors(v.theme).1),
            )
            &&& says(
                ops,
                layout.margin_x as int,
                end,
                wrap::truncated(status::screen_status(later, columns), columns),
                (theme::theme_colors(v.theme).1, theme::theme_colors(v.theme).4),
            )
            &&& ops.contains(
                OpView::Rect(
                    0,
                    end,
                    layout.logical_width as int,
                    layout.line_height as int,
                    theme::theme_colors(v.theme).4,
                ),
            )
            &&& says(
                ops,
                layout.margin_x as int,
                end + layout.line_height,
                wrap::two_sided(page_keys(columns), info, columns),
                on_ground(v, theme::theme_colors(v.theme).2),
            )
            &&& 0 <= row - later.scroll < layout.content_rows ==> ops.contains(
                OpView::Rect(
                    layout.margin_x + column * layout.cell_width,
                    layout.margin_y + layout.line_height * (row - later.scroll) + 3,
                    framebuffer::at_least(layout.cell_width as int / 10, 3),
                    framebuffer::less(layout.line_height as int, 6),
                    theme::theme_colors(v.theme).3,
                ),
            )
            &&& later == (AppView { scroll: later.scroll, ..v })
        }),
{
    let later = v.after_drawing(layout);
    let ops = v.screen_scene(layout, info);
    let columns = layout.columns as int;
    let count = later.rows_in_sight(columns, layout.content_rows as int);
    let head = page_head(later, layout) + blank_ops(later, layout);
    let lines = line_ops(later, layout, count);
    let foot = page_foot(later, layout, info);
    assert(ops == head + lines + foot);
    let x = layout.margin_x as int;
    if 0 <= k < layout.content_rows && 0 <= later.scroll + k < later.rows(columns).len() {
        assert(k < count);
        lemma_line_said(later, layout, count, k);
        let words = later.row_text(columns, later.scroll + k);
        let ink = on_ground(v, theme::theme_colors(v.theme).1);
        lemma_said_before(lines, head, x, row_y(layout, k), words, ink);
        lemma_said_before(head + lines, foot, x, row_y(layout, k), words, ink);
    }
    let base = (head + lines).len() as int;
    assert(ops[base] == foot[0] && ops[base + 1] == foot[1]);
    assert(ops[base + 2] == foot[2] && ops[base + 3] == foot[3]);
}

/// An empty page says something in its middle, from the third of its rows on; one
/// with a text says only the text.
pub proof fn law_an_empty_page_speaks(v: AppView, layout: Layout, info: Seq<char>)
    requires
        v.shows_page(),
        v.document.text.len() == 0,
    ensures
        says(
            v.screen_scene(layout, info),
            framebuffer::less(
                layout.logical_width as int,
                wrap::visible(status::blank_words(v.path)) * layout.cell_width,
            ) / 2,
            layout.margin_y + layout.line_height * (layout.content_rows as int / 3),
            status::blank_words(v.path),
            on_ground(v, theme::theme_colors(v.theme).2),
        ),
{
    let later = v.after_drawing(layout);
    let ops = v.screen_scene(layout, info);
    let head = page_head(later, layout);
    let blank = blank_ops(later, layout);
    assert(ops[head.len() as int] == blank[0]);
}

/// Beside the page runs a rail of the accent, as high as its rows, and over it
/// stand three dots at the right, each twice its width from the next.
pub proof fn law_the_page_has_its_ornaments(v: AppView, layout: Layout, info: Seq<char>, k: int)
    requires
        v.shows_page(),
        0 <= k < 3,
    ensures
        ({
            let ops = v.screen_scene(layout, info);
            let accent = theme::theme_colors(v.theme).3;
            let dot = framebuffer::at_least(layout.cell_width as int / 5, 5);
            &&& ops.contains(
                OpView::Rect(
                    layout.margin_x as int / 3,
                    layout.margin_y as int,
                    framebuffer::at_least(layout.cell_width as int / 8, 4),
                    layout.line_height * layout.content_rows,
                    accent,
                ),
            )
            &&& ops.contains(
                OpView::Rect(
                    framebuffer::less(
                        layout.logical_width as int,
                        layout.margin_x + dot * (k + 1) * 2,
                    ),
                    layout.margin_y as int / 2,
                    dot,
                    dot,
                    accent,
                ),
            )
        }),
{
    let later = v.after_drawing(layout);
    let ops = v.screen_scene(layout, info);
    let head = page_head(later, layout);
    assert(ops[1] == head[1]);
    assert(ops[2 + k] == head[2 + k]);
    assert(head[2] == dot_op(later, layout, 0) && head[3] == dot_op(later, layout, 1) && head[4]
        == dot_op(later, layout, 2));
}

/// Under the help lies a panel of the colour of the status, with a stripe of the
/// accent at its left.
pub proof fn law_the_help_lies_on_a_panel(v: AppView, layout: Layout, info: Seq<char>)
    requires
        v.help_visible,
    ensures
        v.screen_scene(layout, info).contains(
            OpView::Rect(
                layout.margin_x as int / 2,
                layout.margin_y as int / 2,
                framebuffer::less(layout.logical_width as int, layout.margin_x as int),
                11 * layout.line_height,
                theme::theme_colors(v.theme).4,
            ),
        ),
        v.screen_scene(layout, info).contains(
            OpView::Rect(
                layout.margin_x as int / 2,
                layout.margin_y as int / 2,
                framebuffer::at_least(layout.cell_width as int / 7, 4),
                11 * layout.line_height,
                theme::theme_colors(v.theme).3,
            ),
        ),
{
    let ops = v.screen_scene(layout, info);
    assert(ops[1] == help_scene(v, layout)[1] && ops[2] == help_scene(v, layout)[2]);
}

/// The page is drawn at the size that is set; the help, the questions and the lists
/// at sizes of their own.
pub proof fn law_sizes_go_by_what_is_shown(v: AppView)
    ensures
        v.help_visible ==> v.scene_size() == -4,
        !v.help_visible && (v.text_prompt is Some || v.screen != Screen::Editor) ==> v.scene_size()
            == -3,
        !v.help_visible && v.text_prompt is None && v.screen == Screen::Editor ==> v.scene_size()
            == v.zoom && v.shows_page(),
{
}

/// The keys named at the foot, where there is room for them.
pub proof fn law_keys_are_named_at_the_foot(v: AppView, columns: int)
    ensures
        v.screen == Screen::Categories ==> list_footer(v)
            == "↑↓ choose · Enter open · F5 theme · F7/F8 size"@,
        v.screen == Screen::Documents ==> list_footer(v)
            == "↑↓ choose · Enter open · Ctrl+N new · F2 back"@,
        columns < 36 ==> page_keys(columns) == " F1 help · F5 · F6 "@,
        columns >= 36 ==> page_keys(columns)
            == " F1 help · F5 theme · F6 rotate · F7 larger · F8 smaller "@,
{
}

} // verus!
