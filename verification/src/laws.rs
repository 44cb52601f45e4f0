//! What holds of the desk as a whole.
use vstd::prelude::*;

use crate::app;
use crate::app::{ActionView, AppView, LockPrompt, Screen, PASSWORD_LENGTH};
use crate::book;
use crate::framebuffer;
use crate::handle;
use crate::keys::Key;
use crate::order;
use crate::path;
use crate::shelf;
use crate::text;
use crate::theme;

verus! {

/// Leaving the encrypted shelf closes the vault: whichever key leads to the
/// shelves, the key of the vault is gone. So it is where a note of that shelf is
/// left, of which nothing remains on the page, and when the session ends.
pub proof fn law_leaving_closes_the_vault(
    desk: AppView,
    key: Key,
    page_height: int,
    page_width: int,
    now: u64,
    place: path::PathView,
)
    ensures
        ({
            let next = desk.handled(key, page_height, page_width, now).0;
            desk.screen != Screen::Categories && next.screen == Screen::Categories
                ==> next.secret_key is None && !next.secret_unlocked
        }),
        desk.secret_left(place).secret_key is None,
        !desk.secret_left(place).secret_unlocked,
        desk.secret_left(place).document.text.len() == 0,
        desk.secret_left(place).document.undo.len() == 0,
        desk.secret_left(place).document.redo.len() == 0,
        desk.locked().secret_key is None,
{
}

/// The key that ends the session does so everywhere, and no other key does.
pub proof fn law_one_key_ends_the_session(
    desk: AppView,
    key: Key,
    page_height: int,
    page_width: int,
    now: u64,
)
    ensures
        desk.handled(key, page_height, page_width, now).1 == ActionView::Quit <==> key == Key::Quit,
        key == Key::Quit ==> desk.handled(key, page_height, page_width, now).0 == desk,
{
}

/// The help opens and closes, the theme changes, the page turns and the text
/// grows and shrinks at any time: whatever is shown and whatever is asked, which
/// stays as it was.
pub proof fn law_the_display_changes_everywhere(
    desk: AppView,
    page_height: int,
    page_width: int,
    now: u64,
)
    ensures
        desk.handled(Key::Help, page_height, page_width, now) == (
            AppView { help_visible: !desk.help_visible, ..desk },
            ActionView::Continue,
        ),
        desk.handled(Key::Theme, page_height, page_width, now) == (
            AppView { theme: (desk.theme + 1) % theme::THEME_COUNT as int, ..desk },
            ActionView::StoreDisplay(true),
        ),
        desk.handled(Key::Rotate, page_height, page_width, now) == (
            AppView { rotation: (desk.rotation + 1) % 4, scroll: 0, ..desk },
            ActionView::StoreDisplay(false),
        ),
        desk.handled(Key::Larger, page_height, page_width, now) == (
            desk.larger().from_the_start(),
            ActionView::StoreDisplay(false),
        ),
        desk.handled(Key::Smaller, page_height, page_width, now) == (
            desk.smaller().from_the_start(),
            ActionView::StoreDisplay(false),
        ),
{
}

/// A key with the size of the page and the time at which it was pressed.
pub struct Press {
    pub key: Key,
    pub page_height: int,
    pub page_width: int,
    pub now: u64,
}

/// The desk after keys, one after the other.
pub open spec fn after_presses(desk: AppView, presses: Seq<Press>) -> AppView
    decreases presses.len(),
{
    if presses.len() == 0 {
        desk
    } else {
        let before = after_presses(desk, presses.drop_last());
        let press = presses.last();
        before.handled(press.key, press.page_height, press.page_width, press.now).0
    }
}

proof fn lemma_answer_keeps_the_bounds(desk: AppView)
    requires
        desk.in_bounds(),
    ensures
        desk.answered().0.in_bounds(),
{
}

proof fn lemma_prompt_keeps_the_bounds(desk: AppView, key: Key)
    requires
        desk.in_bounds(),
    ensures
        desk.prompt_key(key).0.in_bounds(),
        desk.password_key(key).0.in_bounds(),
{
    lemma_answer_keeps_the_bounds(desk);
}

proof fn lemma_display_keeps_the_bounds(desk: AppView, key: Key)
    requires
        desk.in_bounds(),
    ensures
        desk.everywhere(key) matches Some(step) ==> step.0.in_bounds(),
{
}

proof fn lemma_list_keeps_the_bounds(desk: AppView, key: Key)
    requires
        desk.in_bounds(),
    ensures
        desk.documents_key(key).0.in_bounds(),
        desk.categories_key(key).0.in_bounds(),
        desk.browser_key(key).0.in_bounds(),
{
}

proof fn lemma_page_keeps_the_bounds(
    desk: AppView,
    key: Key,
    page_height: int,
    page_width: int,
    now: u64,
)
    requires
        desk.in_bounds(),
    ensures
        desk.typed(key, page_height, page_width) matches Some(next) ==> next.in_bounds(),
        desk.commanded(key, now).0.in_bounds(),
{
}

/// No sequence of keys takes the settings or the choices out of their ranges.
pub proof fn law_keys_keep_the_bounds(desk: AppView, presses: Seq<Press>)
    requires
        desk.in_bounds(),
    ensures
        after_presses(desk, presses).in_bounds(),
    decreases presses.len(),
{
    if presses.len() > 0 {
        law_keys_keep_the_bounds(desk, presses.drop_last());
        let before = after_presses(desk, presses.drop_last());
        let press = presses.last();
        lemma_prompt_keeps_the_bounds(before, press.key);
        lemma_display_keeps_the_bounds(before, press.key);
        lemma_list_keeps_the_bounds(before, press.key);
        lemma_page_keeps_the_bounds(
            before,
            press.key,
            press.page_height,
            press.page_width,
            press.now,
        );
    }
}

/// In a note of the encrypted shelf, the key that leads to the shelves asks for
/// the note to be saved and left.
pub proof fn law_a_secret_note_is_left_through_its_closing(
    desk: AppView,
    key: Key,
    page_height: int,
    page_width: int,
    now: u64,
)
    requires
        desk.screen == Screen::Editor,
        desk.text_prompt is None,
        desk.lock_prompt is None,
        !desk.help_visible,
        desk.secret(desk.path),
        key == Key::Browser || key == Key::Escape,
    ensures
        desk.handled(key, page_height, page_width, now) == (desk, ActionView::CloseSecretEditor),
{
}

/// The encrypted shelf opens only with the password: while it is locked, the key
/// that opens a shelf asks for it.
pub proof fn law_a_locked_shelf_asks_for_its_password(
    desk: AppView,
    page_height: int,
    page_width: int,
    now: u64,
)
    requires
        desk.wf(),
        desk.screen == Screen::Categories,
        desk.category_index == shelf::SECRET_CATEGORY_INDEX,
        desk.text_prompt is None,
        desk.lock_prompt is None,
        !desk.help_visible,
        desk.secret_key is None,
    ensures
        desk.handled(Key::Enter, page_height, page_width, now) == (desk, ActionView::ProbeLock),
{
}

/// A lock is made only of a password that was typed twice and has enough
/// characters.
pub proof fn law_locks_are_made_of_long_passwords_typed_twice(
    desk: AppView,
    key: Key,
    page_height: int,
    page_width: int,
    now: u64,
)
    requires
        desk.wf(),
        desk.handled(key, page_height, page_width, now).1 == ActionView::CreateLock,
    ensures
        desk.lock_prompt == Some(LockPrompt::Confirm),
        desk.password_input == desk.password_confirmation,
        desk.password_input.len() >= PASSWORD_LENGTH,
{
}

/// While a question or a password is asked for, a list is shown or the help is
/// open, no key changes the text.
pub proof fn law_keys_elsewhere_leave_the_text_alone(
    desk: AppView,
    key: Key,
    page_height: int,
    page_width: int,
    now: u64,
)
    requires
        desk.text_prompt is Some || desk.lock_prompt is Some || desk.screen != Screen::Editor
            || desk.help_visible,
    ensures
        desk.handled(key, page_height, page_width, now).0.document.text == desk.document.text,
{
}

/// Saving changes neither the text, nor the cursor, nor what can be undone.
pub proof fn law_saving_keeps_the_text(desk: AppView, now: int)
    ensures
        desk.saved(now).document.now() == desk.document.now(),
        desk.saved(now).document.undo == desk.document.undo,
        desk.saved(now).document.redo == desk.document.redo,
        !desk.saved(now).document.dirty,
{
}

/// The theme key comes back to the same theme after all of them, and the key
/// that turns the page after four turns.
pub proof fn law_themes_and_turns_come_round(desk: AppView)
    requires
        desk.wf(),
    ensures
        desk.next_theme().next_theme().next_theme().theme == desk.theme,
        ({
            let turned = |d: AppView| (d.everywhere(Key::Rotate)->0).0;
            turned(turned(turned(turned(desk)))).rotation == desk.rotation
        }),
{
}

/// Pinning a note twice leaves the same notes pinned as before.
pub proof fn law_pinning_twice_changes_nothing(desk: AppView, note: path::PathView)
    requires
        desk.wf(),
    ensures
        desk.pin_toggled().0.pin_toggled().0.pinned.contains(note) == desk.pinned.contains(note),
{
    if let Some(chosen) = desk.selected() {
        handle::lemma_unpinned(desk.pinned, chosen);
        let once = desk.pin_toggled().0;
        if desk.pinned.contains(chosen) {
            let rest = app::unpinned(desk.pinned, chosen);
            assert(once.pinned == rest);
            let twice = once.pin_toggled().0.pinned;
            assert(twice == rest.push(chosen));
            assert(twice[rest.len() as int] == chosen);
            if rest.contains(note) {
                let k = choose|k: int| 0 <= k < rest.len() && rest[k] == note;
                assert(twice[k] == note);
            }
            if twice.contains(note) {
                let k = choose|k: int| 0 <= k < twice.len() && twice[k] == note;
                if k < rest.len() {
                    assert(rest[k] == note);
                }
            }
        } else {
            let more = desk.pinned.push(chosen);
            assert(once.pinned == more);
            assert(more[desk.pinned.len() as int] == chosen);
            assert(more.contains(chosen));
            handle::lemma_unpinned(more, chosen);
            let twice = once.pin_toggled().0.pinned;
            assert(twice == app::unpinned(more, chosen));
            if desk.pinned.contains(note) {
                let k = choose|k: int| 0 <= k < desk.pinned.len() && desk.pinned[k] == note;
                assert(more[k] == note);
                assert(more.contains(note));
            }
            if more.contains(note) && note != chosen {
                let k = choose|k: int| 0 <= k < more.len() && more[k] == note;
                assert(desk.pinned[k] == note);
            }
        }
    }
}

proof fn lemma_filter_members(
    notes: Seq<path::PathView>,
    wanted: spec_fn(path::PathView) -> bool,
    note: path::PathView,
)
    ensures
        notes.filter(wanted).contains(note) <==> notes.contains(note) && wanted(note),
    decreases notes.len(),
{
    reveal(Seq::filter);
    if notes.len() > 0 {
        let shorter = notes.drop_last();
        lemma_filter_members(shorter, wanted, note);
        assert(notes == shorter.push(notes.last()));
        lemma_push_members(shorter, notes.last(), note);
        if wanted(notes.last()) {
            lemma_push_members(shorter.filter(wanted), notes.last(), note);
        }
    }
}

proof fn lemma_push_members<V>(items: Seq<V>, item: V, other: V)
    ensures
        items.push(item).contains(other) <==> items.contains(other) || other == item,
{
    let more = items.push(item);
    assert(more[items.len() as int] == item);
    if items.contains(other) {
        let k = choose|k: int| 0 <= k < items.len() && items[k] == other;
        assert(more[k] == other);
    }
    if more.contains(other) {
        let k = choose|k: int| 0 <= k < more.len() && more[k] == other;
        if k < items.len() {
            assert(items[k] == other);
        }
    }
}

/// A list shows just the notes it is given, the pinned ones before all others.
pub proof fn law_pinned_notes_come_first(
    notes: Seq<path::PathView>,
    pinned: Seq<path::PathView>,
    note: path::PathView,
)
    ensures
        app::pinned_first(notes, pinned).contains(note) == notes.contains(note),
        forall|i: int, j: int|
            0 <= i < j < app::pinned_first(notes, pinned).len() && pinned.contains(
                #[trigger] app::pinned_first(notes, pinned)[j],
            ) ==> pinned.contains(#[trigger] app::pinned_first(notes, pinned)[i]),
{
    let first = |n: path::PathView| pinned.contains(n);
    let rest = |n: path::PathView| !pinned.contains(n);
    let a = notes.filter(first);
    let b = notes.filter(rest);
    let all = app::pinned_first(notes, pinned);
    assert(all == a + b);
    lemma_filter_members(notes, first, note);
    lemma_filter_members(notes, rest, note);
    if a.contains(note) {
        let k = choose|k: int| 0 <= k < a.len() && a[k] == note;
        assert(all[k] == note);
    }
    if b.contains(note) {
        let k = choose|k: int| 0 <= k < b.len() && b[k] == note;
        assert(all[a.len() + k] == note);
    }
    if all.contains(note) {
        let k = choose|k: int| 0 <= k < all.len() && all[k] == note;
        if k < a.len() {
            assert(a[k] == note);
        } else {
            assert(b[k - a.len()] == note);
        }
    }
    assert forall|i: int, j: int|
        0 <= i < j < all.len() && pinned.contains(#[trigger] all[j]) implies pinned.contains(
        #[trigger] all[i],
    ) by {
        broadcast use vstd::seq_lib::group_filter_ensures;

        if j >= a.len() {
            assert(rest(b[j - a.len()]));
        } else {
            assert(first(a[i]));
        }
    }
}

/// A search shows just the notes whose name or text holds what was looked for.
pub proof fn law_a_search_shows_what_answers(
    notes: Seq<path::PathView>,
    texts: Seq<Option<Seq<char>>>,
    query: Seq<char>,
    count: int,
    note: path::PathView,
)
    requires
        0 <= count <= notes.len(),
    ensures
        app::answering(notes, texts, query, count).contains(note) <==> exists|i: int|
            0 <= i < count && #[trigger] notes[i] == note && app::answers(
                note,
                app::text_at(texts, i),
                query,
            ),
    decreases count,
{
    if count > 0 {
        law_a_search_shows_what_answers(notes, texts, query, count - 1, note);
        let before = app::answering(notes, texts, query, count - 1);
        let last = notes[count - 1];
        lemma_push_members(before, last, note);
        if before.contains(note) {
            let i = choose|i: int|
                0 <= i < count - 1 && #[trigger] notes[i] == note && app::answers(
                    note,
                    app::text_at(texts, i),
                    query,
                );
            assert(notes[i] == note);
        }
    }
}

/// The shelves do not mix: a shelf shows a file only if it is a Markdown file of
/// its folder, or, on the first shelf, one that lies in the writing directory
/// itself.
pub proof fn law_a_shelf_shows_its_own_notes(
    directory: path::PathView,
    index: int,
    files: Seq<shelf::FileView>,
    k: int,
)
    requires
        0 <= k < shelf::shelf_notes(directory, index, files).len(),
    ensures
        ({
            let file = shelf::shelf_notes(directory, index, files)[k];
            ||| shelf::note_in(
                shelf::category_folder(directory, index),
                index == shelf::PROJECTS_CATEGORY_INDEX,
                file,
            )
            ||| index == 0 && shelf::note_in(directory, false, file)
        }),
{
    let folder = shelf::category_folder(directory, index);
    let deep = index == shelf::PROJECTS_CATEGORY_INDEX;
    let own = shelf::note_views(folder, deep, files);
    let loose = shelf::note_views(directory, false, files);
    let all = if index == 0 {
        loose + own
    } else {
        own
    };
    let good = |file: shelf::FileView|
        shelf::note_in(folder, deep, file) || (index == 0 && shelf::note_in(
            directory,
            false,
            file,
        ));
    assert forall|i: int| 0 <= i < all.len() implies good(#[trigger] all[i]) by {
        broadcast use vstd::seq_lib::group_filter_ensures;

        if index == 0 && i < loose.len() {
            assert(shelf::note_in(directory, false, loose[i]));
        } else if index == 0 {
            assert(shelf::note_in(folder, deep, own[i - loose.len()]));
        } else {
            assert(shelf::note_in(folder, deep, own[i]));
        }
    }
    order::lemma_sorted_by_keeps(
        all,
        |a: shelf::FileView, b: shelf::FileView| shelf::newer(a, b),
        good,
    );
    assert(good(shelf::shelf_notes(directory, index, files)[k]));
}

proof fn lemma_offsets_grow(s: Seq<char>, a: int, b: int)
    requires
        0 <= a <= b <= s.len(),
    ensures
        app::byte_offset(s, a) <= app::byte_offset(s, b),
        a < b ==> app::byte_offset(s, a) < app::byte_offset(s, b),
    decreases b,
{
    if a < b {
        lemma_offsets_grow(s, a, b - 1);
    }
}

proof fn lemma_place_of_offset(s: Seq<char>, place: int, at: int)
    requires
        0 <= at <= place <= s.len(),
    ensures
        app::place_of_byte(s, app::byte_offset(s, place), at) == Some(place),
    decreases place - at,
{
    lemma_offsets_grow(s, at, place);
    if at < place {
        lemma_place_of_offset(s, place, at + 1);
    }
}

/// Whether two texts have the same number of characters, each as long in UTF-8 as
/// the other's.
pub open spec fn same_widths(a: Seq<char>, b: Seq<char>) -> bool {
    a.len() == b.len() && forall|i: int|
        0 <= i < a.len() ==> #[trigger] app::utf8_length(a[i]) == app::utf8_length(b[i])
}

proof fn lemma_same_offsets(a: Seq<char>, b: Seq<char>, count: int)
    requires
        same_widths(a, b),
        0 <= count <= a.len(),
    ensures
        app::byte_offset(a, count) == app::byte_offset(b, count),
    decreases count,
{
    if count > 0 {
        lemma_same_offsets(a, b, count - 1);
        assert(app::utf8_length(a[count - 1]) == app::utf8_length(b[count - 1]));
    }
}

/// Where the lower-case form of a text keeps the places of its characters, as it
/// does for all ASCII, a search that starts anywhere misses the query only if it
/// stands nowhere, and otherwise goes to a place where it stands: the first from
/// the start on or, if there is none, the first of all.
pub proof fn law_a_search_finds_what_is_there(
    text: Seq<char>,
    lower: Seq<char>,
    start: int,
    query: Seq<char>,
)
    requires
        0 <= start <= text.len(),
        same_widths(text, lower) || text::ascii(text) && text::ascii(lower) && text.len()
            == lower.len(),
    ensures
        match app::searched(text, start, lower, query) {
            app::Search::Found(place) => {
                &&& text::occurs_at(lower, query, place)
                &&& forall|at: int|
                    start <= at && text::occurs_at(lower, query, at) ==> start <= place <= at
                &&& place < start ==> forall|at: int|
                    text::occurs_at(lower, query, at) ==> place <= at
            },
            app::Search::Missing => !text::occurs_in(lower, query),
            app::Search::Lost => false,
        },
        app::searched(text, start, lower, query) is Missing <==> !text::occurs_in(lower, query),
{
    assert(same_widths(text, lower));
    lemma_same_offsets(text, lower, start);
    lemma_place_of_offset(lower, start, 0);
    text::lemma_first_occurrence(lower, query, start);
    text::lemma_first_occurrence(lower, query, 0);
    if let Some(found) = app::search_round(lower, query, start) {
        lemma_same_offsets(text, lower, found);
        lemma_place_of_offset(text, found, 0);
    }
}

proof fn lemma_manuscript_grows(chapters: Seq<Seq<char>>, a: int, b: int)
    requires
        0 <= a <= b <= chapters.len(),
    ensures
        book::manuscript(chapters, a).is_prefix_of(book::manuscript(chapters, b)),
    decreases b,
{
    let small = book::manuscript(chapters, a);
    let large = book::manuscript(chapters, b);
    if a < b {
        lemma_manuscript_grows(chapters, a, b - 1);
        let middle = book::manuscript(chapters, b - 1);
        assert(middle == large.take(middle.len() as int));
        assert(small == large.take(small.len() as int));
    } else {
        assert(small == large.take(small.len() as int));
    }
}

/// Where a chapter begins in the manuscript: behind all before it and the rule
/// between.
pub open spec fn chapter_start(chapters: Seq<Seq<char>>, index: int) -> int {
    if index == 0 {
        0
    } else {
        (book::manuscript(chapters, index).len() + "\n\n---\n\n"@.len()) as int
    }
}

/// A manuscript holds every chapter whole, each behind the one before.
pub proof fn law_chapters_follow_in_order(chapters: Seq<Seq<char>>, index: int)
    requires
        0 <= index < chapters.len(),
    ensures
        text::occurs_at(
            book::manuscript(chapters, chapters.len() as int),
            chapters[index],
            chapter_start(chapters, index),
        ),
        index + 1 < chapters.len() ==> chapter_start(chapters, index) + chapters[index].len()
            <= chapter_start(chapters, index + 1),
{
    let whole = book::manuscript(chapters, chapters.len() as int);
    let part = book::manuscript(chapters, index + 1);
    let start = chapter_start(chapters, index);
    let end = start + chapters[index].len();
    lemma_manuscript_grows(chapters, index + 1, chapters.len() as int);
    let before = book::manuscript(chapters, index);
    let written = if index > 0 {
        before + "\n\n---\n\n"@ + chapters[index]
    } else {
        before + chapters[index]
    };
    assert(written.subrange(start, end) == chapters[index]);
    assert(part.subrange(start, end) == written.subrange(start, end));
    assert(part == whole.take(part.len() as int));
    assert(whole.subrange(start, end) == part.subrange(start, end));
}

proof fn lemma_row_length(
    format: framebuffer::ScreenFormat,
    memory: Seq<u8>,
    x: int,
    y: int,
    width: int,
    color: theme::Rgb,
    rotation: u8,
)
    ensures
        framebuffer::row_painted(format, memory, x, y, width, color, rotation).len()
            == memory.len(),
    decreases width,
{
    if width > 0 {
        lemma_row_length(format, memory, x, y, width - 1, color, rotation);
    }
}

/// Painting changes bytes of the screen and never how many there are.
pub proof fn law_painting_stays_on_the_screen(
    format: framebuffer::ScreenFormat,
    memory: Seq<u8>,
    x: int,
    y: int,
    width: int,
    rows: int,
    color: theme::Rgb,
    rotation: u8,
)
    ensures
        framebuffer::rect_painted(format, memory, x, y, width, rows, color, rotation).len()
            == memory.len(),
    decreases rows,
{
    if rows > 0 {
        law_painting_stays_on_the_screen(
            format,
            memory,
            x,
            y,
            width,
            rows - 1,
            color,
            rotation,
        );
        let above = framebuffer::rect_painted(
            format,
            memory,
            x,
            y,
            width,
            rows - 1,
            color,
            rotation,
        );
        lemma_row_length(format, above, x, y + rows - 1, width, color, rotation);
    }
}

/// On an upright screen whose rows fit into memory, a painted place holds the
/// bytes of its colour, and a place beside it keeps its own.
pub proof fn law_a_painted_place_holds_its_colour(
    format: framebuffer::ScreenFormat,
    memory: Seq<u8>,
    x: int,
    y: int,
    color: theme::Rgb,
    other: int,
)
    requires
        format.sound(),
        0 <= x < format.width,
        0 <= y < format.height,
        format.stride >= format.width * format.bytes_per_pixel,
        memory.len() >= format.height * format.stride,
    ensures
        ({
            let offset = y * format.stride + x * format.bytes_per_pixel;
            let after = framebuffer::painted(format, memory, x, y, color, 0);
            &&& after.subrange(offset, offset + format.bytes_per_pixel)
                == framebuffer::pixel_bytes(format, color)
            &&& 0 <= other < memory.len() && !(offset <= other < offset + format.bytes_per_pixel)
                ==> after[other] == memory[other]
        }),
{
    let stride = format.stride as int;
    let depth = format.bytes_per_pixel as int;
    let offset = y * stride + x * depth;
    assert(0 <= offset && offset + depth <= memory.len()) by (nonlinear_arith)
        requires
            0 <= x < format.width,
            0 <= y < format.height,
            0 < depth,
            stride >= format.width * depth,
            offset == y * stride + x * depth,
            memory.len() >= format.height * stride,
    ;
    let bytes = framebuffer::pixel_bytes(format, color);
    assert(bytes.len() == depth);
    let after = framebuffer::painted(format, memory, x, y, color, 0);
    assert(after == framebuffer::written(memory, offset, bytes));
    assert(after.subrange(offset, offset + depth) == bytes);
}

proof fn lemma_offset_from_the_front(s: Seq<char>, count: int)
    requires
        0 < count <= s.len(),
    ensures
        app::byte_offset(s, count) == app::utf8_length(s[0]) + app::byte_offset(
            s.drop_first(),
            count - 1,
        ),
    decreases count,
{
    reveal_with_fuel(app::byte_offset, 2);
    if count > 1 {
        lemma_offset_from_the_front(s, count - 1);
        assert(s.drop_first()[count - 2] == s[count - 1]);
    }
}

proof fn lemma_bytes_of_all(s: Seq<char>)
    ensures
        vstd::utf8::encode_utf8(s).len() == app::byte_offset(s, s.len() as int),
    decreases s.len(),
{
    if s.len() > 0 {
        lemma_bytes_of_all(s.drop_first());
        lemma_offset_from_the_front(s, s.len() as int);
        lemma_scalar_bytes(s[0]);
    }
}

proof fn lemma_scalar_bytes(c: char)
    ensures
        vstd::utf8::encode_scalar(c as u32).len() == app::utf8_length(c),
{
}

/// The bytes by which places in a text are counted are those of its UTF-8 form.
pub proof fn law_places_are_counted_by_their_bytes(s: Seq<char>, count: int)
    requires
        0 <= count <= s.len(),
    ensures
        app::byte_offset(s, count) == vstd::utf8::encode_utf8(s.take(count)).len(),
        app::place_of_byte(s, app::byte_offset(s, count), 0) == Some(count),
{
    lemma_bytes_of_all(s.take(count));
    lemma_same_start(s, count, count);
    lemma_place_of_offset(s, count, 0);
}

proof fn lemma_same_start(s: Seq<char>, count: int, k: int)
    requires
        0 <= k <= count <= s.len(),
    ensures
        app::byte_offset(s.take(count), k) == app::byte_offset(s, k),
    decreases k,
{
    if k > 0 {
        lemma_same_start(s, count, k - 1);
        assert(s.take(count)[k - 1] == s[k - 1]);
    }
}

} // verus!
