//! What every key does at the desk, wherever it is pressed.
use vstd::prelude::*;

use crate::app::{ActionView, AppView, LockPrompt, Screen, TextPrompt};
use crate::document;
use crate::keys::Key;
use crate::outline;
use crate::path;
use crate::shelf;
use crate::text;

verus! {

/// Whether nothing lies over the desk: no help, no question, no password.
pub open spec fn clear(desk: AppView) -> bool {
    !desk.help_visible && desk.text_prompt is None && desk.lock_prompt is None
}

/// Whether keys go to the page.
pub open spec fn at_page(desk: AppView) -> bool {
    clear(desk) && desk.screen == Screen::Editor
}

/// Whether keys go to the list of notes.
pub open spec fn at_notes(desk: AppView) -> bool {
    clear(desk) && desk.screen == Screen::Documents
}

/// Whether keys go to the list of shelves.
pub open spec fn at_shelves(desk: AppView) -> bool {
    clear(desk) && desk.screen == Screen::Categories
}

/// The desk after a key.
pub open spec fn after(desk: AppView, key: Key, height: int, width: int, now: u64) -> AppView {
    desk.handled(key, height, width, now).0
}

/// What a key asks for.
pub open spec fn asked(desk: AppView, key: Key, height: int, width: int, now: u64) -> ActionView {
    desk.handled(key, height, width, now).1
}

/// Whether of a desk nothing but the document has changed.
pub open spec fn only_the_document(before: AppView, later: AppView) -> bool {
    later == (AppView { document: later.document, ..before })
}

/// A character that is typed on the page stands in the text behind all that was
/// before the cursor and before all that was behind it, and the key for a new line
/// puts a line feed there.
pub proof fn law_the_page_takes_what_is_typed(
    desk: AppView,
    c: char,
    height: int,
    width: int,
    now: u64,
)
    requires
        at_page(desk),
        desk.wf(),
    ensures
        ({
            let later = after(desk, Key::Char(c), height, width, now);
            let cursor = desk.document.cursor;
            &&& only_the_document(desk, later)
            &&& asked(desk, Key::Char(c), height, width, now) == ActionView::Continue
            &&& later.document.text == desk.document.text.take(cursor) + seq![c]
                + desk.document.text.skip(cursor)
            &&& later.document.cursor == cursor + 1
            &&& later.document.dirty
        }),
        after(desk, Key::Enter, height, width, now) == after(
            desk,
            Key::Char('\n'),
            height,
            width,
            now,
        ),
        asked(desk, Key::Enter, height, width, now) == ActionView::Continue,
{
}

/// On the page one key removes the character before the cursor and another the
/// one behind it; at the ends of the text there is nothing to remove.
pub proof fn law_the_page_gives_up_characters(desk: AppView, height: int, width: int, now: u64)
    requires
        at_page(desk),
        desk.wf(),
    ensures
        ({
            let text = desk.document.text;
            let cursor = desk.document.cursor;
            let back = after(desk, Key::Backspace, height, width, now);
            let ahead = after(desk, Key::Delete, height, width, now);
            &&& only_the_document(desk, back) && only_the_document(desk, ahead)
            &&& asked(desk, Key::Backspace, height, width, now) == ActionView::Continue
            &&& asked(desk, Key::Delete, height, width, now) == ActionView::Continue
            &&& cursor > 0 ==> back.document.text == text.take(cursor - 1) + text.skip(cursor)
                && back.document.cursor == cursor - 1 && back.document.dirty
            &&& cursor == 0 ==> back == desk
            &&& cursor < text.len() ==> ahead.document.text == text.take(cursor) + text.skip(
                cursor + 1,
            ) && ahead.document.cursor == cursor && ahead.document.dirty
            &&& cursor == text.len() ==> ahead == desk
        }),
{
}

/// The keys that move the cursor on the page leave the text and all else as it
/// is: one goes a character to the left and one to the right, as far as there are
/// any, one to the beginning of the line and one to its end.
pub proof fn law_the_cursor_goes_where_it_is_sent(
    desk: AppView,
    height: int,
    width: int,
    now: u64,
    i: int,
)
    requires
        at_page(desk),
        desk.wf(),
    ensures
        ({
            let text = desk.document.text;
            let cursor = desk.document.cursor;
            let left = after(desk, Key::Left, height, width, now);
            let right = after(desk, Key::Right, height, width, now);
            let home = after(desk, Key::Home, height, width, now);
            let end = after(desk, Key::End, height, width, now);
            &&& only_the_document(desk, left) && left.document == (document::DocumentView {
                cursor: left.document.cursor,
                preferred_column: None,
                ..desk.document
            })
            &&& only_the_document(desk, right) && right.document == (document::DocumentView {
                cursor: right.document.cursor,
                preferred_column: None,
                ..desk.document
            })
            &&& only_the_document(desk, home) && home.document == (document::DocumentView {
                cursor: home.document.cursor,
                preferred_column: None,
                ..desk.document
            })
            &&& only_the_document(desk, end) && end.document == (document::DocumentView {
                cursor: end.document.cursor,
                preferred_column: None,
                ..desk.document
            })
            &&& cursor > 0 ==> left.document.cursor == cursor - 1
            &&& cursor == 0 ==> left.document.cursor == 0
            &&& cursor < text.len() ==> right.document.cursor == cursor + 1
            &&& cursor == text.len() ==> right.document.cursor == cursor
            &&& 0 <= home.document.cursor <= cursor
            &&& home.document.cursor == 0 || text[home.document.cursor - 1] == '\n'
            &&& home.document.cursor <= i < cursor ==> text[i] != '\n'
            &&& cursor <= end.document.cursor <= text.len()
            &&& end.document.cursor == text.len() || text[end.document.cursor] == '\n'
            &&& cursor <= i < end.document.cursor ==> text[i] != '\n'
        }),
        asked(desk, Key::Left, height, width, now) == ActionView::Continue,
        asked(desk, Key::Right, height, width, now) == ActionView::Continue,
        asked(desk, Key::Home, height, width, now) == ActionView::Continue,
        asked(desk, Key::End, height, width, now) == ActionView::Continue,
{
    document::law_line_start_is_the_nearest(desk.document.text, desk.document.cursor);
    document::law_line_end_is_the_nearest(desk.document.text, desk.document.cursor);
    let text = desk.document.text;
    let cursor = desk.document.cursor;
    let start = document::line_start_of(text, cursor);
    let end = document::line_end_of(text, cursor);
    if start <= i < cursor {
        assert(text.subrange(start, cursor)[i - start] == text[i]);
    }
    if cursor <= i < end {
        assert(text.subrange(cursor, end)[i - cursor] == text[i]);
    }
}

/// The cursor goes up and down by one row, or by as many as the page has.
pub proof fn law_the_cursor_goes_by_rows_and_pages(
    desk: AppView,
    height: int,
    width: int,
    now: u64,
)
    requires
        at_page(desk),
    ensures
        desk.handled(Key::Up, height, width, now) == (
            AppView { document: desk.document.moved_rows(width, -1), ..desk },
            ActionView::Continue,
        ),
        desk.handled(Key::Down, height, width, now) == (
            AppView { document: desk.document.moved_rows(width, 1), ..desk },
            ActionView::Continue,
        ),
        desk.handled(Key::PageUp, height, width, now) == (
            AppView { document: desk.document.moved_rows(width, 0 - height), ..desk },
            ActionView::Continue,
        ),
        desk.handled(Key::PageDown, height, width, now) == (
            AppView { document: desk.document.moved_rows(width, height), ..desk },
            ActionView::Continue,
        ),
{
}

/// What was typed can be taken back and brought again, and the desk says so; it
/// also says where there is nothing to take back or to bring.
pub proof fn law_typing_is_taken_back_and_brought_again(
    desk: AppView,
    c: char,
    height: int,
    width: int,
    now: u64,
)
    requires
        at_page(desk),
        desk.wf(),
    ensures
        ({
            let typed = after(desk, Key::Char(c), height, width, now);
            let back = after(typed, Key::Undo, height, width, now);
            let again = after(back, Key::Redo, height, width, now);
            &&& back.document.text == desk.document.text
            &&& back.document.cursor == desk.document.cursor
            &&& back.message == "undo"@
            &&& again.document.text == typed.document.text
            &&& again.document.cursor == typed.document.cursor
            &&& again.message == "redo"@
        }),
        desk.document.undo.len() == 0 ==> desk.handled(Key::Undo, height, width, now) == (
            AppView { message: "nothing to undo"@, ..desk },
            ActionView::Continue,
        ),
        desk.document.redo.len() == 0 ==> desk.handled(Key::Redo, height, width, now) == (
            AppView { message: "nothing to redo"@, ..desk },
            ActionView::Continue,
        ),
{
    let text = desk.document.text.insert(desk.document.cursor, c);
    document::law_undo_takes_an_edit_back(desk.document, text, desk.document.cursor + 1);
    let typed = after(desk, Key::Char(c), height, width, now);
    assert(typed.document == desk.document.edited(text, desk.document.cursor + 1));
    let back = after(typed, Key::Undo, height, width, now);
    assert(back.document == typed.document.undone());
    assert(at_page(typed) && at_page(back));
    assert(back.document.redo.last() == (typed.document.text, typed.document.cursor));
}

/// The keys of the page that only ask for something: to save, to bring back a
/// version, to begin a note. They change nothing themselves.
pub proof fn law_the_page_asks_for_files(desk: AppView, height: int, width: int, now: u64)
    requires
        at_page(desk),
    ensures
        desk.handled(Key::Save, height, width, now) == (desk, ActionView::Save),
        desk.handled(Key::Restore, height, width, now) == (desk, ActionView::Restore),
        desk.handled(Key::New, height, width, now) == (desk, ActionView::NewNote),
        desk.handled(Key::Redraw, height, width, now) == (desk, ActionView::Continue),
        desk.handled(Key::Unknown, height, width, now) == (desk, ActionView::Continue),
{
}

/// What a question is begun with: nothing typed yet, and all else as it was.
pub open spec fn asks(before: AppView, later: AppView, question: TextPrompt) -> bool {
    later == (AppView { text_prompt: Some(question), prompt_input: Seq::empty(), ..before })
}

/// The questions that keys ask: on the page what to find and how many words to
/// aim for, on the list of notes what to look for and what the note is to be
/// called, and among the books what the new book or chapter is to be called.
pub proof fn law_keys_ask_their_questions(desk: AppView, height: int, width: int, now: u64)
    ensures
        at_page(desk) ==> asks(
            desk,
            after(desk, Key::Search, height, width, now),
            TextPrompt::FindDraft,
        ) && asks(desk, after(desk, Key::Target, height, width, now), TextPrompt::WordTarget),
        at_notes(desk) ==> asks(
            desk,
            after(desk, Key::Search, height, width, now),
            TextPrompt::SearchShelf,
        ) && asks(
            desk,
            after(desk, Key::Char('/'), height, width, now),
            TextPrompt::SearchShelf,
        ) && asks(desk, after(desk, Key::Char('r'), height, width, now), TextPrompt::Rename),
        at_notes(desk) && desk.category_index == 5 ==> asks(
            desk,
            after(desk, Key::Char('j'), height, width, now),
            TextPrompt::NewProject,
        ) && asks(desk, after(desk, Key::Char('c'), height, width, now), TextPrompt::NewChapter),
        at_notes(desk) && desk.category_index != 5 ==> desk.handled(
            Key::Char('j'),
            height,
            width,
            now,
        ) == (desk, ActionView::Continue) && desk.handled(Key::Char('c'), height, width, now) == (
            desk,
            ActionView::Continue,
        ) && desk.handled(Key::Char('e'), height, width, now) == (desk, ActionView::Continue),
{
}

/// The outline is shown and hidden by the same key; so is the reference beside
/// the page, where there is one.
pub proof fn law_panes_are_shown_and_hidden(desk: AppView, height: int, width: int, now: u64)
    requires
        at_page(desk),
    ensures
        desk.handled(Key::Outline, height, width, now) == (
            AppView { outline_visible: !desk.outline_visible, ..desk },
            ActionView::Continue,
        ),
        desk.reference_path is Some ==> desk.handled(Key::SplitView, height, width, now) == (
            AppView { split_visible: !desk.split_visible, ..desk },
            ActionView::Continue,
        ),
        desk.reference_path is None ==> desk.handled(Key::SplitView, height, width, now) == (
            AppView { message: "choose a reference with v in the browser"@, ..desk },
            ActionView::Continue,
        ),
{
}

/// A sprint begins now and counts the words from those that are there; the same
/// key ends it.
pub proof fn law_sprints_begin_and_end(desk: AppView, height: int, width: int, now: u64)
    requires
        at_page(desk),
    ensures
        desk.sprint_started is None ==> desk.handled(Key::Sprint, height, width, now) == (
            AppView {
                sprint_started: Some(now),
                session_initial_words: document::words(
                    desk.document.text,
                    desk.document.text.len() as int,
                ),
                message: "25 minute sprint"@,
                ..desk
            },
            ActionView::Continue,
        ),
        desk.sprint_started is Some ==> desk.handled(Key::Sprint, height, width, now) == (
            AppView { sprint_started: None, message: "sprint stopped"@, ..desk },
            ActionView::Continue,
        ),
{
}

/// The keys for headings go to the nearest heading behind the cursor or before
/// it, whose title the desk says; past the last one they begin with the first
/// again, and before the first with the last. Without headings the desk says so.
pub proof fn law_headings_are_gone_through(
    desk: AppView,
    forward: bool,
    height: int,
    width: int,
    now: u64,
    k: int,
)
    requires
        at_page(desk),
        desk.wf(),
        0 <= k < outline::headings(desk.document.text).len(),
    ensures
        ({
            let list = outline::headings(desk.document.text);
            let key = if forward {
                Key::NextHeading
            } else {
                Key::PreviousHeading
            };
            let later = after(desk, key, height, width, now);
            let there = later.document.cursor;
            let here = desk.document.cursor;
            &&& asked(desk, key, height, width, now) == ActionView::Continue
            &&& exists|i: int|
                0 <= i < list.len() && (#[trigger] list[i]).0 == there && later == (AppView {
                    document: document::DocumentView { cursor: there, ..desk.document },
                    scroll: 0,
                    message: "heading: "@ + list[i].2,
                    ..desk
                })
            &&& forward && list[k].0 > here ==> here < there <= list[k].0
            &&& !forward && list[k].0 < here ==> list[k].0 <= there < here
            &&& forward && list.last().0 <= here ==> there == list.first().0
            &&& !forward && list.first().0 >= here ==> there == list.last().0
        }),
{
    let list = outline::headings(desk.document.text);
    let here = desk.document.cursor;
    assert forall|i: int, j: int| 0 <= i < j < list.len() implies (#[trigger] list[i]).0 < (
    #[trigger] list[j]).0 by {
        outline::law_the_outline_holds_only_headings(desk.document.text, i, j);
    }
    outline::law_the_nearest_heading_is_next(list, here, k);
    outline::law_heading_navigation_wraps(list, here, forward);
    let found = outline::next_heading(list, here, forward)->0;
    let i = choose|i: int| 0 <= i < list.len() && list[i] == found;
    assert(list[i].0 == found.0);
}

/// Without headings the keys for them only say so.
pub proof fn law_without_headings_nothing_moves(
    desk: AppView,
    height: int,
    width: int,
    now: u64,
)
    requires
        at_page(desk),
        outline::headings(desk.document.text).len() == 0,
    ensures
        desk.handled(Key::NextHeading, height, width, now) == (
            AppView { message: "no headings"@, ..desk },
            ActionView::Continue,
        ),
        desk.handled(Key::PreviousHeading, height, width, now) == (
            AppView { message: "no headings"@, ..desk },
            ActionView::Continue,
        ),
{
}

/// From a page, and from the list of notes, one comes to the shelves, from the
/// shelves to the page.
pub proof fn law_screens_follow_each_other(
    desk: AppView,
    key: Key,
    height: int,
    width: int,
    now: u64,
)
    requires
        key == Key::Browser || key == Key::Escape,
    ensures
        at_page(desk) && !desk.secret(desk.path) || at_notes(desk) ==> desk.handled(
            key,
            height,
            width,
            now,
        ) == (
            AppView {
                screen: Screen::Categories,
                secret_unlocked: false,
                secret_key: None,
                ..desk
            },
            ActionView::Continue,
        ),
        at_shelves(desk) ==> desk.handled(key, height, width, now) == (
            AppView { screen: Screen::Editor, ..desk },
            ActionView::Continue,
        ),
{
}

/// Lists are gone through one by one, up to their ends.
pub proof fn law_lists_are_gone_through(desk: AppView, height: int, width: int, now: u64)
    requires
        desk.wf(),
    ensures
        at_shelves(desk) ==> {
            let up = after(desk, Key::Up, height, width, now);
            let down = after(desk, Key::Down, height, width, now);
            &&& up == (AppView { category_index: up.category_index, ..desk })
            &&& down == (AppView { category_index: down.category_index, ..desk })
            &&& desk.category_index > 0 ==> up.category_index == desk.category_index - 1
            &&& desk.category_index == 0 ==> up.category_index == 0
            &&& desk.category_index < 8 ==> down.category_index == desk.category_index + 1
            &&& desk.category_index == 8 ==> down.category_index == 8
        },
        at_notes(desk) ==> {
            let up = after(desk, Key::Up, height, width, now);
            let down = after(desk, Key::Down, height, width, now);
            &&& up == (AppView { document_index: up.document_index, ..desk })
            &&& down == (AppView { document_index: down.document_index, ..desk })
            &&& desk.document_index > 0 ==> up.document_index == desk.document_index - 1
            &&& desk.document_index == 0 ==> up.document_index == 0
            &&& desk.document_index + 1 < desk.documents.len() ==> down.document_index
                == desk.document_index + 1
            &&& desk.document_index + 1 >= desk.documents.len() ==> down.document_index
                == desk.document_index
        },
        at_shelves(desk) || at_notes(desk) ==> asked(desk, Key::Up, height, width, now)
            == ActionView::Continue && asked(desk, Key::Down, height, width, now)
            == ActionView::Continue,
{
}

/// The chosen shelf is opened; the encrypted one only once its password fitted.
pub proof fn law_shelves_are_opened(desk: AppView, height: int, width: int, now: u64)
    requires
        at_shelves(desk),
    ensures
        desk.category_index != 6 || desk.secret_unlocked ==> desk.handled(
            Key::Enter,
            height,
            width,
            now,
        ) == (desk, ActionView::OpenCategory),
        desk.category_index == 6 && !desk.secret_unlocked ==> desk.handled(
            Key::Enter,
            height,
            width,
            now,
        ) == (desk, ActionView::ProbeLock),
{
}

/// What the letters do with the chosen note: `a` moves it to the archive, `m` to
/// the shelf that follows, `d` to the trash unless it is encrypted, `v` lays it
/// beside the page, `e` writes its book out. The key for a new line opens it.
pub proof fn law_letters_act_on_the_chosen_note(
    desk: AppView,
    height: int,
    width: int,
    now: u64,
)
    requires
        desk.wf(),
        at_notes(desk),
        desk.documents.len() > 0,
    ensures
        ({
            let note = desk.documents[desk.document_index];
            let projects = desk.directory.joined("Projects"@);
            &&& desk.handled(Key::Enter, height, width, now) == (desk, ActionView::OpenSelected)
            &&& desk.handled(Key::New, height, width, now) == (desk, ActionView::NewNote)
            &&& desk.handled(Key::Char('a'), height, width, now) == (desk, ActionView::MoveTo(7))
            &&& desk.handled(Key::Char('v'), height, width, now) == (
                desk,
                ActionView::SelectReference,
            )
            &&& desk.category_index < 8 ==> desk.handled(Key::Char('m'), height, width, now) == (
                desk,
                ActionView::MoveTo(desk.category_index + 1),
            )
            &&& desk.category_index == 8 ==> desk.handled(Key::Char('m'), height, width, now) == (
                desk,
                ActionView::MoveTo(0),
            )
            &&& !desk.secret(note) ==> desk.handled(Key::Char('d'), height, width, now) == (
                desk,
                ActionView::Trash,
            )
            &&& desk.secret(note) ==> desk.handled(Key::Char('d'), height, width, now) == (
                AppView { message: "Encrypted trash is not available yet"@, ..desk },
                ActionView::Continue,
            )
            &&& desk.category_index == 5 && note.root == projects.root && note.parts.len()
                > projects.parts.len() && note.parts.take(projects.parts.len() as int)
                == projects.parts ==> desk.handled(Key::Char('e'), height, width, now) == (
                desk,
                ActionView::ExportBook,
            )
            &&& desk.category_index == 5 && note.parts.len() <= projects.parts.len()
                ==> desk.handled(Key::Char('e'), height, width, now) == (
                AppView { message: "Select a chapter inside a book project"@, ..desk },
                ActionView::Continue,
            )
        }),
{
    let projects = desk.directory.joined("Projects"@);
    assert(shelf::category_folder(desk.directory, 5) == projects);
}

/// The book of the chosen note is the folder among the projects that the note
/// lies in, at whatever depth.
pub proof fn law_a_book_is_a_folder_among_the_projects(
    desk: AppView,
    book: Seq<char>,
    below: Seq<Seq<char>>,
)
    requires
        0 <= desk.document_index < desk.documents.len(),
        desk.documents[desk.document_index] == (path::PathView {
            root: desk.directory.root,
            parts: desk.directory.parts + seq!["Projects"@, book] + below,
        }),
    ensures
        desk.project_root() == Some(desk.directory.joined("Projects"@).joined(book)),
{
    let note = desk.documents[desk.document_index];
    let projects = desk.directory.joined("Projects"@);
    assert(shelf::category_folder(desk.directory, 5) == projects);
    assert(note.parts.take(projects.parts.len() as int) == projects.parts);
    assert(note.parts[projects.parts.len() as int] == book);
}

/// One letter pins the chosen note, or unpins it, and touches no other pin.
pub proof fn law_pins_are_put_and_taken(
    desk: AppView,
    other: path::PathView,
    height: int,
    width: int,
    now: u64,
)
    requires
        desk.wf(),
        at_notes(desk),
        desk.documents.len() > 0,
    ensures
        ({
            let note = desk.documents[desk.document_index];
            let later = after(desk, Key::Char('p'), height, width, now);
            &&& asked(desk, Key::Char('p'), height, width, now) == ActionView::StorePins
            &&& later.pinned.contains(note) != desk.pinned.contains(note)
            &&& other != note ==> later.pinned.contains(other) == desk.pinned.contains(other)
            &&& later == (AppView {
                pinned: later.pinned,
                message: if desk.pinned.contains(note) {
                    "unpinned"@
                } else {
                    "pinned"@
                },
                ..desk
            })
        }),
{
    let note = desk.documents[desk.document_index];
    crate::handle::lemma_unpinned(desk.pinned, note);
    let more = desk.pinned.push(note);
    assert(more[desk.pinned.len() as int] == note);
    if desk.pinned.contains(other) {
        let k = choose|k: int| 0 <= k < desk.pinned.len() && desk.pinned[k] == other;
        assert(more[k] == other);
    }
    if more.contains(other) && other != note {
        let k = choose|k: int| 0 <= k < more.len() && more[k] == other;
        assert(desk.pinned[k] == other);
    }
}

/// Without a note on the list, the letters for notes do nothing, and the key for a
/// new line begins one.
pub proof fn law_an_empty_list_begins_a_note(
    desk: AppView,
    c: char,
    height: int,
    width: int,
    now: u64,
)
    requires
        desk.wf(),
        at_notes(desk),
        desk.documents.len() == 0,
        c == 'a' || c == 'v' || c == 'm' || c == 'd' || c == 'p',
    ensures
        desk.handled(Key::Enter, height, width, now) == (desk, ActionView::NewNote),
        desk.handled(Key::Char(c), height, width, now) == (desk, ActionView::Continue),
{
}

/// Other letters do nothing on the lists: none on that of the shelves, and on that
/// of the notes none but those that are named there.
pub proof fn law_other_letters_do_nothing(
    desk: AppView,
    c: char,
    height: int,
    width: int,
    now: u64,
)
    requires
        at_shelves(desk) || at_notes(desk) && c != '/' && c != 'r' && c != 'p' && c != 'd' && c
            != 'a' && c != 'v' && c != 'j' && c != 'c' && c != 'e' && c != 'm',
    ensures
        desk.handled(Key::Char(c), height, width, now) == (desk, ActionView::Continue),
{
}

/// While the help is open, only the keys that work everywhere and the one that
/// closes it do anything.
pub proof fn law_the_help_lies_over_all(
    desk: AppView,
    key: Key,
    height: int,
    width: int,
    now: u64,
)
    requires
        desk.help_visible,
        key != Key::Quit && key != Key::Help && key != Key::Theme && key != Key::Rotate && key
            != Key::Larger && key != Key::Smaller,
    ensures
        key == Key::Escape ==> desk.handled(key, height, width, now) == (
            AppView { help_visible: false, ..desk },
            ActionView::Continue,
        ),
        key != Key::Escape ==> desk.handled(key, height, width, now) == (
            desk,
            ActionView::Continue,
        ),
{
}

/// The text grows and shrinks by one step at a time, from eight steps below to
/// five above; on the page it is then shown from its start.
pub proof fn law_the_text_grows_by_steps(desk: AppView, height: int, width: int, now: u64)
    requires
        desk.wf(),
    ensures
        ({
            let larger = after(desk, Key::Larger, height, width, now);
            let smaller = after(desk, Key::Smaller, height, width, now);
            &&& desk.zoom < 5 ==> larger.zoom == desk.zoom + 1
            &&& desk.zoom == 5 ==> larger.zoom == 5
            &&& desk.zoom > -8 ==> smaller.zoom == desk.zoom - 1
            &&& desk.zoom == -8 ==> smaller.zoom == -8
            &&& -8 <= desk.zoom <= 5
            &&& larger == (AppView { zoom: larger.zoom, scroll: larger.scroll, ..desk })
            &&& smaller == (AppView { zoom: smaller.zoom, scroll: smaller.scroll, ..desk })
            &&& desk.screen == Screen::Editor ==> larger.scroll == 0 && smaller.scroll == 0
            &&& desk.screen != Screen::Editor ==> larger.scroll == desk.scroll && smaller.scroll
                == desk.scroll
        }),
{
}

/// The keys that type one character after another.
pub open spec fn typed(desk: AppView, input: Seq<char>, height: int, width: int, now: u64) -> AppView
    decreases input.len(),
{
    if input.len() == 0 {
        desk
    } else {
        after(
            typed(desk, input.drop_last(), height, width, now),
            Key::Char(input.last()),
            height,
            width,
            now,
        )
    }
}

/// What is typed while a question is asked is added to the answer, all but control
/// characters, and can be taken back character by character.
pub proof fn law_answers_are_typed(
    desk: AppView,
    input: Seq<char>,
    height: int,
    width: int,
    now: u64,
)
    requires
        desk.text_prompt is Some,
        !desk.help_visible,
        forall|i: int| 0 <= i < input.len() ==> #[trigger] input[i] as u32 >= 0x20 && !(0x7f
            <= input[i] as u32 <= 0x9f),
    ensures
        typed(desk, input, height, width, now) == (AppView {
            prompt_input: desk.prompt_input + input,
            ..desk
        }),
        input.len() > 0 ==> after(
            typed(desk, input, height, width, now),
            Key::Backspace,
            height,
            width,
            now,
        ) == typed(desk, input.drop_last(), height, width, now),
        desk.prompt_input.len() == 0 ==> desk.handled(Key::Backspace, height, width, now) == (
            desk,
            ActionView::Continue,
        ),
    decreases input.len(),
{
    if input.len() == 0 {
        assert(desk.prompt_input + input == desk.prompt_input);
    } else {
        let less = input.drop_last();
        assert forall|i: int| 0 <= i < less.len() implies #[trigger] less[i] as u32 >= 0x20 && !(
        0x7f <= less[i] as u32 <= 0x9f) by {
            assert(input[i] as u32 >= 0x20);
        }
        law_answers_are_typed(desk, less, height, width, now);
        assert(input[input.len() - 1] as u32 >= 0x20);
        assert((desk.prompt_input + less).push(input.last()) == desk.prompt_input + input);
        assert((desk.prompt_input + input).drop_last() == desk.prompt_input + less);
    }
}

/// A password is typed in the same way, and shows nowhere else.
pub proof fn law_passwords_are_typed(
    desk: AppView,
    input: Seq<char>,
    height: int,
    width: int,
    now: u64,
)
    requires
        desk.text_prompt is None,
        desk.lock_prompt is Some,
        !desk.help_visible,
        forall|i: int| 0 <= i < input.len() ==> #[trigger] input[i] as u32 >= 0x20 && !(0x7f
            <= input[i] as u32 <= 0x9f),
    ensures
        typed(desk, input, height, width, now) == (AppView {
            password_input: desk.password_input + input,
            ..desk
        }),
        input.len() > 0 ==> after(
            typed(desk, input, height, width, now),
            Key::Backspace,
            height,
            width,
            now,
        ) == typed(desk, input.drop_last(), height, width, now),
        desk.password_input.len() == 0 ==> desk.handled(Key::Backspace, height, width, now) == (
            desk,
            ActionView::Continue,
        ),
    decreases input.len(),
{
    if input.len() == 0 {
        assert(desk.password_input + input == desk.password_input);
    } else {
        let less = input.drop_last();
        assert forall|i: int| 0 <= i < less.len() implies #[trigger] less[i] as u32 >= 0x20 && !(
        0x7f <= less[i] as u32 <= 0x9f) by {
            assert(input[i] as u32 >= 0x20);
        }
        law_passwords_are_typed(desk, less, height, width, now);
        assert(input[input.len() - 1] as u32 >= 0x20);
        assert((desk.password_input + less).push(input.last()) == desk.password_input + input);
        assert((desk.password_input + input).drop_last() == desk.password_input + less);
    }
}

/// A question and a password can be given up; nothing of what was typed remains.
/// Control characters and all other keys do nothing there.
pub proof fn law_questions_can_be_given_up(
    desk: AppView,
    key: Key,
    height: int,
    width: int,
    now: u64,
)
    requires
        !desk.help_visible,
    ensures
        desk.text_prompt is Some && (key == Key::Escape || key == Key::Browser) ==> desk.handled(
            key,
            height,
            width,
            now,
        ) == (
            AppView {
                text_prompt: None,
                prompt_input: Seq::empty(),
                message: "cancelled"@,
                ..desk
            },
            ActionView::Continue,
        ),
        desk.text_prompt is None && desk.lock_prompt is Some && (key == Key::Escape || key
            == Key::Browser) ==> desk.handled(key, height, width, now) == (
            AppView {
                lock_prompt: None,
                password_input: Seq::empty(),
                password_confirmation: Seq::empty(),
                message: "Locked"@,
                ..desk
            },
            ActionView::Continue,
        ),
        (desk.text_prompt is Some || desk.lock_prompt is Some) && (key == Key::Left || key
            == Key::Right || key == Key::Up || key == Key::Down || key == Key::Home || key
            == Key::End || key == Key::Delete || key == Key::PageUp || key == Key::PageDown || key
            == Key::Save || key == Key::New || key == Key::Undo || key == Key::Redo || key
            == Key::Restore || key == Key::Search || key == Key::FindNext || key == Key::Sprint
            || key == Key::Target || key == Key::Outline || key == Key::SplitView || key
            == Key::NextHeading || key == Key::PreviousHeading || key == Key::Char('\t'))
            ==> desk.handled(key, height, width, now) == (desk, ActionView::Continue),
{
}

/// The desk once a question is answered.
pub open spec fn no_longer_asking(desk: AppView) -> AppView {
    AppView { text_prompt: None, prompt_input: Seq::empty(), ..desk }
}

/// What the answers to questions come to. A name goes on in its safe form, if
/// anything of it is left; the search on the shelf lists the notes anew; a target
/// is set to a number above zero and cleared by anything else.
pub proof fn law_questions_are_answered(
    desk: AppView,
    target: nat,
    height: int,
    width: int,
    now: u64,
)
    requires
        desk.wf(),
        !desk.help_visible,
        target <= usize::MAX,
    ensures
        ({
            let input = desk.prompt_input;
            let name = shelf::safe_name(input);
            let done = no_longer_asking(desk);
            let step = desk.handled(Key::Enter, height, width, now);
            &&& desk.text_prompt == Some(TextPrompt::Rename) && name.len() > 0
                && desk.documents.len() > 0 ==> step == (done, ActionView::Rename(name))
            &&& desk.text_prompt == Some(TextPrompt::Rename) && (name.len() == 0
                || desk.documents.len() == 0) ==> step == (done, ActionView::Continue)
            &&& desk.text_prompt == Some(TextPrompt::NewProject) && name.len() > 0 ==> step == (
                done,
                ActionView::NewProject(name),
            )
            &&& desk.text_prompt == Some(TextPrompt::NewChapter) && name.len() > 0 ==> step == (
                done,
                ActionView::NewChapter(name),
            )
            &&& (desk.text_prompt == Some(TextPrompt::NewProject) || desk.text_prompt == Some(
                TextPrompt::NewChapter,
            )) && name.len() == 0 ==> step == (done, ActionView::Continue)
            &&& desk.text_prompt == Some(TextPrompt::SearchShelf) && input.len() > 0 ==> step == (
                AppView { shelf_search: input, message: "search: "@ + input, ..done },
                ActionView::Refresh,
            )
            &&& desk.text_prompt == Some(TextPrompt::SearchShelf) && input.len() == 0 ==> step == (
                AppView { shelf_search: input, message: "search cleared"@, ..done },
                ActionView::Refresh,
            )
            &&& desk.text_prompt == Some(TextPrompt::WordTarget) && target > 0 && input
                == text::decimal(target) ==> step == (
                AppView {
                    word_target: Some(target as usize),
                    message: "target: "@ + input + " words"@,
                    ..done
                },
                ActionView::Continue,
            )
            &&& desk.text_prompt == Some(TextPrompt::WordTarget) && (input.len() == 0 || input
                == text::decimal(0)) ==> step == (
                AppView { word_target: None, message: "target cleared"@, ..done },
                ActionView::Continue,
            )
        }),
{
    text::law_numbers_are_read_within_limits(target, usize::MAX as nat, desk.prompt_input, 0);
    text::law_numbers_are_read_within_limits(0, usize::MAX as nat, desk.prompt_input, 0);
    assert(desk.prompt_input.len() == 0 ==> desk.prompt_input == Seq::<char>::empty());
}

/// A target that is no number clears the target.
pub proof fn law_a_target_is_a_number(desk: AppView, i: int, height: int, width: int, now: u64)
    requires
        !desk.help_visible,
        desk.text_prompt == Some(TextPrompt::WordTarget),
        0 <= i < desk.prompt_input.len(),
        !('0' <= desk.prompt_input[i] <= '9'),
        i > 0 || desk.prompt_input[i] != '+' && desk.prompt_input[i] != '-',
    ensures
        desk.handled(Key::Enter, height, width, now) == (
            AppView {
                word_target: None,
                message: "target cleared"@,
                ..no_longer_asking(desk)
            },
            ActionView::Continue,
        ),
{
    text::law_numbers_are_read_within_limits(0, usize::MAX as nat, desk.prompt_input, i);
}

/// A new password is asked for twice. One of fewer than eight characters is asked
/// for again; one that is typed differently the second time begins anew.
pub proof fn law_passwords_are_confirmed(desk: AppView, height: int, width: int, now: u64)
    requires
        !desk.help_visible,
        desk.text_prompt is None,
    ensures
        ({
            let step = desk.handled(Key::Enter, height, width, now);
            let input = desk.password_input;
            &&& desk.lock_prompt == Some(LockPrompt::Create) && input.len() < 8 ==> step == (
                AppView { message: "Use at least 8 characters"@, ..desk },
                ActionView::Continue,
            )
            &&& desk.lock_prompt == Some(LockPrompt::Create) && input.len() >= 8 ==> step == (
                AppView {
                    lock_prompt: Some(LockPrompt::Confirm),
                    password_confirmation: input,
                    password_input: Seq::empty(),
                    message: "Enter it again"@,
                    ..desk
                },
                ActionView::Continue,
            )
            &&& desk.lock_prompt == Some(LockPrompt::Confirm) && input
                == desk.password_confirmation ==> step == (desk, ActionView::CreateLock)
            &&& desk.lock_prompt == Some(LockPrompt::Confirm) && input
                != desk.password_confirmation ==> step == (
                AppView {
                    lock_prompt: Some(LockPrompt::Create),
                    password_input: Seq::empty(),
                    password_confirmation: Seq::empty(),
                    message: "Passwords did not match — try again"@,
                    ..desk
                },
                ActionView::Continue,
            )
            &&& desk.lock_prompt == Some(LockPrompt::Unlock) ==> step == (desk, ActionView::TryLock)
        }),
{
}

/// In a text of the basic letters and signs, a search that is answered goes to the
/// first place from the cursor on where the query stands, whatever the case, or
/// else to the first of all; the search that goes on begins behind the cursor. The
/// desk says what it found, or that it found nothing, and then stays where it is.
pub proof fn law_the_draft_is_searched(
    desk: AppView,
    at: int,
    height: int,
    width: int,
    now: u64,
)
    requires
        desk.wf(),
        !desk.help_visible,
        desk.text_prompt == Some(TextPrompt::FindDraft),
        desk.prompt_input.len() > 0,
        text::ascii(desk.document.text),
        text::lowercase(desk.document.text) == text::ascii_lowered(desk.document.text),
    ensures
        ({
            let lower = text::ascii_lowered(desk.document.text);
            let query = text::lowercase(desk.prompt_input);
            let later = after(desk, Key::Enter, height, width, now);
            let here = desk.document.cursor;
            let there = later.document.cursor;
            let done = AppView { find_query: desk.prompt_input, ..no_longer_asking(desk) };
            &&& text::occurs_at(lower, query, at) ==> {
                &&& later == (AppView {
                    document: document::DocumentView { cursor: there, ..desk.document },
                    message: "found: "@ + desk.prompt_input,
                    ..done
                })
                &&& text::occurs_at(lower, query, there)
                &&& at >= here ==> here <= there <= at
                &&& there < here ==> there <= at
            }
            &&& !text::occurs_in(lower, query) ==> later == (AppView {
                message: "not found: "@ + desk.prompt_input,
                ..done
            })
        }),
{
    let lower = text::ascii_lowered(desk.document.text);
    let query = text::lowercase(desk.prompt_input);
    text::lemma_ascii_lowered(desk.document.text);
    crate::laws::law_a_search_finds_what_is_there(
        desk.document.text,
        lower,
        desk.document.cursor,
        query,
    );
    if text::occurs_at(lower, query, at) {
        assert(text::occurs_in(lower, query));
    }
}

/// The key that goes on with a search looks behind the cursor first.
pub proof fn law_a_search_goes_on(desk: AppView, at: int, height: int, width: int, now: u64)
    requires
        desk.wf(),
        at_page(desk),
        text::ascii(desk.document.text),
        text::lowercase(desk.document.text) == text::ascii_lowered(desk.document.text),
    ensures
        ({
            let lower = text::ascii_lowered(desk.document.text);
            let query = text::lowercase(desk.find_query);
            let later = after(desk, Key::FindNext, height, width, now);
            let here = desk.document.cursor;
            let there = later.document.cursor;
            &&& desk.find_query.len() == 0 ==> later == (AppView {
                message: "no find text"@,
                ..desk
            })
            &&& desk.find_query.len() > 0 && text::occurs_at(lower, query, at) ==> {
                &&& later == (AppView {
                    document: document::DocumentView { cursor: there, ..desk.document },
                    message: "found: "@ + desk.find_query,
                    ..desk
                })
                &&& text::occurs_at(lower, query, there)
                &&& at > here ==> here < there <= at
                &&& there < here ==> there <= at
            }
            &&& desk.find_query.len() > 0 && !text::occurs_in(lower, query) ==> later == (AppView {
                message: "not found: "@ + desk.find_query,
                ..desk
            })
        }),
        asked(desk, Key::FindNext, height, width, now) == ActionView::Continue,
{
    let lower = text::ascii_lowered(desk.document.text);
    let query = text::lowercase(desk.find_query);
    text::lemma_ascii_lowered(desk.document.text);
    let start = if desk.document.cursor < desk.document.text.len() {
        desk.document.cursor + 1
    } else {
        desk.document.cursor
    };
    crate::laws::law_a_search_finds_what_is_there(desk.document.text, lower, start, query);
    if text::occurs_at(lower, query, at) {
        assert(text::occurs_in(lower, query));
    }
}

/// Whether the place of a note lies on the encrypted shelf goes by its names
/// alone.
pub proof fn law_the_encrypted_shelf_is_a_folder(
    desk: AppView,
    below: Seq<Seq<char>>,
    place: path::PathView,
)
    ensures
        desk.secret(
            path::PathView {
                root: desk.directory.root,
                parts: desk.directory.parts + seq!["Secret Thoughts"@] + below,
            },
        ),
        desk.secret(place) ==> place.root == desk.directory.root && place.parts.len()
            > desk.directory.parts.len() && place.parts.take(desk.directory.parts.len() as int)
            == desk.directory.parts && place.parts[desk.directory.parts.len() as int]
            == "Secret Thoughts"@,
{
    let folder = desk.directory.joined("Secret Thoughts"@);
    assert(shelf::category_folder(desk.directory, 6) == folder);
    let inside = path::PathView {
        root: desk.directory.root,
        parts: desk.directory.parts + seq!["Secret Thoughts"@] + below,
    };
    assert(inside.parts.take(folder.parts.len() as int) == folder.parts);
    if desk.secret(place) {
        assert(place.parts.take(folder.parts.len() as int) == folder.parts);
        assert(folder.parts[desk.directory.parts.len() as int] == "Secret Thoughts"@);
        assert(place.parts.take(desk.directory.parts.len() as int) == place.parts.take(
            folder.parts.len() as int,
        ).take(desk.directory.parts.len() as int));
        assert(folder.parts.take(desk.directory.parts.len() as int) == desk.directory.parts);
    }
}

} // verus!
