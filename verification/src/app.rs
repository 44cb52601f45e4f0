//! The desk itself: what it shows, what each key changes, and what has to be
//! done outside for it.
use vstd::prelude::*;

use crate::config;
use crate::config::DisplayConfig;
use crate::document;
use crate::document::Document;
use crate::keys::Key;
use crate::outline;
use crate::path;
use crate::path::NotePath;
use crate::shelf;
use crate::text;
use crate::theme;

verus! {

/// How long a changed text may go unsaved, in milliseconds.
pub const AUTOSAVE_INTERVAL: u64 = 2000;

/// How long the state of the network is believed, in milliseconds.
pub const NETWORK_CHECK_INTERVAL: u64 = 30000;

/// The shortest password for Secret Thoughts, in characters.
pub const PASSWORD_LENGTH: usize = 8;

#[derive(Debug, Clone, Copy, PartialEq, Eq, Structural)]
pub enum Screen {
    Editor,
    Categories,
    Documents,
}

#[derive(Debug, Clone, Copy, PartialEq, Eq, Structural)]
pub enum LockPrompt {
    Create,
    Confirm,
    Unlock,
}

#[derive(Debug, Clone, Copy, PartialEq, Eq, Structural)]
pub enum TextPrompt {
    Rename,
    SearchShelf,
    FindDraft,
    WordTarget,
    NewProject,
    NewChapter,
}

/// What a key asks to be done outside: files to be read or written. Nothing else
/// of the desk changes until it has been done.
#[derive(Debug)]
pub enum Action {
    /// Nothing.
    Continue,
    /// Save and stop.
    Quit,
    Save,
    NewNote,
    /// Save and leave a note of the encrypted shelf.
    CloseSecretEditor,
    /// Write the settings of the page; then name the theme, or say that they are
    /// written.
    StoreDisplay(bool),
    /// List the notes of the chosen shelf and show them.
    OpenCategory,
    /// Look whether there is a lock, and ask for its password.
    ProbeLock,
    /// Make a lock of the password that was typed twice.
    CreateLock,
    /// Try the password on the lock.
    TryLock,
    /// Open the chosen note.
    OpenSelected,
    /// List the notes of the shelf anew.
    Refresh,
    /// Write down which notes are pinned and list the notes anew.
    StorePins,
    /// Give the chosen note a name, here without extension.
    Rename(String),
    Trash,
    /// Move the chosen note to a shelf.
    MoveTo(usize),
    SelectReference,
    ExportBook,
    /// Make a book with a name.
    NewProject(String),
    /// Make a chapter with a name.
    NewChapter(String),
    /// Bring back the latest version.
    Restore,
}

/// What a key asks to be done, as a mathematical value.
pub enum ActionView {
    Continue,
    Quit,
    Save,
    NewNote,
    CloseSecretEditor,
    StoreDisplay(bool),
    OpenCategory,
    ProbeLock,
    CreateLock,
    TryLock,
    OpenSelected,
    Refresh,
    StorePins,
    Rename(Seq<char>),
    Trash,
    MoveTo(int),
    SelectReference,
    ExportBook,
    NewProject(Seq<char>),
    NewChapter(Seq<char>),
    Restore,
}

impl View for Action {
    type V = ActionView;

    open spec fn view(&self) -> ActionView {
        match self {
            Action::Continue => ActionView::Continue,
            Action::Quit => ActionView::Quit,
            Action::Save => ActionView::Save,
            Action::NewNote => ActionView::NewNote,
            Action::CloseSecretEditor => ActionView::CloseSecretEditor,
            Action::StoreDisplay(named) => ActionView::StoreDisplay(*named),
            Action::OpenCategory => ActionView::OpenCategory,
            Action::ProbeLock => ActionView::ProbeLock,
            Action::CreateLock => ActionView::CreateLock,
            Action::TryLock => ActionView::TryLock,
            Action::OpenSelected => ActionView::OpenSelected,
            Action::Refresh => ActionView::Refresh,
            Action::StorePins => ActionView::StorePins,
            Action::Rename(name) => ActionView::Rename(name@),
            Action::Trash => ActionView::Trash,
            Action::MoveTo(category) => ActionView::MoveTo(*category as int),
            Action::SelectReference => ActionView::SelectReference,
            Action::ExportBook => ActionView::ExportBook,
            Action::NewProject(name) => ActionView::NewProject(name@),
            Action::NewChapter(name) => ActionView::NewChapter(name@),
            Action::Restore => ActionView::Restore,
        }
    }
}

/// The desk. Times are milliseconds on a clock that never goes back.
#[derive(Debug)]
pub struct App {
    pub document: Document,
    pub path: NotePath,
    pub directory: NotePath,
    pub scroll: usize,
    pub message: String,
    pub last_save: u64,
    pub rotation: u8,
    pub zoom: i8,
    pub theme: u8,
    pub save_count: usize,
    pub help_visible: bool,
    pub screen: Screen,
    pub category_index: usize,
    pub document_index: usize,
    pub documents: Vec<NotePath>,
    pub lock_prompt: Option<LockPrompt>,
    pub password_input: String,
    pub password_confirmation: String,
    pub secret_unlocked: bool,
    pub secret_key: Option<[u8; 32]>,
    pub text_prompt: Option<TextPrompt>,
    pub prompt_input: String,
    pub shelf_search: String,
    pub find_query: String,
    pub session_started: u64,
    pub session_initial_words: usize,
    pub sprint_started: Option<u64>,
    pub word_target: Option<usize>,
    pub pinned: Vec<NotePath>,
    pub outline_visible: bool,
    pub split_visible: bool,
    pub reference_path: Option<NotePath>,
    pub reference_text: Vec<char>,
    pub network_status: u8,
    pub last_network_check: u64,
}

/// The desk as a mathematical value.
#[verifier::ext_equal]
pub struct AppView {
    pub document: document::DocumentView,
    pub path: path::PathView,
    pub directory: path::PathView,
    pub scroll: int,
    pub message: Seq<char>,
    pub last_save: int,
    pub rotation: int,
    pub zoom: int,
    pub theme: int,
    pub save_count: int,
    pub help_visible: bool,
    pub screen: Screen,
    pub category_index: int,
    pub document_index: int,
    pub documents: Seq<path::PathView>,
    pub lock_prompt: Option<LockPrompt>,
    pub password_input: Seq<char>,
    pub password_confirmation: Seq<char>,
    pub secret_unlocked: bool,
    pub secret_key: Option<Seq<u8>>,
    pub text_prompt: Option<TextPrompt>,
    pub prompt_input: Seq<char>,
    pub shelf_search: Seq<char>,
    pub find_query: Seq<char>,
    pub session_started: int,
    pub session_initial_words: int,
    pub sprint_started: Option<u64>,
    pub word_target: Option<usize>,
    pub pinned: Seq<path::PathView>,
    pub outline_visible: bool,
    pub split_visible: bool,
    pub reference_path: Option<path::PathView>,
    pub reference_text: Seq<char>,
    pub network_status: u8,
    pub last_network_check: int,
}

impl View for App {
    type V = AppView;

    open spec fn view(&self) -> AppView {
        AppView {
            document: self.document@,
            path: self.path@,
            directory: self.directory@,
            scroll: self.scroll as int,
            message: self.message@,
            last_save: self.last_save as int,
            rotation: self.rotation as int,
            zoom: self.zoom as int,
            theme: self.theme as int,
            save_count: self.save_count as int,
            help_visible: self.help_visible,
            screen: self.screen,
            category_index: self.category_index as int,
            document_index: self.document_index as int,
            documents: path::path_views(self.documents@),
            lock_prompt: self.lock_prompt,
            password_input: self.password_input@,
            password_confirmation: self.password_confirmation@,
            secret_unlocked: self.secret_unlocked,
            secret_key: match self.secret_key {
                Some(key) => Some(key@),
                None => None,
            },
            text_prompt: self.text_prompt,
            prompt_input: self.prompt_input@,
            shelf_search: self.shelf_search@,
            find_query: self.find_query@,
            session_started: self.session_started as int,
            session_initial_words: self.session_initial_words as int,
            sprint_started: self.sprint_started,
            word_target: self.word_target,
            pinned: path::path_views(self.pinned@),
            outline_visible: self.outline_visible,
            split_visible: self.split_visible,
            reference_path: match self.reference_path {
                Some(place) => Some(place@),
                None => None,
            },
            reference_text: self.reference_text@,
            network_status: self.network_status,
            last_network_check: self.last_network_check as int,
        }
    }
}

/// A state of the desk and what is to be done outside.
pub type Step = (AppView, ActionView);

/// How many bytes a character takes in UTF-8.
pub open spec fn utf8_length(c: char) -> int {
    if c as u32 <= 0x7f {
        1
    } else if c as u32 <= 0x7ff {
        2
    } else if c as u32 <= 0xffff {
        3
    } else {
        4
    }
}

/// How many bytes the first `count` characters of a text take in UTF-8.
pub open spec fn byte_offset(s: Seq<char>, count: int) -> int
    decreases count,
{
    if count <= 0 {
        0
    } else {
        byte_offset(s, count - 1) + utf8_length(s[count - 1])
    }
}

/// The place, from `at` on, that lies a number of bytes into a text; none if
/// that many bytes end inside a character or behind the text.
pub open spec fn place_of_byte(s: Seq<char>, byte: int, at: int) -> Option<int>
    decreases s.len() - at,
{
    if byte_offset(s, at) == byte {
        Some(at)
    } else if at >= s.len() {
        None
    } else {
        place_of_byte(s, byte, at + 1)
    }
}

/// Where a search in a lower-case text that starts at a place finds something:
/// from there on first, then from the beginning of the text.
pub open spec fn search_round(lower: Seq<char>, query: Seq<char>, from: int) -> Option<int> {
    match text::first_occurrence(lower, query, from) {
        Some(found) => Some(found),
        None => text::first_occurrence(lower, query, 0),
    }
}

/// What a search comes to.
pub enum Search {
    /// The cursor goes to a place.
    Found(int),
    /// There is nothing to go to.
    Missing,
    /// The text and its lower-case form have no place in common to go by.
    Lost,
}

/// Looks for a query from a place on, whatever the case of its letters. The two
/// texts are matched by their bytes: a place in one is the place in the other
/// that lies as many bytes in.
pub open spec fn searched(
    text: Seq<char>,
    start: int,
    lower: Seq<char>,
    query: Seq<char>,
) -> Search {
    match place_of_byte(lower, byte_offset(text, start), 0) {
        None => Search::Lost,
        Some(from) => match search_round(lower, query, from) {
            None => Search::Missing,
            Some(found) => match place_of_byte(text, byte_offset(lower, found), 0) {
                None => Search::Lost,
                Some(place) => Search::Found(place),
            },
        },
    }
}

/// The message after a number of saves.
pub open spec fn save_message(count: int) -> Seq<char> {
    let turn = count % 5;
    if turn == 0 {
        "ink safe"@
    } else if turn == 1 {
        "tucked away"@
    } else if turn == 2 {
        "captured"@
    } else if turn == 3 {
        "saved ✦"@
    } else {
        "all cozy"@
    }
}

/// The number that follows, beginning anew past the largest.
pub open spec fn counted(count: int) -> int {
    if count == usize::MAX {
        0
    } else {
        count + 1
    }
}

/// Whether a note answers a search: by its name or by its text.
pub open spec fn answers(place: path::PathView, contents: Option<Seq<char>>, query: Seq<char>) -> bool {
    ||| place.name() is Some && text::occurs_in(text::lowercase(place.name()->0), query)
    ||| contents is Some && text::occurs_in(text::lowercase(contents->0), query)
}

/// The text of a note, where it is known.
pub open spec fn text_at(texts: Seq<Option<Seq<char>>>, index: int) -> Option<Seq<char>> {
    if index < texts.len() {
        texts[index]
    } else {
        None
    }
}

/// Those of the first `count` notes that answer a search.
pub open spec fn answering(
    notes: Seq<path::PathView>,
    texts: Seq<Option<Seq<char>>>,
    query: Seq<char>,
    count: int,
) -> Seq<path::PathView>
    decreases count,
{
    if count <= 0 {
        Seq::empty()
    } else {
        let before = answering(notes, texts, query, count - 1);
        if answers(notes[count - 1], text_at(texts, count - 1), query) {
            before.push(notes[count - 1])
        } else {
            before
        }
    }
}

/// The pinned notes first, each part in the order in which it stood.
pub open spec fn pinned_first(
    notes: Seq<path::PathView>,
    pinned: Seq<path::PathView>,
) -> Seq<path::PathView> {
    notes.filter(|note: path::PathView| pinned.contains(note)) + notes.filter(
        |note: path::PathView| !pinned.contains(note),
    )
}

/// A list without a note.
pub open spec fn unpinned(pinned: Seq<path::PathView>, note: path::PathView) -> Seq<path::PathView> {
    pinned.filter(|other: path::PathView| other != note)
}

/// A list of pinned notes after one of them went to another place.
pub open spec fn repinned(
    pinned: Seq<path::PathView>,
    from: path::PathView,
    to: path::PathView,
) -> Seq<path::PathView> {
    if pinned.contains(from) {
        let rest = unpinned(pinned, from);
        if rest.contains(to) {
            rest
        } else {
            rest.push(to)
        }
    } else {
        pinned
    }
}

/// The first place of a note in a list; zero if it is not there.
pub open spec fn place_in(list: Seq<path::PathView>, note: path::PathView, at: int) -> int
    decreases list.len() - at,
{
    if at >= list.len() {
        0
    } else if list[at] == note {
        at
    } else {
        place_in(list, note, at + 1)
    }
}

impl AppView {
    /// Every state of the desk: the cursor and the history are sound, the
    /// settings and the choices are in range, nothing is pinned twice, the key is
    /// there exactly while the vault is open, and a password that is to be
    /// confirmed is long enough.
    pub open spec fn wf(self) -> bool {
        &&& self.document.wf()
        &&& self.display().in_range()
        &&& self.in_bounds()
        &&& self.pinned.no_duplicates()
        &&& self.secret_unlocked == (self.secret_key is Some)
        &&& self.lock_prompt == Some(LockPrompt::Confirm) ==> self.password_confirmation.len()
            >= PASSWORD_LENGTH
    }

    pub open spec fn display(self) -> DisplayConfig {
        DisplayConfig {
            rotation: self.rotation as u8,
            zoom: self.zoom as i8,
            theme: self.theme as u8,
        }
    }

    /// The desk with a message.
    pub open spec fn saying(self, message: Seq<char>) -> AppView {
        AppView { message, ..self }
    }

    /// The chosen note.
    pub open spec fn selected(self) -> Option<path::PathView> {
        if 0 <= self.document_index < self.documents.len() {
            Some(self.documents[self.document_index])
        } else {
            None
        }
    }

    /// Whether a place lies on the encrypted shelf.
    pub open spec fn secret(self, place: path::PathView) -> bool {
        shelf::secret(self.directory, place)
    }

    /// The vault closed and its key gone.
    pub open spec fn locked(self) -> AppView {
        AppView { secret_unlocked: false, secret_key: None, ..self }
    }

    /// The settings and the choices in their ranges.
    pub open spec fn in_bounds(self) -> bool {
        &&& 0 <= self.rotation < 4
        &&& -8 <= self.zoom <= 5
        &&& 0 <= self.theme < theme::THEME_COUNT
        &&& 0 <= self.category_index < shelf::CATEGORY_COUNT
        &&& self.document_index == 0 || 0 <= self.document_index < self.documents.len()
    }

    pub open spec fn saved(self, now: int) -> AppView {
        AppView {
            document: document::DocumentView { dirty: false, ..self.document },
            last_save: now,
            save_count: counted(self.save_count),
            message: save_message(counted(self.save_count)),
            ..self
        }
    }

    /// The shelf as it shows a list of notes.
    pub open spec fn listing(
        self,
        notes: Seq<path::PathView>,
        texts: Seq<Option<Seq<char>>>,
    ) -> Seq<path::PathView> {
        let kept = if self.shelf_search.len() == 0 {
            notes
        } else {
            answering(notes, texts, text::lowercase(self.shelf_search), notes.len() as int)
        };
        pinned_first(kept, self.pinned)
    }

    pub open spec fn refreshed(
        self,
        notes: Seq<path::PathView>,
        texts: Seq<Option<Seq<char>>>,
    ) -> AppView {
        let documents = self.listing(notes, texts);
        AppView {
            documents,
            document_index: if documents.len() == 0 {
                0
            } else if self.document_index > documents.len() - 1 {
                documents.len() - 1
            } else {
                self.document_index
            },
            ..self
        }
    }

    pub open spec fn prompting(self, prompt: TextPrompt) -> AppView {
        AppView { prompt_input: Seq::empty(), text_prompt: Some(prompt), ..self }
    }

    /// The place one character behind the cursor, or the end of the text.
    pub open spec fn behind_cursor(self) -> int {
        if self.document.cursor < self.document.text.len() {
            self.document.cursor + 1
        } else {
            self.document.cursor
        }
    }

    /// The search in the draft gone on to its next place: behind the cursor
    /// first, then from the beginning.
    pub open spec fn found_next(self) -> AppView {
        self.found_from(self.behind_cursor())
    }

    /// What a search in the draft that starts at a place comes to.
    pub open spec fn found_from(self, start: int) -> AppView {
        if self.find_query.len() == 0 {
            self.saying("no find text"@)
        } else {
            match searched(
                self.document.text,
                start,
                text::lowercase(self.document.text),
                text::lowercase(self.find_query),
            ) {
                Search::Found(place) => AppView {
                    document: document::DocumentView { cursor: place, ..self.document },
                    message: "found: "@ + self.find_query,
                    ..self
                },
                Search::Missing => self.saying("not found: "@ + self.find_query),
                Search::Lost => self,
            }
        }
    }

    /// Whether something is looked for, and it and the draft are of the basic
    /// letters and signs only.
    pub open spec fn plain_search(self) -> bool {
        &&& self.find_query.len() > 0
        &&& text::ascii(self.find_query)
        &&& text::ascii(self.document.text)
    }

    /// Whether this is a desk after a search in its draft: where what was looked
    /// for stands anywhere, whatever the case, the cursor is at such a place; if
    /// not, only the message says so.
    pub open spec fn search_done(self, before: AppView) -> bool {
        let lower = text::ascii_lowered(before.document.text);
        let query = text::ascii_lowered(before.find_query);
        if text::occurs_in(lower, query) {
            &&& text::occurs_at(lower, query, self.document.cursor)
            &&& self == (AppView {
                document: document::DocumentView {
                    cursor: self.document.cursor,
                    ..before.document
                },
                message: "found: "@ + before.find_query,
                ..before
            })
        } else {
            self == before.saying("not found: "@ + before.find_query)
        }
    }

    /// The cursor gone to the next heading, or to the one before.
    pub open spec fn at_heading(self, forward: bool) -> AppView {
        match outline::next_heading(
            outline::headings(self.document.text),
            self.document.cursor,
            forward,
        ) {
            Some(heading) => AppView {
                document: document::DocumentView { cursor: heading.0, ..self.document },
                scroll: 0,
                message: "heading: "@ + heading.2,
                ..self
            },
            None => self.saying("no headings"@),
        }
    }

    pub open spec fn with_target(self, input: Seq<char>) -> AppView {
        match text::unsigned_value(input, usize::MAX as nat) {
            Some(target) => if target > 0 {
                AppView {
                    word_target: Some(target as usize),
                    message: "target: "@ + text::decimal(target) + " words"@,
                    ..self
                }
            } else {
                AppView { word_target: None, message: "target cleared"@, ..self }
            },
            None => AppView { word_target: None, message: "target cleared"@, ..self },
        }
    }

    /// What the answer to a question comes to.
    pub open spec fn answered(self) -> Step {
        let input = self.prompt_input;
        let next = AppView { text_prompt: None, prompt_input: Seq::empty(), ..self };
        let name = shelf::safe_name(input);
        match self.text_prompt {
            None => (self, ActionView::Continue),
            Some(TextPrompt::Rename) => if next.selected() is Some && name.len() > 0 {
                (next, ActionView::Rename(name))
            } else {
                (next, ActionView::Continue)
            },
            Some(TextPrompt::SearchShelf) => (
                AppView {
                    shelf_search: input,
                    message: if input.len() == 0 {
                        "search cleared"@
                    } else {
                        "search: "@ + input
                    },
                    ..next
                },
                ActionView::Refresh,
            ),
            Some(TextPrompt::FindDraft) => (
                AppView { find_query: input, ..next }.found_from(self.document.cursor),
                ActionView::Continue,
            ),
            Some(TextPrompt::WordTarget) => (next.with_target(input), ActionView::Continue),
            Some(TextPrompt::NewProject) => if name.len() > 0 {
                (next, ActionView::NewProject(name))
            } else {
                (next, ActionView::Continue)
            },
            Some(TextPrompt::NewChapter) => if name.len() > 0 {
                (next, ActionView::NewChapter(name))
            } else {
                (next, ActionView::Continue)
            },
        }
    }

    /// What a key does while a question is asked.
    pub open spec fn prompt_key(self, key: Key) -> Step {
        match key {
            Key::Char(c) => if text::control(c) {
                (self, ActionView::Continue)
            } else {
                (
                    AppView { prompt_input: self.prompt_input.push(c), ..self },
                    ActionView::Continue,
                )
            },
            Key::Backspace => (
                AppView {
                    prompt_input: if self.prompt_input.len() > 0 {
                        self.prompt_input.drop_last()
                    } else {
                        self.prompt_input
                    },
                    ..self
                },
                ActionView::Continue,
            ),
            Key::Enter => self.answered(),
            Key::Escape | Key::Browser => (
                AppView {
                    text_prompt: None,
                    prompt_input: Seq::empty(),
                    message: "cancelled"@,
                    ..self
                },
                ActionView::Continue,
            ),
            _ => (self, ActionView::Continue),
        }
    }

    /// What an entered password comes to.
    pub open spec fn password_entered(self) -> Step {
        match self.lock_prompt {
            Some(LockPrompt::Create) => if self.password_input.len() < PASSWORD_LENGTH {
                (self.saying("Use at least 8 characters"@), ActionView::Continue)
            } else {
                (
                    AppView {
                        password_confirmation: self.password_input,
                        password_input: Seq::empty(),
                        lock_prompt: Some(LockPrompt::Confirm),
                        message: "Enter it again"@,
                        ..self
                    },
                    ActionView::Continue,
                )
            },
            Some(LockPrompt::Confirm) => if self.password_input != self.password_confirmation {
                (
                    AppView {
                        password_input: Seq::empty(),
                        password_confirmation: Seq::empty(),
                        lock_prompt: Some(LockPrompt::Create),
                        message: "Passwords did not match — try again"@,
                        ..self
                    },
                    ActionView::Continue,
                )
            } else {
                (self, ActionView::CreateLock)
            },
            Some(LockPrompt::Unlock) => (self, ActionView::TryLock),
            None => (self, ActionView::Continue),
        }
    }

    /// What a key does while a password is asked for.
    pub open spec fn password_key(self, key: Key) -> Step {
        match key {
            Key::Char(c) => if text::control(c) {
                (self, ActionView::Continue)
            } else {
                (
                    AppView { password_input: self.password_input.push(c), ..self },
                    ActionView::Continue,
                )
            },
            Key::Backspace => (
                AppView {
                    password_input: if self.password_input.len() > 0 {
                        self.password_input.drop_last()
                    } else {
                        self.password_input
                    },
                    ..self
                },
                ActionView::Continue,
            ),
            Key::Enter => self.password_entered(),
            Key::Escape | Key::Browser => (
                AppView {
                    password_input: Seq::empty(),
                    password_confirmation: Seq::empty(),
                    lock_prompt: None,
                    message: "Locked"@,
                    ..self
                },
                ActionView::Continue,
            ),
            _ => (self, ActionView::Continue),
        }
    }

    pub open spec fn next_theme(self) -> AppView {
        AppView { theme: (self.theme + 1) % theme::THEME_COUNT as int, ..self }
    }

    /// The page turned by a quarter.
    pub open spec fn turned(self) -> AppView {
        AppView { rotation: (self.rotation + 1) % 4, scroll: 0, ..self }
    }

    pub open spec fn larger(self) -> AppView {
        AppView {
            zoom: if self.zoom + 1 > 5 {
                5
            } else {
                self.zoom + 1
            },
            ..self
        }
    }

    pub open spec fn smaller(self) -> AppView {
        AppView {
            zoom: if self.zoom - 1 < -8 {
                -8
            } else {
                self.zoom - 1
            },
            ..self
        }
    }

    pub open spec fn chosen_up(self) -> AppView {
        if self.screen == Screen::Categories {
            AppView {
                category_index: if self.category_index > 0 {
                    self.category_index - 1
                } else {
                    0
                },
                ..self
            }
        } else {
            AppView {
                document_index: if self.document_index > 0 {
                    self.document_index - 1
                } else {
                    0
                },
                ..self
            }
        }
    }

    pub open spec fn chosen_down(self) -> AppView {
        if self.screen == Screen::Categories {
            AppView {
                category_index: if self.category_index + 1 > shelf::CATEGORY_COUNT - 1 {
                    shelf::CATEGORY_COUNT - 1
                } else {
                    self.category_index + 1
                },
                ..self
            }
        } else if self.documents.len() > 0 {
            AppView {
                document_index: if self.document_index + 1 > self.documents.len() - 1 {
                    self.documents.len() - 1
                } else {
                    self.document_index + 1
                },
                ..self
            }
        } else {
            self
        }
    }

    /// The chosen note pinned, or no longer pinned.
    pub open spec fn pin_toggled(self) -> Step {
        match self.selected() {
            Some(note) => (
                if self.pinned.contains(note) {
                    AppView {
                        pinned: unpinned(self.pinned, note),
                        message: "unpinned"@,
                        ..self
                    }
                } else {
                    AppView { pinned: self.pinned.push(note), message: "pinned"@, ..self }
                },
                ActionView::StorePins,
            ),
            None => (self, ActionView::Continue),
        }
    }

    /// The folder of the book that the chosen note belongs to.
    pub open spec fn project_root(self) -> Option<path::PathView> {
        let projects = shelf::category_folder(
            self.directory,
            shelf::PROJECTS_CATEGORY_INDEX as int,
        );
        match self.selected() {
            Some(note) => if note.below(projects) && note.parts.len() > projects.parts.len() {
                Some(projects.joined(note.parts[projects.parts.len() as int]))
            } else {
                None
            },
            None => None,
        }
    }

    /// What a key does on the list of notes, beyond what it does on every list.
    pub open spec fn documents_key(self, key: Key) -> Step {
        let in_projects = self.category_index == shelf::PROJECTS_CATEGORY_INDEX;
        match key {
            Key::Enter => (
                self,
                if self.selected() is Some {
                    ActionView::OpenSelected
                } else {
                    ActionView::NewNote
                },
            ),
            Key::New => (self, ActionView::NewNote),
            Key::Search => (self.prompting(TextPrompt::SearchShelf), ActionView::Continue),
            Key::Char(c) => if c == '/' {
                (self.prompting(TextPrompt::SearchShelf), ActionView::Continue)
            } else if c == 'r' {
                (self.prompting(TextPrompt::Rename), ActionView::Continue)
            } else if c == 'p' {
                self.pin_toggled()
            } else if c == 'd' {
                match self.selected() {
                    Some(note) => if self.secret(note) {
                        (
                            self.saying("Encrypted trash is not available yet"@),
                            ActionView::Continue,
                        )
                    } else {
                        (self, ActionView::Trash)
                    },
                    None => (self, ActionView::Continue),
                }
            } else if c == 'a' {
                (
                    self,
                    if self.selected() is Some {
                        ActionView::MoveTo(shelf::ARCHIVE_CATEGORY_INDEX as int)
                    } else {
                        ActionView::Continue
                    },
                )
            } else if c == 'v' {
                (
                    self,
                    if self.selected() is Some {
                        ActionView::SelectReference
                    } else {
                        ActionView::Continue
                    },
                )
            } else if c == 'j' && in_projects {
                (self.prompting(TextPrompt::NewProject), ActionView::Continue)
            } else if c == 'c' && in_projects {
                (self.prompting(TextPrompt::NewChapter), ActionView::Continue)
            } else if c == 'e' && in_projects {
                if self.project_root() is Some {
                    (self, ActionView::ExportBook)
                } else {
                    (
                        self.saying("Select a chapter inside a book project"@),
                        ActionView::Continue,
                    )
                }
            } else if c == 'm' {
                (
                    self,
                    if self.selected() is Some {
                        ActionView::MoveTo((self.category_index + 1) % shelf::CATEGORY_COUNT as int)
                    } else {
                        ActionView::Continue
                    },
                )
            } else {
                (self, ActionView::Continue)
            },
            Key::Browser | Key::Escape => (
                AppView { screen: Screen::Categories, ..self.locked() },
                ActionView::Continue,
            ),
            _ => (self, ActionView::Continue),
        }
    }

    /// What a key does on the list of shelves, beyond what it does on every list.
    pub open spec fn categories_key(self, key: Key) -> Step {
        match key {
            Key::Enter => if self.category_index == shelf::SECRET_CATEGORY_INDEX
                && !self.secret_unlocked {
                (self, ActionView::ProbeLock)
            } else {
                (self, ActionView::OpenCategory)
            },
            Key::Browser | Key::Escape => (
                AppView { screen: Screen::Editor, ..self },
                ActionView::Continue,
            ),
            _ => (self, ActionView::Continue),
        }
    }

    /// What a key does on a list.
    pub open spec fn browser_key(self, key: Key) -> Step {
        match key {
            Key::Up => (self.chosen_up(), ActionView::Continue),
            Key::Down => (self.chosen_down(), ActionView::Continue),
            _ => if self.screen == Screen::Documents {
                self.documents_key(key)
            } else {
                self.categories_key(key)
            },
        }
    }

    pub open spec fn with_document(self, document: document::DocumentView) -> AppView {
        AppView { document, ..self }
    }

    /// What a key does to the text.
    pub open spec fn typed(self, key: Key, page_height: int, page_width: int) -> Option<AppView> {
        let d = self.document;
        match key {
            Key::Char(c) => Some(self.with_document(d.inserted(c))),
            Key::Enter => Some(self.with_document(d.inserted('\n'))),
            Key::Backspace => Some(self.with_document(d.backspaced())),
            Key::Delete => Some(self.with_document(d.deleted())),
            Key::Left => Some(
                self.with_document(
                    d.moved(
                        if d.cursor > 0 {
                            d.cursor - 1
                        } else {
                            0
                        },
                    ),
                ),
            ),
            Key::Right => Some(
                self.with_document(
                    d.moved(
                        if d.cursor < d.text.len() {
                            d.cursor + 1
                        } else {
                            d.cursor
                        },
                    ),
                ),
            ),
            Key::Up => Some(self.with_document(d.moved_rows(page_width, -1))),
            Key::Down => Some(self.with_document(d.moved_rows(page_width, 1))),
            Key::Home => Some(
                self.with_document(d.moved(document::line_start_of(d.text, d.cursor))),
            ),
            Key::End => Some(self.with_document(d.moved(document::line_end_of(d.text, d.cursor)))),
            Key::PageUp => Some(self.with_document(d.moved_rows(page_width, -page_height))),
            Key::PageDown => Some(self.with_document(d.moved_rows(page_width, page_height))),
            Key::Undo => Some(
                self.with_document(d.undone()).saying(
                    if d.undo.len() > 0 {
                        "undo"@
                    } else {
                        "nothing to undo"@
                    },
                ),
            ),
            Key::Redo => Some(
                self.with_document(d.redone()).saying(
                    if d.redo.len() > 0 {
                        "redo"@
                    } else {
                        "nothing to redo"@
                    },
                ),
            ),
            _ => None,
        }
    }

    /// A sprint begun, or ended.
    pub open spec fn sprinted(self, now: u64) -> AppView {
        if self.sprint_started is Some {
            AppView { sprint_started: None, message: "sprint stopped"@, ..self }
        } else {
            AppView {
                sprint_started: Some(now),
                session_initial_words: document::words(
                    self.document.text,
                    self.document.text.len() as int,
                ),
                message: "25 minute sprint"@,
                ..self
            }
        }
    }

    /// What a key does on the page, beyond what it does to the text.
    pub open spec fn commanded(self, key: Key, now: u64) -> Step {
        match key {
            Key::Save => (self, ActionView::Save),
            Key::Restore => (self, ActionView::Restore),
            Key::Search => (self.prompting(TextPrompt::FindDraft), ActionView::Continue),
            Key::FindNext => (self.found_next(), ActionView::Continue),
            Key::Sprint => (self.sprinted(now), ActionView::Continue),
            Key::Target => (self.prompting(TextPrompt::WordTarget), ActionView::Continue),
            Key::Outline => (
                AppView { outline_visible: !self.outline_visible, ..self },
                ActionView::Continue,
            ),
            Key::PreviousHeading => (self.at_heading(false), ActionView::Continue),
            Key::NextHeading => (self.at_heading(true), ActionView::Continue),
            Key::SplitView => (
                if self.reference_path is Some {
                    AppView { split_visible: !self.split_visible, ..self }
                } else {
                    self.saying("choose a reference with v in the browser"@)
                },
                ActionView::Continue,
            ),
            Key::New => (self, ActionView::NewNote),
            Key::Browser | Key::Escape => if self.secret(self.path) {
                (self, ActionView::CloseSecretEditor)
            } else {
                (AppView { screen: Screen::Categories, ..self.locked() }, ActionView::Continue)
            },
            _ => (self, ActionView::Continue),
        }
    }

    /// The page shown from its start, where it is the page that is shown.
    pub open spec fn from_the_start(self) -> AppView {
        if self.screen == Screen::Editor {
            AppView { scroll: 0, ..self }
        } else {
            self
        }
    }

    /// What a key does that works everywhere, whatever is asked or shown: it ends
    /// the session, opens or closes the help, or changes the display.
    pub open spec fn everywhere(self, key: Key) -> Option<Step> {
        match key {
            Key::Quit => Some((self, ActionView::Quit)),
            Key::Help => Some(
                (AppView { help_visible: !self.help_visible, ..self }, ActionView::Continue),
            ),
            Key::Theme => Some((self.next_theme(), ActionView::StoreDisplay(true))),
            Key::Rotate => Some((self.turned(), ActionView::StoreDisplay(false))),
            Key::Larger => Some(
                (self.larger().from_the_start(), ActionView::StoreDisplay(false)),
            ),
            Key::Smaller => Some(
                (self.smaller().from_the_start(), ActionView::StoreDisplay(false)),
            ),
            _ => None,
        }
    }

    /// What a key does. The help lies over all else, and a question or a password
    /// over the lists and the page.
    pub open spec fn handled(self, key: Key, page_height: int, page_width: int, now: u64) -> Step {
        if self.everywhere(key) is Some {
            self.everywhere(key)->0
        } else if self.help_visible {
            if key == Key::Escape {
                (AppView { help_visible: false, ..self }, ActionView::Continue)
            } else {
                (self, ActionView::Continue)
            }
        } else if self.text_prompt is Some {
            self.prompt_key(key)
        } else if self.lock_prompt is Some {
            self.password_key(key)
        } else if self.screen != Screen::Editor {
            self.browser_key(key)
        } else {
            match self.typed(key, page_height, page_width) {
                Some(next) => (next, ActionView::Continue),
                None => self.commanded(key, now),
            }
        }
    }
}

} // verus!
