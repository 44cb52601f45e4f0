//! The desk at work: each key taken in, each question and password answered.
use vstd::prelude::*;

use crate::app;
use crate::app::{Action, App, LockPrompt, Screen, TextPrompt, PASSWORD_LENGTH};
use crate::config::DisplayConfig;
use crate::keys::Key;
use crate::laws;
use crate::outline;
use crate::path;
use crate::path::NotePath;
use crate::shelf;
use crate::text;
use crate::theme;
use crate::vault;

verus! {

fn utf8_len(c: char) -> (length: usize)
    ensures
        length == app::utf8_length(c),
        1 <= length <= 4,
{
    let u: u32 = c as u32;
    if u <= 0x7f {
        1
    } else if u <= 0x7ff {
        2
    } else if u <= 0xffff {
        3
    } else {
        4
    }
}

fn offset_of(chars: &[char], count: usize) -> (offset: u128)
    requires
        count <= chars@.len(),
    ensures
        offset == app::byte_offset(chars@, count as int),
{
    let mut offset: u128 = 0;
    let mut i: usize = 0;
    while i < count
        invariant
            i <= count <= chars@.len(),
            offset == app::byte_offset(chars@, i as int),
            offset <= 4 * i,
        decreases count - i,
    {
        offset += utf8_len(chars[i]) as u128;
        i += 1;
    }
    offset
}

fn place_at_byte(chars: &[char], byte: u128) -> (place: Option<usize>)
    ensures
        match place {
            Some(p) => app::place_of_byte(chars@, byte as int, 0) == Some(p as int) && p
                <= chars@.len(),
            None => app::place_of_byte(chars@, byte as int, 0) is None,
        },
{
    let mut offset: u128 = 0;
    let mut i: usize = 0;
    while i < chars.len()
        invariant
            i <= chars@.len(),
            offset == app::byte_offset(chars@, i as int),
            offset <= 4 * i,
            app::place_of_byte(chars@, byte as int, i as int) == app::place_of_byte(
                chars@,
                byte as int,
                0,
            ),
        decreases chars@.len() - i,
    {
        if offset == byte {
            return Some(i);
        }
        offset += utf8_len(chars[i]) as u128;
        i += 1;
    }
    if offset == byte {
        Some(i)
    } else {
        None
    }
}

/// What a search comes to.
pub enum Found {
    At(usize),
    Missing,
    Lost,
}

impl View for Found {
    type V = app::Search;

    open spec fn view(&self) -> app::Search {
        match self {
            Found::At(place) => app::Search::Found(*place as int),
            Found::Missing => app::Search::Missing,
            Found::Lost => app::Search::Lost,
        }
    }
}

/// Looks for a query from a place on, then from the beginning.
pub fn search(text: &[char], start: usize, lower: &[char], query: &[char]) -> (found: Found)
    requires
        start <= text@.len(),
    ensures
        found@ == app::searched(text@, start as int, lower@, query@),
        found matches Found::At(place) ==> place <= text@.len(),
{
    let from: usize = match place_at_byte(lower, offset_of(text, start)) {
        Some(place) => place,
        None => {
            return Found::Lost;
        },
    };
    let ahead: Option<usize> = text::find(lower, query, from);
    let hit: usize = match ahead {
        Some(place) => place,
        None => match text::find(lower, query, 0) {
            Some(place) => place,
            None => {
                return Found::Missing;
            },
        },
    };
    match place_at_byte(text, offset_of(lower, hit)) {
        Some(place) => Found::At(place),
        None => Found::Lost,
    }
}

/// Where a note stands in a list.
pub fn position_of(list: &Vec<NotePath>, note: &NotePath) -> (place: Option<usize>)
    ensures
        match place {
            Some(p) => p < list@.len() && path::path_views(list@)[p as int] == note@
                && app::place_in(path::path_views(list@), note@, 0) == p,
            None => !path::path_views(list@).contains(note@) && app::place_in(
                path::path_views(list@),
                note@,
                0,
            ) == 0,
        },
{
    let ghost shown = path::path_views(list@);
    let mut i: usize = 0;
    while i < list.len()
        invariant
            i <= list@.len(),
            shown == path::path_views(list@),
            forall|k: int| 0 <= k < i ==> shown[k] != note@,
            app::place_in(shown, note@, i as int) == app::place_in(shown, note@, 0),
        decreases list@.len() - i,
    {
        if list[i].same(note) {
            return Some(i);
        }
        i += 1;
    }
    None
}

/// The list without a note.
pub fn without(list: &Vec<NotePath>, note: &NotePath) -> (rest: Vec<NotePath>)
    ensures
        path::path_views(rest@) == app::unpinned(path::path_views(list@), note@),
{
    let ghost shown = path::path_views(list@);
    let mut rest: Vec<NotePath> = Vec::new();
    let mut i: usize = 0;
    proof {
        reveal(Seq::filter);
        assert(path::path_views(rest@) == app::unpinned(shown.take(0), note@));
    }
    while i < list.len()
        invariant
            i <= list@.len(),
            shown == path::path_views(list@),
            path::path_views(rest@) == app::unpinned(shown.take(i as int), note@),
        decreases list@.len() - i,
    {
        let ghost before = rest@;
        proof {
            reveal(Seq::filter);
            assert(shown.take(i + 1).drop_last() == shown.take(i as int));
            assert(shown.take(i + 1).last() == list@[i as int]@);
        }
        if !list[i].same(note) {
            let kept: NotePath = list[i].copy();
            rest.push(kept);
            assert(path::path_views(rest@) == path::path_views(before).push(kept@));
        }
        i += 1;
    }
    assert(shown.take(shown.len() as int) == shown);
    rest
}

/// A list without a note holds no more than before, each once, and not that note.
pub proof fn lemma_unpinned(pinned: Seq<path::PathView>, note: path::PathView)
    requires
        pinned.no_duplicates(),
    ensures
        app::unpinned(pinned, note).no_duplicates(),
        !app::unpinned(pinned, note).contains(note),
        forall|other: path::PathView|
            #![auto]
            app::unpinned(pinned, note).contains(other) <==> pinned.contains(other) && other != note,
    decreases pinned.len(),
{
    reveal(Seq::filter);
    if pinned.len() > 0 {
        let shorter = pinned.drop_last();
        assert(shorter.no_duplicates());
        lemma_unpinned(shorter, note);
        let rest = app::unpinned(pinned, note);
        let inner = app::unpinned(shorter, note);
        let last = pinned.last();
        assert forall|other: path::PathView| #![auto] pinned.contains(other) implies shorter.contains(
            other,
        ) || other == last by {
            let k = choose|k: int| 0 <= k < pinned.len() && pinned[k] == other;
            if k < pinned.len() - 1 {
                assert(shorter[k] == other);
            }
        }
        assert forall|other: path::PathView| #![auto] shorter.contains(other) implies pinned.contains(
            other,
        ) by {
            let k = choose|k: int| 0 <= k < shorter.len() && shorter[k] == other;
            assert(pinned[k] == other);
        }
        assert(pinned.contains(last)) by {
            assert(pinned[pinned.len() - 1] == last);
        }
        if last != note {
            assert(rest == inner.push(last));
            assert(!shorter.contains(last)) by {
                if shorter.contains(last) {
                    let k = choose|k: int| 0 <= k < shorter.len() && shorter[k] == last;
                    assert(pinned[k] == pinned[pinned.len() - 1]);
                }
            }
            assert(!inner.contains(last));
            assert forall|other: path::PathView| #![auto] rest.contains(other) implies inner.contains(
                other,
            ) || other == last by {
                let k = choose|k: int| 0 <= k < rest.len() && rest[k] == other;
                if k < inner.len() {
                    assert(inner[k] == other);
                }
            }
            assert forall|other: path::PathView| #![auto] inner.contains(other) implies rest.contains(
                other,
            ) by {
                let k = choose|k: int| 0 <= k < inner.len() && inner[k] == other;
                assert(rest[k] == other);
            }
            assert(rest[rest.len() - 1] == last);
        } else {
            assert(rest == inner);
        }
    }
}

impl App {
    /// The settings of the page.
    pub fn display(&self) -> (config: DisplayConfig)
        ensures
            config == self@.display(),
    {
        DisplayConfig { rotation: self.rotation, zoom: self.zoom, theme: self.theme }
    }

    /// The folder of a shelf.
    pub fn category_directory(&self, index: usize) -> (folder: NotePath)
        ensures
            folder@ == shelf::category_folder(self@.directory, index as int),
    {
        shelf::category_directory(&self.directory, index)
    }

    /// Whether a place lies on the encrypted shelf.
    pub fn is_secret_path(&self, place: &NotePath) -> (yes: bool)
        ensures
            yes == self@.secret(place@),
    {
        shelf::is_secret_path(&self.directory, place)
    }

    /// The chosen note.
    pub fn selected_path(&self) -> (place: Option<NotePath>)
        ensures
            match place {
                Some(p) => self@.selected() == Some(p@),
                None => self@.selected() is None,
            },
    {
        if self.document_index < self.documents.len() {
            Some(self.documents[self.document_index].copy())
        } else {
            None
        }
    }

    /// Asks a question.
    pub fn start_prompt(&mut self, prompt: TextPrompt)
        ensures
            final(self)@ == old(self)@.prompting(prompt),
    {
        self.prompt_input = String::new();
        self.text_prompt = Some(prompt);
    }

    /// Goes on to the next place in the draft that answers the search, behind the
    /// cursor or, if there is none, from the beginning.
    pub fn find_next(&mut self)
        requires
            old(self)@.wf(),
        ensures
            final(self)@ == old(self)@.found_next(),
            old(self)@.plain_search() ==> final(self)@.search_done(old(self)@),
            final(self)@.wf(),
    {
        let start: usize = if self.document.cursor < self.document.text.len() {
            self.document.cursor + 1
        } else {
            self.document.cursor
        };
        self.find_from(start);
    }

    /// Looks in the draft from a place on, then from the beginning.
    fn find_from(&mut self, start: usize)
        requires
            old(self)@.wf(),
            start <= old(self)@.document.text.len(),
        ensures
            final(self)@ == old(self)@.found_from(start as int),
            old(self)@.plain_search() ==> final(self)@.search_done(old(self)@),
            final(self)@.wf(),
    {
        let query: Vec<char> = text::chars_of(self.find_query.as_str());
        if query.len() == 0 {
            self.message = text::owned("no find text");
            return;
        }
        let whole: String = self.document.as_string();
        let lower: Vec<char> = text::chars_of(text::to_lowercase(whole.as_str()).as_str());
        let lower_query: Vec<char> = text::chars_of(
            text::to_lowercase(self.find_query.as_str()).as_str(),
        );
        proof {
            if self@.plain_search() {
                text::lemma_ascii_lowered(self@.document.text);
                laws::law_a_search_finds_what_is_there(
                    self@.document.text,
                    lower@,
                    start as int,
                    lower_query@,
                );
            }
        }
        match search(
            self.document.text.as_slice(),
            start,
            lower.as_slice(),
            lower_query.as_slice(),
        ) {
            Found::At(place) => {
                self.document.cursor = place;
                let mut message: String = text::owned("found: ");
                message.append(self.find_query.as_str());
                self.message = message;
            },
            Found::Missing => {
                let mut message: String = text::owned("not found: ");
                message.append(self.find_query.as_str());
                self.message = message;
            },
            Found::Lost => {},
        }
    }

    /// The headings of the draft.
    pub fn headings(&self) -> (found: Vec<(usize, usize, String)>)
        ensures
            outline::heading_views(found@) == outline::headings(self@.document.text),
    {
        outline::markdown_headings(self.document.text.as_slice())
    }

    /// Goes to the next heading, or to the one before.
    pub fn move_heading(&mut self, forward: bool)
        requires
            old(self)@.wf(),
        ensures
            final(self)@ == old(self)@.at_heading(forward),
            final(self)@.wf(),
    {
        let found: Vec<(usize, usize, String)> = self.headings();
        match outline::choose_heading(&found, self.document.cursor, forward) {
            Some(row) => {
                proof {
                    assert(outline::heading_views(found@)[row as int] == outline::heading_view(
                        found@[row as int],
                    ));
                    outline::law_headings_stand_in_the_text(self@.document.text, row as int);
                }
                self.document.cursor = found[row].0;
                self.scroll = 0;
                let mut message: String = text::owned("heading: ");
                message.append(found[row].2.as_str());
                self.message = message;
            },
            None => {
                self.message = text::owned("no headings");
            },
        }
    }

    fn set_target(&mut self, input: &str)
        requires
            old(self)@.wf(),
        ensures
            final(self)@ == old(self)@.with_target(input@),
            final(self)@.wf(),
    {
        match text::parse_unsigned(text::chars_of(input).as_slice(), usize::MAX as u64) {
            Some(target) => {
                if target > 0 {
                    self.word_target = Some(target as usize);
                    let mut message: String = text::owned("target: ");
                    message.append(text::decimal_text(target as u128).as_str());
                    message.append(" words");
                    self.message = message;
                } else {
                    self.word_target = None;
                    self.message = text::owned("target cleared");
                }
            },
            None => {
                self.word_target = None;
                self.message = text::owned("target cleared");
            },
        }
    }

    /// Takes the answer to the question that is asked.
    pub fn submit_text_prompt(&mut self) -> (action: Action)
        requires
            old(self)@.wf(),
        ensures
            (final(self)@, action@) == old(self)@.answered(),
            final(self)@.wf(),
    {
        let prompt: TextPrompt = match self.text_prompt {
            Some(prompt) => prompt,
            None => {
                return Action::Continue;
            },
        };
        self.text_prompt = None;
        let input: String = text::owned(self.prompt_input.as_str());
        self.prompt_input = String::new();
        match prompt {
            TextPrompt::Rename => {
                let name: String = shelf::safe_filename(input.as_str());
                if self.document_index < self.documents.len() && text::chars_of(
                    name.as_str(),
                ).len() > 0 {
                    Action::Rename(name)
                } else {
                    Action::Continue
                }
            },
            TextPrompt::SearchShelf => {
                if text::chars_of(input.as_str()).len() == 0 {
                    self.message = text::owned("search cleared");
                } else {
                    let mut message: String = text::owned("search: ");
                    message.append(input.as_str());
                    self.message = message;
                }
                self.shelf_search = input;
                Action::Refresh
            },
            TextPrompt::FindDraft => {
                self.find_query = input;
                self.find_from(self.document.cursor);
                Action::Continue
            },
            TextPrompt::WordTarget => {
                self.set_target(input.as_str());
                Action::Continue
            },
            TextPrompt::NewProject => {
                let name: String = shelf::safe_filename(input.as_str());
                if text::chars_of(name.as_str()).len() > 0 {
                    Action::NewProject(name)
                } else {
                    Action::Continue
                }
            },
            TextPrompt::NewChapter => {
                let name: String = shelf::safe_filename(input.as_str());
                if text::chars_of(name.as_str()).len() > 0 {
                    Action::NewChapter(name)
                } else {
                    Action::Continue
                }
            },
        }
    }

    /// Takes the password that was typed.
    pub fn submit_lock_prompt(&mut self) -> (action: Action)
        requires
            old(self)@.wf(),
        ensures
            (final(self)@, action@) == old(self)@.password_entered(),
            final(self)@.wf(),
    {
        match self.lock_prompt {
            Some(LockPrompt::Create) => {
                if text::chars_of(self.password_input.as_str()).len() < PASSWORD_LENGTH {
                    self.message = text::owned("Use at least 8 characters");
                } else {
                    self.password_confirmation = text::owned(self.password_input.as_str());
                    self.password_input = String::new();
                    self.lock_prompt = Some(LockPrompt::Confirm);
                    self.message = text::owned("Enter it again");
                }
                Action::Continue
            },
            Some(LockPrompt::Confirm) => {
                if !text::same(
                    self.password_input.as_str(),
                    self.password_confirmation.as_str(),
                ) {
                    self.password_input = String::new();
                    self.password_confirmation = String::new();
                    self.lock_prompt = Some(LockPrompt::Create);
                    self.message = text::owned("Passwords did not match — try again");
                    Action::Continue
                } else {
                    Action::CreateLock
                }
            },
            Some(LockPrompt::Unlock) => Action::TryLock,
            None => Action::Continue,
        }
    }

    fn handle_prompt(&mut self, key: Key) -> (action: Action)
        requires
            old(self)@.wf(),
        ensures
            (final(self)@, action@) == old(self)@.prompt_key(key),
            final(self)@.wf(),
    {
        match key {
            Key::Char(character) => {
                if !text::is_control(character) {
                    self.prompt_input.push(character);
                }
                Action::Continue
            },
            Key::Backspace => {
                self.prompt_input.pop();
                Action::Continue
            },
            Key::Enter => self.submit_text_prompt(),
            Key::Escape | Key::Browser => {
                self.text_prompt = None;
                self.prompt_input = String::new();
                self.message = text::owned("cancelled");
                Action::Continue
            },
            _ => Action::Continue,
        }
    }

    fn handle_password(&mut self, key: Key) -> (action: Action)
        requires
            old(self)@.wf(),
        ensures
            (final(self)@, action@) == old(self)@.password_key(key),
            final(self)@.wf(),
    {
        match key {
            Key::Char(character) => {
                if !text::is_control(character) {
                    self.password_input.push(character);
                }
                Action::Continue
            },
            Key::Backspace => {
                self.password_input.pop();
                Action::Continue
            },
            Key::Enter => self.submit_lock_prompt(),
            Key::Escape | Key::Browser => {
                self.password_input = String::new();
                self.password_confirmation = String::new();
                self.lock_prompt = None;
                self.message = text::owned("Locked");
                Action::Continue
            },
            _ => Action::Continue,
        }
    }

    /// Closes the vault and erases its key.
    pub fn lock_secrets(&mut self)
        ensures
            final(self)@ == old(self)@.locked(),
    {
        self.secret_unlocked = false;
        if let Some(key) = self.secret_key {
            let mut erased: [u8; 32] = key;
            vault::wipe(&mut erased);
            self.secret_key = Some(erased);
        }
        self.secret_key = None;
    }

    /// Pins the chosen note, or no longer pins it.
    pub fn toggle_pin(&mut self) -> (action: Action)
        requires
            old(self)@.wf(),
        ensures
            (final(self)@, action@) == old(self)@.pin_toggled(),
            final(self)@.wf(),
    {
        match self.selected_path() {
            Some(note) => {
                match position_of(&self.pinned, &note) {
                    Some(place) => {
                        proof {
                            assert(self@.pinned[place as int] == note@);
                            lemma_unpinned(self@.pinned, note@);
                        }
                        self.pinned = without(&self.pinned, &note);
                        self.message = text::owned("unpinned");
                    },
                    None => {
                        let ghost before = self.pinned@;
                        self.pinned.push(note);
                        proof {
                            assert(path::path_views(self.pinned@) == path::path_views(before).push(
                                note@,
                            ));
                        }
                        self.message = text::owned("pinned");
                    },
                }
                Action::StorePins
            },
            None => Action::Continue,
        }
    }

    /// The folder of the book that the chosen note belongs to.
    pub fn selected_project_root(&self) -> (root: Option<NotePath>)
        ensures
            match root {
                Some(r) => self@.project_root() == Some(r@),
                None => self@.project_root() is None,
            },
    {
        let projects: NotePath = self.category_directory(shelf::PROJECTS_CATEGORY_INDEX);
        match self.selected_path() {
            Some(note) => {
                if note.starts_with(&projects) && note.parts.len() > projects.parts.len() {
                    let at: usize = projects.parts.len();
                    assert(note@.parts[at as int] == note.parts@[at as int]@);
                    Some(projects.join(note.parts[at].as_str()))
                } else {
                    None
                }
            },
            None => None,
        }
    }

    fn make_larger(&mut self)
        requires
            old(self)@.wf(),
        ensures
            final(self)@ == old(self)@.larger(),
            final(self)@.wf(),
    {
        if self.zoom < 5 {
            self.zoom += 1;
        }
    }

    fn make_smaller(&mut self)
        requires
            old(self)@.wf(),
        ensures
            final(self)@ == old(self)@.smaller(),
            final(self)@.wf(),
    {
        if self.zoom > -8 {
            self.zoom -= 1;
        }
    }

    fn turn(&mut self)
        requires
            old(self)@.wf(),
        ensures
            final(self)@ == old(self)@.turned(),
            final(self)@.wf(),
    {
        self.rotation = (self.rotation + 1) % 4;
        self.scroll = 0;
    }

    fn change_theme(&mut self)
        requires
            old(self)@.wf(),
        ensures
            final(self)@ == old(self)@.next_theme(),
            final(self)@.wf(),
    {
        self.theme = (self.theme + 1) % theme::THEME_COUNT;
    }

    fn choose_up(&mut self)
        requires
            old(self)@.wf(),
        ensures
            final(self)@ == old(self)@.chosen_up(),
            final(self)@.wf(),
    {
        if self.screen == Screen::Categories {
            if self.category_index > 0 {
                self.category_index -= 1;
            }
        } else if self.document_index > 0 {
            self.document_index -= 1;
        }
    }

    fn choose_down(&mut self)
        requires
            old(self)@.wf(),
        ensures
            final(self)@ == old(self)@.chosen_down(),
            final(self)@.wf(),
    {
        assert(self@.documents.len() == self.documents@.len());
        if self.screen == Screen::Categories {
            if self.category_index < shelf::CATEGORY_COUNT - 1 {
                self.category_index += 1;
            }
        } else if self.documents.len() > 0 {
            if self.document_index < self.documents.len() - 1 {
                self.document_index += 1;
            }
        }
    }

    fn handle_documents(&mut self, key: Key) -> (action: Action)
        requires
            old(self)@.wf(),
        ensures
            (final(self)@, action@) == old(self)@.documents_key(key),
            final(self)@.wf(),
    {
        let chosen: bool = self.document_index < self.documents.len();
        assert(chosen == (self@.selected() is Some));
        let in_projects: bool = self.category_index == shelf::PROJECTS_CATEGORY_INDEX;
        match key {
            Key::Enter => if chosen {
                Action::OpenSelected
            } else {
                Action::NewNote
            },
            Key::New => Action::NewNote,
            Key::Search => {
                self.start_prompt(TextPrompt::SearchShelf);
                Action::Continue
            },
            Key::Char(c) => {
                if c == '/' {
                    self.start_prompt(TextPrompt::SearchShelf);
                    Action::Continue
                } else if c == 'r' {
                    self.start_prompt(TextPrompt::Rename);
                    Action::Continue
                } else if c == 'p' {
                    self.toggle_pin()
                } else if c == 'd' {
                    match self.selected_path() {
                        Some(note) => {
                            if self.is_secret_path(&note) {
                                self.message = text::owned("Encrypted trash is not available yet");
                                Action::Continue
                            } else {
                                Action::Trash
                            }
                        },
                        None => Action::Continue,
                    }
                } else if c == 'a' {
                    if chosen {
                        Action::MoveTo(shelf::ARCHIVE_CATEGORY_INDEX)
                    } else {
                        Action::Continue
                    }
                } else if c == 'v' {
                    if chosen {
                        Action::SelectReference
                    } else {
                        Action::Continue
                    }
                } else if c == 'j' && in_projects {
                    self.start_prompt(TextPrompt::NewProject);
                    Action::Continue
                } else if c == 'c' && in_projects {
                    self.start_prompt(TextPrompt::NewChapter);
                    Action::Continue
                } else if c == 'e' && in_projects {
                    match self.selected_project_root() {
                        Some(_) => Action::ExportBook,
                        None => {
                            self.message = text::owned("Select a chapter inside a book project");
                            Action::Continue
                        },
                    }
                } else if c == 'm' {
                    if chosen {
                        Action::MoveTo((self.category_index + 1) % shelf::CATEGORY_COUNT)
                    } else {
                        Action::Continue
                    }
                } else {
                    Action::Continue
                }
            },
            Key::Browser | Key::Escape => {
                self.lock_secrets();
                self.screen = Screen::Categories;
                Action::Continue
            },
            _ => Action::Continue,
        }
    }

    fn handle_categories(&mut self, key: Key) -> (action: Action)
        requires
            old(self)@.wf(),
        ensures
            (final(self)@, action@) == old(self)@.categories_key(key),
            final(self)@.wf(),
    {
        match key {
            Key::Enter => {
                if self.category_index == shelf::SECRET_CATEGORY_INDEX && !self.secret_unlocked {
                    Action::ProbeLock
                } else {
                    Action::OpenCategory
                }
            },
            Key::Browser | Key::Escape => {
                self.screen = Screen::Editor;
                Action::Continue
            },
            _ => Action::Continue,
        }
    }

    fn handle_browser(&mut self, key: Key) -> (action: Action)
        requires
            old(self)@.wf(),
        ensures
            (final(self)@, action@) == old(self)@.browser_key(key),
            final(self)@.wf(),
    {
        match key {
            Key::Up => {
                self.choose_up();
                Action::Continue
            },
            Key::Down => {
                self.choose_down();
                Action::Continue
            },
            _ => {
                if self.screen == Screen::Documents {
                    self.handle_documents(key)
                } else {
                    self.handle_categories(key)
                }
            },
        }
    }

    /// Hands a key to the text; false if it is no key for the text.
    fn handle_text(&mut self, key: Key, page_height: usize, page_width: usize) -> (taken: bool)
        requires
            old(self)@.wf(),
        ensures
            match old(self)@.typed(key, page_height as int, page_width as int) {
                Some(next) => taken && final(self)@ == next,
                None => !taken && final(self)@ == old(self)@,
            },
            final(self)@.wf(),
    {
        match key {
            Key::Char(c) => self.document.insert(c),
            Key::Enter => self.document.insert('\n'),
            Key::Backspace => self.document.backspace(),
            Key::Delete => self.document.delete(),
            Key::Left => self.document.left(),
            Key::Right => self.document.right(),
            Key::Up => self.document.move_visual_rows(page_width, -1),
            Key::Down => self.document.move_visual_rows(page_width, 1),
            Key::Home => self.document.home(),
            Key::End => self.document.end(),
            Key::PageUp => self.document.move_rows(page_width, true, page_height),
            Key::PageDown => self.document.move_rows(page_width, false, page_height),
            Key::Undo => {
                self.message = if self.document.undo() {
                    text::owned("undo")
                } else {
                    text::owned("nothing to undo")
                };
            },
            Key::Redo => {
                self.message = if self.document.redo() {
                    text::owned("redo")
                } else {
                    text::owned("nothing to redo")
                };
            },
            _ => {
                return false;
            },
        }
        true
    }

    fn sprint(&mut self, now: u64)
        requires
            old(self)@.wf(),
        ensures
            final(self)@ == old(self)@.sprinted(now),
            final(self)@.wf(),
    {
        if self.sprint_started.is_some() {
            self.sprint_started = None;
            self.message = text::owned("sprint stopped");
        } else {
            self.sprint_started = Some(now);
            self.session_initial_words = self.document.word_count();
            self.message = text::owned("25 minute sprint");
        }
    }

    fn handle_command(&mut self, key: Key, now: u64) -> (action: Action)
        requires
            old(self)@.wf(),
        ensures
            (final(self)@, action@) == old(self)@.commanded(key, now),
            final(self)@.wf(),
    {
        match key {
            Key::Save => Action::Save,
            Key::Restore => Action::Restore,
            Key::Search => {
                self.start_prompt(TextPrompt::FindDraft);
                Action::Continue
            },
            Key::FindNext => {
                self.find_next();
                Action::Continue
            },
            Key::Sprint => {
                self.sprint(now);
                Action::Continue
            },
            Key::Target => {
                self.start_prompt(TextPrompt::WordTarget);
                Action::Continue
            },
            Key::Outline => {
                self.outline_visible = !self.outline_visible;
                Action::Continue
            },
            Key::PreviousHeading => {
                self.move_heading(false);
                Action::Continue
            },
            Key::NextHeading => {
                self.move_heading(true);
                Action::Continue
            },
            Key::SplitView => {
                if self.reference_path.is_some() {
                    self.split_visible = !self.split_visible;
                } else {
                    self.message = text::owned("choose a reference with v in the browser");
                }
                Action::Continue
            },
            Key::New => Action::NewNote,
            Key::Browser | Key::Escape => {
                if self.is_secret_path(&self.path) {
                    Action::CloseSecretEditor
                } else {
                    self.lock_secrets();
                    self.screen = Screen::Categories;
                    Action::Continue
                }
            },
            _ => Action::Continue,
        }
    }

    fn show_from_start(&mut self)
        requires
            old(self)@.wf(),
        ensures
            final(self)@ == old(self)@.from_the_start(),
            final(self)@.wf(),
    {
        if self.screen == Screen::Editor {
            self.scroll = 0;
        }
    }

    fn handle_everywhere(&mut self, key: Key) -> (action: Option<Action>)
        requires
            old(self)@.wf(),
        ensures
            match action {
                Some(asked) => old(self)@.everywhere(key) == Some((final(self)@, asked@)),
                None => old(self)@.everywhere(key) is None && final(self)@ == old(self)@,
            },
            final(self)@.wf(),
    {
        match key {
            Key::Quit => Some(Action::Quit),
            Key::Help => {
                self.help_visible = !self.help_visible;
                Some(Action::Continue)
            },
            Key::Theme => {
                self.change_theme();
                Some(Action::StoreDisplay(true))
            },
            Key::Rotate => {
                self.turn();
                Some(Action::StoreDisplay(false))
            },
            Key::Larger => {
                self.make_larger();
                self.show_from_start();
                Some(Action::StoreDisplay(false))
            },
            Key::Smaller => {
                self.make_smaller();
                self.show_from_start();
                Some(Action::StoreDisplay(false))
            },
            _ => None,
        }
    }

    /// Takes a key: changes the desk, and says what is to be done outside.
    pub fn handle(&mut self, key: Key, page_height: usize, page_width: usize, now: u64) -> (action:
        Action)
        requires
            old(self)@.wf(),
        ensures
            (final(self)@, action@) == old(self)@.handled(
                key,
                page_height as int,
                page_width as int,
                now,
            ),
            final(self)@.wf(),
    {
        if let Some(action) = self.handle_everywhere(key) {
            return action;
        }
        if self.help_visible {
            if key == Key::Escape {
                self.help_visible = false;
            }
            return Action::Continue;
        }
        if self.text_prompt.is_some() {
            return self.handle_prompt(key);
        }
        if self.lock_prompt.is_some() {
            return self.handle_password(key);
        }
        if self.screen != Screen::Editor {
            return self.handle_browser(key);
        }
        if self.handle_text(key, page_height, page_width) {
            Action::Continue
        } else {
            self.handle_command(key, now)
        }
    }
}

} // verus!
