//! What follows once the work outside is done: notes opened and saved, the vault
//! locked and unlocked, shelves listed, notes moved.
use vstd::prelude::*;

use crate::app;
use crate::app::{App, AppView, LockPrompt, Screen, AUTOSAVE_INTERVAL, NETWORK_CHECK_INTERVAL};
use crate::config;
use crate::config::DisplayConfig;
use crate::document;
use crate::document::Document;
use crate::handle;
use crate::path;
use crate::path::NotePath;
use crate::shelf;
use crate::text;
use crate::theme;
use crate::vault;
use crate::vault::{Fault, SecretLock, Unlocked, VaultError};

verus! {

/// What to begin with.
#[derive(Debug)]
pub enum Beginning {
    /// A file.
    Open(NotePath),
    /// A new note, on the first shelf.
    NewNote,
}

/// Chooses what to begin with: the file that was asked for, or a new note where
/// that was asked for, or else the note that was changed latest, if there is one.
pub fn beginning(file: Option<NotePath>, force_new: bool, latest: Option<NotePath>) -> (choice:
    Beginning)
    ensures
        match choice {
            Beginning::Open(place) => match file {
                Some(given) => place@ == given@,
                None => !force_new && (latest matches Some(note) && place@ == note@),
            },
            Beginning::NewNote => file is None && (force_new || latest is None),
        },
{
    match file {
        Some(given) => Beginning::Open(given),
        None => if force_new {
            Beginning::NewNote
        } else {
            match latest {
                Some(note) => Beginning::Open(note),
                None => Beginning::NewNote,
            }
        },
    }
}

/// Whether one begins with a page, and not with the shelves: where a file or a new
/// note was asked for.
pub fn begins_with_page(file_given: bool, force_new: bool) -> (yes: bool)
    ensures
        yes == (file_given || force_new),
{
    file_given || force_new
}

/// A list with each note once, where it first stood.
pub open spec fn distinct(list: Seq<path::PathView>) -> Seq<path::PathView>
    decreases list.len(),
{
    if list.len() == 0 {
        Seq::empty()
    } else {
        let before = distinct(list.drop_last());
        if before.contains(list.last()) {
            before
        } else {
            before.push(list.last())
        }
    }
}

pub proof fn lemma_distinct(list: Seq<path::PathView>)
    ensures
        distinct(list).no_duplicates(),
        forall|note: path::PathView| #![auto] distinct(list).contains(note) <==> list.contains(note),
    decreases list.len(),
{
    if list.len() > 0 {
        let shorter = list.drop_last();
        let before = distinct(shorter);
        let all = distinct(list);
        lemma_distinct(shorter);
        assert forall|note: path::PathView| #![auto] list.contains(note) implies all.contains(
            note,
        ) by {
            let k = choose|k: int| 0 <= k < list.len() && list[k] == note;
            if k < shorter.len() {
                assert(shorter[k] == note);
                assert(shorter.contains(note));
                assert(before.contains(note));
                let j = choose|j: int| 0 <= j < before.len() && before[j] == note;
                assert(all[j] == note);
            } else if !before.contains(note) {
                assert(all[all.len() - 1] == note);
            }
        }
        assert forall|note: path::PathView| #![auto] all.contains(note) implies list.contains(
            note,
        ) by {
            let k = choose|k: int| 0 <= k < all.len() && all[k] == note;
            if k < before.len() {
                assert(before[k] == note);
                assert(before.contains(note));
                assert(shorter.contains(note));
                let j = choose|j: int| 0 <= j < shorter.len() && shorter[j] == note;
                assert(list[j] == note);
            } else {
                assert(list[list.len() - 1] == note);
            }
        }
    }
}

fn keep_distinct(list: Vec<NotePath>) -> (result: Vec<NotePath>)
    ensures
        path::path_views(result@) == distinct(path::path_views(list@)),
{
    let ghost shown = path::path_views(list@);
    let mut result: Vec<NotePath> = Vec::new();
    let mut i: usize = 0;
    assert(path::path_views(result@) == distinct(shown.take(0)));
    while i < list.len()
        invariant
            i <= list@.len(),
            shown == path::path_views(list@),
            path::path_views(result@) == distinct(shown.take(i as int)),
        decreases list@.len() - i,
    {
        let ghost before = result@;
        proof {
            assert(shown.take(i + 1).drop_last() == shown.take(i as int));
            assert(shown.take(i + 1).last() == list@[i as int]@);
        }
        match handle::position_of(&result, &list[i]) {
            Some(place) => {
                assert(path::path_views(result@)[place as int] == list@[i as int]@);
            },
            None => {
                let note: NotePath = list[i].copy();
                result.push(note);
                assert(path::path_views(result@) == path::path_views(before).push(note@));
            },
        }
        i += 1;
    }
    assert(shown.take(shown.len() as int) == shown);
    result
}

/// A document just read, with the cursor where it was left, if that is known.
pub open spec fn read_document_view(
    contents: Seq<char>,
    cursor: Option<nat>,
) -> document::DocumentView {
    document::DocumentView {
        text: contents,
        cursor: match cursor {
            Some(left) => if left > contents.len() {
                contents.len() as int
            } else {
                left as int
            },
            None => contents.len() as int,
        },
        dirty: false,
        preferred_column: None,
        undo: Seq::empty(),
        redo: Seq::empty(),
    }
}

fn document_with_cursor(contents: String, cursor: Option<usize>) -> (document: Document)
    ensures
        document@ == read_document_view(
            contents@,
            match cursor {
                Some(left) => Some(left as nat),
                None => None,
            },
        ),
        document@.wf(),
{
    let mut document: Document = Document::from_string(contents);
    if let Some(left) = cursor {
        if left < document.text.len() {
            document.cursor = left;
        }
    }
    document
}

/// The cursor that a file remembers for a note, where there is such a file.
pub open spec fn cursor_left(state: Option<&str>, place: path::PathView) -> Option<nat> {
    match state {
        Some(contents) => config::remembered_cursor(contents@, place.shown()),
        None => None,
    }
}

fn left_cursor(state: Option<&str>, place: &NotePath) -> (cursor: Option<usize>)
    ensures
        match cursor {
            Some(c) => cursor_left(state, place@) == Some(c as nat),
            None => cursor_left(state, place@) is None,
        },
{
    match state {
        Some(contents) => config::read_cursor_state(contents, place.show().as_str()),
        None => None,
    }
}

/// The texts of notes, where they could be read.
pub open spec fn text_views(texts: Seq<Option<String>>) -> Seq<Option<Seq<char>>> {
    texts.map_values(
        |t: Option<String>|
            match t {
                Some(s) => Some(s@),
                None => None,
            },
    )
}

/// What is to be done with a note that is to be moved.
#[derive(Debug, Clone, Copy, PartialEq, Eq, Structural)]
pub enum MovePlan {
    /// It stays where it is.
    Refused,
    /// It crosses the border of the encrypted shelf: it is read, written anew at
    /// its destination, and removed.
    Rewrite,
    /// The file is renamed.
    Rename,
}

impl AppView {
    /// What is read from the bytes of a file, or what is wrong with it.
    pub open spec fn revealed(self, place: path::PathView, bytes: Seq<u8>) -> Result<
        Seq<u8>,
        Fault,
    > {
        if self.secret(place) {
            match self.secret_key {
                Some(key) => vault::decrypted(key, bytes),
                None => Err(Fault::Locked),
            }
        } else {
            Ok(bytes)
        }
    }

    /// The text that is read from the bytes of a file, or what is wrong with it.
    pub open spec fn text_of(self, place: path::PathView, bytes: Seq<u8>) -> Result<
        Seq<char>,
        Fault,
    > {
        match self.revealed(place, bytes) {
            Ok(plain) => if vstd::utf8::valid_utf8(plain) {
                Ok(vstd::utf8::decode_utf8(plain))
            } else {
                Err(Fault::InvalidText)
            },
            Err(fault) => Err(fault),
        }
    }

    /// Whether these are bytes to write for a text: the text itself, but on the
    /// encrypted shelf the text encrypted under the key.
    pub open spec fn conceals(
        self,
        place: path::PathView,
        plaintext: Seq<u8>,
        bytes: Seq<u8>,
    ) -> bool {
        if self.secret(place) {
            self.secret_key matches Some(key) && vault::encrypts(key, plaintext, bytes)
        } else {
            bytes == plaintext
        }
    }

    pub open spec fn new_note(self, place: path::PathView, now: int) -> AppView {
        AppView {
            path: place,
            document: document::DocumentView {
                dirty: true,
                ..read_document_view(Seq::empty(), None)
            },
            scroll: 0,
            message: "New note"@,
            screen: Screen::Editor,
            session_started: now,
            session_initial_words: 0,
            ..self
        }
    }

    /// A note of the encrypted shelf left: nothing of it remains, a new note is
    /// in its place, and the vault is closed.
    pub open spec fn secret_left(self, place: path::PathView) -> AppView {
        AppView {
            document: read_document_view(Seq::empty(), None),
            path: place,
            scroll: 0,
            screen: Screen::Categories,
            ..self.locked()
        }
    }

    pub open spec fn opened(
        self,
        place: path::PathView,
        contents: Seq<char>,
        cursor: Option<nat>,
        message: Seq<char>,
        now: int,
    ) -> AppView {
        AppView {
            document: read_document_view(contents, cursor),
            path: place,
            scroll: 0,
            message,
            screen: Screen::Editor,
            session_started: now,
            session_initial_words: document::words(contents, contents.len() as int),
            ..self
        }
    }

    pub open spec fn category_opened(
        self,
        notes: Seq<path::PathView>,
        texts: Seq<Option<Seq<char>>>,
    ) -> AppView {
        AppView {
            screen: Screen::Documents,
            ..AppView { document_index: 0, ..self }.refreshed(notes, texts)
        }
    }

    /// What is to be done with a note that is to go to a place.
    pub open spec fn move_plan(self, from: path::PathView, to: path::PathView) -> MovePlan {
        if self.secret(from) && !self.secret(to) {
            MovePlan::Refused
        } else if self.secret(to) && self.secret_key is None {
            MovePlan::Refused
        } else if self.secret(from) != self.secret(to) {
            MovePlan::Rewrite
        } else {
            MovePlan::Rename
        }
    }

    pub open spec fn move_planned(self, from: path::PathView, to: path::PathView) -> AppView {
        if self.secret(from) && !self.secret(to) {
            self.saying("Secret Thoughts cannot leave the encrypted shelf"@)
        } else if self.secret(to) && self.secret_key is None {
            self.saying("Unlock Secret Thoughts before moving a note there"@)
        } else {
            self
        }
    }

    /// The shelf that a note went to, with the note chosen.
    pub open spec fn shelved(
        self,
        notes: Seq<path::PathView>,
        texts: Seq<Option<Seq<char>>>,
        to: path::PathView,
        category: int,
    ) -> AppView {
        let shown = AppView {
            category_index: category,
            shelf_search: Seq::empty(),
            ..self
        }.refreshed(notes, texts);
        AppView {
            document_index: app::place_in(shown.documents, to, 0),
            message: "Moved safely to "@ + shelf::category_title(category),
            ..shown
        }
    }

    /// Whether pasting goes into the text.
    pub open spec fn takes_text(self) -> bool {
        self.screen == Screen::Editor && !self.help_visible && self.lock_prompt is None
    }

    pub open spec fn pasted(self, pasted: Seq<char>) -> AppView {
        if self.text_prompt is Some {
            AppView { prompt_input: self.prompt_input + pasted, ..self }
        } else if self.takes_text() {
            let d = self.document;
            AppView {
                document: document::DocumentView {
                    text: d.text.take(d.cursor) + pasted + d.text.skip(d.cursor),
                    cursor: d.cursor + pasted.len(),
                    dirty: true,
                    ..d.checkpointed()
                },
                ..self
            }
        } else {
            self
        }
    }
}

impl App {
    /// Sets up the desk with a note: what the file of the note held, and the
    /// files that remember the settings, the cursor and the pinned notes.
    pub fn open(
        directory: NotePath,
        place: NotePath,
        contents: String,
        display: Option<&str>,
        state: Option<&str>,
        pins: Vec<NotePath>,
        in_editor: bool,
        now: u64,
    ) -> (app: App)
        ensures
            ({
                let config = match display {
                    Some(file) => config::display_settings(file@),
                    None => config::display_settings(Seq::empty()),
                };
                app@ == (AppView {
                    document: read_document_view(contents@, cursor_left(state, place@)),
                    path: place@,
                    directory: directory@,
                    scroll: 0,
                    message: "fresh page"@,
                    last_save: now as int,
                    rotation: config.rotation as int,
                    zoom: config.zoom as int,
                    theme: config.theme as int,
                    save_count: 0,
                    help_visible: false,
                    screen: if in_editor {
                        Screen::Editor
                    } else {
                        Screen::Categories
                    },
                    category_index: 0,
                    document_index: 0,
                    documents: Seq::empty(),
                    lock_prompt: None,
                    password_input: Seq::empty(),
                    password_confirmation: Seq::empty(),
                    secret_unlocked: false,
                    secret_key: None,
                    text_prompt: None,
                    prompt_input: Seq::empty(),
                    shelf_search: Seq::empty(),
                    find_query: Seq::empty(),
                    session_started: now as int,
                    session_initial_words: document::words(contents@, contents@.len() as int),
                    sprint_started: None,
                    word_target: None,
                    pinned: distinct(path::path_views(pins@)),
                    outline_visible: false,
                    split_visible: false,
                    reference_path: None,
                    reference_text: Seq::empty(),
                    network_status: 0,
                    last_network_check: now as int,
                })
            }),
            app@.wf(),
    {
        let config: DisplayConfig = config::read_display_config(display);
        let cursor: Option<usize> = left_cursor(state, &place);
        let document: Document = document_with_cursor(contents, cursor);
        let session_initial_words: usize = document.word_count();
        proof {
            lemma_distinct(path::path_views(pins@));
        }
        let pinned: Vec<NotePath> = keep_distinct(pins);
        let documents: Vec<NotePath> = Vec::new();
        assert(path::path_views(documents@) == Seq::<path::PathView>::empty());
        App {
            document,
            path: place,
            directory,
            scroll: 0,
            message: text::owned("fresh page"),
            last_save: now,
            rotation: config.rotation,
            zoom: config.zoom,
            theme: config.theme,
            save_count: 0,
            help_visible: false,
            screen: if in_editor {
                Screen::Editor
            } else {
                Screen::Categories
            },
            category_index: 0,
            document_index: 0,
            documents,
            lock_prompt: None,
            password_input: String::new(),
            password_confirmation: String::new(),
            secret_unlocked: false,
            secret_key: None,
            text_prompt: None,
            prompt_input: String::new(),
            shelf_search: String::new(),
            find_query: String::new(),
            session_started: now,
            session_initial_words,
            sprint_started: None,
            word_target: None,
            pinned,
            outline_visible: false,
            split_visible: false,
            reference_path: None,
            reference_text: Vec::new(),
            network_status: 0,
            last_network_check: now,
        }
    }

    /// Reads the bytes of a file: those of the encrypted shelf are decrypted.
    pub fn read_document_bytes(&self, place: &NotePath, bytes: Vec<u8>) -> (result: Result<
        Vec<u8>,
        VaultError,
    >)
        ensures
            match result {
                Ok(plain) => self@.revealed(place@, bytes@) == Ok::<Seq<u8>, Fault>(plain@),
                Err(error) => self@.revealed(place@, bytes@) == Err::<Seq<u8>, Fault>(error.fault),
            },
    {
        if self.is_secret_path(place) {
            match &self.secret_key {
                Some(key) => vault::decrypt_secret(key, bytes.as_slice()),
                None => Err(VaultError::plain(Fault::Locked)),
            }
        } else {
            Ok(bytes)
        }
    }

    /// Reads the text of a file.
    pub fn read_document(&self, place: &NotePath, bytes: Vec<u8>) -> (result: Result<
        String,
        VaultError,
    >)
        ensures
            match result {
                Ok(contents) => self@.text_of(place@, bytes@) == Ok::<Seq<char>, Fault>(contents@),
                Err(error) => self@.text_of(place@, bytes@) == Err::<Seq<char>, Fault>(error.fault),
            },
    {
        match self.read_document_bytes(place, bytes) {
            Ok(plain) => match text::utf8_to_string(plain) {
                Some(contents) => Ok(contents),
                None => Err(VaultError::plain(Fault::InvalidText)),
            },
            Err(error) => Err(error),
        }
    }

    /// The bytes to write for a text: on the encrypted shelf they are encrypted.
    pub fn write_document(&self, place: &NotePath, plaintext: &[u8]) -> (result: Result<
        Vec<u8>,
        VaultError,
    >)
        ensures
            match result {
                Ok(bytes) => self@.conceals(place@, plaintext@, bytes@),
                Err(error) => self@.secret(place@) && match error.fault {
                    Fault::Locked => self@.secret_key is None,
                    Fault::EncryptionFailed => self@.secret_key is Some && plaintext@.len()
                        > vault::CIPHER_LIMIT,
                    fault => fault == Fault::Random && self@.secret_key is Some
                        && error.words().len() > 0,
                },
            },
    {
        if self.is_secret_path(place) {
            match &self.secret_key {
                Some(key) => vault::encrypt_secret(key, plaintext),
                None => Err(VaultError::plain(Fault::Locked)),
            }
        } else {
            assert(plaintext@.subrange(0, plaintext@.len() as int) == plaintext@);
            Ok(text::bytes_between(plaintext, 0, plaintext.len()))
        }
    }

    /// The bytes to write for the text on the page.
    pub fn page_bytes(&self) -> (result: Result<Vec<u8>, VaultError>)
        ensures
            match result {
                Ok(bytes) => self@.conceals(
                    self@.path,
                    vstd::utf8::encode_utf8(self@.document.text),
                    bytes@,
                ),
                Err(error) => self@.secret(self@.path) && match error.fault {
                    Fault::Locked => self@.secret_key is None,
                    Fault::EncryptionFailed => self@.secret_key is Some
                        && vstd::utf8::encode_utf8(self@.document.text).len() > vault::CIPHER_LIMIT,
                    fault => fault == Fault::Random && self@.secret_key is Some
                        && error.words().len() > 0,
                },
            },
    {
        let contents: String = self.document.as_string();
        self.write_document(&self.path, text::bytes_of(contents.as_str()).as_slice())
    }

    /// Whether what is on disk differs from the text on the page, so that it is
    /// to be kept as a version before it is written over.
    pub fn snapshot_needed(&self, previous: Vec<u8>) -> (result: Result<bool, VaultError>)
        ensures
            match result {
                Ok(needed) => self@.revealed(self@.path, previous@) matches Ok(plain) && needed == (
                plain != vstd::utf8::encode_utf8(self@.document.text)),
                Err(error) => self@.revealed(self@.path, previous@) == Err::<Seq<u8>, Fault>(
                    error.fault,
                ),
            },
    {
        match self.read_document_bytes(&self.path, previous) {
            Ok(plain) => {
                let contents: String = self.document.as_string();
                Ok(!text::same_bytes(
                    plain.as_slice(),
                    text::bytes_of(contents.as_str()).as_slice(),
                ))
            },
            Err(error) => Err(error),
        }
    }

    /// What is to be kept as a version before the page is written: what its file
    /// held so far, where the text has changed and differs from it.
    pub fn version_to_keep(&self, previous: Option<Vec<u8>>) -> (result: Result<
        Option<Vec<u8>>,
        VaultError,
    >)
        ensures
            match result {
                Ok(Some(kept)) => self@.document.dirty && (previous matches Some(bytes) && kept@
                    == bytes@ && (self@.revealed(self@.path, bytes@) matches Ok(plain) && plain
                    != vstd::utf8::encode_utf8(self@.document.text))),
                Ok(None) => self@.document.dirty ==> match previous {
                    Some(bytes) => self@.revealed(self@.path, bytes@) == Ok::<Seq<u8>, Fault>(
                        vstd::utf8::encode_utf8(self@.document.text),
                    ),
                    None => true,
                },
                Err(error) => self@.document.dirty && (previous matches Some(bytes)
                    && self@.revealed(self@.path, bytes@) == Err::<Seq<u8>, Fault>(error.fault)),
            },
    {
        if !self.document.dirty {
            return Ok(None);
        }
        match previous {
            Some(bytes) => {
                let copy: Vec<u8> = text::bytes_between(bytes.as_slice(), 0, bytes.len());
                assert(copy@ == bytes@);
                match self.snapshot_needed(copy) {
                    Ok(true) => Ok(Some(bytes)),
                    Ok(false) => Ok(None),
                    Err(error) => Err(error),
                }
            },
            None => Ok(None),
        }
    }

    /// What is to be written to the file of the page, where the text has changed.
    pub fn page_to_save(&self) -> (result: Result<Option<Vec<u8>>, VaultError>)
        ensures
            match result {
                Ok(Some(bytes)) => self@.document.dirty && self@.conceals(
                    self@.path,
                    vstd::utf8::encode_utf8(self@.document.text),
                    bytes@,
                ),
                Ok(None) => !self@.document.dirty,
                Err(error) => self@.document.dirty && self@.secret(self@.path)
                    && match error.fault {
                    Fault::Locked => self@.secret_key is None,
                    Fault::EncryptionFailed => self@.secret_key is Some
                        && vstd::utf8::encode_utf8(self@.document.text).len() > vault::CIPHER_LIMIT,
                    fault => fault == Fault::Random && self@.secret_key is Some
                        && error.words().len() > 0,
                },
            },
    {
        if !self.document.dirty {
            return Ok(None);
        }
        match self.page_bytes() {
            Ok(bytes) => Ok(Some(bytes)),
            Err(error) => Err(error),
        }
    }

    /// The file that remembers the note and the cursor, and what it is to hold.
    pub fn cursor_file(&self) -> (file: (NotePath, String))
        ensures
            file.0@ == self@.directory.joined(".quietwrite"@).joined("state"@),
            file.1@ == config::cursor_state(self@.path.shown(), self@.document.cursor as nat),
    {
        (
            self.directory.join(".quietwrite").join("state"),
            config::cursor_state_text(self.path.show().as_str(), self.document.cursor),
        )
    }

    /// The file that names the pinned notes, and what it is to hold.
    pub fn pins_file(&self) -> (file: (NotePath, String))
        ensures
            file.0@ == self@.directory.joined(".quietwrite"@).joined("pins"@),
            file.1@ == config::listed(
                config::in_text_order(self@.pinned.map_values(|p: path::PathView| p.shown())),
            ),
    {
        let mut names: Vec<String> = Vec::new();
        let ghost shown = self@.pinned.map_values(|p: path::PathView| p.shown());
        let mut i: usize = 0;
        assert(text::views(names@) == shown.take(0));
        while i < self.pinned.len()
            invariant
                i <= self.pinned@.len(),
                shown == self@.pinned.map_values(|p: path::PathView| p.shown()),
                text::views(names@) == shown.take(i as int),
            decreases self.pinned@.len() - i,
        {
            let ghost before = names@;
            let name: String = self.pinned[i].show();
            names.push(name);
            proof {
                assert(text::views(names@) == text::views(before).push(name@));
                assert(shown[i as int] == name@);
                assert(shown.take(i + 1) == shown.take(i as int).push(name@));
            }
            i += 1;
        }
        assert(shown.take(shown.len() as int) == shown);
        (self.directory.join(".quietwrite").join("pins"), config::pins_text(names))
    }

    /// The text on the page has been written.
    pub fn saved(&mut self, now: u64)
        requires
            old(self)@.wf(),
        ensures
            final(self)@ == old(self)@.saved(now as int),
            final(self)@.wf(),
    {
        self.document.dirty = false;
        self.last_save = now;
        self.save_count = if self.save_count == usize::MAX {
            0
        } else {
            self.save_count + 1
        };
        self.message = match self.save_count % 5 {
            0 => text::owned("ink safe"),
            1 => text::owned("tucked away"),
            2 => text::owned("captured"),
            3 => text::owned("saved ✦"),
            _ => text::owned("all cozy"),
        };
    }

    /// Whether the text has changed and gone unsaved for long enough.
    pub fn autosave_due(&self, now: u64) -> (due: bool)
        ensures
            due == (self@.document.dirty && now - self@.last_save >= AUTOSAVE_INTERVAL),
            due == (self@.document.dirty && now >= self@.last_save + 2000),
    {
        self.document.dirty && now >= self.last_save && now - self.last_save >= AUTOSAVE_INTERVAL
    }

    /// Begins a new look at the network, if the last is too old; true if it did.
    pub fn refresh_network_if_due(&mut self, now: u64) -> (due: bool)
        ensures
            due == (now - old(self)@.last_network_check >= NETWORK_CHECK_INTERVAL),
            due == (now >= old(self)@.last_network_check + 30000),
            final(self)@ == if due {
                AppView { last_network_check: now as int, network_status: 0, ..old(self)@ }
            } else {
                old(self)@
            },
    {
        if now >= self.last_network_check && now - self.last_network_check
            >= NETWORK_CHECK_INTERVAL {
            self.last_network_check = now;
            self.network_status = 0;
            true
        } else {
            false
        }
    }

    /// Whether a new note may be begun on the chosen shelf.
    pub fn may_begin_note(&self) -> (result: Result<(), VaultError>)
        ensures
            match result {
                Ok(_) => self@.category_index != shelf::SECRET_CATEGORY_INDEX || self@.secret_key
                    is Some,
                Err(error) => self@.category_index == shelf::SECRET_CATEGORY_INDEX
                    && self@.secret_key is None && error.fault == Fault::UnlockFirst,
            },
    {
        if self.category_index == shelf::SECRET_CATEGORY_INDEX && self.secret_key.is_none() {
            Err(VaultError::plain(Fault::UnlockFirst))
        } else {
            Ok(())
        }
    }

    /// Begins a new note at a place.
    pub fn new_note(&mut self, place: NotePath, now: u64)
        requires
            old(self)@.wf(),
        ensures
            final(self)@ == old(self)@.new_note(place@, now as int),
            final(self)@.wf(),
    {
        self.path = place;
        self.document = Document::from_string(String::new());
        self.document.dirty = true;
        self.scroll = 0;
        self.message = text::owned("New note");
        self.screen = Screen::Editor;
        self.session_started = now;
        self.session_initial_words = 0;
    }

    /// Leaves a note of the encrypted shelf that has been saved.
    pub fn close_secret_editor(&mut self, place: NotePath)
        requires
            old(self)@.wf(),
        ensures
            final(self)@ == old(self)@.secret_left(place@),
            final(self)@.wf(),
    {
        let mut i: usize = 0;
        while i < self.document.text.len()
            invariant
                i <= self.document.text@.len(),
                self@ == (AppView { document: self@.document, ..old(self)@ }),
                old(self)@.wf(),
            decreases self.document.text@.len() - i,
        {
            self.document.text.set(i, '\0');
            i += 1;
        }
        self.document = Document::from_string(String::new());
        self.path = place;
        self.scroll = 0;
        self.lock_secrets();
        self.screen = Screen::Categories;
    }

    /// Ends the session: the key is erased.
    pub fn quit(&mut self)
        requires
            old(self)@.wf(),
        ensures
            final(self)@ == old(self)@.locked(),
            final(self)@.wf(),
    {
        self.lock_secrets();
    }

    /// Asks for the password of the lock, or for a new one where there is none.
    pub fn begin_secret_unlock(&mut self, lock_exists: bool)
        requires
            old(self)@.wf(),
        ensures
            final(self)@ == (AppView {
                password_input: Seq::empty(),
                password_confirmation: Seq::empty(),
                lock_prompt: Some(
                    if lock_exists {
                        LockPrompt::Unlock
                    } else {
                        LockPrompt::Create
                    },
                ),
                message: if lock_exists {
                    "Enter Secret Thoughts password"@
                } else {
                    "Create a Secret Thoughts password"@
                },
                ..old(self)@
            }),
            final(self)@.wf(),
    {
        self.password_input = String::new();
        self.password_confirmation = String::new();
        if lock_exists {
            self.lock_prompt = Some(LockPrompt::Unlock);
            self.message = text::owned("Enter Secret Thoughts password");
        } else {
            self.lock_prompt = Some(LockPrompt::Create);
            self.message = text::owned("Create a Secret Thoughts password");
        }
    }

    /// Makes a lock of the password that was typed.
    pub fn create_lock(&self) -> (result: Result<SecretLock, VaultError>)
        ensures
            ({
                let password = vstd::utf8::encode_utf8(self@.password_input);
                match result {
                    Ok(lock) => password.len() <= vault::ARGON2_LIMIT && exists|salt: Seq<u8>|
                        salt.len() == 16 && lock.made_of(password, salt),
                    Err(error) => (error.fault == Fault::Random && error.words().len() > 0) || (
                    error.fault == Fault::Derivation && password.len() > vault::ARGON2_LIMIT
                        && error.words() == "password is too long"@),
                }
            }),
    {
        vault::create_secret_lock(text::bytes_of(self.password_input.as_str()).as_slice())
    }

    /// Tries the password that was typed on the contents of the lock file.
    pub fn try_lock(&self, contents: &str) -> (result: Result<Unlocked, VaultError>)
        ensures
            ({
                let password = vstd::utf8::encode_utf8(self@.password_input);
                let fields = vault::lock_fields(contents@);
                let salt = crate::hex::hex_bytes(vault::field(fields, 1));
                let verifier = crate::hex::hex_bytes(vault::field(fields, 2));
                let legacy = fields[0] == "v1"@;
                let known = vault::lock_fault(contents@) is None && password.len()
                    <= vault::ARGON2_LIMIT;
                match result {
                    Ok(Unlocked::Wrong) => known && verifier != (if legacy {
                        vault::legacy_hash(password, salt)
                    } else {
                        vault::material(password, salt).skip(32)
                    }),
                    Ok(Unlocked::Key(key)) => known && !legacy && verifier == vault::material(
                        password,
                        salt,
                    ).skip(32) && key@ == vault::material(password, salt).take(32),
                    Ok(Unlocked::Renewed(lock)) => known && legacy && verifier
                        == vault::legacy_hash(password, salt) && exists|fresh: Seq<u8>|
                        fresh.len() == 16 && lock.made_of(password, fresh),
                    Err(error) => {
                        ||| vault::lock_fault(contents@) == Some(error.fault)
                        ||| vault::lock_fault(contents@) is None && error.fault
                            == Fault::Derivation && password.len() > vault::ARGON2_LIMIT
                            && error.words() == "password is too long"@
                        ||| known && legacy && verifier == vault::legacy_hash(password, salt)
                            && error.fault == Fault::Random && error.words().len() > 0
                    },
                }
            }),
    {
        vault::unlock_secret(contents, text::bytes_of(self.password_input.as_str()).as_slice())
    }

    /// The lock could not be written.
    pub fn lock_not_saved(&mut self, error: &str)
        requires
            old(self)@.wf(),
        ensures
            final(self)@ == old(self)@.saying("Could not save lock: "@ + error@),
            final(self)@.wf(),
    {
        let mut message: String = text::owned("Could not save lock: ");
        message.append(error);
        self.message = message;
    }

    /// The lock could not be read.
    pub fn lock_not_read(&mut self, error: &str)
        requires
            old(self)@.wf(),
        ensures
            final(self)@ == old(self)@.saying("Could not read lock: "@ + error@),
            final(self)@.wf(),
    {
        let mut message: String = text::owned("Could not read lock: ");
        message.append(error);
        self.message = message;
    }

    /// The password did not fit.
    pub fn wrong_password(&mut self)
        requires
            old(self)@.wf(),
        ensures
            final(self)@ == (AppView {
                password_input: Seq::empty(),
                message: "Incorrect password"@,
                ..old(self)@
            }),
            final(self)@.wf(),
    {
        self.password_input = String::new();
        self.message = text::owned("Incorrect password");
    }

    /// Opens the vault with its key.
    pub fn unlocked(&mut self, key: [u8; 32])
        requires
            old(self)@.wf(),
        ensures
            final(self)@ == (AppView {
                secret_unlocked: true,
                secret_key: Some(key@),
                ..old(self)@
            }),
            final(self)@.wf(),
    {
        self.secret_unlocked = true;
        self.secret_key = Some(key);
    }

    /// What is to be written in place of a file of the encrypted shelf that is
    /// not encrypted yet; nothing for one that is.
    pub fn migrate_secret_file(&self, place: &NotePath, bytes: &Vec<u8>) -> (result: Result<
        Option<Vec<u8>>,
        VaultError,
    >)
        ensures
            match result {
                Ok(None) => vault::secret_magic().is_prefix_of(bytes@),
                Ok(Some(written)) => !vault::secret_magic().is_prefix_of(bytes@) && self@.conceals(
                    place@,
                    bytes@,
                    written@,
                ),
                Err(error) => !vault::secret_magic().is_prefix_of(bytes@) && self@.secret(place@)
                    && match error.fault {
                    Fault::Locked => self@.secret_key is None,
                    Fault::EncryptionFailed => self@.secret_key is Some && bytes@.len()
                        > vault::CIPHER_LIMIT,
                    fault => fault == Fault::Random && self@.secret_key is Some
                        && error.words().len() > 0,
                },
            },
    {
        if vault::is_encrypted(bytes.as_slice()) {
            return Ok(None);
        }
        match self.write_document(place, bytes.as_slice()) {
            Ok(written) => Ok(Some(written)),
            Err(error) => Err(error),
        }
    }

    /// Notes of the encrypted shelf could not be encrypted.
    pub fn migration_failed(&mut self, error: &str)
        requires
            old(self)@.wf(),
        ensures
            final(self)@ == old(self)@.saying("Could not encrypt existing notes: "@ + error@),
            final(self)@.wf(),
    {
        let mut message: String = text::owned("Could not encrypt existing notes: ");
        message.append(error);
        self.message = message;
    }

    /// No longer asks for a password: it fitted.
    pub fn password_accepted(&mut self)
        requires
            old(self)@.wf(),
        ensures
            final(self)@ == (AppView {
                lock_prompt: None,
                password_input: Seq::empty(),
                password_confirmation: if old(self)@.lock_prompt == Some(LockPrompt::Confirm) {
                    Seq::empty()
                } else {
                    old(self)@.password_confirmation
                },
                ..old(self)@
            }),
            final(self)@.wf(),
    {
        match self.lock_prompt {
            Some(LockPrompt::Confirm) => {
                self.password_confirmation = String::new();
            },
            _ => {},
        }
        self.lock_prompt = None;
        self.password_input = String::new();
    }

    fn answers_search(place: &NotePath, contents: Option<&String>, query: &[char]) -> (yes: bool)
        ensures
            yes == app::answers(
                place@,
                match contents {
                    Some(s) => Some(s@),
                    None => None,
                },
                query@,
            ),
    {
        if let Some(name) = place.file_name() {
            let lower: String = text::to_lowercase(name.as_str());
            if text::contains(text::chars_of(lower.as_str()).as_slice(), query) {
                return true;
            }
        }
        match contents {
            Some(s) => {
                let lower: String = text::to_lowercase(s.as_str());
                text::contains(text::chars_of(lower.as_str()).as_slice(), query)
            },
            None => false,
        }
    }

    fn search_notes(notes: Vec<NotePath>, texts: &Vec<Option<String>>, search: &str) -> (kept: Vec<
        NotePath,
    >)
        ensures
            path::path_views(kept@) == app::answering(
                path::path_views(notes@),
                text_views(texts@),
                text::lowercase(search@),
                notes@.len() as int,
            ),
    {
        let query: Vec<char> = text::chars_of(text::to_lowercase(search).as_str());
        let ghost shown = path::path_views(notes@);
        let ghost seen = text_views(texts@);
        let mut kept: Vec<NotePath> = Vec::new();
        let mut i: usize = 0;
        assert(path::path_views(kept@) == Seq::<path::PathView>::empty());
        while i < notes.len()
            invariant
                i <= notes@.len(),
                shown == path::path_views(notes@),
                seen == text_views(texts@),
                query@ == text::lowercase(search@),
                path::path_views(kept@) == app::answering(shown, seen, query@, i as int),
            decreases notes@.len() - i,
        {
            let ghost before = kept@;
            let contents: Option<&String> = if i < texts.len() {
                match &texts[i] {
                    Some(s) => Some(s),
                    None => None,
                }
            } else {
                None
            };
            proof {
                assert(shown[i as int] == notes@[i as int]@);
                if i < texts@.len() {
                    assert(seen[i as int] == match texts@[i as int] {
                        Some(s) => Some(s@),
                        None => None,
                    });
                }
            }
            if App::answers_search(&notes[i], contents, query.as_slice()) {
                let note: NotePath = notes[i].copy();
                kept.push(note);
                assert(path::path_views(kept@) == path::path_views(before).push(note@));
            }
            i += 1;
        }
        kept
    }

    /// The notes of a list that are pinned, or those that are not.
    fn pinned_part(&self, notes: &Vec<NotePath>, pinned: bool) -> (part: Vec<NotePath>)
        ensures
            pinned ==> path::path_views(part@) == path::path_views(notes@).filter(
                |note: path::PathView| self@.pinned.contains(note),
            ),
            !pinned ==> path::path_views(part@) == path::path_views(notes@).filter(
                |note: path::PathView| !self@.pinned.contains(note),
            ),
    {
        let ghost shown = path::path_views(notes@);
        let ghost wanted = if pinned {
            |note: path::PathView| self@.pinned.contains(note)
        } else {
            |note: path::PathView| !self@.pinned.contains(note)
        };
        let mut part: Vec<NotePath> = Vec::new();
        let mut i: usize = 0;
        proof {
            reveal(Seq::filter);
            assert(path::path_views(part@) == shown.take(0).filter(wanted));
        }
        while i < notes.len()
            invariant
                i <= notes@.len(),
                shown == path::path_views(notes@),
                path::path_views(part@) == shown.take(i as int).filter(wanted),
                forall|note: path::PathView| #[trigger]
                    wanted(note) == (self@.pinned.contains(note) == pinned),
            decreases notes@.len() - i,
        {
            let ghost before = part@;
            proof {
                reveal(Seq::filter);
                assert(shown.take(i + 1).drop_last() == shown.take(i as int));
                assert(shown.take(i + 1).last() == notes@[i as int]@);
            }
            let found: Option<usize> = handle::position_of(&self.pinned, &notes[i]);
            proof {
                if let Some(p) = found {
                    assert(self@.pinned[p as int] == notes@[i as int]@);
                    assert(self@.pinned.contains(notes@[i as int]@));
                }
            }
            if found.is_some() == pinned {
                assert(wanted(notes@[i as int]@));
                let note: NotePath = notes[i].copy();
                part.push(note);
                assert(path::path_views(part@) == path::path_views(before).push(note@));
            } else {
                assert(!wanted(notes@[i as int]@));
            }
            i += 1;
        }
        assert(shown.take(shown.len() as int) == shown);
        part
    }

    /// Shows a list of notes: those that answer the search, pinned ones first.
    pub fn refresh_documents(&mut self, notes: Vec<NotePath>, texts: &Vec<Option<String>>)
        requires
            old(self)@.wf(),
        ensures
            final(self)@ == old(self)@.refreshed(path::path_views(notes@), text_views(texts@)),
            final(self)@.wf(),
    {
        let searching: bool = text::chars_of(self.shelf_search.as_str()).len() > 0;
        let kept: Vec<NotePath> = if searching {
            App::search_notes(notes, texts, self.shelf_search.as_str())
        } else {
            notes
        };
        let mut first: Vec<NotePath> = self.pinned_part(&kept, true);
        let mut rest: Vec<NotePath> = self.pinned_part(&kept, false);
        let ghost first_notes = first@;
        let ghost rest_notes = rest@;
        first.append(&mut rest);
        assert(path::path_views(first@) == path::path_views(first_notes) + path::path_views(
            rest_notes,
        ));
        self.documents = first;
        assert(self@.documents.len() == self.documents@.len());
        if self.documents.len() == 0 {
            self.document_index = 0;
        } else if self.document_index > self.documents.len() - 1 {
            self.document_index = self.documents.len() - 1;
        }
    }

    /// Opens the chosen shelf with its notes.
    pub fn open_category(&mut self, notes: Vec<NotePath>, texts: &Vec<Option<String>>)
        requires
            old(self)@.wf(),
        ensures
            final(self)@ == old(self)@.category_opened(path::path_views(notes@), text_views(texts@)),
            final(self)@.wf(),
    {
        self.document_index = 0;
        self.refresh_documents(notes, texts);
        self.screen = Screen::Documents;
    }

    /// Opens a note that has been read, with a message. Where a file remembers
    /// the cursor of the note, it goes there.
    pub fn open_path(
        &mut self,
        place: NotePath,
        contents: String,
        state: Option<&str>,
        message: String,
        now: u64,
    )
        requires
            old(self)@.wf(),
        ensures
            final(self)@ == old(self)@.opened(
                place@,
                contents@,
                cursor_left(state, place@),
                message@,
                now as int,
            ),
            final(self)@.wf(),
    {
        let cursor: Option<usize> = left_cursor(state, &place);
        self.document = document_with_cursor(contents, cursor);
        self.path = place;
        self.scroll = 0;
        self.message = message;
        self.screen = Screen::Editor;
        self.session_started = now;
        self.session_initial_words = self.document.word_count();
    }

    /// Shows a note that has been read beside the page.
    pub fn open_reference(&mut self, place: NotePath, contents: &str)
        requires
            old(self)@.wf(),
        ensures
            final(self)@ == (AppView {
                reference_text: contents@,
                reference_path: Some(place@),
                split_visible: true,
                screen: Screen::Editor,
                message: "reference opened"@,
                ..old(self)@
            }),
            final(self)@.wf(),
    {
        self.reference_text = text::chars_of(contents);
        self.reference_path = Some(place);
        self.split_visible = true;
        self.screen = Screen::Editor;
        self.message = text::owned("reference opened");
    }

    /// Follows a note that went to another place; true if it was pinned.
    fn repin(&mut self, from: &NotePath, to: &NotePath) -> (changed: bool)
        requires
            old(self)@.wf(),
        ensures
            final(self)@ == (AppView {
                pinned: app::repinned(old(self)@.pinned, from@, to@),
                ..old(self)@
            }),
            changed == old(self)@.pinned.contains(from@),
            final(self)@.wf(),
    {
        match handle::position_of(&self.pinned, from) {
            Some(place) => {
                proof {
                    assert(self@.pinned[place as int] == from@);
                    handle::lemma_unpinned(self@.pinned, from@);
                }
                let mut rest: Vec<NotePath> = handle::without(&self.pinned, from);
                match handle::position_of(&rest, to) {
                    Some(p) => {
                        assert(path::path_views(rest@)[p as int] == to@);
                    },
                    None => {
                        let ghost before = rest@;
                        let copy: NotePath = to.copy();
                        rest.push(copy);
                        assert(path::path_views(rest@) == path::path_views(before).push(to@));
                    },
                }
                self.pinned = rest;
                true
            },
            None => false,
        }
    }

    /// The chosen note has been given another name.
    pub fn renamed(&mut self, from: &NotePath, to: &NotePath)
        requires
            old(self)@.wf(),
        ensures
            final(self)@ == (AppView {
                pinned: app::repinned(old(self)@.pinned, from@, to@),
                message: "renamed"@,
                ..old(self)@
            }),
            final(self)@.wf(),
    {
        self.repin(from, to);
        self.message = text::owned("renamed");
    }

    /// Decides how a note is to go to a place. Nothing leaves the encrypted
    /// shelf, and nothing goes there while it is locked.
    pub fn plan_move(&mut self, from: &NotePath, to: &NotePath) -> (plan: MovePlan)
        requires
            old(self)@.wf(),
        ensures
            plan == old(self)@.move_plan(from@, to@),
            final(self)@ == old(self)@.move_planned(from@, to@),
            final(self)@.wf(),
    {
        let from_secret: bool = self.is_secret_path(from);
        let to_secret: bool = self.is_secret_path(to);
        if from_secret && !to_secret {
            self.message = text::owned("Secret Thoughts cannot leave the encrypted shelf");
            MovePlan::Refused
        } else if to_secret && self.secret_key.is_none() {
            self.message = text::owned("Unlock Secret Thoughts before moving a note there");
            MovePlan::Refused
        } else if from_secret != to_secret {
            MovePlan::Rewrite
        } else {
            MovePlan::Rename
        }
    }

    /// A note has been moved; true if it was pinned, so that the pins are to be
    /// written down.
    pub fn moved(&mut self, from: &NotePath, to: &NotePath) -> (changed: bool)
        requires
            old(self)@.wf(),
        ensures
            final(self)@ == (AppView {
                pinned: app::repinned(old(self)@.pinned, from@, to@),
                ..old(self)@
            }),
            changed == old(self)@.pinned.contains(from@),
            final(self)@.wf(),
    {
        self.repin(from, to)
    }

    /// Shows the shelf that a note has been moved to, with the note chosen.
    pub fn show_moved(
        &mut self,
        notes: Vec<NotePath>,
        texts: &Vec<Option<String>>,
        to: &NotePath,
        category: usize,
    )
        requires
            old(self)@.wf(),
            category < shelf::CATEGORY_COUNT,
        ensures
            final(self)@ == old(self)@.shelved(
                path::path_views(notes@),
                text_views(texts@),
                to@,
                category as int,
            ),
            final(self)@.wf(),
    {
        self.category_index = category;
        self.shelf_search = String::new();
        self.refresh_documents(notes, texts);
        assert(self@.documents.len() == self.documents@.len());
        self.document_index = match handle::position_of(&self.documents, to) {
            Some(place) => place,
            None => 0,
        };
        let mut message: String = text::owned("Moved safely to ");
        message.append(shelf::category_name(category));
        self.message = message;
    }

    /// A note has been moved to the trash.
    pub fn trashed(&mut self, from: &NotePath)
        requires
            old(self)@.wf(),
        ensures
            final(self)@ == (AppView {
                pinned: app::unpinned(old(self)@.pinned, from@),
                message: "moved to trash"@,
                ..old(self)@
            }),
            final(self)@.wf(),
    {
        proof {
            handle::lemma_unpinned(self@.pinned, from@);
        }
        self.pinned = handle::without(&self.pinned, from);
        self.message = text::owned("moved to trash");
    }

    /// The folder for a new chapter: that of the chosen note, where it lies among
    /// the projects, or else the projects themselves.
    pub fn chapter_folder(&self) -> (folder: NotePath)
        ensures
            ({
                let projects = shelf::category_folder(
                    self@.directory,
                    shelf::PROJECTS_CATEGORY_INDEX as int,
                );
                folder@ == match self@.selected() {
                    Some(note) => if note.parts.len() > 0 && note.parent().below(projects) {
                        note.parent()
                    } else {
                        projects
                    },
                    None => projects,
                }
            }),
    {
        let projects: NotePath = self.category_directory(shelf::PROJECTS_CATEGORY_INDEX);
        match self.selected_path() {
            Some(note) => match note.parent() {
                Some(folder) => if folder.starts_with(&projects) {
                    folder
                } else {
                    projects
                },
                None => projects,
            },
            None => projects,
        }
    }

    /// There is no version to bring back.
    pub fn nothing_to_restore(&mut self)
        requires
            old(self)@.wf(),
        ensures
            final(self)@ == old(self)@.saying("no previous version"@),
            final(self)@.wf(),
    {
        self.message = text::owned("no previous version");
    }

    /// Brings back a version whose bytes have been read.
    pub fn restore_snapshot(&mut self, bytes: Vec<u8>) -> (result: Result<(), VaultError>)
        requires
            old(self)@.wf(),
        ensures
            ({
                let kept = AppView { document: old(self)@.document.checkpointed(), ..old(self)@ };
                match old(self)@.text_of(old(self)@.path, bytes@) {
                    Ok(contents) => result is Ok && final(self)@ == (AppView {
                        document: document::DocumentView {
                            text: contents,
                            cursor: contents.len() as int,
                            dirty: true,
                            ..kept.document
                        },
                        message: "restored previous version"@,
                        ..kept
                    }),
                    Err(fault) => result matches Err(error) && error.fault == fault && final(self)@
                        == kept,
                }
            }),
            final(self)@.wf(),
    {
        self.document.checkpoint();
        match self.read_document(&self.path, bytes) {
            Ok(contents) => {
                self.document.text = text::chars_of(contents.as_str());
                self.document.cursor = self.document.text.len();
                self.document.dirty = true;
                self.message = text::owned("restored previous version");
                Ok(())
            },
            Err(error) => Err(error),
        }
    }

    /// The settings of the page have been written, or could not be. Where the
    /// theme was changed, its name is the message.
    pub fn display_stored(&mut self, error: Option<&str>, name_theme: bool)
        requires
            old(self)@.wf(),
        ensures
            final(self)@ == old(self)@.saying(
                if name_theme {
                    theme::theme_name(old(self)@.theme)
                } else {
                    match error {
                        None => "Display saved"@,
                        Some(why) => "Display setting failed: "@ + why@,
                    }
                },
            ),
            final(self)@.wf(),
    {
        if name_theme {
            self.message = text::owned(theme::palette(self.theme).name);
        } else {
            match error {
                None => {
                    self.message = text::owned("Display saved");
                },
                Some(why) => {
                    let mut message: String = text::owned("Display setting failed: ");
                    message.append(why);
                    self.message = message;
                },
            }
        }
    }

    /// A book turned out to have no chapters.
    pub fn no_chapters(&mut self)
        requires
            old(self)@.wf(),
        ensures
            final(self)@ == old(self)@.saying("This book has no chapters"@),
            final(self)@.wf(),
    {
        self.message = text::owned("This book has no chapters");
    }

    /// A book has been written out.
    pub fn exported(&mut self, title: &str)
        requires
            old(self)@.wf(),
        ensures
            final(self)@ == old(self)@.saying("Exported "@ + title@ + " to Exports"@),
            final(self)@.wf(),
    {
        let mut message: String = text::owned("Exported ");
        message.append(title);
        message.append(" to Exports");
        self.message = message;
    }

    /// Takes what was pasted: into the answer to a question, or into the text;
    /// false where there is nothing to take it.
    pub fn paste(&mut self, pasted: &str) -> (taken: bool)
        requires
            old(self)@.wf(),
        ensures
            final(self)@ == old(self)@.pasted(pasted@),
            taken == (old(self)@.text_prompt is Some || old(self)@.takes_text()),
            final(self)@.wf(),
    {
        if self.text_prompt.is_some() {
            self.prompt_input.append(pasted);
            return true;
        }
        if self.screen != Screen::Editor || self.help_visible || self.lock_prompt.is_some() {
            return false;
        }
        let chars: Vec<char> = text::chars_of(pasted);
        self.document.checkpoint();
        let ghost kept = self@;
        let ghost whole = kept.document.text;
        let ghost start = kept.document.cursor;
        let mut i: usize = 0;
        assert(whole == whole.take(start) + pasted@.take(0) + whole.skip(start));
        while i < chars.len()
            invariant
                i <= chars@.len(),
                chars@ == pasted@,
                0 <= start <= whole.len(),
                whole == kept.document.text,
                start == kept.document.cursor,
                self.document.cursor == start + i,
                self@.document.text == whole.take(start) + pasted@.take(i as int) + whole.skip(
                    start,
                ),
                self@ == (AppView {
                    document: document::DocumentView {
                        text: self@.document.text,
                        cursor: self@.document.cursor,
                        ..kept.document
                    },
                    ..kept
                }),
            decreases chars@.len() - i,
        {
            let ghost before = self@.document.text;
            self.document.text.insert(self.document.cursor, chars[i]);
            assert(self.document.cursor < self.document.text.len());
            self.document.cursor += 1;
            i += 1;
            assert(self@.document.text == whole.take(start) + pasted@.take(i as int) + whole.skip(
                start,
            ));
        }
        assert(pasted@.take(pasted@.len() as int) == pasted@);
        self.document.dirty = true;
        true
    }
}

/// What is written is read back, byte for byte, on every shelf.
pub proof fn law_what_is_written_is_read_back(
    desk: AppView,
    place: path::PathView,
    plaintext: Seq<u8>,
    bytes: Seq<u8>,
)
    requires
        desk.conceals(place, plaintext, bytes),
    ensures
        desk.revealed(place, bytes) == Ok::<Seq<u8>, Fault>(plaintext),
{
}

/// A text that is saved is opened again as it was.
pub proof fn law_a_saved_text_opens_again(
    desk: AppView,
    place: path::PathView,
    contents: Seq<char>,
    bytes: Seq<u8>,
)
    requires
        desk.conceals(place, vstd::utf8::encode_utf8(contents), bytes),
    ensures
        desk.text_of(place, bytes) == Ok::<Seq<char>, Fault>(contents),
{
    vstd::utf8::encode_utf8_valid_utf8(contents);
    vstd::utf8::encode_utf8_decode_utf8(contents);
}

/// On the encrypted shelf nothing is written but what is marked as encrypted,
/// and nothing at all while the vault is locked.
pub proof fn law_secrets_are_written_encrypted(
    desk: AppView,
    place: path::PathView,
    plaintext: Seq<u8>,
    bytes: Seq<u8>,
)
    requires
        desk.secret(place),
        desk.conceals(place, plaintext, bytes),
    ensures
        vault::secret_magic().is_prefix_of(bytes),
        desk.secret_key is Some,
{
}

/// No note leaves the encrypted shelf, and none is written there while it is
/// locked.
pub proof fn law_secrets_do_not_leave(desk: AppView, from: path::PathView, to: path::PathView)
    ensures
        desk.secret(from) && !desk.secret(to) ==> desk.move_plan(from, to) == MovePlan::Refused,
        desk.secret(to) && desk.secret_key is None ==> desk.move_plan(from, to)
            == MovePlan::Refused,
        desk.move_plan(from, to) == MovePlan::Rename ==> desk.secret(from) == desk.secret(to),
{
}

/// A note that is opened stands on the page as it was read, from its start, with
/// nothing to take back and nothing to save. The cursor goes to where it was left,
/// or to the end where that is not known or lies behind the text. The session
/// counts from here on.
pub proof fn law_an_opened_note_is_on_the_page(
    desk: AppView,
    place: path::PathView,
    contents: Seq<char>,
    cursor: Option<nat>,
    message: Seq<char>,
    now: int,
)
    ensures
        ({
            let later = desk.opened(place, contents, cursor, message, now);
            &&& later.path == place
            &&& later.document.text == contents
            &&& later.document.undo.len() == 0 && later.document.redo.len() == 0
            &&& !later.document.dirty
            &&& later.document.preferred_column is None
            &&& later.scroll == 0
            &&& later.screen == Screen::Editor
            &&& later.message == message
            &&& later.session_started == now
            &&& later.session_initial_words == document::words(contents, contents.len() as int)
            &&& cursor is None ==> later.document.cursor == contents.len()
            &&& cursor is Some && cursor->0 <= contents.len() ==> later.document.cursor
                == cursor->0
            &&& cursor is Some && cursor->0 > contents.len() ==> later.document.cursor
                == contents.len()
            &&& later == (AppView {
                path: later.path,
                document: later.document,
                scroll: later.scroll,
                screen: later.screen,
                message: later.message,
                session_started: later.session_started,
                session_initial_words: later.session_initial_words,
                ..desk
            })
        }),
{
}

/// A note that is opened again after its cursor was written down has the cursor
/// where it stood.
pub proof fn law_the_cursor_is_found_again(
    desk: AppView,
    place: path::PathView,
    contents: Seq<char>,
    left: nat,
    state: &str,
    message: Seq<char>,
    now: int,
)
    requires
        state@ == config::cursor_state(place.shown(), left),
        config::fits_a_line(place.shown()),
        left <= contents.len(),
        left <= usize::MAX,
    ensures
        desk.opened(
            place,
            contents,
            cursor_left(Some(state), place),
            message,
            now,
        ).document.cursor == left,
{
    config::law_cursor_reads_back(place.shown(), left);
}

/// A new note is empty, counts from now on, and is to be saved though nothing was
/// typed yet.
pub proof fn law_a_new_note_is_empty(desk: AppView, place: path::PathView, now: int)
    ensures
        ({
            let later = desk.new_note(place, now);
            &&& later.path == place
            &&& later.document.text.len() == 0 && later.document.cursor == 0
            &&& later.document.undo.len() == 0 && later.document.redo.len() == 0
            &&& later.document.dirty
            &&& later.scroll == 0
            &&& later.screen == Screen::Editor
            &&& later.message == "New note"@
            &&& later.session_started == now
            &&& later.session_initial_words == 0
            &&& later == (AppView {
                path: later.path,
                document: later.document,
                scroll: later.scroll,
                screen: later.screen,
                message: later.message,
                session_started: later.session_started,
                session_initial_words: later.session_initial_words,
                ..desk
            })
        }),
{
}

/// What is left of a note of the encrypted shelf: an empty page somewhere else, and
/// the shelves are shown.
pub proof fn law_of_a_secret_note_nothing_is_left(desk: AppView, place: path::PathView)
    ensures
        ({
            let later = desk.secret_left(place);
            &&& later.path == place
            &&& later.document.text.len() == 0 && later.document.cursor == 0
            &&& later.document.undo.len() == 0 && later.document.redo.len() == 0
            &&& !later.document.dirty
            &&& later.scroll == 0
            &&& later.screen == Screen::Categories
            &&& later.secret_key is None && !later.secret_unlocked
            &&& later == (AppView {
                path: later.path,
                document: later.document,
                scroll: later.scroll,
                screen: later.screen,
                secret_key: later.secret_key,
                secret_unlocked: later.secret_unlocked,
                ..desk
            })
        }),
{
}

/// A save is remembered with its time and thanked for, with another of five
/// messages each time, in turn. It changes nothing else.
pub proof fn law_a_save_is_thanked_for(desk: AppView, now: int, round: nat)
    requires
        0 <= desk.save_count < usize::MAX,
    ensures
        ({
            let later = desk.saved(now);
            &&& later.last_save == now
            &&& !later.document.dirty
            &&& later.save_count == desk.save_count + 1
            &&& later == (AppView {
                document: document::DocumentView { dirty: false, ..desk.document },
                last_save: later.last_save,
                save_count: later.save_count,
                message: later.message,
                ..desk
            })
            &&& later.save_count == 5 * round ==> later.message == "ink safe"@
            &&& later.save_count == 5 * round + 1 ==> later.message == "tucked away"@
            &&& later.save_count == 5 * round + 2 ==> later.message == "captured"@
            &&& later.save_count == 5 * round + 3 ==> later.message == "saved ✦"@
            &&& later.save_count == 5 * round + 4 ==> later.message == "all cozy"@
        }),
{
}

/// Where the note that was chosen is no longer on the list, the last one is
/// chosen, and else the same place of the list.
pub proof fn law_the_choice_stays_on_the_list(
    desk: AppView,
    notes: Seq<path::PathView>,
    texts: Seq<Option<Seq<char>>>,
)
    requires
        desk.document_index >= 0,
    ensures
        ({
            let later = desk.refreshed(notes, texts);
            &&& desk.document_index < later.documents.len() ==> later.document_index
                == desk.document_index
            &&& 0 < later.documents.len() <= desk.document_index ==> later.document_index
                == later.documents.len() - 1
            &&& later.documents.len() == 0 ==> later.document_index == 0
            &&& later == (AppView {
                documents: later.documents,
                document_index: later.document_index,
                ..desk
            })
        }),
{
}

/// A shelf that is opened shows its list from the first note on.
pub proof fn law_an_opened_shelf_shows_its_list(
    desk: AppView,
    notes: Seq<path::PathView>,
    texts: Seq<Option<Seq<char>>>,
)
    ensures
        ({
            let later = desk.category_opened(notes, texts);
            &&& later.screen == Screen::Documents
            &&& later.document_index == 0
            &&& later.documents == desk.listing(notes, texts)
            &&& later == (AppView {
                screen: later.screen,
                document_index: later.document_index,
                documents: later.documents,
                ..desk
            })
        }),
{
}

proof fn lemma_filter_keeps_length(
    notes: Seq<path::PathView>,
    a: spec_fn(path::PathView) -> bool,
    b: spec_fn(path::PathView) -> bool,
)
    requires
        forall|note: path::PathView| #[trigger] a(note) == !b(note),
    ensures
        notes.filter(a).len() + notes.filter(b).len() == notes.len(),
    decreases notes.len(),
{
    reveal(Seq::filter);
    if notes.len() > 0 {
        lemma_filter_keeps_length(notes.drop_last(), a, b);
        let last = notes.last();
        assert(a(last) == !b(last));
    }
}

proof fn lemma_filter_places(
    notes: Seq<path::PathView>,
    wanted: spec_fn(path::PathView) -> bool,
    i: int,
    j: int,
) -> (places: (int, int))
    requires
        0 <= i < j < notes.len(),
        wanted(notes[i]),
        wanted(notes[j]),
    ensures
        0 <= places.0 < places.1 < notes.filter(wanted).len(),
        notes.filter(wanted)[places.0] == notes[i],
        notes.filter(wanted)[places.1] == notes[j],
    decreases notes.len(),
{
    reveal(Seq::filter);
    let less = notes.drop_last();
    if j < less.len() {
        lemma_filter_places(less, wanted, i, j)
    } else {
        broadcast use vstd::seq_lib::group_filter_ensures;

        assert(less[i] == notes[i]);
        assert(less.contains(notes[i]));
        let kept = less.filter(wanted);
        lemma_filter_has(less, wanted, i);
        let k = choose|k: int| 0 <= k < kept.len() && kept[k] == notes[i];
        (k, kept.len() as int)
    }
}

proof fn lemma_filter_has(
    notes: Seq<path::PathView>,
    wanted: spec_fn(path::PathView) -> bool,
    i: int,
)
    requires
        0 <= i < notes.len(),
        wanted(notes[i]),
    ensures
        exists|k: int|
            0 <= k < notes.filter(wanted).len() && #[trigger] notes.filter(wanted)[k] == notes[i],
    decreases notes.len(),
{
    reveal(Seq::filter);
    let less = notes.drop_last();
    let all = notes.filter(wanted);
    if i < less.len() {
        lemma_filter_has(less, wanted, i);
        let k = choose|k: int|
            0 <= k < less.filter(wanted).len() && #[trigger] less.filter(wanted)[k] == less[i];
        assert(all[k] == notes[i]);
    } else {
        assert(all[all.len() - 1] == notes[i]);
    }
}

/// Without a search a shelf lists every note it is given, no more and no fewer.
/// Pinned notes come first; two notes that are both pinned, or both not, keep the
/// order in which they are given.
pub proof fn law_a_list_keeps_its_order(
    desk: AppView,
    notes: Seq<path::PathView>,
    texts: Seq<Option<Seq<char>>>,
    i: int,
    j: int,
)
    requires
        desk.shelf_search.len() == 0,
        0 <= i < j < notes.len(),
    ensures
        desk.listing(notes, texts).len() == notes.len(),
        desk.pinned.contains(notes[i]) || !desk.pinned.contains(notes[j]) ==> exists|a: int, b: int|
            0 <= a < b < notes.len() && #[trigger] desk.listing(notes, texts)[a] == notes[i]
                && #[trigger] desk.listing(notes, texts)[b] == notes[j],
        !desk.pinned.contains(notes[i]) && desk.pinned.contains(notes[j]) ==> exists|
            a: int,
            b: int,
        |
            0 <= a < b < notes.len() && #[trigger] desk.listing(notes, texts)[a] == notes[j]
                && #[trigger] desk.listing(notes, texts)[b] == notes[i],
{
    let first = |note: path::PathView| desk.pinned.contains(note);
    let rest = |note: path::PathView| !desk.pinned.contains(note);
    let x = notes.filter(first);
    let y = notes.filter(rest);
    let list = desk.listing(notes, texts);
    assert(list == x + y);
    lemma_filter_keeps_length(notes, first, rest);
    if first(notes[i]) && first(notes[j]) {
        let (a, b) = lemma_filter_places(notes, first, i, j);
        assert(list[a] == notes[i] && list[b] == notes[j]);
    } else if rest(notes[i]) && rest(notes[j]) {
        let (a, b) = lemma_filter_places(notes, rest, i, j);
        assert(list[x.len() + a] == notes[i] && list[x.len() + b] == notes[j]);
    } else if first(notes[i]) {
        lemma_filter_has(notes, first, i);
        lemma_filter_has(notes, rest, j);
        let a = choose|k: int| 0 <= k < x.len() && #[trigger] x[k] == notes[i];
        let b = choose|k: int| 0 <= k < y.len() && #[trigger] y[k] == notes[j];
        assert(list[a] == notes[i] && list[x.len() + b] == notes[j]);
    } else {
        lemma_filter_has(notes, first, j);
        lemma_filter_has(notes, rest, i);
        let a = choose|k: int| 0 <= k < x.len() && #[trigger] x[k] == notes[j];
        let b = choose|k: int| 0 <= k < y.len() && #[trigger] y[k] == notes[i];
        assert(list[a] == notes[j] && list[x.len() + b] == notes[i]);
    }
}

/// A search on a shelf leaves the notes that answer it in the order in which they
/// are given, whether they answer by their names or by their texts.
pub proof fn law_a_search_keeps_the_order(
    notes: Seq<path::PathView>,
    texts: Seq<Option<Seq<char>>>,
    query: Seq<char>,
    i: int,
    j: int,
)
    requires
        0 <= i < j < notes.len(),
        app::answers(notes[i], app::text_at(texts, i), query),
        app::answers(notes[j], app::text_at(texts, j), query),
    ensures
        exists|a: int, b: int|
            0 <= a < b < app::answering(notes, texts, query, notes.len() as int).len()
                && #[trigger] app::answering(notes, texts, query, notes.len() as int)[a] == notes[i]
                && #[trigger] app::answering(notes, texts, query, notes.len() as int)[b]
                == notes[j],
{
    lemma_answer_kept(notes, texts, query, i, j);
    let before = app::answering(notes, texts, query, j);
    let a = choose|k: int| 0 <= k < before.len() && #[trigger] before[k] == notes[i];
    let with = app::answering(notes, texts, query, j + 1);
    assert(with == before.push(notes[j]));
    let all = app::answering(notes, texts, query, notes.len() as int);
    lemma_answers_stay(notes, texts, query, j + 1, notes.len() as int);
    assert(with[a] == all[a] && with[before.len() as int] == all[before.len() as int]);
    assert(all[a] == notes[i] && all[before.len() as int] == notes[j]);
}

proof fn lemma_answers_stay(
    notes: Seq<path::PathView>,
    texts: Seq<Option<Seq<char>>>,
    query: Seq<char>,
    less: int,
    count: int,
)
    requires
        0 <= less <= count <= notes.len(),
    ensures
        app::answering(notes, texts, query, less).len() <= app::answering(
            notes,
            texts,
            query,
            count,
        ).len(),
        forall|k: int|
            0 <= k < app::answering(notes, texts, query, less).len() ==> #[trigger] app::answering(
                notes,
                texts,
                query,
                less,
            )[k] == app::answering(notes, texts, query, count)[k],
    decreases count,
{
    if less < count {
        lemma_answers_stay(notes, texts, query, less, count - 1);
    }
}

proof fn lemma_answer_kept(
    notes: Seq<path::PathView>,
    texts: Seq<Option<Seq<char>>>,
    query: Seq<char>,
    i: int,
    count: int,
)
    requires
        0 <= i < count <= notes.len(),
        app::answers(notes[i], app::text_at(texts, i), query),
    ensures
        exists|k: int|
            0 <= k < app::answering(notes, texts, query, count).len() && #[trigger] app::answering(
                notes,
                texts,
                query,
                count,
            )[k] == notes[i],
{
    let with = app::answering(notes, texts, query, i + 1);
    assert(with == app::answering(notes, texts, query, i).push(notes[i]));
    assert(with[with.len() - 1] == notes[i]);
    lemma_answers_stay(notes, texts, query, i + 1, count);
    assert(app::answering(notes, texts, query, count)[with.len() - 1] == with[with.len() - 1]);
}

/// A note answers a search if its last name or its text, in lower case, holds the
/// query, and by nothing else.
pub proof fn law_names_and_texts_answer(
    folder: path::PathView,
    name: Seq<char>,
    contents: Option<Seq<char>>,
    query: Seq<char>,
    at: int,
)
    requires
        name != ".."@,
    ensures
        ({
            let place = folder.joined(name);
            &&& text::occurs_at(text::lowercase(name), query, at) ==> app::answers(
                place,
                contents,
                query,
            )
            &&& contents is Some && text::occurs_at(text::lowercase(contents->0), query, at)
                ==> app::answers(place, contents, query)
            &&& app::answers(place, contents, query) ==> text::occurs_in(
                text::lowercase(name),
                query,
            ) || contents is Some && text::occurs_in(text::lowercase(contents->0), query)
        }),
{
    let place = folder.joined(name);
    assert(place.parts.last() == name);
}

/// A note that went to another place is pinned there if it was pinned before, and
/// no longer where it was. No other pin is touched.
pub proof fn law_pins_follow_their_notes(
    pinned: Seq<path::PathView>,
    from: path::PathView,
    to: path::PathView,
    other: path::PathView,
)
    requires
        pinned.no_duplicates(),
        from != to,
    ensures
        pinned.contains(from) ==> app::repinned(pinned, from, to).contains(to),
        pinned.contains(from) ==> !app::repinned(pinned, from, to).contains(from),
        !pinned.contains(from) ==> app::repinned(pinned, from, to) == pinned,
        other != from && other != to ==> app::repinned(pinned, from, to).contains(other)
            == pinned.contains(other),
        !app::unpinned(pinned, from).contains(from),
        other != from ==> app::unpinned(pinned, from).contains(other) == pinned.contains(other),
{
    handle::lemma_unpinned(pinned, from);
    let rest = app::unpinned(pinned, from);
    let more = rest.push(to);
    assert(more[rest.len() as int] == to);
    if rest.contains(other) {
        let k = choose|k: int| 0 <= k < rest.len() && rest[k] == other;
        assert(more[k] == other);
    }
    if more.contains(other) && other != to {
        let k = choose|k: int| 0 <= k < more.len() && more[k] == other;
        assert(rest[k] == other);
    }
    if more.contains(from) {
        let k = choose|k: int| 0 <= k < more.len() && more[k] == from;
        assert(rest[k] == from);
        assert(rest.contains(from));
    }
}

/// A list with each note once keeps the order: the first note stays the first, and
/// one that is on the list already is not added.
pub proof fn law_each_pin_once(list: Seq<path::PathView>, note: path::PathView)
    ensures
        list.contains(note) ==> distinct(list.push(note)) == distinct(list),
        !list.contains(note) ==> distinct(list.push(note)) == distinct(list).push(note),
        list.no_duplicates() ==> distinct(list) == list,
    decreases list.len(),
{
    lemma_distinct(list);
    assert(list.push(note).drop_last() == list);
    if list.no_duplicates() && list.len() > 0 {
        let less = list.drop_last();
        assert forall|i: int, j: int| 0 <= i < less.len() && 0 <= j < less.len() && i != j implies
            less[i] != less[j] by {
            assert(list[i] != list[j]);
        }
        if less.contains(list.last()) {
            let k = choose|k: int| 0 <= k < less.len() && less[k] == list.last();
            assert(list[k] != list[list.len() - 1]);
        }
        law_each_pin_once(less, list.last());
        assert(less.push(list.last()) == list);
    }
}

/// A note that was moved is chosen on the shelf it went to, where the search is
/// over and the desk says where it is.
pub proof fn law_a_moved_note_is_chosen(
    desk: AppView,
    notes: Seq<path::PathView>,
    texts: Seq<Option<Seq<char>>>,
    to: path::PathView,
    category: int,
)
    requires
        notes.contains(to),
    ensures
        ({
            let later = desk.shelved(notes, texts, to, category);
            &&& later.category_index == category
            &&& later.shelf_search.len() == 0
            &&& 0 <= later.document_index < later.documents.len()
            &&& later.documents[later.document_index] == to
            &&& later.documents.len() == notes.len()
            &&& later.message == "Moved safely to "@ + shelf::category_title(category)
            &&& later == (AppView {
                category_index: later.category_index,
                shelf_search: later.shelf_search,
                documents: later.documents,
                document_index: later.document_index,
                message: later.message,
                ..desk
            })
        }),
{
    let later = desk.shelved(notes, texts, to, category);
    let list = later.documents;
    assert(list == app::pinned_first(notes, desk.pinned));
    crate::laws::law_pinned_notes_come_first(notes, desk.pinned, to);
    let k = choose|k: int| 0 <= k < list.len() && list[k] == to;
    lemma_place_in(list, to, 0, k);
    let first = |note: path::PathView| desk.pinned.contains(note);
    let rest = |note: path::PathView| !desk.pinned.contains(note);
    lemma_filter_keeps_length(notes, first, rest);
}

proof fn lemma_place_in(list: Seq<path::PathView>, note: path::PathView, at: int, k: int)
    requires
        0 <= at <= k < list.len(),
        list[k] == note,
    ensures
        at <= app::place_in(list, note, at) <= k,
        list[app::place_in(list, note, at)] == note,
    decreases k - at,
{
    if list[at] != note {
        lemma_place_in(list, note, at + 1, k);
    }
}

/// How a note goes from one place to another: between two places outside the
/// encrypted shelf, and between two inside of it while it is open, its file is
/// renamed; into the open shelf it is written anew; out of it, and into it while it
/// is locked, it does not go, and the desk says why.
pub proof fn law_notes_move_by_the_border(desk: AppView, from: path::PathView, to: path::PathView)
    ensures
        !desk.secret(from) && !desk.secret(to) ==> desk.move_plan(from, to) == MovePlan::Rename
            && desk.move_planned(from, to) == desk,
        !desk.secret(from) && desk.secret(to) && desk.secret_key is Some ==> desk.move_plan(
            from,
            to,
        ) == MovePlan::Rewrite && desk.move_planned(from, to) == desk,
        desk.secret(from) && desk.secret(to) && desk.secret_key is Some ==> desk.move_plan(from, to)
            == MovePlan::Rename && desk.move_planned(from, to) == desk,
        desk.secret(from) && !desk.secret(to) ==> desk.move_planned(from, to) == (AppView {
            message: "Secret Thoughts cannot leave the encrypted shelf"@,
            ..desk
        }),
        desk.secret(to) && desk.secret_key is None ==> desk.move_planned(from, to) == (AppView {
            message: "Unlock Secret Thoughts before moving a note there"@,
            ..desk
        }),
{
}

/// What is pasted goes whole to where typing goes: into the answer to a question,
/// or between what stands before the cursor and behind it, as one change that can
/// be taken back at once. Elsewhere it goes nowhere.
pub proof fn law_pasting_goes_where_typing_goes(desk: AppView, pasted: Seq<char>)
    requires
        desk.wf(),
    ensures
        desk.text_prompt is Some ==> desk.pasted(pasted) == (AppView {
            prompt_input: desk.prompt_input + pasted,
            ..desk
        }),
        desk.text_prompt is None && desk.lock_prompt is None && !desk.help_visible && desk.screen
            == Screen::Editor ==> {
            let later = desk.pasted(pasted);
            let cursor = desk.document.cursor;
            &&& later == (AppView { document: later.document, ..desk })
            &&& later.document.text == desk.document.text.take(cursor) + pasted
                + desk.document.text.skip(cursor)
            &&& later.document.cursor == cursor + pasted.len()
            &&& later.document.dirty
            &&& later.document.undone().text == desk.document.text
            &&& later.document.undone().cursor == cursor
        },
        desk.text_prompt is None && (desk.lock_prompt is Some || desk.help_visible || desk.screen
            != Screen::Editor) ==> desk.pasted(pasted) == desk,
{
    let kept = desk.document.undo.push(desk.document.now());
    assert(kept.last() == desk.document.now());
    assert(kept.skip(1).last() == kept.last() || kept.len() <= 1);
}

/// Outside the encrypted shelf the bytes of a file are its text, in UTF-8; inside
/// they are read with the key, and not at all without it.
pub proof fn law_files_are_read_by_their_shelf(
    desk: AppView,
    place: path::PathView,
    bytes: Seq<u8>,
    contents: Seq<char>,
)
    ensures
        !desk.secret(place) ==> desk.revealed(place, bytes) == Ok::<Seq<u8>, Fault>(bytes),
        !desk.secret(place) && bytes == vstd::utf8::encode_utf8(contents) ==> desk.text_of(
            place,
            bytes,
        ) == Ok::<Seq<char>, Fault>(contents),
        !desk.secret(place) && !vstd::utf8::valid_utf8(bytes) ==> desk.text_of(place, bytes)
            == Err::<Seq<char>, Fault>(Fault::InvalidText),
        desk.secret(place) && desk.secret_key is None ==> desk.revealed(place, bytes) == Err::<
            Seq<u8>,
            Fault,
        >(Fault::Locked) && desk.text_of(place, bytes) == Err::<Seq<char>, Fault>(Fault::Locked),
        !desk.secret(place) ==> desk.conceals(place, bytes, bytes),
{
    vstd::utf8::encode_utf8_valid_utf8(contents);
    vstd::utf8::encode_utf8_decode_utf8(contents);
}

} // verus!
