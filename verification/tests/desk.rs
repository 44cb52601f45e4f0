use quietwrite::app::{Action, App, LockPrompt, Screen, TextPrompt, AUTOSAVE_INTERVAL};
use quietwrite::book::{chapter_message, export_book, new_project, project_message};
use quietwrite::config::read_cursor_state;
use quietwrite::keys::Key;
use quietwrite::path::NotePath;
use quietwrite::session::{beginning, begins_with_page, Beginning, MovePlan};
use quietwrite::shelf::{
    book_chapters, history_folder, history_key, note_file_name, notes_directory, notes_for_category,
    unique_destination, version_name, FileEntry, ARCHIVE_CATEGORY_INDEX, PROJECTS_CATEGORY_INDEX,
    SECRET_CATEGORY_INDEX, TRASH_CATEGORY_INDEX,
};
use quietwrite::vault::{magic, Fault, SecretLock, Unlocked};
use quietwrite::wrap::{two_sided_line, visible_width};

fn place(path: &str) -> NotePath {
    NotePath {
        root: "/".into(),
        parts: path.split('/').filter(|part| !part.is_empty()).map(String::from).collect(),
    }
}

fn desk() -> NotePath {
    place("/desk")
}

fn file(path: &str) -> FileEntry {
    FileEntry { place: place(path), is_file: true, modified: 0 }
}

fn shown(notes: &[NotePath]) -> Vec<String> {
    notes.iter().map(|note| note.show()).collect()
}

fn open(path: &str, contents: &str) -> App {
    App::open(desk(), place(path), contents.into(), None, None, Vec::new(), false, 1000)
}

fn type_in(app: &mut App, words: &str) {
    for c in words.chars() {
        assert!(matches!(app.handle(Key::Char(c), 20, 80, 0), Action::Continue));
    }
}

#[test]
fn heading_navigation_wraps_through_the_outline() {
    let mut app = open("/desk/Drafts/book.md", "# One\ntext\n# Two\nmore");
    app.document.cursor = 0;
    app.move_heading(true);
    assert_eq!(app.message, "heading: Two");
    app.move_heading(true);
    assert_eq!(app.document.cursor, 0);
    app.move_heading(false);
    assert_eq!(app.message, "heading: Two");
    let mut plain = open("/desk/Drafts/plain.md", "nothing here");
    plain.move_heading(true);
    assert_eq!(plain.message, "no headings");
}

#[test]
fn information_bar_reports_connection_without_exceeding_width() {
    let mut app = open("/desk/Notes/a.md", "");
    app.network_status = 2;
    assert!(app.info_bar().ends_with("● online"));
    let line = two_sided_line("shortcuts", &app.info_bar(), 40);
    assert_eq!(visible_width(&line), 40);
    app.network_status = 1;
    assert!(app.info_bar().ends_with("○ offline"));
    let bar = app.info_bar();
    assert!(bar.contains("v0.10.0"));
    let clock: Vec<char> = bar.chars().take(5).collect();
    assert_eq!(clock[2], ':');
    assert!(clock[0].is_ascii_digit() && clock[4].is_ascii_digit());
}

#[test]
fn saves_create_recoverable_versions_and_cursor_state() {
    let mut app = open("/desk/Notes/draft.md", "first");
    app.document.insert('!');
    assert!(app.snapshot_needed(b"first".to_vec()).unwrap());
    let written = app.page_bytes().unwrap();
    assert_eq!(written, b"first!");
    assert_eq!(
        history_folder(&desk(), &app.path).show(),
        "/desk/.quietwrite/history/Notes_draft.md"
    );
    assert_eq!(version_name(1700000000123456789), "1700000000123456789.md");
    let (state_place, state) = app.cursor_file();
    assert_eq!(state_place.show(), "/desk/.quietwrite/state");
    assert_eq!(read_cursor_state(&state, "/desk/Notes/draft.md"), Some(6));
    app.saved(5000);
    assert_eq!(app.message, "tucked away");
    assert_eq!(app.save_count, 1);
    assert!(!app.document.dirty);
    assert!(!app.snapshot_needed(written).unwrap());
    app.restore_snapshot(b"first".to_vec()).unwrap();
    assert_eq!(app.document.as_string(), "first");
    assert_eq!(app.message, "restored previous version");
    assert!(app.document.undo());
    assert_eq!(app.document.as_string(), "first!");
    app.nothing_to_restore();
    assert_eq!(app.message, "no previous version");
}

#[test]
fn browser_can_search_pin_archive_and_trash() {
    let files = vec![file("/desk/Drafts/chapter.md"), file("/desk/Drafts/other.md")];
    let mut app = open("/desk/Notes/a.md", "");
    app.category_index = 1;
    let notes = notes_for_category(&desk(), 1, &files);
    assert_eq!(notes.len(), 2);
    let texts: Vec<Option<String>> = notes
        .iter()
        .map(|note| match note.file_name().as_deref() {
            Some("chapter.md") => Some("a lighthouse scene".to_string()),
            _ => Some("market scene".to_string()),
        })
        .collect();
    app.open_category(notes, &texts);
    assert_eq!(app.screen, Screen::Documents);
    app.shelf_search = "lighthouse".into();
    app.refresh_documents(notes_for_category(&desk(), 1, &files), &texts);
    assert_eq!(app.documents.len(), 1);
    assert!(matches!(app.toggle_pin(), Action::StorePins));
    assert_eq!(app.pinned.len(), 1);

    let from = app.selected_path().unwrap();
    let archive = app.category_directory(ARCHIVE_CATEGORY_INDEX);
    let to = unique_destination(&archive, from.file_name().unwrap().as_str(), 0);
    assert_eq!(app.plan_move(&from, &to), MovePlan::Rename);
    assert!(app.moved(&from, &to));
    let archived = vec![file("/desk/Archive/chapter.md"), file("/desk/Drafts/other.md")];
    let notes = notes_for_category(&desk(), ARCHIVE_CATEGORY_INDEX, &archived);
    app.show_moved(notes, &vec![None], &to, ARCHIVE_CATEGORY_INDEX);
    assert_eq!(app.category_index, ARCHIVE_CATEGORY_INDEX);
    assert_eq!(app.selected_path().unwrap().show(), "/desk/Archive/chapter.md");
    assert_eq!(shown(&app.pinned), vec!["/desk/Archive/chapter.md"]);
    assert_eq!(app.message, "Moved safely to Archive");

    app.category_index = 1;
    app.shelf_search.clear();
    app.refresh_documents(notes_for_category(&desk(), 1, &archived), &vec![None]);
    let other = app.selected_path().unwrap();
    let trash = app.category_directory(TRASH_CATEGORY_INDEX);
    assert_eq!(
        unique_destination(&trash, &other.file_name().unwrap(), 0).show(),
        "/desk/.quietwrite/Trash/other.md"
    );
    app.trashed(&other);
    assert_eq!(app.message, "moved to trash");
}

#[test]
fn projects_discover_nested_chapters_and_open_references() {
    let files = vec![
        file("/desk/Projects/Glass House/01-arrival.md"),
        file("/desk/Projects/Glass House/02-letter.md"),
    ];
    let chapters = notes_for_category(&desk(), PROJECTS_CATEGORY_INDEX, &files);
    assert_eq!(chapters.len(), 2);
    let mut app = open("/desk/Notes/a.md", "");
    app.category_index = PROJECTS_CATEGORY_INDEX;
    app.open_category(chapters, &vec![None, None]);
    app.document_index = app
        .documents
        .iter()
        .position(|path| path.show().ends_with("02-letter.md"))
        .unwrap();
    let chosen = app.selected_path().unwrap();
    app.open_reference(chosen, "# Letter\nReference");
    assert!(app.split_visible);
    assert_eq!(app.reference_text.iter().collect::<String>(), "# Letter\nReference");
    assert_eq!(app.selected_project_root().unwrap().show(), "/desk/Projects/Glass House");
    assert_eq!(app.chapter_folder().show(), "/desk/Projects/Glass House");
}

#[test]
fn project_prompt_creates_a_plain_folder_and_chapter() {
    let mut app = open("/desk/Notes/a.md", "");
    app.text_prompt = Some(TextPrompt::NewProject);
    app.prompt_input = "Night Train".into();
    let name = match app.submit_text_prompt() {
        Action::NewProject(name) => name,
        other => panic!("{other:?}"),
    };
    let folder = app.category_directory(PROJECTS_CATEGORY_INDEX).join(&name);
    let (files, chapter) = new_project(&folder, &name);
    assert_eq!(chapter.show(), "/desk/Projects/Night Train/10-chapter-1.md");
    let places: Vec<String> = files.iter().map(|made| made.place.show()).collect();
    assert!(places.contains(&"/desk/Projects/Night Train/10-chapter-1.md".to_string()));
    assert!(places.contains(&"/desk/Projects/Night Train/00-title-page.md".to_string()));
    assert!(places.contains(&"/desk/Projects/Night Train/01-copyright.md".to_string()));
    assert!(places.contains(&"/desk/Projects/Night Train/90-about-the-author.md".to_string()));
    app.open_path(chapter, "# Chapter 1\n\n".into(), None, "new book project".into(), 0);
    assert_eq!(app.path.show(), "/desk/Projects/Night Train/10-chapter-1.md");
}

#[test]
fn book_export_combines_chapters_in_filename_order() {
    let files = vec![
        file("/desk/Projects/Night Train/20-ending.md"),
        file("/desk/Projects/Night Train/10-opening.md"),
    ];
    let mut app = open("/desk/Notes/a.md", "");
    app.category_index = PROJECTS_CATEGORY_INDEX;
    app.open_category(
        notes_for_category(&desk(), PROJECTS_CATEGORY_INDEX, &files),
        &vec![None, None],
    );
    let project = app.selected_project_root().unwrap();
    let chapters = book_chapters(&project, &files);
    assert_eq!(
        shown(&chapters),
        vec![
            "/desk/Projects/Night Train/10-opening.md",
            "/desk/Projects/Night Train/20-ending.md"
        ]
    );
    let texts = vec![
        "# Opening\n\nFirst line.".to_string(),
        "# Ending\n\nLast line.".to_string(),
    ];
    let made = export_book(&desk(), "Night Train", &texts);
    let markdown = made
        .iter()
        .find(|file| file.place.show() == "/desk/Exports/Night Train/manuscript.md")
        .unwrap();
    assert!(
        markdown.contents.find("First line.").unwrap()
            < markdown.contents.find("Last line.").unwrap()
    );
    let html = made
        .iter()
        .find(|file| file.place.show() == "/desk/Exports/Night Train/manuscript.html")
        .unwrap();
    assert!(html.contents.contains("<h1>Opening</h1>"));
    assert!(html.contents.contains("<title>Night Train</title>"));
    assert!(made
        .iter()
        .any(|file| file.place.show() == "/desk/Exports/Night Train/KDP-README.txt"));
    app.exported("Night Train");
    assert_eq!(app.message, "Exported Night Train to Exports");
    app.no_chapters();
    assert_eq!(app.message, "This book has no chapters");
}

#[test]
fn notes_shelf_includes_legacy_root_files_without_moving_them() {
    let files = vec![
        file("/desk/legacy.md"),
        file("/desk/Notes/new.md"),
        file("/desk/Poems/verse.md"),
    ];
    let notes = shown(&notes_for_category(&desk(), 0, &files));
    assert!(notes.contains(&"/desk/legacy.md".to_string()));
    assert!(notes.contains(&"/desk/Notes/new.md".to_string()));
    assert!(!notes.contains(&"/desk/Poems/verse.md".to_string()));
}

#[test]
fn new_documents_use_the_selected_category() {
    let mut app = open("/desk/Notes/a.md", "");
    app.category_index = SECRET_CATEGORY_INDEX;
    assert_eq!(app.may_begin_note().unwrap_err().fault, Fault::UnlockFirst);
    app.unlocked([7; 32]);
    app.may_begin_note().unwrap();
    let folder = app.category_directory(app.category_index);
    app.new_note(quietwrite::shelf::new_note_path(&folder, 1700000000, 0), 0);
    assert_eq!(app.path.parent().unwrap().show(), "/desk/Secret Thoughts");
    assert_eq!(app.path.show(), "/desk/Secret Thoughts/note-1700000000.md");
    assert_eq!(app.screen, Screen::Editor);
    assert_eq!(app.message, "New note");
    let files = vec![file(&app.path.show())];
    assert!(notes_for_category(&desk(), 0, &files).is_empty());
}

#[test]
fn browser_moves_between_shelves_documents_and_editor() {
    let mut app = open("/desk/Notes/a.md", "");
    assert_eq!(app.screen, Screen::Categories);
    assert!(matches!(app.handle(Key::Enter, 20, 80, 0), Action::OpenCategory));
    app.open_category(Vec::new(), &Vec::new());
    assert_eq!(app.screen, Screen::Documents);
    app.handle(Key::Browser, 20, 80, 0);
    assert_eq!(app.screen, Screen::Categories);
    app.handle(Key::Escape, 20, 80, 0);
    assert_eq!(app.screen, Screen::Editor);
}

#[test]
fn secret_notes_are_encrypted_on_disk_and_history_stays_encrypted() {
    let mut app = open("/desk/Notes/a.md", "");
    app.category_index = SECRET_CATEGORY_INDEX;
    app.unlocked([9; 32]);
    app.new_note(place("/desk/Secret Thoughts/note-1.md"), 0);
    app.document.insert('x');
    let on_disk = app.page_bytes().unwrap();
    assert!(on_disk.starts_with(&magic()));
    assert_eq!(app.read_document(&app.path, on_disk.clone()).unwrap(), "x");
    app.document.insert('y');
    assert!(app.snapshot_needed(on_disk.clone()).unwrap());
    assert_eq!(history_key(&desk(), &app.path), "Secret Thoughts_note-1.md");
    let again = app.page_bytes().unwrap();
    assert!(again.starts_with(&magic()));
    assert!(!app.snapshot_needed(again).unwrap());
    app.restore_snapshot(on_disk).unwrap();
    assert_eq!(app.document.as_string(), "x");
}

fn press_enter(app: &mut App) -> Action {
    app.handle(Key::Enter, 20, 80, 0)
}

#[test]
fn secret_shelf_prompts_and_locks_again_when_leaving() {
    let mut app = open("/desk/Notes/a.md", "");
    app.category_index = SECRET_CATEGORY_INDEX;
    assert!(matches!(press_enter(&mut app), Action::ProbeLock));
    app.begin_secret_unlock(false);
    assert_eq!(app.lock_prompt, Some(LockPrompt::Create));
    app.password_input = "sample phrase".into();
    assert!(matches!(press_enter(&mut app), Action::Continue));
    assert_eq!(app.lock_prompt, Some(LockPrompt::Confirm));
    app.password_input = "sample phrase".into();
    assert!(matches!(press_enter(&mut app), Action::CreateLock));
    let lock: SecretLock = app.create_lock().unwrap();
    match app.try_lock(&lock.contents).unwrap() {
        Unlocked::Key(key) => assert_eq!(key, lock.key),
        other => panic!("{other:?}"),
    }
    app.unlocked(lock.key);
    app.password_accepted();
    app.open_category(Vec::new(), &Vec::new());
    assert_eq!(app.screen, Screen::Documents);
    assert!(app.secret_unlocked);
    app.handle(Key::Escape, 20, 80, 0);
    assert!(!app.secret_unlocked);
    assert!(app.secret_key.is_none());
}

#[test]
fn short_and_differing_passwords_are_refused() {
    let mut app = open("/desk/Notes/a.md", "");
    app.category_index = SECRET_CATEGORY_INDEX;
    app.begin_secret_unlock(false);
    app.password_input = "seven77".into();
    assert!(matches!(press_enter(&mut app), Action::Continue));
    assert_eq!(app.lock_prompt, Some(LockPrompt::Create));
    assert_eq!(app.message, "Use at least 8 characters");
    app.password_input = "eight888".into();
    press_enter(&mut app);
    assert_eq!(app.lock_prompt, Some(LockPrompt::Confirm));
    app.password_input = "eight889".into();
    assert!(matches!(press_enter(&mut app), Action::Continue));
    assert_eq!(app.lock_prompt, Some(LockPrompt::Create));
    app.begin_secret_unlock(true);
    assert_eq!(app.lock_prompt, Some(LockPrompt::Unlock));
    app.password_input = "guess".into();
    assert!(matches!(press_enter(&mut app), Action::TryLock));
    app.wrong_password();
    assert_eq!(app.message, "Incorrect password");
    assert_eq!(app.password_input, "");
    app.lock_not_read("gone");
    assert_eq!(app.message, "Could not read lock: gone");
    app.lock_not_saved("full");
    assert_eq!(app.message, "Could not save lock: full");
    app.migration_failed("why");
    assert_eq!(app.message, "Could not encrypt existing notes: why");
}

#[test]
fn what_is_written_is_read_back() {
    let mut app = open("/desk/Notes/a.md", "");
    let plain = place("/desk/Notes/b.md");
    let secret = place("/desk/Secret Thoughts/b.md");
    let written = app.write_document(&plain, "déjà vu".as_bytes()).unwrap();
    assert_eq!(app.read_document(&plain, written).unwrap(), "déjà vu");
    assert_eq!(app.write_document(&secret, b"x").unwrap_err().fault, Fault::Locked);
    assert_eq!(app.read_document(&secret, b"x".to_vec()).unwrap_err().fault, Fault::Locked);
    assert_eq!(app.read_document(&plain, vec![0xff]).unwrap_err().fault, Fault::InvalidText);
    app.unlocked([1; 32]);
    let written = app.write_document(&secret, b"x").unwrap();
    assert_ne!(written, b"x");
    assert_eq!(app.read_document(&secret, written.clone()).unwrap(), "x");
    assert_eq!(app.migrate_secret_file(&secret, &written).unwrap(), None);
    let migrated = app.migrate_secret_file(&secret, &b"old".to_vec()).unwrap().unwrap();
    assert_eq!(app.read_document(&secret, migrated).unwrap(), "old");
    app.lock_secrets();
    assert!(app.secret_key.is_none());
    assert!(app.read_document(&secret, written).is_err());
}

#[test]
fn secrets_do_not_leave_their_shelf() {
    let mut app = open("/desk/Notes/a.md", "");
    let secret = place("/desk/Secret Thoughts/a.md");
    let plain = place("/desk/Notes/a.md");
    assert_eq!(app.plan_move(&plain, &secret), MovePlan::Refused);
    assert_eq!(app.message, "Unlock Secret Thoughts before moving a note there");
    app.unlocked([1; 32]);
    assert_eq!(app.plan_move(&plain, &secret), MovePlan::Rewrite);
    assert_eq!(app.plan_move(&secret, &plain), MovePlan::Refused);
    assert_eq!(app.message, "Secret Thoughts cannot leave the encrypted shelf");
    assert_eq!(app.plan_move(&secret, &secret), MovePlan::Rename);
}

#[test]
fn closing_a_secret_note_locks_the_vault() {
    let mut app = open("/desk/Notes/a.md", "");
    app.unlocked([1; 32]);
    app.category_index = SECRET_CATEGORY_INDEX;
    app.open_path(place("/desk/Secret Thoughts/a.md"), "text".into(), None, "opened".into(), 0);
    assert!(matches!(app.handle(Key::Browser, 20, 80, 0), Action::CloseSecretEditor));
    app.close_secret_editor(place("/desk/Notes/note-1.md"));
    assert!(app.secret_key.is_none());
    assert_eq!(app.screen, Screen::Categories);
    assert_eq!(app.document.as_string(), "");
    app.unlocked([1; 32]);
    assert!(matches!(app.handle(Key::Quit, 20, 80, 0), Action::Quit));
    app.quit();
    assert!(app.secret_key.is_none());
}

#[test]
fn typing_saving_and_finding_in_the_editor() {
    let mut app = open("/desk/Notes/a.md", "");
    app.screen = Screen::Editor;
    type_in(&mut app, "one two");
    press_enter(&mut app);
    type_in(&mut app, "THREE two");
    assert_eq!(app.document.as_string(), "one two\nTHREE two");
    assert!(matches!(app.handle(Key::Save, 20, 80, 0), Action::Save));
    app.handle(Key::Search, 20, 80, 0);
    assert_eq!(app.text_prompt, Some(TextPrompt::FindDraft));
    type_in(&mut app, "Twp");
    app.handle(Key::Backspace, 20, 80, 0);
    type_in(&mut app, "o");
    press_enter(&mut app);
    assert_eq!(app.document.cursor, 4);
    assert_eq!(app.message, "found: Two");
    app.handle(Key::FindNext, 20, 80, 0);
    assert_eq!(app.document.cursor, 14);
    app.handle(Key::FindNext, 20, 80, 0);
    assert_eq!(app.document.cursor, 4);
    app.find_query = "absent".into();
    app.find_next();
    assert_eq!(app.document.cursor, 4);
    assert_eq!(app.message, "not found: absent");
    app.handle(Key::Undo, 20, 80, 0);
    assert_eq!(app.document.as_string(), "one two\nTHREE tw");
    app.handle(Key::Redo, 20, 80, 0);
    assert_eq!(app.document.as_string(), "one two\nTHREE two");
    assert_eq!(app.document.cursor, 4);
    app.handle(Key::Down, 20, 80, 0);
    assert_eq!(app.document.cursor, 12);
    app.handle(Key::Home, 20, 80, 0);
    assert_eq!(app.document.cursor, 8);
    app.handle(Key::Up, 20, 80, 0);
    assert_eq!(app.document.cursor, 0);
    app.handle(Key::Target, 20, 80, 0);
    type_in(&mut app, "500");
    press_enter(&mut app);
    assert_eq!(app.word_target, Some(500));
}

#[test]
fn the_display_is_turned_enlarged_and_coloured() {
    let mut app = open("/desk/Notes/a.md", "");
    app.screen = Screen::Editor;
    let start = app.display();
    for _ in 0..3 {
        assert!(matches!(app.handle(Key::Theme, 20, 80, 0), Action::StoreDisplay(true)));
    }
    for _ in 0..4 {
        assert!(matches!(app.handle(Key::Rotate, 20, 80, 0), Action::StoreDisplay(false)));
    }
    assert_eq!(app.display(), start);
    for _ in 0..9 {
        app.handle(Key::Larger, 20, 80, 0);
    }
    assert_eq!(app.zoom, 5);
    for _ in 0..20 {
        app.handle(Key::Smaller, 20, 80, 0);
    }
    assert_eq!(app.zoom, -8);
    app.display_stored(None, true);
    assert_eq!(app.message, quietwrite::theme::palette(app.theme).name);
    app.display_stored(None, false);
    assert_eq!(app.message, "Display saved");
    app.display_stored(Some("full"), false);
    assert_eq!(app.message, "Display setting failed: full");
}

#[test]
fn keys_elsewhere_leave_the_text_alone() {
    let mut app = open("/desk/Notes/a.md", "words");
    assert_eq!(app.screen, Screen::Categories);
    for key in [Key::Char('x'), Key::Backspace, Key::Delete, Key::Up, Key::Down, Key::Home] {
        app.handle(key, 20, 80, 0);
        assert_eq!(app.document.as_string(), "words");
    }
    app.screen = Screen::Editor;
    app.handle(Key::Help, 20, 80, 0);
    assert!(app.help_visible);
    app.handle(Key::Char('x'), 20, 80, 0);
    assert_eq!(app.document.as_string(), "words");
}

#[test]
fn pasting_goes_to_the_question_or_the_text() {
    let mut app = open("/desk/Notes/a.md", "ad");
    assert!(!app.paste("bc"));
    app.screen = Screen::Editor;
    app.document.cursor = 1;
    assert!(app.paste("bc"));
    assert_eq!(app.document.as_string(), "abcd");
    assert_eq!(app.document.cursor, 3);
    assert!(app.document.undo());
    assert_eq!(app.document.as_string(), "ad");
    app.start_prompt(TextPrompt::SearchShelf);
    assert!(app.paste("look"));
    assert!(app.prompt_input.ends_with("look"));
}

#[test]
fn pinned_notes_come_first_and_are_written_down() {
    let mut app = open("/desk/Notes/a.md", "");
    let notes = || vec![place("/desk/Notes/a.md"), place("/desk/Notes/b.md"), place("/desk/c.md")];
    app.open_category(notes(), &Vec::new());
    app.document_index = 2;
    assert!(matches!(app.toggle_pin(), Action::StorePins));
    app.refresh_documents(notes(), &Vec::new());
    assert_eq!(
        shown(&app.documents),
        vec!["/desk/c.md", "/desk/Notes/a.md", "/desk/Notes/b.md"]
    );
    let (pins_place, pins) = app.pins_file();
    assert_eq!(pins_place.show(), "/desk/.quietwrite/pins");
    assert_eq!(pins, "/desk/c.md");
    app.renamed(&place("/desk/c.md"), &place("/desk/d.md"));
    assert_eq!(shown(&app.pinned), vec!["/desk/d.md"]);
    assert_eq!(app.message, "renamed");
    app.document_index = 0;
    app.documents = vec![place("/desk/d.md")];
    assert!(matches!(app.toggle_pin(), Action::StorePins));
    assert!(app.pinned.is_empty());
}

#[test]
fn a_note_opens_where_its_cursor_was_left() {
    let state = "/desk/Notes/a.md\n3\n";
    let app = App::open(
        desk(),
        place("/desk/Notes/a.md"),
        "abcdef".into(),
        Some("rotation=2\nzoom=1\ntheme=1\n"),
        Some(state),
        vec![place("/desk/x.md"), place("/desk/x.md")],
        true,
        7,
    );
    assert_eq!(app.document.cursor, 3);
    assert_eq!((app.rotation, app.zoom, app.theme), (2, 1, 1));
    assert_eq!(app.pinned.len(), 1);
    assert_eq!(app.screen, Screen::Editor);
    assert_eq!(app.message, "fresh page");
    let other = App::open(
        desk(),
        place("/desk/Notes/b.md"),
        "abcdef".into(),
        None,
        Some(state),
        Vec::new(),
        false,
        7,
    );
    assert_eq!(other.document.cursor, 6);
}

#[test]
fn a_saved_text_opens_again_with_its_cursor() {
    let mut app = open("/desk/Notes/a.md", "héllo\nworld");
    app.document.cursor = 4;
    app.document.insert('!');
    let written = app.page_bytes().unwrap();
    let (_, state) = app.cursor_file();
    app.saved(0);
    assert_eq!(app.document.as_string(), "héll!o\nworld");
    assert!(app.document.undo());
    let contents = app.read_document(&app.path, written).unwrap();
    let again = App::open(
        desk(),
        place("/desk/Notes/a.md"),
        contents,
        None,
        Some(&state),
        Vec::new(),
        true,
        0,
    );
    assert_eq!(again.document.as_string(), "héll!o\nworld");
    assert_eq!(again.document.cursor, 5);
}

#[test]
fn the_desk_begins_with_what_was_asked_for() {
    match beginning(Some(place("/a.md")), true, None) {
        Beginning::Open(note) => assert_eq!(note.show(), "/a.md"),
        Beginning::NewNote => panic!(),
    }
    assert!(matches!(beginning(None, true, Some(place("/b.md"))), Beginning::NewNote));
    assert!(matches!(beginning(None, false, None), Beginning::NewNote));
    assert!(matches!(beginning(None, false, Some(place("/b.md"))), Beginning::Open(_)));
}

#[test]
fn autosave_and_network_checks_wait_their_time() {
    let mut app = open("/desk/Notes/a.md", "");
    assert!(!app.autosave_due(1000 + AUTOSAVE_INTERVAL));
    app.document.insert('x');
    assert!(!app.autosave_due(999 + AUTOSAVE_INTERVAL));
    assert!(app.autosave_due(1000 + AUTOSAVE_INTERVAL));
    assert!(!app.refresh_network_if_due(30999));
    assert!(app.refresh_network_if_due(31000));
    assert!(!app.refresh_network_if_due(31001));
}

#[test]
fn the_documents_screen_asks_for_its_work() {
    let mut app = open("/desk/Notes/a.md", "");
    app.open_category(vec![place("/desk/Notes/b.md")], &Vec::new());
    assert!(matches!(press_enter(&mut app), Action::OpenSelected));
    for (key, wanted) in [('a', Some(ARCHIVE_CATEGORY_INDEX)), ('m', Some(1)), ('z', None)] {
        match (app.handle(Key::Char(key), 20, 80, 0), wanted) {
            (Action::MoveTo(category), Some(expected)) => assert_eq!(category, expected),
            (Action::Continue, None) => (),
            other => panic!("{key}: {other:?}"),
        }
    }
    assert!(matches!(app.handle(Key::Char('v'), 20, 80, 0), Action::SelectReference));
    app.handle(Key::Char('/'), 20, 80, 0);
    assert_eq!(app.text_prompt, Some(TextPrompt::SearchShelf));
    type_in(&mut app, "x");
    assert!(matches!(press_enter(&mut app), Action::Refresh));
    app.handle(Key::Char('r'), 20, 80, 0);
    assert_eq!(app.text_prompt, Some(TextPrompt::Rename));
    app.prompt_input = "a/b".into();
    match press_enter(&mut app) {
        Action::Rename(name) => assert_eq!(name, "ab"),
        other => panic!("{other:?}"),
    }
    assert!(matches!(app.handle(Key::Char('d'), 20, 80, 0), Action::Trash));
}

#[test]
fn shelves_are_searched_whatever_the_case() {
    let files = vec![file("/desk/Drafts/chapter.md"), file("/desk/Drafts/other.md")];
    let mut app = open("/desk/Notes/a.md", "");
    app.category_index = 1;
    app.shelf_search = "lightHOUSE".into();
    let notes = notes_for_category(&desk(), 1, &files);
    let texts: Vec<Option<String>> = notes
        .iter()
        .map(|note| match note.file_name().as_deref() {
            Some("chapter.md") => Some("a Lighthouse scene".to_string()),
            _ => Some("market scene".to_string()),
        })
        .collect();
    app.refresh_documents(notes, &texts);
    assert_eq!(shown(&app.documents), vec!["/desk/Drafts/chapter.md"]);
}

#[test]
fn one_key_ends_the_session_everywhere() {
    let quits = |app: &mut App| matches!(app.handle(Key::Quit, 20, 80, 0), Action::Quit);
    for screen in [Screen::Categories, Screen::Documents, Screen::Editor] {
        let mut app = open("/desk/Notes/a.md", "words");
        app.screen = screen;
        assert!(quits(&mut app));
        app.help_visible = true;
        assert!(quits(&mut app));
        app.start_prompt(TextPrompt::FindDraft);
        app.prompt_input = "half".into();
        assert!(quits(&mut app));
        assert_eq!(app.document.as_string(), "words");
    }
    let mut app = open("/desk/Notes/a.md", "");
    app.category_index = SECRET_CATEGORY_INDEX;
    app.begin_secret_unlock(true);
    assert_eq!(app.lock_prompt, Some(LockPrompt::Unlock));
    assert!(quits(&mut app));
    for key in [Key::Escape, Key::Browser, Key::Enter, Key::Save, Key::Help, Key::Char('q')] {
        let mut app = open("/desk/Notes/a.md", "");
        app.screen = Screen::Editor;
        assert!(!matches!(app.handle(key, 20, 80, 0), Action::Quit));
    }
}

#[test]
fn the_next_match_is_found_and_the_first_after_the_last() {
    let mut app = open("/desk/Notes/a.md", "ink ink");
    app.screen = Screen::Editor;
    app.document.cursor = 0;
    app.find_query = "ink".into();
    app.find_next();
    assert_eq!(app.document.cursor, 4);
    assert_eq!(app.message, "found: ink");
    app.handle(Key::FindNext, 20, 80, 0);
    assert_eq!(app.document.cursor, 0);
    app.handle(Key::FindNext, 20, 80, 0);
    assert_eq!(app.document.cursor, 4);
    assert!(!app.document.dirty);
}

#[test]
fn a_question_finds_the_match_under_the_cursor() {
    let mut app = open("/desk/Notes/a.md", "ink ink");
    app.screen = Screen::Editor;
    app.document.cursor = 0;
    app.handle(Key::Search, 20, 80, 0);
    type_in(&mut app, "ink");
    press_enter(&mut app);
    assert_eq!(app.document.cursor, 0);
    assert_eq!(app.message, "found: ink");
}

#[test]
fn a_match_around_the_cursor_is_found() {
    let mut app = open("/desk/Notes/a.md", "abcd");
    app.screen = Screen::Editor;
    app.document.cursor = 2;
    app.find_query = "bc".into();
    app.find_next();
    assert_eq!(app.document.cursor, 1);
    assert_eq!(app.message, "found: bc");
    app.find_next();
    assert_eq!(app.document.cursor, 1);
    app.find_query = "bd".into();
    app.find_next();
    assert_eq!(app.document.cursor, 1);
    assert_eq!(app.message, "not found: bd");
}

#[test]
fn the_key_is_gone_after_a_secret_reference() {
    for key in [Key::Escape, Key::Browser] {
        let mut app = open("/desk/Notes/a.md", "words");
        app.category_index = SECRET_CATEGORY_INDEX;
        app.unlocked([3; 32]);
        app.open_category(vec![place("/desk/Secret Thoughts/a.md")], &vec![None]);
        assert!(matches!(app.handle(Key::Char('v'), 20, 80, 0), Action::SelectReference));
        app.open_reference(place("/desk/Secret Thoughts/a.md"), "beside");
        assert_eq!(app.screen, Screen::Editor);
        assert!(matches!(app.handle(key, 20, 80, 0), Action::Continue));
        assert_eq!(app.screen, Screen::Categories);
        assert!(app.secret_key.is_none());
        assert!(!app.secret_unlocked);
        assert_eq!(app.reference_text.iter().collect::<String>(), "beside");
        assert!(app.reference_path.is_some());
        assert!(app.split_visible);
        assert_eq!(app.document.as_string(), "words");
    }
}

#[test]
fn an_ordinary_reference_stays_beside_the_page() {
    let mut app = open("/desk/Notes/a.md", "words");
    app.open_reference(place("/desk/Notes/b.md"), "beside");
    app.handle(Key::Browser, 20, 80, 0);
    assert_eq!(app.screen, Screen::Categories);
    assert_eq!(app.reference_text.iter().collect::<String>(), "beside");
    assert!(app.reference_path.is_some());
    assert!(app.split_visible);
}

#[test]
fn help_and_turning_work_on_the_lists_too() {
    for screen in [Screen::Categories, Screen::Documents] {
        let mut app = open("/desk/Notes/a.md", "");
        app.screen = screen;
        let start = app.rotation;
        assert!(matches!(app.handle(Key::Rotate, 20, 80, 0), Action::StoreDisplay(false)));
        assert_eq!(app.rotation, (start + 1) % 4);
        assert_eq!(app.screen, screen);
        assert!(matches!(app.handle(Key::Help, 20, 80, 0), Action::Continue));
        assert!(app.help_visible);
        app.handle(Key::Down, 20, 80, 0);
        assert_eq!(app.category_index, 0);
        app.handle(Key::Help, 20, 80, 0);
        assert!(!app.help_visible);
        assert_eq!(app.screen, screen);
    }
}

#[test]
fn a_page_of_any_height_is_turned() {
    let mut app = open("/desk/Notes/a.md", "one\ntwo\nthree");
    app.screen = Screen::Editor;
    app.document.cursor = 0;
    app.handle(Key::PageDown, usize::MAX, 80, 0);
    assert_eq!(app.document.cursor, 8);
    app.handle(Key::PageUp, usize::MAX, 80, 0);
    assert_eq!(app.document.cursor, 0);
}

#[test]
fn any_keys_keep_the_display_in_its_bounds() {
    let mut app = open("/desk/Notes/a.md", "one two");
    app.documents = vec![place("/desk/Notes/a.md"), place("/desk/Notes/b.md")];
    let keys = [
        Key::Rotate, Key::Larger, Key::Theme, Key::Down, Key::Enter, Key::Help, Key::Escape,
        Key::Browser, Key::Smaller, Key::Up, Key::Search, Key::Char('m'), Key::PageDown,
    ];
    for round in 0..400 {
        app.handle(keys[(round * 7 + round / 5) % keys.len()], 20, 80, 0);
        assert!(app.rotation < 4 && app.theme < 3);
        assert!(-8 <= app.zoom && app.zoom <= 5);
        assert!(app.category_index < 9);
        assert!(app.document_index == 0 || app.document_index < app.documents.len());
    }
}

#[test]
fn only_a_changed_page_is_written_and_kept() {
    let mut app = open("/desk/Notes/a.md", "first");
    assert!(app.page_to_save().unwrap().is_none());
    assert!(app.version_to_keep(Some(b"older".to_vec())).unwrap().is_none());
    app.screen = Screen::Editor;
    type_in(&mut app, "!");
    assert_eq!(app.page_to_save().unwrap().unwrap(), app.document.as_string().as_bytes());
    assert_eq!(app.version_to_keep(Some(b"first".to_vec())).unwrap().unwrap(), b"first");
    let same = app.document.as_string().into_bytes();
    assert!(app.version_to_keep(Some(same)).unwrap().is_none());
    assert!(app.version_to_keep(None).unwrap().is_none());

    let mut app = open("/desk/Secret Thoughts/a.md", "");
    app.document.insert('x');
    assert_eq!(app.page_to_save().unwrap_err().fault, Fault::Locked);
    assert_eq!(app.version_to_keep(Some(magic())).unwrap_err().fault, Fault::Locked);
    app.unlocked([4; 32]);
    assert_eq!(app.version_to_keep(Some(magic())).unwrap_err().fault, Fault::Truncated);
    assert!(app.page_to_save().unwrap().unwrap().starts_with(&magic()));
}

#[test]
fn small_decisions_are_made_in_one_place() {
    assert!(begins_with_page(true, false) && begins_with_page(false, true));
    assert!(!begins_with_page(false, false));
    assert_eq!(notes_directory(&desk()).show(), "/desk/Notes");
    assert_eq!(note_file_name("chapter"), "chapter.md");
    assert_eq!(project_message("Sea"), "book: Sea");
    assert_eq!(chapter_message("One"), "chapter: One");
}

#[test]
fn the_display_changes_while_something_is_asked() {
    let changes = |app: &mut App| {
        let (theme, rotation, zoom) = (app.theme, app.rotation, app.zoom);
        assert!(matches!(app.handle(Key::Theme, 20, 80, 0), Action::StoreDisplay(true)));
        assert_eq!(app.theme, (theme + 1) % 3);
        assert!(matches!(app.handle(Key::Rotate, 20, 80, 0), Action::StoreDisplay(false)));
        assert_eq!(app.rotation, (rotation + 1) % 4);
        assert!(matches!(app.handle(Key::Larger, 20, 80, 0), Action::StoreDisplay(false)));
        assert_eq!(app.zoom, zoom + 1);
        assert!(matches!(app.handle(Key::Smaller, 20, 80, 0), Action::StoreDisplay(false)));
        assert_eq!(app.zoom, zoom);
    };
    for screen in [Screen::Categories, Screen::Documents, Screen::Editor] {
        let mut app = open("/desk/Notes/a.md", "words");
        app.screen = screen;
        app.start_prompt(TextPrompt::FindDraft);
        app.prompt_input = "half".into();
        changes(&mut app);
        assert_eq!(app.text_prompt, Some(TextPrompt::FindDraft));
        assert_eq!(app.prompt_input, "half");
        app.text_prompt = None;
        app.help_visible = true;
        changes(&mut app);
        assert!(app.help_visible);
        assert_eq!(app.screen, screen);
    }
    let mut app = open("/desk/Notes/a.md", "");
    app.category_index = SECRET_CATEGORY_INDEX;
    app.begin_secret_unlock(true);
    app.password_input = "half".into();
    changes(&mut app);
    assert_eq!(app.lock_prompt, Some(LockPrompt::Unlock));
    assert_eq!(app.password_input, "half");
}

#[test]
fn help_opens_over_a_question_and_gives_it_back() {
    for close in [Key::Help, Key::Escape] {
        let mut app = open("/desk/Notes/a.md", "words");
        app.screen = Screen::Editor;
        app.start_prompt(TextPrompt::FindDraft);
        type_in(&mut app, "wor");
        assert!(matches!(app.handle(Key::Help, 20, 80, 0), Action::Continue));
        assert!(app.help_visible);
        app.handle(Key::Char('x'), 20, 80, 0);
        app.handle(Key::Enter, 20, 80, 0);
        assert_eq!(app.prompt_input, "wor");
        app.handle(close, 20, 80, 0);
        assert!(!app.help_visible);
        assert_eq!(app.text_prompt, Some(TextPrompt::FindDraft));
        press_enter(&mut app);
        assert_eq!(app.message, "found: wor");
    }
}
