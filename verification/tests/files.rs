use quietwrite::arguments::{complaint, parse_args, Argument, DirectoryChoice, Request};
use quietwrite::book::{book_page, book_title, chapter_text, html_escape, join_chapters, EXPORT_NOTE};
use quietwrite::config::{
    cursor_state_text, display_config_text, pins_text, read_cursor_state, read_display_config,
    read_pins, DisplayConfig,
};
use quietwrite::path::{file_extension, file_stem, is_markdown_name, NotePath};
use quietwrite::shelf::{
    category_directory, category_name, collect_markdown, expired_versions, history_key, is_secret_path,
    latest_note, latest_version, new_note_path, notes_for_category, safe_filename, unique_destination,
    FileEntry, CATEGORY_COUNT, SECRET_CATEGORY_INDEX, TRASH_CATEGORY_INDEX, VERSION_LIMIT,
};

fn place(path: &str) -> NotePath {
    NotePath {
        root: "/".into(),
        parts: path.split('/').filter(|part| !part.is_empty()).map(String::from).collect(),
    }
}

fn entry(path: &str, modified: i128) -> FileEntry {
    FileEntry { place: place(path), is_file: true, modified }
}

fn words(texts: &[&str]) -> Vec<Argument> {
    texts
        .iter()
        .map(|text| Argument { text: Some(text.to_string()), has_parent: text.contains('/') })
        .collect()
}

#[test]
fn the_command_line_is_read() {
    assert_eq!(parse_args(&words(&["--help", "--bogus"])), Request::Help);
    assert_eq!(parse_args(&words(&["-n", "-V"])), Request::Version);
    assert_eq!(
        parse_args(&words(&["--new", "--dir", "here", "file.md"])),
        Request::Open { directory: DirectoryChoice::Named(2), file: Some(3), force_new: true }
    );
    assert_eq!(
        parse_args(&words(&["a/file.md"])),
        Request::Open { directory: DirectoryChoice::ParentOf(0), file: Some(0), force_new: false }
    );
    assert_eq!(
        parse_args(&Vec::new()),
        Request::Open { directory: DirectoryChoice::Usual, file: None, force_new: false }
    );
    let strange = vec![Argument { text: None, has_parent: false }];
    assert_eq!(
        parse_args(&strange),
        Request::Open { directory: DirectoryChoice::Usual, file: Some(0), force_new: false }
    );
}

#[test]
fn wrong_command_lines_are_complained_about() {
    let missing = words(&["--dir"]);
    assert_eq!(parse_args(&missing), Request::MissingDirectory);
    assert_eq!(complaint(Request::MissingDirectory, &missing).unwrap(), "--dir requires a directory");
    let unknown = words(&["--what"]);
    assert_eq!(parse_args(&unknown), Request::UnknownOption(0));
    assert!(complaint(Request::UnknownOption(0), &unknown).unwrap().contains("--what"));
    let many = words(&["a.md", "b.md"]);
    assert_eq!(parse_args(&many), Request::TooManyFiles);
    assert!(complaint(Request::TooManyFiles, &many).is_some());
    assert!(complaint(Request::Help, &many).is_none());
}

#[test]
fn display_settings_read_back_and_are_kept_in_bounds() {
    for rotation in 0..4 {
        for zoom in -8..6 {
            for theme in 0..3 {
                let config = DisplayConfig { rotation, zoom, theme };
                assert_eq!(read_display_config(Some(&display_config_text(config))), config);
            }
        }
    }
    let usual = read_display_config(None);
    assert_eq!(read_display_config(Some("garbage\nrotation\n")), usual);
    assert_eq!(usual, DisplayConfig { rotation: 0, zoom: -2, theme: 0 });
    assert_eq!(read_display_config(Some("zoom=x")).zoom, 0);
    let bounded = read_display_config(Some("zoom=99\nrotation=7\ntheme=9\n"));
    assert_eq!((bounded.zoom, bounded.rotation, bounded.theme), (5, 3, 0));
}

#[test]
fn cursors_read_back_for_their_note_only() {
    let state = cursor_state_text("/desk/a.md", 41);
    assert_eq!(state, "/desk/a.md\n41\n");
    assert_eq!(read_cursor_state(&state, "/desk/a.md"), Some(41));
    assert_eq!(read_cursor_state(&state, "/desk/b.md"), None);
    assert_eq!(read_cursor_state("/desk/a.md\nx\n", "/desk/a.md"), None);
    assert_eq!(read_cursor_state("", ""), None);
}

#[test]
fn pins_read_back_in_order() {
    let names = vec!["/b.md".to_string(), "/a.md".to_string()];
    assert_eq!(pins_text(names), "/a.md\n/b.md");
    assert_eq!(read_pins("/a.md\r\n/b.md\n"), vec!["/a.md", "/b.md"]);
    assert!(read_pins("").is_empty());
}

#[test]
fn names_have_stems_and_extensions() {
    for name in ["note.md", ".hidden", "a.b.c", "..", "plain", "dot.", "x.MD"] {
        let path = std::path::Path::new(name);
        let stem = path.file_stem().map(|stem| stem.to_str().unwrap().to_string());
        assert_eq!(file_stem(name), stem.unwrap_or_else(|| name.into()), "{name}");
        let extension = path.extension().map(|end| end.to_str().unwrap().to_string());
        assert_eq!(file_extension(name), extension, "{name}");
    }
    assert!(is_markdown_name("note.md"));
    assert!(!is_markdown_name("note.MD"));
    assert!(!is_markdown_name("md"));
}

#[test]
fn paths_are_joined_and_compared() {
    let note = place("/desk").join("Notes").join("a.md");
    assert_eq!(note.show(), "/desk/Notes/a.md");
    assert!(note.starts_with(&place("/desk")));
    assert!(!place("/desks").starts_with(&place("/desk")));
    assert_eq!(note.parent().unwrap().show(), "/desk/Notes");
    assert!(place("/").parent().is_none());
    assert_eq!(note.with_file_name("b.md").show(), "/desk/Notes/b.md");
    assert!(note.copy().same(&note));
    assert!(note.is_markdown());
}

#[test]
fn shelves_have_their_folders() {
    assert_eq!(CATEGORY_COUNT, 9);
    assert_eq!(category_name(0), "Notes");
    assert_eq!(category_name(SECRET_CATEGORY_INDEX), "Secret Thoughts");
    assert_eq!(category_directory(&place("/d"), 1).show(), "/d/Drafts");
    assert_eq!(
        category_directory(&place("/d"), TRASH_CATEGORY_INDEX).show(),
        "/d/.quietwrite/Trash"
    );
    assert!(is_secret_path(&place("/d"), &place("/d/Secret Thoughts/a.md")));
    assert!(!is_secret_path(&place("/d"), &place("/d/Notes/a.md")));
}

#[test]
fn file_names_are_made_safe() {
    assert_eq!(safe_filename("  A/b\\c:d  "), "Abcd");
    assert_eq!(safe_filename("../../etc"), "....etc");
    assert_eq!(safe_filename(" chapter.md.md "), "chapter");
    assert_eq!(safe_filename(": /"), "");
}

#[test]
fn history_is_named_after_the_note_and_bounded() {
    assert_eq!(history_key(&place("/d"), &place("/d/Notes/a.md")), "Notes_a.md");
    let names: Vec<String> = (100..130).map(|k| format!("{k}.md")).collect();
    let mut shuffled = names.clone();
    shuffled.reverse();
    assert_eq!(expired_versions(shuffled.clone()), names[..names.len() - VERSION_LIMIT].to_vec());
    assert!(expired_versions(names[..VERSION_LIMIT].to_vec()).is_empty());
    assert_eq!(latest_version(shuffled).as_deref(), Some("129.md"));
    assert_eq!(latest_version(Vec::new()), None);
}

#[test]
fn attempts_lead_to_different_places() {
    let folder = place("/d/Archive");
    assert_eq!(unique_destination(&folder, "a.md", 0).show(), "/d/Archive/a.md");
    assert_eq!(unique_destination(&folder, "a.md", 1).show(), "/d/Archive/a-2.md");
    assert_eq!(unique_destination(&folder, "plain", 2).show(), "/d/Archive/plain-3.md");
    assert_eq!(new_note_path(&folder, 5, 0).show(), "/d/Archive/note-5.md");
    assert_eq!(new_note_path(&folder, 5, 3).show(), "/d/Archive/note-5-4.md");
}

#[test]
fn shelves_list_their_notes_newest_first() {
    let files = vec![
        entry("/d/Drafts/old.md", 1),
        entry("/d/Drafts/new.md", 3),
        entry("/d/Drafts/deep/inner.md", 9),
        entry("/d/Drafts/text.txt", 10),
        entry("/d/Notes/other.md", 2),
        FileEntry { place: place("/d/Drafts/folder.md"), is_file: false, modified: 20 },
    ];
    let drafts: Vec<String> =
        notes_for_category(&place("/d"), 1, &files).iter().map(|note| note.show()).collect();
    assert_eq!(drafts, vec!["/d/Drafts/new.md", "/d/Drafts/old.md"]);
    let inner = collect_markdown(&place("/d/Drafts"), true, &files);
    assert_eq!(inner.len(), 3);
    assert_eq!(latest_note(&place("/d"), &vec![entry("/d/a.md", 1), entry("/d/b.md", 2)])
        .unwrap()
        .show(), "/d/b.md");
    assert!(latest_note(&place("/d"), &Vec::new()).is_none());
}

#[test]
fn books_are_put_together() {
    assert_eq!(book_title(&place("/d/Projects/Night Train")), "Night Train");
    let joined = join_chapters(&vec!["# One\n".to_string(), "# Two".to_string()]);
    assert!(joined.find("# One").unwrap() < joined.find("# Two").unwrap());
    let page = book_page("A & B", "<h1>One</h1>");
    assert!(page.contains("<title>A &amp; B</title>"));
    assert!(page.contains("<h1>One</h1>"));
    assert_eq!(html_escape("<\"'&>"), "&lt;&quot;'&amp;&gt;");
    assert_eq!(chapter_text("Dawn"), "# Dawn\n\n");
    assert!(EXPORT_NOTE.contains("manuscript.html"));
}
