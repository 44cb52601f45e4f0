use quietwrite::app::{App, LockPrompt, Screen, TextPrompt};
use quietwrite::framebuffer::{FontMeasures, Framebuffer, Layout};
use quietwrite::page::printable_row;
use quietwrite::path::NotePath;
use quietwrite::scene::{lock_title, prompt_title, DrawOp};
use quietwrite::shelf::{PROJECTS_CATEGORY_INDEX, SECRET_CATEGORY_INDEX};
use quietwrite::status::{blank_prompt, file_name_or, info_at};
use quietwrite::theme::palette;
use quietwrite::tui::{
    arrange_panes, editor_panes, foot_sizes, info_sizes, list_sizes, middle_sizes, pane_sizes, Area,
    PartSize,
};

fn place(path: &str) -> NotePath {
    NotePath {
        root: "/".into(),
        parts: path.split('/').filter(|part| !part.is_empty()).map(String::from).collect(),
    }
}

fn open(contents: &str) -> App {
    App::open(
        place("/desk"),
        place("/desk/Notes/page.md"),
        contents.into(),
        None,
        None,
        Vec::new(),
        true,
        0,
    )
}

fn layout() -> Layout {
    Layout {
        columns: 40,
        content_rows: 10,
        cell_width: 10,
        line_height: 20,
        margin_x: 12,
        margin_y: 8,
        logical_width: 424,
        logical_height: 256,
        ascent: 15,
    }
}

fn texts(ops: &[DrawOp]) -> Vec<String> {
    ops.iter()
        .filter_map(|op| match op {
            DrawOp::Text { text, .. } => Some(text.clone()),
            _ => None,
        })
        .collect()
}

#[test]
fn status_lines_count_words_and_minutes() {
    let mut app = open("three little words");
    assert_eq!(app.plain_status_text(), " page.md  •  3 words  •  18 chars  •  saved  •  fresh page ");
    assert_eq!(app.screen_status_text(35), " ✦ 3w · 18c · fresh page ");
    assert_eq!(app.screen_status_text(36), " ✦ page.md · 3 words · 18 chars · fresh page ");
    app.document.insert(' ');
    app.document.insert('x');
    app.word_target = Some(500);
    app.sprint_started = Some(60_000);
    assert_eq!(
        app.full_status_text(4 * 60_000 + 59_999),
        " Notes / page.md  •  4 words / 20 chars  •  +1 in 4m • target 500 • sprint 22m  •  writing "
    );
    assert_eq!(app.screen_status_text(10), " ✦ 4w · 20c · making magic ");
}

#[test]
fn the_bar_names_time_version_and_network() {
    assert_eq!(info_at("09:05", 2), "09:05  ·  v0.10.0  ·  ● online");
    assert_eq!(info_at("23:59", 1), "23:59  ·  v0.10.0  ·  ○ offline");
    assert_ne!(info_at("23:59", 0), info_at("23:59", 1));
}

#[test]
fn names_stand_in_for_missing_ones() {
    assert_eq!(file_name_or(&place("/a/b.md"), "x"), "b.md");
    assert_eq!(file_name_or(&place("/"), "x"), "x");
    assert!(!blank_prompt(&place("/desk/Poems/a.md")).is_empty());
    assert_eq!(prompt_title(TextPrompt::NewChapter), "New chapter");
    assert_ne!(lock_title(LockPrompt::Create), lock_title(LockPrompt::Unlock));
}

#[test]
fn a_page_follows_its_cursor() {
    let mut app = open("a\nb\nc\nd\ne");
    let page = app.follow_cursor(10, 3);
    assert_eq!((page.row, page.column), (4, 1));
    assert_eq!(app.scroll, 2);
    assert_eq!(app.lines_in_sight(&page, 10, 3), vec!["c", "d", "e"]);
    app.document.cursor = 0;
    let page = app.follow_cursor(10, 3);
    assert_eq!(app.scroll, 0);
    assert_eq!(app.lines_in_sight(&page, 10, 2), vec!["a", "b"]);
    let row: Vec<char> = "a\tb\u{7}".chars().collect();
    assert_eq!(printable_row(&row, 0, 4).iter().collect::<String>(), "a\tb");
}

#[test]
fn a_plain_terminal_shows_page_status_and_cursor() {
    let mut app = open("one\n\ttwo");
    let frame = app.render_terminal(30, 6);
    assert_eq!(
        frame,
        "\x1b[H\x1b[0m\x1b[2K one\r\n\x1b[2K     two\r\n\x1b[2K \r\n\x1b[2K \r\n\x1b[2K\x1b[7m page.md  •  2 words  •  8 cha\x1b[0m\r\n\x1b[2K F1 Help  ·  F5 Theme  ·  F6 R\x1b[2;9H\x1b[?25h"
    );
    app.help_visible = true;
    let help = app.render_terminal(80, 3);
    assert_eq!(help, "\x1b[H\x1b[2J\x1b[?25lQuietWrite keys\r\n\r\nCtrl+S  Save\r\n");
}

#[test]
fn the_screen_is_drawn_in_the_colours_of_the_theme() {
    let mut app = open("hello");
    let colors = palette(app.theme);
    let ops = app.draw_screen(layout(), "09:05");
    assert!(matches!(ops[0], DrawOp::Clear(color) if color == colors.background));
    let words = texts(&ops);
    assert!(words.contains(&"hello".to_string()));
    assert!(words.iter().any(|line| line.contains("page.md")));
    assert!(words.last().unwrap().ends_with("09:05"));
    assert_eq!(app.scene_zoom(), app.zoom);
    let live = texts(&app.render_framebuffer(layout()));
    assert_eq!(live.len(), words.len());
}

#[test]
fn prompts_lists_and_help_are_drawn() {
    let mut app = open("");
    app.start_prompt(TextPrompt::FindDraft);
    app.prompt_input = "que".into();
    let words = texts(&app.draw_screen(layout(), ""));
    assert_eq!(words, vec!["Find in draft", "que_", "Enter confirm · F2 cancel"]);
    assert_eq!(app.scene_zoom(), -3);
    app.text_prompt = None;

    app.screen = Screen::Categories;
    assert_eq!(app.list_heading(), "Choose a shelf");
    assert_eq!(app.entries().len(), 9);
    let ops = app.draw_screen(layout(), "");
    let words = texts(&ops);
    assert_eq!(words[0], "QuietWrite");
    assert_eq!(words[2], "› Notes");
    assert_eq!(words[3], "  Drafts");
    assert!(ops.iter().any(|op| matches!(op, DrawOp::Rect { x: 6, y: 88, width: 412, height: 20, .. })));
    app.lock_prompt = Some(LockPrompt::Unlock);
    app.password_input = "abc".into();
    assert!(texts(&app.draw_screen(layout(), "")).contains(&"***".to_string()));
    app.lock_prompt = None;

    app.screen = Screen::Documents;
    assert_eq!(app.entries(), vec!["No writing yet — Enter creates one"]);
    app.documents = vec![place("/desk/Notes/one.md"), place("/desk/Notes/two.md")];
    app.document_index = 1;
    assert_eq!(app.entries(), vec!["one", "two"]);
    assert_eq!(app.chosen(), 1);

    app.screen = Screen::Editor;
    app.help_visible = true;
    assert_eq!(app.scene_zoom(), -4);
    assert!(texts(&app.draw_screen(layout(), "")).contains(&"F6       Rotate screen".to_string()));
}

#[test]
fn terminals_are_divided_into_panes() {
    let area = Area { x: 0, y: 0, width: 100, height: 30 };
    let panes = editor_panes(area, false, false);
    assert_eq!(panes.editor, Area { x: 0, y: 0, width: 100, height: 28 });
    assert_eq!(panes.status, Area { x: 0, y: 28, width: 100, height: 1 });
    assert_eq!(panes.info, Area { x: 0, y: 29, width: 100, height: 1 });
    let panes = editor_panes(area, true, true);
    assert_eq!(panes.outline, Some(Area { x: 0, y: 0, width: 24, height: 28 }));
    assert_eq!(panes.editor, Area { x: 24, y: 0, width: 38, height: 28 });
    assert_eq!(panes.reference, Some(Area { x: 62, y: 0, width: 38, height: 28 }));
    let panes = editor_panes(area, false, true);
    assert_eq!(panes.editor.width, 50);
    assert_eq!(panes.reference.unwrap().x, 50);
    let panes = editor_panes(area, true, false);
    assert_eq!(panes.outline.unwrap().width, 28);
}

#[test]
fn panes_follow_their_shares_in_every_terminal() {
    for width in 0..90_u16 {
        for (outline, split, ends) in [
            (true, true, vec![24, 62, 100]),
            (true, false, vec![28, 100]),
            (false, true, vec![50, 100]),
        ] {
            let area = Area { x: 3, y: 2, width, height: 3 + width % 7 };
            let panes = editor_panes(area, outline, split);
            let rows = area.height;
            assert_eq!(panes.status, Area { y: 2 + rows - 2, height: 1, ..area });
            assert_eq!(panes.info, Area { y: 2 + rows - 1, height: 1, ..area });
            let mut from = 0;
            let mut parts = Vec::new();
            for end in ends {
                let (x, wide) = between(3, width, from, end);
                parts.push(Area { x, width: wide, y: 2, height: rows - 2 });
                from = end;
            }
            assert_eq!(panes.outline, if outline { Some(parts[0]) } else { None });
            assert_eq!(panes.editor, parts[usize::from(outline)]);
            assert_eq!(panes.reference, if split { parts.last().copied() } else { None });
        }
    }
}

#[test]
fn lists_lie_between_title_and_foot() {
    let mut app = open("");
    app.screen = Screen::Categories;
    for height in 8..60_u16 {
        let area = Area { x: 4, y: 1, width: 70, height };
        let scene = app.draw_tui(area, 0);
        let browser = scene.browser.unwrap();
        assert_eq!(browser.title_area, Area { height: 3, ..area });
        assert_eq!(browser.list_area, Area { y: 4, height: height - 5, ..area });
        assert_eq!(scene.info.keys_area.y, 1 + height - 2);
        assert_eq!(scene.info.keys_area.height, 2);
        assert_eq!(scene.info.bar_area.y, 1 + height - 2);
        assert_eq!(scene.info.bar_area.height, 2);
    }
}

#[test]
fn the_bar_is_as_wide_as_its_text() {
    let mut app = open("");
    for screen in [Screen::Editor, Screen::Categories] {
        app.screen = screen;
        for width in 0..80_u16 {
            let scene = app.draw_tui(Area { x: 5, y: 0, width, height: 20 }, 0);
            let bar = scene.info.bar.chars().count() as u16;
            let keys = if bar < width { width - bar } else { width.min(1) };
            assert_eq!((scene.info.keys_area.x, scene.info.keys_area.width), (5, keys));
            assert_eq!(scene.info.bar_area.x, 5 + keys);
            assert_eq!(scene.info.bar_area.width, width - keys);
        }
    }
}

#[test]
fn help_is_drawn_over_lists_and_questions() {
    let mut app = open("");
    app.start_prompt(TextPrompt::FindDraft);
    app.help_visible = true;
    assert_eq!(app.scene_zoom(), -4);
    assert!(texts(&app.draw_screen(layout(), "")).contains(&"F6       Rotate screen".to_string()));
    app.text_prompt = None;
    app.screen = Screen::Documents;
    let area = Area { x: 0, y: 0, width: 80, height: 24 };
    let scene = app.draw_tui(area, 0);
    assert!(scene.browser.is_some());
    let help = scene.help.unwrap();
    assert_eq!(help.title, " Help ");
    assert_eq!(help.area, centered(area, 64, 70));
    assert_eq!(app.scene_zoom(), -4);
    assert!(texts(&app.draw_screen(layout(), "")).contains(&"F6       Rotate screen".to_string()));
}

/// The cells between two shares of a side.
fn between(start: u16, length: u16, from: u32, to: u32) -> (u16, u16) {
    let shared = u32::from(length.min(65535 - start));
    let cell = |share: u32| ((100 * u32::from(start) + share * shared + 50) / 100) as u16;
    (cell(from), cell(to) - cell(from))
}

fn centered(area: Area, width: u32, height: u32) -> Area {
    let above = (100 - height) / 2;
    let beside = (100 - width) / 2;
    let (y, tall) = between(area.y, area.height, above, above + height);
    let (x, wide) = between(area.x, area.width, beside, beside + width);
    Area { x, y, width: wide, height: tall }
}

#[test]
fn windows_lie_in_the_middle_of_every_terminal() {
    let mut app = open("");
    app.start_prompt(TextPrompt::FindDraft);
    app.help_visible = true;
    let mut areas: Vec<Area> =
        (0..160).map(|k| Area { x: 0, y: 0, width: k, height: 160 - k }).collect();
    areas.push(Area { x: 7, y: 3, width: 81, height: 25 });
    areas.push(Area { x: 65000, y: 65100, width: 535, height: 435 });
    areas.push(Area { x: 65000, y: 64000, width: 1000, height: 2000 });
    areas.push(Area { x: 0, y: 0, width: 65535, height: 65535 });
    for area in areas {
        let scene = app.draw_tui(area, 0);
        assert_eq!(scene.question.unwrap().area, centered(area, 64, 22), "{area:?}");
        assert_eq!(scene.help.unwrap().area, centered(area, 64, 70), "{area:?}");
    }
    app.screen = Screen::Categories;
    app.lock_prompt = Some(LockPrompt::Unlock);
    for k in 0..120 {
        let area = Area { x: 0, y: 0, width: 120 - k, height: k };
        let scene = app.draw_tui(area, 0);
        assert_eq!(scene.password.unwrap().area, centered(area, 60, 35), "{area:?}");
    }
}

#[test]
fn divisions_are_asked_for_by_size() {
    assert_eq!(
        foot_sizes(),
        vec![PartSize::Min(1), PartSize::Length(1), PartSize::Length(1)]
    );
    assert_eq!(
        list_sizes(),
        vec![PartSize::Length(3), PartSize::Min(3), PartSize::Length(2)]
    );
    assert_eq!(
        middle_sizes(35),
        vec![PartSize::Percentage(32), PartSize::Percentage(35), PartSize::Min(0)]
    );
    assert_eq!(
        middle_sizes(101),
        vec![PartSize::Percentage(0), PartSize::Percentage(101), PartSize::Min(0)]
    );
    assert_eq!(pane_sizes(true, false).len(), 2);
    assert_eq!(info_sizes("● on"), vec![PartSize::Min(1), PartSize::Length(4)]);
    let area = |x: u16| Area { x, y: 0, width: 1, height: 1 };
    let rows = vec![area(1), area(2), area(3)];
    let panes = arrange_panes(&rows, &vec![area(7), area(8)], true, false);
    assert_eq!((panes.outline, panes.editor), (Some(area(7)), area(8)));
    assert_eq!((panes.status, panes.info, panes.reference), (area(2), area(3), None));
}

#[test]
fn the_terminal_shows_editor_outline_and_reference() {
    let mut app = open("# One\ntext\n## Two\nmore");
    app.outline_visible = true;
    app.split_visible = true;
    app.open_reference(place("/desk/Notes/ref.md"), "beside");
    let scene = app.draw_tui(Area { x: 0, y: 0, width: 100, height: 30 }, 0);
    let editor = scene.editor.unwrap();
    assert_eq!(editor.outline.unwrap(), vec!["  One", "›   Two"]);
    let (lines, title) = editor.reference.unwrap();
    assert_eq!(lines, vec!["beside"]);
    assert_eq!(title, " Reference: ref.md ");
    assert_eq!(editor.lines, vec!["# One", "text", "## Two", "more"]);
    assert_eq!(editor.cursor, Some((24 + 2 + 4, 3)));
    assert!(editor.status.contains("page.md"));
    assert!(editor.blank.is_none());
    assert!(scene.info.keys.contains("F9 outline"));
    assert!(scene.info.bar.contains("v0.10.0"));
    assert!(scene.help.is_none() && scene.browser.is_none() && scene.question.is_none());
    app.help_visible = true;
    app.start_prompt(TextPrompt::WordTarget);
    let scene = app.draw_tui(Area { x: 0, y: 0, width: 100, height: 30 }, 0);
    assert_eq!(scene.help.unwrap().title, " Help ");
    let question = scene.question.unwrap();
    assert_eq!(question.title, " Session word target ");
    assert_eq!(question.area.width, 64);
    assert!(scene.editor.unwrap().cursor.is_none());
}

#[test]
fn the_terminal_shows_lists_and_passwords() {
    let mut app = open("");
    app.screen = Screen::Categories;
    app.category_index = SECRET_CATEGORY_INDEX;
    app.lock_prompt = Some(LockPrompt::Create);
    app.password_input = "äb".into();
    let scene = app.draw_tui(Area { x: 0, y: 0, width: 80, height: 24 }, 0);
    let browser = scene.browser.unwrap();
    assert_eq!(browser.title, "Choose a shelf");
    assert_eq!(browser.entries.len(), 9);
    assert_eq!(browser.entries[0], vec!["  NOTES", ""]);
    assert_eq!(browser.entries[SECRET_CATEGORY_INDEX], vec!["  SECRET THOUGHTS", ""]);
    assert_eq!(browser.selected, SECRET_CATEGORY_INDEX);
    assert_eq!(browser.title_area.height, 3);
    let popup = scene.password.unwrap();
    assert_eq!(popup.lines[1], "••");
    assert!(scene.info.keys.contains("unlock"));
    app.lock_prompt = None;
    app.screen = Screen::Documents;
    app.category_index = PROJECTS_CATEGORY_INDEX;
    app.documents = vec![place("/desk/Projects/Book/10-one.md")];
    assert!(app.browser_footer().contains("e export"));
    assert_eq!(app.entry_texts().len(), 1);
    assert!(app.entry_texts()[0].concat().contains("Book/10-one"));
}

#[test]
fn layouts_measure_the_page() {
    let field = |offset: u32| quietwrite::framebuffer::Bitfield { offset, length: 8 };
    let format = quietwrite::framebuffer::ScreenFormat {
        width: 800,
        height: 480,
        stride: 3200,
        bytes_per_pixel: 4,
        red: field(16),
        green: field(8),
        blue: field(0),
        transp: field(24),
        big_endian: false,
    };
    let screen = Framebuffer::new(format, Vec::new()).unwrap();
    let measures = FontMeasures { line_size: 46, cell_width: 24, ascent: 37 };
    let flat = screen.layout(0, measures);
    assert_eq!(
        flat,
        Layout {
            columns: 31,
            content_rows: 7,
            cell_width: 24,
            line_height: 48,
            margin_x: 25,
            margin_y: 12,
            logical_width: 800,
            logical_height: 480,
            ascent: 37,
        }
    );
    let turned = screen.layout(3, measures);
    assert_eq!((turned.logical_width, turned.logical_height), (480, 800));
    assert_eq!((turned.columns, turned.content_rows), (18, 13));
}
