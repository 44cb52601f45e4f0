use quietwrite::document::{Document, UNDO_LIMIT};
use quietwrite::outline::{choose_heading, markdown_headings};
use quietwrite::wrap::{
    char_width, cursor_position, index_at_visual_column, truncate, two_sided_line, visible_width,
    wrapped_ranges,
};

fn chars(text: &str) -> Vec<char> {
    text.chars().collect()
}

#[test]
fn editing_and_movement_work() {
    let mut doc = Document::from_string("one\ntwo".into());
    doc.home();
    assert_eq!(doc.cursor, 4);
    doc.move_visual_rows(80, -1);
    assert_eq!(doc.cursor, 0);
    doc.end();
    assert_eq!(doc.cursor, 3);
    doc.move_visual_rows(80, 1);
    assert_eq!(doc.cursor, 7);
    doc.backspace();
    assert_eq!(doc.as_string(), "one\ntw");
    assert_eq!(doc.word_count(), 2);
    assert_eq!(doc.character_count(), 6);
}

#[test]
fn undo_and_redo_restore_text_and_cursor() {
    let mut document = Document::from_string("ink".into());
    document.insert('!');
    assert_eq!(document.as_string(), "ink!");
    assert!(document.undo());
    assert_eq!(document.as_string(), "ink");
    assert_eq!(document.cursor, 3);
    assert!(document.redo());
    assert_eq!(document.as_string(), "ink!");
}

#[test]
fn wrapping_preserves_every_character() {
    let chars: Vec<char> = "abcdef\ngh".chars().collect();
    let ranges = wrapped_ranges(&chars, 3);
    assert_eq!(ranges, vec![(0, 3), (3, 6), (7, 9)]);
    assert_eq!(cursor_position(&chars, &ranges, 3), (1, 0));
}

#[test]
fn markdown_outline_tracks_heading_levels_and_positions() {
    let text: Vec<char> = "# Novel\nopening\n## Chapter One\ntext\nnot # heading\n"
        .chars()
        .collect();
    let headings = markdown_headings(&text);
    assert_eq!(headings.len(), 2);
    assert_eq!(headings[0], (0, 1, "Novel".into()));
    assert_eq!(headings[1].1, 2);
    assert_eq!(headings[1].2, "Chapter One");
}

#[test]
fn arrows_move_across_soft_wrapped_rows() {
    let mut doc = Document::from_string("abcdefgh".into());
    doc.cursor = 6;
    doc.move_visual_rows(4, -1);
    assert_eq!(doc.cursor, 2);
    doc.move_visual_rows(4, 1);
    assert_eq!(doc.cursor, 6);
}

#[test]
fn history_is_bounded_and_new_edits_forget_what_was_undone() {
    let mut document = Document::from_string(String::new());
    for _ in 0..UNDO_LIMIT + 20 {
        document.insert('x');
    }
    assert_eq!(document.undo.len(), UNDO_LIMIT);
    let mut steps = 0;
    while document.undo() {
        steps += 1;
    }
    assert_eq!(steps, UNDO_LIMIT);
    assert_eq!(document.as_string(), "x".repeat(20));
    assert!(!document.undo());
    document.insert('y');
    assert!(!document.redo());
}

#[test]
fn typing_and_backspacing_cancel_out() {
    let mut document = Document::from_string("ab".into());
    document.left();
    document.insert('é');
    assert_eq!(document.as_string(), "aéb");
    document.backspace();
    assert_eq!(document.as_string(), "ab");
    assert_eq!(document.cursor, 1);
    document.insert('z');
    document.left();
    document.delete();
    assert_eq!(document.as_string(), "ab");
    assert_eq!(document.cursor, 1);
}

#[test]
fn edges_of_the_text_hold_the_cursor() {
    let mut document = Document::from_string("a".into());
    document.right();
    assert_eq!(document.cursor, 1);
    document.delete();
    assert_eq!(document.as_string(), "a");
    document.left();
    document.left();
    document.backspace();
    assert_eq!(document.cursor, 0);
    assert_eq!(document.as_string(), "a");
    assert!(!document.dirty);
    document.move_visual_rows(10, isize::MIN);
    assert_eq!(document.cursor, 0);
    document.move_visual_rows(10, isize::MAX);
    assert_eq!(document.cursor, 0);
}

#[test]
fn vertical_moves_keep_their_column_past_short_lines() {
    let mut document = Document::from_string("longer\nab\nlonger".into());
    document.cursor = 5;
    document.move_visual_rows(80, 1);
    assert_eq!(document.cursor, 9);
    document.move_visual_rows(80, 1);
    assert_eq!(document.cursor, 15);
    document.move_visual_rows(80, -2);
    assert_eq!(document.cursor, 5);
}

#[test]
fn widths_follow_tabs_controls_and_wide_characters() {
    assert_eq!(char_width('\t', 0), 4);
    assert_eq!(char_width('\t', 5), 3);
    assert_eq!(char_width('\u{7}', 3), 0);
    assert_eq!(char_width('漢', 0), 2);
    assert_eq!(char_width('😀', 0), 2);
    assert_eq!(char_width('é', 0), 1);
    assert_eq!(visible_width("a\tb漢"), 7);
    assert_eq!(wrapped_ranges(&chars("漢字ab"), 3), vec![(0, 1), (1, 3), (3, 4)]);
    assert_eq!(wrapped_ranges(&chars("漢字"), 1), vec![(0, 1), (1, 2)]);
    assert_eq!(wrapped_ranges(&chars(""), 5), vec![(0, 0)]);
    assert_eq!(wrapped_ranges(&chars("a\n"), 0), vec![(0, 1), (2, 2)]);
}

#[test]
fn rows_spell_the_text_again() {
    let text = chars("# One\n\n漢字 and some words\tthat wrap\nlast");
    for width in 1..12 {
        let rows = wrapped_ranges(&text, width);
        let mut spelled: Vec<char> = Vec::new();
        for (k, (start, end)) in rows.iter().enumerate() {
            spelled.extend_from_slice(&text[*start..*end]);
            let row: String = text[*start..*end].iter().collect();
            assert!(visible_width(&row) <= width || end - start == 1);
            if k + 1 < rows.len() && rows[k + 1].0 > *end {
                spelled.push('\n');
            }
        }
        assert_eq!(spelled, text);
    }
}

#[test]
fn columns_lead_back_to_places() {
    let text = chars("a\tbc");
    assert_eq!(index_at_visual_column(&text, 0, 4, 0), 0);
    assert_eq!(index_at_visual_column(&text, 0, 4, 3), 1);
    assert_eq!(index_at_visual_column(&text, 0, 4, 4), 2);
    assert_eq!(index_at_visual_column(&text, 0, 4, 99), 4);
}

#[test]
fn lines_are_cut_and_filled_to_their_width() {
    assert_eq!(truncate("hello", 3), "hel");
    assert_eq!(truncate("漢字", 3), "漢");
    assert_eq!(two_sided_line("left", "right", 12), "left   right");
    assert_eq!(two_sided_line("a long left side", "end", 8), "a lo end");
    assert_eq!(two_sided_line("left", "much too long", 4), "much");
    for width in 0..30 {
        assert_eq!(visible_width(&two_sided_line("漢 keys", "12:00 ●", width)), width);
    }
}

#[test]
fn headings_need_a_space_a_title_and_at_most_six_signs() {
    let text = chars("#one\n####### seven\n# \n###### six\n## two");
    let found = markdown_headings(&text);
    assert_eq!(found, vec![(22, 6, "six".to_string()), (33, 2, "two".to_string())]);
    assert_eq!(choose_heading(&found, 0, true), Some(0));
    assert_eq!(choose_heading(&found, 33, true), Some(0));
    assert_eq!(choose_heading(&found, 22, false), Some(1));
    assert_eq!(choose_heading(&Vec::new(), 0, true), None);
}

#[test]
fn word_counts_split_at_every_kind_of_space() {
    let document = Document::from_string(" one\u{a0}two\u{2003}three\n\tfour ".into());
    assert_eq!(document.word_count(), 4);
    assert_eq!(Document::from_string(" \n".into()).word_count(), 0);
}
