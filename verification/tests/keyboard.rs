use quietwrite::keys::{crossterm_key, decode_key, Key, KeyCode, KeyPress};

fn press(code: KeyCode, control: bool) -> Key {
    crossterm_key(KeyPress { code, control, released: false })
}

#[test]
fn key_decoder_handles_split_escape_sequence() {
    let mut bytes = vec![27, b'['];
    assert_eq!(decode_key(&mut bytes), None);
    bytes.push(b'A');
    assert_eq!(decode_key(&mut bytes), Some(Key::Up));
    assert!(bytes.is_empty());
}

#[test]
fn function_keys_control_display() {
    let mut bytes = b"\x1b[[A\x1b[15~\x1b[17~\x1b[18~\x1b[19~".to_vec();
    assert_eq!(decode_key(&mut bytes), Some(Key::Help));
    assert_eq!(decode_key(&mut bytes), Some(Key::Theme));
    assert_eq!(decode_key(&mut bytes), Some(Key::Rotate));
    assert_eq!(decode_key(&mut bytes), Some(Key::Larger));
    assert_eq!(decode_key(&mut bytes), Some(Key::Smaller));
    assert!(bytes.is_empty());
}

#[test]
fn control_arrows_navigate_headings_without_reserved_function_keys() {
    let mut bytes = b"\x1b[1;5A\x1b[1;5B".to_vec();
    assert_eq!(decode_key(&mut bytes), Some(Key::PreviousHeading));
    assert_eq!(decode_key(&mut bytes), Some(Key::NextHeading));
    assert!(bytes.is_empty());
    assert_eq!(press(KeyCode::Up, true), Key::PreviousHeading);
    assert_eq!(press(KeyCode::Down, true), Key::NextHeading);
}

#[test]
fn every_escape_sequence_is_read_whole_and_waited_for() {
    let table: Vec<(&[u8], Key)> = vec![
        (b"\x1b[A", Key::Up),
        (b"\x1b[B", Key::Down),
        (b"\x1b[1;5A", Key::PreviousHeading),
        (b"\x1b[1;5B", Key::NextHeading),
        (b"\x1b[5A", Key::PreviousHeading),
        (b"\x1b[5B", Key::NextHeading),
        (b"\x1b[C", Key::Right),
        (b"\x1b[D", Key::Left),
        (b"\x1b[H", Key::Home),
        (b"\x1b[F", Key::End),
        (b"\x1b[1~", Key::Home),
        (b"\x1b[4~", Key::End),
        (b"\x1b[3~", Key::Delete),
        (b"\x1b[5~", Key::PageUp),
        (b"\x1b[6~", Key::PageDown),
        (b"\x1bOP", Key::Help),
        (b"\x1b[11~", Key::Help),
        (b"\x1b[[A", Key::Help),
        (b"\x1bOQ", Key::Browser),
        (b"\x1b[12~", Key::Browser),
        (b"\x1bOR", Key::FindNext),
        (b"\x1b[13~", Key::FindNext),
        (b"\x1bOS", Key::Sprint),
        (b"\x1b[14~", Key::Sprint),
        (b"\x1b[15~", Key::Theme),
        (b"\x1b[[E", Key::Theme),
        (b"\x1b[17~", Key::Rotate),
        (b"\x1b[18~", Key::Larger),
        (b"\x1b[19~", Key::Smaller),
        (b"\x1b[20~", Key::Outline),
        (b"\x1b[21~", Key::SplitView),
    ];
    for (sequence, key) in table {
        let mut bytes = sequence.to_vec();
        bytes.push(b'z');
        assert_eq!(decode_key(&mut bytes), Some(key));
        assert_eq!(bytes, b"z");
        for count in 1..sequence.len() {
            let mut part = sequence[..count].to_vec();
            assert_eq!(decode_key(&mut part), None);
            assert_eq!(part, &sequence[..count]);
        }
    }
}

#[test]
fn control_bytes_and_characters_are_decoded() {
    let mut bytes = vec![17, 19, 14, 12, 26, 25, 18, 6, 7, 13, 10, 8, 127, 9, 1];
    let mut keys = Vec::new();
    while let Some(key) = decode_key(&mut bytes) {
        keys.push(key);
    }
    assert_eq!(
        keys,
        vec![
            Key::Quit,
            Key::Save,
            Key::New,
            Key::Redraw,
            Key::Undo,
            Key::Redo,
            Key::Restore,
            Key::Search,
            Key::Target,
            Key::Enter,
            Key::Enter,
            Key::Backspace,
            Key::Backspace,
            Key::Char('\t'),
            Key::Unknown,
        ]
    );
    let mut text = "aé漢😀".as_bytes().to_vec();
    for c in ['a', 'é', '漢', '😀'] {
        assert_eq!(decode_key(&mut text), Some(Key::Char(c)));
    }
    let mut split = vec![0xe6, 0xbc];
    assert_eq!(decode_key(&mut split), None);
    assert_eq!(split.len(), 2);
    let mut wrong = vec![0xe6, 0x41, 0x42, 0x43];
    assert_eq!(decode_key(&mut wrong), Some(Key::Unknown));
    assert_eq!(wrong, vec![0x43]);
    let mut stray = vec![0x80, 0x41];
    assert_eq!(decode_key(&mut stray), Some(Key::Unknown));
    assert_eq!(stray, vec![0x41]);
    let mut escape = vec![27, b'x'];
    assert_eq!(decode_key(&mut escape), Some(Key::Unknown));
    assert_eq!(escape, vec![b'x']);
    assert_eq!(decode_key(&mut Vec::new()), None);
}

#[test]
fn terminal_events_become_keys() {
    for (letter, key) in [
        ('q', Key::Quit),
        ('s', Key::Save),
        ('n', Key::New),
        ('o', Key::Browser),
        ('l', Key::Redraw),
        ('z', Key::Undo),
        ('y', Key::Redo),
        ('r', Key::Restore),
        ('f', Key::Search),
        ('g', Key::Target),
        ('k', Key::PreviousHeading),
        ('j', Key::NextHeading),
        ('x', Key::Unknown),
    ] {
        assert_eq!(press(KeyCode::Char(letter), true), key);
        assert_eq!(press(KeyCode::Char(letter), false), Key::Char(letter));
    }
    for (number, key) in [
        (1, Key::Help),
        (2, Key::Browser),
        (3, Key::FindNext),
        (4, Key::Sprint),
        (5, Key::Theme),
        (6, Key::Rotate),
        (7, Key::Larger),
        (8, Key::Smaller),
        (9, Key::Outline),
        (10, Key::SplitView),
        (11, Key::Unknown),
    ] {
        assert_eq!(press(KeyCode::F(number), false), key);
    }
    assert_eq!(press(KeyCode::Tab, false), Key::Char('\t'));
    assert_eq!(press(KeyCode::Esc, false), Key::Escape);
    assert_eq!(press(KeyCode::Other, false), Key::Unknown);
    let released = KeyPress { code: KeyCode::Enter, control: false, released: true };
    assert_eq!(crossterm_key(released), Key::Unknown);
}
