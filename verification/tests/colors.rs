use quietwrite::theme::{palette, themes};

fn relative_luminance(color: (u8, u8, u8)) -> f64 {
    let channel = |value: u8| {
        let value = f64::from(value) / 255.0;
        if value <= 0.04045 {
            value / 12.92
        } else {
            ((value + 0.055) / 1.055).powf(2.4)
        }
    };
    0.2126 * channel(color.0) + 0.7152 * channel(color.1) + 0.0722 * channel(color.2)
}

fn contrast_ratio(a: (u8, u8, u8), b: (u8, u8, u8)) -> f64 {
    let a = relative_luminance(a);
    let b = relative_luminance(b);
    let (bright, dark) = if a > b { (a, b) } else { (b, a) };
    (bright + 0.05) / (dark + 0.05)
}

#[test]
fn themes_keep_terminal_text_high_contrast() {
    for theme in themes() {
        for (role, color) in [
            ("foreground", theme.foreground),
            ("muted", theme.muted),
            ("accent", theme.accent),
        ] {
            let ratio = contrast_ratio(color, theme.background);
            assert!(
                ratio >= 7.0,
                "{} {role} contrast is only {ratio:.2}:1",
                theme.name
            );
        }
        let status_ratio = contrast_ratio(theme.foreground, theme.status);
        assert!(
            status_ratio >= 7.0,
            "{} status contrast is only {status_ratio:.2}:1",
            theme.name
        );
        let selection_ratio = contrast_ratio(theme.background, theme.foreground);
        assert!(
            selection_ratio >= 7.0,
            "{} selection contrast is only {selection_ratio:.2}:1",
            theme.name
        );
    }
}

#[test]
fn themes_include_exact_light_and_dark_modes() {
    let all = themes();
    assert_eq!(all.len(), 3);
    assert_eq!(all[2].name, "Moon Ink");
    assert!(all
        .iter()
        .any(|theme| { theme.background == (0, 0, 0) && theme.foreground == (255, 255, 255) }));
    assert!(all
        .iter()
        .any(|theme| { theme.background == (255, 255, 255) && theme.foreground == (0, 0, 0) }));
}

#[test]
fn palettes_begin_anew_past_the_last() {
    assert_eq!(palette(1).name, "Black on White");
    assert_eq!(palette(4).name, "Black on White");
    assert_eq!(palette(2).accent, (126, 200, 255));
}
