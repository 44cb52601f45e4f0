//! The colours of the desk.
use vstd::prelude::*;

verus! {

/// A colour: red, green, blue.
pub type Rgb = (u8, u8, u8);

/// The colours of one theme.
#[derive(Debug, Clone, Copy)]
pub struct ThemePalette {
    pub name: &'static str,
    pub background: Rgb,
    pub foreground: Rgb,
    pub muted: Rgb,
    pub accent: Rgb,
    pub status: Rgb,
}

/// How many themes there are.
pub const THEME_COUNT: u8 = 3;

/// The name of a theme.
pub open spec fn theme_name(index: int) -> Seq<char> {
    if index == 0 {
        "White on Black"@
    } else if index == 1 {
        "Black on White"@
    } else {
        "Moon Ink"@
    }
}

/// The colours of a theme: background, foreground, muted, accent, status.
pub open spec fn theme_colors(index: int) -> (Rgb, Rgb, Rgb, Rgb, Rgb) {
    if index == 0 {
        ((0, 0, 0), (255, 255, 255), (210, 210, 210), (255, 255, 255), (35, 35, 35))
    } else if index == 1 {
        ((255, 255, 255), (0, 0, 0), (55, 55, 55), (0, 55, 130), (225, 225, 225))
    } else {
        ((0, 0, 0), (255, 255, 255), (218, 224, 232), (126, 200, 255), (20, 43, 68))
    }
}

impl ThemePalette {
    pub open spec fn colors(self) -> (Rgb, Rgb, Rgb, Rgb, Rgb) {
        (self.background, self.foreground, self.muted, self.accent, self.status)
    }

    /// Whether this is the theme with an index.
    pub open spec fn is_theme(self, index: int) -> bool {
        self.name@ == theme_name(index) && self.colors() == theme_colors(index)
    }
}

/// The colours of the theme with an index; indices past the last begin anew.
pub fn palette(theme: u8) -> (palette: ThemePalette)
    ensures
        palette.is_theme(theme as int % THEME_COUNT as int),
{
    let index: u8 = theme % THEME_COUNT;
    if index == 0 {
        ThemePalette {
            name: "White on Black",
            background: (0, 0, 0),
            foreground: (255, 255, 255),
            muted: (210, 210, 210),
            accent: (255, 255, 255),
            status: (35, 35, 35),
        }
    } else if index == 1 {
        ThemePalette {
            name: "Black on White",
            background: (255, 255, 255),
            foreground: (0, 0, 0),
            muted: (55, 55, 55),
            accent: (0, 55, 130),
            status: (225, 225, 225),
        }
    } else {
        ThemePalette {
            name: "Moon Ink",
            background: (0, 0, 0),
            foreground: (255, 255, 255),
            muted: (218, 224, 232),
            accent: (126, 200, 255),
            status: (20, 43, 68),
        }
    }
}

/// All themes, in the order in which the theme key goes through them.
pub fn themes() -> (list: Vec<ThemePalette>)
    ensures
        list@.len() == THEME_COUNT,
        forall|i: int| 0 <= i < list@.len() ==> (#[trigger] list@[i]).is_theme(i),
{
    let mut list: Vec<ThemePalette> = Vec::new();
    let mut i: u8 = 0;
    while i < THEME_COUNT
        invariant
            i <= THEME_COUNT,
            list@.len() == i,
            forall|k: int| 0 <= k < list@.len() ==> (#[trigger] list@[k]).is_theme(k),
        decreases THEME_COUNT - i,
    {
        list.push(palette(i));
        i += 1;
    }
    list
}

/// Every theme can be read: its text is black on white or white on black, what is
/// muted stands out from the ground, the line of the status is nearer to the ground
/// than to the text, and no two themes are named or coloured alike. The first is
/// white on black and the second black on white, as they are named.
pub proof fn law_themes_can_be_read(index: int, other: int)
    requires
        0 <= index < THEME_COUNT,
        0 <= other < THEME_COUNT,
    ensures
        THEME_COUNT == 3,
        theme_name(0) == "White on Black"@,
        theme_name(1) == "Black on White"@,
        theme_name(2) == "Moon Ink"@,
        theme_colors(0).0 == (0u8, 0u8, 0u8) && theme_colors(0).1 == (255u8, 255u8, 255u8),
        theme_colors(1).0 == (255u8, 255u8, 255u8) && theme_colors(1).1 == (0u8, 0u8, 0u8),
        ({
            let (ground, front, muted, accent, status) = theme_colors(index);
            &&& ground.0 + front.0 == 255 && ground.1 + front.1 == 255 && ground.2 + front.2 == 255
            &&& ground.0 == ground.1 == ground.2
            &&& ground.0 == 0 ==> muted.0 >= 200 && muted.1 >= 200 && muted.2 >= 200 && status.0
                < 70 && status.1 < 70 && status.2 < 70 && accent.0 + accent.1 + accent.2 >= 500
            &&& ground.0 == 255 ==> muted.0 <= 60 && muted.1 <= 60 && muted.2 <= 60 && status.0
                > 200 && status.1 > 200 && status.2 > 200 && accent.0 + accent.1 + accent.2 <= 200
        }),
        index != other ==> theme_name(index) != theme_name(other) && theme_colors(index)
            != theme_colors(other),
{
    reveal_strlit("White on Black");
    reveal_strlit("Black on White");
    reveal_strlit("Moon Ink");
    assert("White on Black"@[0] == 'W' && "Black on White"@[0] == 'B' && "Moon Ink"@[0] == 'M');
}

/// The colours of each theme: its ground, its text, what is muted, its accent and
/// the line of the status. The first two are grey but for the accent of the second;
/// the third has the blue of the night.
pub proof fn law_themes_have_their_colours()
    ensures
        theme_colors(0) == (
            (0u8, 0u8, 0u8),
            (0xffu8, 0xffu8, 0xffu8),
            (0xd2u8, 0xd2u8, 0xd2u8),
            (0xffu8, 0xffu8, 0xffu8),
            (0x23u8, 0x23u8, 0x23u8),
        ),
        theme_colors(1) == (
            (0xffu8, 0xffu8, 0xffu8),
            (0u8, 0u8, 0u8),
            (0x37u8, 0x37u8, 0x37u8),
            (0u8, 0x37u8, 0x82u8),
            (0xe1u8, 0xe1u8, 0xe1u8),
        ),
        theme_colors(2) == (
            (0u8, 0u8, 0u8),
            (0xffu8, 0xffu8, 0xffu8),
            (0xdau8, 0xe0u8, 0xe8u8),
            (0x7eu8, 0xc8u8, 0xffu8),
            (0x14u8, 0x2bu8, 0x44u8),
        ),
{
}

} // verus!
