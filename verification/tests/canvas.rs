use quietwrite::framebuffer::{channel, target_rows, Bitfield, Framebuffer, Glyph, Layout, ScreenFormat};

const WHITE: (u8, u8, u8) = (255, 255, 255);
const BLACK: (u8, u8, u8) = (0, 0, 0);

fn format(bytes_per_pixel: usize) -> ScreenFormat {
    let field = |offset: u32, length: u32| Bitfield { offset, length };
    if bytes_per_pixel == 2 {
        ScreenFormat {
            width: 3,
            height: 2,
            stride: 8,
            bytes_per_pixel,
            red: field(11, 5),
            green: field(5, 6),
            blue: field(0, 5),
            transp: field(0, 0),
            big_endian: false,
        }
    } else {
        ScreenFormat {
            width: 3,
            height: 2,
            stride: 12,
            bytes_per_pixel,
            red: field(16, 8),
            green: field(8, 8),
            blue: field(0, 8),
            transp: field(24, 8),
            big_endian: false,
        }
    }
}

fn pixel(screen: &Framebuffer, x: usize, y: usize) -> Vec<u8> {
    let start = y * screen.format.stride + x * screen.format.bytes_per_pixel;
    screen.memory[start..start + screen.format.bytes_per_pixel].to_vec()
}

fn layout() -> Layout {
    Layout {
        columns: 1,
        content_rows: 1,
        cell_width: 1,
        line_height: 2,
        margin_x: 12,
        margin_y: 8,
        logical_width: 3,
        logical_height: 2,
        ascent: 1,
    }
}

#[test]
fn channels_are_scaled_and_shifted() {
    assert_eq!(channel(255, Bitfield { offset: 11, length: 5 }), 0xf800);
    assert_eq!(channel(128, Bitfield { offset: 5, length: 6 }), (128 * 63 / 255) << 5);
    assert_eq!(channel(200, Bitfield { offset: 3, length: 0 }), 0);
    assert_eq!(channel(200, Bitfield { offset: 8, length: 8 }), 200 << 8);
}

#[test]
fn only_two_or_four_bytes_make_a_pixel() {
    assert!(Framebuffer::new(format(4), vec![0; 24]).is_some());
    assert!(Framebuffer::new(format(2), vec![0; 16]).is_some());
    let mut strange = format(4);
    strange.bytes_per_pixel = 3;
    assert!(Framebuffer::new(strange, vec![0; 24]).is_none());
}

#[test]
fn painting_turns_with_the_page() {
    for (rotation, x, y) in [(0, 0, 0), (1, 2, 0), (2, 2, 1), (3, 0, 1)] {
        let mut screen = Framebuffer::new(format(4), vec![0; 24]).unwrap();
        screen.rect(0, 0, 1, 1, (1, 2, 3), rotation);
        assert_eq!(pixel(&screen, x, y), vec![3, 2, 1, 255], "{rotation}");
        let painted = screen.memory.iter().filter(|byte| **byte != 0).count();
        assert_eq!(painted, 4);
    }
}

#[test]
fn painting_stays_on_the_screen() {
    let mut screen = Framebuffer::new(format(2), vec![0; 14]).unwrap();
    screen.rect(2, 1, 5, 50, WHITE, 0);
    assert_eq!(screen.memory, {
        let mut memory = vec![0; 14];
        memory[12] = 0xff;
        memory[13] = 0xff;
        memory
    });
    screen.rect(9, 9, 5, 5, WHITE, 0);
    screen.clear(BLACK, 1);
    assert_eq!(screen.memory, vec![0; 14]);
    let mut short = Framebuffer::new(format(4), vec![0; 9]).unwrap();
    short.clear(WHITE, 0);
    assert_eq!(short.memory, vec![255, 255, 255, 255, 255, 255, 255, 255, 0]);
}

#[test]
fn big_endian_screens_take_their_bytes_in_order() {
    let mut order = format(4);
    order.big_endian = true;
    let mut screen = Framebuffer::new(order, vec![0; 24]).unwrap();
    screen.rect(1, 0, 1, 1, (1, 2, 3), 0);
    assert_eq!(pixel(&screen, 1, 0), vec![255, 1, 2, 3]);
}

#[test]
fn letters_are_blended_where_the_pen_stands() {
    let mut screen = Framebuffer::new(format(4), vec![0; 24]).unwrap();
    let glyph = || Glyph { width: 1, height: 2, xmin: 0, ymin: 0, coverage: vec![255, 51] };
    let letters: Vec<char> = vec!['a', 'b'];
    screen.text(0, 1, &letters, &vec![glyph(), glyph()], layout(), (200, 100, 50), BLACK, 0);
    assert_eq!(pixel(&screen, 0, 0), vec![50, 100, 200, 255]);
    assert_eq!(pixel(&screen, 0, 1), vec![10, 20, 40, 255]);
    assert_eq!(pixel(&screen, 1, 0), vec![50, 100, 200, 255]);
    assert_eq!(pixel(&screen, 2, 0), vec![0, 0, 0, 0]);
    let mut cut = Framebuffer::new(format(4), vec![0; 24]).unwrap();
    let left = Glyph { width: 2, height: 1, xmin: -1, ymin: 0, coverage: vec![255, 255] };
    cut.text(0, 0, &['x'], &vec![left], layout(), WHITE, BLACK, 0);
    assert_eq!(pixel(&cut, 0, 0), vec![255, 255, 255, 255]);
    assert_eq!(cut.memory.iter().filter(|byte| **byte != 0).count(), 4);
    let mut spaced = Framebuffer::new(format(4), vec![0; 24]).unwrap();
    let empty = Glyph { width: 0, height: 0, xmin: 0, ymin: 0, coverage: Vec::new() };
    spaced.text(0, 0, &['\t', 'x'], &vec![empty, glyph()], layout(), WHITE, BLACK, 0);
    assert_eq!(spaced.memory, vec![0; 24]);
}

#[test]
fn larger_sizes_mean_fewer_rows() {
    assert_eq!(target_rows(0), 12);
    assert_eq!(target_rows(-3), 15);
    assert_eq!(target_rows(6), 7);
    assert_eq!(target_rows(-8), 20);
    assert_eq!(target_rows(i8::MIN), 20);
    assert_eq!(target_rows(i8::MAX), 7);
}
