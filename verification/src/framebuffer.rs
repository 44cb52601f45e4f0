//! The page as pixels: where they lie in memory, how colours are packed, and how
//! rectangles and glyphs are drawn.
use vstd::prelude::*;

use crate::theme::Rgb;
use crate::wrap;

verus! {

/// The bits of a pixel that hold one colour.
#[derive(Debug, Clone, Copy, PartialEq, Eq, Structural)]
pub struct Bitfield {
    pub offset: u32,
    pub length: u32,
}

impl Bitfield {
    /// Whether the bits begin inside a pixel.
    pub open spec fn sound(self) -> bool {
        self.length == 0 || self.offset < 32
    }
}

/// How the pixels of a screen lie in memory.
#[derive(Debug, Clone, Copy, PartialEq, Eq, Structural)]
pub struct ScreenFormat {
    pub width: usize,
    pub height: usize,
    pub stride: usize,
    pub bytes_per_pixel: usize,
    pub red: Bitfield,
    pub green: Bitfield,
    pub blue: Bitfield,
    pub transp: Bitfield,
    pub big_endian: bool,
}

impl ScreenFormat {
    /// Two or four bytes for each pixel, and every colour inside them.
    pub open spec fn sound(self) -> bool {
        &&& self.bytes_per_pixel == 2 || self.bytes_per_pixel == 4
        &&& self.red.sound()
        &&& self.green.sound()
        &&& self.blue.sound()
        &&& self.transp.sound()
    }
}

/// A screen: its format and its memory.
#[derive(Debug)]
pub struct Framebuffer {
    pub format: ScreenFormat,
    pub memory: Vec<u8>,
}

/// The largest value that a number of bits, at most eight, can hold.
pub open spec fn channel_limit(length: u32) -> int {
    if length == 0 {
        0
    } else if length == 1 {
        1
    } else if length == 2 {
        3
    } else if length == 3 {
        7
    } else if length == 4 {
        15
    } else if length == 5 {
        31
    } else if length == 6 {
        63
    } else if length == 7 {
        127
    } else {
        255
    }
}

/// A colour value scaled to its bits and moved to its place in the pixel.
pub open spec fn channel_bits(value: u8, field: Bitfield) -> u32 {
    if field.length == 0 {
        0
    } else {
        ((value as int * channel_limit(field.length) / 255) as u32) << field.offset
    }
}

/// Scales a colour value to its bits and moves it to its place.
pub fn channel(value: u8, field: Bitfield) -> (bits: u32)
    requires
        field.sound(),
    ensures
        bits == channel_bits(value, field),
{
    if field.length == 0 {
        return 0;
    }
    let limit: u32 = match field.length {
        1 => 1,
        2 => 3,
        3 => 7,
        4 => 15,
        5 => 31,
        6 => 63,
        7 => 127,
        _ => 255,
    };
    assert(0 <= value as int * limit as int <= 255 * 255) by (nonlinear_arith)
        requires
            0 <= value <= 255,
            0 <= limit <= 255,
    ;
    assert(value as int * limit as int == value as int * channel_limit(field.length));
    (value as u32 * limit / 255) << field.offset
}

/// The pixel of a colour, with all the bits for opacity set.
pub open spec fn pixel_of(format: ScreenFormat, color: Rgb) -> u32 {
    channel_bits(color.0, format.red) | channel_bits(color.1, format.green) | channel_bits(
        color.2,
        format.blue,
    ) | channel_bits(255, format.transp)
}

/// The bytes of a pixel as they lie in memory.
pub open spec fn pixel_bytes(format: ScreenFormat, color: Rgb) -> Seq<u8> {
    let pixel = pixel_of(format, color);
    let low = seq![(pixel % 256) as u8, (pixel / 256 % 256) as u8];
    let little = if format.bytes_per_pixel == 2 {
        low
    } else {
        low + seq![(pixel / 65536 % 256) as u8, (pixel / 16777216 % 256) as u8]
    };
    if format.big_endian {
        little.reverse()
    } else {
        little
    }
}

pub open spec fn less(a: int, b: int) -> int {
    if a > b {
        a - b
    } else {
        0
    }
}

/// The pixel of the screen that a place on the page falls on, after so many
/// quarter turns.
pub open spec fn physical(format: ScreenFormat, x: int, y: int, rotation: u8) -> (int, int) {
    let right = less(format.width as int, 1);
    let bottom = less(format.height as int, 1);
    if rotation % 4 == 0 {
        (x, y)
    } else if rotation % 4 == 1 {
        (less(right, y), x)
    } else if rotation % 4 == 2 {
        (less(right, x), less(bottom, y))
    } else {
        (y, less(bottom, x))
    }
}

/// Memory with bytes written at a place.
pub open spec fn written(memory: Seq<u8>, offset: int, bytes: Seq<u8>) -> Seq<u8> {
    Seq::new(
        memory.len(),
        |i: int|
            if offset <= i < offset + bytes.len() {
                bytes[i - offset]
            } else {
                memory[i]
            },
    )
}

/// Memory with one place of the page painted. What falls outside the screen or
/// the memory is not painted.
pub open spec fn painted(
    format: ScreenFormat,
    memory: Seq<u8>,
    x: int,
    y: int,
    color: Rgb,
    rotation: u8,
) -> Seq<u8> {
    let (px, py) = physical(format, x, y, rotation);
    let offset = py * format.stride + px * format.bytes_per_pixel;
    if px >= format.width || py >= format.height || offset + format.bytes_per_pixel
        > memory.len() {
        memory
    } else {
        written(memory, offset, pixel_bytes(format, color))
    }
}

/// Memory with the first `count` places of a row painted.
pub open spec fn row_painted(
    format: ScreenFormat,
    memory: Seq<u8>,
    x: int,
    y: int,
    count: int,
    color: Rgb,
    rotation: u8,
) -> Seq<u8>
    decreases count,
{
    if count <= 0 {
        memory
    } else {
        painted(
            format,
            row_painted(format, memory, x, y, count - 1, color, rotation),
            x + count - 1,
            y,
            color,
            rotation,
        )
    }
}

/// Memory with the first `rows` rows of a rectangle painted.
pub open spec fn rect_painted(
    format: ScreenFormat,
    memory: Seq<u8>,
    x: int,
    y: int,
    width: int,
    rows: int,
    color: Rgb,
    rotation: u8,
) -> Seq<u8>
    decreases rows,
{
    if rows <= 0 {
        memory
    } else {
        row_painted(
            format,
            rect_painted(format, memory, x, y, width, rows - 1, color, rotation),
            x,
            y + rows - 1,
            width,
            color,
            rotation,
        )
    }
}

/// The width and height of the page as it is turned.
pub open spec fn logical_size(format: ScreenFormat, rotation: u8) -> (int, int) {
    if rotation % 2 == 0 {
        (format.width as int, format.height as int)
    } else {
        (format.height as int, format.width as int)
    }
}

/// How far a stretch from a place reaches before numbers end.
pub open spec fn reach(from: int, length: int) -> int {
    if from + length > usize::MAX {
        usize::MAX - from
    } else {
        length
    }
}

/// The picture of a character: its size, where it lies to the pen, and how much
/// of each place it covers, row by row.
#[derive(Debug)]
pub struct Glyph {
    pub width: usize,
    pub height: usize,
    pub xmin: i32,
    pub ymin: i32,
    pub coverage: Vec<u8>,
}

impl Glyph {
    pub open spec fn sound(&self) -> bool {
        self.coverage@.len() == self.width * self.height
    }

    /// Whether the picture, drawn for a pen that goes no further right than `x`
    /// and for a base line at `y`, ends where places can still be numbered.
    pub open spec fn within_reach(&self, x: int, y: int) -> bool {
        x + self.xmin + self.width <= usize::MAX && y - self.ymin <= usize::MAX
    }
}

/// A colour value between two, as much of the front one as is covered.
pub open spec fn blended(front: u8, back: u8, alpha: u8) -> u8 {
    ((front as int * alpha as int + back as int * (255 - alpha as int)) / 255) as u8
}

pub open spec fn blended_color(front: Rgb, back: Rgb, alpha: u8) -> Rgb {
    (
        blended(front.0, back.0, alpha),
        blended(front.1, back.1, alpha),
        blended(front.2, back.2, alpha),
    )
}

/// Mixes a colour value.
fn blend(front: u8, back: u8, alpha: u8) -> (mixed: u8)
    ensures
        mixed == blended(front, back, alpha),
{
    assert(0 <= front as int * alpha as int <= 255 * alpha as int) by (nonlinear_arith)
        requires
            0 <= front <= 255,
            0 <= alpha <= 255,
    ;
    assert(0 <= back as int * (255 - alpha as int) <= 255 * (255 - alpha as int))
        by (nonlinear_arith)
        requires
            0 <= back <= 255,
            0 <= alpha <= 255,
    ;
    ((front as u32 * alpha as u32 + back as u32 * (255 - alpha) as u32) / 255) as u8
}

/// Memory with the first `count` places of a glyph drawn, counted row by row.
pub open spec fn glyph_painted(
    format: ScreenFormat,
    memory: Seq<u8>,
    glyph: Glyph,
    left: int,
    top: int,
    count: int,
    colors: (Rgb, Rgb),
    rotation: u8,
) -> Seq<u8>
    decreases count,
{
    if count <= 0 {
        memory
    } else {
        let before = glyph_painted(format, memory, glyph, left, top, count - 1, colors, rotation);
        let alpha = glyph.coverage@[count - 1];
        let x = left + (count - 1) % (glyph.width as int);
        let y = top + (count - 1) / (glyph.width as int);
        if alpha == 0 || x < 0 || y < 0 {
            before
        } else {
            painted(format, before, x, y, blended_color(colors.0, colors.1, alpha), rotation)
        }
    }
}

/// How far a character moves the pen.
pub open spec fn pen_step(ch: char, cell_width: int) -> int {
    let cells = wrap::width_of(ch, 0);
    if ch == '\t' {
        cell_width * 4
    } else if cells < 1 {
        cell_width
    } else {
        cell_width * cells
    }
}

/// Where the pen stands after the first `count` characters.
pub open spec fn pen(text: Seq<char>, x: int, cell_width: int, count: int) -> int
    decreases count,
{
    if count <= 0 {
        x
    } else {
        pen(text, x, cell_width, count - 1) + pen_step(text[count - 1], cell_width)
    }
}

/// Memory with the first `count` characters of a text drawn. A tab draws
/// nothing.
pub open spec fn text_painted(
    format: ScreenFormat,
    memory: Seq<u8>,
    text: Seq<char>,
    glyphs: Seq<Glyph>,
    at: (int, int),
    layout: Layout,
    count: int,
    colors: (Rgb, Rgb),
    rotation: u8,
) -> Seq<u8>
    decreases count,
{
    if count <= 0 {
        memory
    } else {
        let before = text_painted(
            format,
            memory,
            text,
            glyphs,
            at,
            layout,
            count - 1,
            colors,
            rotation,
        );
        let glyph = glyphs[count - 1];
        if text[count - 1] == '\t' {
            before
        } else {
            glyph_painted(
                format,
                before,
                glyph,
                pen(text, at.0, layout.cell_width as int, count - 1) + glyph.xmin,
                at.1 + layout.ascent - glyph.height - glyph.ymin,
                glyph.width * glyph.height,
                colors,
                rotation,
            )
        }
    }
}

/// The measures of a font at a size, in whole pixels: the height of a line, the
/// width of a cell, and how far the letters rise over the base line.
#[derive(Debug, Clone, Copy, PartialEq, Eq, Structural)]
pub struct FontMeasures {
    pub line_size: usize,
    pub cell_width: usize,
    pub ascent: i32,
}

/// How the page is divided.
#[derive(Debug, Clone, Copy, PartialEq, Eq, Structural)]
pub struct Layout {
    pub columns: usize,
    pub content_rows: usize,
    pub cell_width: usize,
    pub line_height: usize,
    pub margin_x: usize,
    pub margin_y: usize,
    pub logical_width: usize,
    pub logical_height: usize,
    pub ascent: i32,
}

pub open spec fn at_least(a: int, b: int) -> int {
    if a < b {
        b
    } else {
        a
    }
}

/// The division of a page of a size, for a font.
pub open spec fn page_layout(width: int, height: int, measures: FontMeasures) -> Layout {
    let line_height = measures.line_size + 2;
    let cell_width = at_least(measures.cell_width as int, 1);
    let margin_x = at_least(width / 32, 12);
    let margin_y = at_least(height / 40, 8);
    Layout {
        columns: at_least(less(width, margin_x * 2) / cell_width, 1) as usize,
        content_rows: at_least(
            less(height, margin_y * 2 + line_height * 2) / line_height,
            1,
        ) as usize,
        cell_width: cell_width as usize,
        line_height: line_height as usize,
        margin_x: margin_x as usize,
        margin_y: margin_y as usize,
        logical_width: width as usize,
        logical_height: height as usize,
        ascent: measures.ascent,
    }
}

/// The largest side of a page, in pixels.
pub const LARGEST_SIDE: usize = 0x0fff_ffff;

/// The largest measure of a font, in pixels.
pub const LARGEST_MEASURE: usize = 0xffff;

impl Layout {
    /// A division that places can be reckoned with: at least one row of one
    /// cell, and no more than fits on the page, unless it is just one.
    pub open spec fn sound(self) -> bool {
        &&& 1 <= self.columns
        &&& 1 <= self.content_rows
        &&& 1 <= self.cell_width <= LARGEST_MEASURE
        &&& 2 <= self.line_height <= LARGEST_MEASURE + 2
        &&& self.logical_width <= LARGEST_SIDE
        &&& self.logical_height <= LARGEST_SIDE
        &&& 12 <= self.margin_x <= LARGEST_SIDE
        &&& 8 <= self.margin_y <= LARGEST_SIDE
        &&& self.columns == 1 || self.columns * self.cell_width <= self.logical_width
        &&& self.content_rows == 1 || self.content_rows * self.line_height <= self.logical_height
    }
}

/// How many rows of text the shorter side of the screen is to hold, about twelve;
/// a larger size means fewer.
pub fn target_rows(zoom: i8) -> (rows: u8)
    ensures
        rows == (if 12 - zoom < 7 {
            7int
        } else if 12 - zoom > 20 {
            20int
        } else {
            12 - zoom
        }),
{
    let wanted: i16 = 12 - zoom as i16;
    if wanted < 7 {
        7
    } else if wanted > 20 {
        20
    } else {
        wanted as u8
    }
}

fn minus(a: usize, b: usize) -> (difference: usize)
    ensures
        difference == less(a as int, b as int),
{
    if a > b {
        a - b
    } else {
        0
    }
}

/// Packs a colour into the bytes of a pixel.
fn bytes_of_pixel(format: ScreenFormat, color: Rgb) -> (bytes: Vec<u8>)
    requires
        format.sound(),
    ensures
        bytes@ == pixel_bytes(format, color),
        bytes@.len() == format.bytes_per_pixel,
{
    let pixel: u32 = channel(color.0, format.red) | channel(color.1, format.green) | channel(
        color.2,
        format.blue,
    ) | channel(255, format.transp);
    let b0: u8 = (pixel % 256) as u8;
    let b1: u8 = (pixel / 256 % 256) as u8;
    let b2: u8 = (pixel / 65536 % 256) as u8;
    let b3: u8 = (pixel / 16777216 % 256) as u8;
    let bytes: Vec<u8> = if format.bytes_per_pixel == 2 {
        if format.big_endian {
            vec![b1, b0]
        } else {
            vec![b0, b1]
        }
    } else {
        if format.big_endian {
            vec![b3, b2, b1, b0]
        } else {
            vec![b0, b1, b2, b3]
        }
    };
    assert(bytes@ == pixel_bytes(format, color));
    bytes
}

impl Framebuffer {
    /// A screen of a format with its memory; nothing where a pixel has neither
    /// two nor four bytes.
    pub fn new(format: ScreenFormat, memory: Vec<u8>) -> (screen: Option<Framebuffer>)
        requires
            format.red.sound(),
            format.green.sound(),
            format.blue.sound(),
            format.transp.sound(),
        ensures
            match screen {
                Some(fb) => fb.format == format && fb.memory@ == memory@ && format.sound(),
                None => format.bytes_per_pixel != 2 && format.bytes_per_pixel != 4,
            },
    {
        if format.bytes_per_pixel != 2 && format.bytes_per_pixel != 4 {
            None
        } else {
            Some(Framebuffer { format, memory })
        }
    }

    /// Divides the page for a font.
    pub fn layout(&self, rotation: u8, measures: FontMeasures) -> (layout: Layout)
        requires
            self.format.width <= LARGEST_SIDE,
            self.format.height <= LARGEST_SIDE,
            measures.line_size <= LARGEST_MEASURE,
            measures.cell_width <= LARGEST_MEASURE,
        ensures
            ({
                let (width, height) = logical_size(self.format, rotation);
                layout == page_layout(width, height, measures)
            }),
            layout.sound(),
    {
        let (logical_width, logical_height): (usize, usize) = if rotation % 2 == 0 {
            (self.format.width, self.format.height)
        } else {
            (self.format.height, self.format.width)
        };
        let line_height: usize = measures.line_size + 2;
        let cell_width: usize = if measures.cell_width < 1 {
            1
        } else {
            measures.cell_width
        };
        let margin_x: usize = if logical_width / 32 < 12 {
            12
        } else {
            logical_width / 32
        };
        let margin_y: usize = if logical_height / 40 < 8 {
            8
        } else {
            logical_height / 40
        };
        let room_x: usize = if logical_width > margin_x * 2 {
            logical_width - margin_x * 2
        } else {
            0
        };
        let taken_y: usize = margin_y * 2 + line_height * 2;
        let room_y: usize = if logical_height > taken_y {
            logical_height - taken_y
        } else {
            0
        };
        let across: usize = room_x / cell_width;
        let down: usize = room_y / line_height;
        assert(across * cell_width <= room_x) by (nonlinear_arith)
            requires
                across == room_x / cell_width,
                cell_width >= 1,
        ;
        assert(down * line_height <= room_y) by (nonlinear_arith)
            requires
                down == room_y / line_height,
                line_height >= 1,
        ;
        Layout {
            columns: if across < 1 {
                1
            } else {
                across
            },
            content_rows: if down < 1 {
                1
            } else {
                down
            },
            cell_width,
            line_height,
            margin_x,
            margin_y,
            logical_width,
            logical_height,
            ascent: measures.ascent,
        }
    }

    /// The pixel of the screen that a place on the page falls on.
    fn turned(&self, x: usize, y: usize, rotation: u8) -> (place: (usize, usize))
        ensures
            (place.0 as int, place.1 as int) == physical(
                self.format,
                x as int,
                y as int,
                rotation,
            ),
    {
        let right: usize = minus(self.format.width, 1);
        let bottom: usize = minus(self.format.height, 1);
        match rotation % 4 {
            0 => (x, y),
            1 => (minus(right, y), x),
            2 => (minus(right, x), minus(bottom, y)),
            _ => (y, minus(bottom, x)),
        }
    }

    fn write_at(&mut self, at: usize, bytes: &Vec<u8>)
        requires
            at + bytes@.len() <= old(self).memory@.len(),
        ensures
            final(self).format == old(self).format,
            final(self).memory@ == written(old(self).memory@, at as int, bytes@),
    {
        let mut i: usize = 0;
        assert(self.memory@ == written(old(self).memory@, at as int, bytes@.take(0)));
        while i < bytes.len()
            invariant
                i <= bytes@.len(),
                at + bytes@.len() <= self.memory.len(),
                self.format == old(self).format,
                self.memory@ == written(old(self).memory@, at as int, bytes@.take(i as int)),
            decreases bytes@.len() - i,
        {
            self.memory.set(at + i, bytes[i]);
            i += 1;
            assert(self.memory@ == written(old(self).memory@, at as int, bytes@.take(i as int)));
        }
        assert(bytes@.take(bytes@.len() as int) == bytes@);
    }

    fn put_pixel(&mut self, x: usize, y: usize, color: Rgb, rotation: u8)
        requires
            old(self).format.sound(),
        ensures
            final(self).format == old(self).format,
            final(self).memory@ == painted(
                old(self).format,
                old(self).memory@,
                x as int,
                y as int,
                color,
                rotation,
            ),
    {
        let (px, py): (usize, usize) = self.turned(x, y, rotation);
        if px >= self.format.width || py >= self.format.height {
            return;
        }
        let stride: usize = self.format.stride;
        let depth: usize = self.format.bytes_per_pixel;
        assert(0 <= py * stride <= 0xffff_ffff_ffff_ffff * 0xffff_ffff_ffff_ffff)
            by (nonlinear_arith)
            requires
                0 <= py <= 0xffff_ffff_ffff_ffff,
                0 <= stride <= 0xffff_ffff_ffff_ffff,
        ;
        assert(0 <= px * depth <= 4 * px) by (nonlinear_arith)
            requires
                0 <= px,
                0 <= depth <= 4,
        ;
        let row: u128 = py as u128 * stride as u128;
        if row > self.memory.len() as u128 {
            return;
        }
        let offset: u128 = row + px as u128 * depth as u128;
        if offset + depth as u128 > self.memory.len() as u128 {
            return;
        }
        let bytes: Vec<u8> = bytes_of_pixel(self.format, color);
        self.write_at(offset as usize, &bytes);
    }

    fn paint_row(&mut self, x: usize, y: usize, count: usize, color: Rgb, rotation: u8)
        requires
            old(self).format.sound(),
            x + count <= usize::MAX,
        ensures
            final(self).format == old(self).format,
            final(self).memory@ == row_painted(
                old(self).format,
                old(self).memory@,
                x as int,
                y as int,
                count as int,
                color,
                rotation,
            ),
    {
        let mut done: usize = 0;
        while done < count
            invariant
                done <= count,
                x + count <= usize::MAX,
                self.format == old(self).format,
                self.format.sound(),
                self.memory@ == row_painted(
                    old(self).format,
                    old(self).memory@,
                    x as int,
                    y as int,
                    done as int,
                    color,
                    rotation,
                ),
            decreases count - done,
        {
            self.put_pixel(x + done, y, color, rotation);
            done += 1;
        }
    }

    /// Paints a rectangle of the page.
    pub fn rect(
        &mut self,
        x: usize,
        y: usize,
        width: usize,
        height: usize,
        color: Rgb,
        rotation: u8,
    )
        requires
            old(self).format.sound(),
        ensures
            final(self).format == old(self).format,
            final(self).memory@ == rect_painted(
                old(self).format,
                old(self).memory@,
                x as int,
                y as int,
                reach(x as int, width as int),
                reach(y as int, height as int),
                color,
                rotation,
            ),
    {
        let across: usize = if width > usize::MAX - x {
            usize::MAX - x
        } else {
            width
        };
        let down: usize = if height > usize::MAX - y {
            usize::MAX - y
        } else {
            height
        };
        let mut done: usize = 0;
        while done < down
            invariant
                done <= down,
                y + down <= usize::MAX,
                x + across <= usize::MAX,
                self.format == old(self).format,
                self.format.sound(),
                self.memory@ == rect_painted(
                    old(self).format,
                    old(self).memory@,
                    x as int,
                    y as int,
                    across as int,
                    done as int,
                    color,
                    rotation,
                ),
            decreases down - done,
        {
            self.paint_row(x, y + done, across, color, rotation);
            done += 1;
        }
    }

    /// Paints the whole page.
    pub fn clear(&mut self, color: Rgb, rotation: u8)
        requires
            old(self).format.sound(),
        ensures
            final(self).format == old(self).format,
            ({
                let (width, height) = logical_size(old(self).format, rotation);
                final(self).memory@ == rect_painted(
                    old(self).format,
                    old(self).memory@,
                    0,
                    0,
                    width,
                    height,
                    color,
                    rotation,
                )
            }),
    {
        let (width, height): (usize, usize) = if rotation % 2 == 0 {
            (self.format.width, self.format.height)
        } else {
            (self.format.height, self.format.width)
        };
        self.rect(0, 0, width, height, color, rotation);
    }

    /// Draws the picture of a character with its corner at a place, which may lie
    /// outside the page.
    fn draw_glyph(
        &mut self,
        glyph: &Glyph,
        left: i128,
        top: i128,
        foreground: Rgb,
        background: Rgb,
        rotation: u8,
    )
        requires
            old(self).format.sound(),
            glyph.sound(),
            left + glyph.width <= usize::MAX,
            top + glyph.height <= usize::MAX,
        ensures
            final(self).format == old(self).format,
            final(self).memory@ == glyph_painted(
                old(self).format,
                old(self).memory@,
                *glyph,
                left as int,
                top as int,
                glyph.width * glyph.height,
                (foreground, background),
                rotation,
            ),
    {
        let ghost colors = (foreground, background);
        let mut gy: usize = 0;
        while gy < glyph.height
            invariant
                gy <= glyph.height,
                glyph.sound(),
                colors == (foreground, background),
                left + glyph.width <= usize::MAX,
                top + glyph.height <= usize::MAX,
                self.format == old(self).format,
                self.format.sound(),
                self.memory@ == glyph_painted(
                    old(self).format,
                    old(self).memory@,
                    *glyph,
                    left as int,
                    top as int,
                    gy * glyph.width,
                    colors,
                    rotation,
                ),
            decreases glyph.height - gy,
        {
            let mut gx: usize = 0;
            while gx < glyph.width
                invariant
                    gy < glyph.height,
                    gx <= glyph.width,
                    glyph.sound(),
                    colors == (foreground, background),
                    left + glyph.width <= usize::MAX,
                    top + glyph.height <= usize::MAX,
                    self.format == old(self).format,
                    self.format.sound(),
                    self.memory@ == glyph_painted(
                        old(self).format,
                        old(self).memory@,
                        *glyph,
                        left as int,
                        top as int,
                        gy * glyph.width + gx,
                        colors,
                        rotation,
                    ),
                decreases glyph.width - gx,
            {
                proof {
                    lemma_glyph_index(gx as int, gy as int, glyph.width as int, glyph.height as int);
                    assert(glyph.width * glyph.height == glyph.coverage.len());
                }
                let alpha: u8 = glyph.coverage[gy * glyph.width + gx];
                let px: i128 = left + gx as i128;
                let py: i128 = top + gy as i128;
                if alpha != 0 && px >= 0 && py >= 0 {
                    self.put_pixel(
                        px as usize,
                        py as usize,
                        (
                            blend(foreground.0, background.0, alpha),
                            blend(foreground.1, background.1, alpha),
                            blend(foreground.2, background.2, alpha),
                        ),
                        rotation,
                    );
                }
                gx += 1;
            }
            assert(gy * glyph.width + glyph.width == (gy + 1) * glyph.width) by (nonlinear_arith);
            gy += 1;
        }
        assert(glyph.height * glyph.width == glyph.width * glyph.height) by (nonlinear_arith);
    }

    /// Draws a text: the picture of each of its characters, tabs left out.
    pub fn text(
        &mut self,
        x: usize,
        y: usize,
        text: &[char],
        glyphs: &Vec<Glyph>,
        layout: Layout,
        foreground: Rgb,
        background: Rgb,
        rotation: u8,
    )
        requires
            old(self).format.sound(),
            glyphs@.len() == text@.len(),
            x + 4 * layout.cell_width * text@.len() <= usize::MAX,
            forall|i: int|
                0 <= i < glyphs@.len() ==> (#[trigger] glyphs@[i]).sound()
                    && glyphs@[i].within_reach(
                    x + 4 * layout.cell_width * text@.len(),
                    y + layout.ascent,
                ),
        ensures
            final(self).format == old(self).format,
            final(self).memory@ == text_painted(
                old(self).format,
                old(self).memory@,
                text@,
                glyphs@,
                (x as int, y as int),
                layout,
                text@.len() as int,
                (foreground, background),
                rotation,
            ),
    {
        let ghost colors = (foreground, background);
        let ghost at = (x as int, y as int);
        let mut pen_x: usize = x;
        let mut i: usize = 0;
        while i < text.len()
            invariant
                i <= text@.len(),
                glyphs@.len() == text@.len(),
                x + 4 * layout.cell_width * text@.len() <= usize::MAX,
                forall|k: int|
                    0 <= k < glyphs@.len() ==> (#[trigger] glyphs@[k]).sound()
                        && glyphs@[k].within_reach(
                        x + 4 * layout.cell_width * text@.len(),
                        y + layout.ascent,
                    ),
                colors == (foreground, background),
                at == (x as int, y as int),
                pen_x == pen(text@, x as int, layout.cell_width as int, i as int),
                pen_x <= x + 4 * layout.cell_width * i,
                self.format == old(self).format,
                self.format.sound(),
                self.memory@ == text_painted(
                    old(self).format,
                    old(self).memory@,
                    text@,
                    glyphs@,
                    at,
                    layout,
                    i as int,
                    colors,
                    rotation,
                ),
            decreases text@.len() - i,
        {
            let ch: char = text[i];
            assert(4 * layout.cell_width * i + 4 * layout.cell_width == 4 * layout.cell_width * (i
                + 1)) by (nonlinear_arith);
            assert(4 * layout.cell_width * (i + 1) <= 4 * layout.cell_width * text@.len())
                by (nonlinear_arith)
                requires
                    i + 1 <= text@.len(),
                    layout.cell_width >= 0,
            ;
            if ch == '\t' {
                pen_x += layout.cell_width * 4;
            } else {
                let cells: usize = {
                    let width: usize = wrap::char_width(ch, 0);
                    if width < 1 {
                        1
                    } else {
                        width
                    }
                };
                let glyph: &Glyph = &glyphs[i];
                let left: i128 = pen_x as i128 + glyph.xmin as i128;
                let top: i128 = y as i128 + layout.ascent as i128 - glyph.height as i128
                    - glyph.ymin as i128;
                self.draw_glyph(glyph, left, top, foreground, background, rotation);
                assert(layout.cell_width * cells <= 4 * layout.cell_width) by (nonlinear_arith)
                    requires
                        cells <= 4,
                        layout.cell_width >= 0,
                ;
                pen_x += layout.cell_width * cells;
            }
            i += 1;
        }
    }
}

proof fn lemma_glyph_index(gx: int, gy: int, width: int, height: int)
    requires
        0 <= gx < width,
        0 <= gy < height,
    ensures
        0 <= gy * width + gx < width * height,
        gy * width <= gy * width + gx,
        (gy * width + gx) % width == gx,
        (gy * width + gx) / width == gy,
{
    assert(0 <= gy * width) by (nonlinear_arith)
        requires
            0 <= gy,
            0 < width,
    ;
    assert(gy * width + width <= width * height) by (nonlinear_arith)
        requires
            gy + 1 <= height,
            0 < width,
    ;
    vstd::arithmetic::div_mod::lemma_fundamental_div_mod_converse(
        gy * width + gx,
        width,
        gy,
        gx,
    );
}

/// The page is turned by quarters, and never mirrored. Every place of the page,
/// whose sides change places with each quarter turn, falls on a pixel of the
/// screen, and different places fall on different pixels. Upright, a step to the
/// right on the page is one to the right on the screen and a step down one down.
/// After one turn these are steps down and left, after two left and up, after
/// three up and right. Four turns are none.
pub proof fn law_turning_is_by_quarters(
    format: ScreenFormat,
    rotation: u8,
    x: int,
    y: int,
    other_x: int,
    other_y: int,
)
    requires
        0 <= x,
        0 <= y,
        0 <= other_x,
        0 <= other_y,
        rotation % 2 == 0 ==> x < format.width && y < format.height && other_x < format.width
            && other_y < format.height,
        rotation % 2 == 1 ==> x < format.height && y < format.width && other_x < format.height
            && other_y < format.width,
    ensures
        logical_size(format, rotation) == if rotation % 2 == 0 {
            (format.width as int, format.height as int)
        } else {
            (format.height as int, format.width as int)
        },
        0 <= physical(format, x, y, rotation).0 < format.width,
        0 <= physical(format, x, y, rotation).1 < format.height,
        physical(format, x, y, rotation) == physical(format, other_x, other_y, rotation) ==> x
            == other_x && y == other_y,
        rotation % 4 == 0 ==> physical(format, x, y, rotation) == (x, y),
        ({
            let here = physical(format, x, y, rotation);
            let right = physical(format, x + 1, y, rotation);
            let down = physical(format, x, y + 1, rotation);
            let (width, height) = logical_size(format, rotation);
            &&& x + 1 < width ==> right == match rotation % 4 {
                0 => (here.0 + 1, here.1),
                1 => (here.0, here.1 + 1),
                2 => (here.0 - 1, here.1),
                _ => (here.0, here.1 - 1),
            }
            &&& y + 1 < height ==> down == match rotation % 4 {
                0 => (here.0, here.1 + 1),
                1 => (here.0 - 1, here.1),
                2 => (here.0, here.1 - 1),
                _ => (here.0 + 1, here.1),
            }
        }),
        rotation <= 251 ==> physical(format, x, y, (rotation + 4) as u8) == physical(
            format,
            x,
            y,
            rotation,
        ),
{
}

/// Where the bytes of a pixel begin.
pub open spec fn pixel_start(format: ScreenFormat, place: (int, int)) -> int {
    place.1 * format.stride + place.0 * format.bytes_per_pixel
}

/// The bytes of a pixel.
pub open spec fn pixel_at(format: ScreenFormat, memory: Seq<u8>, place: (int, int)) -> Seq<u8> {
    memory.subrange(
        pixel_start(format, place),
        pixel_start(format, place) + format.bytes_per_pixel,
    )
}

/// Whether the memory holds every row of the screen.
pub open spec fn holds_screen(format: ScreenFormat, memory: Seq<u8>) -> bool {
    &&& format.sound()
    &&& format.stride >= format.width * format.bytes_per_pixel
    &&& memory.len() >= format.height * format.stride
}

/// Whether a place lies on the page as it is turned.
pub open spec fn on_page(format: ScreenFormat, x: int, y: int, rotation: u8) -> bool {
    &&& 0 <= x < if rotation % 2 == 0 {
        format.width
    } else {
        format.height
    }
    &&& 0 <= y < if rotation % 2 == 0 {
        format.height
    } else {
        format.width
    }
}

proof fn lemma_pixel_inside(format: ScreenFormat, memory: Seq<u8>, place: (int, int))
    requires
        holds_screen(format, memory),
        0 <= place.0 < format.width,
        0 <= place.1 < format.height,
    ensures
        0 <= pixel_start(format, place),
        pixel_start(format, place) + format.bytes_per_pixel <= memory.len(),
{
    let stride = format.stride as int;
    let depth = format.bytes_per_pixel as int;
    assert(0 <= place.1 * stride && 0 <= place.0 * depth && place.1 * stride + place.0 * depth
        + depth <= format.height * stride) by (nonlinear_arith)
        requires
            0 <= place.0 < format.width,
            0 <= place.1 < format.height,
            0 < depth,
            stride >= format.width * depth,
    ;
}

proof fn lemma_pixels_apart(format: ScreenFormat, a: (int, int), b: (int, int))
    requires
        format.sound(),
        format.stride >= format.width * format.bytes_per_pixel,
        0 <= a.0 < format.width,
        0 <= b.0 < format.width,
        a != b,
    ensures
        pixel_start(format, a) + format.bytes_per_pixel <= pixel_start(format, b) || pixel_start(
            format,
            b,
        ) + format.bytes_per_pixel <= pixel_start(format, a),
{
    let stride = format.stride as int;
    let depth = format.bytes_per_pixel as int;
    let width = format.width as int;
    if a.1 == b.1 {
        assert(a.0 * depth + depth <= b.0 * depth || b.0 * depth + depth <= a.0 * depth)
            by (nonlinear_arith)
            requires
                a.0 != b.0,
                0 < depth,
        ;
    } else {
        assert(a.1 * stride + a.0 * depth + depth <= b.1 * stride + b.0 * depth || b.1 * stride
            + b.0 * depth + depth <= a.1 * stride + a.0 * depth) by (nonlinear_arith)
            requires
                a.1 != b.1,
                0 <= a.0 < width,
                0 <= b.0 < width,
                0 < depth,
                stride >= width * depth,
        ;
    }
}

/// Painting a place of the page, however it is turned, gives its pixel the bytes
/// of the colour; every other place of the page, and the memory around, keeps
/// what it held.
pub proof fn law_a_turned_place_holds_its_colour(
    format: ScreenFormat,
    memory: Seq<u8>,
    x: int,
    y: int,
    color: Rgb,
    rotation: u8,
    other_x: int,
    other_y: int,
)
    requires
        holds_screen(format, memory),
        on_page(format, x, y, rotation),
        on_page(format, other_x, other_y, rotation),
    ensures
        ({
            let after = painted(format, memory, x, y, color, rotation);
            let here = physical(format, x, y, rotation);
            let there = physical(format, other_x, other_y, rotation);
            &&& after.len() == memory.len()
            &&& holds_screen(format, after)
            &&& pixel_at(format, after, here) == pixel_bytes(format, color)
            &&& (x != other_x || y != other_y) ==> pixel_at(format, after, there) == pixel_at(
                format,
                memory,
                there,
            )
        }),
{
    let here = physical(format, x, y, rotation);
    let there = physical(format, other_x, other_y, rotation);
    law_turning_is_by_quarters(format, rotation, x, y, other_x, other_y);
    law_turning_is_by_quarters(format, rotation, other_x, other_y, x, y);
    lemma_pixel_inside(format, memory, here);
    lemma_pixel_inside(format, memory, there);
    let after = painted(format, memory, x, y, color, rotation);
    let bytes = pixel_bytes(format, color);
    assert(bytes.len() == format.bytes_per_pixel);
    assert(after == written(memory, pixel_start(format, here), bytes));
    assert(pixel_at(format, after, here) == bytes);
    if x != other_x || y != other_y {
        lemma_pixels_apart(format, here, there);
        assert(pixel_at(format, after, there) == pixel_at(format, memory, there));
    }
}

proof fn lemma_row_on_page(
    format: ScreenFormat,
    memory: Seq<u8>,
    x: int,
    y: int,
    count: int,
    color: Rgb,
    rotation: u8,
    at_x: int,
    at_y: int,
)
    requires
        holds_screen(format, memory),
        0 <= x,
        0 <= y,
        0 < count ==> on_page(format, x + count - 1, y, rotation),
        on_page(format, at_x, at_y, rotation),
    ensures
        ({
            let after = row_painted(format, memory, x, y, count, color, rotation);
            let place = physical(format, at_x, at_y, rotation);
            &&& holds_screen(format, after)
            &&& pixel_at(format, after, place) == if x <= at_x < x + count && at_y == y {
                pixel_bytes(format, color)
            } else {
                pixel_at(format, memory, place)
            }
        }),
    decreases count,
{
    if count > 0 {
        lemma_row_on_page(format, memory, x, y, count - 1, color, rotation, at_x, at_y);
        law_a_turned_place_holds_its_colour(
            format,
            row_painted(format, memory, x, y, count - 1, color, rotation),
            x + count - 1,
            y,
            color,
            rotation,
            at_x,
            at_y,
        );
    }
}

/// A rectangle on the page, however it is turned, fills exactly its own places
/// with its colour: a place of the page inside it holds the colour, and every
/// other one what it held before.
pub proof fn law_a_rectangle_fills_its_places(
    format: ScreenFormat,
    memory: Seq<u8>,
    x: int,
    y: int,
    width: int,
    height: int,
    color: Rgb,
    rotation: u8,
    at_x: int,
    at_y: int,
)
    requires
        holds_screen(format, memory),
        0 <= x,
        0 <= y,
        0 < width && 0 < height ==> on_page(format, x + width - 1, y + height - 1, rotation),
        on_page(format, at_x, at_y, rotation),
    ensures
        ({
            let after = rect_painted(format, memory, x, y, width, height, color, rotation);
            let place = physical(format, at_x, at_y, rotation);
            &&& holds_screen(format, after)
            &&& pixel_at(format, after, place) == if x <= at_x < x + width && y <= at_y < y
                + height {
                pixel_bytes(format, color)
            } else {
                pixel_at(format, memory, place)
            }
        }),
    decreases height,
{
    if height > 0 {
        law_a_rectangle_fills_its_places(
            format,
            memory,
            x,
            y,
            width,
            height - 1,
            color,
            rotation,
            at_x,
            at_y,
        );
        lemma_row_on_page(
            format,
            rect_painted(format, memory, x, y, width, height - 1, color, rotation),
            x,
            y + height - 1,
            width,
            color,
            rotation,
            at_x,
            at_y,
        );
    }
}

/// Clearing the page, however it is turned, gives its colour to every pixel of
/// the screen.
pub proof fn law_clearing_reaches_every_pixel(
    format: ScreenFormat,
    memory: Seq<u8>,
    color: Rgb,
    rotation: u8,
    px: int,
    py: int,
)
    requires
        holds_screen(format, memory),
        0 <= px < format.width,
        0 <= py < format.height,
    ensures
        ({
            let (width, height) = logical_size(format, rotation);
            pixel_at(
                format,
                rect_painted(format, memory, 0, 0, width, height, color, rotation),
                (px, py),
            ) == pixel_bytes(format, color)
        }),
{
    let (width, height) = logical_size(format, rotation);
    let right = format.width - 1;
    let bottom = format.height - 1;
    let (x, y): (int, int) = if rotation % 4 == 0 {
        (px, py)
    } else if rotation % 4 == 1 {
        (py, right - px)
    } else if rotation % 4 == 2 {
        (right - px, bottom - py)
    } else {
        (bottom - py, px)
    };
    law_a_rectangle_fills_its_places(
        format,
        memory,
        0,
        0,
        width,
        height,
        color,
        rotation,
        x,
        y,
    );
    assert(physical(format, x, y, rotation) == (px, py));
}

/// The bytes of a pixel spell its bits, the lowest byte first; on a screen that
/// keeps the highest byte first, they stand the other way round.
pub proof fn law_pixel_bytes_spell_the_pixel(format: ScreenFormat, color: Rgb)
    requires
        format.sound(),
    ensures
        ({
            let little = pixel_bytes(ScreenFormat { big_endian: false, ..format }, color);
            let big = pixel_bytes(ScreenFormat { big_endian: true, ..format }, color);
            let pixel = pixel_of(format, color);
            let count = format.bytes_per_pixel as int;
            &&& little.len() == count
            &&& big.len() == count
            &&& forall|i: int| 0 <= i < count ==> #[trigger] big[i] == little[count - 1 - i]
            &&& count == 4 ==> little[0] + 256 * little[1] + 65536 * little[2] + 16777216
                * little[3] == pixel
            &&& count == 2 ==> little[0] + 256 * little[1] == pixel % 65536
        }),
{
}

/// A colour value of a field of eight bits stands in it unchanged; in a narrower
/// field, the darkest value leaves all bits clear, the brightest sets them all,
/// and a brighter value is never below a darker one.
pub proof fn law_colours_keep_their_brightness(field: Bitfield, darker: u8, brighter: u8)
    requires
        field.length <= 8,
        field.offset < 32,
        darker <= brighter,
    ensures
        field.length == 8 ==> channel_bits(darker, field) == (darker as u32) << field.offset,
        channel_bits(0, field) == 0,
        field.length == 0 ==> channel_bits(brighter, field) == 0,
        0 < field.length ==> channel_bits(255, field) == (((1u32 << field.length) - 1) as u32)
            << field.offset,
        field.offset == 0 ==> channel_bits(darker, field) <= channel_bits(brighter, field),
        field.offset == 0 && field.length > 0 ==> {
            let most = ((1u32 << field.length) - 1) as int;
            &&& 255 * channel_bits(darker, field) <= darker * most
            &&& darker * most < 255 * (channel_bits(darker, field) + 1)
        },
{
    let limit = channel_limit(field.length);
    let offset = field.offset;
    assert(1u32 << 1u32 == 2 && 1u32 << 2u32 == 4 && 1u32 << 3u32 == 8 && 1u32 << 4u32 == 16
        && 1u32 << 5u32 == 32 && 1u32 << 6u32 == 64 && 1u32 << 7u32 == 128 && 1u32 << 8u32 == 256)
        by (bit_vector);
    assert(0u32 << offset == 0) by (bit_vector)
        requires
            offset < 32,
    ;
    let a = (darker as int * limit / 255) as u32;
    let b = (brighter as int * limit / 255) as u32;
    assert(a << 0u32 == a && b << 0u32 == b) by (bit_vector);
    assert(0 <= darker as int * limit <= brighter as int * limit <= 255 * limit)
        by (nonlinear_arith)
        requires
            0 <= darker <= brighter <= 255,
            0 <= limit,
    ;
}

/// A place that a glyph covers wholly has the colour of the text, one that it does
/// not cover that of the ground, and the more it covers the nearer the colour is
/// to that of the text, never beyond either.
pub proof fn law_covered_places_are_mixed(front: u8, back: u8, less_covered: u8, more_covered: u8)
    requires
        less_covered <= more_covered,
    ensures
        blended(front, back, 255) == front,
        blended(front, back, 0) == back,
        front <= back ==> front <= blended(front, back, more_covered) <= blended(
            front,
            back,
            less_covered,
        ) <= back,
        back <= front ==> back <= blended(front, back, less_covered) <= blended(
            front,
            back,
            more_covered,
        ) <= front,
{
    let f = front as int;
    let g = back as int;
    let a = less_covered as int;
    let b = more_covered as int;
    assert(f * 255 + g * (255 - 255) == 255 * f && f * 0 + g * (255 - 0) == 255 * g)
        by (nonlinear_arith);
    let low = f * a + g * (255 - a);
    let high = f * b + g * (255 - b);
    if f <= g {
        assert(255 * f <= high <= low <= 255 * g) by (nonlinear_arith)
            requires
                0 <= a <= b <= 255,
                f <= g,
                low == f * a + g * (255 - a),
                high == f * b + g * (255 - b),
        ;
    }
    if g <= f {
        assert(255 * g <= low <= high <= 255 * f) by (nonlinear_arith)
            requires
                0 <= a <= b <= 255,
                g <= f,
                low == f * a + g * (255 - a),
                high == f * b + g * (255 - b),
        ;
    }
}

proof fn lemma_glyph_on_page(
    format: ScreenFormat,
    memory: Seq<u8>,
    glyph: Glyph,
    left: int,
    top: int,
    count: int,
    colors: (Rgb, Rgb),
    rotation: u8,
    at_x: int,
    at_y: int,
)
    requires
        holds_screen(format, memory),
        0 <= left,
        0 <= top,
        0 < glyph.width && 0 < glyph.height ==> on_page(
            format,
            left + glyph.width - 1,
            top + glyph.height - 1,
            rotation,
        ),
        0 <= count <= glyph.width * glyph.height,
        on_page(format, at_x, at_y, rotation),
    ensures
        ({
            let after = glyph_painted(format, memory, glyph, left, top, count, colors, rotation);
            let place = physical(format, at_x, at_y, rotation);
            let index = (at_y - top) * glyph.width + (at_x - left);
            &&& holds_screen(format, after)
            &&& pixel_at(format, after, place) == if left <= at_x < left + glyph.width && top
                <= at_y < top + glyph.height && index < count && glyph.coverage@[index] != 0 {
                pixel_bytes(format, blended_color(colors.0, colors.1, glyph.coverage@[index]))
            } else {
                pixel_at(format, memory, place)
            }
        }),
    decreases count,
{
    let width = glyph.width as int;
    let height = glyph.height as int;
    if count > 0 {
        lemma_glyph_on_page(
            format,
            memory,
            glyph,
            left,
            top,
            count - 1,
            colors,
            rotation,
            at_x,
            at_y,
        );
        let before = glyph_painted(format, memory, glyph, left, top, count - 1, colors, rotation);
        assert(0 < width && 0 < height) by (nonlinear_arith)
            requires
                0 < count <= width * height,
                0 <= width,
                0 <= height,
        ;
        let gx = (count - 1) % width;
        let gy = (count - 1) / width;
        vstd::arithmetic::div_mod::lemma_fundamental_div_mod(count - 1, width);
        assert(0 <= gx < width);
        assert(width * gy == gy * width) by (nonlinear_arith);
        assert(0 <= gy < height) by (nonlinear_arith)
            requires
                count - 1 == gy * width + gx,
                0 <= gx < width,
                0 < count <= width * height,
        ;
        if left <= at_x < left + width && top <= at_y < top + height {
            lemma_glyph_index(at_x - left, at_y - top, width, height);
            lemma_glyph_index(gx, gy, width, height);
        }
        let alpha = glyph.coverage@[count - 1];
        if alpha != 0 {
            law_a_turned_place_holds_its_colour(
                format,
                before,
                left + gx,
                top + gy,
                blended_color(colors.0, colors.1, alpha),
                rotation,
                at_x,
                at_y,
            );
        }
    }
}

/// The picture of a character on the page, however it is turned, colours exactly
/// the places that it covers, each by how much it covers it; all others keep what
/// they held.
pub proof fn law_a_glyph_colours_what_it_covers(
    format: ScreenFormat,
    memory: Seq<u8>,
    glyph: Glyph,
    left: int,
    top: int,
    colors: (Rgb, Rgb),
    rotation: u8,
    at_x: int,
    at_y: int,
)
    requires
        holds_screen(format, memory),
        glyph.sound(),
        0 <= left,
        0 <= top,
        0 < glyph.width && 0 < glyph.height ==> on_page(
            format,
            left + glyph.width - 1,
            top + glyph.height - 1,
            rotation,
        ),
        on_page(format, at_x, at_y, rotation),
    ensures
        ({
            let after = glyph_painted(
                format,
                memory,
                glyph,
                left,
                top,
                glyph.width * glyph.height,
                colors,
                rotation,
            );
            let place = physical(format, at_x, at_y, rotation);
            let cover = glyph.coverage@[(at_y - top) * glyph.width + (at_x - left)];
            pixel_at(format, after, place) == if left <= at_x < left + glyph.width && top <= at_y
                < top + glyph.height && cover != 0 {
                pixel_bytes(format, blended_color(colors.0, colors.1, cover))
            } else {
                pixel_at(format, memory, place)
            }
        }),
{
    assert(0 <= glyph.width * glyph.height) by (nonlinear_arith);
    lemma_glyph_on_page(
        format,
        memory,
        glyph,
        left,
        top,
        glyph.width * glyph.height,
        colors,
        rotation,
        at_x,
        at_y,
    );
    if left <= at_x < left + glyph.width && top <= at_y < top + glyph.height {
        lemma_glyph_index(
            at_x - left,
            at_y - top,
            glyph.width as int,
            glyph.height as int,
        );
    }
}

/// The pen stands where the text begins and moves on by one cell for each
/// character of ASCII that can be seen, by four for a tab, and by one or two for
/// any other character.
pub proof fn law_the_pen_moves_by_cells(text: Seq<char>, x: int, cell_width: int, k: int)
    requires
        0 <= k < text.len(),
        0 <= cell_width,
    ensures
        pen(text, x, cell_width, 0) == x,
        ' ' <= text[k] <= '~' ==> pen(text, x, cell_width, k + 1) == pen(text, x, cell_width, k)
            + cell_width,
        text[k] == '\t' ==> pen(text, x, cell_width, k + 1) == pen(text, x, cell_width, k) + 4
            * cell_width,
        text[k] != '\t' ==> pen(text, x, cell_width, k + 1) == pen(text, x, cell_width, k)
            + cell_width || pen(text, x, cell_width, k + 1) == pen(text, x, cell_width, k) + 2
            * cell_width,
{
    assert(cell_width * 1 == cell_width && cell_width * 2 == 2 * cell_width && cell_width * 4 == 4
        * cell_width) by (nonlinear_arith);
}

/// Text is drawn character by character: all characters but the last as if they
/// stood alone, and then the picture of the last, with its left edge at the pen
/// and its foot on the base line. A tab draws nothing.
pub proof fn law_text_is_drawn_glyph_by_glyph(
    format: ScreenFormat,
    memory: Seq<u8>,
    text: Seq<char>,
    glyphs: Seq<Glyph>,
    at: (int, int),
    layout: Layout,
    k: int,
    colors: (Rgb, Rgb),
    rotation: u8,
)
    requires
        0 <= k < text.len(),
        text.len() == glyphs.len(),
    ensures
        text_painted(format, memory, text, glyphs, at, layout, 0, colors, rotation) == memory,
        text[k] == '\t' ==> text_painted(
            format,
            memory,
            text,
            glyphs,
            at,
            layout,
            k + 1,
            colors,
            rotation,
        ) == text_painted(format, memory, text, glyphs, at, layout, k, colors, rotation),
        text[k] != '\t' ==> text_painted(
            format,
            memory,
            text,
            glyphs,
            at,
            layout,
            k + 1,
            colors,
            rotation,
        ) == glyph_painted(
            format,
            text_painted(format, memory, text, glyphs, at, layout, k, colors, rotation),
            glyphs[k],
            pen(text, at.0, layout.cell_width as int, k) + glyphs[k].xmin,
            at.1 + layout.ascent - glyphs[k].height - glyphs[k].ymin,
            glyphs[k].width * glyphs[k].height,
            colors,
            rotation,
        ),
{
}

/// The page holds as many columns and rows as fit between its margins, and two
/// rows more below for what stands at the foot: what is there fits, and one more
/// would not. A page too small for any still has one.
pub proof fn law_the_page_is_used_to_its_margins(width: int, height: int, measures: FontMeasures)
    requires
        0 <= width <= LARGEST_SIDE,
        0 <= height <= LARGEST_SIDE,
        measures.line_size <= LARGEST_MEASURE,
        measures.cell_width <= LARGEST_MEASURE,
    ensures
        ({
            let page = page_layout(width, height, measures);
            &&& page.logical_width == width
            &&& page.logical_height == height
            &&& page.ascent == measures.ascent
            &&& page.line_height == measures.line_size + 2
            &&& page.cell_width >= 1
            &&& measures.cell_width >= 1 ==> page.cell_width == measures.cell_width
            &&& page.columns >= 1
            &&& page.content_rows >= 1
            &&& page.margin_x >= 12
            &&& page.margin_x > 12 ==> 32 * page.margin_x <= width
            &&& width < 32 * (page.margin_x + 1)
            &&& page.margin_y >= 8
            &&& page.margin_y > 8 ==> 40 * page.margin_y <= height
            &&& height < 40 * (page.margin_y + 1)
            &&& page.columns > 1 ==> 2 * page.margin_x + page.columns * page.cell_width <= width
            &&& width < 2 * page.margin_x + (page.columns + 1) * page.cell_width
            &&& page.content_rows > 1 ==> 2 * page.margin_y + (page.content_rows + 2)
                * page.line_height <= height
            &&& height < 2 * page.margin_y + (page.content_rows + 3) * page.line_height
        }),
{
    let line_height = measures.line_size + 2;
    let cell_width = at_least(measures.cell_width as int, 1);
    let margin_x = at_least(width / 32, 12);
    let margin_y = at_least(height / 40, 8);
    let across = less(width, margin_x * 2);
    let down = less(height, margin_y * 2 + line_height * 2);
    vstd::arithmetic::div_mod::lemma_fundamental_div_mod(across, cell_width);
    vstd::arithmetic::div_mod::lemma_fundamental_div_mod(down, line_height);
    let columns = across / cell_width;
    let rows = down / line_height;
    assert(0 <= columns <= across) by (nonlinear_arith)
        requires
            columns == across / cell_width,
            cell_width >= 1,
            across >= 0,
    ;
    assert(0 <= rows <= down) by (nonlinear_arith)
        requires
            rows == down / line_height,
            line_height >= 1,
            down >= 0,
    ;
    let page = page_layout(width, height, measures);
    assert(page.columns == at_least(columns, 1));
    assert(page.content_rows == at_least(rows, 1));
    assert(cell_width * columns == columns * cell_width && line_height * rows == rows
        * line_height && (columns + 1) * cell_width == columns * cell_width + cell_width && (rows
        + 2) * line_height == rows * line_height + 2 * line_height && (rows + 3) * line_height
        == rows * line_height + 3 * line_height) by (nonlinear_arith);
    if columns < 1 {
        assert(columns * cell_width == 0) by (nonlinear_arith)
            requires
                columns == 0,
        ;
        assert((1 + 1) * cell_width == 2 * cell_width);
    }
    if rows < 1 {
        assert(rows * line_height == 0) by (nonlinear_arith)
            requires
                rows == 0,
        ;
    }
}

/// A pixel holds each colour in its own bits and the opacity in full: a pure
/// colour sets the bits of its field alone, and a mixed one those of its three
/// parts.
pub proof fn law_a_pixel_joins_its_colours(format: ScreenFormat, color: Rgb)
    requires
        format.sound(),
    ensures
        ({
            let clear = ScreenFormat { transp: Bitfield { offset: 0, length: 0 }, ..format };
            &&& pixel_of(clear, (color.0, 0, 0)) == channel_bits(color.0, format.red)
            &&& pixel_of(clear, (0, color.1, 0)) == channel_bits(color.1, format.green)
            &&& pixel_of(clear, (0, 0, color.2)) == channel_bits(color.2, format.blue)
            &&& pixel_of(clear, color) == pixel_of(clear, (color.0, 0, 0)) | pixel_of(
                clear,
                (0, color.1, 0),
            ) | pixel_of(clear, (0, 0, color.2))
            &&& pixel_of(format, color) == pixel_of(clear, color) | channel_bits(
                255,
                format.transp,
            )
        }),
{
    let r = channel_bits(color.0, format.red);
    let g = channel_bits(color.1, format.green);
    let b = channel_bits(color.2, format.blue);
    let t = channel_bits(255, format.transp);
    lemma_no_light(format.red);
    lemma_no_light(format.green);
    lemma_no_light(format.blue);
    assert(r | 0 | 0 | 0 == r && 0u32 | g | 0 | 0 == g && 0u32 | 0u32 | b | 0 == b && r | g | b | 0 == r | g
        | b && r | g | b | t == (r | g | b | 0) | t) by (bit_vector);
}

proof fn lemma_no_light(field: Bitfield)
    requires
        field.sound(),
    ensures
        channel_bits(0, field) == 0,
{
    let offset = field.offset;
    if field.length > 0 {
        assert(0u32 << offset == 0) by (bit_vector)
            requires
                offset < 32,
        ;
        assert(0 * channel_limit(field.length) / 255 == 0);
    }
}

} // verus!
