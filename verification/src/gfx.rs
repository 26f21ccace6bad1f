//! Drawing: rectangles and gradients, as the bytes of a frame buffer.

use vstd::prelude::*;
use crate::bootinfo::{FrameBufferInfo, PixelFormat};

verus! {

/// A color.
#[derive(Debug, Clone, Copy, PartialEq, Eq, Structural)]
pub struct Color {
    pub r: u8,
    pub g: u8,
    pub b: u8,
}

impl Color {
    pub fn rgb(r: u8, g: u8, b: u8) -> (color: Color)
        ensures
            color == (Color { r, g, b }),
    {
        Color { r, g, b }
    }
}

/// A component on the way from `a` to `b`, rounded towards `a`, and no brighter or darker than there
/// is.
pub open spec fn mixed_component(a: u8, b: u8, numerator: int, denominator: int) -> u8 {
    let value = if b >= a {
        a + (b - a) * numerator / denominator
    } else {
        a - (a - b) * numerator / denominator
    };
    if value < 0 {
        0
    } else if value > 255 {
        255
    } else {
        value as u8
    }
}

/// The color on the way from `from` to `to`.
pub open spec fn mixed(from: Color, to: Color, numerator: int, denominator: int) -> Color {
    Color {
        r: mixed_component(from.r, to.r, numerator, denominator),
        g: mixed_component(from.g, to.g, numerator, denominator),
        b: mixed_component(from.b, to.b, numerator, denominator),
    }
}

/// How far apart two components are.
pub open spec fn distance(a: u8, b: u8) -> int {
    if b >= a {
        b - a
    } else {
        a - b
    }
}

/// Whether colors can be mixed by this numerator within 32 bits.
pub open spec fn mixable(from: Color, to: Color, numerator: int) -> bool {
    &&& 0 <= numerator <= i32::MAX
    &&& distance(from.r, to.r) * numerator <= i32::MAX
    &&& distance(from.g, to.g) * numerator <= i32::MAX
    &&& distance(from.b, to.b) * numerator <= i32::MAX
}

fn mix_component(a: u8, b: u8, numerator: u32, denominator: u32) -> (component: u8)
    requires
        distance(a, b) * numerator <= i32::MAX,
        0 < denominator,
    ensures
        component == mixed_component(a, b, numerator as int, denominator as int),
{
    let apart: u32 = if b >= a {
        (b - a) as u32
    } else {
        (a - b) as u32
    };
    assert(0 <= apart * numerator) by (nonlinear_arith)
        requires
            0 <= apart,
            0 <= numerator,
    ;
    let step: u32 = apart * numerator / denominator;
    assert(step == (apart * numerator) as int / denominator as int);
    if b >= a {
        let room: u32 = 255 - a as u32;
        if step > room {
            255
        } else {
            (a as u32 + step) as u8
        }
    } else if step > a as u32 {
        0
    } else {
        (a as u32 - step) as u8
    }
}

/// The color on the way from `from` to `to`.
pub fn blend(from: Color, to: Color, numerator: u32, denominator: u32) -> (color: Color)
    requires
        mixable(from, to, numerator as int),
        0 < denominator <= i32::MAX,
    ensures
        color == mixed(from, to, numerator as int, denominator as int),
{
    Color {
        r: mix_component(from.r, to.r, numerator, denominator),
        g: mix_component(from.g, to.g, numerator, denominator),
        b: mix_component(from.b, to.b, numerator, denominator),
    }
}

/// Colors that can be mixed by a numerator can be mixed by a lesser one.
proof fn lemma_mixable(from: Color, to: Color, lesser: int, numerator: int)
    requires
        mixable(from, to, numerator),
        0 <= lesser <= numerator,
    ensures
        mixable(from, to, lesser),
{
    vstd::arithmetic::mul::lemma_mul_inequality(lesser, numerator, distance(from.r, to.r));
    vstd::arithmetic::mul::lemma_mul_inequality(lesser, numerator, distance(from.g, to.g));
    vstd::arithmetic::mul::lemma_mul_inequality(lesser, numerator, distance(from.b, to.b));
    assert(forall|a: int, b: int| #[trigger] (a * b) == b * a) by (nonlinear_arith);
}

/// A gradient starts with the first color and ends with the second.
pub proof fn a_mixture_has_both_ends(from: Color, to: Color, denominator: int)
    requires
        0 < denominator,
    ensures
        mixed(from, to, 0, denominator) == from,
        mixed(from, to, denominator, denominator) == to,
{
    lemma_mixed_ends(from.r, to.r, denominator);
    lemma_mixed_ends(from.g, to.g, denominator);
    lemma_mixed_ends(from.b, to.b, denominator);
}

proof fn lemma_mixed_ends(a: u8, b: u8, denominator: int)
    requires
        0 < denominator,
    ensures
        mixed_component(a, b, 0, denominator) == a,
        mixed_component(a, b, denominator, denominator) == b,
{
    assert((b - a) * 0 == 0 && (a - b) * 0 == 0);
    vstd::arithmetic::div_mod::lemma_div_basics(denominator);
    vstd::arithmetic::div_mod::lemma_div_multiples_vanish(b - a, denominator);
    vstd::arithmetic::div_mod::lemma_div_multiples_vanish(a - b, denominator);
    assert(denominator * (b - a) == (b - a) * denominator) by (nonlinear_arith);
    assert(denominator * (a - b) == (a - b) * denominator) by (nonlinear_arith);
}

/// A picture, as the bytes of a frame buffer.
pub struct Canvas {
    pub info: FrameBufferInfo,
    pub pixels: Vec<u8>,
}

/// A size as a signed number: one that is too large counts as negative.
pub open spec fn signed(size: u32) -> int {
    if size > i32::MAX {
        size - 0x1_0000_0000
    } else {
        size as int
    }
}

/// Where in the buffer the pixel at `x`, `y` starts.
pub open spec fn pixel_start(info: FrameBufferInfo, x: int, y: int) -> int {
    (y * info.stride + x) * info.bytes_per_pixel
}

/// The buffer can be drawn on: a pixel has a byte for each component, and every pixel has an address.
pub open spec fn drawable(info: FrameBufferInfo) -> bool {
    &&& info.bytes_per_pixel >= 3
    &&& (info.height * info.stride + info.width) * info.bytes_per_pixel + info.bytes_per_pixel
        <= usize::MAX
}

/// Whether the buffer can be drawn on.
pub fn is_drawable(info: &FrameBufferInfo) -> (result: bool)
    ensures
        result == drawable(*info),
{
    let depth: usize = info.bytes_per_pixel;
    if depth < 3 {
        return false;
    }
    let ghost rows = info.height * info.stride;
    assert(rows + info.width <= (rows + info.width) * depth) by (nonlinear_arith)
        requires
            rows == info.height * info.stride,
            depth >= 3,
    ;
    let rows: usize = match (info.height as usize).checked_mul(info.stride) {
        Some(rows) => rows,
        None => return false,
    };
    let pixels: usize = match rows.checked_add(info.width as usize) {
        Some(pixels) => pixels,
        None => return false,
    };
    match pixels.checked_mul(depth) {
        Some(bytes) => bytes.checked_add(depth).is_some(),
        None => false,
    }
}

/// The buffer with a pixel painted. One outside the picture or behind the buffer's end is left out.
pub open spec fn painted(pixels: Seq<u8>, info: FrameBufferInfo, x: int, y: int, color: Color) -> Seq<u8> {
    let at = pixel_start(info, x, y);
    if x < 0 || y < 0 || x >= signed(info.width) || y >= signed(info.height) || at
        + info.bytes_per_pixel > info.size {
        pixels
    } else {
        let (first, last) = if info.pixel_format == PixelFormat::Rgb {
            (color.r, color.b)
        } else {
            (color.b, color.r)
        };
        let colored = pixels.update(at, first).update(at + 1, color.g).update(at + 2, last);
        if info.bytes_per_pixel > 3 {
            colored.update(at + 3, 0)
        } else {
            colored
        }
    }
}

/// The buffer with `n` pixels painted from `x`, `y` to the right.
pub open spec fn row_painted(
    pixels: Seq<u8>,
    info: FrameBufferInfo,
    x: int,
    y: int,
    n: nat,
    color: Color,
) -> Seq<u8>
    decreases n,
{
    if n == 0 {
        pixels
    } else {
        painted(
            row_painted(pixels, info, x, y, (n - 1) as nat, color),
            info,
            x + n - 1,
            y,
            color,
        )
    }
}

/// The buffer with `n` rows of `width` pixels painted from `x`, `y` downwards.
pub open spec fn rows_painted(
    pixels: Seq<u8>,
    info: FrameBufferInfo,
    x: int,
    y: int,
    width: nat,
    n: nat,
    color: Color,
) -> Seq<u8>
    decreases n,
{
    if n == 0 {
        pixels
    } else {
        row_painted(
            rows_painted(pixels, info, x, y, width, (n - 1) as nat, color),
            info,
            x,
            y + n - 1,
            width,
            color,
        )
    }
}

/// A sum that is kept within 32 bits.
pub open spec fn clipped_sum(a: int, b: int) -> int {
    if a + b > i32::MAX {
        i32::MAX as int
    } else if a + b < i32::MIN {
        i32::MIN as int
    } else {
        a + b
    }
}

/// The buffer with a rectangle filled, as far as it is in the picture.
#[verifier::opaque]
pub open spec fn filled(
    pixels: Seq<u8>,
    info: FrameBufferInfo,
    x: int,
    y: int,
    width: int,
    height: int,
    color: Color,
) -> Seq<u8> {
    let left = if x > 0 {
        x
    } else {
        0
    };
    let top = if y > 0 {
        y
    } else {
        0
    };
    let right = if clipped_sum(x, width) < signed(info.width) {
        clipped_sum(x, width)
    } else {
        signed(info.width)
    };
    let bottom = if clipped_sum(y, height) < signed(info.height) {
        clipped_sum(y, height)
    } else {
        signed(info.height)
    };
    if left >= right || top >= bottom {
        pixels
    } else {
        rows_painted(
            pixels,
            info,
            left,
            top,
            (right - left) as nat,
            (bottom - top) as nat,
            color,
        )
    }
}

/// The buffer with the frame of a rectangle drawn.
pub open spec fn framed(
    pixels: Seq<u8>,
    info: FrameBufferInfo,
    x: int,
    y: int,
    width: int,
    height: int,
    color: Color,
) -> Seq<u8> {
    if width <= 0 || height <= 0 {
        pixels
    } else {
        let top = filled(pixels, info, x, y, width, 1, color);
        let bottom = filled(top, info, x, y + height - 1, width, 1, color);
        let left = filled(bottom, info, x, y, 1, height, color);
        filled(left, info, x + width - 1, y, 1, height, color)
    }
}

/// The buffer with the first `n` of `height` rows filled by a gradient.
pub open spec fn graded(
    pixels: Seq<u8>,
    info: FrameBufferInfo,
    top: Color,
    bottom: Color,
    height: int,
    n: nat,
) -> Seq<u8>
    decreases n,
{
    if n == 0 {
        pixels
    } else {
        filled(
            graded(pixels, info, top, bottom, height, (n - 1) as nat),
            info,
            0,
            n - 1,
            signed(info.width),
            1,
            if height <= 1 {
                top
            } else {
                mixed(top, bottom, n - 1, height - 1)
            },
        )
    }
}

/// How many cells cover `size`.
pub open spec fn cells(size: int, cell: int) -> nat {
    if size + cell - 1 <= 0 {
        0
    } else {
        ((size + cell - 1) / cell) as nat
    }
}

/// The buffer with every other of the first `n` cells of row `row` filled.
pub open spec fn cell_row(
    pixels: Seq<u8>,
    info: FrameBufferInfo,
    cell: int,
    row: int,
    color: Color,
    n: nat,
) -> Seq<u8>
    decreases n,
{
    if n == 0 {
        pixels
    } else {
        let before = cell_row(pixels, info, cell, row, color, (n - 1) as nat);
        if (n - 1 + row) % 2 == 0 {
            filled(before, info, (n - 1) * cell, row * cell, cell, cell, color)
        } else {
            before
        }
    }
}

/// The buffer with every other cell of the first `n` rows filled.
pub open spec fn cell_rows(
    pixels: Seq<u8>,
    info: FrameBufferInfo,
    cell: int,
    columns: nat,
    color: Color,
    n: nat,
) -> Seq<u8>
    decreases n,
{
    if n == 0 {
        pixels
    } else {
        cell_row(
            cell_rows(pixels, info, cell, columns, color, (n - 1) as nat),
            info,
            cell,
            n - 1,
            color,
            columns,
        )
    }
}

/// The buffer with a checkerboard of mixed color.
pub open spec fn checkered(
    pixels: Seq<u8>,
    info: FrameBufferInfo,
    cell: int,
    base: Color,
    accent: Color,
    alpha_num: int,
    alpha_den: int,
) -> Seq<u8> {
    if cell <= 0 || alpha_den == 0 {
        pixels
    } else {
        cell_rows(
            pixels,
            info,
            cell,
            cells(signed(info.width), cell),
            mixed(base, accent, alpha_num, alpha_den),
            cells(signed(info.height), cell),
        )
    }
}

/// The buffer with a bar at the bottom of the picture.
pub open spec fn panelled(
    pixels: Seq<u8>,
    info: FrameBufferInfo,
    height: int,
    color: Color,
    edge: Color,
) -> Seq<u8> {
    let top = signed(info.height) - height;
    filled(
        filled(pixels, info, 0, top, signed(info.width), height, color),
        info,
        0,
        top,
        signed(info.width),
        1,
        edge,
    )
}

/// The buffer with the first `n` of `layers` frames of a shadow, each larger than the one before.
pub open spec fn shadowed(
    pixels: Seq<u8>,
    info: FrameBufferInfo,
    x: int,
    y: int,
    width: int,
    height: int,
    layers: int,
    color: Color,
    n: nat,
) -> Seq<u8>
    decreases n,
{
    if n == 0 {
        pixels
    } else {
        let layer = n - 1;
        framed(
            shadowed(pixels, info, x, y, width, height, layers, color, (n - 1) as nat),
            info,
            x - layer,
            y - layer,
            width + layer * 2,
            height + layer * 2,
            mixed(color, Color { r: 0, g: 0, b: 0 }, 4 + (layers - layer), 18),
        )
    }
}

/// Whether the frames of a shadow have coordinates along an axis, up to frame `last`.
pub open spec fn shadow_fits(start: int, length: int, last: int) -> bool {
    &&& i32::MIN <= start - last
    &&& last * 2 <= i32::MAX
    &&& length + last * 2 <= i32::MAX
    &&& start + length + last <= i32::MAX
}

/// Whether the pixel of the pointer in this row and column is on its edge.
pub open spec fn on_edge(row: int, column: int) -> bool {
    column == 0 || row == 17 || column == if row < 9 {
        row
    } else {
        9
    }
}

/// The buffer with the first `n` pixels of a row of the pointer.
pub open spec fn cursor_row(pixels: Seq<u8>, info: FrameBufferInfo, x: int, y: int, row: int, n: nat) -> Seq<u8>
    decreases n,
{
    if n == 0 {
        pixels
    } else {
        let white = painted(
            cursor_row(pixels, info, x, y, row, (n - 1) as nat),
            info,
            x + n - 1,
            y + row,
            Color { r: 245, g: 247, b: 250 },
        );
        if on_edge(row, n - 1) {
            painted(white, info, x + n - 1, y + row, Color { r: 17, g: 24, b: 39 })
        } else {
            white
        }
    }
}

/// The buffer with the first `n` rows of the pointer.
pub open spec fn cursor_rows(pixels: Seq<u8>, info: FrameBufferInfo, x: int, y: int, n: nat) -> Seq<u8>
    decreases n,
{
    if n == 0 {
        pixels
    } else {
        cursor_row(
            cursor_rows(pixels, info, x, y, (n - 1) as nat),
            info,
            x,
            y,
            n - 1,
            if n - 1 < 9 {
                n
            } else {
                10
            },
        )
    }
}

/// A size as a signed number.
fn to_signed(size: u32) -> (value: i32)
    ensures
        value == signed(size),
{
    if size > i32::MAX as u32 {
        (size as i64 - 0x1_0000_0000) as i32
    } else {
        size as i32
    }
}

/// Every pixel of the picture has an address.
proof fn lemma_pixel_start(info: FrameBufferInfo, x: int, y: int)
    requires
        drawable(info),
        0 <= x < info.width,
        0 <= y < info.height,
    ensures
        0 <= y * info.stride <= usize::MAX,
        0 <= y * info.stride + x <= usize::MAX,
        0 <= pixel_start(info, x, y) <= usize::MAX - info.bytes_per_pixel,
{
    let stride = info.stride as int;
    let bpp = info.bytes_per_pixel as int;
    let height = info.height as int;
    let width = info.width as int;
    assert(0 <= y * stride <= height * stride) by (nonlinear_arith)
        requires
            0 <= y < height,
            0 <= stride,
    ;
    let place = y * stride + x;
    let all = height * stride + width;
    assert(0 <= place <= all);
    assert(0 <= place * bpp <= all * bpp && place <= place * bpp) by (nonlinear_arith)
        requires
            0 <= place <= all,
            1 <= bpp,
    ;
}

impl Canvas {
    /// The buffer is as long as is said of it, and can be drawn on.
    pub open spec fn well_formed(&self) -> bool {
        &&& drawable(self.info)
        &&& self.pixels@.len() == self.info.size
    }

    /// The picture has changed to `pixels`.
    pub open spec fn becomes(&self, before: &Canvas, pixels: Seq<u8>) -> bool {
        &&& self.well_formed()
        &&& self.info == before.info
        &&& self.pixels@ == pixels
    }

    /// A picture with the bytes of a frame buffer.
    pub fn from_framebuffer(info: FrameBufferInfo, pixels: Vec<u8>) -> (canvas: Canvas)
        requires
            drawable(info),
            pixels@.len() == info.size,
        ensures
            canvas.well_formed(),
            canvas.info == info,
            canvas.pixels@ == pixels@,
    {
        Canvas { info, pixels }
    }

    pub fn width(&self) -> (width: i32)
        ensures
            width == signed(self.info.width),
    {
        to_signed(self.info.width)
    }

    pub fn height(&self) -> (height: i32)
        ensures
            height == signed(self.info.height),
    {
        to_signed(self.info.height)
    }

    /// Fills the picture.
    pub fn clear(&mut self, color: Color)
        requires
            old(self).well_formed(),
        ensures
            final(self).becomes(
                old(self),
                filled(
                    old(self).pixels@,
                    old(self).info,
                    0,
                    0,
                    signed(old(self).info.width),
                    signed(old(self).info.height),
                    color,
                ),
            ),
    {
        let width: i32 = self.width();
        let height: i32 = self.height();
        self.fill_rect(0, 0, width, height, color);
    }

    /// Fills a rectangle, as far as it is in the picture.
    pub fn fill_rect(&mut self, x: i32, y: i32, width: i32, height: i32, color: Color)
        requires
            old(self).well_formed(),
        ensures
            final(self).becomes(
                old(self),
                filled(
                    old(self).pixels@,
                    old(self).info,
                    x as int,
                    y as int,
                    width as int,
                    height as int,
                    color,
                ),
            ),
    {
        reveal(filled);
        let left: i32 = if x > 0 {
            x
        } else {
            0
        };
        let top: i32 = if y > 0 {
            y
        } else {
            0
        };
        let x_end: i32 = add_clipped(x, width);
        let y_end: i32 = add_clipped(y, height);
        let picture_width: i32 = self.width();
        let picture_height: i32 = self.height();
        let right: i32 = if x_end < picture_width {
            x_end
        } else {
            picture_width
        };
        let bottom: i32 = if y_end < picture_height {
            y_end
        } else {
            picture_height
        };
        if left >= right || top >= bottom {
            return;
        }
        let mut py: i32 = top;
        while py < bottom
            invariant
                top <= py <= bottom,
                left < right,
                self.well_formed(),
                self.info == old(self).info,
                self.pixels@ == rows_painted(
                    old(self).pixels@,
                    old(self).info,
                    left as int,
                    top as int,
                    (right - left) as nat,
                    (py - top) as nat,
                    color,
                ),
            decreases bottom - py,
        {
            let ghost before = self.pixels@;
            let mut px: i32 = left;
            while px < right
                invariant
                    left <= px <= right,
                    self.well_formed(),
                    self.info == old(self).info,
                    self.pixels@ == row_painted(
                        before,
                        old(self).info,
                        left as int,
                        py as int,
                        (px - left) as nat,
                        color,
                    ),
                decreases right - px,
            {
                self.put_pixel(px, py, color);
                px += 1;
            }
            py += 1;
        }
    }

    /// Draws the frame of a rectangle, whose far edges have coordinates.
    pub fn draw_rect(&mut self, x: i32, y: i32, width: i32, height: i32, color: Color)
        requires
            old(self).well_formed(),
            width > 0 && height > 0 ==> x + width <= i32::MAX && y + height <= i32::MAX,
        ensures
            final(self).becomes(
                old(self),
                framed(
                    old(self).pixels@,
                    old(self).info,
                    x as int,
                    y as int,
                    width as int,
                    height as int,
                    color,
                ),
            ),
    {
        if width <= 0 || height <= 0 {
            return;
        }
        self.fill_rect(x, y, width, 1, color);
        self.fill_rect(x, y + height - 1, width, 1, color);
        self.fill_rect(x, y, 1, height, color);
        self.fill_rect(x + width - 1, y, 1, height, color);
    }

    /// Fills the picture by a gradient from top to bottom.
    pub fn vertical_gradient(&mut self, top: Color, bottom: Color)
        requires
            old(self).well_formed(),
            signed(old(self).info.height) > 1 ==> mixable(
                top,
                bottom,
                signed(old(self).info.height) - 1,
            ),
        ensures
            final(self).becomes(
                old(self),
                graded(
                    old(self).pixels@,
                    old(self).info,
                    top,
                    bottom,
                    signed(old(self).info.height),
                    if signed(old(self).info.height) > 1 {
                        signed(old(self).info.height) as nat
                    } else {
                        1
                    },
                ),
            ),
    {
        let picture_height: i32 = self.height();
        let width: i32 = self.width();
        let height: i32 = if picture_height > 1 {
            picture_height
        } else {
            1
        };
        let mut y: i32 = 0;
        while y < height
            invariant
                0 <= y <= height,
                height == if signed(old(self).info.height) > 1 {
                    signed(old(self).info.height)
                } else {
                    1
                },
                height > 1 ==> mixable(top, bottom, height - 1),
                width == signed(old(self).info.width),
                self.well_formed(),
                self.info == old(self).info,
                self.pixels@ == graded(
                    old(self).pixels@,
                    old(self).info,
                    top,
                    bottom,
                    signed(old(self).info.height),
                    y as nat,
                ),
            decreases height - y,
        {
            proof {
                if height > 1 {
                    lemma_mixable(top, bottom, y as int, height - 1);
                }
            }
            let color = if height == 1 {
                top
            } else {
                blend(top, bottom, y as u32, (height - 1) as u32)
            };
            self.fill_rect(0, y, width, 1, color);
            y += 1;
        }
    }

    /// Fills every other cell of a grid by a mixed color. The cells have coordinates.
    pub fn checkerboard(&mut self, cell: i32, base: Color, accent: Color, alpha_num: u32, alpha_den: u32)
        requires
            old(self).well_formed(),
            signed(old(self).info.width) + cell <= i32::MAX,
            signed(old(self).info.height) + cell <= i32::MAX,
            mixable(base, accent, alpha_num as int),
            alpha_den <= i32::MAX,
        ensures
            final(self).becomes(
                old(self),
                checkered(
                    old(self).pixels@,
                    old(self).info,
                    cell as int,
                    base,
                    accent,
                    alpha_num as int,
                    alpha_den as int,
                ),
            ),
    {
        if cell <= 0 || alpha_den == 0 {
            return;
        }
        let columns: i32 = count_cells(self.width(), cell);
        let rows: i32 = count_cells(self.height(), cell);
        let color = blend(base, accent, alpha_num, alpha_den);
        let mut cy: i32 = 0;
        while cy < rows
            invariant
                0 <= cy <= rows,
                0 < cell,
                columns == cells(signed(old(self).info.width), cell as int),
                rows == cells(signed(old(self).info.height), cell as int),
                columns * cell <= i32::MAX,
                rows * cell <= i32::MAX,
                self.well_formed(),
                self.info == old(self).info,
                self.pixels@ == cell_rows(
                    old(self).pixels@,
                    old(self).info,
                    cell as int,
                    columns as nat,
                    color,
                    cy as nat,
                ),
            decreases rows - cy,
        {
            let ghost before = self.pixels@;
            let mut cx: i32 = 0;
            while cx < columns
                invariant
                    0 <= cx <= columns,
                    0 <= cy < rows,
                    0 < cell,
                    columns * cell <= i32::MAX,
                    rows * cell <= i32::MAX,
                    self.well_formed(),
                    self.info == old(self).info,
                    self.pixels@ == cell_row(
                        before,
                        old(self).info,
                        cell as int,
                        cy as int,
                        color,
                        cx as nat,
                    ),
                decreases columns - cx,
            {
                assert(0 <= cx * cell <= columns * cell) by (nonlinear_arith)
                    requires
                        0 <= cx <= columns,
                        0 < cell,
                ;
                assert(0 <= cy * cell <= rows * cell) by (nonlinear_arith)
                    requires
                        0 <= cy <= rows,
                        0 < cell,
                ;
                if (cx % 2 == 0) == (cy % 2 == 0) {
                    self.fill_rect(cx * cell, cy * cell, cell, cell, color);
                }
                cx += 1;
            }
            cy += 1;
        }
    }

    /// Draws a bar at the bottom of the picture.
    pub fn draw_panel(&mut self, height: i32, color: Color, edge: Color)
        requires
            old(self).well_formed(),
            i32::MIN <= signed(old(self).info.height) - height <= i32::MAX,
        ensures
            final(self).becomes(
                old(self),
                panelled(old(self).pixels@, old(self).info, height as int, color, edge),
            ),
    {
        let top: i32 = self.height() - height;
        let width: i32 = self.width();
        self.fill_rect(0, top, width, height, color);
        self.fill_rect(0, top, width, 1, edge);
    }

    /// Draws a shadow around a rectangle. Its frames have coordinates.
    pub fn draw_shadow(&mut self, x: i32, y: i32, width: i32, height: i32, layers: i32, color: Color)
        requires
            old(self).well_formed(),
            layers > 0 ==> shadow_fits(x as int, width as int, layers - 1) && shadow_fits(
                y as int,
                height as int,
                layers - 1,
            ) && mixable(color, Color { r: 0, g: 0, b: 0 }, 4 + layers),
        ensures
            final(self).becomes(
                old(self),
                shadowed(
                    old(self).pixels@,
                    old(self).info,
                    x as int,
                    y as int,
                    width as int,
                    height as int,
                    layers as int,
                    color,
                    if layers > 0 {
                        layers as nat
                    } else {
                        0
                    },
                ),
            ),
    {
        let mut layer: i32 = 0;
        while layer < layers
            invariant
                0 <= layer,
                layers > 0 ==> layer <= layers,
                layers <= 0 ==> layer == 0,
                layers > 0 ==> shadow_fits(x as int, width as int, layers - 1) && shadow_fits(
                    y as int,
                    height as int,
                    layers - 1,
                ) && mixable(color, Color { r: 0, g: 0, b: 0 }, 4 + layers),
                self.well_formed(),
                self.info == old(self).info,
                self.pixels@ == shadowed(
                    old(self).pixels@,
                    old(self).info,
                    x as int,
                    y as int,
                    width as int,
                    height as int,
                    layers as int,
                    color,
                    layer as nat,
                ),
            decreases layers - layer,
        {
            proof {
                lemma_mixable(color, Color { r: 0, g: 0, b: 0 }, 4 + (layers - layer), 4 + layers);
            }
            let alpha: u32 = 4 + (layers - layer) as u32;
            let shade = blend(color, Color::rgb(0, 0, 0), alpha, 18);
            self.draw_rect(x - layer, y - layer, width + layer * 2, height + layer * 2, shade);
            layer += 1;
        }
    }

    /// Draws the pointer, whose pixels have coordinates.
    pub fn draw_cursor(&mut self, x: i32, y: i32)
        requires
            old(self).well_formed(),
            x + 9 <= i32::MAX,
            y + 17 <= i32::MAX,
        ensures
            final(self).becomes(
                old(self),
                cursor_rows(old(self).pixels@, old(self).info, x as int, y as int, 18),
            ),
    {
        let white = Color::rgb(245, 247, 250);
        let edge = Color::rgb(17, 24, 39);
        let mut row: i32 = 0;
        while row < 18
            invariant
                0 <= row <= 18,
                x + 9 <= i32::MAX,
                y + 17 <= i32::MAX,
                white == (Color { r: 245, g: 247, b: 250 }),
                edge == (Color { r: 17, g: 24, b: 39 }),
                self.well_formed(),
                self.info == old(self).info,
                self.pixels@ == cursor_rows(
                    old(self).pixels@,
                    old(self).info,
                    x as int,
                    y as int,
                    row as nat,
                ),
            decreases 18 - row,
        {
            let ghost before = self.pixels@;
            let last: i32 = if row < 9 {
                row
            } else {
                9
            };
            let mut col: i32 = 0;
            while col <= last
                invariant
                    0 <= row < 18,
                    0 <= col <= last + 1,
                    last == if row < 9 {
                        row
                    } else {
                        9
                    },
                    x + 9 <= i32::MAX,
                    y + 17 <= i32::MAX,
                    white == (Color { r: 245, g: 247, b: 250 }),
                    edge == (Color { r: 17, g: 24, b: 39 }),
                    self.well_formed(),
                    self.info == old(self).info,
                    self.pixels@ == cursor_row(
                        before,
                        old(self).info,
                        x as int,
                        y as int,
                        row as int,
                        col as nat,
                    ),
                decreases last + 1 - col,
            {
                self.put_pixel(x + col, y + row, white);
                if col == last || col == 0 || row == 17 {
                    self.put_pixel(x + col, y + row, edge);
                }
                col += 1;
            }
            row += 1;
        }
    }

    /// Paints a pixel. One outside the picture or behind the buffer's end is left out.
    fn put_pixel(&mut self, x: i32, y: i32, color: Color)
        requires
            old(self).well_formed(),
        ensures
            final(self).becomes(
                old(self),
                painted(old(self).pixels@, old(self).info, x as int, y as int, color),
            ),
    {
        if x < 0 || y < 0 || x >= self.width() || y >= self.height() {
            return;
        }
        proof {
            lemma_pixel_start(self.info, x as int, y as int);
        }
        let at: usize = (y as usize * self.info.stride + x as usize) * self.info.bytes_per_pixel;
        if at + self.info.bytes_per_pixel > self.info.size {
            return;
        }
        let rgb: bool = matches!(self.info.pixel_format, PixelFormat::Rgb);
        let first: u8 = if rgb {
            color.r
        } else {
            color.b
        };
        let last: u8 = if rgb {
            color.b
        } else {
            color.r
        };
        self.pixels.set(at, first);
        self.pixels.set(at + 1, color.g);
        self.pixels.set(at + 2, last);
        if self.info.bytes_per_pixel > 3 {
            self.pixels.set(at + 3, 0);
        }
    }
}

/// A sum that is kept within 32 bits.
fn add_clipped(a: i32, b: i32) -> (sum: i32)
    ensures
        sum == clipped_sum(a as int, b as int),
{
    let sum: i64 = a as i64 + b as i64;
    if sum > i32::MAX as i64 {
        i32::MAX
    } else if sum < i32::MIN as i64 {
        i32::MIN
    } else {
        sum as i32
    }
}

/// How many cells cover `size`.
fn count_cells(size: i32, cell: i32) -> (count: i32)
    requires
        0 < cell,
        size + cell <= i32::MAX,
    ensures
        count == cells(size as int, cell as int),
        count * cell <= i32::MAX,
{
    let reach: i32 = size + (cell - 1);
    if reach <= 0 {
        assert(0 * cell == 0);
        return 0;
    }
    let count: i32 = (reach as u32 / cell as u32) as i32;
    proof {
        vstd::arithmetic::div_mod::lemma_fundamental_div_mod(reach as int, cell as int);
        assert(count * cell == cell * count) by (nonlinear_arith);
        assert(0 <= reach as int % cell as int) by (nonlinear_arith)
            requires
                0 < cell,
        ;
    }
    count
}

/// The pixel at `x`, `y` has this color, and the byte behind the components is clear where there is one.
pub open spec fn shows(pixels: Seq<u8>, info: FrameBufferInfo, x: int, y: int, color: Color) -> bool {
    let at = pixel_start(info, x, y);
    &&& pixels[at] == if info.pixel_format == PixelFormat::Rgb {
        color.r
    } else {
        color.b
    }
    &&& pixels[at + 1] == color.g
    &&& pixels[at + 2] == if info.pixel_format == PixelFormat::Rgb {
        color.b
    } else {
        color.r
    }
    &&& info.bytes_per_pixel > 3 ==> pixels[at + 3] == 0
}

/// The pixel at `x`, `y` is the same in both pictures.
pub open spec fn same_pixel(a: Seq<u8>, b: Seq<u8>, info: FrameBufferInfo, x: int, y: int) -> bool {
    let at = pixel_start(info, x, y);
    forall|k: int| at <= k < at + info.bytes_per_pixel ==> #[trigger] a[k] == b[k]
}

/// The byte belongs to no pixel of the picture.
pub open spec fn padding(info: FrameBufferInfo, at: int) -> bool {
    forall|x: int, y: int|
        in_picture(info, x, y) ==> !(#[trigger] pixel_start(info, x, y) <= at < pixel_start(
            info,
            x,
            y,
        ) + info.bytes_per_pixel)
}

/// Rows do not run into each other, and the buffer has room for all of them.
pub open spec fn roomy(info: FrameBufferInfo) -> bool {
    &&& drawable(info)
    &&& info.width <= i32::MAX
    &&& info.height <= i32::MAX
    &&& info.width <= info.stride
    &&& info.height * info.stride * info.bytes_per_pixel <= info.size
}

/// The pixel is in the picture.
pub open spec fn in_picture(info: FrameBufferInfo, x: int, y: int) -> bool {
    0 <= x < info.width && 0 <= y < info.height
}

/// Two pixels of a roomy picture have no byte in common, and each is in the buffer.
proof fn lemma_pixels_apart(info: FrameBufferInfo, x: int, y: int, u: int, v: int)
    requires
        roomy(info),
        in_picture(info, x, y),
        in_picture(info, u, v),
    ensures
        x == u && y == v || pixel_start(info, x, y) + info.bytes_per_pixel <= pixel_start(info, u, v)
            || pixel_start(info, u, v) + info.bytes_per_pixel <= pixel_start(info, x, y),
        0 <= pixel_start(info, x, y),
        pixel_start(info, x, y) + info.bytes_per_pixel <= info.size,
{
    let stride = info.stride as int;
    let bpp = info.bytes_per_pixel as int;
    let a = y * stride + x;
    let b = v * stride + u;
    if y < v {
        assert(a + 1 <= b) by (nonlinear_arith)
            requires
                y + 1 <= v,
                0 <= x < stride,
                0 <= u,
                a == y * stride + x,
                b == v * stride + u,
        ;
    } else if v < y {
        assert(b + 1 <= a) by (nonlinear_arith)
            requires
                v + 1 <= y,
                0 <= u < stride,
                0 <= x,
                a == y * stride + x,
                b == v * stride + u,
        ;
    }
    if a < b {
        assert(a * bpp + bpp <= b * bpp) by (nonlinear_arith)
            requires
                a + 1 <= b,
                0 <= bpp,
        ;
    } else if b < a {
        assert(b * bpp + bpp <= a * bpp) by (nonlinear_arith)
            requires
                b + 1 <= a,
                0 <= bpp,
        ;
    }
    let height = info.height as int;
    assert(0 <= a && a + 1 <= height * stride) by (nonlinear_arith)
        requires
            a == y * stride + x,
            0 <= y,
            y + 1 <= height,
            0 <= x < stride,
    ;
    assert(0 <= a * bpp && a * bpp + bpp <= height * stride * bpp) by (nonlinear_arith)
        requires
            0 <= a,
            a + 1 <= height * stride,
            0 <= bpp,
    ;
}

/// A painted pixel shows its color, and every other is as before.
proof fn lemma_painted(pixels: Seq<u8>, info: FrameBufferInfo, x: int, y: int, color: Color, u: int, v: int)
    requires
        roomy(info),
        pixels.len() == info.size,
        in_picture(info, x, y),
        in_picture(info, u, v),
    ensures
        painted(pixels, info, x, y, color).len() == pixels.len(),
        if u == x && v == y {
            shows(painted(pixels, info, x, y, color), info, u, v, color)
        } else {
            same_pixel(painted(pixels, info, x, y, color), pixels, info, u, v)
        },
{
    lemma_pixels_apart(info, x, y, u, v);
    lemma_pixels_apart(info, u, v, x, y);
}

proof fn lemma_row_painted(
    pixels: Seq<u8>,
    info: FrameBufferInfo,
    x: int,
    y: int,
    n: nat,
    color: Color,
    u: int,
    v: int,
)
    requires
        roomy(info),
        pixels.len() == info.size,
        0 <= x,
        x + n <= info.width,
        0 <= y < info.height,
        in_picture(info, u, v),
    ensures
        row_painted(pixels, info, x, y, n, color).len() == pixels.len(),
        if v == y && x <= u < x + n {
            shows(row_painted(pixels, info, x, y, n, color), info, u, v, color)
        } else {
            same_pixel(row_painted(pixels, info, x, y, n, color), pixels, info, u, v)
        },
    decreases n,
{
    if n > 0 {
        lemma_row_painted(pixels, info, x, y, (n - 1) as nat, color, u, v);
        lemma_painted(
            row_painted(pixels, info, x, y, (n - 1) as nat, color),
            info,
            x + n - 1,
            y,
            color,
            u,
            v,
        );
    }
}

proof fn lemma_rows_painted(
    pixels: Seq<u8>,
    info: FrameBufferInfo,
    x: int,
    y: int,
    width: nat,
    n: nat,
    color: Color,
    u: int,
    v: int,
)
    requires
        roomy(info),
        pixels.len() == info.size,
        0 <= x,
        x + width <= info.width,
        0 <= y,
        y + n <= info.height,
        in_picture(info, u, v),
    ensures
        rows_painted(pixels, info, x, y, width, n, color).len() == pixels.len(),
        if y <= v < y + n && x <= u < x + width {
            shows(rows_painted(pixels, info, x, y, width, n, color), info, u, v, color)
        } else {
            same_pixel(rows_painted(pixels, info, x, y, width, n, color), pixels, info, u, v)
        },
    decreases n,
{
    if n > 0 {
        lemma_rows_painted(pixels, info, x, y, width, (n - 1) as nat, color, u, v);
        lemma_row_painted(
            rows_painted(pixels, info, x, y, width, (n - 1) as nat, color),
            info,
            x,
            y + n - 1,
            width,
            color,
            u,
            v,
        );
    }
}

/// In a picture whose rows have room, every pixel of a filled rectangle shows the color, and every
/// other pixel is as before.
pub proof fn a_filled_rectangle_shows_its_color(
    pixels: Seq<u8>,
    info: FrameBufferInfo,
    x: int,
    y: int,
    width: int,
    height: int,
    color: Color,
    u: int,
    v: int,
)
    requires
        roomy(info),
        pixels.len() == info.size,
        in_picture(info, u, v),
    ensures
        filled(pixels, info, x, y, width, height, color).len() == pixels.len(),
        if x <= u < clipped_sum(x, width) && y <= v < clipped_sum(y, height) {
            shows(filled(pixels, info, x, y, width, height, color), info, u, v, color)
        } else {
            same_pixel(filled(pixels, info, x, y, width, height, color), pixels, info, u, v)
        },
{
    reveal(filled);
    let left = if x > 0 {
        x
    } else {
        0
    };
    let top = if y > 0 {
        y
    } else {
        0
    };
    let right = if clipped_sum(x, width) < signed(info.width) {
        clipped_sum(x, width)
    } else {
        signed(info.width)
    };
    let bottom = if clipped_sum(y, height) < signed(info.height) {
        clipped_sum(y, height)
    } else {
        signed(info.height)
    };
    if left < right && top < bottom {
        lemma_rows_painted(
            pixels,
            info,
            left,
            top,
            (right - left) as nat,
            (bottom - top) as nat,
            color,
            u,
            v,
        );
    }
}

proof fn lemma_row_spares_padding(
    pixels: Seq<u8>,
    info: FrameBufferInfo,
    x: int,
    y: int,
    n: nat,
    color: Color,
    at: int,
)
    requires
        roomy(info),
        pixels.len() == info.size,
        0 <= x,
        x + n <= info.width,
        0 <= y < info.height,
        0 <= at < info.size,
        padding(info, at),
    ensures
        row_painted(pixels, info, x, y, n, color).len() == pixels.len(),
        row_painted(pixels, info, x, y, n, color)[at] == pixels[at],
    decreases n,
{
    if n > 0 {
        lemma_row_spares_padding(pixels, info, x, y, (n - 1) as nat, color, at);
        lemma_pixels_apart(info, x + n - 1, y, x + n - 1, y);
        assert(!(pixel_start(info, x + n - 1, y) <= at < pixel_start(info, x + n - 1, y)
            + info.bytes_per_pixel));
    }
}

proof fn lemma_rows_spare_padding(
    pixels: Seq<u8>,
    info: FrameBufferInfo,
    x: int,
    y: int,
    width: nat,
    n: nat,
    color: Color,
    at: int,
)
    requires
        roomy(info),
        pixels.len() == info.size,
        0 <= x,
        x + width <= info.width,
        0 <= y,
        y + n <= info.height,
        0 <= at < info.size,
        padding(info, at),
    ensures
        rows_painted(pixels, info, x, y, width, n, color).len() == pixels.len(),
        rows_painted(pixels, info, x, y, width, n, color)[at] == pixels[at],
    decreases n,
{
    if n > 0 {
        lemma_rows_spare_padding(pixels, info, x, y, width, (n - 1) as nat, color, at);
        lemma_row_spares_padding(
            rows_painted(pixels, info, x, y, width, (n - 1) as nat, color),
            info,
            x,
            y + n - 1,
            width,
            color,
            at,
        );
    }
}

/// Filling a rectangle leaves the bytes alone that belong to no pixel.
pub proof fn a_filled_rectangle_spares_the_padding(
    pixels: Seq<u8>,
    info: FrameBufferInfo,
    x: int,
    y: int,
    width: int,
    height: int,
    color: Color,
    at: int,
)
    requires
        roomy(info),
        pixels.len() == info.size,
        0 <= at < info.size,
        padding(info, at),
    ensures
        filled(pixels, info, x, y, width, height, color)[at] == pixels[at],
{
    reveal(filled);
    let left = if x > 0 {
        x
    } else {
        0
    };
    let top = if y > 0 {
        y
    } else {
        0
    };
    let right = if clipped_sum(x, width) < signed(info.width) {
        clipped_sum(x, width)
    } else {
        signed(info.width)
    };
    let bottom = if clipped_sum(y, height) < signed(info.height) {
        clipped_sum(y, height)
    } else {
        signed(info.height)
    };
    if left < right && top < bottom {
        lemma_rows_spare_padding(
            pixels,
            info,
            left,
            top,
            (right - left) as nat,
            (bottom - top) as nat,
            color,
            at,
        );
    }
}

/// A pixel is as many pixels behind the first as its row and its column say, with a whole stride for each
/// row.
pub proof fn a_pixel_is_where_its_row_and_column_say(info: FrameBufferInfo, x: int, y: int)
    ensures
        pixel_start(info, 0, 0) == 0,
        pixel_start(info, x + 1, y) == pixel_start(info, x, y) + info.bytes_per_pixel,
        pixel_start(info, x, y + 1) == pixel_start(info, x, y) + info.stride * info.bytes_per_pixel,
{
    let stride = info.stride as int;
    let bpp = info.bytes_per_pixel as int;
    assert((y * stride + x + 1) * bpp == (y * stride + x) * bpp + bpp) by (nonlinear_arith);
    assert(((y + 1) * stride + x) * bpp == (y * stride + x) * bpp + stride * bpp) by (nonlinear_arith);
    assert((0 * stride + 0) * bpp == 0) by (nonlinear_arith);
}

/// Each component of a mixture is as far on the way as was asked, rounded towards where it started.
pub proof fn a_mixture_is_on_the_way(a: u8, b: u8, numerator: int, denominator: int)
    requires
        0 <= numerator <= denominator,
        0 < denominator,
    ensures
        ({
            let mixture = mixed_component(a, b, numerator, denominator);
            &&& a <= b ==> a <= mixture <= b && (mixture - a) * denominator <= (b - a) * numerator < (
            mixture - a + 1) * denominator
            &&& b <= a ==> b <= mixture <= a && (a - mixture) * denominator <= (a - b) * numerator < (
            a - mixture + 1) * denominator
        }),
{
    let apart = distance(a, b);
    let whole = apart * numerator;
    let step = whole / denominator;
    assert(0 <= whole <= apart * denominator) by (nonlinear_arith)
        requires
            0 <= apart,
            0 <= numerator <= denominator,
            whole == apart * numerator,
    ;
    vstd::arithmetic::div_mod::lemma_fundamental_div_mod(whole, denominator);
    vstd::arithmetic::div_mod::lemma_mod_bound(whole, denominator);
    assert(0 <= step <= apart && step * denominator <= whole < (step + 1) * denominator) by (nonlinear_arith)
        requires
            0 <= whole <= apart * denominator,
            0 < denominator,
            whole == denominator * step + whole % denominator,
            0 <= whole % denominator < denominator,
    ;
}

/// A pixel that shows a color shows it in every picture that has the same pixel.
proof fn lemma_still_shows(
    a: Seq<u8>,
    b: Seq<u8>,
    info: FrameBufferInfo,
    u: int,
    v: int,
    color: Color,
)
    requires
        info.bytes_per_pixel >= 3,
        same_pixel(b, a, info, u, v),
        shows(a, info, u, v, color),
    ensures
        shows(b, info, u, v, color),
{
    let at = pixel_start(info, u, v);
    assert(b[at] == a[at] && b[at + 1] == a[at + 1] && b[at + 2] == a[at + 2]);
    if info.bytes_per_pixel > 3 {
        assert(b[at + 3] == a[at + 3]);
    }
}

proof fn lemma_same_again(a: Seq<u8>, b: Seq<u8>, c: Seq<u8>, info: FrameBufferInfo, u: int, v: int)
    requires
        same_pixel(b, a, info, u, v),
        same_pixel(c, b, info, u, v),
    ensures
        same_pixel(c, a, info, u, v),
{
    let at = pixel_start(info, u, v);
    assert forall|k: int| at <= k < at + info.bytes_per_pixel implies #[trigger] c[k] == a[k] by {
        assert(c[k] == b[k] && b[k] == a[k]);
    }
}

/// The pixel is on the edge of a rectangle.
pub open spec fn on_frame(x: int, y: int, width: int, height: int, u: int, v: int) -> bool {
    &&& x <= u < x + width
    &&& y <= v < y + height
    &&& u == x || u == x + width - 1 || v == y || v == y + height - 1
}

/// A rectangle that is drawn shows its color on its four edges, and everything within and around it is as
/// before.
pub proof fn a_drawn_rectangle_shows_its_edges(
    pixels: Seq<u8>,
    info: FrameBufferInfo,
    x: int,
    y: int,
    width: int,
    height: int,
    color: Color,
    u: int,
    v: int,
)
    requires
        roomy(info),
        pixels.len() == info.size,
        in_picture(info, u, v),
        i32::MIN <= x,
        i32::MIN <= y,
        0 < width,
        0 < height,
        x + width <= i32::MAX,
        y + height <= i32::MAX,
    ensures
        framed(pixels, info, x, y, width, height, color).len() == pixels.len(),
        if on_frame(x, y, width, height, u, v) {
            shows(framed(pixels, info, x, y, width, height, color), info, u, v, color)
        } else {
            same_pixel(framed(pixels, info, x, y, width, height, color), pixels, info, u, v)
        },
{
    let top = filled(pixels, info, x, y, width, 1, color);
    let bottom = filled(top, info, x, y + height - 1, width, 1, color);
    let left = filled(bottom, info, x, y, 1, height, color);
    let all = filled(left, info, x + width - 1, y, 1, height, color);
    a_filled_rectangle_shows_its_color(pixels, info, x, y, width, 1, color, u, v);
    a_filled_rectangle_shows_its_color(top, info, x, y + height - 1, width, 1, color, u, v);
    a_filled_rectangle_shows_its_color(bottom, info, x, y, 1, height, color, u, v);
    a_filled_rectangle_shows_its_color(left, info, x + width - 1, y, 1, height, color, u, v);
    let in_top = x <= u < x + width && v == y;
    let in_bottom = x <= u < x + width && v == y + height - 1;
    let in_left = u == x && y <= v < y + height;
    let in_right = u == x + width - 1 && y <= v < y + height;
    if in_top && !in_bottom {
        lemma_still_shows(top, bottom, info, u, v, color);
    }
    if (in_top || in_bottom) && !in_left {
        lemma_still_shows(bottom, left, info, u, v, color);
    }
    if (in_top || in_bottom || in_left) && !in_right {
        lemma_still_shows(left, all, info, u, v, color);
    }
    if !in_top && !in_bottom && !in_left && !in_right {
        lemma_same_again(pixels, top, bottom, info, u, v);
        lemma_same_again(pixels, bottom, left, info, u, v);
        lemma_same_again(pixels, left, all, info, u, v);
    }
}

/// A gradient has a color for each row: the first one at the top, and on the way to the second one below.
pub proof fn a_gradient_goes_down(
    pixels: Seq<u8>,
    info: FrameBufferInfo,
    top: Color,
    bottom: Color,
    height: int,
    n: nat,
    u: int,
    v: int,
)
    requires
        roomy(info),
        pixels.len() == info.size,
        in_picture(info, u, v),
        n <= info.height,
        1 < height,
    ensures
        graded(pixels, info, top, bottom, height, n).len() == pixels.len(),
        if v < n {
            shows(
                graded(pixels, info, top, bottom, height, n),
                info,
                u,
                v,
                mixed(top, bottom, v, height - 1),
            )
        } else {
            same_pixel(graded(pixels, info, top, bottom, height, n), pixels, info, u, v)
        },
    decreases n,
{
    if n > 0 {
        let before = graded(pixels, info, top, bottom, height, (n - 1) as nat);
        let after = graded(pixels, info, top, bottom, height, n);
        a_gradient_goes_down(pixels, info, top, bottom, height, (n - 1) as nat, u, v);
        a_filled_rectangle_shows_its_color(
            before,
            info,
            0,
            n - 1,
            signed(info.width),
            1,
            mixed(top, bottom, n - 1, height - 1),
            u,
            v,
        );
        if v < n - 1 {
            lemma_still_shows(before, after, info, u, v, mixed(top, bottom, v, height - 1));
        } else if v > n - 1 {
            lemma_same_again(pixels, before, after, info, u, v);
        }
    }
}

/// A panel is at the bottom: its edge is the first of its rows, and its color fills the others.
pub proof fn a_panel_is_at_the_bottom(
    pixels: Seq<u8>,
    info: FrameBufferInfo,
    height: int,
    color: Color,
    edge: Color,
    u: int,
    v: int,
)
    requires
        roomy(info),
        pixels.len() == info.size,
        in_picture(info, u, v),
        0 < height <= info.height,
    ensures
        ({
            let after = panelled(pixels, info, height, color, edge);
            let top = info.height - height;
            if v < top {
                same_pixel(after, pixels, info, u, v)
            } else if v == top {
                shows(after, info, u, v, edge)
            } else {
                shows(after, info, u, v, color)
            }
        }),
{
    let top = signed(info.height) - height;
    let filling = filled(pixels, info, 0, top, signed(info.width), height, color);
    let after = panelled(pixels, info, height, color, edge);
    a_filled_rectangle_shows_its_color(pixels, info, 0, top, signed(info.width), height, color, u, v);
    a_filled_rectangle_shows_its_color(filling, info, 0, top, signed(info.width), 1, edge, u, v);
    if v < top {
        lemma_same_again(pixels, filling, after, info, u, v);
    } else if v > top {
        lemma_still_shows(filling, after, info, u, v, color);
    }
}

/// Which cell a place is in.
proof fn lemma_cell(u: int, cell: int, k: int)
    requires
        0 <= u,
        0 < cell,
        0 <= k,
    ensures
        k * cell <= u < k * cell + cell <==> u / cell == k,
        0 <= u / cell,
{
    let q = u / cell;
    vstd::arithmetic::div_mod::lemma_fundamental_div_mod(u, cell);
    vstd::arithmetic::div_mod::lemma_mod_bound(u, cell);
    assert(0 <= q && (k * cell <= u < k * cell + cell <==> q == k)) by (nonlinear_arith)
        requires
            u == cell * q + u % cell,
            0 <= u % cell < cell,
            0 <= u,
            0 < cell,
    ;
}

proof fn lemma_cell_row(
    pixels: Seq<u8>,
    info: FrameBufferInfo,
    cell: int,
    row: int,
    color: Color,
    n: nat,
    u: int,
    v: int,
)
    requires
        roomy(info),
        pixels.len() == info.size,
        in_picture(info, u, v),
        0 < cell <= i32::MAX,
        0 <= row,
    ensures
        cell_row(pixels, info, cell, row, color, n).len() == pixels.len(),
        if v / cell == row && u / cell < n && (u / cell + row) % 2 == 0 {
            shows(cell_row(pixels, info, cell, row, color, n), info, u, v, color)
        } else {
            same_pixel(cell_row(pixels, info, cell, row, color, n), pixels, info, u, v)
        },
    decreases n,
{
    lemma_cell(u, cell, 0);
    if n > 0 {
        let m = (n - 1) as nat;
        let before = cell_row(pixels, info, cell, row, color, m);
        let after = cell_row(pixels, info, cell, row, color, n);
        lemma_cell_row(pixels, info, cell, row, color, m, u, v);
        lemma_cell(u, cell, m as int);
        lemma_cell(v, cell, row);
        assert(0 <= m * cell && 0 <= row * cell) by (nonlinear_arith)
            requires
                0 <= m,
                0 <= row,
                0 < cell,
        ;
        if (m + row) % 2 == 0 {
            a_filled_rectangle_shows_its_color(
                before,
                info,
                m * cell,
                row * cell,
                cell,
                cell,
                color,
                u,
                v,
            );
            if !(u / cell == m && v / cell == row) {
                if v / cell == row && u / cell < m && (u / cell + row) % 2 == 0 {
                    lemma_still_shows(before, after, info, u, v, color);
                } else {
                    lemma_same_again(pixels, before, after, info, u, v);
                }
            }
        }
    }
}

proof fn lemma_cell_rows(
    pixels: Seq<u8>,
    info: FrameBufferInfo,
    cell: int,
    columns: nat,
    color: Color,
    n: nat,
    u: int,
    v: int,
)
    requires
        roomy(info),
        pixels.len() == info.size,
        in_picture(info, u, v),
        0 < cell <= i32::MAX,
        u / cell < columns,
    ensures
        cell_rows(pixels, info, cell, columns, color, n).len() == pixels.len(),
        if v / cell < n && (u / cell + v / cell) % 2 == 0 {
            shows(cell_rows(pixels, info, cell, columns, color, n), info, u, v, color)
        } else {
            same_pixel(cell_rows(pixels, info, cell, columns, color, n), pixels, info, u, v)
        },
    decreases n,
{
    lemma_cell(v, cell, 0);
    if n > 0 {
        let m = (n - 1) as nat;
        let before = cell_rows(pixels, info, cell, columns, color, m);
        let after = cell_rows(pixels, info, cell, columns, color, n);
        lemma_cell_rows(pixels, info, cell, columns, color, m, u, v);
        lemma_cell_row(before, info, cell, m as int, color, columns, u, v);
        if !(v / cell == m && (u / cell + m) % 2 == 0) {
            if v / cell < m && (u / cell + v / cell) % 2 == 0 {
                lemma_still_shows(before, after, info, u, v, color);
            } else {
                lemma_same_again(pixels, before, after, info, u, v);
            }
        }
    }
}

/// A checkered picture has the mixture in every other cell, in every other row the others, and is as
/// before in the rest.
pub proof fn every_other_cell_is_colored(
    pixels: Seq<u8>,
    info: FrameBufferInfo,
    cell: int,
    base: Color,
    accent: Color,
    alpha_num: int,
    alpha_den: int,
    u: int,
    v: int,
)
    requires
        roomy(info),
        pixels.len() == info.size,
        in_picture(info, u, v),
        0 < cell <= i32::MAX,
        alpha_den > 0,
    ensures
        ({
            let after = checkered(pixels, info, cell, base, accent, alpha_num, alpha_den);
            if (u / cell + v / cell) % 2 == 0 {
                shows(after, info, u, v, mixed(base, accent, alpha_num, alpha_den))
            } else {
                same_pixel(after, pixels, info, u, v)
            }
        }),
{
    let columns = cells(signed(info.width), cell);
    let rows = cells(signed(info.height), cell);
    lemma_cells_reach(u, info.width as int, cell);
    lemma_cells_reach(v, info.height as int, cell);
    lemma_cell_rows(
        pixels,
        info,
        cell,
        columns,
        mixed(base, accent, alpha_num, alpha_den),
        rows,
        u,
        v,
    );
}

proof fn lemma_cells_reach(u: int, size: int, cell: int)
    requires
        0 <= u < size,
        0 < cell,
    ensures
        u / cell < cells(size, cell),
{
    let q = u / cell;
    let all = (size + cell - 1) / cell;
    vstd::arithmetic::div_mod::lemma_fundamental_div_mod(u, cell);
    vstd::arithmetic::div_mod::lemma_mod_bound(u, cell);
    vstd::arithmetic::div_mod::lemma_fundamental_div_mod(size + cell - 1, cell);
    vstd::arithmetic::div_mod::lemma_mod_bound(size + cell - 1, cell);
    assert(q < all) by (nonlinear_arith)
        requires
            u == cell * q + u % cell,
            0 <= u % cell < cell,
            size + cell - 1 == cell * all + (size + cell - 1) % cell,
            0 <= (size + cell - 1) % cell < cell,
            u < size,
            0 < cell,
    ;
}

/// A shadow has one edge around the other, each with a color of its own, darker the nearer it is; what it
/// surrounds is as before.
pub proof fn a_shadow_has_edge_around_edge(
    pixels: Seq<u8>,
    info: FrameBufferInfo,
    x: int,
    y: int,
    width: int,
    height: int,
    layers: int,
    color: Color,
    n: nat,
    layer: int,
    u: int,
    v: int,
)
    requires
        roomy(info),
        pixels.len() == info.size,
        in_picture(info, u, v),
        0 < width,
        0 < height,
        i32::MIN <= x - n,
        i32::MIN <= y - n,
        x + width + n <= i32::MAX,
        y + height + n <= i32::MAX,
    ensures
        ({
            let after = shadowed(pixels, info, x, y, width, height, layers, color, n);
            let edge = |k: int| on_frame(x - k, y - k, width + 2 * k, height + 2 * k, u, v);
            &&& after.len() == pixels.len()
            &&& 0 <= layer < n && edge(layer) ==> shows(
                after,
                info,
                u,
                v,
                mixed(color, Color { r: 0, g: 0, b: 0 }, 4 + layers - layer, 18),
            )
            &&& x < u < x + width - 1 && y < v < y + height - 1 ==> same_pixel(after, pixels, info, u, v)
        }),
    decreases n,
{
    if n > 0 {
        let m = n - 1;
        let before = shadowed(pixels, info, x, y, width, height, layers, color, m as nat);
        let after = shadowed(pixels, info, x, y, width, height, layers, color, n);
        let black = Color { r: 0, g: 0, b: 0 };
        a_shadow_has_edge_around_edge(
            pixels,
            info,
            x,
            y,
            width,
            height,
            layers,
            color,
            m as nat,
            layer,
            u,
            v,
        );
        a_drawn_rectangle_shows_its_edges(
            before,
            info,
            x - m,
            y - m,
            width + m * 2,
            height + m * 2,
            mixed(color, black, 4 + (layers - m), 18),
            u,
            v,
        );
        if 0 <= layer < m && on_frame(
            x - layer,
            y - layer,
            width + 2 * layer,
            height + 2 * layer,
            u,
            v,
        ) {
            lemma_still_shows(
                before,
                after,
                info,
                u,
                v,
                mixed(color, black, 4 + layers - layer, 18),
            );
        }
        if x < u < x + width - 1 && y < v < y + height - 1 {
            lemma_same_again(pixels, before, after, info, u, v);
        }
    }
}

/// The pixel at a place that may be out of the picture.
proof fn lemma_painted_anywhere(
    pixels: Seq<u8>,
    info: FrameBufferInfo,
    x: int,
    y: int,
    color: Color,
    u: int,
    v: int,
)
    requires
        roomy(info),
        pixels.len() == info.size,
        in_picture(info, u, v),
    ensures
        painted(pixels, info, x, y, color).len() == pixels.len(),
        if u == x && v == y {
            shows(painted(pixels, info, x, y, color), info, u, v, color)
        } else {
            same_pixel(painted(pixels, info, x, y, color), pixels, info, u, v)
        },
{
    if in_picture(info, x, y) {
        lemma_painted(pixels, info, x, y, color, u, v);
    }
}

/// The color of the cursor at a row and a column.
pub open spec fn cursor_color(row: int, column: int) -> Color {
    if column == 0 || row == 17 || (row < 9 && column == row) || (row >= 9 && column == 9) {
        Color { r: 17, g: 24, b: 39 }
    } else {
        Color { r: 245, g: 247, b: 250 }
    }
}

proof fn lemma_cursor_row(
    pixels: Seq<u8>,
    info: FrameBufferInfo,
    x: int,
    y: int,
    row: int,
    n: nat,
    u: int,
    v: int,
)
    requires
        roomy(info),
        pixels.len() == info.size,
        in_picture(info, u, v),
        0 <= row < 18,
    ensures
        cursor_row(pixels, info, x, y, row, n).len() == pixels.len(),
        if v == y + row && x <= u < x + n {
            shows(cursor_row(pixels, info, x, y, row, n), info, u, v, cursor_color(row, u - x))
        } else {
            same_pixel(cursor_row(pixels, info, x, y, row, n), pixels, info, u, v)
        },
    decreases n,
{
    if n > 0 {
        let before = cursor_row(pixels, info, x, y, row, (n - 1) as nat);
        let light = Color { r: 245, g: 247, b: 250 };
        let dark = Color { r: 17, g: 24, b: 39 };
        let white = painted(before, info, x + n - 1, y + row, light);
        let after = cursor_row(pixels, info, x, y, row, n);
        lemma_cursor_row(pixels, info, x, y, row, (n - 1) as nat, u, v);
        lemma_painted_anywhere(before, info, x + n - 1, y + row, light, u, v);
        lemma_painted_anywhere(white, info, x + n - 1, y + row, dark, u, v);
        if !(u == x + n - 1 && v == y + row) {
            if v == y + row && x <= u < x + n - 1 {
                lemma_still_shows(before, white, info, u, v, cursor_color(row, u - x));
                if on_edge(row, n - 1) {
                    lemma_still_shows(white, after, info, u, v, cursor_color(row, u - x));
                }
            } else {
                lemma_same_again(pixels, before, white, info, u, v);
                if on_edge(row, n - 1) {
                    lemma_same_again(pixels, white, after, info, u, v);
                }
            }
        }
    }
}

/// The cursor is an arrow with a dark edge: each row one longer than the one before, up to ten, and the
/// last one dark; everything else is as before.
pub proof fn a_cursor_is_an_arrow(
    pixels: Seq<u8>,
    info: FrameBufferInfo,
    x: int,
    y: int,
    n: nat,
    u: int,
    v: int,
)
    requires
        roomy(info),
        pixels.len() == info.size,
        in_picture(info, u, v),
        n <= 18,
    ensures
        ({
            let after = cursor_rows(pixels, info, x, y, n);
            let row = v - y;
            let column = u - x;
            &&& after.len() == pixels.len()
            &&& if 0 <= row < n && 0 <= column <= row && column < 10 {
                shows(after, info, u, v, cursor_color(row, column))
            } else {
                same_pixel(after, pixels, info, u, v)
            }
        }),
    decreases n,
{
    if n > 0 {
        let before = cursor_rows(pixels, info, x, y, (n - 1) as nat);
        let after = cursor_rows(pixels, info, x, y, n);
        a_cursor_is_an_arrow(pixels, info, x, y, (n - 1) as nat, u, v);
        lemma_cursor_row(
            before,
            info,
            x,
            y,
            n - 1,
            if n - 1 < 9 {
                n
            } else {
                10
            },
            u,
            v,
        );
        let row = v - y;
        let column = u - x;
        if row != n - 1 || !(0 <= column <= row && column < 10) {
            if 0 <= row < n - 1 && 0 <= column <= row && column < 10 {
                lemma_still_shows(before, after, info, u, v, cursor_color(row, column));
            } else {
                lemma_same_again(pixels, before, after, info, u, v);
            }
        }
    }
}

} // verus!
