//! The desktop: which shapes it consists of, and how they are drawn.

use vstd::prelude::*;
use crate::bootinfo::FrameBufferInfo;
use crate::gfx::{
    checkered, cursor_rows, filled, framed, graded, mixable, panelled, shadow_fits, shadowed, signed,
    Canvas, Color,
};

verus! {

/// A shape.
#[derive(Debug, Clone, Copy, PartialEq, Eq, Structural)]
pub enum Draw {
    Gradient { top: Color, bottom: Color },
    Checkerboard { cell: i32, base: Color, accent: Color, alpha_num: u32, alpha_den: u32 },
    Fill { x: i32, y: i32, width: i32, height: i32, color: Color },
    Frame { x: i32, y: i32, width: i32, height: i32, color: Color },
    Shadow { x: i32, y: i32, width: i32, height: i32, layers: i32, color: Color },
    Panel { height: i32, color: Color, edge: Color },
    Cursor { x: i32, y: i32 },
}

/// The picture with a shape drawn.
pub open spec fn drawn(pixels: Seq<u8>, info: FrameBufferInfo, draw: Draw) -> Seq<u8> {
    match draw {
        Draw::Gradient { top, bottom } => graded(
            pixels,
            info,
            top,
            bottom,
            signed(info.height),
            if signed(info.height) > 1 {
                signed(info.height) as nat
            } else {
                1
            },
        ),
        Draw::Checkerboard { cell, base, accent, alpha_num, alpha_den } => checkered(
            pixels,
            info,
            cell as int,
            base,
            accent,
            alpha_num as int,
            alpha_den as int,
        ),
        Draw::Fill { x, y, width, height, color } => filled(
            pixels,
            info,
            x as int,
            y as int,
            width as int,
            height as int,
            color,
        ),
        Draw::Frame { x, y, width, height, color } => framed(
            pixels,
            info,
            x as int,
            y as int,
            width as int,
            height as int,
            color,
        ),
        Draw::Shadow { x, y, width, height, layers, color } => shadowed(
            pixels,
            info,
            x as int,
            y as int,
            width as int,
            height as int,
            layers as int,
            color,
            if layers > 0 {
                layers as nat
            } else {
                0
            },
        ),
        Draw::Panel { height, color, edge } => panelled(pixels, info, height as int, color, edge),
        Draw::Cursor { x, y } => cursor_rows(pixels, info, x as int, y as int, 18),
    }
}

/// The picture with the first `n` shapes drawn.
pub open spec fn drawn_all(pixels: Seq<u8>, info: FrameBufferInfo, draws: Seq<Draw>, n: nat) -> Seq<u8>
    decreases n,
{
    if n == 0 {
        pixels
    } else {
        drawn(drawn_all(pixels, info, draws, (n - 1) as nat), info, draws[n - 1])
    }
}

/// The shape has coordinates, and its colors can be mixed.
pub open spec fn fits(info: FrameBufferInfo, draw: Draw) -> bool {
    match draw {
        Draw::Gradient { top, bottom } => signed(info.height) > 1 ==> mixable(
            top,
            bottom,
            signed(info.height) - 1,
        ),
        Draw::Checkerboard { cell, base, accent, alpha_num, alpha_den } => signed(info.width) + cell
            <= i32::MAX && signed(info.height) + cell <= i32::MAX && mixable(
            base,
            accent,
            alpha_num as int,
        ) && alpha_den <= i32::MAX,
        Draw::Fill { .. } => true,
        Draw::Frame { x, y, width, height, .. } => width > 0 && height > 0 ==> x + width <= i32::MAX
            && y + height <= i32::MAX,
        Draw::Shadow { x, y, width, height, layers, color } => layers > 0 ==> shadow_fits(
            x as int,
            width as int,
            layers - 1,
        ) && shadow_fits(y as int, height as int, layers - 1) && mixable(
            color,
            Color { r: 0, g: 0, b: 0 },
            4 + layers,
        ),
        Draw::Panel { height, .. } => i32::MIN <= signed(info.height) - height <= i32::MAX,
        Draw::Cursor { x, y } => x + 9 <= i32::MAX && y + 17 <= i32::MAX,
    }
}

/// Every shape has coordinates.
pub open spec fn all_fit(info: FrameBufferInfo, draws: Seq<Draw>) -> bool {
    forall|i: int| 0 <= i < draws.len() ==> fits(info, #[trigger] draws[i])
}

/// The screen has a size that the desktop can be laid out for.
pub open spec fn screen_fits(info: FrameBufferInfo) -> bool {
    &&& info.width <= 0x7fff_ffcf
    &&& info.height <= 22_845_571
}

/// Whether the screen has a size that the desktop can be laid out for.
pub fn fits_screen(info: &FrameBufferInfo) -> (result: bool)
    ensures
        result == screen_fits(*info),
{
    info.width <= 0x7fff_ffcf && info.height <= 22_845_571
}

/// A color by its components.
pub open spec fn tint(r: u8, g: u8, b: u8) -> Color {
    Color { r, g, b }
}

/// A filled rectangle.
pub open spec fn fill(x: int, y: int, width: int, height: int, color: Color) -> Draw {
    Draw::Fill { x: x as i32, y: y as i32, width: width as i32, height: height as i32, color }
}

/// The frame of a rectangle.
pub open spec fn frame(x: int, y: int, width: int, height: int, color: Color) -> Draw {
    Draw::Frame { x: x as i32, y: y as i32, width: width as i32, height: height as i32, color }
}

/// A width divided by `n`, towards zero.
pub open spec fn part(width: int, n: int) -> int {
    if width < 0 {
        -(-width / n)
    } else {
        width / n
    }
}

/// The background and the bar at the top.
pub open spec fn background(width: int) -> Seq<Draw> {
    seq![
        Draw::Gradient { top: tint(17, 24, 39), bottom: tint(15, 118, 110) },
        Draw::Checkerboard {
            cell: 48,
            base: tint(15, 118, 110),
            accent: tint(255, 255, 255),
            alpha_num: 1,
            alpha_den: 9,
        },
        fill(56, 48, width - 112, 32, tint(10, 15, 28)),
        frame(56, 48, width - 112, 32, tint(51, 65, 85)),
        fill(72, 56, 84, 16, tint(59, 130, 246)),
        fill(width - 196, 56, 124, 16, tint(22, 163, 74)),
    ]
}

/// A window.
pub open spec fn window(
    x: int,
    y: int,
    width: int,
    height: int,
    body: Color,
    ink: Color,
    accent: Color,
) -> Seq<Draw> {
    seq![
        Draw::Shadow {
            x: (x + 8) as i32,
            y: (y + 12) as i32,
            width: width as i32,
            height: height as i32,
            layers: 6,
            color: tint(0, 0, 0),
        },
        fill(x, y, width, height, body),
        frame(x, y, width, height, tint(148, 163, 184)),
        fill(x, y, width, 28, accent),
        fill(x + 16, y + 9, 10, 10, tint(255, 255, 255)),
        fill(x + 34, y + 9, 10, 10, tint(219, 234, 254)),
        fill(x + 52, y + 9, 10, 10, tint(191, 219, 254)),
        fill(x + width - 56, y + 8, 16, 12, tint(255, 255, 255)),
        fill(x + width - 32, y + 8, 16, 12, ink),
    ]
}

/// The terminal without its lines.
pub open spec fn terminal_frame(x: int, y: int, width: int, height: int) -> Seq<Draw> {
    seq![
        fill(x, y, width, height, tint(2, 6, 23)),
        frame(x, y, width, height, tint(30, 41, 59)),
    ]
}

/// A line of the terminal.
pub open spec fn terminal_line(x: int, row: int, width: int) -> Seq<Draw> {
    seq![
        fill(x + 20, row, width - 40, 2, tint(30, 41, 59)),
        fill(x + 20, row + 6, 96, 3, tint(34, 197, 94)),
        fill(x + 124, row + 6, 52, 3, tint(56, 189, 248)),
        fill(x + 184, row + 6, 140, 3, tint(248, 250, 252)),
    ]
}

/// The lines of the terminal from `row` down to `end`.
pub open spec fn terminal_lines(x: int, row: int, end: int, width: int) -> Seq<Draw>
    decreases end + 18 - row,
{
    if row >= end {
        seq![]
    } else {
        terminal_line(x, row, width) + terminal_lines(x, row + 18, end, width)
    }
}

/// The terminal.
pub open spec fn terminal(x: int, y: int, width: int, height: int) -> Seq<Draw> {
    terminal_frame(x, y, width, height) + terminal_lines(x, y + 18, y + height - 24, width)
}

/// A card that shows a state.
pub open spec fn status_card(x: int, top: int, width: int, color: Color) -> Seq<Draw> {
    seq![
        fill(x, top, width, 44, tint(248, 250, 252)),
        frame(x, top, width, 44, tint(203, 213, 225)),
        fill(x + 14, top + 12, 20, 20, color),
        fill(x + 46, top + 12, part(width, 2), 6, tint(51, 65, 85)),
        fill(x + 46, top + 24, part(width, 3), 4, tint(148, 163, 184)),
        fill(x + width - 80, top + 14, 52, 16, color),
    ]
}

/// The cards.
pub open spec fn status_cards(x: int, y: int, width: int) -> Seq<Draw> {
    status_card(x, y, width, tint(37, 99, 235)) + status_card(
        x,
        y + 60,
        width,
        tint(6, 182, 212),
    ) + status_card(x, y + 120, width, tint(16, 185, 129))
}

/// The dock without its icons.
pub open spec fn dock_frame(y: int) -> Seq<Draw> {
    seq![
        fill(300, y, 340, 56, tint(241, 245, 249)),
        frame(300, y, 340, 56, tint(148, 163, 184)),
    ]
}

/// An icon in the dock.
pub open spec fn dock_icon(x: int, y: int, color: Color) -> Seq<Draw> {
    seq![
        fill(x, y + 12, 32, 32, color),
        frame(x, y + 12, 32, 32, tint(15, 23, 42)),
    ]
}

/// The dock of a screen of this height.
pub open spec fn dock(screen_height: int) -> Seq<Draw> {
    let y = screen_height - 100;
    dock_frame(y) + dock_icon(320, y, tint(59, 130, 246)) + dock_icon(372, y, tint(244, 114, 182)) + dock_icon(424, y, tint(16, 185, 129)) + dock_icon(476, y, tint(250, 204, 21)) + dock_icon(528, y, tint(249, 115, 22)) + dock_icon(580, y, tint(168, 85, 247))
}

/// What is in front of everything.
pub open spec fn foreground(width: int, height: int) -> Seq<Draw> {
    seq![
        Draw::Panel { height: 44, color: tint(3, 7, 18), edge: tint(71, 85, 105) },
        Draw::Cursor { x: (width - 180) as i32, y: (height / 2) as i32 },
    ]
}

/// All shapes of the desktop on a screen of this size.
pub open spec fn scene(width: int, height: int) -> Seq<Draw> {
    background(width) + window(
        72,
        108,
        width / 2,
        height / 2,
        tint(241, 245, 249),
        tint(15, 23, 42),
        tint(59, 130, 246),
    ) + terminal(96, 152, width / 2 - 48, height / 2 - 84) + window(
        width / 2 + 32,
        140,
        width / 3,
        height / 3,
        tint(255, 251, 235),
        tint(15, 23, 42),
        tint(251, 191, 36),
    ) + status_cards(width / 2 + 56, 192, width / 3 - 48) + dock(height) + foreground(width, height)
}

/// Adds the background and the bar at the top.
fn push_background(scene: &mut Vec<Draw>, width: i32)
    requires
        0 <= width <= 0x7fff_ffcf,
    ensures
        final(scene)@ == old(scene)@ + background(width as int),
{
    scene.push(Draw::Gradient { top: Color::rgb(17, 24, 39), bottom: Color::rgb(15, 118, 110) });
    scene.push(
        Draw::Checkerboard {
            cell: 48,
            base: Color::rgb(15, 118, 110),
            accent: Color::rgb(255, 255, 255),
            alpha_num: 1,
            alpha_den: 9,
        },
    );
    scene.push(
        Draw::Fill {
            x: 56,
            y: 48,
            width: width - 112,
            height: 32,
            color: Color::rgb(10, 15, 28),
        },
    );
    scene.push(
        Draw::Frame {
            x: 56,
            y: 48,
            width: width - 112,
            height: 32,
            color: Color::rgb(51, 65, 85),
        },
    );
    scene.push(Draw::Fill { x: 72, y: 56, width: 84, height: 16, color: Color::rgb(59, 130, 246) });
    scene.push(
        Draw::Fill {
            x: width - 196,
            y: 56,
            width: 124,
            height: 16,
            color: Color::rgb(22, 163, 74),
        },
    );
    assert(scene@ =~= old(scene)@ + background(width as int));
}

/// Adds a window.
fn draw_window(
    scene: &mut Vec<Draw>,
    x: i32,
    y: i32,
    width: i32,
    height: i32,
    body: Color,
    ink: Color,
    accent: Color,
)
    requires
        0 <= x,
        0 <= y,
        0 <= width,
        0 <= height,
        x + width + 52 <= i32::MAX,
        y + height + 52 <= i32::MAX,
    ensures
        final(scene)@ == old(scene)@ + window(x as int, y as int, width as int, height as int, body, ink, accent),
{
    scene.push(
        Draw::Shadow {
            x: x + 8,
            y: y + 12,
            width,
            height,
            layers: 6,
            color: Color::rgb(0, 0, 0),
        },
    );
    scene.push(Draw::Fill { x: x, y: y, width: width, height: height, color: body });
    scene.push(
        Draw::Frame {
            x,
            y,
            width,
            height,
            color: Color::rgb(148, 163, 184),
        },
    );
    scene.push(Draw::Fill { x: x, y: y, width: width, height: 28, color: accent });
    scene.push(
        Draw::Fill {
            x: x + 16,
            y: y + 9,
            width: 10,
            height: 10,
            color: Color::rgb(255, 255, 255),
        },
    );
    scene.push(
        Draw::Fill {
            x: x + 34,
            y: y + 9,
            width: 10,
            height: 10,
            color: Color::rgb(219, 234, 254),
        },
    );
    scene.push(
        Draw::Fill {
            x: x + 52,
            y: y + 9,
            width: 10,
            height: 10,
            color: Color::rgb(191, 219, 254),
        },
    );
    scene.push(
        Draw::Fill {
            x: x + width - 56,
            y: y + 8,
            width: 16,
            height: 12,
            color: Color::rgb(255, 255, 255),
        },
    );
    scene.push(Draw::Fill { x: x + width - 32, y: y + 8, width: 16, height: 12, color: ink });
    assert(scene@ =~= old(scene)@ + window(x as int, y as int, width as int, height as int, body, ink, accent));
}

/// Adds a line of the terminal.
fn push_terminal_line(scene: &mut Vec<Draw>, x: i32, row: i32, width: i32)
    requires
        0 <= x <= 0x7fff_0000,
        0 <= row <= 0x7fff_0000,
        -48 <= width <= 0x7fff_0000,
    ensures
        final(scene)@ == old(scene)@ + terminal_line(x as int, row as int, width as int),
{
    scene.push(
        Draw::Fill {
            x: x + 20,
            y: row,
            width: width - 40,
            height: 2,
            color: Color::rgb(30, 41, 59),
        },
    );
    scene.push(
        Draw::Fill {
            x: x + 20,
            y: row + 6,
            width: 96,
            height: 3,
            color: Color::rgb(34, 197, 94),
        },
    );
    scene.push(
        Draw::Fill {
            x: x + 124,
            y: row + 6,
            width: 52,
            height: 3,
            color: Color::rgb(56, 189, 248),
        },
    );
    scene.push(
        Draw::Fill {
            x: x + 184,
            y: row + 6,
            width: 140,
            height: 3,
            color: Color::rgb(248, 250, 252),
        },
    );
    assert(scene@ =~= old(scene)@ + terminal_line(x as int, row as int, width as int));
}

/// Adds the terminal.
fn draw_terminal(scene: &mut Vec<Draw>, x: i32, y: i32, width: i32, height: i32)
    requires
        0 <= x <= 1000,
        0 <= y <= 1000,
        -48 <= width <= 0x7fff_0000,
        -84 <= height <= 22_845_571,
    ensures
        final(scene)@ == old(scene)@ + terminal(x as int, y as int, width as int, height as int),
{
    scene.push(Draw::Fill { x, y, width, height, color: Color::rgb(2, 6, 23) });
    scene.push(Draw::Frame { x, y, width, height, color: Color::rgb(30, 41, 59) });
    assert(scene@ =~= old(scene)@ + terminal_frame(x as int, y as int, width as int, height as int));
    let ghost before = scene@;
    let end: i32 = y + height - 24;
    let mut row: i32 = y + 18;
    assert(before + terminal_lines(x as int, row as int, end as int, width as int) =~= scene@
        + terminal_lines(x as int, row as int, end as int, width as int));
    while row < end
        invariant
            0 <= x <= 1000,
            0 <= row <= 22_900_000,
            end <= 22_890_000,
            -48 <= width <= 0x7fff_0000,
            before + terminal_lines(x as int, y + 18, end as int, width as int) == scene@
                + terminal_lines(x as int, row as int, end as int, width as int),
        decreases end + 18 - row,
    {
        let ghost so_far = scene@;
        push_terminal_line(scene, x, row, width);
        assert(so_far + terminal_lines(x as int, row as int, end as int, width as int) =~= scene@
            + terminal_lines(x as int, row + 18, end as int, width as int));
        row += 18;
    }
    assert(scene@ =~= scene@ + terminal_lines(x as int, row as int, end as int, width as int));
    assert(scene@ =~= old(scene)@ + terminal(x as int, y as int, width as int, height as int));
}

/// Adds a card that shows a state.
fn push_status_card(scene: &mut Vec<Draw>, x: i32, top: i32, width: i32, color: Color)
    requires
        0 <= x <= 0x7fff_0000,
        0 <= top <= 1000,
        -48 <= width,
        x + width <= 0x7fff_ffff,
    ensures
        final(scene)@ == old(scene)@ + status_card(x as int, top as int, width as int, color),
{
    let half: i32 = if width < 0 {
        -(-width / 2)
    } else {
        width / 2
    };
    let third: i32 = if width < 0 {
        -(-width / 3)
    } else {
        width / 3
    };
    scene.push(
        Draw::Fill {
            x,
            y: top,
            width,
            height: 44,
            color: Color::rgb(248, 250, 252),
        },
    );
    scene.push(
        Draw::Frame {
            x,
            y: top,
            width,
            height: 44,
            color: Color::rgb(203, 213, 225),
        },
    );
    scene.push(Draw::Fill { x: x + 14, y: top + 12, width: 20, height: 20, color: color });
    scene.push(
        Draw::Fill {
            x: x + 46,
            y: top + 12,
            width: half,
            height: 6,
            color: Color::rgb(51, 65, 85),
        },
    );
    scene.push(
        Draw::Fill {
            x: x + 46,
            y: top + 24,
            width: third,
            height: 4,
            color: Color::rgb(148, 163, 184),
        },
    );
    scene.push(Draw::Fill { x: x + width - 80, y: top + 14, width: 52, height: 16, color: color });
    assert(scene@ =~= old(scene)@ + status_card(x as int, top as int, width as int, color));
}

/// Adds the cards.
fn draw_status_cards(scene: &mut Vec<Draw>, x: i32, y: i32, width: i32)
    requires
        0 <= x <= 0x7fff_0000,
        0 <= y <= 500,
        -48 <= width,
        x + width <= 0x7fff_ffff,
    ensures
        final(scene)@ == old(scene)@ + status_cards(x as int, y as int, width as int),
{
    push_status_card(scene, x, y, width, Color::rgb(37, 99, 235));
    push_status_card(scene, x, y + 60, width, Color::rgb(6, 182, 212));
    push_status_card(scene, x, y + 120, width, Color::rgb(16, 185, 129));
    assert(scene@ =~= old(scene)@ + status_cards(x as int, y as int, width as int));
}

/// Adds the dock without its icons.
fn push_dock_frame(scene: &mut Vec<Draw>, y: i32)
    requires
        -100 <= y,
    ensures
        final(scene)@ == old(scene)@ + dock_frame(y as int),
{
    scene.push(
        Draw::Fill {
            x: 300,
            y,
            width: 340,
            height: 56,
            color: Color::rgb(241, 245, 249),
        },
    );
    scene.push(
        Draw::Frame {
            x: 300,
            y,
            width: 340,
            height: 56,
            color: Color::rgb(148, 163, 184),
        },
    );
    assert(scene@ =~= old(scene)@ + dock_frame(y as int));
}

/// Adds an icon in the dock.
fn push_dock_icon(scene: &mut Vec<Draw>, x: i32, y: i32, color: Color)
    requires
        -100 <= y <= 22_845_571,
    ensures
        final(scene)@ == old(scene)@ + dock_icon(x as int, y as int, color),
{
    scene.push(Draw::Fill { x: x, y: y + 12, width: 32, height: 32, color: color });
    scene.push(
        Draw::Frame {
            x,
            y: y + 12,
            width: 32,
            height: 32,
            color: Color::rgb(15, 23, 42),
        },
    );
    assert(scene@ =~= old(scene)@ + dock_icon(x as int, y as int, color));
}

/// Adds the dock of a screen of this height.
fn draw_dock(scene: &mut Vec<Draw>, screen_height: i32)
    requires
        0 <= screen_height <= 22_845_571,
    ensures
        final(scene)@ == old(scene)@ + dock(screen_height as int),
{
    let y: i32 = screen_height - 100;
    push_dock_frame(scene, y);
    push_dock_icon(scene, 320, y, Color::rgb(59, 130, 246));
    push_dock_icon(scene, 372, y, Color::rgb(244, 114, 182));
    push_dock_icon(scene, 424, y, Color::rgb(16, 185, 129));
    push_dock_icon(scene, 476, y, Color::rgb(250, 204, 21));
    push_dock_icon(scene, 528, y, Color::rgb(249, 115, 22));
    push_dock_icon(scene, 580, y, Color::rgb(168, 85, 247));
    assert(scene@ =~= old(scene)@ + dock(screen_height as int));
}

/// Adds what is in front of everything.
fn push_foreground(scene: &mut Vec<Draw>, width: i32, height: i32)
    requires
        0 <= width,
        0 <= height,
    ensures
        final(scene)@ == old(scene)@ + foreground(width as int, height as int),
{
    scene.push(
        Draw::Panel {
            height: 44,
            color: Color::rgb(3, 7, 18),
            edge: Color::rgb(71, 85, 105),
        },
    );
    scene.push(Draw::Cursor { x: width - 180, y: height / 2 });
    assert(scene@ =~= old(scene)@ + foreground(width as int, height as int));
}

/// All shapes of the desktop on a screen of this size.
pub fn layout(width: i32, height: i32) -> (shapes: Vec<Draw>)
    requires
        0 <= width <= 0x7fff_ffcf,
        0 <= height <= 22_845_571,
    ensures
        shapes@ == scene(width as int, height as int),
{
    let mut shapes: Vec<Draw> = Vec::new();
    let glass = Color::rgb(241, 245, 249);
    let ink = Color::rgb(15, 23, 42);
    let accent = Color::rgb(59, 130, 246);
    let warm = Color::rgb(251, 191, 36);
    push_background(&mut shapes, width);
    draw_window(&mut shapes, 72, 108, width / 2, height / 2, glass, ink, accent);
    draw_terminal(&mut shapes, 96, 152, width / 2 - 48, height / 2 - 84);
    draw_window(
        &mut shapes,
        width / 2 + 32,
        140,
        width / 3,
        height / 3,
        Color::rgb(255, 251, 235),
        ink,
        warm,
    );
    draw_status_cards(&mut shapes, width / 2 + 56, 192, width / 3 - 48);
    draw_dock(&mut shapes, height);
    push_foreground(&mut shapes, width, height);
    assert(shapes@ =~= scene(width as int, height as int));
    shapes
}

proof fn lemma_append_fits(info: FrameBufferInfo, a: Seq<Draw>, b: Seq<Draw>)
    requires
        all_fit(info, a),
        all_fit(info, b),
    ensures
        all_fit(info, a + b),
{
    assert forall|i: int| 0 <= i < (a + b).len() implies fits(info, #[trigger] (a + b)[i]) by {
        if i < a.len() {
            assert((a + b)[i] == a[i]);
        } else {
            assert((a + b)[i] == b[i - a.len()]);
        }
    }
}

proof fn lemma_lines_fit(info: FrameBufferInfo, x: int, row: int, end: int, width: int)
    ensures
        all_fit(info, terminal_lines(x, row, end, width)),
    decreases end + 18 - row,
{
    if row < end {
        lemma_lines_fit(info, x, row + 18, end, width);
        lemma_append_fits(
            info,
            terminal_line(x, row, width),
            terminal_lines(x, row + 18, end, width),
        );
    }
}

/// Every shape of the desktop has coordinates.
proof fn lemma_scene_fits(info: FrameBufferInfo)
    requires
        screen_fits(info),
    ensures
        all_fit(info, scene(info.width as int, info.height as int)),
{
    let width = info.width as int;
    let height = info.height as int;
    let glass = Color { r: 241, g: 245, b: 249 };
    let ink = Color { r: 15, g: 23, b: 42 };
    let accent = Color { r: 59, g: 130, b: 246 };
    let warm = Color { r: 251, g: 191, b: 36 };
    let a = background(width);
    let b = window(72, 108, width / 2, height / 2, glass, ink, accent);
    let c = terminal(96, 152, width / 2 - 48, height / 2 - 84);
    let d = window(
        width / 2 + 32,
        140,
        width / 3,
        height / 3,
        Color { r: 255, g: 251, b: 235 },
        ink,
        warm,
    );
    let e = status_cards(width / 2 + 56, 192, width / 3 - 48);
    let f = dock(height);
    let g = foreground(width, height);
    lemma_lines_fit(info, 96, 170, 152 + (height / 2 - 84) - 24, width / 2 - 48);
    lemma_append_fits(
        info,
        terminal_frame(96, 152, width / 2 - 48, height / 2 - 84),
        terminal_lines(96, 170, 152 + (height / 2 - 84) - 24, width / 2 - 48),
    );
    lemma_append_fits(info, a, b);
    lemma_append_fits(info, a + b, c);
    lemma_append_fits(info, a + b + c, d);
    lemma_append_fits(info, a + b + c + d, e);
    lemma_append_fits(info, a + b + c + d + e, f);
    lemma_append_fits(info, a + b + c + d + e + f, g);
}

/// Draws a shape.
fn draw_shape(canvas: &mut Canvas, draw: Draw)
    requires
        old(canvas).well_formed(),
        fits(old(canvas).info, draw),
    ensures
        final(canvas).becomes(old(canvas), drawn(old(canvas).pixels@, old(canvas).info, draw)),
{
    match draw {
        Draw::Gradient { top, bottom } => canvas.vertical_gradient(top, bottom),
        Draw::Checkerboard { cell, base, accent, alpha_num, alpha_den } => canvas.checkerboard(
            cell,
            base,
            accent,
            alpha_num,
            alpha_den,
        ),
        Draw::Fill { x, y, width, height, color } => canvas.fill_rect(x, y, width, height, color),
        Draw::Frame { x, y, width, height, color } => canvas.draw_rect(x, y, width, height, color),
        Draw::Shadow { x, y, width, height, layers, color } => canvas.draw_shadow(
            x,
            y,
            width,
            height,
            layers,
            color,
        ),
        Draw::Panel { height, color, edge } => canvas.draw_panel(height, color, edge),
        Draw::Cursor { x, y } => canvas.draw_cursor(x, y),
    }
}

/// Draws the desktop.
pub fn render(canvas: &mut Canvas)
    requires
        old(canvas).well_formed(),
        screen_fits(old(canvas).info),
    ensures
        final(canvas).becomes(
            old(canvas),
            drawn_all(
                old(canvas).pixels@,
                old(canvas).info,
                scene(old(canvas).info.width as int, old(canvas).info.height as int),
                scene(old(canvas).info.width as int, old(canvas).info.height as int).len(),
            ),
        ),
{
    proof {
        lemma_scene_fits(canvas.info);
    }
    let shapes = layout(canvas.width(), canvas.height());
    let mut i: usize = 0;
    while i < shapes.len()
        invariant
            i <= shapes.len(),
            canvas.well_formed(),
            canvas.info == old(canvas).info,
            all_fit(canvas.info, shapes@),
            canvas.pixels@ == drawn_all(
                old(canvas).pixels@,
                old(canvas).info,
                shapes@,
                i as nat,
            ),
        decreases shapes.len() - i,
    {
        draw_shape(canvas, shapes[i]);
        i += 1;
    }
}

/// A window has a shadow, a body and a frame of its size, a bar of 28 rows across its top, three buttons to
/// the left of the bar and two to the right.
pub proof fn a_window_has_a_bar_and_buttons(
    x: i32,
    y: i32,
    width: i32,
    height: i32,
    body: Color,
    ink: Color,
    accent: Color,
)
    requires
        0 <= x < 0x1000_0000,
        0 <= y < 0x1000_0000,
        64 < width < 0x1000_0000,
        28 < height < 0x1000_0000,
    ensures
        ({
            let draws = window(x as int, y as int, width as int, height as int, body, ink, accent);
            let button = |from: int, top: int, w: int, h: int, color: Color|
                draws.contains(
                    Draw::Fill {
                        x: from as i32,
                        y: top as i32,
                        width: w as i32,
                        height: h as i32,
                        color,
                    },
                );
            &&& draws[0] matches Draw::Shadow { layers, width: w, height: h, .. } && layers == 6 && w
                == width && h == height
            &&& draws[1] == (Draw::Fill { x, y, width, height, color: body })
            &&& draws[2] matches Draw::Frame { x: fx, y: fy, width: w, height: h, .. } && fx == x && fy
                == y && w == width && h == height
            &&& draws[3] == (Draw::Fill { x, y, width, height: 28, color: accent })
            &&& button(x + 16, y + 9, 10, 10, Color { r: 255, g: 255, b: 255 })
            &&& button(x + 34, y + 9, 10, 10, Color { r: 219, g: 234, b: 254 })
            &&& button(x + 52, y + 9, 10, 10, Color { r: 191, g: 219, b: 254 })
            &&& button(x + width - 56, y + 8, 16, 12, Color { r: 255, g: 255, b: 255 })
            &&& button(x + width - 32, y + 8, 16, 12, ink)
        }),
{
    let draws = window(x as int, y as int, width as int, height as int, body, ink, accent);
    assert(draws.contains(draws[4]) && draws.contains(draws[5]) && draws.contains(draws[6])
        && draws.contains(draws[7]) && draws.contains(draws[8]));
}

/// The dock has six icons, 52 apart, each in a color of its own and with a frame.
pub proof fn the_dock_has_six_icons(screen_height: i32, i: int)
    requires
        200 < screen_height,
        0 <= i < 6,
    ensures
        ({
            let draws = dock(screen_height as int);
            let color = seq![
                (Color { r: 59, g: 130, b: 246 }),
                (Color { r: 244, g: 114, b: 182 }),
                (Color { r: 16, g: 185, b: 129 }),
                (Color { r: 250, g: 204, b: 21 }),
                (Color { r: 249, g: 115, b: 22 }),
                (Color { r: 168, g: 85, b: 247 }),
            ][i];
            &&& draws.len() == 14
            &&& draws[2 + 2 * i] == (Draw::Fill {
                x: (320 + 52 * i) as i32,
                y: (screen_height - 88) as i32,
                width: 32,
                height: 32,
                color,
            })
            &&& draws[3 + 2 * i] matches Draw::Frame { x, y, width, height, .. } && x == 320 + 52 * i && y
                == screen_height - 88 && width == 32 && height == 32
        }),
{
}

/// The terminal has a line every 18 rows, down to 24 rows above its end.
pub proof fn the_terminal_has_its_lines(x: int, row: int, end: int, width: int)
    ensures
        row >= end ==> terminal_lines(x, row, end, width).len() == 0,
        row < end ==> {
            let lines = terminal_lines(x, row, end, width);
            &&& lines.len() == terminal_lines(x, row + 18, end, width).len() + 4
            &&& lines.subrange(0, 4) == terminal_line(x, row, width)
            &&& lines.subrange(4, lines.len() as int) == terminal_lines(x, row + 18, end, width)
        },
{
    if row < end {
        let lines = terminal_lines(x, row, end, width);
        assert(lines.subrange(0, 4) =~= terminal_line(x, row, width));
        assert(lines.subrange(4, lines.len() as int) =~= terminal_lines(x, row + 18, end, width));
    }
}

proof fn lemma_same_drawing(pixels: Seq<u8>, info: FrameBufferInfo, a: Seq<Draw>, b: Seq<Draw>, n: nat)
    requires
        n <= a.len(),
        n <= b.len(),
        forall|i: int| 0 <= i < n ==> #[trigger] a[i] == b[i],
    ensures
        drawn_all(pixels, info, a, n) == drawn_all(pixels, info, b, n),
    decreases n,
{
    if n > 0 {
        lemma_same_drawing(pixels, info, a, b, (n - 1) as nat);
        assert(a[n - 1] == b[n - 1]);
    }
}

/// Things are drawn in turn, each over what was drawn before it; nothing is left out.
pub proof fn things_are_drawn_in_turn(
    pixels: Seq<u8>,
    info: FrameBufferInfo,
    draws: Seq<Draw>,
    next: Draw,
)
    ensures
        drawn_all(pixels, info, Seq::<Draw>::empty(), 0) == pixels,
        drawn_all(pixels, info, draws.push(next), draws.len() + 1) == drawn(
            drawn_all(pixels, info, draws, draws.len()),
            info,
            next,
        ),
{
    let longer = draws.push(next);
    lemma_same_drawing(pixels, info, longer, draws, draws.len());
    assert(longer[draws.len() as int] == next);
}

/// A rectangle is drawn where it says and in its color, filled or as a frame.
pub proof fn a_rectangle_is_drawn_where_it_says(
    pixels: Seq<u8>,
    info: FrameBufferInfo,
    x: i32,
    y: i32,
    width: i32,
    height: i32,
    color: Color,
)
    ensures
        drawn(pixels, info, Draw::Fill { x, y, width, height, color }) == filled(
            pixels,
            info,
            x as int,
            y as int,
            width as int,
            height as int,
            color,
        ),
        drawn(pixels, info, Draw::Frame { x, y, width, height, color }) == framed(
            pixels,
            info,
            x as int,
            y as int,
            width as int,
            height as int,
            color,
        ),
{
}

/// A card has a light body, a frame, a mark and a button in its color, and two lines between them.
pub proof fn a_card_has_a_mark_and_a_button(x: i32, top: i32, width: i32, color: Color)
    requires
        0 <= x < 0x1000_0000,
        0 <= top < 0x1000_0000,
        80 <= width < 0x1000_0000,
    ensures
        ({
            let draws = status_card(x as int, top as int, width as int, color);
            &&& draws.len() == 6
            &&& draws[0] == (Draw::Fill {
                x,
                y: top,
                width,
                height: 44,
                color: Color { r: 248, g: 250, b: 252 },
            })
            &&& draws[1] == (Draw::Frame {
                x,
                y: top,
                width,
                height: 44,
                color: Color { r: 203, g: 213, b: 225 },
            })
            &&& draws[2] == (Draw::Fill {
                x: (x + 14) as i32,
                y: (top + 12) as i32,
                width: 20,
                height: 20,
                color,
            })
            &&& draws[3] == (Draw::Fill {
                x: (x + 46) as i32,
                y: (top + 12) as i32,
                width: (width as int / 2) as i32,
                height: 6,
                color: Color { r: 51, g: 65, b: 85 },
            })
            &&& draws[4] == (Draw::Fill {
                x: (x + 46) as i32,
                y: (top + 24) as i32,
                width: (width as int / 3) as i32,
                height: 4,
                color: Color { r: 148, g: 163, b: 184 },
            })
            &&& draws[5] == (Draw::Fill {
                x: (x + width - 80) as i32,
                y: (top + 14) as i32,
                width: 52,
                height: 16,
                color,
            })
        }),
{
}

/// There are three cards, 60 apart, each in a color of its own.
pub proof fn there_are_three_cards(x: int, y: int, width: int)
    ensures
        ({
            let cards = status_cards(x, y, width);
            &&& cards.len() == 18
            &&& cards.subrange(0, 6) == status_card(x, y, width, Color { r: 37, g: 99, b: 235 })
            &&& cards.subrange(6, 12) == status_card(
                x,
                y + 60,
                width,
                Color { r: 6, g: 182, b: 212 },
            )
            &&& cards.subrange(12, 18) == status_card(
                x,
                y + 120,
                width,
                Color { r: 16, g: 185, b: 129 },
            )
        }),
{
    let cards = status_cards(x, y, width);
    assert(cards.subrange(0, 6) =~= status_card(x, y, width, Color { r: 37, g: 99, b: 235 }));
    assert(cards.subrange(6, 12) =~= status_card(x, y + 60, width, Color { r: 6, g: 182, b: 212 }));
    assert(cards.subrange(12, 18) =~= status_card(
        x,
        y + 120,
        width,
        Color { r: 16, g: 185, b: 129 },
    ));
}

/// The terminal is a dark rectangle with a frame, and its lines begin 18 below its top and stop 24 above
/// its end.
pub proof fn a_terminal_is_dark_and_framed(x: i32, y: i32, width: i32, height: i32)
    ensures
        ({
            let draws = terminal(x as int, y as int, width as int, height as int);
            &&& draws.len() >= 2
            &&& draws[0] == (Draw::Fill { x, y, width, height, color: Color { r: 2, g: 6, b: 23 } })
            &&& draws[1] == (Draw::Frame { x, y, width, height, color: Color { r: 30, g: 41, b: 59 } })
            &&& draws.subrange(2, draws.len() as int) == terminal_lines(
                x as int,
                y + 18,
                y + height - 24,
                width as int,
            )
        }),
{
    let draws = terminal(x as int, y as int, width as int, height as int);
    assert(draws.subrange(2, draws.len() as int) =~= terminal_lines(
        x as int,
        y + 18,
        y + height - 24,
        width as int,
    ));
}

/// The screen is drawn from back to front: the gradient, the pattern and the bar, a window with the
/// terminal, a window with the cards, the dock, and last the panel and the cursor.
pub proof fn a_screen_is_drawn_from_back_to_front(width: i32, height: i32)
    requires
        0 < width < 0x1000_0000,
        0 < height < 0x1000_0000,
    ensures
        ({
            let draws = scene(width as int, height as int);
            let inside = terminal(96, 152, width as int / 2 - 48, height as int / 2 - 84);
            let n = inside.len();
            let last = draws.len() as int;
            &&& draws.len() == 6 + 9 + n + 9 + 18 + dock(height as int).len() + 2
            &&& draws[0] == (Draw::Gradient {
                top: Color { r: 17, g: 24, b: 39 },
                bottom: Color { r: 15, g: 118, b: 110 },
            })
            &&& draws[1] is Checkerboard
            &&& draws[2] == (Draw::Fill {
                x: 56,
                y: 48,
                width: (width - 112) as i32,
                height: 32,
                color: Color { r: 10, g: 15, b: 28 },
            })
            &&& draws[3] is Frame
            &&& draws[4] == (Draw::Fill {
                x: 72,
                y: 56,
                width: 84,
                height: 16,
                color: Color { r: 59, g: 130, b: 246 },
            })
            &&& draws[5] == (Draw::Fill {
                x: (width - 196) as i32,
                y: 56,
                width: 124,
                height: 16,
                color: Color { r: 22, g: 163, b: 74 },
            })
            &&& draws.subrange(6, 15) == window(
                72,
                108,
                width as int / 2,
                height as int / 2,
                Color { r: 241, g: 245, b: 249 },
                Color { r: 15, g: 23, b: 42 },
                Color { r: 59, g: 130, b: 246 },
            )
            &&& draws.subrange(15, 15int + n) == inside
            &&& draws.subrange(15int + n, 24int + n) == window(
                width as int / 2 + 32,
                140,
                width as int / 3,
                height as int / 3,
                Color { r: 255, g: 251, b: 235 },
                Color { r: 15, g: 23, b: 42 },
                Color { r: 251, g: 191, b: 36 },
            )
            &&& draws.subrange(24int + n, 42int + n) == status_cards(
                width as int / 2 + 56,
                192,
                width as int / 3 - 48,
            )
            &&& draws.subrange(42int + n, last - 2) == dock(height as int)
            &&& draws[last - 2] == (Draw::Panel {
                height: 44,
                color: Color { r: 3, g: 7, b: 18 },
                edge: Color { r: 71, g: 85, b: 105 },
            })
            &&& draws[last - 1] == (Draw::Cursor {
                x: (width - 180) as i32,
                y: (height as int / 2) as i32,
            })
        }),
{
    let draws = scene(width as int, height as int);
    let inside = terminal(96, 152, width as int / 2 - 48, height as int / 2 - 84);
    let n = inside.len();
    let last = draws.len() as int;
    let first = window(
        72,
        108,
        width as int / 2,
        height as int / 2,
        tint(241, 245, 249),
        tint(15, 23, 42),
        tint(59, 130, 246),
    );
    let second = window(
        width as int / 2 + 32,
        140,
        width as int / 3,
        height as int / 3,
        tint(255, 251, 235),
        tint(15, 23, 42),
        tint(251, 191, 36),
    );
    let cards = status_cards(width as int / 2 + 56, 192, width as int / 3 - 48);
    assert(cards.len() == 18);
    assert(draws.subrange(6, 15) =~= first);
    assert(draws.subrange(15, 15int + n) =~= inside);
    assert(draws.subrange(15int + n, 24int + n) =~= second);
    assert(draws.subrange(24int + n, 42int + n) =~= cards);
    assert(draws.subrange(42int + n, last - 2) =~= dock(height as int));
}

} // verus!
