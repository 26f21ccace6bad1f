use codexos::bootinfo::{FrameBufferInfo, PixelFormat};
use codexos::desktop::{fits_screen, layout, render};
use codexos::gfx::{blend, is_drawable, Canvas, Color};

fn canvas(width: u32, height: u32, pixel_format: PixelFormat) -> Canvas {
    let size = width as usize * height as usize * 4;
    let info = FrameBufferInfo {
        base: 0,
        size,
        width,
        height,
        stride: width as usize,
        bytes_per_pixel: 4,
        pixel_format,
    };
    Canvas::from_framebuffer(info, vec![0; size])
}

fn pixel(canvas: &Canvas, x: usize, y: usize) -> [u8; 3] {
    let at = (y * canvas.info.stride + x) * 4;
    [canvas.pixels[at], canvas.pixels[at + 1], canvas.pixels[at + 2]]
}

#[test]
fn colors_are_stored_in_the_order_of_the_screen() {
    let mut rgb = canvas(4, 4, PixelFormat::Rgb);
    rgb.clear(Color::rgb(1, 2, 3));
    assert_eq!(pixel(&rgb, 3, 3), [1, 2, 3]);
    let mut bgr = canvas(4, 4, PixelFormat::Bgr);
    bgr.clear(Color::rgb(1, 2, 3));
    assert_eq!(pixel(&bgr, 0, 0), [3, 2, 1]);
}

#[test]
fn rectangles_are_clipped() {
    let mut screen = canvas(4, 4, PixelFormat::Rgb);
    screen.fill_rect(-1, 2, 3, 9, Color::rgb(9, 9, 9));
    let lit: Vec<(usize, usize)> = (0..4)
        .flat_map(|y| (0..4).map(move |x| (x, y)))
        .filter(|(x, y)| pixel(&screen, *x, *y) == [9, 9, 9])
        .collect();
    assert_eq!(lit, [(0, 2), (1, 2), (0, 3), (1, 3)]);
    screen.fill_rect(0, 0, 0, 4, Color::rgb(1, 1, 1));
    assert_eq!(pixel(&screen, 0, 0), [0, 0, 0]);
}

#[test]
fn outlines_leave_the_middle() {
    let mut screen = canvas(5, 5, PixelFormat::Rgb);
    screen.draw_rect(1, 1, 3, 3, Color::rgb(7, 7, 7));
    assert_eq!(pixel(&screen, 1, 1), [7, 7, 7]);
    assert_eq!(pixel(&screen, 3, 2), [7, 7, 7]);
    assert_eq!(pixel(&screen, 2, 2), [0, 0, 0]);
    assert_eq!(pixel(&screen, 4, 4), [0, 0, 0]);
}

#[test]
fn mixtures_have_both_ends() {
    let from = Color::rgb(10, 200, 30);
    let to = Color::rgb(20, 100, 30);
    let first = blend(from, to, 0, 4);
    assert_eq!((first.r, first.g, first.b), (10, 200, 30));
    let last = blend(from, to, 4, 4);
    assert_eq!((last.r, last.g, last.b), (20, 100, 30));
    let half = blend(from, to, 2, 4);
    assert_eq!((half.r, half.g, half.b), (15, 150, 30));
}

#[test]
fn gradients_go_from_top_to_bottom() {
    let mut screen = canvas(2, 3, PixelFormat::Rgb);
    screen.vertical_gradient(Color::rgb(0, 0, 0), Color::rgb(100, 0, 0));
    assert_eq!(pixel(&screen, 0, 0), [0, 0, 0]);
    assert_eq!(pixel(&screen, 1, 2), [100, 0, 0]);
}

#[test]
fn the_desktop_fills_the_screen() {
    let mut screen = canvas(640, 480, PixelFormat::Bgr);
    assert!(!layout(screen.width(), screen.height()).is_empty());
    render(&mut screen);
    assert!(screen.pixels.iter().any(|byte| *byte != 0));
}

#[test]
fn screens_that_cannot_be_drawn_on_are_noticed() {
    let info = canvas(64, 48, PixelFormat::Rgb).info;
    assert!(is_drawable(&info) && fits_screen(&info));
    assert!(!is_drawable(&FrameBufferInfo { bytes_per_pixel: 2, ..info }));
    assert!(!is_drawable(&FrameBufferInfo { stride: usize::MAX, ..info }));
    assert!(!is_drawable(&FrameBufferInfo { stride: usize::MAX / 48, ..info }));
    assert!(!fits_screen(&FrameBufferInfo { width: 0x7fff_ffd0, ..info }));
    assert!(!fits_screen(&FrameBufferInfo { height: 22_845_572, ..info }));
}
