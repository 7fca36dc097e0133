use vt::image::{Picture, Samples};
use vt::protocol::ImageProtocol;
use vt::ratatui::{
    check_can_draw, encode_area, AsyncDraw, AsyncImageState, FontSize, ImageState, ImageWidget, Rect,
    StatefulImage,
};
use vt::terminal::{
    cell_size_from_window, clear_image, clear_screen, compute_center_offset, hide_cursor, pixels_per_cell,
    terminal_size, terminal_size_or_default,
};

const BLACK_CELL: &str = "\x1b[1;1H\x1b[48;2;0;0;0m\x1b[37m \x1b[0m";

fn black_pixel() -> Picture {
    Picture { width: 1, height: 1, samples: Samples::Eight(vec![0, 0, 0]) }
}

fn rect(x: u16, y: u16, width: u16, height: u16) -> Rect {
    Rect { x, y, width, height }
}

#[test]
fn escape_sequences_for_screen() {
    let mut out = Vec::new();
    clear_screen(&mut out);
    hide_cursor(&mut out);
    assert_eq!(out, b"\x1b[2J\x1b[?25l".to_vec());
}

#[test]
fn center_offsets() {
    let term = (80, 24);
    let cell = (9, 18);
    assert_eq!(compute_center_offset(10, 10, ImageProtocol::HalfBlock, true, term, cell), (35, 9));
    assert_eq!(compute_center_offset(90, 180, ImageProtocol::Sixel, true, term, cell), (35, 7));
    assert_eq!(compute_center_offset(90, 180, ImageProtocol::Kitty, true, term, cell), (35, 7));
    assert_eq!(compute_center_offset(20, 40, ImageProtocol::Braille, true, term, cell), (35, 7));
    assert_eq!(compute_center_offset(100, 10, ImageProtocol::Ascii, true, term, cell), (0, 7));
    assert_eq!(compute_center_offset(10, 10, ImageProtocol::Ascii, false, term, cell), (0, 0));
    assert_eq!(compute_center_offset(2000, 2000, ImageProtocol::Sixel, true, term, cell), (0, 0));
}

#[test]
fn terminal_sizes() {
    assert_eq!(terminal_size_or_default(None), (80, 24));
    assert_eq!(terminal_size_or_default(Some((100, 50))), (100, 50));
    let (w, h) = terminal_size();
    assert!(w > 0 || h > 0 || (w, h) == (0, 0));
}

#[test]
fn cell_sizes_from_window() {
    assert_eq!(cell_size_from_window(true, 80, 24, 720, 432), (9, 18));
    assert_eq!(cell_size_from_window(false, 80, 24, 720, 432), (9, 18));
    assert_eq!(cell_size_from_window(true, 80, 24, 0, 432), (9, 18));
    assert_eq!(cell_size_from_window(true, 100, 50, 800, 1000), (8, 20));
    assert_eq!(cell_size_from_window(true, 3, 2, 2, 40), (9, 18));
    assert_eq!(pixels_per_cell(ImageProtocol::HalfBlock, 9, 18), (1, 2));
    assert_eq!(pixels_per_cell(ImageProtocol::Braille, 9, 18), (2, 4));
    assert_eq!(pixels_per_cell(ImageProtocol::Ascii, 9, 18), (1, 1));
    assert_eq!(pixels_per_cell(ImageProtocol::Sixel, 9, 18), (9, 18));
}

#[test]
fn clearing_images() {
    let mut out = Vec::new();
    clear_image(ImageProtocol::Kitty, 10, 20, 1, 2, &mut out);
    assert_eq!(out, b"\x1b_Ga=d,i=1\x1b\\".to_vec());
    let mut out = Vec::new();
    clear_image(ImageProtocol::Sixel, 10, 20, 1, 2, &mut out);
    assert_eq!(out, b"\x1b[3;2H\x1bP0;1;q\"1;1;10;20\x1b\\".to_vec());
    let mut out = Vec::new();
    clear_image(ImageProtocol::Ascii, 10, 20, 1, 2, &mut out);
    assert!(out.is_empty());
}

#[test]
fn font_size_conversions() {
    let fs = FontSize { width: 9, height: 18 };
    assert_eq!(fs.cell_to_pixel(10, 5), (90, 90));
    assert_eq!(fs.pixel_to_cell(91, 90), (11, 5));
    assert_eq!(fs.pixel_to_cell(0, 1), (0, 1));
    let (pw, ph) = fs.cell_to_pixel(7, 3);
    assert_eq!(fs.pixel_to_cell(pw, ph), (7, 3));
}

#[test]
fn drawing_checks() {
    let font = FontSize { width: 1, height: 1 };
    let pic = black_pixel();
    assert!(check_can_draw(&pic, rect(0, 0, 1, 1), ImageProtocol::Ascii, font));
    assert!(!check_can_draw(&pic, rect(u16::MAX, 0, 1, 1), ImageProtocol::Ascii, font));
    let bad = Picture { width: 2, height: 1, samples: Samples::Eight(vec![0, 0, 0]) };
    assert!(!check_can_draw(&bad, rect(0, 0, 1, 1), ImageProtocol::Ascii, font));
    let big = FontSize { width: 100, height: 100 };
    assert!(check_can_draw(&pic, rect(0, 0, 60, 60), ImageProtocol::Sixel, big));
    assert!(check_can_draw(&pic, rect(0, 0, 60, 60), ImageProtocol::HalfBlock, big));
}

#[test]
fn area_streams() {
    let font = FontSize { width: 1, height: 1 };
    let pic = black_pixel();
    assert_eq!(encode_area(&pic, rect(0, 0, 1, 1), ImageProtocol::Ascii, 255, font), BLACK_CELL);
    let placed = encode_area(&pic, rect(3, 2, 1, 1), ImageProtocol::Ascii, 255, font);
    assert_eq!(placed, format!("\x1b[3;4H{}", BLACK_CELL));
    let zero = encode_area(&pic, rect(0, 0, 0, 0), ImageProtocol::Ascii, 255, font);
    assert_eq!(zero, BLACK_CELL);
}

#[test]
fn widgets_render_streams() {
    let font = FontSize { width: 1, height: 1 };
    let w = ImageWidget::new(ImageProtocol::Ascii, 255, vec![0, 0, 0], 1, 1);
    assert_eq!(w.render_stream(rect(0, 0, 5, 5)), BLACK_CELL);
    assert_eq!(w.render_stream(rect(1, 0, 5, 5)), format!("\x1b[1;2H{}", BLACK_CELL));
    let w = ImageWidget::from_image(ImageProtocol::Ascii, 255, &black_pixel(), rect(0, 0, 1, 1), font);
    assert_eq!((w.pixel_width, w.pixel_height), (1, 1));
    assert_eq!(w.data, vec![0, 0, 0]);
    let s = StatefulImage::new(ImageProtocol::Ascii, 255);
    let state = ImageState::new(black_pixel());
    assert_eq!(s.render_stream(rect(0, 0, 1, 1), &state, font), Some(BLACK_CELL.to_string()));
    let empty = ImageState::new(Picture { width: 0, height: 3, samples: Samples::Eight(vec![]) });
    assert_eq!(s.render_stream(rect(0, 0, 1, 1), &empty, font), None);
}

#[test]
fn background_encoding_states() {
    let area = rect(0, 0, 4, 4);
    let mut st = AsyncImageState::new(black_pixel());
    assert_eq!(st.next_draw(None, area), AsyncDraw::Request);
    assert!(st.loading);
    assert_eq!(st.next_draw(None, area), AsyncDraw::Loading);
    assert_eq!(st.next_draw(Some("abc".to_string()), rect(1, 1, 2, 2)), AsyncDraw::Cached);
    assert_eq!(st.cached_stream, Some("abc".to_string()));
    assert_eq!(st.cached_area, Some(rect(1, 1, 2, 2)));
    assert!(!st.loading);
    assert_eq!(st.next_draw(None, area), AsyncDraw::Cached);
    let mut blank = AsyncImageState::new(Picture { width: 0, height: 0, samples: Samples::Eight(vec![]) });
    assert_eq!(blank.next_draw(None, area), AsyncDraw::Nothing);
    assert!(!blank.loading);
}
