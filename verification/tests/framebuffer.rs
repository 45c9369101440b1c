use kernel::font::{get_char_raster, CHAR_RASTER_HEIGHT, CHAR_RASTER_WIDTH};
use kernel::framebuffer::{FrameBufferInfo, FrameBufferWriter, PixelFormat, LINE_HEIGHT};
use noto_sans_mono_bitmap::{get_raster, FontWeight, RasterHeight};

fn layout(width: usize, height: usize) -> FrameBufferInfo {
    FrameBufferInfo {
        byte_len: width * height,
        width,
        height,
        pixel_format: PixelFormat::U8,
        bytes_per_pixel: 1,
        stride: width,
    }
}

fn writer(info: FrameBufferInfo) -> FrameBufferWriter {
    let buffer = Box::leak(vec![0xaa_u8; info.byte_len].into_boxed_slice());
    FrameBufferWriter::new(buffer, info)
}

/// A writer for a buffer of a size that does not fit the layout.
fn misfit(info: FrameBufferInfo, len: usize) -> FrameBufferWriter {
    FrameBufferWriter::new(Box::leak(vec![0_u8; len].into_boxed_slice()), info)
}

/// The intensity of a pixel, read back through the first of its bytes.
fn pixel(writer: &FrameBufferWriter, info: &FrameBufferInfo, x: usize, y: usize) -> u8 {
    writer.bytes()[(y * info.stride + x) * info.bytes_per_pixel]
}

/// The pixels of a character in the font itself.
fn picture(c: char) -> &'static [&'static [u8]] {
    get_raster(c, FontWeight::Regular, RasterHeight::Size16).expect("in the font").raster()
}

/// The character is shown with its top left corner at (x, y).
fn shows(writer: &FrameBufferWriter, info: &FrameBufferInfo, c: char, x: usize, y: usize) -> bool {
    let rows = picture(c);
    (0..16).all(|j| (0..7).all(|i| pixel(writer, info, x + i, y + j) == rows[j][i]))
}

#[test]
fn glyphs_come_from_the_font() {
    assert_eq!(CHAR_RASTER_HEIGHT, 16);
    assert_eq!(CHAR_RASTER_WIDTH, 7);
    assert_eq!(LINE_HEIGHT, 18);
    for c in ' '..='~' {
        let glyph = get_char_raster(c);
        assert_eq!(glyph.rows, picture(c));
        assert_eq!(glyph.width, 7);
    }
    assert_ne!(picture('A'), picture('B'));
}

#[test]
fn uncovered_characters_look_like_spaces() {
    assert_ne!(picture(' '), picture('?'));
    for c in ['\u{7f}', '\t', 'ä', '漢'] {
        assert_eq!(get_char_raster(c).rows, picture(' '));
        assert_eq!(get_char_raster(c).width, 7);
    }
    let info = layout(40, 60);
    let mut uncovered = writer(info);
    uncovered.write_str("aäb");
    let mut spaced = writer(info);
    spaced.write_str("a b");
    assert_eq!(uncovered.bytes(), spaced.bytes());
    assert_eq!(uncovered.cursor(), spaced.cursor());
}

#[test]
fn new_screens_are_black() {
    let writer = writer(layout(40, 60));
    assert!(writer.bytes().iter().all(|byte| *byte == 0));
    assert_eq!(writer.cursor(), (1, 1));
}

#[test]
fn clearing_starts_over() {
    let mut writer = writer(layout(40, 60));
    writer.write_str("ab\nc");
    writer.clear();
    assert!(writer.bytes().iter().all(|byte| *byte == 0));
    assert_eq!(writer.cursor(), (1, 1));
}

#[test]
fn pixels_by_format() {
    for (pixel_format, written) in [
        (PixelFormat::Rgb, 3),
        (PixelFormat::Bgr, 3),
        (PixelFormat::U8, 1),
        (PixelFormat::Unknown { red_position: 0, green_position: 8, blue_position: 16 }, 1),
    ] {
        let info = FrameBufferInfo {
            byte_len: 12 * 20 * 4,
            width: 10,
            height: 20,
            pixel_format,
            bytes_per_pixel: 4,
            stride: 12,
        };
        let mut writer = writer(info);
        writer.write_pixel(3, 2, 200);
        let first = (2 * 12 + 3) * 4;
        for (index, byte) in writer.bytes().iter().enumerate() {
            let expected = if index >= first && index < first + written { 200 } else { 0 };
            assert_eq!(*byte, expected);
        }
    }
}

#[test]
fn pixels_off_the_screen_are_ignored() {
    let mut writer = writer(layout(10, 20));
    writer.write_pixel(10, 0, 255);
    writer.write_pixel(0, 20, 255);
    writer.write_pixel(usize::MAX, usize::MAX, 255);
    assert!(writer.bytes().iter().all(|byte| *byte == 0));
}

#[test]
fn characters_are_drawn_side_by_side() {
    let info = layout(40, 60);
    let mut writer = writer(info);
    writer.write_char('A');
    writer.write_char('b');
    assert!(shows(&writer, &info, 'A', 1, 1));
    assert!(shows(&writer, &info, 'b', 8, 1));
    assert!(!shows(&writer, &info, 'A', 8, 1));
    assert_eq!(writer.cursor(), (15, 1));
    for y in 0..60 {
        assert_eq!(pixel(&writer, &info, 0, y), 0);
        assert_eq!(pixel(&writer, &info, 20, y), 0);
    }
}

#[test]
fn line_breaks_and_carriage_returns() {
    let info = layout(40, 60);
    let mut writer = writer(info);
    writer.write_str("a\nb\rc");
    assert!(shows(&writer, &info, 'a', 1, 1));
    assert!(shows(&writer, &info, 'c', 1, 19));
    assert_eq!(writer.cursor(), (8, 19));
}

#[test]
fn long_lines_wrap() {
    let info = layout(23, 60);
    let mut writer = writer(info);
    writer.write_str("abcd");
    assert_eq!(writer.cursor(), (8, 19));
    assert!(shows(&writer, &info, 'a', 1, 1));
    assert!(shows(&writer, &info, 'b', 8, 1));
    assert!(shows(&writer, &info, 'c', 15, 1));
    assert!(shows(&writer, &info, 'd', 1, 19));
}

#[test]
fn a_glyph_that_would_touch_the_right_border_wraps() {
    let info = layout(22, 60);
    let mut writer = writer(info);
    writer.write_str("abc");
    assert_eq!(writer.cursor(), (8, 19));
    assert!(shows(&writer, &info, 'b', 8, 1));
    assert!(shows(&writer, &info, 'c', 1, 19));
}

#[test]
fn bottom_of_the_screen_scrolls() {
    let info = layout(40, 60);
    let mut writer = writer(info);
    writer.write_str("a\nb");
    assert_eq!(writer.cursor(), (8, 19));
    writer.write_str("\nc");
    assert_eq!(writer.cursor(), (8, 37));
    writer.write_str("\nd");
    assert_eq!(writer.cursor(), (8, 37));
    assert!(shows(&writer, &info, 'b', 1, 1));
    assert!(shows(&writer, &info, 'c', 1, 19));
    assert!(shows(&writer, &info, 'd', 1, 37));
}

#[test]
fn scrolling_moves_every_row_up() {
    let info = layout(4, 40);
    let mut writer = writer(info);
    for y in 0..40 {
        for x in 0..4 {
            writer.write_pixel(x, y, (y * 4 + x) as u8);
        }
    }
    writer.scroll_up();
    for y in 0..40 {
        for x in 0..4 {
            let expected = if y < 22 { ((y + 18) * 4 + x) as u8 } else { 0 };
            assert_eq!(pixel(&writer, &info, x, y), expected);
        }
    }
    assert_eq!(writer.cursor(), (1, 1));
}

#[test]
fn texts_are_joined() {
    let info = layout(40, 60);
    let mut parts = writer(info);
    parts.write_str("ab");
    parts.write_str("c\nd");
    let mut whole = writer(info);
    whole.write_str("abc\nd");
    assert_eq!(parts.bytes(), whole.bytes());
    assert_eq!(parts.cursor(), whole.cursor());
}

#[test]
fn tiny_screens_clip_glyphs() {
    let info = layout(5, 18);
    let mut writer = writer(info);
    writer.write_char('A');
    let rows = picture('A');
    for y in 0..18 {
        for x in 0..5 {
            let expected = if x >= 1 && y >= 1 && y <= 16 { rows[y - 1][x - 1] } else { 0 };
            assert_eq!(pixel(&writer, &info, x, y), expected);
        }
    }
}

#[test]
fn whole_screens_accept_text() {
    let mut writer = writer(layout(40, 60));
    for c in "every text\nis\raccepted, however long it is\n\n\n.".chars() {
        assert!(writer.accepts(c));
        writer.write_char(c);
    }
    assert!(writer.try_write_str("and more"));
}

#[test]
fn text_stops_at_the_end_of_the_buffer() {
    let info = layout(23, 60);
    let mut writer = misfit(info, 23 * 18);
    assert!(!writer.try_write_str("abcd"));
    assert_eq!(writer.cursor(), (22, 1));
    assert!(shows(&writer, &info, 'a', 1, 1));
    assert!(shows(&writer, &info, 'b', 8, 1));
    assert!(shows(&writer, &info, 'c', 15, 1));
    assert!(!writer.accepts('d'));
    assert!(writer.accepts('\r'));
    assert!(writer.accepts('\n'));
}

#[test]
fn short_buffers_cannot_be_scrolled() {
    let mut short = misfit(layout(40, 17), 680);
    assert!(!short.accepts('a'));
    assert!(!short.accepts('\n'));
    assert!(short.accepts('\r'));
    assert!(!short.try_write_str("a"));
    assert_eq!(short.cursor(), (1, 1));
    let exact = misfit(layout(40, 18), 720);
    assert!(exact.accepts('a'));
    assert!(exact.accepts('\n'));
}

#[test]
fn absurd_layouts_accept_nothing() {
    let info = layout(40, 60);
    for absurd in [
        FrameBufferInfo { stride: usize::MAX, ..info },
        FrameBufferInfo { bytes_per_pixel: usize::MAX, ..info },
    ] {
        assert!(!misfit(absurd, 2400).accepts('a'));
    }
}

#[test]
fn only_the_pixels_of_a_glyph_are_needed() {
    let info = layout(40, 60);
    let mut writer = misfit(info, 16 * 40 + 8);
    writer.render_glyph(&get_char_raster('A'));
    assert!(shows(&writer, &info, 'A', 1, 1));
    assert!(!misfit(info, 16 * 40 + 7).accepts('A'));
    assert!(misfit(info, 16 * 40 + 8).accepts('A'));
}
