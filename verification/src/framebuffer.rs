//! Text rendering on a pixel framebuffer.

use crate::font::{
    char_raster_width, get_char_raster, glyph_rows, in_font, raster_rows, Glyph,
    CHAR_RASTER_HEIGHT, CHAR_RASTER_WIDTH,
};
use vstd::prelude::*;

verus! {

/// Pixels between two lines of text.
pub const LINE_SPACING: usize = 2;

/// Pixels between two characters.
pub const LETTER_SPACING: usize = 0;

/// Pixels left free at the top and at the left border.
pub const BORDER_PADDING: usize = 1;

/// Height of one line of text in pixels.
pub const LINE_HEIGHT: usize = CHAR_RASTER_HEIGHT + LINE_SPACING;

/// How the bytes of one pixel are laid out.
#[derive(Clone, Copy, Debug, PartialEq, Eq, Structural)]
pub enum PixelFormat {
    /// Red, green, blue.
    Rgb,
    /// Blue, green, red.
    Bgr,
    /// One grey value.
    U8,
    /// Anything else; the fields give the bit offsets of the three colours.
    Unknown { red_position: u8, green_position: u8, blue_position: u8 },
}

/// Resolution and layout of a framebuffer.
#[derive(Clone, Copy, Debug, PartialEq, Eq, Structural)]
pub struct FrameBufferInfo {
    /// Size of the buffer in bytes.
    pub byte_len: usize,
    /// Width of the screen in pixels.
    pub width: usize,
    /// Height of the screen in pixels.
    pub height: usize,
    /// Layout of one pixel.
    pub pixel_format: PixelFormat,
    /// Bytes from one pixel to the next.
    pub bytes_per_pixel: usize,
    /// Pixels from one row to the next; not less than the width.
    pub stride: usize,
}

impl FrameBufferInfo {
    /// Bytes that are written for one pixel.
    pub open spec fn channels(self) -> int {
        match self.pixel_format {
            PixelFormat::Rgb => 3,
            PixelFormat::Bgr => 3,
            _ => 1,
        }
    }

    /// The pixel lies on the screen.
    pub open spec fn on_screen(self, x: int, y: int) -> bool {
        0 <= x < self.width && 0 <= y < self.height
    }

    /// Index of a pixel, counted in pixels from the start of the buffer.
    pub open spec fn pixel_index(self, x: int, y: int) -> int {
        y * self.stride + x
    }

    /// Index of the first byte of a pixel.
    pub open spec fn byte_index(self, x: int, y: int) -> int {
        self.pixel_index(x, y) * self.bytes_per_pixel
    }

    /// A buffer of `len` bytes holds the bytes of the pixel.
    pub open spec fn holds_pixel(self, len: int, x: int, y: int) -> bool {
        &&& self.pixel_index(x, y) <= usize::MAX
        &&& self.byte_index(x, y) + self.channels() <= len
    }

    /// A buffer of `len` bytes holds every pixel of the screen, or, what is the same, the last.
    pub open spec fn holds_screen(self, len: int) -> bool {
        self.width > 0 && self.height > 0 ==> self.holds_pixel(
            len,
            self.width - 1,
            self.height - 1,
        )
    }

    /// A buffer of `len` bytes holds those pixels on the screen that a glyph at (x, y) covers.
    pub open spec fn holds_glyph(self, len: int, x: int, y: int) -> bool {
        forall|px: int, py: int|
            self.on_screen(px, py) && x <= px < x + CHAR_RASTER_WIDTH && y <= py < y
                + CHAR_RASTER_HEIGHT ==> #[trigger] self.holds_pixel(len, px, py)
    }

    /// Bytes that one line of text takes.
    pub open spec fn line_bytes(self) -> int {
        LINE_HEIGHT * self.stride * self.bytes_per_pixel
    }

    /// A buffer of `len` bytes is at least one line of text high, so that it can be scrolled.
    pub open spec fn holds_line(self, len: int) -> bool {
        LINE_HEIGHT * self.stride <= usize::MAX && self.line_bytes() <= len
    }

    /// The cursor cannot leave the range of `usize`.
    pub open spec fn in_range(self) -> bool {
        &&& self.width + CHAR_RASTER_WIDTH <= usize::MAX
        &&& self.height + LINE_HEIGHT <= usize::MAX
    }
}

impl FrameBufferInfo {
    /// Bytes that are written for one pixel.
    fn channel_count(&self) -> (channels: u128)
        ensures
            channels == self.channels(),
    {
        match self.pixel_format {
            PixelFormat::Rgb | PixelFormat::Bgr => 3,
            _ => 1,
        }
    }

    /// Whether a buffer of `len` bytes holds the bytes of the pixel.
    fn pixel_held(&self, len: usize, x: usize, y: usize) -> (yes: bool)
        ensures
            yes == self.holds_pixel(len as int, x as int, y as int),
    {
        let stride: u128 = self.stride as u128;
        let bpp: u128 = self.bytes_per_pixel as u128;
        proof {
            lemma_product_in_range(y as int, stride as int);
        }
        let index: u128 = y as u128 * stride + x as u128;
        if index > usize::MAX as u128 {
            return false;
        }
        proof {
            lemma_product_in_range(index as int, bpp as int);
        }
        index * bpp + self.channel_count() <= len as u128
    }

    /// Whether a buffer of `len` bytes can be scrolled by a line of text.
    fn line_held(&self, len: usize) -> (yes: bool)
        ensures
            yes == self.holds_line(len as int),
    {
        let line: u128 = LINE_HEIGHT as u128 * self.stride as u128;
        if line > usize::MAX as u128 {
            return false;
        }
        proof {
            lemma_product_in_range(line as int, self.bytes_per_pixel as int);
        }
        line * self.bytes_per_pixel as u128 <= len as u128
    }
}

/// The product of two words fits into two words, with room for another word.
proof fn lemma_product_in_range(a: int, b: int)
    requires
        0 <= a <= u64::MAX,
        0 <= b <= u64::MAX,
    ensures
        0 <= a * b <= u128::MAX - u64::MAX,
{
    assert(0 <= a * b <= u64::MAX * u64::MAX) by (nonlinear_arith)
        requires
            0 <= a <= u64::MAX,
            0 <= b <= u64::MAX,
    ;
}

/// What is in a framebuffer, and where the next character goes.
#[verifier::ext_equal]
pub struct Screen {
    pub bytes: Seq<u8>,
    pub x: int,
    pub y: int,
}

/// The buffer after all bytes of the pixel (x, y) were set to `intensity`. Off the screen nothing
/// is set.
pub open spec fn put_pixel(
    bytes: Seq<u8>,
    info: FrameBufferInfo,
    x: int,
    y: int,
    intensity: u8,
) -> Seq<u8> {
    if info.on_screen(x, y) {
        let first = info.byte_index(x, y);
        Seq::new(
            bytes.len(),
            |k: int|
                if first <= k < first + info.channels() {
                    intensity
                } else {
                    bytes[k]
                },
        )
    } else {
        bytes
    }
}

/// The buffer after the first `n` pixels of `row` were drawn to the right from (x, y).
pub open spec fn put_row(
    bytes: Seq<u8>,
    info: FrameBufferInfo,
    x: int,
    y: int,
    row: Seq<u8>,
    n: nat,
) -> Seq<u8>
    decreases n,
{
    if n == 0 {
        bytes
    } else {
        put_pixel(
            put_row(bytes, info, x, y, row, (n - 1) as nat),
            info,
            x + n - 1,
            y,
            row[n - 1],
        )
    }
}

/// The buffer after the first `n` rows of a glyph were drawn downwards from (x, y).
pub open spec fn put_rows(
    bytes: Seq<u8>,
    info: FrameBufferInfo,
    x: int,
    y: int,
    rows: Seq<Seq<u8>>,
    n: nat,
) -> Seq<u8>
    decreases n,
{
    if n == 0 {
        bytes
    } else {
        put_row(
            put_rows(bytes, info, x, y, rows, (n - 1) as nat),
            info,
            x,
            y + n - 1,
            rows[n - 1],
            rows[n - 1].len(),
        )
    }
}

/// Every pixel of the rows, drawn at the cursor, has coordinates in the range of `usize`, and the
/// buffer holds those pixels that lie on the screen.
pub open spec fn drawable(s: Screen, info: FrameBufferInfo, rows: Seq<Seq<u8>>) -> bool {
    forall|i: int, j: int|
        #![trigger rows[j][i]]
        0 <= j < rows.len() && 0 <= i < rows[j].len() ==> {
            &&& s.x + i <= usize::MAX
            &&& s.y + j <= usize::MAX
            &&& info.on_screen(s.x + i, s.y + j) ==> info.holds_pixel(
                s.bytes.len() as int,
                s.x + i,
                s.y + j,
            )
        }
}

/// The buffer moved up by one line of text, with black moving in at the end.
pub open spec fn shifted_up(bytes: Seq<u8>, info: FrameBufferInfo) -> Seq<u8> {
    Seq::new(
        bytes.len(),
        |k: int|
            if k + info.line_bytes() < bytes.len() {
                bytes[k + info.line_bytes()]
            } else {
                0
            },
    )
}

impl Screen {
    /// The cursor stands where writing can leave it: at the left border or past a glyph that fits,
    /// in the first line or in one that fits.
    pub open spec fn cursor_ok(self, info: FrameBufferInfo) -> bool {
        &&& self.x >= BORDER_PADDING
        &&& self.x < info.width || self.x <= BORDER_PADDING + CHAR_RASTER_WIDTH
        &&& self.y % (LINE_HEIGHT as int) == BORDER_PADDING
        &&& self.y == BORDER_PADDING || BORDER_PADDING <= self.y < info.height - LINE_HEIGHT
    }

    /// All black, with the cursor in the top left corner.
    pub open spec fn cleared(self) -> Screen {
        Screen {
            bytes: Seq::new(self.bytes.len(), |k: int| 0u8),
            x: BORDER_PADDING as int,
            y: BORDER_PADDING as int,
        }
    }

    /// Everything, cursor included, one line of text higher.
    pub open spec fn scrolled(self, info: FrameBufferInfo) -> Screen {
        Screen {
            bytes: shifted_up(self.bytes, info),
            y: if self.y >= LINE_HEIGHT {
                self.y - LINE_HEIGHT
            } else {
                self.y
            },
            ..self
        }
    }

    /// No further line of text fits below the top of the current one.
    pub open spec fn at_bottom(self, info: FrameBufferInfo) -> bool {
        self.y + LINE_HEIGHT >= info.height
    }

    /// The cursor at the start of the next line.
    pub open spec fn next_line(self) -> Screen {
        Screen { x: BORDER_PADDING as int, y: self.y + LINE_HEIGHT, ..self }
    }

    /// After a line break: the next line, scrolled into view.
    pub open spec fn newline(self, info: FrameBufferInfo) -> Screen {
        if self.next_line().at_bottom(info) {
            self.next_line().scrolled(info)
        } else {
            self.next_line()
        }
    }

    /// A glyph would not fit between the cursor and the right border.
    pub open spec fn at_right_border(self, info: FrameBufferInfo) -> bool {
        self.x + CHAR_RASTER_WIDTH + LETTER_SPACING >= info.width
    }

    /// The line that a glyph goes to, before scrolling.
    pub open spec fn wrapped(self, info: FrameBufferInfo) -> Screen {
        if self.at_right_border(info) {
            self.newline(info)
        } else {
            self
        }
    }

    /// The place that a glyph goes to.
    pub open spec fn made_room(self, info: FrameBufferInfo) -> Screen {
        if self.wrapped(info).at_bottom(info) {
            self.wrapped(info).scrolled(info)
        } else {
            self.wrapped(info)
        }
    }

    /// After a glyph of the given width was drawn at the cursor.
    pub open spec fn drawn(self, info: FrameBufferInfo, rows: Seq<Seq<u8>>, width: int) -> Screen {
        Screen {
            bytes: put_rows(self.bytes, info, self.x, self.y, rows, rows.len()),
            x: self.x + width + LETTER_SPACING,
            ..self
        }
    }

    /// After the character `c` was written.
    pub open spec fn written(self, info: FrameBufferInfo, c: char) -> Screen {
        if c == '\n' {
            self.newline(info)
        } else if c == '\r' {
            Screen { x: BORDER_PADDING as int, ..self }
        } else {
            self.made_room(info).drawn(info, glyph_rows(c), CHAR_RASTER_WIDTH as int)
        }
    }

    /// A line break neither leaves the range of `usize` nor scrolls a buffer that is too small.
    pub open spec fn accepts_newline(self, info: FrameBufferInfo) -> bool {
        &&& self.y + 2 * LINE_HEIGHT <= usize::MAX
        &&& self.next_line().at_bottom(info) ==> info.holds_line(self.bytes.len() as int)
    }

    /// The character can be written: no position leaves the range of `usize`, the buffer holds
    /// every pixel that is drawn, and it can be scrolled if it has to be.
    pub open spec fn accepts(self, info: FrameBufferInfo, c: char) -> bool {
        if c == '\n' {
            self.accepts_newline(info)
        } else if c == '\r' {
            true
        } else {
            &&& self.x + CHAR_RASTER_WIDTH + LETTER_SPACING <= usize::MAX
            &&& self.at_right_border(info) ==> self.accepts_newline(info)
            &&& self.wrapped(info).y + LINE_HEIGHT <= usize::MAX
            &&& self.wrapped(info).at_bottom(info) ==> info.holds_line(self.bytes.len() as int)
            &&& info.holds_glyph(
                self.bytes.len() as int,
                self.made_room(info).x,
                self.made_room(info).y,
            )
        }
    }

    /// After `text` was written.
    pub open spec fn text_written(self, info: FrameBufferInfo, text: Seq<char>) -> Screen
        decreases text.len(),
    {
        if text.len() == 0 {
            self
        } else {
            self.text_written(info, text.drop_last()).written(info, text.last())
        }
    }

    /// How many characters of `text` can be written, up to the first that cannot.
    pub open spec fn accepted_prefix(self, info: FrameBufferInfo, text: Seq<char>) -> nat
        decreases text.len(),
    {
        if text.len() == 0 {
            0
        } else {
            let before = self.accepted_prefix(info, text.drop_last());
            if before == text.len() - 1 && self.text_written(info, text.drop_last()).accepts(
                info,
                text.last(),
            ) {
                text.len()
            } else {
                before
            }
        }
    }

    /// All of `text` can be written.
    pub open spec fn accepts_text(self, info: FrameBufferInfo, text: Seq<char>) -> bool {
        self.accepted_prefix(info, text) == text.len()
    }
}

/// A pixel comes no later in the buffer than one that is no further up or to the left.
proof fn lemma_pixel_order(info: FrameBufferInfo, x: int, y: int, x2: int, y2: int)
    requires
        0 <= x <= x2,
        0 <= y <= y2,
    ensures
        0 <= info.pixel_index(x, y) <= info.pixel_index(x2, y2),
        0 <= info.byte_index(x, y) <= info.byte_index(x2, y2),
        0 <= y * info.stride <= info.pixel_index(x, y),
{
    assert(0 <= y * info.stride <= y2 * info.stride) by (nonlinear_arith)
        requires
            0 <= y <= y2,
            0 <= info.stride,
    ;
    let p = info.pixel_index(x, y);
    let p2 = info.pixel_index(x2, y2);
    assert(0 <= p * info.bytes_per_pixel <= p2 * info.bytes_per_pixel) by (nonlinear_arith)
        requires
            0 <= p <= p2,
            0 <= info.bytes_per_pixel,
    ;
}

/// A buffer that holds the last pixel of the screen holds each.
proof fn lemma_holds_pixels(info: FrameBufferInfo, len: int, x: int, y: int)
    requires
        info.holds_screen(len),
        info.on_screen(x, y),
    ensures
        info.holds_pixel(len, x, y),
{
    lemma_pixel_order(info, x, y, info.width - 1, info.height - 1);
}

/// Drawing does not change the size of the buffer.
proof fn lemma_put_row_len(
    bytes: Seq<u8>,
    info: FrameBufferInfo,
    x: int,
    y: int,
    row: Seq<u8>,
    n: nat,
)
    ensures
        put_row(bytes, info, x, y, row, n).len() == bytes.len(),
    decreases n,
{
    if n > 0 {
        lemma_put_row_len(bytes, info, x, y, row, (n - 1) as nat);
    }
}

proof fn lemma_put_rows_len(
    bytes: Seq<u8>,
    info: FrameBufferInfo,
    x: int,
    y: int,
    rows: Seq<Seq<u8>>,
    n: nat,
)
    ensures
        put_rows(bytes, info, x, y, rows, n).len() == bytes.len(),
    decreases n,
{
    if n > 0 {
        lemma_put_rows_len(bytes, info, x, y, rows, (n - 1) as nat);
        let before = put_rows(bytes, info, x, y, rows, (n - 1) as nat);
        lemma_put_row_len(before, info, x, y + n - 1, rows[n - 1], rows[n - 1].len());
    }
}

/// Writing a character keeps the size of the buffer and leaves the cursor in order.
proof fn lemma_written(s: Screen, info: FrameBufferInfo, c: char)
    ensures
        s.written(info, c).bytes.len() == s.bytes.len(),
        s.cursor_ok(info) ==> s.written(info, c).cursor_ok(info),
{
    let room = s.made_room(info);
    let rows = glyph_rows(c);
    lemma_put_rows_len(room.bytes, info, room.x, room.y, rows, rows.len());
}

proof fn lemma_text_written(s: Screen, info: FrameBufferInfo, text: Seq<char>)
    ensures
        s.text_written(info, text).bytes.len() == s.bytes.len(),
        s.cursor_ok(info) ==> s.text_written(info, text).cursor_ok(info),
    decreases text.len(),
{
    if text.len() > 0 {
        lemma_text_written(s, info, text.drop_last());
        lemma_written(s.text_written(info, text.drop_last()), info, text.last());
    }
}

/// What can be written of a text's beginning is what can be written of the text, cut off there.
proof fn lemma_accepted_prefix(s: Screen, info: FrameBufferInfo, text: Seq<char>, m: int)
    requires
        0 <= m <= text.len(),
    ensures
        s.accepted_prefix(info, text) <= text.len(),
        s.accepted_prefix(info, text.take(m)) == if m <= s.accepted_prefix(info, text) {
            m as nat
        } else {
            s.accepted_prefix(info, text)
        },
    decreases text.len(),
{
    if m == text.len() {
        assert(text.take(m) =~= text);
        if m > 0 {
            lemma_accepted_prefix(s, info, text.drop_last(), 0);
        }
    } else {
        lemma_accepted_prefix(s, info, text.drop_last(), m);
        assert(text.drop_last().take(m) =~= text.take(m));
    }
}

/// Renders text to a pixel framebuffer.
pub struct FrameBufferWriter {
    buffer: &'static mut [u8],
    info: FrameBufferInfo,
    x_pos: usize,
    y_pos: usize,
}

impl FrameBufferWriter {
    /// What is in the framebuffer, and where the cursor stands.
    pub closed spec fn screen(&self) -> Screen {
        Screen { bytes: self.buffer@, x: self.x_pos as int, y: self.y_pos as int }
    }

    /// Resolution and layout of the framebuffer.
    pub closed spec fn layout(&self) -> FrameBufferInfo {
        self.info
    }

    /// The buffer holds the whole screen and the cursor stands where writing can leave it.
    pub open spec fn well_formed(&self) -> bool {
        &&& self.layout().in_range()
        &&& self.layout().holds_screen(self.screen().bytes.len() as int)
        &&& self.screen().cursor_ok(self.layout())
    }

    /// Takes over a framebuffer and clears it.
    pub fn new(buffer: &'static mut [u8], info: FrameBufferInfo) -> (writer: FrameBufferWriter)
        ensures
            writer.layout() == info,
            writer.screen() == (Screen { bytes: old(buffer)@, x: 0, y: 0 }).cleared(),
            writer.screen().x == 1,
            writer.screen().y == 1,
            writer.screen().bytes.len() == old(buffer)@.len(),
            forall|k: int| 0 <= k < old(buffer)@.len() ==> writer.screen().bytes[k] == 0,
            info.in_range() && info.holds_screen(old(buffer)@.len() as int)
                ==> writer.well_formed(),
    {
        let mut writer = FrameBufferWriter {
            buffer,
            info,
            x_pos: BORDER_PADDING,
            y_pos: BORDER_PADDING,
        };
        writer.clear();
        writer
    }

    /// Fills the framebuffer with black and moves the cursor to the top left corner.
    pub fn clear(&mut self)
        ensures
            final(self).layout() == old(self).layout(),
            final(self).screen() == old(self).screen().cleared(),
            final(self).screen().x == 1,
            final(self).screen().y == 1,
            final(self).screen().bytes.len() == old(self).screen().bytes.len(),
            forall|k: int|
                0 <= k < old(self).screen().bytes.len() ==> final(self).screen().bytes[k] == 0,
            old(self).well_formed() ==> final(self).well_formed(),
    {
        self.fill_black(0);
        self.x_pos = BORDER_PADDING;
        self.y_pos = BORDER_PADDING;
        assert(self.screen() =~= old(self).screen().cleared());
    }

    /// Blackens the buffer from byte `from` on.
    fn fill_black(&mut self, from: usize)
        requires
            from <= old(self).screen().bytes.len(),
        ensures
            final(self).layout() == old(self).layout(),
            final(self).screen().x == old(self).screen().x,
            final(self).screen().y == old(self).screen().y,
            final(self).screen().bytes == Seq::new(
                old(self).screen().bytes.len(),
                |k: int|
                    if k < from {
                        old(self).screen().bytes[k]
                    } else {
                        0
                    },
            ),
    {
        let len: usize = self.buffer.len();
        let mut i: usize = from;
        while i < len
            invariant
                from <= i <= len,
                len == self.screen().bytes.len(),
                len == old(self).screen().bytes.len(),
                self.layout() == old(self).layout(),
                self.screen().x == old(self).screen().x,
                self.screen().y == old(self).screen().y,
                forall|k: int|
                    0 <= k < len && (k < from || k >= i) ==> self.screen().bytes[k] == old(
                        self,
                    ).screen().bytes[k],
                forall|k: int| from <= k < i ==> self.screen().bytes[k] == 0,
            decreases len - i,
        {
            self.buffer[i] = 0;
            i = i + 1;
        }
    }

    /// Width of the screen in pixels.
    fn width(&self) -> (width: usize)
        ensures
            width == self.layout().width,
    {
        self.info.width
    }

    /// Height of the screen in pixels.
    fn height(&self) -> (height: usize)
        ensures
            height == self.layout().height,
    {
        self.info.height
    }

    /// Sets the pixel (x, y) to a grey value; pixels off the screen are ignored.
    pub fn write_pixel(&mut self, x: usize, y: usize, intensity: u8)
        requires
            old(self).layout().on_screen(x as int, y as int) ==> old(self).layout().holds_pixel(
                old(self).screen().bytes.len() as int,
                x as int,
                y as int,
            ),
        ensures
            final(self).layout() == old(self).layout(),
            final(self).screen() == (Screen {
                bytes: put_pixel(
                    old(self).screen().bytes,
                    old(self).layout(),
                    x as int,
                    y as int,
                    intensity,
                ),
                ..old(self).screen()
            }),
            final(self).screen().x == old(self).screen().x,
            final(self).screen().y == old(self).screen().y,
            final(self).screen().bytes.len() == old(self).screen().bytes.len(),
            forall|k: int|
                0 <= k < old(self).screen().bytes.len() ==> {
                    let first = (y * old(self).layout().stride + x)
                        * old(self).layout().bytes_per_pixel;
                    let channels = if old(self).layout().pixel_format is Rgb || old(
                            self,
                        ).layout().pixel_format is Bgr {
                            3int
                        } else {
                            1
                        };
                    #[trigger] final(self).screen().bytes[k] == if x < old(self).layout().width
                        && y < old(self).layout().height && first <= k < first + channels {
                        intensity
                    } else {
                        old(self).screen().bytes[k]
                    }
                },
    {
        if x >= self.width() || y >= self.height() {
            return ;
        }
        proof {
            lemma_pixel_order(self.info, x as int, y as int, x as int, y as int);
            assert(self.buffer@.len() == self.buffer.len());
        }
        let pixel_offset: usize = y * self.info.stride + x;
        let byte_offset: usize = pixel_offset * self.info.bytes_per_pixel;
        match self.info.pixel_format {
            PixelFormat::Rgb | PixelFormat::Bgr => {
                self.buffer[byte_offset] = intensity;
                self.buffer[byte_offset + 1] = intensity;
                self.buffer[byte_offset + 2] = intensity;
            },
            PixelFormat::U8 => {
                self.buffer[byte_offset] = intensity;
            },
            PixelFormat::Unknown { .. } => {
                self.buffer[byte_offset] = intensity;
            },
        }
        assert(self.screen().bytes =~= put_pixel(
            old(self).screen().bytes,
            old(self).layout(),
            x as int,
            y as int,
            intensity,
        ));
    }

    /// Draws a glyph at the cursor and moves the cursor past it.
    pub fn render_glyph(&mut self, glyph: &Glyph)
        requires
            drawable(old(self).screen(), old(self).layout(), glyph@),
            old(self).screen().x + glyph.width + LETTER_SPACING <= usize::MAX,
        ensures
            final(self).layout() == old(self).layout(),
            final(self).screen() == old(self).screen().drawn(
                old(self).layout(),
                glyph@,
                glyph.width as int,
            ),
            final(self).screen().x == old(self).screen().x + glyph.width,
            final(self).screen().y == old(self).screen().y,
            final(self).screen().bytes == put_rows(
                old(self).screen().bytes,
                old(self).layout(),
                old(self).screen().x,
                old(self).screen().y,
                glyph@,
                glyph@.len(),
            ),
    {
        let ghost info = self.layout();
        let ghost start = self.screen();
        let height: usize = glyph.rows.len();
        let mut y: usize = 0;
        while y < height
            invariant
                y <= height,
                height == glyph@.len(),
                self.layout() == info,
                drawable(start, info, glyph@),
                self.screen() == (Screen {
                    bytes: put_rows(start.bytes, info, start.x, start.y, glyph@, y as nat),
                    ..start
                }),
            decreases height - y,
        {
            let row: &[u8] = glyph.rows[y];
            let width: usize = row.len();
            let ghost before = self.screen().bytes;
            assert(glyph@[y as int] == row@);
            proof {
                lemma_put_rows_len(start.bytes, info, start.x, start.y, glyph@, y as nat);
            }
            let mut x: usize = 0;
            while x < width
                invariant
                    x <= width,
                    width == row@.len(),
                    row@ == glyph@[y as int],
                    y < glyph@.len(),
                    before.len() == start.bytes.len(),
                    self.layout() == info,
                    drawable(start, info, glyph@),
                    self.screen() == (Screen {
                        bytes: put_row(before, info, start.x, start.y + y, row@, x as nat),
                        ..start
                    }),
                decreases width - x,
            {
                proof {
                    lemma_put_row_len(before, info, start.x, start.y + y, row@, x as nat);
                    assert(glyph@[y as int][x as int] == row@[x as int]);
                }
                self.write_pixel(self.x_pos + x, self.y_pos + y, row[x]);
                x = x + 1;
            }
            y = y + 1;
        }
        self.x_pos = self.x_pos + (glyph.width + LETTER_SPACING);
    }

    /// Moves everything up by one line of text.
    pub fn scroll_up(&mut self)
        requires
            old(self).layout().holds_line(old(self).screen().bytes.len() as int),
        ensures
            final(self).layout() == old(self).layout(),
            final(self).screen() == old(self).screen().scrolled(old(self).layout()),
            final(self).screen().x == old(self).screen().x,
            final(self).screen().y == if old(self).screen().y >= 18 {
                old(self).screen().y - 18
            } else {
                old(self).screen().y
            },
            final(self).screen().bytes.len() == old(self).screen().bytes.len(),
            forall|k: int|
                0 <= k < old(self).screen().bytes.len() ==> {
                    let from = k + 18 * old(self).layout().stride
                        * old(self).layout().bytes_per_pixel;
                    #[trigger] final(self).screen().bytes[k] == if from
                        < old(self).screen().bytes.len() {
                        old(self).screen().bytes[from]
                    } else {
                        0
                    }
                },
    {
        let ghost start = self.screen();
        let ghost info = self.layout();
        proof {
            assert(self.buffer@.len() == self.buffer.len());
            assert(LINE_HEIGHT * info.stride >= 0);
            assert(0 <= LINE_HEIGHT * info.stride * info.bytes_per_pixel) by (nonlinear_arith)
                requires
                    0 <= LINE_HEIGHT * info.stride,
                    0 <= info.bytes_per_pixel,
            ;
        }
        let line_bytes: usize = LINE_HEIGHT * self.info.stride * self.info.bytes_per_pixel;
        let len: usize = self.buffer.len();
        let kept: usize = len - line_bytes;
        let mut i: usize = 0;
        while i < kept
            invariant
                i <= kept,
                kept == len - line_bytes,
                line_bytes == info.line_bytes(),
                len == self.screen().bytes.len(),
                len == start.bytes.len(),
                self.layout() == info,
                self.screen().x == start.x,
                self.screen().y == start.y,
                forall|k: int| 0 <= k < i ==> self.screen().bytes[k] == start.bytes[k + line_bytes],
                forall|k: int| i <= k < len ==> self.screen().bytes[k] == start.bytes[k],
            decreases kept - i,
        {
            self.buffer[i] = self.buffer[i + line_bytes];
            i = i + 1;
        }
        self.fill_black(kept);
        if self.y_pos >= LINE_HEIGHT {
            self.y_pos = self.y_pos - LINE_HEIGHT;
        }
        assert(self.screen() =~= start.scrolled(info));
    }

    /// Moves the cursor to the start of the next line, scrolling if it would leave the screen.
    pub fn newline(&mut self)
        requires
            old(self).screen().accepts_newline(old(self).layout()),
        ensures
            final(self).layout() == old(self).layout(),
            final(self).screen() == old(self).screen().newline(old(self).layout()),
            final(self).screen().x == 1,
            final(self).screen().y == if old(self).screen().y + 36 >= old(self).layout().height {
                old(self).screen().y
            } else {
                old(self).screen().y + 18
            },
    {
        self.y_pos = self.y_pos + LINE_HEIGHT;
        self.x_pos = BORDER_PADDING;
        assert(self.screen() =~= old(self).screen().next_line());
        if self.y_pos + LINE_HEIGHT >= self.height() {
            self.scroll_up();
        }
    }

    /// Writes one character at the cursor.
    pub fn write_char(&mut self, c: char)
        requires
            old(self).screen().accepts(old(self).layout(), c),
        ensures
            final(self).layout() == old(self).layout(),
            final(self).screen() == old(self).screen().written(old(self).layout(), c),
            c == '\r' ==> final(self).screen().bytes == old(self).screen().bytes,
            c == '\r' ==> final(self).screen().x == 1 && final(self).screen().y == old(
                self,
            ).screen().y,
            c == '\n' ==> final(self).screen().x == 1,
            old(self).well_formed() ==> final(self).well_formed(),
    {
        proof {
            lemma_written(self.screen(), self.layout(), c);
        }
        if c == '\n' {
            self.newline();
        } else if c == '\r' {
            self.x_pos = BORDER_PADDING;
        } else {
            let new_xpos: usize = self.x_pos + char_raster_width() + LETTER_SPACING;
            if new_xpos >= self.width() {
                self.newline();
            }
            if self.y_pos + LINE_HEIGHT >= self.height() {
                self.scroll_up();
            }
            let glyph = get_char_raster(c);
            self.render_glyph(&glyph);
        }
    }

    /// Whether a line break can be written.
    fn newline_accepted(&self) -> (yes: bool)
        ensures
            yes == self.screen().accepts_newline(self.layout()),
    {
        if self.y_pos > usize::MAX - 2 * LINE_HEIGHT {
            return false;
        }
        self.y_pos + 2 * LINE_HEIGHT < self.height() || self.info.line_held(self.buffer.len())
    }

    /// Whether the buffer holds those pixels on the screen that a glyph at (x, y) covers.
    fn glyph_held(&self, x: usize, y: usize) -> (yes: bool)
        requires
            x + CHAR_RASTER_WIDTH <= usize::MAX,
            y + CHAR_RASTER_HEIGHT <= usize::MAX,
        ensures
            yes == self.layout().holds_glyph(
                self.screen().bytes.len() as int,
                x as int,
                y as int,
            ),
    {
        if x >= self.width() || y >= self.height() {
            return true;
        }
        let last_x: usize = if x + CHAR_RASTER_WIDTH < self.width() {
            x + CHAR_RASTER_WIDTH - 1
        } else {
            self.width() - 1
        };
        let last_y: usize = if y + CHAR_RASTER_HEIGHT < self.height() {
            y + CHAR_RASTER_HEIGHT - 1
        } else {
            self.height() - 1
        };
        let held: bool = self.info.pixel_held(self.buffer.len(), last_x, last_y);
        proof {
            let info = self.layout();
            let len = self.screen().bytes.len() as int;
            assert(len == self.buffer.len());
            assert(info.on_screen(last_x as int, last_y as int));
            assert(held == info.holds_pixel(len, last_x as int, last_y as int));
            if held {
                assert forall|px: int, py: int|
                    info.on_screen(px, py) && x <= px < x + CHAR_RASTER_WIDTH && y <= py < y
                        + CHAR_RASTER_HEIGHT implies #[trigger] info.holds_pixel(len, px, py) by {
                    lemma_pixel_order(info, px, py, last_x as int, last_y as int);
                }
            }
        }
        held
    }

    /// Whether a character can be written.
    pub fn accepts(&self, c: char) -> (yes: bool)
        ensures
            yes == self.screen().accepts(self.layout(), c),
    {
        if c == '\n' {
            return self.newline_accepted();
        }
        if c == '\r' {
            return true;
        }
        if self.x_pos > usize::MAX - (CHAR_RASTER_WIDTH + LETTER_SPACING) {
            return false;
        }
        let mut x: usize = self.x_pos;
        let mut y: usize = self.y_pos;
        if x + CHAR_RASTER_WIDTH + LETTER_SPACING >= self.width() {
            if !self.newline_accepted() {
                return false;
            }
            x = BORDER_PADDING;
            y = y + LINE_HEIGHT;
            if y + LINE_HEIGHT >= self.height() {
                y = y - LINE_HEIGHT;
            }
        }
        if y > usize::MAX - LINE_HEIGHT {
            return false;
        }
        if y + LINE_HEIGHT >= self.height() {
            if !self.info.line_held(self.buffer.len()) {
                return false;
            }
            if y >= LINE_HEIGHT {
                y = y - LINE_HEIGHT;
            }
        }
        assert(self.screen().made_room(self.layout()).x == x);
        assert(self.screen().made_room(self.layout()).y == y);
        self.glyph_held(x, y)
    }

    /// Writes a text, character by character.
    pub fn write_str(&mut self, s: &str)
        requires
            old(self).screen().accepts_text(old(self).layout(), s@),
        ensures
            final(self).layout() == old(self).layout(),
            final(self).screen() == old(self).screen().text_written(old(self).layout(), s@),
            old(self).well_formed() ==> final(self).well_formed(),
    {
        let ghost start = self.screen();
        let ghost info = self.layout();
        assert(s@.take(0) =~= Seq::empty());
        for c in iter: s.chars()
            invariant
                iter.seq() == s@,
                self.layout() == info,
                start.accepts_text(info, s@),
                self.screen() == start.text_written(info, s@.take(iter.index() as int)),
        {
            proof {
                let k = iter.index() as int;
                lemma_accepted_prefix(start, info, s@, k);
                lemma_accepted_prefix(start, info, s@, k + 1);
                assert(s@.take(k + 1).drop_last() =~= s@.take(k));
                assert(s@[k] == c);
            }
            self.write_char(c);
        }
        assert(s@.take(s@.len() as int) =~= s@);
        proof {
            lemma_text_written(start, info, s@);
        }
    }

    /// Writes a text up to the first character that cannot be written, and says whether that was
    /// all of it.
    pub fn try_write_str(&mut self, s: &str) -> (complete: bool)
        ensures
            final(self).layout() == old(self).layout(),
            complete == old(self).screen().accepts_text(old(self).layout(), s@),
            final(self).screen() == old(self).screen().text_written(
                old(self).layout(),
                s@.take(old(self).screen().accepted_prefix(old(self).layout(), s@) as int),
            ),
            complete ==> final(self).screen() == old(self).screen().text_written(
                old(self).layout(),
                s@,
            ),
            old(self).well_formed() ==> final(self).well_formed(),
    {
        let ghost start = self.screen();
        let ghost info = self.layout();
        let ghost n = start.accepted_prefix(info, s@) as int;
        assert(s@.take(0) =~= Seq::empty());
        for c in iter: s.chars()
            invariant
                iter.seq() == s@,
                self.layout() == info,
                info == old(self).layout(),
                start == old(self).screen(),
                n == start.accepted_prefix(info, s@),
                iter.index() <= n,
                self.screen() == start.text_written(info, s@.take(iter.index() as int)),
        {
            proof {
                let k = iter.index() as int;
                lemma_accepted_prefix(start, info, s@, k);
                lemma_accepted_prefix(start, info, s@, k + 1);
                lemma_text_written(start, info, s@.take(k));
                assert(s@.take(k + 1).drop_last() =~= s@.take(k));
                assert(s@[k] == c);
            }
            if !self.accepts(c) {
                return false;
            }
            self.write_char(c);
        }
        proof {
            lemma_accepted_prefix(start, info, s@, 0);
            lemma_text_written(start, info, s@);
        }
        assert(s@.take(s@.len() as int) =~= s@);
        true
    }

    /// The bytes of the framebuffer.
    pub fn bytes(&self) -> (bytes: &[u8])
        ensures
            bytes@ == self.screen().bytes,
    {
        &*self.buffer
    }

    /// The cursor, in pixels from the left and from the top.
    pub fn cursor(&self) -> (position: (usize, usize))
        ensures
            position.0 == self.screen().x,
            position.1 == self.screen().y,
    {
        (self.x_pos, self.y_pos)
    }
}

/// The bytes of different pixels do not overlap, and each row has room for the screen's width.
pub open spec fn coherent(info: FrameBufferInfo) -> bool {
    info.channels() <= info.bytes_per_pixel && info.width <= info.stride
}

/// One of the bytes that show the pixel (x, y).
pub open spec fn pixel_byte(
    bytes: Seq<u8>,
    info: FrameBufferInfo,
    x: int,
    y: int,
    channel: int,
) -> u8 {
    bytes[info.byte_index(x, y) + channel]
}

/// Different pixels of a row, or of different rows, lie at least one pixel apart.
proof fn lemma_pixels_apart(info: FrameBufferInfo, x: int, y: int, x2: int, y2: int)
    requires
        coherent(info),
        info.on_screen(x, y),
        info.on_screen(x2, y2),
        x != x2 || y != y2,
    ensures
        info.byte_index(x, y) + info.bytes_per_pixel <= info.byte_index(x2, y2)
            || info.byte_index(x2, y2) + info.bytes_per_pixel <= info.byte_index(x, y),
{
    let p = info.pixel_index(x, y);
    let p2 = info.pixel_index(x2, y2);
    let stride = info.stride as int;
    let bpp = info.bytes_per_pixel as int;
    assert(p != p2) by {
        if y < y2 {
            assert(y * stride + stride <= y2 * stride) by (nonlinear_arith)
                requires
                    y < y2,
                    0 <= stride,
            ;
        } else if y2 < y {
            assert(y2 * stride + stride <= y * stride) by (nonlinear_arith)
                requires
                    y2 < y,
                    0 <= stride,
            ;
        }
    }
    if p < p2 {
        assert(p * bpp + bpp <= p2 * bpp) by (nonlinear_arith)
            requires
                p < p2,
                0 <= bpp,
        ;
    } else {
        assert(p2 * bpp + bpp <= p * bpp) by (nonlinear_arith)
            requires
                p2 < p,
                0 <= bpp,
        ;
    }
}

/// A pixel shows the intensity that was written to it last, and no other pixel is touched.
pub proof fn law_pixel_is_shown(
    bytes: Seq<u8>,
    info: FrameBufferInfo,
    x: int,
    y: int,
    intensity: u8,
    x2: int,
    y2: int,
    channel: int,
)
    requires
        coherent(info),
        info.holds_screen(bytes.len() as int),
        info.on_screen(x2, y2),
        0 <= channel < info.channels(),
    ensures
        pixel_byte(put_pixel(bytes, info, x, y, intensity), info, x2, y2, channel) == if x2 == x
            && y2 == y {
            intensity
        } else {
            pixel_byte(bytes, info, x2, y2, channel)
        },
{
    lemma_holds_pixels(info, bytes.len() as int, x2, y2);
    lemma_pixel_order(info, x2, y2, x2, y2);
    if info.on_screen(x, y) && (x2 != x || y2 != y) {
        lemma_pixels_apart(info, x, y, x2, y2);
    }
}

/// Drawing a row sets the pixels it covers and no others.
proof fn lemma_row_is_shown(
    bytes: Seq<u8>,
    info: FrameBufferInfo,
    x: int,
    y: int,
    row: Seq<u8>,
    n: nat,
    x2: int,
    y2: int,
    channel: int,
)
    requires
        coherent(info),
        info.holds_screen(bytes.len() as int),
        info.on_screen(x2, y2),
        0 <= channel < info.channels(),
    ensures
        pixel_byte(put_row(bytes, info, x, y, row, n), info, x2, y2, channel) == if y2 == y && x
            <= x2 < x + n {
            row[x2 - x]
        } else {
            pixel_byte(bytes, info, x2, y2, channel)
        },
    decreases n,
{
    if n > 0 {
        let before = put_row(bytes, info, x, y, row, (n - 1) as nat);
        lemma_put_row_len(bytes, info, x, y, row, (n - 1) as nat);
        lemma_row_is_shown(bytes, info, x, y, row, (n - 1) as nat, x2, y2, channel);
        law_pixel_is_shown(before, info, x + n - 1, y, row[n - 1], x2, y2, channel);
    }
}

/// Drawing a glyph sets the pixels of the screen that it covers to the glyph's intensities, and
/// no others.
pub proof fn law_glyph_is_shown(
    bytes: Seq<u8>,
    info: FrameBufferInfo,
    x: int,
    y: int,
    rows: Seq<Seq<u8>>,
    n: nat,
    x2: int,
    y2: int,
    channel: int,
)
    requires
        coherent(info),
        info.holds_screen(bytes.len() as int),
        info.on_screen(x2, y2),
        0 <= channel < info.channels(),
    ensures
        pixel_byte(put_rows(bytes, info, x, y, rows, n), info, x2, y2, channel) == if y <= y2 < y
            + n && x <= x2 < x + rows[y2 - y].len() {
            rows[y2 - y][x2 - x]
        } else {
            pixel_byte(bytes, info, x2, y2, channel)
        },
    decreases n,
{
    if n > 0 {
        let before = put_rows(bytes, info, x, y, rows, (n - 1) as nat);
        let row = rows[n - 1];
        lemma_put_rows_len(bytes, info, x, y, rows, (n - 1) as nat);
        law_glyph_is_shown(bytes, info, x, y, rows, (n - 1) as nat, x2, y2, channel);
        lemma_row_is_shown(before, info, x, y + n - 1, row, row.len(), x2, y2, channel);
    }
}

/// On a screen that is wide and high enough for one character, every character is drawn in full:
/// the place that is made for it lies on the screen.
pub proof fn law_glyphs_are_not_clipped(s: Screen, info: FrameBufferInfo, i: int, j: int)
    requires
        s.cursor_ok(info),
        info.width > BORDER_PADDING + CHAR_RASTER_WIDTH,
        info.height > BORDER_PADDING + LINE_HEIGHT,
        0 <= i < CHAR_RASTER_WIDTH,
        0 <= j < CHAR_RASTER_HEIGHT,
    ensures
        info.on_screen(s.made_room(info).x + i, s.made_room(info).y + j),
{
}

/// A character other than a line break is shown at the place that is made for it, and the rest of
/// the screen stays as it was there.
pub proof fn law_character_is_shown(
    s: Screen,
    info: FrameBufferInfo,
    c: char,
    x: int,
    y: int,
    channel: int,
)
    requires
        coherent(info),
        info.holds_screen(s.bytes.len() as int),
        info.on_screen(x, y),
        0 <= channel < info.channels(),
        c != '\n' && c != '\r',
    ensures
        ({
            let room = s.made_room(info);
            let rows = glyph_rows(c);
            pixel_byte(s.written(info, c).bytes, info, x, y, channel) == if room.y <= y < room.y
                + rows.len() && room.x <= x < room.x + rows[y - room.y].len() {
                rows[y - room.y][x - room.x]
            } else {
                pixel_byte(room.bytes, info, x, y, channel)
            }
        }),
{
    let room = s.made_room(info);
    let rows = glyph_rows(c);
    law_glyph_is_shown(room.bytes, info, room.x, room.y, rows, rows.len(), x, y, channel);
}

/// Scrolling moves each pixel up by one line of text, and blackens the line that is exposed at
/// the bottom of a buffer that ends with the screen.
pub proof fn law_scrolling_moves_pixels_up(
    bytes: Seq<u8>,
    info: FrameBufferInfo,
    x: int,
    y: int,
    channel: int,
)
    requires
        coherent(info),
        info.holds_screen(bytes.len() as int),
        info.holds_line(bytes.len() as int),
        info.on_screen(x, y),
        0 <= channel < info.channels(),
    ensures
        y + LINE_HEIGHT < info.height ==> pixel_byte(
            shifted_up(bytes, info),
            info,
            x,
            y,
            channel,
        ) == pixel_byte(bytes, info, x, y + LINE_HEIGHT, channel),
        y + LINE_HEIGHT >= info.height && bytes.len() == info.height * info.stride
            * info.bytes_per_pixel ==> pixel_byte(shifted_up(bytes, info), info, x, y, channel)
            == 0,
{
    let stride = info.stride as int;
    let bpp = info.bytes_per_pixel as int;
    let below = y + LINE_HEIGHT;
    lemma_holds_pixels(info, bytes.len() as int, x, y);
    lemma_pixel_order(info, x, y, x, below);
    assert(info.byte_index(x, below) == info.byte_index(x, y) + info.line_bytes())
        by (nonlinear_arith)
        requires
            below == y + LINE_HEIGHT,
            info.byte_index(x, below) == (below * stride + x) * bpp,
            info.byte_index(x, y) == (y * stride + x) * bpp,
            info.line_bytes() == LINE_HEIGHT * stride * bpp,
    ;
    if below < info.height {
        lemma_holds_pixels(info, bytes.len() as int, x, below);
    } else {
        assert(info.height * stride * bpp <= (below * stride + x) * bpp) by (nonlinear_arith)
            requires
                info.height <= below,
                0 <= x,
                0 <= stride,
                0 <= bpp,
        ;
    }
}

/// Writing two texts one after the other is writing them as one.
pub proof fn law_texts_are_joined(s: Screen, info: FrameBufferInfo, a: Seq<char>, b: Seq<char>)
    ensures
        s.text_written(info, a + b) == s.text_written(info, a).text_written(info, b),
    decreases b.len(),
{
    if b.len() == 0 {
        assert(a + b =~= a);
    } else {
        assert((a + b).drop_last() =~= a + b.drop_last());
        law_texts_are_joined(s, info, a, b.drop_last());
    }
}

/// A buffer that holds the whole screen, and a line of text to scroll by, accepts every text.
pub proof fn law_whole_screens_accept_text(s: Screen, info: FrameBufferInfo, text: Seq<char>)
    requires
        info.in_range(),
        info.holds_screen(s.bytes.len() as int),
        info.holds_line(s.bytes.len() as int),
        s.cursor_ok(info),
    ensures
        s.accepts_text(info, text),
    decreases text.len(),
{
    if text.len() > 0 {
        let rest = text.drop_last();
        law_whole_screens_accept_text(s, info, rest);
        lemma_text_written(s, info, rest);
        let room = s.text_written(info, rest).made_room(info);
        assert forall|px: int, py: int| info.on_screen(px, py) implies #[trigger] info.holds_pixel(
            room.bytes.len() as int,
            px,
            py,
        ) by {
            lemma_holds_pixels(info, room.bytes.len() as int, px, py);
        }
    }
}

/// A character that the font does not cover looks like a space.
pub proof fn law_uncovered_characters_look_alike(s: Screen, info: FrameBufferInfo, c: char)
    requires
        !in_font(c),
        c != '\n' && c != '\r',
    ensures
        s.written(info, c) == s.written(info, ' '),
{
}

/// Setting a pixel sets the three bytes, or the one byte, that show it, and no other byte.
pub proof fn law_pixel_sets_its_bytes(
    bytes: Seq<u8>,
    info: FrameBufferInfo,
    x: int,
    y: int,
    intensity: u8,
    k: int,
)
    requires
        0 <= k < bytes.len(),
    ensures
        put_pixel(bytes, info, x, y, intensity).len() == bytes.len(),
        ({
            let first = (y * info.stride + x) * info.bytes_per_pixel;
            let channels = if info.pixel_format is Rgb || info.pixel_format is Bgr {
                3int
            } else {
                1
            };
            put_pixel(bytes, info, x, y, intensity)[k] == if 0 <= x < info.width && 0 <= y
                < info.height && first <= k < first + channels {
                intensity
            } else {
                bytes[k]
            }
        }),
{
}

/// A cleared screen is black, with the cursor one pixel from the top and from the left.
pub proof fn law_clearing_leaves_nothing(s: Screen, k: int)
    requires
        0 <= k < s.bytes.len(),
    ensures
        s.cleared().bytes.len() == s.bytes.len(),
        s.cleared().bytes[k] == 0,
        s.cleared().x == 1,
        s.cleared().y == 1,
{
}

/// The bytes of a line of text are 18 rows of pixels.
proof fn lemma_line_bytes(info: FrameBufferInfo)
    ensures
        info.line_bytes() == 18 * info.stride * info.bytes_per_pixel,
        0 <= info.line_bytes(),
{
    assert(0 <= 18 * info.stride * info.bytes_per_pixel) by (nonlinear_arith)
        requires
            0 <= info.stride,
            0 <= info.bytes_per_pixel,
    ;
}

/// Scrolling moves every byte of the buffer up by 18 rows of pixels, moves black in at the end,
/// and takes the cursor along.
pub proof fn law_scrolling_moves_the_buffer(s: Screen, info: FrameBufferInfo, k: int)
    requires
        0 <= k < s.bytes.len(),
    ensures
        s.scrolled(info).bytes.len() == s.bytes.len(),
        ({
            let from = k + 18 * info.stride * info.bytes_per_pixel;
            s.scrolled(info).bytes[k] == if from < s.bytes.len() {
                s.bytes[from]
            } else {
                0
            }
        }),
        s.scrolled(info).x == s.x,
        s.scrolled(info).y == if s.y >= 18 {
            s.y - 18
        } else {
            s.y
        },
{
    lemma_line_bytes(info);
}

/// After scrolling, every pixel shows what the pixel 18 rows below it showed. Where there was none
/// on the screen it is black, in a buffer that does not go on past the screen.
pub proof fn law_scrolled_text_stands_one_line_higher(
    s: Screen,
    info: FrameBufferInfo,
    x: int,
    y: int,
    channel: int,
)
    requires
        info.width <= info.stride,
        info.bytes_per_pixel >= 1,
        info.pixel_format is Rgb || info.pixel_format is Bgr ==> info.bytes_per_pixel >= 3,
        (info.height - 1) * info.stride + (info.width - 1) <= usize::MAX,
        ((info.height - 1) * info.stride + (info.width - 1)) * info.bytes_per_pixel + (
        if info.pixel_format is Rgb || info.pixel_format is Bgr {
            3int
        } else {
            1
        }) <= s.bytes.len(),
        0 <= x < info.width,
        0 <= y < info.height,
        0 <= channel,
        channel < 1 || channel < 3 && (info.pixel_format is Rgb || info.pixel_format is Bgr),
    ensures
        ({
            let here = (y * info.stride + x) * info.bytes_per_pixel + channel;
            let below = ((y + 18) * info.stride + x) * info.bytes_per_pixel + channel;
            &&& y + 18 < info.height ==> s.scrolled(info).bytes[here] == s.bytes[below]
            &&& y + 18 >= info.height && s.bytes.len() <= info.height * info.stride
                * info.bytes_per_pixel ==> s.scrolled(info).bytes[here] == 0
        }),
{
    let stride = info.stride as int;
    let bpp = info.bytes_per_pixel as int;
    let here = (y * stride + x) * bpp + channel;
    let below = ((y + 18) * stride + x) * bpp + channel;
    lemma_holds_pixels(info, s.bytes.len() as int, x, y);
    lemma_pixel_order(info, x, y, x, y + 18);
    assert(below == here + 18 * stride * bpp) by (nonlinear_arith)
        requires
            here == (y * stride + x) * bpp + channel,
            below == ((y + 18) * stride + x) * bpp + channel,
    ;
    law_scrolling_moves_the_buffer(s, info, here);
    if y + 18 < info.height {
        lemma_holds_pixels(info, s.bytes.len() as int, x, y + 18);
    } else {
        assert(info.height * stride * bpp <= ((y + 18) * stride + x) * bpp) by (nonlinear_arith)
            requires
                info.height <= y + 18,
                0 <= x,
                0 <= stride,
                0 <= bpp,
        ;
    }
}

/// Drawing a picture at the cursor shows each of its pixels that lies on the screen and leaves all
/// other pixels alone. The cursor moves to the right by the picture's width.
pub proof fn law_pictures_are_drawn_at_the_cursor(
    s: Screen,
    info: FrameBufferInfo,
    rows: Seq<Seq<u8>>,
    width: int,
    x: int,
    y: int,
    channel: int,
)
    requires
        info.width <= info.stride,
        info.bytes_per_pixel >= 1,
        info.pixel_format is Rgb || info.pixel_format is Bgr ==> info.bytes_per_pixel >= 3,
        (info.height - 1) * info.stride + (info.width - 1) <= usize::MAX,
        ((info.height - 1) * info.stride + (info.width - 1)) * info.bytes_per_pixel + (
        if info.pixel_format is Rgb || info.pixel_format is Bgr {
            3int
        } else {
            1
        }) <= s.bytes.len(),
        0 <= x < info.width,
        0 <= y < info.height,
        0 <= channel,
        channel < 1 || channel < 3 && (info.pixel_format is Rgb || info.pixel_format is Bgr),
    ensures
        s.drawn(info, rows, width).x == s.x + width,
        s.drawn(info, rows, width).y == s.y,
        s.drawn(info, rows, width).bytes.len() == s.bytes.len(),
        ({
            let here = (y * info.stride + x) * info.bytes_per_pixel + channel;
            s.drawn(info, rows, width).bytes[here] == if s.y <= y < s.y + rows.len() && s.x <= x
                < s.x + rows[y - s.y].len() {
                rows[y - s.y][x - s.x]
            } else {
                s.bytes[here]
            }
        }),
{
    lemma_put_rows_len(s.bytes, info, s.x, s.y, rows, rows.len());
    law_glyph_is_shown(s.bytes, info, s.x, s.y, rows, rows.len(), x, y, channel);
}

/// A line break takes the cursor to the left and one line down. If no further line fits below
/// that one, the screen is scrolled instead and the cursor stays at its height.
pub proof fn law_line_breaks(s: Screen, info: FrameBufferInfo, k: int)
    requires
        s.y >= 0,
        0 <= k < s.bytes.len(),
    ensures
        s.written(info, '\n') == s.newline(info),
        s.newline(info).bytes.len() == s.bytes.len(),
        s.newline(info).x == 1,
        s.newline(info).y == if s.y + 36 >= info.height {
            s.y
        } else {
            s.y + 18
        },
        ({
            let from = k + 18 * info.stride * info.bytes_per_pixel;
            s.newline(info).bytes[k] == if s.y + 36 < info.height {
                s.bytes[k]
            } else if from < s.bytes.len() {
                s.bytes[from]
            } else {
                0
            }
        }),
        s.written(info, '\r').bytes == s.bytes,
        s.written(info, '\r').x == 1,
        s.written(info, '\r').y == s.y,
{
    lemma_line_bytes(info);
}

/// What is at byte `k` once room was made for a glyph.
proof fn lemma_room_in_figures(s: Screen, info: FrameBufferInfo, k: int)
    requires
        s.y >= 0,
        0 <= k < s.bytes.len(),
    ensures
        s.made_room(info).bytes.len() == s.bytes.len(),
        ({
            let wraps = s.x + 7 >= info.width;
            let breaks = wraps && s.y + 36 < info.height;
            let line_y = if breaks {
                s.y + 18
            } else {
                s.y
            };
            let left = if wraps {
                1
            } else {
                s.x
            };
            let top = if line_y + 18 >= info.height && line_y >= 18 {
                line_y - 18
            } else {
                line_y
            };
            let scrolled_lines = (if wraps && !breaks {
                1int
            } else {
                0
            }) + (if line_y + 18 >= info.height {
                1int
            } else {
                0
            });
            let from = k + scrolled_lines * (18 * info.stride * info.bytes_per_pixel);
            &&& s.made_room(info).x == left
            &&& s.made_room(info).y == top
            &&& s.made_room(info).bytes[k] == if from < s.bytes.len() {
                s.bytes[from]
            } else {
                0
            }
        }),
{
    lemma_line_bytes(info);
    let line = 18 * info.stride * info.bytes_per_pixel;
    assert(0 * line == 0 && 1 * line == line && 2 * line == line + line);
}

/// Any other character moves the cursor seven pixels to the right, from the left border of the
/// next line if it would reach the right border otherwise, and a line up if no line fits below.
pub proof fn law_characters_move_the_cursor(s: Screen, info: FrameBufferInfo, c: char)
    requires
        s.y >= 0,
        c != '\n',
        c != '\r',
    ensures
        s.written(info, c).bytes.len() == s.bytes.len(),
        ({
            let wraps = s.x + 7 >= info.width;
            let breaks = wraps && s.y + 36 < info.height;
            let line_y = if breaks {
                s.y + 18
            } else {
                s.y
            };
            let left = if wraps {
                1
            } else {
                s.x
            };
            let top = if line_y + 18 >= info.height && line_y >= 18 {
                line_y - 18
            } else {
                line_y
            };
            let scrolled_lines = (if wraps && !breaks {
                1int
            } else {
                0
            }) + (if line_y + 18 >= info.height {
                1int
            } else {
                0
            });
            &&& s.written(info, c).x == left + 7
            &&& s.written(info, c).y == top
        }),
{
    lemma_written(s, info, c);
}

/// Any other character is drawn where there is room for it: its picture is shown there, and every
/// other pixel shows what it showed before, or what was as many lines below it as were scrolled.
pub proof fn law_characters_are_drawn_in_place(
    s: Screen,
    info: FrameBufferInfo,
    c: char,
    x: int,
    y: int,
    channel: int,
)
    requires
        s.y >= 0,
        c != '\n',
        c != '\r',
        info.width <= info.stride,
        info.bytes_per_pixel >= 1,
        info.pixel_format is Rgb || info.pixel_format is Bgr ==> info.bytes_per_pixel >= 3,
        (info.height - 1) * info.stride + (info.width - 1) <= usize::MAX,
        ((info.height - 1) * info.stride + (info.width - 1)) * info.bytes_per_pixel + (
        if info.pixel_format is Rgb || info.pixel_format is Bgr {
            3int
        } else {
            1
        }) <= s.bytes.len(),
        0 <= x < info.width,
        0 <= y < info.height,
        0 <= channel,
        channel < 1 || channel < 3 && (info.pixel_format is Rgb || info.pixel_format is Bgr),
    ensures
        ({
            let wraps = s.x + 7 >= info.width;
            let breaks = wraps && s.y + 36 < info.height;
            let line_y = if breaks {
                s.y + 18
            } else {
                s.y
            };
            let left = if wraps {
                1
            } else {
                s.x
            };
            let top = if line_y + 18 >= info.height && line_y >= 18 {
                line_y - 18
            } else {
                line_y
            };
            let scrolled_lines = (if wraps && !breaks {
                1int
            } else {
                0
            }) + (if line_y + 18 >= info.height {
                1int
            } else {
                0
            });
            let picture = if 0x20 <= c as u32 <= 0x7e {
                raster_rows(c)
            } else {
                raster_rows(' ')
            };
            let here = (y * info.stride + x) * info.bytes_per_pixel + channel;
            let from = here + scrolled_lines * (18 * info.stride * info.bytes_per_pixel);
            s.written(info, c).bytes[here] == if top <= y < top + picture.len() && left <= x < left
                + picture[y - top].len() {
                picture[y - top][x - left]
            } else if from < s.bytes.len() {
                s.bytes[from]
            } else {
                0
            }
        }),
{
    let here = (y * info.stride + x) * info.bytes_per_pixel + channel;
    lemma_holds_pixels(info, s.bytes.len() as int, x, y);
    lemma_pixel_order(info, x, y, x, y);
    lemma_room_in_figures(s, info, here);
    law_character_is_shown(s, info, c, x, y, channel);
}

/// A byte that drawing a row changes belongs to a pixel of the row on the screen.
proof fn lemma_row_changes_its_pixels(
    bytes: Seq<u8>,
    info: FrameBufferInfo,
    x: int,
    y: int,
    row: Seq<u8>,
    n: nat,
    k: int,
) -> (i: int)
    requires
        0 <= k < bytes.len(),
    ensures
        put_row(bytes, info, x, y, row, n)[k] != bytes[k] ==> {
            &&& 0 <= i < n
            &&& info.on_screen(x + i, y)
            &&& info.byte_index(x + i, y) <= k < info.byte_index(x + i, y) + info.channels()
            &&& put_row(bytes, info, x, y, row, n)[k] == row[i]
        },
    decreases n,
{
    if n == 0 {
        0
    } else {
        lemma_put_row_len(bytes, info, x, y, row, (n - 1) as nat);
        let first = info.byte_index(x + n - 1, y);
        if info.on_screen(x + n - 1, y) && first <= k < first + info.channels() {
            n - 1
        } else {
            lemma_row_changes_its_pixels(bytes, info, x, y, row, (n - 1) as nat, k)
        }
    }
}

/// Drawing a glyph changes no byte but those of its pixels on the screen, whatever the layout: a
/// byte that is changed belongs to such a pixel and shows its intensity.
pub proof fn law_glyphs_change_only_their_pixels(
    bytes: Seq<u8>,
    info: FrameBufferInfo,
    x: int,
    y: int,
    rows: Seq<Seq<u8>>,
    n: nat,
    k: int,
) -> (pixel: (int, int))
    requires
        0 <= k < bytes.len(),
    ensures
        put_rows(bytes, info, x, y, rows, n).len() == bytes.len(),
        put_rows(bytes, info, x, y, rows, n)[k] != bytes[k] ==> {
            let (i, j) = pixel;
            let first = ((y + j) * info.stride + (x + i)) * info.bytes_per_pixel;
            let channels = if info.pixel_format is Rgb || info.pixel_format is Bgr {
                3int
            } else {
                1
            };
            &&& 0 <= j < n && 0 <= i < rows[j].len()
            &&& 0 <= x + i < info.width && 0 <= y + j < info.height
            &&& first <= k < first + channels
            &&& put_rows(bytes, info, x, y, rows, n)[k] == rows[j][i]
        },
    decreases n,
{
    lemma_put_rows_len(bytes, info, x, y, rows, n);
    if n == 0 {
        (0, 0)
    } else {
        lemma_put_rows_len(bytes, info, x, y, rows, (n - 1) as nat);
        let before = put_rows(bytes, info, x, y, rows, (n - 1) as nat);
        let row = rows[n - 1];
        let i = lemma_row_changes_its_pixels(before, info, x, y + n - 1, row, row.len(), k);
        let earlier = law_glyphs_change_only_their_pixels(
            bytes,
            info,
            x,
            y,
            rows,
            (n - 1) as nat,
            k,
        );
        if put_rows(bytes, info, x, y, rows, n)[k] != before[k] {
            assert(y + (n - 1) == y + n - 1);
            (i, n - 1)
        } else {
            earlier
        }
    }
}

/// A character changes no byte but those of its picture's pixels on the screen, whatever the
/// layout: all others, padding and unused channels among them, hold what they held before, or
/// what was as many lines below as were scrolled.
pub proof fn law_characters_change_only_their_pixels(
    s: Screen,
    info: FrameBufferInfo,
    c: char,
    k: int,
) -> (pixel: (int, int))
    requires
        s.y >= 0,
        c != '\n',
        c != '\r',
        0 <= k < s.bytes.len(),
    ensures
        ({
            let wraps = s.x + 7 >= info.width;
            let breaks = wraps && s.y + 36 < info.height;
            let line_y = if breaks {
                s.y + 18
            } else {
                s.y
            };
            let left = if wraps {
                1
            } else {
                s.x
            };
            let top = if line_y + 18 >= info.height && line_y >= 18 {
                line_y - 18
            } else {
                line_y
            };
            let scrolled_lines = (if wraps && !breaks {
                1int
            } else {
                0
            }) + (if line_y + 18 >= info.height {
                1int
            } else {
                0
            });
            let picture = if 0x20 <= c as u32 <= 0x7e {
                raster_rows(c)
            } else {
                raster_rows(' ')
            };
            let from = k + scrolled_lines * (18 * info.stride * info.bytes_per_pixel);
            let background = if from < s.bytes.len() {
                s.bytes[from]
            } else {
                0
            };
            let (i, j) = pixel;
            let first = ((top + j) * info.stride + (left + i)) * info.bytes_per_pixel;
            let channels = if info.pixel_format is Rgb || info.pixel_format is Bgr {
                3int
            } else {
                1
            };
            s.written(info, c).bytes[k] != background ==> {
                &&& 0 <= j < picture.len() && 0 <= i < picture[j].len()
                &&& 0 <= left + i < info.width && 0 <= top + j < info.height
                &&& first <= k < first + channels
                &&& s.written(info, c).bytes[k] == picture[j][i]
            }
        }),
{
    lemma_room_in_figures(s, info, k);
    let room = s.made_room(info);
    let rows = glyph_rows(c);
    law_glyphs_change_only_their_pixels(room.bytes, info, room.x, room.y, rows, rows.len(), k)
}

/// The empty text changes nothing, and a text of one character writes that character.
pub proof fn law_texts_are_written_character_by_character(
    s: Screen,
    info: FrameBufferInfo,
    text: Seq<char>,
    c: char,
)
    ensures
        s.text_written(info, Seq::empty()) == s,
        s.text_written(info, seq![c]) == s.written(info, c),
        s.text_written(info, text.push(c)) == s.text_written(info, text).written(info, c),
{
    assert(seq![c].drop_last() =~= Seq::empty());
    assert(s.text_written(info, Seq::empty()) == s);
    assert(text.push(c).drop_last() =~= text);
}

/// What is written of a text stops before the first character that cannot be written there, and
/// not earlier.
pub proof fn law_text_stops_at_the_first_refusal(
    s: Screen,
    info: FrameBufferInfo,
    text: Seq<char>,
    k: int,
)
    requires
        0 <= k < text.len(),
    ensures
        s.accepted_prefix(info, text) <= text.len(),
        k < s.accepted_prefix(info, text) ==> s.text_written(info, text.take(k)).accepts(
            info,
            text[k],
        ),
        k == s.accepted_prefix(info, text) ==> !s.text_written(info, text.take(k)).accepts(
            info,
            text[k],
        ),
        s.accepts_text(info, text) <==> s.accepted_prefix(info, text) == text.len(),
{
    lemma_accepted_prefix(s, info, text, k);
    lemma_accepted_prefix(s, info, text, k + 1);
    assert(text.take(k + 1).drop_last() =~= text.take(k));
}

/// A line break is refused only if the cursor would leave the range of `usize`, or if the buffer is
/// too small to be scrolled and would have to be. A return to the left is never refused.
pub proof fn law_line_breaks_are_refused_for_a_reason(s: Screen, info: FrameBufferInfo)
    ensures
        s.accepts(info, '\r'),
        s.accepts(info, '\n') <==> s.y + 36 <= usize::MAX && (s.y + 36 >= info.height ==> 18
            * info.stride <= usize::MAX && 18 * info.stride * info.bytes_per_pixel
            <= s.bytes.len()),
{
    lemma_line_bytes(info);
}

/// Any other character is refused only for a reason: a position that leaves the range of `usize`,
/// a buffer that is too small to be scrolled where it would have to be, or one that lacks a pixel
/// that the character would cover on the screen. If it is accepted, none of this is so.
pub proof fn law_characters_are_refused_for_a_reason(
    s: Screen,
    info: FrameBufferInfo,
    c: char,
    px: int,
    py: int,
) -> (lacking: (int, int))
    requires
        s.y >= 0,
        c != '\n',
        c != '\r',
    ensures
        ({
            let wraps = s.x + 7 >= info.width;
            let breaks = wraps && s.y + 36 < info.height;
            let line_y = if breaks {
                s.y + 18
            } else {
                s.y
            };
            let left = if wraps {
                1
            } else {
                s.x
            };
            let top = if line_y + 18 >= info.height && line_y >= 18 {
                line_y - 18
            } else {
                line_y
            };
            let scrolled_lines = (if wraps && !breaks {
                1int
            } else {
                0
            }) + (if line_y + 18 >= info.height {
                1int
            } else {
                0
            });
            let channels = if info.pixel_format is Rgb || info.pixel_format is Bgr {
                3int
            } else {
                1
            };
            let can_scroll = 18 * info.stride <= usize::MAX && 18 * info.stride
                * info.bytes_per_pixel <= s.bytes.len();
            let can_move = {
                &&& s.x + 7 <= usize::MAX
                &&& wraps ==> s.y + 36 <= usize::MAX
                &&& line_y + 18 <= usize::MAX
                &&& scrolled_lines > 0 ==> can_scroll
            };
            let (qx, qy) = lacking;
            &&& s.accepts(info, c) ==> {
                &&& can_move
                &&& left <= px < left + 7 && top <= py < top + 16 && 0 <= px < info.width && 0
                    <= py < info.height ==> {
                    &&& py * info.stride + px <= usize::MAX
                    &&& (py * info.stride + px) * info.bytes_per_pixel + channels <= s.bytes.len()
                }
            }
            &&& !s.accepts(info, c) ==> !can_move || {
                &&& left <= qx < left + 7 && top <= qy < top + 16
                &&& 0 <= qx < info.width && 0 <= qy < info.height
                &&& qy * info.stride + qx > usize::MAX || (qy * info.stride + qx)
                    * info.bytes_per_pixel + channels > s.bytes.len()
            }
        }),
{
    lemma_line_bytes(info);
    let len = s.bytes.len() as int;
    let room = s.made_room(info);
    if info.holds_glyph(len, room.x, room.y) {
        if info.on_screen(px, py) && room.x <= px < room.x + 7 && room.y <= py < room.y + 16 {
            assert(info.holds_pixel(len, px, py));
        }
        (0, 0)
    } else {
        choose|qx: int, qy: int|
            info.on_screen(qx, qy) && room.x <= qx < room.x + CHAR_RASTER_WIDTH && room.y <= qy
                < room.y + CHAR_RASTER_HEIGHT && !#[trigger] info.holds_pixel(len, qx, qy)
    }
}

} // verus!
