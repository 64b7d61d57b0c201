use vstd::prelude::*;
use vstd::string::StringSliceAdditionalSpecFns;

verus! {

/// Number of character cells per row of the text buffer.
pub const BUFFER_WIDTH: usize = 80;
/// Number of rows of the text buffer.
pub const BUFFER_HEIGHT: usize = 25;

/// The sixteen colours of the text mode palette.
#[derive(Debug, Clone, Copy, PartialEq, Eq, Structural)]
pub enum Color {
    Black,
    Blue,
    Green,
    Cyan,
    Red,
    Magenta,
    Brown,
    LightGray,
    DarkGray,
    LightBlue,
    LightGreen,
    LightCyan,
    LightRed,
    Pink,
    Yellow,
    White,
}

impl Color {
    /// The palette number of this colour.
    pub open spec fn spec_byte(self) -> u8 {
        match self {
            Color::Black => 0,
            Color::Blue => 1,
            Color::Green => 2,
            Color::Cyan => 3,
            Color::Red => 4,
            Color::Magenta => 5,
            Color::Brown => 6,
            Color::LightGray => 7,
            Color::DarkGray => 8,
            Color::LightBlue => 9,
            Color::LightGreen => 10,
            Color::LightCyan => 11,
            Color::LightRed => 12,
            Color::Pink => 13,
            Color::Yellow => 14,
            Color::White => 15,
        }
    }

    /// The colour a palette number names; anything past the palette falls
    /// back to black.
    pub open spec fn spec_from_byte(byte: u8) -> Color {
        if byte == 0 {
            Color::Black
        } else if byte == 1 {
            Color::Blue
        } else if byte == 2 {
            Color::Green
        } else if byte == 3 {
            Color::Cyan
        } else if byte == 4 {
            Color::Red
        } else if byte == 5 {
            Color::Magenta
        } else if byte == 6 {
            Color::Brown
        } else if byte == 7 {
            Color::LightGray
        } else if byte == 8 {
            Color::DarkGray
        } else if byte == 9 {
            Color::LightBlue
        } else if byte == 10 {
            Color::LightGreen
        } else if byte == 11 {
            Color::LightCyan
        } else if byte == 12 {
            Color::LightRed
        } else if byte == 13 {
            Color::Pink
        } else if byte == 14 {
            Color::Yellow
        } else if byte == 15 {
            Color::White
        } else {
            Color::Black
        }
    }

    pub fn from_byte(byte: u8) -> (r: Self)
        ensures
            r == Color::spec_from_byte(byte),
    {
        match byte {
            0 => Color::Black,
            1 => Color::Blue,
            2 => Color::Green,
            3 => Color::Cyan,
            4 => Color::Red,
            5 => Color::Magenta,
            6 => Color::Brown,
            7 => Color::LightGray,
            8 => Color::DarkGray,
            9 => Color::LightBlue,
            10 => Color::LightGreen,
            11 => Color::LightCyan,
            12 => Color::LightRed,
            13 => Color::Pink,
            14 => Color::Yellow,
            15 => Color::White,
            _ => Color::Black,
        }
    }

    /// Executable palette number.
    pub fn to_byte(&self) -> (b: u8)
        ensures
            b == self.spec_byte(),
    {
        match self {
            Color::Black => 0,
            Color::Blue => 1,
            Color::Green => 2,
            Color::Cyan => 3,
            Color::Red => 4,
            Color::Magenta => 5,
            Color::Brown => 6,
            Color::LightGray => 7,
            Color::DarkGray => 8,
            Color::LightBlue => 9,
            Color::LightGreen => 10,
            Color::LightCyan => 11,
            Color::LightRed => 12,
            Color::Pink => 13,
            Color::Yellow => 14,
            Color::White => 15,
        }
    }
}

/// A packed colour attribute: background in the high four bits, foreground
/// in the low four.
#[derive(Debug, Clone, Copy, PartialEq, Eq, Structural)]
pub struct ColorCode(pub u8);

impl ColorCode {
    /// The packed value for a foreground and background pair.
    pub open spec fn spec_new(fg: Color, bg: Color) -> ColorCode {
        ColorCode((bg.spec_byte() * 16 + fg.spec_byte()) as u8)
    }

    pub fn new(fg: Color, bg: Color) -> (r: ColorCode)
        ensures
            r == ColorCode::spec_new(fg, bg),
    {
        let f = fg.to_byte();
        let b = bg.to_byte();
        proof {
            assert((b << 4) | f == b * 16 + f) by (bit_vector)
                requires
                    b < 16 && f < 16,
            ;
        }
        ColorCode((b << 4) | f)
    }
}

/// One character cell of the text buffer: a byte of text and its colour.
#[derive(Debug, Clone, Copy, PartialEq, Eq, Structural)]
pub struct ScreenChar {
    pub ascii_char: u8,
    pub color_code: ColorCode,
}

/// The text buffer contents: `BUFFER_HEIGHT` rows of `BUFFER_WIDTH` cells.
/// The display driver mirrors this grid into the memory-mapped hardware
/// buffer; the writer's logic is all here.
pub struct Buffer {
    pub chars: Vec<Vec<ScreenChar>>,
}

/// A row of blank cells in the given colour.
pub open spec fn blank_row(color: ColorCode) -> Seq<ScreenChar> {
    Seq::new(
        BUFFER_WIDTH as nat,
        |i: int| ScreenChar { ascii_char: 32, color_code: color },
    )
}

/// The writer's whole visible state: the grid of cells, the cursor, and
/// the current colour.
pub struct ScreenModel {
    pub rows: Seq<Seq<ScreenChar>>,
    pub row: int,
    pub col: int,
    pub color: ColorCode,
}

/// Where the cursor and grid move on a line break: down one row, or, on the
/// last row, the grid scrolls up one row and a blank row enters at the
/// bottom.
pub open spec fn model_newline(m: ScreenModel) -> ScreenModel {
    if m.row + 1 < BUFFER_HEIGHT {
        ScreenModel { rows: m.rows, row: m.row + 1, col: 0, color: m.color }
    } else {
        ScreenModel {
            rows: m.rows.drop_first().push(blank_row(m.color)),
            row: m.row,
            col: 0,
            color: m.color,
        }
    }
}

/// The effect of writing one byte: a line feed breaks the line; any other
/// byte lands at the cursor, breaking the line first when the row is full.
pub open spec fn model_write_byte(m: ScreenModel, byte: u8) -> ScreenModel {
    if byte == 10 {
        model_newline(m)
    } else {
        let m0 = if m.col >= BUFFER_WIDTH {
            model_newline(m)
        } else {
            m
        };
        ScreenModel {
            rows: m0.rows.update(
                m0.row,
                m0.rows[m0.row].update(
                    m0.col,
                    ScreenChar { ascii_char: byte, color_code: m0.color },
                ),
            ),
            row: m0.row,
            col: m0.col + 1,
            color: m0.color,
        }
    }
}

/// A byte outside printable ASCII (and not a line feed) is shown as 0xfe.
pub open spec fn printable_or_substitute(byte: u8) -> u8 {
    if (0x20 <= byte && byte <= 0x7e) || byte == 10 {
        byte
    } else {
        0xfe
    }
}

/// The effect of writing a whole string, byte by byte.
pub open spec fn model_write_bytes(m: ScreenModel, bytes: Seq<u8>) -> ScreenModel
    decreases bytes.len(),
{
    if bytes.len() == 0 {
        m
    } else {
        model_write_bytes(model_write_byte(m, printable_or_substitute(bytes[0])), bytes.drop_first())
    }
}

/// Writes text into the buffer grid, tracking the cursor, wrapping long
/// lines, and scrolling on the last row.
pub struct Writer {
    pub row_pos: usize,
    pub col_pos: usize,
    pub color_code: ColorCode,
    pub buffer: Buffer,
}

impl Writer {
    /// The grid as a sequence of rows of cells.
    pub open spec fn grid(self) -> Seq<Seq<ScreenChar>> {
        self.buffer.chars@.map_values(|v: Vec<ScreenChar>| v@)
    }

    pub open spec fn model(self) -> ScreenModel {
        ScreenModel {
            rows: self.grid(),
            row: self.row_pos as int,
            col: self.col_pos as int,
            color: self.color_code,
        }
    }

    /// The cursor stays on the grid and the grid keeps its shape.
    pub open spec fn wf(self) -> bool {
        &&& self.row_pos < BUFFER_HEIGHT
        &&& self.col_pos <= BUFFER_WIDTH
        &&& self.buffer.chars@.len() == BUFFER_HEIGHT
        &&& forall|r: int|
            0 <= r < BUFFER_HEIGHT ==> (#[trigger] self.buffer.chars@[r])@.len() == BUFFER_WIDTH
    }

    /// A writer over a blank grid, writing white on black from the top
    /// left.
    pub fn new() -> (r: Self)
        ensures
            r.wf(),
            r.row_pos == 0,
            r.col_pos == 0,
            r.color_code == ColorCode::spec_new(Color::White, Color::Black),
            forall|rr: int, c: int|
                0 <= rr < BUFFER_HEIGHT && 0 <= c < BUFFER_WIDTH ==> #[trigger] r.grid()[rr][c]
                    == (ScreenChar { ascii_char: 32, color_code: r.color_code }),
    {
        let color_code = ColorCode::new(Color::White, Color::Black);
        let mut chars: Vec<Vec<ScreenChar>> = Vec::new();
        let mut r: usize = 0;
        while r < BUFFER_HEIGHT
            invariant
                r <= BUFFER_HEIGHT,
                chars@.len() == r,
                forall|rr: int| 0 <= rr < r ==> (#[trigger] chars@[rr])@.len() == BUFFER_WIDTH,
                forall|rr: int, c: int|
                    0 <= rr < r && 0 <= c < BUFFER_WIDTH ==> (#[trigger] chars@[rr]@[c])
                        == (ScreenChar { ascii_char: 32, color_code }),
            decreases BUFFER_HEIGHT - r,
        {
            let mut row: Vec<ScreenChar> = Vec::new();
            let mut c: usize = 0;
            while c < BUFFER_WIDTH
                invariant
                    c <= BUFFER_WIDTH,
                    row@.len() == c,
                    forall|i: int|
                        0 <= i < c ==> (#[trigger] row@[i]) == (ScreenChar {
                            ascii_char: 32,
                            color_code,
                        }),
                decreases BUFFER_WIDTH - c,
            {
                row.push(ScreenChar { ascii_char: 32, color_code });
                c = c + 1;
            }
            chars.push(row);
            r = r + 1;
        }
        Writer { row_pos: 0, col_pos: 0, color_code, buffer: Buffer { chars } }
    }

    /// Blank out one row in the current colour.
    pub fn clear_row(&mut self, row: usize)
        requires
            old(self).wf(),
            row < BUFFER_HEIGHT,
        ensures
            final(self).wf(),
            final(self).row_pos == old(self).row_pos,
            final(self).col_pos == old(self).col_pos,
            final(self).color_code == old(self).color_code,
            final(self).grid() == old(self).grid().update(
                row as int,
                blank_row(old(self).color_code),
            ),
    {
        let mut blank: Vec<ScreenChar> = Vec::new();
        let mut c: usize = 0;
        while c < BUFFER_WIDTH
            invariant
                c <= BUFFER_WIDTH,
                blank@.len() == c,
                forall|i: int|
                    0 <= i < c ==> (#[trigger] blank@[i]) == (ScreenChar {
                        ascii_char: 32,
                        color_code: old(self).color_code,
                    }),
                self.color_code == old(self).color_code,
                *self == *old(self),
            decreases BUFFER_WIDTH - c,
        {
            blank.push(ScreenChar { ascii_char: 32, color_code: self.color_code });
            c = c + 1;
        }
        self.buffer.chars[row] = blank;
        proof {
            assert(blank@ =~= blank_row(old(self).color_code));
            assert(self.grid() =~= old(self).grid().update(
                row as int,
                blank_row(old(self).color_code),
            ));
        }
    }

    /// Break the line: the cursor returns to the left edge and moves down a
    /// row, scrolling the grid when it is already on the last row.
    pub fn newline(&mut self)
        requires
            old(self).wf(),
        ensures
            final(self).wf(),
            final(self).model() == model_newline(old(self).model()),
    {
        self.col_pos = 0;
        if self.row_pos + 1 < BUFFER_HEIGHT {
            self.row_pos = self.row_pos + 1;
            proof {
                assert(self.model() =~~= model_newline(old(self).model()));
            }
        } else {
            // scroll: every row moves up one; a blank row enters below
            let mut blank: Vec<ScreenChar> = Vec::new();
            let mut c: usize = 0;
            while c < BUFFER_WIDTH
                invariant
                    c <= BUFFER_WIDTH,
                    blank@.len() == c,
                    forall|i: int|
                        0 <= i < c ==> (#[trigger] blank@[i]) == (ScreenChar {
                            ascii_char: 32,
                            color_code: old(self).color_code,
                        }),
                    self.color_code == old(self).color_code,
                    self.buffer.chars@ == old(self).buffer.chars@,
                    self.row_pos == old(self).row_pos,
                decreases BUFFER_WIDTH - c,
            {
                blank.push(ScreenChar { ascii_char: 32, color_code: self.color_code });
                c = c + 1;
            }
            self.buffer.chars.remove(0);
            self.buffer.chars.push(blank);
            proof {
                assert(blank@ =~= blank_row(old(self).color_code));
                assert(self.grid() =~= old(self).grid().drop_first().push(
                    blank_row(old(self).color_code),
                ));
                assert(self.model() =~~= model_newline(old(self).model()));
            }
        }
    }

    /// Write one byte at the cursor, wrapping and scrolling as the model
    /// says.
    pub fn write_byte(&mut self, byte: u8)
        requires
            old(self).wf(),
        ensures
            final(self).wf(),
            final(self).model() == model_write_byte(old(self).model(), byte),
    {
        if byte == 10 {
            self.newline();
        } else {
            if self.col_pos >= BUFFER_WIDTH {
                self.newline();
            }
            let ghost mid = self.model();
            let color_code = self.color_code;
            let row = self.row_pos;
            let col = self.col_pos;
            self.buffer.chars[row][col] = ScreenChar { ascii_char: byte, color_code };
            self.col_pos = col + 1;
            proof {
                assert(self.grid() =~= mid.rows.update(
                    mid.row,
                    mid.rows[mid.row].update(
                        mid.col,
                        ScreenChar { ascii_char: byte, color_code },
                    ),
                ));
                assert(self.model() =~~= model_write_byte(old(self).model(), byte));
            }
        }
    }

    /// Write a string byte by byte; anything unprintable appears as 0xfe.
    pub fn write_string(&mut self, s: &str)
        requires
            old(self).wf(),
        ensures
            final(self).wf(),
            final(self).model() == model_write_bytes(old(self).model(), s.spec_bytes()),
    {
        let bytes = s.as_bytes();
        let n = bytes.len();
        let mut i: usize = 0;
        proof {
            assert(bytes@.subrange(0, n as int) =~= bytes@);
        }
        while i < n
            invariant
                self.wf(),
                n == bytes@.len(),
                bytes@ == s.spec_bytes(),
                0 <= i <= n,
                model_write_bytes(old(self).model(), s.spec_bytes()) == model_write_bytes(
                    self.model(),
                    bytes@.subrange(i as int, n as int),
                ),
            decreases n - i,
        {
            let byte = bytes[i];
            let ghost pre = self.model();
            let ghost rest = bytes@.subrange(i as int, n as int);
            if (0x20 <= byte && byte <= 0x7e) || byte == 10 {
                self.write_byte(byte);
            } else {
                self.write_byte(0xfe);
            }
            proof {
                assert(rest[0] == bytes@[i as int]);
                assert(rest.drop_first() =~= bytes@.subrange(i as int + 1, n as int));
                assert(model_write_bytes(pre, rest) == model_write_bytes(
                    model_write_byte(pre, printable_or_substitute(rest[0])),
                    rest.drop_first(),
                ));
            }
            i = i + 1;
        }
        proof {
            assert(bytes@.subrange(n as int, n as int) =~= Seq::<u8>::empty());
        }
    }

    /// Change the foreground colour, keeping the background bits.
    pub fn color_fg(&mut self, color: Color)
        requires
            old(self).wf(),
        ensures
            final(self).wf(),
            final(self).buffer.chars@ == old(self).buffer.chars@,
            final(self).row_pos == old(self).row_pos,
            final(self).col_pos == old(self).col_pos,
            final(self).color_code == ColorCode::spec_new(
                color,
                Color::spec_from_byte((old(self).color_code.0 / 16) as u8),
            ),
    {
        let code = self.color_code.0;
        let high = code >> 4;
        proof {
            assert(code >> 4 == code / 16) by (bit_vector);
        }
        let bg = Color::from_byte(high);
        self.color_code = ColorCode::new(color, bg);
    }

    /// Change the background colour. The foreground is re-read through the
    /// palette table, which maps any packed value past the palette to
    /// black.
    pub fn color_bg(&mut self, color: Color)
        requires
            old(self).wf(),
        ensures
            final(self).wf(),
            final(self).buffer.chars@ == old(self).buffer.chars@,
            final(self).row_pos == old(self).row_pos,
            final(self).col_pos == old(self).col_pos,
            final(self).color_code == ColorCode::spec_new(
                Color::spec_from_byte(old(self).color_code.0),
                color,
            ),
    {
        let fg = Color::from_byte(self.color_code.0);
        self.color_code = ColorCode::new(fg, color);
    }

    /// Read one cell of the grid, for callers that inspect what was
    /// written or mirror the grid into the hardware buffer.
    pub fn cell(&self, row: usize, col: usize) -> (r: ScreenChar)
        requires
            self.wf(),
            row < BUFFER_HEIGHT,
            col < BUFFER_WIDTH,
        ensures
            r == self.grid()[row as int][col as int],
    {
        self.buffer.chars[row][col]
    }
}

/// Set the writer's foreground and background colours, in that order.
pub fn vga_color(writer: &mut Writer, fg_color: Color, bg_color: Color)
    requires
        old(writer).wf(),
    ensures
        final(writer).wf(),
        final(writer).buffer.chars@ == old(writer).buffer.chars@,
        final(writer).row_pos == old(writer).row_pos,
        final(writer).col_pos == old(writer).col_pos,
        final(writer).color_code == ColorCode::spec_new(
            Color::spec_from_byte(
                ColorCode::spec_new(
                    fg_color,
                    Color::spec_from_byte((old(writer).color_code.0 / 16) as u8),
                ).0,
            ),
            bg_color,
        ),
{
    writer.color_fg(fg_color);
    writer.color_bg(bg_color);
}

} // verus!
