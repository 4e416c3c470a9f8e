//! The VGA text screen: colours, and a writer that keeps a grid of
//! characters, writes at the bottom row and scrolls up on a new line.

use vstd::prelude::*;
use vstd::string::StringSliceAdditionalSpecFns;

verus! {

/// Height of the text screen in rows.
pub const BUFFER_HEIGHT: usize = 25;

/// Width of the text screen in columns.
pub const BUFFER_WIDTH: usize = 80;

/// The sixteen colours of the VGA text mode.
#[derive(Debug, Clone, Copy, PartialEq, Eq)]
pub enum Color {
    Black,
    Blue,
    Green,
    Cyan,
    Red,
    Magenta,
    Brown,
    LightGray,
    DarkGray,
    LightBlue,
    LightGreen,
    LightCyan,
    LightRed,
    Pink,
    Yellow,
    White,
}

impl Color {
    /// The colour's number in the VGA palette.
    pub open spec fn spec_value(self) -> u8 {
        match self {
            Color::Black => 0,
            Color::Blue => 1,
            Color::Green => 2,
            Color::Cyan => 3,
            Color::Red => 4,
            Color::Magenta => 5,
            Color::Brown => 6,
            Color::LightGray => 7,
            Color::DarkGray => 8,
            Color::LightBlue => 9,
            Color::LightGreen => 10,
            Color::LightCyan => 11,
            Color::LightRed => 12,
            Color::Pink => 13,
            Color::Yellow => 14,
            Color::White => 15,
        }
    }

    /// The colour's number in the VGA palette.
    pub fn as_u8(self) -> (r: u8)
        ensures
            r == self.spec_value(),
            r < 16,
    {
        match self {
            Color::Black => 0,
            Color::Blue => 1,
            Color::Green => 2,
            Color::Cyan => 3,
            Color::Red => 4,
            Color::Magenta => 5,
            Color::Brown => 6,
            Color::LightGray => 7,
            Color::DarkGray => 8,
            Color::LightBlue => 9,
            Color::LightGreen => 10,
            Color::LightCyan => 11,
            Color::LightRed => 12,
            Color::Pink => 13,
            Color::Yellow => 14,
            Color::White => 15,
        }
    }
}

/// A colour attribute byte: background in the high four bits, foreground in
/// the low four.
#[derive(Debug, Clone, Copy, PartialEq, Eq)]
pub struct ColorCode(pub u8);

impl ColorCode {
    /// Packs a background and a foreground colour into one attribute byte.
    pub fn new(background: Color, foreground: Color) -> (r: ColorCode)
        ensures
            r.0 == background.spec_value() * 16 + foreground.spec_value(),
    {
        let b = background.as_u8();
        let f = foreground.as_u8();
        assert((b << 4u8) | f == b * 16 + f) by (bit_vector)
            requires
                b < 16,
                f < 16,
        ;
        ColorCode((b << 4u8) | f)
    }
}

/// A character cell: the byte shown and its colours.
#[derive(Debug, Clone, Copy, PartialEq, Eq)]
pub struct ScreenChar {
    pub ascii_char: u8,
    pub color: ColorCode,
}

/// The cell that a cleared line holds: a space, black on black.
pub open spec fn blank_char() -> ScreenChar {
    ScreenChar { ascii_char: 0x20, color: ColorCode(0) }
}

/// A cleared row.
pub open spec fn blank_row() -> Seq<ScreenChar> {
    Seq::new(BUFFER_WIDTH as nat, |c: int| blank_char())
}

/// The byte shown for `b`: printable ASCII and the newline stand for
/// themselves, every other byte shows as a filled square.
pub open spec fn shown_byte(b: u8) -> u8 {
    if (0x20 <= b && b <= 0x7e) || b == 0x0a {
        b
    } else {
        0xfe
    }
}

/// The abstract state of a writer: the cursor's column on the bottom row, the
/// colour written with, and the rows of the screen from top to bottom.
pub struct WriterView {
    pub column: int,
    pub color: ColorCode,
    pub rows: Seq<Seq<ScreenChar>>,
}

impl WriterView {
    /// The grid has the screen's shape and the cursor lies on the bottom row
    /// or just past its end.
    pub open spec fn wf(self) -> bool {
        &&& self.rows.len() == BUFFER_HEIGHT
        &&& forall|r: int| 0 <= r < BUFFER_HEIGHT ==> (#[trigger] self.rows[r]).len() == BUFFER_WIDTH
        &&& 0 <= self.column <= BUFFER_WIDTH
    }

    /// Every row moves up by one, the top row is lost, the bottom row is
    /// cleared and the cursor returns to its start.
    pub open spec fn new_line_spec(self) -> WriterView {
        WriterView {
            column: 0,
            rows: self.rows.subrange(1, BUFFER_HEIGHT as int).push(blank_row()),
            ..self
        }
    }

    /// Writing one byte: a newline starts a new line; any other byte goes to
    /// the cursor on the bottom row, after a new line when that row is full.
    pub open spec fn write_byte_spec(self, b: u8) -> WriterView {
        if b == 0x0a {
            self.new_line_spec()
        } else {
            let v = if self.column >= BUFFER_WIDTH {
                self.new_line_spec()
            } else {
                self
            };
            let last = BUFFER_HEIGHT - 1;
            WriterView {
                column: v.column + 1,
                rows: v.rows.update(
                    last,
                    v.rows[last].update(v.column, ScreenChar { ascii_char: b, color: v.color }),
                ),
                ..v
            }
        }
    }

    /// Writing the shown form of each byte in turn.
    pub open spec fn write_bytes_spec(self, bytes: Seq<u8>) -> WriterView
        decreases bytes.len(),
    {
        if bytes.len() == 0 {
            self
        } else {
            self.write_bytes_spec(bytes.drop_last()).write_byte_spec(shown_byte(bytes.last()))
        }
    }
}

/// Writes text to the bottom row of the screen grid.
pub struct Writer {
    column_pos: usize,
    color_code: ColorCode,
    buffer: Vec<Vec<ScreenChar>>,
}

impl View for Writer {
    type V = WriterView;

    closed spec fn view(&self) -> WriterView {
        WriterView {
            column: self.column_pos as int,
            color: self.color_code,
            rows: self.buffer@.map_values(|r: Vec<ScreenChar>| r@),
        }
    }
}

fn blank_row_vec() -> (r: Vec<ScreenChar>)
    ensures
        r@ == blank_row(),
{
    let mut row: Vec<ScreenChar> = Vec::new();
    let mut i: usize = 0;
    while i < BUFFER_WIDTH
        invariant
            i <= BUFFER_WIDTH,
            row@ == Seq::new(i as nat, |c: int| blank_char()),
        decreases BUFFER_WIDTH - i,
    {
        row.push(ScreenChar { ascii_char: 0x20, color: ColorCode(0) });
        i = i + 1;
        assert(row@ =~= Seq::new(i as nat, |c: int| blank_char()));
    }
    row
}

impl Writer {
    /// A writer on a cleared screen with the cursor at the start of the
    /// bottom row.
    pub fn new(color_code: ColorCode) -> (r: Writer)
        ensures
            r@.wf(),
            r@.column == 0,
            r@.color == color_code,
            r@.rows == Seq::new(BUFFER_HEIGHT as nat, |i: int| blank_row()),
    {
        let mut buffer: Vec<Vec<ScreenChar>> = Vec::new();
        let mut i: usize = 0;
        while i < BUFFER_HEIGHT
            invariant
                i <= BUFFER_HEIGHT,
                buffer@.map_values(|r: Vec<ScreenChar>| r@) == Seq::new(
                    i as nat,
                    |k: int| blank_row(),
                ),
            decreases BUFFER_HEIGHT - i,
        {
            let row = blank_row_vec();
            let ghost prev = buffer@;
            buffer.push(row);
            i = i + 1;
            assert(buffer@.map_values(|r: Vec<ScreenChar>| r@) =~= prev.map_values(
                |r: Vec<ScreenChar>| r@,
            ).push(blank_row()));
            assert(buffer@.map_values(|r: Vec<ScreenChar>| r@) =~= Seq::new(
                i as nat,
                |k: int| blank_row(),
            ));
        }
        Writer { column_pos: 0, color_code, buffer }
    }

    /// The column of the cursor on the bottom row.
    pub fn column(&self) -> (r: usize)
        ensures
            r == self@.column,
    {
        self.column_pos
    }

    /// The cell at `row`, `col`.
    pub fn char_at(&self, row: usize, col: usize) -> (r: ScreenChar)
        requires
            self@.wf(),
            row < BUFFER_HEIGHT,
            col < BUFFER_WIDTH,
        ensures
            r == self@.rows[row as int][col as int],
    {
        assert(self.buffer@[row as int]@ == self@.rows[row as int]);
        self.buffer[row][col]
    }

    /// Writes one byte as `write_byte_spec` states.
    pub fn write_byte(&mut self, byte: u8)
        requires
            old(self)@.wf(),
        ensures
            final(self)@.wf(),
            final(self)@ == old(self)@.write_byte_spec(byte),
    {
        if byte == 0x0a {
            self.new_line();
        } else {
            if self.column_pos >= BUFFER_WIDTH {
                self.new_line();
            }
            let col = self.column_pos;
            let row = BUFFER_HEIGHT - 1;
            let ghost v = self@;
            assert(self.buffer@[row as int]@ == v.rows[row as int]);
            let mut line = self.buffer.remove(row);
            line.set(col, ScreenChar { ascii_char: byte, color: self.color_code });
            self.buffer.push(line);
            self.column_pos = self.column_pos + 1;
            proof {
                assert(self@.rows =~= v.rows.update(
                    row as int,
                    v.rows[row as int].update(
                        col as int,
                        ScreenChar { ascii_char: byte, color: v.color },
                    ),
                ));
            }
        }
    }

    /// Moves every row up by one, clears the bottom row and puts the cursor
    /// at its start.
    fn new_line(&mut self)
        requires
            old(self)@.wf(),
        ensures
            final(self)@.wf(),
            final(self)@ == old(self)@.new_line_spec(),
    {
        let ghost v = self@;
        let top = self.buffer.remove(0);
        self.buffer.push(top);
        self.clear_line(BUFFER_HEIGHT - 1);
        self.column_pos = 0;
        proof {
            assert(self@.rows =~= v.rows.subrange(1, BUFFER_HEIGHT as int).push(blank_row()));
        }
    }

    /// Fills `row` with blank cells.
    fn clear_line(&mut self, row: usize)
        requires
            row < BUFFER_HEIGHT,
            old(self)@.rows.len() == BUFFER_HEIGHT,
        ensures
            final(self)@ == (WriterView {
                rows: old(self)@.rows.update(row as int, blank_row()),
                ..old(self)@
            }),
    {
        let ghost v = self@;
        self.buffer.set(row, blank_row_vec());
        proof {
            assert(self@.rows =~= v.rows.update(row as int, blank_row()));
        }
    }

    /// Writes the shown form of each byte of `s`, as `write_bytes_spec`
    /// states.
    pub fn write_string(&mut self, s: &str)
        requires
            old(self)@.wf(),
        ensures
            final(self)@.wf(),
            final(self)@ == old(self)@.write_bytes_spec(s.spec_bytes()),
    {
        let bytes = s.as_bytes();
        let ghost v = self@;
        let mut i: usize = 0;
        while i < bytes.len()
            invariant
                i <= bytes@.len(),
                bytes@ == s.spec_bytes(),
                self@.wf(),
                self@ == v.write_bytes_spec(bytes@.subrange(0, i as int)),
            decreases bytes@.len() - i,
        {
            let b = bytes[i];
            let shown = if (0x20 <= b && b <= 0x7e) || b == 0x0a {
                b
            } else {
                0xfe
            };
            self.write_byte(shown);
            proof {
                assert(bytes@.subrange(0, i + 1).drop_last() =~= bytes@.subrange(0, i as int));
            }
            i = i + 1;
        }
        proof {
            assert(bytes@.subrange(0, bytes@.len() as int) =~= bytes@);
        }
    }
}

} // verus!
