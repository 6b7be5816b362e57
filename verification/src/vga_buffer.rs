//! The text-mode framebuffer writer.
//!
//! The screen is an 80 x 25 array of 16-bit cells, each an ASCII byte and
//! a color byte.  The writer appends at the bottom row and scrolls the
//! whole screen up by one line on a newline or when a row fills up.
use vstd::prelude::*;

verus! {

/// Width of the screen in cells.
pub const BUFFER_WIDTH: usize = 80;

/// Height of the screen in rows.
pub const BUFFER_HEIGHT: usize = 25;

/// Cells on the whole screen.
pub const BUFFER_CELLS: usize = 2000;

/// One of the sixteen VGA colors.
#[derive(Debug, Clone, Copy, PartialEq, Eq, Structural)]
pub enum Color {
    Black,
    Blue,
    Green,
    Cyan,
    Red,
    Magenta,
    Brown,
    LightGrey,
    DarkGrey,
    LightBlue,
    LightGreen,
    LightCyan,
    LightRed,
    Pink,
    Yellow,
    White,
}

impl Color {
    /// The 4-bit hardware code of the color.
    pub open spec fn spec_code(self) -> u8 {
        match self {
            Color::Black => 0,
            Color::Blue => 1,
            Color::Green => 2,
            Color::Cyan => 3,
            Color::Red => 4,
            Color::Magenta => 5,
            Color::Brown => 6,
            Color::LightGrey => 7,
            Color::DarkGrey => 8,
            Color::LightBlue => 9,
            Color::LightGreen => 10,
            Color::LightCyan => 11,
            Color::LightRed => 12,
            Color::Pink => 13,
            Color::Yellow => 14,
            Color::White => 15,
        }
    }

    /// The 4-bit hardware code of the color.
    pub fn code(self) -> (r: u8)
        ensures
            r == self.spec_code(),
    {
        match self {
            Color::Black => 0,
            Color::Blue => 1,
            Color::Green => 2,
            Color::Cyan => 3,
            Color::Red => 4,
            Color::Magenta => 5,
            Color::Brown => 6,
            Color::LightGrey => 7,
            Color::DarkGrey => 8,
            Color::LightBlue => 9,
            Color::LightGreen => 10,
            Color::LightCyan => 11,
            Color::LightRed => 12,
            Color::Pink => 13,
            Color::Yellow => 14,
            Color::White => 15,
        }
    }
}

/// A foreground and background color packed into one byte.
#[derive(Debug, Clone, Copy, PartialEq, Eq, Structural)]
pub struct ColorCode {
    /// Background in the high nibble, foreground in the low one.
    pub code: u8,
}

impl ColorCode {
    /// Pack a foreground and a background color.
    pub fn new(foreground: Color, background: Color) -> (r: ColorCode)
        ensures
            r.code == background.spec_code() * 16 + foreground.spec_code(),
    {
        ColorCode { code: background.code() * 16 + foreground.code() }
    }
}

/// One cell of the screen.
#[derive(Debug, Clone, Copy, PartialEq, Eq, Structural)]
pub struct ScreenChar {
    /// The ASCII byte shown in the cell.
    pub ascii_character: u8,
    /// The packed color of the cell.
    pub color_code: u8,
}

/// The screen after scrolling one line up, with a blank bottom row.
pub open spec fn scrolled(s: Seq<ScreenChar>, blank: ScreenChar) -> Seq<ScreenChar> {
    Seq::new(2000, |i: int| if i < 1920 { s[i + 80] } else { blank })
}

/// The writer state a single byte leads to: a newline scrolls, a byte in
/// a full row scrolls first, any other byte lands at the cursor of the
/// bottom row.
pub open spec fn spec_write_byte(s: Seq<ScreenChar>, col: int, code: u8, byte: u8) -> (
    Seq<ScreenChar>,
    int,
) {
    let blank = ScreenChar { ascii_character: 32, color_code: code };
    if byte == 10 {
        (scrolled(s, blank), 0)
    } else if col >= 80 {
        (
            scrolled(s, blank).update(1920, ScreenChar { ascii_character: byte, color_code: code }),
            1,
        )
    } else {
        (s.update(1920 + col, ScreenChar { ascii_character: byte, color_code: code }), col + 1)
    }
}

/// The writer state a whole byte string leads to.
pub open spec fn spec_write_bytes(s: Seq<ScreenChar>, col: int, code: u8, bytes: Seq<u8>) -> (
    Seq<ScreenChar>,
    int,
)
    decreases bytes.len(),
{
    if bytes.len() == 0 {
        (s, col)
    } else {
        let (s2, col2) = spec_write_byte(s, col, code, bytes[0]);
        spec_write_bytes(s2, col2, code, bytes.drop_first())
    }
}

/// Writes ASCII text into an in-memory screen, appending at the bottom
/// row and scrolling on newlines and full rows.
pub struct Writer {
    column_position: usize,
    color_code: ColorCode,
    buffer: Vec<ScreenChar>,
}

impl Writer {
    /// The cursor column in the bottom row.
    pub closed spec fn col(&self) -> int {
        self.column_position as int
    }

    /// The packed color new cells are written with.
    pub closed spec fn code(&self) -> u8 {
        self.color_code.code
    }

    /// The cells of the screen, row by row.
    pub closed spec fn screen(&self) -> Seq<ScreenChar> {
        self.buffer@
    }

    /// The screen holds exactly 80 x 25 cells and the cursor is inside
    /// or just past the bottom row.
    pub open spec fn wf(&self) -> bool {
        self.screen().len() == 2000 && 0 <= self.col() <= 80
    }

    /// A blank writer with the given colors.
    pub fn new(color_code: ColorCode) -> (r: Writer)
        ensures
            r.wf(),
            r.col() == 0,
            r.code() == color_code.code,
            forall|i: int|
                0 <= i < 2000 ==> (#[trigger] r.screen()[i]) == (ScreenChar {
                    ascii_character: 32,
                    color_code: color_code.code,
                }),
    {
        let mut buffer: Vec<ScreenChar> = Vec::new();
        let mut i: usize = 0;
        while i < 2000
            invariant
                buffer@.len() == i,
                0 <= i <= 2000,
                forall|j: int|
                    0 <= j < i ==> (#[trigger] buffer@[j]) == (ScreenChar {
                        ascii_character: 32,
                        color_code: color_code.code,
                    }),
            decreases 2000 - i,
        {
            buffer.push(ScreenChar { ascii_character: 32, color_code: color_code.code });
            i = i + 1;
        }
        Writer { column_position: 0, color_code, buffer }
    }

    /// The cell at the given row and column.
    pub fn cell(&self, row: usize, column: usize) -> (r: ScreenChar)
        requires
            self.wf(),
            row < 25,
            column < 80,
        ensures
            r == self.screen()[row * 80 + column],
    {
        self.buffer[row * 80 + column]
    }

    /// Shift every row up by one and blank the bottom row.
    fn new_line(&mut self)
        requires
            old(self).wf(),
        ensures
            final(self).wf(),
            final(self).code() == old(self).code(),
            final(self).col() == 0,
            final(self).screen() == scrolled(
                old(self).screen(),
                ScreenChar { ascii_character: 32, color_code: old(self).code() },
            ),
    {
        let blank = ScreenChar { ascii_character: 32, color_code: self.color_code.code };
        let mut i: usize = 0;
        while i < 1920
            invariant
                0 <= i <= 1920,
                self.screen().len() == 2000,
                self.code() == old(self).code(),
                blank == (ScreenChar { ascii_character: 32, color_code: old(self).code() }),
                forall|j: int|
                    0 <= j < i ==> (#[trigger] self.screen()[j]) == old(self).screen()[j + 80],
                forall|j: int|
                    i <= j < 2000 ==> (#[trigger] self.screen()[j]) == old(self).screen()[j],
            decreases 1920 - i,
        {
            let shifted = self.buffer[i + 80];
            self.buffer.set(i, shifted);
            i = i + 1;
        }
        while i < 2000
            invariant
                1920 <= i <= 2000,
                self.screen().len() == 2000,
                self.code() == old(self).code(),
                blank == (ScreenChar { ascii_character: 32, color_code: old(self).code() }),
                forall|j: int|
                    0 <= j < 1920 ==> (#[trigger] self.screen()[j]) == old(self).screen()[j + 80],
                forall|j: int| 1920 <= j < i ==> (#[trigger] self.screen()[j]) == blank,
            decreases 2000 - i,
        {
            self.buffer.set(i, blank);
            i = i + 1;
        }
        self.column_position = 0;
        proof {
            assert(self.screen() =~= scrolled(
                old(self).screen(),
                ScreenChar { ascii_character: 32, color_code: old(self).code() },
            ));
        }
    }

    /// Write one byte: a newline scrolls, a full row scrolls first, any
    /// other byte lands at the cursor of the bottom row.
    pub fn write_byte(&mut self, byte: u8)
        requires
            old(self).wf(),
        ensures
            final(self).wf(),
            final(self).code() == old(self).code(),
            (final(self).screen(), final(self).col()) == spec_write_byte(
                old(self).screen(),
                old(self).col(),
                old(self).code(),
                byte,
            ),
    {
        if byte == 10 {
            self.new_line();
        } else {
            if self.column_position >= BUFFER_WIDTH {
                self.new_line();
            }
            let row = BUFFER_HEIGHT - 1;
            let col = self.column_position;
            let cell = ScreenChar { ascii_character: byte, color_code: self.color_code.code };
            self.buffer.set(row * 80 + col, cell);
            self.column_position = self.column_position + 1;
        }
    }

    /// Write a string of bytes one cell at a time; ASCII only.
    pub fn write_str(&mut self, s: &[u8])
        requires
            old(self).wf(),
        ensures
            final(self).wf(),
            final(self).code() == old(self).code(),
            (final(self).screen(), final(self).col()) == spec_write_bytes(
                old(self).screen(),
                old(self).col(),
                old(self).code(),
                s@,
            ),
    {
        let mut i: usize = 0;
        proof {
            assert(s@.skip(0) =~= s@);
        }
        while i < s.len()
            invariant
                0 <= i <= s@.len(),
                self.wf(),
                self.code() == old(self).code(),
                spec_write_bytes(old(self).screen(), old(self).col(), old(self).code(), s@) ==
                    spec_write_bytes(self.screen(), self.col(), self.code(), s@.skip(i as int)),
            decreases s@.len() - i,
        {
            let ghost pre = *self;
            self.write_byte(s[i]);
            proof {
                assert(s@.skip(i as int).drop_first() =~= s@.skip(i as int + 1));
                assert(s@.skip(i as int)[0] == s@[i as int]);
            }
            i = i + 1;
        }
        proof {
            assert(s@.skip(s@.len() as int) =~= Seq::<u8>::empty());
        }
    }

    /// Clear one row to blanks.
    fn clear_row(&mut self, row: usize)
        requires
            old(self).wf(),
            row < 25,
        ensures
            final(self).wf(),
            final(self).code() == old(self).code(),
            final(self).col() == old(self).col(),
            forall|j: int|
                0 <= j < 2000 ==> (#[trigger] final(self).screen()[j]) == if row * 80 <= j < row
                    * 80 + 80 {
                    ScreenChar { ascii_character: 32, color_code: old(self).code() }
                } else {
                    old(self).screen()[j]
                },
    {
        let blank = ScreenChar { ascii_character: 32, color_code: self.color_code.code };
        let mut col: usize = 0;
        while col < 80
            invariant
                0 <= col <= 80,
                row < 25,
                self.screen().len() == 2000,
                self.code() == old(self).code(),
                self.col() == old(self).col(),
                blank == (ScreenChar { ascii_character: 32, color_code: old(self).code() }),
                forall|j: int|
                    0 <= j < 2000 ==> (#[trigger] self.screen()[j]) == if row * 80 <= j < row * 80
                        + col {
                        blank
                    } else {
                        old(self).screen()[j]
                    },
            decreases 80 - col,
        {
            self.buffer.set(row * 80 + col, blank);
            col = col + 1;
        }
    }

    /// Clear the whole screen and move the cursor to the left edge.
    pub fn clear_screen(&mut self)
        requires
            old(self).wf(),
        ensures
            final(self).wf(),
            final(self).code() == old(self).code(),
            final(self).col() == 0,
            forall|j: int|
                0 <= j < 2000 ==> (#[trigger] final(self).screen()[j]) == (ScreenChar {
                    ascii_character: 32,
                    color_code: old(self).code(),
                }),
    {
        let mut row: usize = 0;
        while row < 25
            invariant
                0 <= row <= 25,
                self.wf(),
                self.code() == old(self).code(),
                self.col() == old(self).col(),
                forall|j: int|
                    0 <= j < row * 80 ==> (#[trigger] self.screen()[j]) == (ScreenChar {
                        ascii_character: 32,
                        color_code: old(self).code(),
                    }),
                forall|j: int|
                    row * 80 <= j < 2000 ==> (#[trigger] self.screen()[j]) == old(
                        self,
                    ).screen()[j],
            decreases 25 - row,
        {
            self.clear_row(row);
            row = row + 1;
        }
        self.column_position = 0;
    }
}

} // verus!
