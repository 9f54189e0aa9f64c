//! The VGA text screen: colours, character cells, and a writer that fills the
//! bottom row, wraps at the right edge and scrolls up. The writer keeps the
//! screen's contents; copying them to the display memory is the caller's part.
use vstd::prelude::*;
use vstd::string::StringSliceAdditionalSpecFns;

verus! {

/// The sixteen colours of VGA text mode.
#[derive(Debug, Clone, Copy, PartialEq, Eq, Structural)]
pub enum Color {
    Black,
    Blue,
    Green,
    Cyan,
    Red,
    Magenta,
    Brown,
    LightGray,
    DarkGray,
    LightBlue,
    LightGreen,
    LightCyan,
    LightRed,
    Pink,
    Yellow,
    White,
}

impl Color {
    /// The colour's four-bit number in the palette.
    pub open spec fn value(self) -> u8 {
        match self {
            Color::Black => 0,
            Color::Blue => 1,
            Color::Green => 2,
            Color::Cyan => 3,
            Color::Red => 4,
            Color::Magenta => 5,
            Color::Brown => 6,
            Color::LightGray => 7,
            Color::DarkGray => 8,
            Color::LightBlue => 9,
            Color::LightGreen => 10,
            Color::LightCyan => 11,
            Color::LightRed => 12,
            Color::Pink => 13,
            Color::Yellow => 14,
            Color::White => 15,
        }
    }

    pub fn as_u8(self) -> (r: u8)
        ensures
            r == self.value(),
            r < 16,
    {
        match self {
            Color::Black => 0,
            Color::Blue => 1,
            Color::Green => 2,
            Color::Cyan => 3,
            Color::Red => 4,
            Color::Magenta => 5,
            Color::Brown => 6,
            Color::LightGray => 7,
            Color::DarkGray => 8,
            Color::LightBlue => 9,
            Color::LightGreen => 10,
            Color::LightCyan => 11,
            Color::LightRed => 12,
            Color::Pink => 13,
            Color::Yellow => 14,
            Color::White => 15,
        }
    }
}

/// A foreground and a background colour as one attribute byte: the background
/// in the high four bits, the foreground in the low four.
#[derive(Debug, Clone, Copy, PartialEq, Eq, Structural)]
pub struct ColorCode(pub u8);

impl ColorCode {
    pub fn new(foreground: Color, background: Color) -> (r: ColorCode)
        ensures
            r.0 == background.value() * 16 + foreground.value(),
    {
        let f = foreground.as_u8();
        let b = background.as_u8();
        assert((b << 4u8) | f == b * 16 + f) by (bit_vector)
            requires
                b < 16,
                f < 16,
        ;
        ColorCode((b << 4u8) | f)
    }
}

/// One cell of the screen: a code page 437 byte and its colours.
#[derive(Debug, Clone, Copy, PartialEq, Eq, Structural)]
pub struct ScreenChar {
    pub ascii_character: u8,
    pub color_code: ColorCode,
}

pub const BUFFER_HEIGHT: usize = 25;

pub const BUFFER_WIDTH: usize = 80;

/// The number of cells on the screen.
pub const BUFFER_CELLS: usize = BUFFER_HEIGHT * BUFFER_WIDTH;

/// The index of the first cell of the bottom row.
pub const LAST_ROW_START: usize = (BUFFER_HEIGHT - 1) * BUFFER_WIDTH;

/// A space in the given colours.
pub open spec fn blank(color: ColorCode) -> ScreenChar {
    ScreenChar { ascii_character: 0x20, color_code: color }
}

/// The screen moved up by one row, with a blank bottom row.
pub open spec fn scrolled(cells: Seq<ScreenChar>, color: ColorCode) -> Seq<ScreenChar> {
    Seq::new(
        BUFFER_CELLS as nat,
        |i: int|
            if i < LAST_ROW_START {
                cells[i + BUFFER_WIDTH]
            } else {
                blank(color)
            },
    )
}

/// What a byte of a string shows as: printable ASCII and newline as
/// themselves, anything else as a filled square.
pub open spec fn shown(b: u8) -> u8 {
    if (0x20 <= b && b <= 0x7e) || b == 0x0a {
        b
    } else {
        0xfe
    }
}

/// The screen and column after one byte: a newline scrolls; any other byte
/// goes to the bottom row, after scrolling if the row is full.
pub open spec fn after_byte(cells: Seq<ScreenChar>, column: int, color: ColorCode, b: u8) -> (Seq<ScreenChar>, int) {
    if b == 0x0a {
        (scrolled(cells, color), 0)
    } else {
        let before = if column >= BUFFER_WIDTH { scrolled(cells, color) } else { cells };
        let col = if column >= BUFFER_WIDTH { 0 } else { column };
        (before.update(LAST_ROW_START + col, ScreenChar { ascii_character: b, color_code: color }), col + 1)
    }
}

/// The screen and column after the bytes of a string, each as `shown`.
pub open spec fn after_string(cells: Seq<ScreenChar>, column: int, color: ColorCode, bytes: Seq<u8>) -> (
    Seq<ScreenChar>,
    int,
)
    decreases bytes.len(),
{
    if bytes.len() == 0 {
        (cells, column)
    } else {
        let prev = after_string(cells, column, color, bytes.drop_last());
        after_byte(prev.0, prev.1, color, shown(bytes.last()))
    }
}

/// Writes text to the bottom row of the screen in one colour.
pub struct Writer {
    column_position: usize,
    color_code: ColorCode,
    buffer: Vec<ScreenChar>,
}

impl Writer {
    /// The screen's cells, row by row from the top.
    pub closed spec fn cells(&self) -> Seq<ScreenChar> {
        self.buffer@
    }

    /// The next column written on the bottom row.
    pub closed spec fn column(&self) -> int {
        self.column_position as int
    }

    pub closed spec fn color(&self) -> ColorCode {
        self.color_code
    }

    pub open spec fn wf(&self) -> bool {
        &&& self.cells().len() == BUFFER_CELLS
        &&& 0 <= self.column() <= BUFFER_WIDTH
    }

    /// A writer over a blank screen, at the start of the bottom row.
    pub fn new(color_code: ColorCode) -> (r: Writer)
        ensures
            r.wf(),
            r.cells() == Seq::new(BUFFER_CELLS as nat, |i: int| blank(color_code)),
            r.column() == 0,
            r.color() == color_code,
    {
        let mut buffer: Vec<ScreenChar> = Vec::new();
        let mut i: usize = 0;
        while i < BUFFER_CELLS
            invariant
                i <= BUFFER_CELLS,
                buffer@.len() == i,
                forall|j: int| 0 <= j < i ==> #[trigger] buffer@[j] == blank(color_code),
            decreases BUFFER_CELLS - i,
        {
            buffer.push(ScreenChar { ascii_character: 0x20, color_code });
            i = i + 1;
        }
        let r = Writer { column_position: 0, color_code, buffer };
        assert(r.cells() =~= Seq::new(BUFFER_CELLS as nat, |i: int| blank(color_code)));
        r
    }

    /// The cell at `row`, `col`.
    pub fn char_at(&self, row: usize, col: usize) -> (r: ScreenChar)
        requires
            self.wf(),
            row < BUFFER_HEIGHT,
            col < BUFFER_WIDTH,
        ensures
            r == self.cells()[row * BUFFER_WIDTH + col],
    {
        assert(row * BUFFER_WIDTH + col < BUFFER_CELLS) by (nonlinear_arith)
            requires
                row < BUFFER_HEIGHT,
                col < BUFFER_WIDTH,
        ;
        self.buffer[row * BUFFER_WIDTH + col]
    }

    pub fn column_position(&self) -> (r: usize)
        ensures
            r == self.column(),
    {
        self.column_position
    }

    pub fn write_byte(&mut self, byte: u8)
        requires
            old(self).wf(),
        ensures
            final(self).wf(),
            final(self).color() == old(self).color(),
            (final(self).cells(), final(self).column()) == after_byte(
                old(self).cells(),
                old(self).column(),
                old(self).color(),
                byte,
            ),
    {
        if byte == 0x0a {
            self.new_line();
        } else {
            if self.column_position >= BUFFER_WIDTH {
                self.new_line();
            }
            let col = self.column_position;
            let color_code = self.color_code;
            self.buffer.set(LAST_ROW_START + col, ScreenChar { ascii_character: byte, color_code });
            self.column_position = col + 1;
        }
    }

    /// Moves every row up by one and starts a blank bottom row.
    fn new_line(&mut self)
        requires
            old(self).wf(),
        ensures
            final(self).wf(),
            final(self).color() == old(self).color(),
            final(self).cells() == scrolled(old(self).cells(), old(self).color()),
            final(self).column() == 0,
    {
        let ghost pre = self.buffer@;
        let ghost color = self.color_code;
        let ghost column = self.column_position;
        let mut i: usize = 0;
        while i < LAST_ROW_START
            invariant
                i <= LAST_ROW_START,
                pre.len() == BUFFER_CELLS,
                self.color_code == color,
                self.column_position == column,
                column <= BUFFER_WIDTH,
                self.buffer@.len() == BUFFER_CELLS,
                forall|j: int| 0 <= j < i ==> #[trigger] self.buffer@[j] == pre[j + BUFFER_WIDTH],
                forall|j: int| i <= j < BUFFER_CELLS ==> #[trigger] self.buffer@[j] == pre[j],
            decreases LAST_ROW_START - i,
        {
            let moved = self.buffer[i + BUFFER_WIDTH];
            self.buffer.set(i, moved);
            i = i + 1;
        }
        self.clear_row(BUFFER_HEIGHT - 1);
        self.column_position = 0;
        assert(self.buffer@ =~= scrolled(pre, self.color_code));
    }

    /// Overwrites every cell of `row` with a space in the writer's colours.
    fn clear_row(&mut self, row: usize)
        requires
            old(self).wf(),
            row < BUFFER_HEIGHT,
        ensures
            final(self).wf(),
            final(self).color() == old(self).color(),
            final(self).column() == old(self).column(),
            final(self).cells() == Seq::new(
                BUFFER_CELLS as nat,
                |i: int|
                    if row * BUFFER_WIDTH <= i < row * BUFFER_WIDTH + BUFFER_WIDTH {
                        blank(old(self).color())
                    } else {
                        old(self).cells()[i]
                    },
            ),
    {
        let ghost pre = self.buffer@;
        let ghost color = self.color_code;
        let ghost column = self.column_position;
        let blank_char = ScreenChar { ascii_character: 0x20, color_code: self.color_code };
        assert(row * BUFFER_WIDTH + BUFFER_WIDTH <= BUFFER_CELLS) by (nonlinear_arith)
            requires
                row < BUFFER_HEIGHT,
        ;
        let first = row * BUFFER_WIDTH;
        let mut col: usize = 0;
        while col < BUFFER_WIDTH
            invariant
                col <= BUFFER_WIDTH,
                first == row * BUFFER_WIDTH,
                first + BUFFER_WIDTH <= BUFFER_CELLS,
                pre.len() == BUFFER_CELLS,
                self.color_code == color,
                self.column_position == column,
                column <= BUFFER_WIDTH,
                blank_char == blank(self.color_code),
                self.buffer@.len() == BUFFER_CELLS,
                forall|j: int|
                    0 <= j < BUFFER_CELLS ==> #[trigger] self.buffer@[j] == if first <= j < first + col {
                        blank(self.color_code)
                    } else {
                        pre[j]
                    },
            decreases BUFFER_WIDTH - col,
        {
            self.buffer.set(first + col, blank_char);
            col = col + 1;
        }
        assert(self.buffer@ =~= Seq::new(
            BUFFER_CELLS as nat,
            |i: int|
                if row * BUFFER_WIDTH <= i < row * BUFFER_WIDTH + BUFFER_WIDTH {
                    blank(self.color_code)
                } else {
                    pre[i]
                },
        ));
    }

    /// Writes each byte of `s`; bytes outside printable ASCII, but for the
    /// newline, show as a filled square.
    pub fn write_string(&mut self, s: &str)
        requires
            old(self).wf(),
        ensures
            final(self).wf(),
            final(self).color() == old(self).color(),
            (final(self).cells(), final(self).column()) == after_string(
                old(self).cells(),
                old(self).column(),
                old(self).color(),
                s.spec_bytes(),
            ),
    {
        let ghost pre = *self;
        let bytes = s.as_bytes();
        let mut i: usize = 0;
        while i < bytes.len()
            invariant
                self.wf(),
                self.color() == pre.color(),
                i <= bytes@.len(),
                bytes@ == s.spec_bytes(),
                (self.cells(), self.column()) == after_string(
                    pre.cells(),
                    pre.column(),
                    pre.color(),
                    bytes@.subrange(0, i as int),
                ),
            decreases bytes@.len() - i,
        {
            let byte = bytes[i];
            let shown_byte = if (0x20 <= byte && byte <= 0x7e) || byte == 0x0a {
                byte
            } else {
                0xfe
            };
            self.write_byte(shown_byte);
            proof {
                assert(bytes@.subrange(0, i + 1).drop_last() =~= bytes@.subrange(0, i as int));
            }
            i = i + 1;
        }
        proof {
            assert(bytes@.subrange(0, bytes@.len() as int) =~= bytes@);
        }
    }
}

} // verus!
