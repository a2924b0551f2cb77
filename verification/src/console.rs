//! The kernel console: an 80x25 VGA text screen with a cursor and a colour, and the bytes
//! queued for the serial port. The caller copies the screen to video memory and sends the
//! queued bytes.
use crate::boot::BootChecks;
use crate::text::{decimal, decimal_bytes};
use vstd::prelude::*;
use vstd::string::StringSliceAdditionalSpecFns;

verus! {

pub const VGA_WIDTH: usize = 80;
pub const VGA_HEIGHT: usize = 25;
/// Number of character cells on the screen.
pub const VGA_CELLS: usize = 2000;

pub const COLOR_BLACK: u8 = 0;
pub const COLOR_BLUE: u8 = 1;
pub const COLOR_GREEN: u8 = 2;
pub const COLOR_CYAN: u8 = 3;
pub const COLOR_RED: u8 = 4;
pub const COLOR_MAGENTA: u8 = 5;
pub const COLOR_BROWN: u8 = 6;
pub const COLOR_LIGHT_GREY: u8 = 7;
pub const COLOR_DARK_GREY: u8 = 8;
pub const COLOR_LIGHT_BLUE: u8 = 9;
pub const COLOR_LIGHT_GREEN: u8 = 10;
pub const COLOR_LIGHT_CYAN: u8 = 11;
pub const COLOR_LIGHT_RED: u8 = 12;
pub const COLOR_LIGHT_MAGENTA: u8 = 13;
pub const COLOR_YELLOW: u8 = 14;
pub const COLOR_WHITE: u8 = 15;

/// The attribute byte of foreground `fg` on background `bg`.
pub open spec fn color_of(fg: u8, bg: u8) -> u8 {
    (fg | ((bg * 16) % 256) as u8) as u8
}

/// The VGA attribute byte of foreground `fg` on background `bg`: `fg` in the low nibble,
/// `bg` in the high one (its high bits shifted out).
pub fn make_color(fg: u8, bg: u8) -> (c: u8)
    ensures
        c == color_of(fg, bg),
        fg < 16 ==> c == fg + 16 * (bg % 16),
{
    proof {
        assert(bg << 4u8 == ((bg * 16) % 256) as u8) by (bit_vector);
        assert(fg < 16 ==> (fg | ((bg * 16) % 256) as u8) == fg + 16 * (bg % 16)) by (bit_vector);
    }
    fg | (bg << 4u8)
}

/// The mathematical state of the console.
pub struct ConsoleView {
    /// Character and attribute of each cell, row by row.
    pub cells: Seq<(u8, u8)>,
    pub row: int,
    pub col: int,
    pub color: u8,
    /// Bytes queued for the serial port.
    pub serial: Seq<u8>,
}

/// The screen and the serial queue.
pub struct Console {
    cells: Vec<(u8, u8)>,
    row: usize,
    col: usize,
    color: u8,
    serial: Vec<u8>,
}

impl View for Console {
    type V = ConsoleView;

    closed spec fn view(&self) -> ConsoleView {
        ConsoleView {
            cells: self.cells@,
            row: self.row as int,
            col: self.col as int,
            color: self.color,
            serial: self.serial@,
        }
    }
}

/// What the console keeps true: a full screen, the cursor on it (the column may sit just past
/// the last one).
pub open spec fn view_wf(v: ConsoleView) -> bool {
    &&& v.cells.len() == VGA_CELLS
    &&& 0 <= v.row < VGA_HEIGHT
    &&& 0 <= v.col <= VGA_WIDTH
}

/// `v` with the cell at `row`, `col` set.
pub open spec fn put_cell(v: ConsoleView, row: int, col: int, byte: u8, color: u8) -> ConsoleView {
    ConsoleView { cells: v.cells.update(row * 80 + col, (byte, color)), ..v }
}

/// The screen moved up one row, the last row blank in the current colour.
pub open spec fn scrolled(v: ConsoleView) -> ConsoleView {
    ConsoleView {
        cells: Seq::new(
            VGA_CELLS as nat,
            |i: int|
                if i < 1920 {
                    v.cells[i + 80]
                } else {
                    (32u8, v.color)
                },
        ),
        ..v
    }
}

/// The cursor at the start of the next row, scrolling when it was on the last.
pub open spec fn newline(v: ConsoleView) -> ConsoleView {
    if v.row + 1 >= VGA_HEIGHT {
        ConsoleView { col: 0, row: VGA_HEIGHT - 1, ..scrolled(v) }
    } else {
        ConsoleView { col: 0, row: v.row + 1, ..v }
    }
}

/// A character drawn at the cursor, wrapping to the next row first when the row is full.
pub open spec fn put_char(v: ConsoleView, c: u8) -> ConsoleView {
    let v1 = if v.col >= VGA_WIDTH {
        newline(v)
    } else {
        v
    };
    ConsoleView { col: v1.col + 1, ..put_cell(v1, v1.row, v1.col, c, v1.color) }
}

/// One byte printed to the screen: newline, carriage return, or a character.
pub open spec fn print_byte(v: ConsoleView, b: u8) -> ConsoleView {
    if b == 10 {
        newline(v)
    } else if b == 13 {
        ConsoleView { col: 0, ..v }
    } else {
        put_char(v, b)
    }
}

/// A newline never loses a row that is on screen: below the last row the cursor moves to the
/// start of the next row and the screen is kept; on the last row every row moves up one, the
/// top one leaves, and the last row comes up blank in the current colour.
pub proof fn law_newline(v: ConsoleView)
    requires
        view_wf(v),
    ensures
        newline(v).col == 0,
        newline(v).cells.len() == VGA_CELLS,
        newline(v).color == v.color,
        newline(v).serial == v.serial,
        v.row < 24 ==> newline(v).row == v.row + 1 && newline(v).cells == v.cells,
        v.row == 24 ==> newline(v).row == 24,
        v.row == 24 ==> forall|i: int| 0 <= i < 1920 ==> #[trigger] newline(v).cells[i] == v.cells[i + 80],
        v.row == 24 ==> forall|i: int| 1920 <= i < 2000 ==> #[trigger] newline(v).cells[i] == (32u8, v.color),
{
}

/// A character drawn on a full row goes where a newline would have put the cursor: the
/// cursor then stands just after it.
pub proof fn law_put_char_wraps(v: ConsoleView, c: u8)
    requires
        view_wf(v),
        v.col == VGA_WIDTH,
    ensures
        put_char(v, c) == put_char(newline(v), c),
        v.row < 24 ==> put_char(v, c).row == v.row + 1,
        v.row < 24 ==> put_char(v, c).cells == v.cells.update((v.row + 1) * 80, (c, v.color)),
        v.row == 24 ==> put_char(v, c).row == 24,
        v.row == 24 ==> forall|i: int| 0 <= i < 1920 ==> #[trigger] put_char(v, c).cells[i] == v.cells[i + 80],
        v.row == 24 ==> put_char(v, c).cells[1920] == (c, v.color),
        v.row == 24 ==> forall|i: int| 1920 < i < 2000 ==> #[trigger] put_char(v, c).cells[i] == (32u8, v.color),
        put_char(v, c).col == 1,
        put_char(v, c).color == v.color,
        put_char(v, c).serial == v.serial,
        put_char(v, c).cells.len() == VGA_CELLS,
{
    law_newline(v);
    let w = newline(v);
    assert(w.col < VGA_WIDTH);
    if v.row == 24 {
        assert forall|i: int| 0 <= i < 1920 implies #[trigger] put_char(v, c).cells[i] == v.cells[i + 80] by {
            assert(w.cells[i] == v.cells[i + 80]);
        }
        assert forall|i: int| 1920 < i < 2000 implies #[trigger] put_char(v, c).cells[i] == (32u8, v.color) by {
            assert(w.cells[i] == (32u8, v.color));
        }
    }
}

/// A character drawn on a row with room lands in the cell under the cursor, in the current
/// colour, and the cursor moves one column right; no other cell changes.
pub proof fn law_put_char_in_row(v: ConsoleView, c: u8)
    requires
        view_wf(v),
        v.col < VGA_WIDTH,
    ensures
        put_char(v, c).cells == v.cells.update(v.row * 80 + v.col, (c, v.color)),
        put_char(v, c).row == v.row,
        put_char(v, c).col == v.col + 1,
        put_char(v, c).color == v.color,
        put_char(v, c).serial == v.serial,
{
}

/// Bytes printed to the screen one after the other.
pub open spec fn printed(v: ConsoleView, s: Seq<u8>) -> ConsoleView
    decreases s.len(),
{
    if s.len() == 0 {
        v
    } else {
        print_byte(printed(v, s.drop_last()), s.last())
    }
}

/// Bytes queued for the serial port.
pub open spec fn sent(v: ConsoleView, s: Seq<u8>) -> ConsoleView {
    ConsoleView { serial: v.serial + s, ..v }
}

/// Row `row` blanked in colour `color`.
pub open spec fn cleared_row(v: ConsoleView, row: int, color: u8) -> ConsoleView {
    ConsoleView {
        cells: Seq::new(
            v.cells.len(),
            |i: int|
                if row * 80 <= i < row * 80 + 80 {
                    (32u8, color)
                } else {
                    v.cells[i]
                },
        ),
        ..v
    }
}

/// Every row blanked in the current colour, the cursor at the top left.
pub open spec fn cleared_screen(v: ConsoleView) -> ConsoleView {
    ConsoleView {
        cells: Seq::new(v.cells.len(), |i: int| (32u8, v.color)),
        row: 0,
        col: 0,
        ..v
    }
}

/// `msg` drawn on row `row` from column `col` in colour `color`, cut at the right edge.
pub open spec fn text_at(v: ConsoleView, row: int, col: int, msg: Seq<u8>, color: u8) -> ConsoleView {
    let n = if msg.len() < 80 - col {
        msg.len() as int
    } else {
        80 - col
    };
    ConsoleView {
        cells: Seq::new(
            v.cells.len(),
            |i: int|
                if row * 80 + col <= i < row * 80 + col + n {
                    (msg[i - row * 80 - col], color)
                } else {
                    v.cells[i]
                },
        ),
        ..v
    }
}

/// The character before the cursor erased and the cursor moved onto it, going back to the
/// end of the previous row from the start of a row.
pub open spec fn backspaced(v: ConsoleView) -> ConsoleView {
    if v.col > 0 {
        ConsoleView { col: v.col - 1, ..put_cell(v, v.row, v.col - 1, 32u8, v.color) }
    } else if v.row > 0 {
        ConsoleView { row: v.row - 1, col: 79, ..put_cell(v, v.row - 1, 79, 32u8, v.color) }
    } else {
        v
    }
}

/// Printing keeps the console well formed.
pub proof fn lemma_printed_wf(v: ConsoleView, s: Seq<u8>)
    requires
        view_wf(v),
    ensures
        view_wf(printed(v, s)),
        printed(v, s).color == v.color,
        printed(v, s).serial == v.serial,
    decreases s.len(),
{
    if s.len() > 0 {
        lemma_printed_wf(v, s.drop_last());
    }
}

impl Console {
    /// A blank console: every cell zero, the cursor at the top left, white on black.
    pub fn new() -> (c: Self)
        ensures
            view_wf(c@),
            c@.cells == Seq::new(VGA_CELLS as nat, |i: int| (0u8, 0u8)),
            c@.row == 0 && c@.col == 0,
            c@.color == 0x0F,
            c@.serial == Seq::<u8>::empty(),
    {
        let mut cells: Vec<(u8, u8)> = Vec::new();
        let mut i: usize = 0;
        while i < VGA_CELLS
            invariant
                i <= VGA_CELLS,
                cells@.len() == i,
                forall|k: int| 0 <= k < i ==> cells@[k] == (0u8, 0u8),
            decreases VGA_CELLS - i,
        {
            cells.push((0u8, 0u8));
            i = i + 1;
        }
        let c = Console { cells, row: 0, col: 0, color: 0x0F, serial: Vec::new() };
        assert(c@.cells =~= Seq::new(VGA_CELLS as nat, |i: int| (0u8, 0u8)));
        c
    }

    /// What the console keeps true.
    pub open spec fn wf(&self) -> bool {
        view_wf(self@)
    }

    /// Sets the colour to white on black.
    pub fn init(&mut self)
        ensures
            old(self).wf() ==> final(self).wf(),
            final(self)@ == (ConsoleView { color: color_of(COLOR_WHITE, COLOR_BLACK), ..old(self)@ }),
    {
        self.color = make_color(COLOR_WHITE, COLOR_BLACK);
    }

    /// Sets the colour of what is drawn next.
    pub fn set_color(&mut self, fg: u8, bg: u8)
        ensures
            old(self).wf() ==> final(self).wf(),
            final(self)@ == (ConsoleView { color: color_of(fg, bg), ..old(self)@ }),
    {
        self.color = make_color(fg, bg);
    }

    /// The cell at index `i`.
    pub fn cell(&self, i: usize) -> (c: (u8, u8))
        requires
            i < self@.cells.len(),
        ensures
            c == self@.cells[i as int],
    {
        self.cells[i]
    }

    /// Hands out the bytes queued for the serial port and empties the queue.
    pub fn take_serial(&mut self) -> (s: Vec<u8>)
        ensures
            old(self).wf() ==> final(self).wf(),
            s@ == old(self)@.serial,
            final(self)@ == (ConsoleView { serial: Seq::empty(), ..old(self)@ }),
    {
        let mut out: Vec<u8> = Vec::new();
        std::mem::swap(&mut out, &mut self.serial);
        out
    }

    /// Queues one byte for the serial port.
    pub fn write_byte(&mut self, byte: u8)
        ensures
            old(self).wf() ==> final(self).wf(),
            final(self)@ == sent(old(self)@, seq![byte]),
    {
        self.serial.push(byte);
        assert(self@.serial =~= old(self)@.serial + seq![byte]);
    }

    /// Queues `message` for the serial port.
    pub fn write(&mut self, message: &str)
        ensures
            old(self).wf() ==> final(self).wf(),
            final(self)@ == sent(old(self)@, message.spec_bytes()),
    {
        let bytes = message.as_bytes();
        let mut i: usize = 0;
        while i < bytes.len()
            invariant
                i <= bytes@.len(),
                bytes@ == message.spec_bytes(),
                self@ == sent(old(self)@, bytes@.take(i as int)),
            decreases bytes@.len() - i,
        {
            self.serial.push(bytes[i]);
            assert(bytes@.take(i + 1) =~= bytes@.take(i as int).push(bytes@[i as int]));
            i = i + 1;
        }
        assert(bytes@.take(bytes@.len() as int) =~= bytes@);
    }

    /// Sets the cell at `row`, `column`.
    pub fn write_cell(&mut self, row: usize, column: usize, byte: u8, color: u8)
        requires
            old(self).wf(),
            row < VGA_HEIGHT,
            column < VGA_WIDTH,
        ensures
            final(self).wf(),
            final(self)@ == put_cell(old(self)@, row as int, column as int, byte, color),
    {
        self.cells.set(row * VGA_WIDTH + column, (byte, color));
    }

    /// Moves the screen up one row and blanks the last row in the current colour.
    pub fn scroll_vga(&mut self)
        requires
            old(self)@.cells.len() == VGA_CELLS,
        ensures
            final(self)@ == scrolled(old(self)@),
    {
        let mut i: usize = 0;
        while i < 1920
            invariant
                i <= 1920,
                self@.cells.len() == VGA_CELLS,
                self@.row == old(self)@.row && self@.col == old(self)@.col,
                self@.color == old(self)@.color && self@.serial == old(self)@.serial,
                forall|k: int| 0 <= k < i ==> self@.cells[k] == old(self)@.cells[k + 80],
                forall|k: int| i <= k < VGA_CELLS ==> self@.cells[k] == old(self)@.cells[k],
            decreases 1920 - i,
        {
            let c = self.cells[i + 80];
            self.cells.set(i, c);
            i = i + 1;
        }
        let color = self.color;
        let mut j: usize = 1920;
        while j < VGA_CELLS
            invariant
                1920 <= j <= VGA_CELLS,
                color == old(self)@.color,
                self@.cells.len() == VGA_CELLS,
                self@.row == old(self)@.row && self@.col == old(self)@.col,
                self@.color == old(self)@.color && self@.serial == old(self)@.serial,
                forall|k: int| 0 <= k < 1920 ==> self@.cells[k] == old(self)@.cells[k + 80],
                forall|k: int| 1920 <= k < j ==> self@.cells[k] == (32u8, color),
            decreases VGA_CELLS - j,
        {
            self.cells.set(j, (32u8, color));
            j = j + 1;
        }
        assert(self@.cells =~= scrolled(old(self)@).cells);
    }

    /// Moves the cursor to the start of the next row, scrolling from the last row.
    pub fn vga_newline(&mut self)
        requires
            old(self).wf(),
        ensures
            final(self).wf(),
            final(self)@ == newline(old(self)@),
    {
        self.col = 0;
        self.row = self.row + 1;
        if self.row >= VGA_HEIGHT {
            self.scroll_vga();
            self.row = VGA_HEIGHT - 1;
        }
    }

    /// Draws `c` at the cursor and moves the cursor on.
    pub fn write_vga_char(&mut self, c: u8)
        requires
            old(self).wf(),
        ensures
            final(self).wf(),
            final(self)@ == put_char(old(self)@, c),
    {
        if self.col >= VGA_WIDTH {
            self.vga_newline();
        }
        let row = self.row;
        let col = self.col;
        let color = self.color;
        self.write_cell(row, col, c, color);
        self.col = self.col + 1;
    }

    /// Prints `message` to the screen.
    pub fn vga_print(&mut self, message: &str)
        requires
            old(self).wf(),
        ensures
            final(self).wf(),
            final(self)@ == printed(old(self)@, message.spec_bytes()),
    {
        self.print_bytes(message.as_bytes());
    }

    /// Prints `bytes` to the screen.
    pub fn print_bytes(&mut self, bytes: &[u8])
        requires
            old(self).wf(),
        ensures
            final(self).wf(),
            final(self)@ == printed(old(self)@, bytes@),
    {
        let mut i: usize = 0;
        while i < bytes.len()
            invariant
                i <= bytes@.len(),
                view_wf(old(self)@),
                self@ == printed(old(self)@, bytes@.take(i as int)),
            decreases bytes@.len() - i,
        {
            proof {
                lemma_printed_wf(old(self)@, bytes@.take(i as int));
                assert(bytes@.take(i + 1).drop_last() =~= bytes@.take(i as int));
            }
            let b = bytes[i];
            if b == 10u8 {
                self.vga_newline();
            } else if b == 13u8 {
                self.col = 0;
            } else {
                self.write_vga_char(b);
            }
            i = i + 1;
        }
        assert(bytes@.take(bytes@.len() as int) =~= bytes@);
        proof {
            lemma_printed_wf(old(self)@, bytes@);
        }
    }

    /// Prints `message` to the screen and moves to the next row.
    pub fn vga_println(&mut self, message: &str)
        requires
            old(self).wf(),
        ensures
            final(self).wf(),
            final(self)@ == newline(printed(old(self)@, message.spec_bytes())),
    {
        self.vga_print(message);
        proof {
            lemma_printed_wf(old(self)@, message.spec_bytes());
        }
        self.vga_newline();
    }

    /// Sends `message` to the serial port and prints it to the screen.
    pub fn write_str(&mut self, message: &str)
        requires
            old(self).wf(),
        ensures
            final(self).wf(),
            final(self)@ == printed(sent(old(self)@, message.spec_bytes()), message.spec_bytes()),
    {
        self.write(message);
        self.vga_print(message);
    }

    /// Sends and prints `message` in foreground `fg` on black, then restores the colour.
    pub fn write_str_color(&mut self, message: &str, fg: u8)
        requires
            old(self).wf(),
        ensures
            final(self).wf(),
            final(self)@ == (ConsoleView {
                color: old(self)@.color,
                ..printed(
                    sent(
                        ConsoleView { color: color_of(fg, COLOR_BLACK), ..old(self)@ },
                        message.spec_bytes(),
                    ),
                    message.spec_bytes(),
                )
            }),
    {
        let old_color = self.color;
        self.set_color(fg, COLOR_BLACK);
        self.write_str(message);
        proof {
            lemma_printed_wf(
                sent(ConsoleView { color: color_of(fg, COLOR_BLACK), ..old(self)@ }, message.spec_bytes()),
                message.spec_bytes(),
            );
        }
        self.color = old_color;
    }

    /// Sends `message` and a line break to the serial port, prints `message` and moves to the
    /// next row.
    pub fn write_line(&mut self, message: &str)
        requires
            old(self).wf(),
        ensures
            final(self).wf(),
            final(self)@ == newline(
                sent(
                    printed(sent(old(self)@, message.spec_bytes()), message.spec_bytes()),
                    seq![13u8, 10u8],
                ),
            ),
    {
        self.write_str(message);
        let ghost mid = self@;
        self.serial.push(13u8);
        self.serial.push(10u8);
        assert(self@ == sent(mid, seq![13u8, 10u8])) by {
            assert(self@.serial =~= mid.serial + seq![13u8, 10u8]);
        }
        proof {
            lemma_printed_wf(sent(old(self)@, message.spec_bytes()), message.spec_bytes());
        }
        self.vga_newline();
    }

    /// Erases the character before the cursor and moves the cursor back onto it.
    pub fn backspace_vga(&mut self)
        requires
            old(self).wf(),
        ensures
            final(self).wf(),
            final(self)@ == backspaced(old(self)@),
    {
        if self.col > 0 {
            self.col = self.col - 1;
            let (row, col, color) = (self.row, self.col, self.color);
            self.write_cell(row, col, 32u8, color);
        } else if self.row > 0 {
            self.row = self.row - 1;
            self.col = VGA_WIDTH - 1;
            let (row, col, color) = (self.row, self.col, self.color);
            self.write_cell(row, col, 32u8, color);
        }
    }

    /// Blanks row `row` in colour `color`.
    pub fn clear_row(&mut self, row: usize, color: u8)
        requires
            old(self).wf(),
            row < VGA_HEIGHT,
        ensures
            final(self).wf(),
            final(self)@ == cleared_row(old(self)@, row as int, color),
    {
        let mut column: usize = 0;
        while column < VGA_WIDTH
            invariant
                column <= VGA_WIDTH,
                row < VGA_HEIGHT,
                view_wf(self@),
                self@.row == old(self)@.row && self@.col == old(self)@.col,
                self@.color == old(self)@.color && self@.serial == old(self)@.serial,
                forall|k: int|
                    0 <= k < VGA_CELLS ==> self@.cells[k] == (if row * 80 <= k < row * 80 + column {
                        (32u8, color)
                    } else {
                        old(self)@.cells[k]
                    }),
            decreases VGA_WIDTH - column,
        {
            self.write_cell(row, column, 32u8, color);
            column = column + 1;
        }
        assert(self@.cells =~= cleared_row(old(self)@, row as int, color).cells);
    }

    /// Blanks the whole screen in the current colour and moves the cursor to the top left.
    pub fn clear_terminal(&mut self)
        requires
            old(self).wf(),
        ensures
            final(self).wf(),
            final(self)@ == cleared_screen(old(self)@),
    {
        let color = self.color;
        let mut row: usize = 0;
        while row < VGA_HEIGHT
            invariant
                row <= VGA_HEIGHT,
                color == old(self)@.color,
                view_wf(self@),
                self@.row == old(self)@.row && self@.col == old(self)@.col,
                self@.color == old(self)@.color && self@.serial == old(self)@.serial,
                forall|k: int| 0 <= k < row * 80 ==> self@.cells[k] == (32u8, color),
            decreases VGA_HEIGHT - row,
        {
            self.clear_row(row, color);
            row = row + 1;
        }
        self.row = 0;
        self.col = 0;
        assert(self@.cells =~= cleared_screen(old(self)@).cells);
    }

    /// Draws `message` on row `row` from column `column_offset` in colour `color`, cut at the
    /// right edge.
    pub fn write_screen_text_at(&mut self, row: usize, column_offset: usize, message: &str, color: u8)
        requires
            old(self).wf(),
            row < VGA_HEIGHT,
            column_offset <= VGA_WIDTH,
        ensures
            final(self).wf(),
            final(self)@ == text_at(
                old(self)@,
                row as int,
                column_offset as int,
                message.spec_bytes(),
                color,
            ),
    {
        let bytes = message.as_bytes();
        let limit = VGA_WIDTH - column_offset;
        let n = if bytes.len() < limit {
            bytes.len()
        } else {
            limit
        };
        let mut column: usize = 0;
        while column < n
            invariant
                column <= n,
                n <= bytes@.len(),
                n <= 80 - column_offset,
                row < VGA_HEIGHT,
                column_offset <= VGA_WIDTH,
                view_wf(self@),
                self@.row == old(self)@.row && self@.col == old(self)@.col,
                self@.color == old(self)@.color && self@.serial == old(self)@.serial,
                forall|k: int|
                    0 <= k < VGA_CELLS ==> self@.cells[k] == (if row * 80 + column_offset <= k < row
                        * 80 + column_offset + column {
                        (bytes@[k - row * 80 - column_offset], color)
                    } else {
                        old(self)@.cells[k]
                    }),
            decreases n - column,
        {
            self.write_cell(row, column + column_offset, bytes[column], color);
            column = column + 1;
        }
        assert(self@.cells =~= text_at(
            old(self)@,
            row as int,
            column_offset as int,
            message.spec_bytes(),
            color,
        ).cells);
    }

    /// Blanks row `row` in colour `color` and draws `message` at its start.
    pub fn write_screen_line(&mut self, row: usize, message: &str, color: u8)
        requires
            old(self).wf(),
            row < VGA_HEIGHT,
        ensures
            final(self).wf(),
            final(self)@ == text_at(
                cleared_row(old(self)@, row as int, color),
                row as int,
                0,
                message.spec_bytes(),
                color,
            ),
    {
        self.clear_row(row, color);
        self.write_screen_text_at(row, 0, message, color);
    }
}

/// Bytes sent to the serial port and printed to the screen.
pub open spec fn out(v: ConsoleView, s: Seq<u8>) -> ConsoleView {
    printed(sent(v, s), s)
}

impl Console {
    /// Sends `bytes` to the serial port.
    pub fn write_bytes(&mut self, bytes: &[u8])
        requires
            old(self).wf(),
        ensures
            final(self).wf(),
            final(self)@ == sent(old(self)@, bytes@),
    {
        let mut i: usize = 0;
        while i < bytes.len()
            invariant
                i <= bytes@.len(),
                view_wf(self@),
                self@ == sent(old(self)@, bytes@.take(i as int)),
            decreases bytes@.len() - i,
        {
            self.serial.push(bytes[i]);
            assert(bytes@.take(i + 1) =~= bytes@.take(i as int).push(bytes@[i as int]));
            assert(self@.serial =~= old(self)@.serial + bytes@.take(i + 1));
            i = i + 1;
        }
        assert(bytes@.take(bytes@.len() as int) =~= bytes@);
    }

    /// Sends `bytes` and a line break to the serial port, prints `bytes` and moves to the
    /// next row.
    pub fn write_line_bytes(&mut self, bytes: &[u8])
        requires
            old(self).wf(),
        ensures
            final(self).wf(),
            final(self)@ == line_written(old(self)@, bytes@),
    {
        self.write_bytes(bytes);
        self.print_bytes(bytes);
        proof {
            lemma_printed_wf(sent(old(self)@, bytes@), bytes@);
        }
        let ghost mid = self@;
        self.serial.push(13u8);
        self.serial.push(10u8);
        assert(self@ == sent(mid, seq![13u8, 10u8])) by {
            assert(self@.serial =~= mid.serial + seq![13u8, 10u8]);
        }
        self.vga_newline();
    }

    /// Sends `n` in decimal to the serial port.
    pub fn write_u32(&mut self, n: u32)
        requires
            old(self).wf(),
        ensures
            final(self).wf(),
            final(self)@ == sent(old(self)@, decimal(n as nat)),
    {
        let digits = decimal_bytes(n as u64);
        self.write_bytes(digits.as_slice());
    }

    /// Sends `n` in decimal to the serial port.
    pub fn write_usize(&mut self, n: usize)
        requires
            old(self).wf(),
        ensures
            final(self).wf(),
            final(self)@ == sent(old(self)@, decimal(n as nat)),
    {
        let digits = decimal_bytes(n as u64);
        self.write_bytes(digits.as_slice());
    }
}

/// A boot check drawn on row `row`: its label in white, then its status from column 24,
/// green `[ok]` or red `[fail]`.
pub open spec fn check_line(v: ConsoleView, row: int, label: Seq<u8>, ok: bool) -> ConsoleView {
    let status = if ok {
        "[ok]".spec_bytes()
    } else {
        "[fail]".spec_bytes()
    };
    let color = if ok {
        COLOR_GREEN
    } else {
        COLOR_RED
    };
    text_at(
        text_at(v, row, 0, label, color_of(COLOR_WHITE, COLOR_BLACK)),
        row,
        24,
        status,
        color_of(color, COLOR_BLACK),
    )
}

/// A boot check sent to the serial port: its label, a colon, then a green `ok` or a red
/// `fail` and a line break.
pub open spec fn serial_check_line(v: ConsoleView, label: Seq<u8>, ok: bool) -> ConsoleView {
    let status = if ok {
        "\x1b[32mok\x1b[0m\r\n".spec_bytes()
    } else {
        "\x1b[31mfail\x1b[0m\r\n".spec_bytes()
    };
    sent(sent(sent(v, label), ": ".spec_bytes()), status)
}

/// A line drawn with `write_line`: sent with a line break, printed, then a new row.
pub open spec fn line_written(v: ConsoleView, msg: Seq<u8>) -> ConsoleView {
    newline(sent(printed(sent(v, msg), msg), seq![13u8, 10u8]))
}

/// The boot report: a cleared screen with the title, each check and the verdict, then the
/// report line and each check on the serial port.
pub open spec fn boot_report(v: ConsoleView, r: BootChecks) -> ConsoleView {
    let all_ok = r.bootloader_ok && r.multiboot_info_ok && r.kernel_ok;
    let v1 = cleared_screen(v);
    let c0 = color_of(COLOR_LIGHT_CYAN, COLOR_BLACK);
    let v2 = text_at(cleared_row(v1, 0, c0), 0, 0, "Sample OS".spec_bytes(), c0);
    let c2 = color_of(COLOR_WHITE, COLOR_BLACK);
    let v3 = text_at(cleared_row(v2, 2, c2), 2, 0, "Boot checks:".spec_bytes(), c2);
    let v4 = check_line(v3, 4, "Bootloader handoff".spec_bytes(), r.bootloader_ok);
    let v5 = check_line(v4, 5, "Multiboot info".spec_bytes(), r.multiboot_info_ok);
    let v6 = check_line(v5, 6, "Kernel init".spec_bytes(), r.kernel_ok);
    let c8 = if all_ok {
        color_of(COLOR_LIGHT_GREEN, COLOR_BLACK)
    } else {
        color_of(COLOR_LIGHT_RED, COLOR_BLACK)
    };
    let verdict = if all_ok {
        "OS boot successful".spec_bytes()
    } else {
        "OS boot failed".spec_bytes()
    };
    let v7 = text_at(cleared_row(v6, 8, c8), 8, 0, verdict, c8);
    let v8 = line_written(v7, "Sample OS boot report:".spec_bytes());
    let v9 = serial_check_line(v8, "Bootloader handoff".spec_bytes(), r.bootloader_ok);
    let v10 = serial_check_line(v9, "Multiboot info".spec_bytes(), r.multiboot_info_ok);
    serial_check_line(v10, "Kernel init".spec_bytes(), r.kernel_ok)
}

/// The panic screen: white on red, cleared, with a three-line banner.
pub open spec fn panic_screen(v: ConsoleView) -> ConsoleView {
    let v1 = cleared_screen(ConsoleView { color: color_of(COLOR_WHITE, COLOR_RED), ..v });
    let bar = "!!!!!!!!!!!!!!!!!!!!!!!!!!!!!!!!!!!!!!!!!!!!!!!!!!!!!!!!!!!!!!!!!!!!!!!!!!!!!!!!".spec_bytes();
    let title = "!                                KERNEL PANIC                                 !".spec_bytes();
    newline(printed(newline(printed(newline(printed(v1, bar)), title)), bar))
}

impl Console {
    /// Draws a boot check on row `row`.
    pub fn write_check_line(&mut self, row: usize, label: &str, ok: bool)
        requires
            old(self).wf(),
            row < VGA_HEIGHT,
        ensures
            final(self).wf(),
            final(self)@ == check_line(old(self)@, row as int, label.spec_bytes(), ok),
    {
        let color = if ok {
            COLOR_GREEN
        } else {
            COLOR_RED
        };
        let status = if ok {
            "[ok]"
        } else {
            "[fail]"
        };
        self.write_screen_text_at(row, 0, label, make_color(COLOR_WHITE, COLOR_BLACK));
        self.write_screen_text_at(row, 24, status, make_color(color, COLOR_BLACK));
    }

    /// Sends a boot check to the serial port.
    pub fn write_serial_check_line(&mut self, label: &str, ok: bool)
        requires
            old(self).wf(),
        ensures
            final(self).wf(),
            final(self)@ == serial_check_line(old(self)@, label.spec_bytes(), ok),
    {
        self.write(label);
        self.write(": ");
        if ok {
            self.write("\x1b[32mok\x1b[0m\r\n");
        } else {
            self.write("\x1b[31mfail\x1b[0m\r\n");
        }
    }

    /// Shows the boot report on the screen and the serial port.
    pub fn show_boot_report(&mut self, report: &BootChecks)
        requires
            old(self).wf(),
        ensures
            final(self).wf(),
            final(self)@ == boot_report(old(self)@, *report),
    {
        self.clear_terminal();
        self.write_screen_line(0, "Sample OS", make_color(COLOR_LIGHT_CYAN, COLOR_BLACK));
        self.write_screen_line(2, "Boot checks:", make_color(COLOR_WHITE, COLOR_BLACK));
        self.write_check_line(4, "Bootloader handoff", report.bootloader_ok);
        self.write_check_line(5, "Multiboot info", report.multiboot_info_ok);
        self.write_check_line(6, "Kernel init", report.kernel_ok);
        if report.all_ok() {
            self.write_screen_line(8, "OS boot successful", make_color(COLOR_LIGHT_GREEN, COLOR_BLACK));
        } else {
            self.write_screen_line(8, "OS boot failed", make_color(COLOR_LIGHT_RED, COLOR_BLACK));
        }
        self.write_line("Sample OS boot report:");
        self.write_serial_check_line("Bootloader handoff", report.bootloader_ok);
        self.write_serial_check_line("Multiboot info", report.multiboot_info_ok);
        self.write_serial_check_line("Kernel init", report.kernel_ok);
    }

    /// Shows the panic screen.
    pub fn show_panic(&mut self)
        requires
            old(self).wf(),
        ensures
            final(self).wf(),
            final(self)@ == panic_screen(old(self)@),
    {
        self.set_color(COLOR_WHITE, COLOR_RED);
        self.clear_terminal();
        self.vga_println("!!!!!!!!!!!!!!!!!!!!!!!!!!!!!!!!!!!!!!!!!!!!!!!!!!!!!!!!!!!!!!!!!!!!!!!!!!!!!!!!");
        self.vga_println("!                                KERNEL PANIC                                 !");
        self.vga_println("!!!!!!!!!!!!!!!!!!!!!!!!!!!!!!!!!!!!!!!!!!!!!!!!!!!!!!!!!!!!!!!!!!!!!!!!!!!!!!!!");
    }
}

} // verus!
