//! The text console: an 80 by 25 grid of character cells with a cursor
//! and a colour, scrolling up when output runs past the last row. The
//! caller copies the cells to the VGA text buffer.
use vstd::prelude::*;
use vstd::string::StringSliceAdditionalSpecFns;

verus! {

pub const VGA_W: usize = 80;
pub const VGA_H: usize = 25;
/// Cells on the screen.
pub const VGA_CELLS: usize = 2000;
/// A blank cell: a space, white on black.
pub const BLANK: u16 = 0x0F20;

/// The console as plain values.
pub struct ConsoleView {
    pub cells: Seq<u16>,
    pub row: int,
    pub col: int,
    pub color: u8,
}

/// The screen moved up a row, the last row blank.
pub open spec fn scrolled(c: Seq<u16>) -> Seq<u16> {
    Seq::new(
        VGA_CELLS as nat,
        |i: int|
            if i < (VGA_CELLS - VGA_W) as int {
                c[i + VGA_W]
            } else {
                BLANK
            },
    )
}

/// The console after one byte: a newline moves to the next row's start;
/// any other byte is written at the cursor in the current colour and the
/// cursor advances, wrapping at the row's end; past the last row the
/// screen scrolls and the cursor goes to the start of the last row.
pub open spec fn put_byte(v: ConsoleView, b: u8) -> ConsoleView {
    let w = if b == 0x0A {
        ConsoleView { row: v.row + 1, col: 0, ..v }
    } else {
        let cells = v.cells.update(v.row * VGA_W + v.col, (b + v.color * 256) as u16);
        if v.col + 1 >= VGA_W {
            ConsoleView { cells, row: v.row + 1, col: 0, ..v }
        } else {
            ConsoleView { cells, col: v.col + 1, ..v }
        }
    };
    if w.row >= VGA_H {
        ConsoleView { cells: scrolled(w.cells), row: VGA_H - 1, col: 0, ..w }
    } else {
        w
    }
}

/// The console after the bytes `bs`, one after the other.
pub open spec fn put_bytes(v: ConsoleView, bs: Seq<u8>) -> ConsoleView
    decreases bs.len(),
{
    if bs.len() == 0 {
        v
    } else {
        put_bytes(put_byte(v, bs[0]), bs.drop_first())
    }
}

pub open spec fn console_wf(v: ConsoleView) -> bool {
    v.cells.len() == VGA_CELLS && 0 <= v.row < VGA_H && 0 <= v.col < VGA_W
}

proof fn lemma_put_byte_wf(v: ConsoleView, b: u8)
    requires
        console_wf(v),
    ensures
        console_wf(put_byte(v, b)),
{
    assert(v.row * VGA_W + v.col < VGA_CELLS) by (nonlinear_arith)
        requires
            0 <= v.row < VGA_H,
            0 <= v.col < VGA_W,
    ;
}

/// The text console.
pub struct Console {
    cells: Vec<u16>,
    row: usize,
    col: usize,
    color: u8,
}

impl Console {
    pub closed spec fn view(&self) -> ConsoleView {
        ConsoleView { cells: self.cells@, row: self.row as int, col: self.col as int, color: self.color }
    }

    pub closed spec fn wf(&self) -> bool {
        console_wf(self.view())
    }

    /// A blank screen, the cursor at the top left, white on black.
    pub fn new() -> (c: Self)
        ensures
            c.wf(),
            c.view().cells == Seq::new(VGA_CELLS as nat, |i: int| BLANK),
            c.view().row == 0 && c.view().col == 0,
            c.view().color == 0x0F,
    {
        let mut cells: Vec<u16> = Vec::new();
        let mut i: usize = 0;
        while i < VGA_CELLS
            invariant
                i <= VGA_CELLS,
                cells@ == Seq::new(i as nat, |k: int| BLANK),
            decreases VGA_CELLS - i,
        {
            cells.push(BLANK);
            assert(cells@ =~= Seq::new((i + 1) as nat, |k: int| BLANK));
            i = i + 1;
        }
        Console { cells, row: 0, col: 0, color: 0x0F }
    }

    /// The cells, row by row.
    pub fn cells(&self) -> (c: &Vec<u16>)
        ensures
            c@ == self.view().cells,
    {
        &self.cells
    }

    /// The cursor's row and column.
    pub fn cursor(&self) -> (r: (usize, usize))
        ensures
            r.0 == self.view().row && r.1 == self.view().col,
    {
        (self.row, self.col)
    }

    fn scroll(&mut self)
        requires
            old(self).cells@.len() == VGA_CELLS,
        ensures
            final(self).cells@ == scrolled(old(self).cells@),
            final(self).row == old(self).row,
            final(self).col == old(self).col,
            final(self).color == old(self).color,
    {
        let ghost c = self.cells@;
        let mut i: usize = 0;
        while i < VGA_CELLS - VGA_W
            invariant
                i <= VGA_CELLS - VGA_W,
                self.cells@.len() == VGA_CELLS,
                forall|k: int| 0 <= k < i ==> #[trigger] self.cells@[k] == c[k + VGA_W],
                forall|k: int| i <= k < VGA_CELLS ==> #[trigger] self.cells@[k] == c[k],
                self.row == old(self).row,
                self.col == old(self).col,
                self.color == old(self).color,
            decreases VGA_CELLS - VGA_W - i,
        {
            let val = self.cells[i + VGA_W];
            self.cells.set(i, val);
            i = i + 1;
        }
        let mut k: usize = VGA_CELLS - VGA_W;
        while k < VGA_CELLS
            invariant
                VGA_CELLS - VGA_W <= k <= VGA_CELLS,
                self.cells@.len() == VGA_CELLS,
                forall|j: int| 0 <= j < VGA_CELLS - VGA_W ==> #[trigger] self.cells@[j] == c[j + VGA_W],
                forall|j: int| VGA_CELLS - VGA_W <= j < k ==> #[trigger] self.cells@[j] == BLANK,
                self.row == old(self).row,
                self.col == old(self).col,
                self.color == old(self).color,
            decreases VGA_CELLS - k,
        {
            self.cells.set(k, BLANK);
            k = k + 1;
        }
        assert(self.cells@ =~= scrolled(c));
    }

    /// Writes one byte (see `put_byte`).
    pub fn print_char(&mut self, byte: u8)
        requires
            old(self).wf(),
        ensures
            final(self).wf(),
            final(self).view() == put_byte(old(self).view(), byte),
    {
        proof {
            lemma_put_byte_wf(self.view(), byte);
        }
        if byte == 0x0A {
            self.row = self.row + 1;
            self.col = 0;
        } else {
            let offset = self.row * VGA_W + self.col;
            assert(self.row * VGA_W + self.col < VGA_CELLS) by (nonlinear_arith)
                requires
                    self.row < VGA_H,
                    self.col < VGA_W,
            ;
            let color = self.color;
            assert((byte as u16) | ((color as u16) << 8u16) == (byte + color * 256) as u16) by (bit_vector);
            self.cells.set(offset, (byte as u16) | ((color as u16) << 8));
            self.col = self.col + 1;
            if self.col >= VGA_W {
                self.col = 0;
                self.row = self.row + 1;
            }
        }
        if self.row >= VGA_H {
            self.scroll();
            self.row = VGA_H - 1;
            self.col = 0;
        }
    }

    /// Writes the bytes of `msg` (see `put_bytes`).
    pub fn print(&mut self, msg: &str)
        requires
            old(self).wf(),
        ensures
            final(self).wf(),
            final(self).view() == put_bytes(old(self).view(), msg.spec_bytes()),
    {
        let bytes = msg.as_bytes();
        let ghost all = bytes@;
        let mut i: usize = 0;
        assert(all.skip(0) =~= all);
        while i < bytes.len()
            invariant
                i <= all.len(),
                all == bytes@,
                all == msg.spec_bytes(),
                self.wf(),
                put_bytes(self.view(), all.skip(i as int)) == put_bytes(old(self).view(), all),
            decreases all.len() - i,
        {
            let ghost before = self.view();
            self.print_char(bytes[i]);
            assert(all.skip(i as int).drop_first() =~= all.skip(i + 1));
            assert(all.skip(i as int)[0] == all[i as int]);
            i = i + 1;
        }
    }

    /// The colour for what follows: `fg` on `bg`.
    pub fn set_color(&mut self, fg: u8, bg: u8)
        requires
            old(self).wf(),
        ensures
            final(self).wf(),
            final(self).view() == (ConsoleView { color: (bg << 4u8) | fg, ..old(self).view() }),
    {
        self.color = (bg << 4) | fg;
    }

    /// A blank screen, the cursor at the top left; the colour stays.
    pub fn clear(&mut self)
        requires
            old(self).wf(),
        ensures
            final(self).wf(),
            final(self).view() == (ConsoleView {
                cells: Seq::new(VGA_CELLS as nat, |i: int| BLANK),
                row: 0,
                col: 0,
                ..old(self).view()
            }),
    {
        let mut i: usize = 0;
        while i < VGA_CELLS
            invariant
                i <= VGA_CELLS,
                self.cells@.len() == VGA_CELLS,
                forall|k: int| 0 <= k < i ==> #[trigger] self.cells@[k] == BLANK,
                self.color == old(self).color,
            decreases VGA_CELLS - i,
        {
            self.cells.set(i, BLANK);
            i = i + 1;
        }
        self.row = 0;
        self.col = 0;
        assert(self.cells@ =~= Seq::new(VGA_CELLS as nat, |i: int| BLANK));
    }
}

} // verus!
