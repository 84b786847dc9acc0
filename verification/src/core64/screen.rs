//! The kernel's text console: a cursor over the 80 x 25 text buffer.
use vstd::prelude::*;
use vstd::string::StringSliceAdditionalSpecFns;

verus! {

/// Columns of the text buffer.
pub const COLS: usize = 80;
/// Lines of the text buffer.
pub const LINES: usize = 25;
/// Cells of the text buffer.
pub const CELLS: usize = 2000;

/// A cell showing `c` with the attribute byte of `prev`.
pub open spec fn cell(prev: u16, c: u8) -> u16 {
    ((prev & 0xFF00) | (c as u16)) as u16
}

/// The cursor: line and column of the next cell written.
pub struct Screen {
    pub line: usize,
    pub row: usize,
}

/// The cursor is on the screen.
pub open spec fn cursor_ok(line: usize, row: usize) -> bool {
    line < LINES && row < COLS
}

/// The cell index of a cursor position.
pub open spec fn coord_of(line: int, row: int) -> int {
    line * 80 + row
}

/// Line after `line`, wrapping to the top.
pub open spec fn next_line(line: usize) -> usize {
    if line + 1 == LINES { 0 } else { (line + 1) as usize }
}

/// The buffer after writing byte `c` at the cursor `(line, row)`: a newline blanks the rest of
/// the line; any other byte is shown in its cell. Attribute bytes are kept.
pub open spec fn buffer_after(buf: Seq<u16>, line: usize, row: usize, c: u8) -> Seq<u16> {
    Seq::new(buf.len(), |i: int|
        if c == 10 {
            if coord_of(line as int, row as int) <= i < coord_of(line as int, 80) { cell(buf[i], 32) } else { buf[i] }
        } else {
            if i == coord_of(line as int, row as int) { cell(buf[i], c) } else { buf[i] }
        })
}

/// The cursor after writing byte `c` at `(line, row)`.
pub open spec fn cursor_after(line: usize, row: usize, c: u8) -> (usize, usize) {
    if c == 10 || row + 1 == COLS {
        (next_line(line), 0)
    } else {
        (line, (row + 1) as usize)
    }
}

/// The cell after `p`, wrapping from the last cell to the first.
pub open spec fn advance(p: int) -> int {
    if p + 1 == CELLS { 0 } else { p + 1 }
}

/// Distance from `start` forward to `i`, going round the buffer.
pub open spec fn forward(start: int, i: int) -> int {
    if i >= start { i - start } else { i - start + CELLS }
}

/// Buffer, line and row after writing each byte of `bytes` in turn.
pub open spec fn write_all(buf: Seq<u16>, line: usize, row: usize, bytes: Seq<u8>) -> (Seq<u16>, usize, usize)
    decreases bytes.len(),
{
    if bytes.len() == 0 {
        (buf, line, row)
    } else {
        let (l2, r2) = cursor_after(line, row, bytes[0]);
        write_all(buffer_after(buf, line, row, bytes[0]), l2, r2, bytes.drop_first())
    }
}

impl Screen {
    /// The index of the cursor's cell: `line * 80 + row`.
    pub fn coord(&self) -> (r: usize)
        requires
            self.line * 80 + self.row <= usize::MAX,
        ensures
            r == coord_of(self.line as int, self.row as int),
    {
        self.line * 80 + self.row
    }

    /// Writes byte `c` at the cursor and moves it on; a newline blanks the rest of the line.
    pub fn write_byte(&mut self, screen: &mut Vec<u16>, c: u8)
        requires
            cursor_ok(old(self).line, old(self).row),
            old(screen)@.len() == CELLS,
        ensures
            cursor_ok(final(self).line, final(self).row),
            (final(self).line, final(self).row) == cursor_after(old(self).line, old(self).row, c),
            final(screen)@ == buffer_after(old(screen)@, old(self).line, old(self).row, c),
            c != 10 ==> coord_of(final(self).line as int, final(self).row as int) == advance(
                coord_of(old(self).line as int, old(self).row as int),
            ),
            c == 10 ==> coord_of(final(self).line as int, final(self).row as int) == coord_of(
                next_line(old(self).line) as int,
                0,
            ),
    {
        let ghost buf0 = screen@;
        let ghost row0 = self.row;
        let ghost line0 = self.line;
        if c == 10u8 {
            while self.row != 80
                invariant
                    self.line == line0,
                    line0 < LINES,
                    row0 <= self.row <= 80,
                    screen@.len() == CELLS,
                    buf0.len() == CELLS,
                    forall|i: int|
                        0 <= i < CELLS ==> #[trigger] screen@[i] == if coord_of(line0 as int, row0 as int) <= i
                            < coord_of(line0 as int, self.row as int) {
                            cell(buf0[i], 32)
                        } else {
                            buf0[i]
                        },
                decreases 80 - self.row,
            {
                let k = self.line * 80 + self.row;
                let v = (screen[k] & 0xFF00) | 32u16;
                screen.set(k, v);
                self.row += 1;
            }
            self.row = 0;
            self.line += 1;
            if self.line == 25 {
                self.line = 0;
            }
            assert(screen@ =~= buffer_after(buf0, line0, row0, c));
            return;
        }
        let k = self.coord();
        let v = (screen[k] & 0xFF00) | (c as u16);
        screen.set(k, v);
        assert(screen@ =~= buffer_after(buf0, line0, row0, c));
        self.row += 1;
        if self.row == 80 {
            self.row = 0;
            self.line += 1;
            if self.line == 25 {
                self.line = 0;
            }
        }
    }

    /// Blanks every cell by writing a space 2000 times from the cursor; each cell keeps its
    /// attribute byte and the cursor comes back to where it was.
    pub fn clear_screen(&mut self, screen: &mut Vec<u16>)
        requires
            cursor_ok(old(self).line, old(self).row),
            old(screen)@.len() == CELLS,
        ensures
            final(self).line == old(self).line,
            final(self).row == old(self).row,
            final(screen)@.len() == CELLS,
            forall|i: int| 0 <= i < CELLS ==> #[trigger] final(screen)@[i] == cell(old(screen)@[i], 32),
    {
        let ghost buf0 = screen@;
        let ghost p0 = coord_of(self.line as int, self.row as int);
        let ghost line0 = self.line;
        let ghost row0 = self.row;
        let mut k: usize = 0;
        while k < 2000
            invariant
                0 <= k <= CELLS,
                cursor_ok(self.line, self.row),
                cursor_ok(line0, row0),
                p0 == coord_of(line0 as int, row0 as int),
                screen@.len() == CELLS,
                buf0.len() == CELLS,
                coord_of(self.line as int, self.row as int) == if p0 + k < CELLS {
                    p0 + k
                } else {
                    p0 + k - CELLS
                },
                forall|i: int|
                    0 <= i < CELLS ==> #[trigger] screen@[i] == if forward(p0, i) < k {
                        cell(buf0[i], 32)
                    } else {
                        buf0[i]
                    },
            decreases CELLS - k,
        {
            let ghost q = coord_of(self.line as int, self.row as int);
            let ghost before = screen@;
            assert(forward(p0, q) == k);
            self.write_byte(screen, 32u8);
            assert forall|i: int| 0 <= i < CELLS implies #[trigger] screen@[i] == if forward(p0, i) < k
                + 1 {
                cell(buf0[i], 32)
            } else {
                buf0[i]
            } by {
                if i == q {
                    assert(before[i] == buf0[i]);
                }
            }
            k += 1;
        }
        assert(coord_of(self.line as int, self.row as int) == coord_of(line0 as int, row0 as int));
        assert(self.line == line0 && self.row == row0) by (nonlinear_arith)
            requires
                self.line * 80 + self.row == line0 * 80 + row0,
                self.row < 80,
                row0 < 80,
        ;
    }

    /// Writes each byte of `s` in turn.
    pub fn write_str(&mut self, screen: &mut Vec<u16>, s: &str)
        requires
            cursor_ok(old(self).line, old(self).row),
            old(screen)@.len() == CELLS,
        ensures
            cursor_ok(final(self).line, final(self).row),
            (final(screen)@, final(self).line, final(self).row) == write_all(
                old(screen)@,
                old(self).line,
                old(self).row,
                s.spec_bytes(),
            ),
    {
        let bytes = s.as_bytes();
        let ghost all = write_all(screen@, self.line, self.row, bytes@);
        let mut i: usize = 0;
        assert(bytes@.skip(0) =~= bytes@);
        while i < bytes.len()
            invariant
                0 <= i <= bytes@.len(),
                cursor_ok(self.line, self.row),
                screen@.len() == CELLS,
                write_all(screen@, self.line, self.row, bytes@.skip(i as int)) == all,
            decreases bytes@.len() - i,
        {
            let ghost rest = bytes@.skip(i as int);
            assert(rest.drop_first() =~= bytes@.skip(i as int + 1));
            self.write_byte(screen, bytes[i]);
            i += 1;
        }
        assert(bytes@.skip(i as int) =~= Seq::<u8>::empty());
    }
}

/// Any byte but a newline moves the cursor on by one cell, from the last cell to the first.
pub proof fn lemma_cursor_after_advance(line: usize, row: usize, c: u8)
    requires
        cursor_ok(line, row),
        c != 10,
    ensures
        cursor_ok(cursor_after(line, row, c).0, cursor_after(line, row, c).1),
        coord_of(cursor_after(line, row, c).0 as int, cursor_after(line, row, c).1 as int)
            == advance(coord_of(line as int, row as int)),
{
}

/// Writing bytes none of which is a newline moves the cursor on by one cell per byte, going
/// round the screen.
pub proof fn lemma_write_all_advance(buf: Seq<u16>, line: usize, row: usize, bytes: Seq<u8>)
    requires
        cursor_ok(line, row),
        forall|i: int| 0 <= i < bytes.len() ==> bytes[i] != 10,
    ensures
        ({
            let (_, l2, r2) = write_all(buf, line, row, bytes);
            &&& cursor_ok(l2, r2)
            &&& coord_of(l2 as int, r2 as int) == (coord_of(line as int, row as int) + bytes.len()) % (CELLS as int)
        }),
    decreases bytes.len(),
{
    let p = coord_of(line as int, row as int);
    if bytes.len() == 0 {
        assert(p % (CELLS as int) == p);
    } else {
        let c = bytes[0];
        let (l2, r2) = cursor_after(line, row, c);
        lemma_cursor_after_advance(line, row, c);
        let rest = bytes.drop_first();
        assert forall|i: int| 0 <= i < rest.len() implies rest[i] != 10 by {
            assert(rest[i] == bytes[i + 1]);
        }
        lemma_write_all_advance(buffer_after(buf, line, row, c), l2, r2, rest);
        let q = coord_of(l2 as int, r2 as int);
        if p + 1 == CELLS {
            assert(q == 0);
            vstd::arithmetic::div_mod::lemma_mod_add_multiples_vanish(rest.len() as int, CELLS as int);
        } else {
            assert(q == p + 1);
        }
    }
}

} // verus!
