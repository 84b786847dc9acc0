//! The console of user processes: the same text buffer as the kernel's, with every byte also
//! echoed to the debug port.
use vstd::prelude::*;
use vstd::string::StringSliceAdditionalSpecFns;
use crate::core64::screen::{buffer_after, cursor_after, cursor_ok, coord_of, cell, write_all, CELLS};
use crate::dyshared::ports::PortWrite8;

verus! {

/// The emulator's debug console port.
pub const DEBUG_PORT: u16 = 0xe9;

/// The cursor: line and column of the next cell written.
pub struct Screen {
    pub line: usize,
    pub row: usize,
}

/// The debug-port writes that echo `bytes`.
pub open spec fn echoes(bytes: Seq<u8>) -> Seq<PortWrite8> {
    Seq::new(bytes.len(), |i: int| PortWrite8 { port: DEBUG_PORT, value: bytes[i] })
}

impl Screen {
    /// A cursor at the top left cell.
    pub fn new() -> (r: Self)
        ensures
            r.line == 0,
            r.row == 0,
    {
        Screen { line: 0, row: 0 }
    }

    /// The index of the cursor's cell: `line * 80 + row`.
    pub fn coord(&self) -> (r: usize)
        requires
            self.line * 80 + self.row <= usize::MAX,
        ensures
            r == coord_of(self.line as int, self.row as int),
    {
        self.line * 80 + self.row
    }

    /// Writes byte `c` at the cursor as the kernel console does; the byte is also to be sent
    /// to the debug port, which the returned write says.
    pub fn write_byte(&mut self, screen: &mut Vec<u16>, c: u8) -> (w: PortWrite8)
        requires
            cursor_ok(old(self).line, old(self).row),
            old(screen)@.len() == CELLS,
        ensures
            cursor_ok(final(self).line, final(self).row),
            (final(self).line, final(self).row) == cursor_after(old(self).line, old(self).row, c),
            final(screen)@ == buffer_after(old(screen)@, old(self).line, old(self).row, c),
            w == (PortWrite8 { port: DEBUG_PORT, value: c }),
    {
        let mut k = crate::core64::screen::Screen { line: self.line, row: self.row };
        k.write_byte(screen, c);
        self.line = k.line;
        self.row = k.row;
        PortWrite8 { port: DEBUG_PORT, value: c }
    }

    /// Fills every cell with a space in the attribute of the first cell; the cursor stays.
    pub fn clear_screen(&mut self, screen: &mut Vec<u16>)
        requires
            old(screen)@.len() == CELLS,
        ensures
            final(self).line == old(self).line,
            final(self).row == old(self).row,
            final(screen)@ == Seq::new(CELLS as nat, |i: int| cell(old(screen)@[0], 32)),
    {
        let fill = (screen[0] & 0xFF00) | 32u16;
        let ghost v = cell(screen@[0], 32);
        let mut i: usize = 0;
        while i < screen.len()
            invariant
                screen@.len() == CELLS,
                i <= CELLS,
                fill == v,
                forall|j: int| 0 <= j < i ==> #[trigger] screen@[j] == v,
            decreases CELLS - i,
        {
            screen.set(i, fill);
            i += 1;
        }
        assert(screen@ =~= Seq::new(CELLS as nat, |i: int| v));
    }

    /// Writes each byte of `s` in turn; returns the debug-port echo of every byte.
    pub fn write_str(&mut self, screen: &mut Vec<u16>, s: &str) -> (echo: Vec<PortWrite8>)
        requires
            cursor_ok(old(self).line, old(self).row),
            old(screen)@.len() == CELLS,
        ensures
            cursor_ok(final(self).line, final(self).row),
            (final(screen)@, final(self).line, final(self).row) == write_all(
                old(screen)@,
                old(self).line,
                old(self).row,
                s.spec_bytes(),
            ),
            echo@ == echoes(s.spec_bytes()),
    {
        let bytes = s.as_bytes();
        let ghost all = write_all(screen@, self.line, self.row, bytes@);
        let mut echo: Vec<PortWrite8> = Vec::new();
        let mut i: usize = 0;
        assert(bytes@.skip(0) =~= bytes@);
        while i < bytes.len()
            invariant
                0 <= i <= bytes@.len(),
                cursor_ok(self.line, self.row),
                screen@.len() == CELLS,
                write_all(screen@, self.line, self.row, bytes@.skip(i as int)) == all,
                echo@ == echoes(bytes@.take(i as int)),
            decreases bytes@.len() - i,
        {
            let ghost rest = bytes@.skip(i as int);
            assert(rest.drop_first() =~= bytes@.skip(i as int + 1));
            let w = self.write_byte(screen, bytes[i]);
            echo.push(w);
            i += 1;
            assert(echo@ =~= echoes(bytes@.take(i as int)));
        }
        assert(bytes@.skip(i as int) =~= Seq::<u8>::empty());
        assert(bytes@.take(i as int) =~= bytes@);
        echo
    }
}

} // verus!
