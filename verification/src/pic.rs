//! The two cascaded 8259 interrupt controllers: reading their masks, unmasking a line and
//! acknowledging an interrupt. The port reads and writes are performed by the caller.
use vstd::prelude::*;
use vstd::string::StringSliceAdditionalSpecFns;
use crate::core64::screen::{cursor_ok, write_all, cell, CELLS};
use crate::dyshared::ports::{PortAccess, PortWrite8, io_wait};
use crate::shared::screen::{echoes, Screen};

verus! {

/// Command port of the first controller.
pub const PIC1_CMD: u16 = 0x20;
/// Data (mask) port of the first controller.
pub const PIC1_DATA: u16 = 0x21;
/// Command port of the second controller.
pub const PIC2_CMD: u16 = 0xA0;
/// Data (mask) port of the second controller.
pub const PIC2_DATA: u16 = 0xA1;
/// The end-of-interrupt command.
pub const PIC_EOI: u8 = 0x20;

/// Both masks in one word: the second controller's in the high byte.
pub fn get_state(pic1: u8, pic2: u8) -> (r: u16)
    ensures
        r == pic2 * 256 + pic1,
{
    let hi: u16 = pic2 as u16;
    let lo: u16 = pic1 as u16;
    assert((hi << 8u16) == hi * 256) by (bit_vector)
        requires hi < 256;
    (hi << 8u16) + lo
}

/// The data port of the controller that serves interrupt line `line`.
pub fn data_port(line: u8) -> (r: u16)
    requires
        line < 16,
    ensures
        r == if line >= 8 { PIC2_DATA } else { PIC1_DATA },
{
    assert((line & 8u8 == 8u8) == (line >= 8)) by (bit_vector)
        requires line < 16;
    if line & 8 == 8 {
        PIC2_DATA
    } else {
        PIC1_DATA
    }
}

/// The mask `curr` with the bit of line `line` cleared (the bit `line % 8`).
pub fn unmask(curr: u8, line: u8) -> (r: u8)
    requires
        line < 16,
    ensures
        r == curr & !(1u8 << (line % 8)),
{
    assert(line & 7u8 == line % 8) by (bit_vector);
    curr & !(1u8 << (line & 7u8))
}

/// The port accesses that enable interrupt line `line` when reading its controller's mask gives
/// `curr`: an I/O delay, the read of the mask, and the write of the mask with only the line's
/// bit cleared.
pub open spec fn enable_accesses(line: u8, curr: u8) -> Seq<PortAccess> {
    let p = if line >= 8 { PIC2_DATA } else { PIC1_DATA };
    seq![
        PortAccess::Write(PortWrite8 { port: 80, value: 0 }),
        PortAccess::Read(p),
        PortAccess::Write(PortWrite8 { port: p, value: curr & !(1u8 << (line % 8)) }),
    ]
}

/// The accesses that start enabling interrupt line `line`, before the mask is known: the I/O
/// delay, then the read of the mask. They are the first two of `enable_accesses`, whatever the
/// read gives.
pub fn enable_begin(line: u8) -> (ops: Vec<PortAccess>)
    requires
        line < 16,
    ensures
        forall|curr: u8| #[trigger] enable_accesses(line, curr).take(2) == ops@,
{
    let mut ops: Vec<PortAccess> = Vec::new();
    ops.push(PortAccess::Write(io_wait()));
    ops.push(PortAccess::Read(data_port(line)));
    assert forall|curr: u8| #[trigger] enable_accesses(line, curr).take(2) == ops@ by {
        assert(enable_accesses(line, curr).take(2) =~= ops@);
    }
    ops
}

/// Finishes enabling interrupt line `line`: given the mask `curr` the read of `enable_begin`
/// gave, the write that clears the line's bit in it and keeps every other bit, the last access
/// of `enable_accesses`.
pub fn enable(line: u8, curr: u8) -> (w: PortWrite8)
    requires
        line < 16,
    ensures
        w == (PortWrite8 { port: if line >= 8 { PIC2_DATA } else { PIC1_DATA }, value: curr & !(1u8 << (line % 8)) }),
        PortAccess::Write(w) == enable_accesses(line, curr)[2],
        forall|b: u8| b < 8 && b != line % 8 ==> (#[trigger] (w.value & (1u8 << b))) == curr & (1u8 << b),
        w.value & (1u8 << (line % 8)) == 0,
{
    let r = unmask(curr, line);
    let k = line % 8;
    assert(forall|b: u8| b < 8 && b != k ==> #[trigger] ((curr & !(1u8 << k)) & (1u8 << b)) == curr & (1u8 << b)) by (bit_vector)
        requires k < 8;
    assert((curr & !(1u8 << k)) & (1u8 << k) == 0) by (bit_vector)
        requires k < 8;
    PortWrite8 { port: data_port(line), value: r }
}

/// The writes that acknowledge interrupt line `line`: the second controller first when the
/// line is its, then the first controller.
pub open spec fn eoi_writes(line: u8) -> Seq<PortWrite8> {
    if line >= 8 {
        seq![PortWrite8 { port: PIC2_CMD, value: PIC_EOI }, PortWrite8 { port: PIC1_CMD, value: PIC_EOI }]
    } else {
        seq![PortWrite8 { port: PIC1_CMD, value: PIC_EOI }]
    }
}

/// Acknowledges interrupt line `line`.
pub fn send_eoi(line: u8) -> (w: Vec<PortWrite8>)
    requires
        line < 16,
    ensures
        w@ == eoi_writes(line),
{
    let mut w: Vec<PortWrite8> = Vec::new();
    if line >= 8 {
        w.push(PortWrite8 { port: PIC2_CMD, value: PIC_EOI });
    }
    w.push(PortWrite8 { port: PIC1_CMD, value: PIC_EOI });
    assert(w@ =~= eoi_writes(line));
    w
}

/// The timer handler: clears the screen, prints `Clock!` on a line of its own and acknowledges
/// line 0. Returns the port writes in order: the debug echo of the text, then the
/// acknowledgement.
pub fn clock(screen: &mut Screen, buf: &mut Vec<u16>) -> (w: Vec<PortWrite8>)
    requires
        cursor_ok(old(screen).line, old(screen).row),
        old(buf)@.len() == CELLS,
    ensures
        ({
            let cleared = Seq::new(CELLS as nat, |i: int| cell(old(buf)@[0], 32));
            (final(buf)@, final(screen).line, final(screen).row) == write_all(
                cleared,
                old(screen).line,
                old(screen).row,
                "Clock!\n".spec_bytes(),
            )
        }),
        w@ == echoes("Clock!\n".spec_bytes()) + eoi_writes(0),
{
    screen.clear_screen(buf);
    let mut w = screen.write_str(buf, "Clock!\n");
    let mut eoi = send_eoi(0);
    w.append(&mut eoi);
    w
}

} // verus!
