//! x86 I/O ports. The `in`/`out` instructions themselves are performed by the caller; the
//! library decides which byte goes to which port.
use vstd::prelude::*;

verus! {

/// A byte to be written to an I/O port.
#[derive(Clone, Copy, Debug, PartialEq, Eq, Structural)]
pub struct PortWrite8 {
    pub port: u16,
    pub value: u8,
}

/// One access to an I/O port: a write of a byte, or a read of a byte from a port.
#[derive(Clone, Copy, Debug, PartialEq, Eq, Structural)]
pub enum PortAccess {
    Write(PortWrite8),
    Read(u16),
}

/// The port the BIOS uses for POST codes; writing to it takes about a microsecond.
pub const POST_PORT: u16 = 80;

/// A short delay for slow devices: a zero byte written to the POST-code port.
pub fn io_wait() -> (w: PortWrite8)
    ensures
        w == (PortWrite8 { port: 80, value: 0 }),
{
    PortWrite8 { port: POST_PORT, value: 0 }
}

} // verus!
