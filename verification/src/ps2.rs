//! The PS/2 controller: waiting on its status register before each data transfer. The port
//! reads and writes are performed by the caller, which feeds each status byte it reads to a
//! waiter and performs the step it returns.
use vstd::prelude::*;
use crate::dyshared::ports::PortWrite8;

verus! {

/// The controller's two ports.
#[derive(Clone, Copy, Debug, PartialEq, Eq, Structural)]
pub enum PS2Port {
    CMD,
    DATA,
}

/// The I/O port number of `port`.
pub open spec fn port_number(port: PS2Port) -> u16 {
    match port {
        PS2Port::CMD => 0x64,
        PS2Port::DATA => 0x60,
    }
}

/// The I/O port number of `port`.
pub fn port_of(port: PS2Port) -> (r: u16)
    ensures
        r == port_number(port),
{
    match port {
        PS2Port::CMD => 0x64,
        PS2Port::DATA => 0x60,
    }
}

/// How many times the status is polled, plus one, before a transfer is given up.
pub const PS2_TRIES: u32 = 1000;

/// The next thing a transfer needs from the caller.
#[derive(Clone, Copy, Debug, PartialEq, Eq, Structural)]
pub enum Ps2Step {
    /// Read the status register and hand the byte back.
    ReadStatus,
    /// The controller is ready for this write; the transfer is then done.
    Write(PortWrite8),
    /// The controller has data: read this port; the transfer is then done.
    Read(u16),
    /// The controller did not become ready in time.
    Fail,
}

/// A transfer waiting on the controller: a write of `data` to `port`, or a read of `port`.
pub struct Ps2Wait {
    pub tries: u32,
    pub port: PS2Port,
    pub data: u8,
    pub is_write: bool,
}

/// The controller's input buffer is free: a write may go.
pub open spec fn write_ready(status: u8) -> bool {
    status & 2 == 0
}

/// The controller's output buffer holds a byte: a read may go.
pub open spec fn read_ready(status: u8) -> bool {
    status & 1 == 1
}

impl Ps2Wait {
    /// Starts a transfer: the first poll uses up one try.
    fn start(port: PS2Port, data: u8, is_write: bool) -> (r: (Ps2Wait, Ps2Step))
        ensures
            r.0 == (Ps2Wait { tries: (PS2_TRIES - 1) as u32, port, data, is_write }),
            r.1 == Ps2Step::ReadStatus,
    {
        (Ps2Wait { tries: PS2_TRIES - 1, port, data, is_write }, Ps2Step::ReadStatus)
    }

    /// A write of `data` to `port`, waiting first for the input buffer to be free.
    pub fn ps2_write(port: PS2Port, data: u8) -> (r: (Ps2Wait, Ps2Step))
        ensures
            r.0 == (Ps2Wait { tries: (PS2_TRIES - 1) as u32, port, data, is_write: true }),
            r.1 == Ps2Step::ReadStatus,
    {
        Ps2Wait::start(port, data, true)
    }

    /// A read of `port`, waiting first for the output buffer to hold a byte.
    pub fn ps2_read(port: PS2Port) -> (r: (Ps2Wait, Ps2Step))
        ensures
            r.0 == (Ps2Wait { tries: (PS2_TRIES - 1) as u32, port, data: 0, is_write: false }),
            r.1 == Ps2Step::ReadStatus,
    {
        Ps2Wait::start(port, 0, false)
    }

    /// Takes the status byte just read: when the controller is ready the transfer goes ahead;
    /// otherwise another try is used up, and when none is left the transfer fails.
    pub fn step(&mut self, status: u8) -> (s: Ps2Step)
        requires
            old(self).tries > 0,
        ensures
            final(self).port == old(self).port,
            final(self).data == old(self).data,
            final(self).is_write == old(self).is_write,
            if old(self).is_write && write_ready(status) {
                &&& s == Ps2Step::Write(PortWrite8 { port: port_number(old(self).port), value: old(self).data })
                &&& final(self).tries == old(self).tries
            } else if !old(self).is_write && read_ready(status) {
                &&& s == Ps2Step::Read(port_number(old(self).port))
                &&& final(self).tries == old(self).tries
            } else {
                &&& final(self).tries == old(self).tries - 1
                &&& s == if final(self).tries == 0 { Ps2Step::Fail } else { Ps2Step::ReadStatus }
            },
    {
        if self.is_write && status & 2 == 0 {
            return Ps2Step::Write(PortWrite8 { port: port_of(self.port), value: self.data });
        }
        if !self.is_write && status & 1 == 1 {
            return Ps2Step::Read(port_of(self.port));
        }
        self.tries = self.tries - 1;
        if self.tries == 0 {
            Ps2Step::Fail
        } else {
            Ps2Step::ReadStatus
        }
    }
}

/// The controller configuration byte with the second port's interrupt enabled.
pub fn with_aux_irq(ccb: u8) -> (r: u8)
    ensures
        r == ccb | 2,
{
    ccb | 2
}

} // verus!
