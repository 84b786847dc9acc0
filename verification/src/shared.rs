//! What the kernel and the user processes share: the saved register frame of an interrupt,
//! the table of system-call handlers and the interfaces that processes offer each other.
use vstd::prelude::*;

pub mod kstd;
pub mod process;
pub mod screen;

verus! {

/// The registers saved on the kernel stack when an interrupt is taken.
#[derive(Debug, Clone, Copy, PartialEq, Eq, Structural)]
pub struct SysCallInternal {
    /// The interrupt number (a byte, held in 32 bits).
    pub interrupt: u32,
    pub edi: u32,
    pub esi: u32,
    pub ebp: u32,
    pub edx: u32,
    pub ecx: u32,
    pub ebx: u32,
    pub esp: u32,
    pub eax: u32,
    pub eip: u32,
    /// The code segment (16 bits, held in 32).
    pub cs: u32,
    pub eflags: u32,
}

/// A handle on the saved registers of the interrupt being served.
#[derive(Debug)]
pub struct SysCallData<'a> {
    pub inner: &'a mut SysCallInternal,
}

impl<'a> SysCallData<'a> {
    /// The registers this handle gives access to.
    pub open spec fn regs(&self) -> SysCallInternal {
        *self.inner
    }

    /// Wraps the saved registers.
    pub fn new(data: &'a mut SysCallInternal) -> (r: Self)
        ensures
            r.regs() == *old(data),
            *final(data) == *final(r.inner),
    {
        SysCallData { inner: data }
    }

    /// Replaces the saved registers.
    pub fn set(&mut self, regs: SysCallInternal)
        ensures
            final(self).regs() == regs,
    {
        *self.inner = regs;
    }
}

impl<'a> SysCallData<'a> {
    /// A copy of the saved registers.
    pub fn get(&self) -> (r: SysCallInternal)
        ensures
            r == self.regs(),
    {
        *self.inner
    }
}

/// An entry point one process offers others: where to jump and the stack to run on.
#[derive(Clone, Copy, Debug, PartialEq, Eq, Structural)]
pub struct Interface {
    pub ip: usize,
    pub sp: usize,
    /// Set while a request through this interface is being served.
    pub in_use: bool,
}

/// What an interrupt vector does. A request names its handler by address.
#[derive(Clone, Copy, Debug, PartialEq, Eq, Structural)]
pub enum Syscall {
    /// Serve the interrupt by calling the handler at this address.
    Request(usize),
    Empty,
}

impl Default for Syscall {
    fn default() -> (r: Self)
        ensures
            r == Syscall::Empty,
    {
        Syscall::Empty
    }
}

} // verus!
