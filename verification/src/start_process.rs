//! The first user process: it offers the kernel's entry interface and starts other modules.
use vstd::prelude::*;
use crate::shared::Interface;

verus! {

/// Bytes of the stack an interface runs on: sixteen pages.
pub const INTERFACE_STACK: usize = 0x10000;

/// The interface that enters at `ip` and runs on the stack occupying the `INTERFACE_STACK`
/// bytes from `stack_base`; its stack pointer starts at the top. It starts idle.
pub fn make_interface(ip: usize, stack_base: usize) -> (r: Interface)
    requires
        stack_base + INTERFACE_STACK <= usize::MAX,
    ensures
        r == (Interface { ip, sp: (stack_base + INTERFACE_STACK) as usize, in_use: false }),
{
    Interface { ip, sp: stack_base + INTERFACE_STACK, in_use: false }
}

} // verus!
