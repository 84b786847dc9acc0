//! The system-call interface of programs built against the standard library.
use vstd::prelude::*;

verus! {

/// A request to install a handler: the interrupt vector and the handler's address. Laid out
/// packed: the vector byte, then the address in four little-endian bytes.
#[derive(Clone, Copy, Debug, PartialEq, Eq, Structural)]
pub struct NewSysCall {
    pub channel: u8,
    pub ptr: u32,
}

} // verus!
