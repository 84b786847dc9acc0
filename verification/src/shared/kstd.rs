//! Small runtime pieces for a kernel without `std`.
use vstd::prelude::*;

verus! {

/// A cell that is written once, by hand, before it is first read.
pub struct ManualOnceCell<T> {
    inner: Option<T>,
}

impl<T> View for ManualOnceCell<T> {
    type V = Option<T>;

    /// The value, once the cell has been written.
    closed spec fn view(&self) -> Option<T> {
        self.inner
    }
}

impl<T> ManualOnceCell<T> {
    /// A cell not yet written.
    pub fn new() -> (r: Self)
        ensures
            r@ == None::<T>,
    {
        ManualOnceCell { inner: None }
    }

    /// The value written; it must have been written before.
    pub fn get(&self) -> (r: &T)
        requires
            self@ is Some,
        ensures
            *r == self@->Some_0,
    {
        self.inner.as_ref().unwrap()
    }

    /// Writes the value, replacing any earlier one.
    pub fn init(&mut self, val: T)
        ensures
            final(self)@ == Some(val),
    {
        self.inner = Some(val);
    }
}

/// An allocator that refuses every request; it stands where a type needs an allocator that is
/// never used.
#[derive(Clone, Copy, Debug)]
pub struct DummyAllocator;

/// The allocator of user processes: every request goes to the kernel through a system call.
pub struct SimpleAllocator;

/// The interrupt vector of the kernel's allocation service.
pub const ALLOC_SYSCALL: u8 = 0x50;

} // verus!
