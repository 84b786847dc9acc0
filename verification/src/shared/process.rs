//! A loaded user process: its global offset table, entry point, memory and stacks.
use vstd::prelude::*;

verus! {

/// Pages in each stack a process is given.
pub const STACK_PAGES: usize = 4;
/// Bytes in each stack a process is given.
pub const STACK_BYTES: usize = 0x4000;
/// Bytes at the top of a fresh stack that hold the empty `argc`, `argv` and `envp`.
pub const START_ARGS: usize = 16;

/// A process: where its global offset table and entry point are, the memory it owns and the
/// stacks made for it so far.
pub struct Process {
    /// Address of the global offset table.
    pub got_ptr: u32,
    /// Entries in the global offset table.
    pub got_len: usize,
    /// Address of the entry point.
    pub start: u32,
    /// The memory chunks the process owns.
    pub owned_data: Vec<Vec<u8>>,
    /// The stacks made for the process, once there is one.
    pub stacks: Option<Vec<Vec<u8>>>,
}

/// The stacks of `stacks`, each by its bytes; none where there is no list yet.
pub open spec fn stacks_view(stacks: Option<Vec<Vec<u8>>>) -> Seq<Seq<u8>> {
    match stacks {
        Some(v) => Seq::new(v@.len(), |i: int| v@[i]@),
        None => Seq::empty(),
    }
}

impl Process {
    /// A process with no stack yet.
    pub fn new(got_ptr: u32, got_len: usize, start: u32, owned_data: Vec<Vec<u8>>) -> (r: Self)
        ensures
            r.got_ptr == got_ptr,
            r.got_len == got_len,
            r.start == start,
            r.owned_data == owned_data,
            r.stacks is None,
    {
        Process { got_ptr, got_len, start, owned_data, stacks: None }
    }

    /// Makes a new stack of `STACK_PAGES` pages for the process and returns its index among the
    /// process's stacks. The list of stacks is made on first use.
    pub fn new_stack(&mut self) -> (idx: usize)
        requires
            stacks_view(old(self).stacks).len() < usize::MAX,
        ensures
            final(self).stacks is Some,
            stacks_view(final(self).stacks) == stacks_view(old(self).stacks).push(
                Seq::new(STACK_BYTES as nat, |i: int| 0u8),
            ),
            idx == stacks_view(old(self).stacks).len(),
            final(self).got_ptr == old(self).got_ptr,
            final(self).got_len == old(self).got_len,
            final(self).start == old(self).start,
            final(self).owned_data == old(self).owned_data,
    {
        let ghost before = stacks_view(self.stacks);
        let mut stacks = match self.stacks.take() {
            Some(v) => v,
            None => Vec::new(),
        };
        assert(Seq::new(stacks@.len(), |i: int| stacks@[i]@) =~= before);
        let mut data: Vec<u8> = Vec::new();
        let mut i: usize = 0;
        while i < STACK_BYTES
            invariant
                i <= STACK_BYTES,
                data@ == Seq::new(i as nat, |j: int| 0u8),
            decreases STACK_BYTES - i,
        {
            data.push(0);
            i += 1;
            assert(data@ =~= Seq::new(i as nat, |j: int| 0u8));
        }
        let idx = stacks.len();
        stacks.push(data);
        self.stacks = Some(stacks);
        assert(stacks_view(self.stacks) =~= before.push(Seq::new(STACK_BYTES as nat, |i: int| 0u8)));
        idx
    }

    /// Prepares a call of the process's entry point: makes a new stack, zeroes its top
    /// `START_ARGS` bytes (the empty argument counts and lists) and returns the stack's index and
    /// the offset in it at which the stack pointer starts.
    pub fn start_frame(&mut self) -> (r: (usize, usize))
        requires
            stacks_view(old(self).stacks).len() < usize::MAX,
        ensures
            r.0 == stacks_view(old(self).stacks).len(),
            r.1 == STACK_BYTES - START_ARGS,
            stacks_view(final(self).stacks) == stacks_view(old(self).stacks).push(
                Seq::new(STACK_BYTES as nat, |i: int| 0u8),
            ),
            final(self).start == old(self).start,
    {
        let idx = self.new_stack();
        let ghost mid = stacks_view(self.stacks);
        let mut stacks = self.stacks.take().unwrap();
        assert(stacks@.len() == mid.len() && mid.len() > 0);
        assert(stacks@.last()@ == mid.last());
        let mut top = stacks.pop().unwrap();
        let size = top.len();
        let mut i: usize = size - START_ARGS;
        while i < size
            invariant
                size == STACK_BYTES,
                size - START_ARGS <= i <= size,
                top@ == Seq::new(STACK_BYTES as nat, |j: int| 0u8),
            decreases size - i,
        {
            top.set(i, 0);
            i += 1;
            assert(top@ =~= Seq::new(STACK_BYTES as nat, |j: int| 0u8));
        }
        stacks.push(top);
        self.stacks = Some(stacks);
        assert(stacks_view(self.stacks) =~= mid);
        (idx, size - START_ARGS)
    }
}

} // verus!
