//! The kernel's system-call state: the interrupt table, the interfaces processes offer each
//! other by name, and the requests made through them.
use vstd::prelude::*;
use std::collections::BTreeMap;
use crate::shared::{Interface, SysCallInternal, Syscall};
use crate::shared::process::Process;

verus! {

broadcast use vstd::laws_cmp::group_laws_cmp, vstd::std_specs::btree::group_btree_axioms;

/// Entries of the interrupt table.
pub const INTERRUPTS: usize = 256;
/// Bytes of a saved register frame.
pub const FRAME_BYTES: u32 = 48;

/// An interface name, eight bytes read as a little-endian number.
pub open spec fn key_of(name: [u8; 8]) -> u64 {
    (name@[0] as u64) | ((name@[1] as u64) << 8u64) | ((name@[2] as u64) << 16u64) | ((
    name@[3] as u64) << 24u64) | ((name@[4] as u64) << 32u64) | ((name@[5] as u64) << 40u64) | ((
    name@[6] as u64) << 48u64) | ((name@[7] as u64) << 56u64)
}

/// The number of a name: its bytes, first byte lowest.
fn name_key(name: [u8; 8]) -> (k: u64)
    ensures
        k == key_of(name),
{
    (name[0] as u64) | ((name[1] as u64) << 8u64) | ((name[2] as u64) << 16u64) | ((
    name[3] as u64) << 24u64) | ((name[4] as u64) << 32u64) | ((name[5] as u64) << 40u64) | ((
    name[6] as u64) << 48u64) | ((name[7] as u64) << 56u64)
}

/// Two names with one number are the same name.
pub proof fn lemma_key_injective(a: [u8; 8], b: [u8; 8])
    requires
        key_of(a) == key_of(b),
    ensures
        a@ == b@,
{
    let (a0, a1, a2, a3, a4, a5, a6, a7) = (a@[0], a@[1], a@[2], a@[3], a@[4], a@[5], a@[6], a@[7]);
    let (b0, b1, b2, b3, b4, b5, b6, b7) = (b@[0], b@[1], b@[2], b@[3], b@[4], b@[5], b@[6], b@[7]);
    assert(a0 == b0 && a1 == b1 && a2 == b2 && a3 == b3 && a4 == b4 && a5 == b5 && a6 == b6
        && a7 == b7) by (bit_vector)
        requires
            (a0 as u64) | ((a1 as u64) << 8u64) | ((a2 as u64) << 16u64) | ((a3 as u64) << 24u64)
                | ((a4 as u64) << 32u64) | ((a5 as u64) << 40u64) | ((a6 as u64) << 48u64) | ((
            a7 as u64) << 56u64) == (b0 as u64) | ((b1 as u64) << 8u64) | ((b2 as u64) << 16u64)
                | ((b3 as u64) << 24u64) | ((b4 as u64) << 32u64) | ((b5 as u64) << 40u64) | ((
            b6 as u64) << 48u64) | ((b7 as u64) << 56u64),
    ;
    assert(a@ =~= b@);
}

/// A word the kernel stores on the stack of an interface before jumping to it.
#[derive(Clone, Copy, Debug, PartialEq, Eq, Structural)]
pub struct StackWrite {
    pub addr: u32,
    pub value: u32,
}

/// What serving a request writes on the interface's stack: a copy of the caller's registers
/// under the top of the stack, and below it, 16-byte aligned, the pointer to that copy, the
/// argument pointer and a null return address.
#[derive(Clone, Copy, Debug, PartialEq, Eq, Structural)]
pub struct RequestFrame {
    /// Where the copy of the caller's registers goes.
    pub saved_at: u32,
    /// The caller's registers as they were when the request came in.
    pub saved: SysCallInternal,
    pub regs_slot: StackWrite,
    pub arg_slot: StackWrite,
    pub ret_slot: StackWrite,
}

/// Where the pointer to the saved registers goes for a stack whose top is `sp`: three words
/// below the saved frame, rounded down to 16 bytes, then two words up.
pub open spec fn regs_slot_at(sp: int) -> u32 {
    (((sp - 60) as u32 & !0xfu32) + 8) as u32
}

/// The interface offered under `name` in the table `m`, if any.
pub open spec fn offered(m: Map<u64, Interface>, name: [u8; 8]) -> Option<Interface> {
    if m.contains_key(key_of(name)) {
        Some(m[key_of(name)])
    } else {
        None
    }
}

/// The kernel's system-call state.
pub struct State {
    /// What each interrupt vector does.
    pub interrupts: Vec<Syscall>,
    /// The interfaces offered so far, by the number of their name.
    pub syscalls: BTreeMap<u64, Interface>,
    /// The process running now, if any.
    pub curr_proc: Option<Process>,
}

impl State {
    /// The interrupt table has an entry for every vector.
    pub open spec fn wf(&self) -> bool {
        self.interrupts@.len() == INTERRUPTS
    }

    /// The interface offered under `name`, if any.
    pub open spec fn interface_of(&self, name: [u8; 8]) -> Option<Interface> {
        offered(self.syscalls@, name)
    }

    /// No handlers, no interfaces and no running process.
    pub fn new() -> (r: Self)
        ensures
            r.wf(),
            forall|i: int| 0 <= i < INTERRUPTS ==> #[trigger] r.interrupts@[i] == Syscall::Empty,
            r.syscalls@ == Map::<u64, Interface>::empty(),
            r.curr_proc is None,
    {
        let mut interrupts: Vec<Syscall> = Vec::new();
        let mut i: usize = 0;
        while i < INTERRUPTS
            invariant
                i <= INTERRUPTS,
                interrupts@.len() == i,
                forall|j: int| 0 <= j < i ==> #[trigger] interrupts@[j] == Syscall::Empty,
            decreases INTERRUPTS - i,
        {
            interrupts.push(Syscall::Empty);
            i += 1;
        }
        State { interrupts, syscalls: BTreeMap::new(), curr_proc: None }
    }

    /// The interface offered under `name`, if any.
    pub fn lookup(&self, name: [u8; 8]) -> (r: Option<Interface>)
        ensures
            r == self.interface_of(name),
    {
        let k = name_key(name);
        match self.syscalls.get(&k) {
            Some(i) => Some(*i),
            None => None,
        }
    }

    /// What interrupt vector `interrupt` does.
    pub fn handler_for(&self, interrupt: u32) -> (r: Syscall)
        requires
            self.wf(),
            interrupt < INTERRUPTS,
        ensures
            r == self.interrupts@[interrupt as int],
    {
        self.interrupts[interrupt as usize]
    }
}

/// Offers `iface` under `name`, replacing what was offered under it before.
pub fn submit_interface(state: &mut State, name: [u8; 8], iface: Interface)
    ensures
        final(state).syscalls@ == old(state).syscalls@.insert(key_of(name), iface),
        final(state).interrupts == old(state).interrupts,
        final(state).curr_proc == old(state).curr_proc,
{
    let k = name_key(name);
    state.syscalls.insert(k, iface);
}

/// Serves a request through the interface `name` with argument pointer `arg`: marks the
/// interface busy, points the saved registers at its entry with the stack it is to run on, and
/// returns what must be written on that stack. The interface must exist and be idle, and its
/// stack top and entry must be 32-bit addresses with room for the frame.
pub fn api_request(state: &mut State, regs: &mut SysCallInternal, name: [u8; 8], arg: u32) -> (f:
    RequestFrame)
    requires
        old(state).interface_of(name) is Some,
        !old(state).interface_of(name)->Some_0.in_use,
        60 <= old(state).interface_of(name)->Some_0.sp <= u32::MAX,
        old(state).interface_of(name)->Some_0.ip <= u32::MAX,
    ensures
        ({
            let i = old(state).interface_of(name)->Some_0;
            let slot = regs_slot_at(i.sp as int);
            &&& final(state).syscalls@ == old(state).syscalls@.insert(
                key_of(name),
                Interface { in_use: true, ..i },
            )
            &&& f.saved_at == i.sp - FRAME_BYTES
            &&& f.saved == *old(regs)
            &&& f.regs_slot == (StackWrite { addr: slot, value: (i.sp - FRAME_BYTES) as u32 })
            &&& f.arg_slot == (StackWrite { addr: (slot - 4) as u32, value: arg })
            &&& f.ret_slot == (StackWrite { addr: (slot - 8) as u32, value: 0 })
            &&& *final(regs) == (SysCallInternal { esp: (slot - 8) as u32, eip: i.ip as u32, ..*old(regs) })
        }),
        final(state).interrupts == old(state).interrupts,
        final(state).curr_proc == old(state).curr_proc,
{
    let iface = match state.lookup(name) {
        Some(i) => i,
        None => {
            proof {
                assert(false);
            }
            Interface { ip: 0, sp: 60, in_use: false }
        },
    };
    let busy = Interface { in_use: true, ..iface };
    submit_interface(state, name, busy);
    let sp = iface.sp as u32;
    let saved_at = sp - FRAME_BYTES;
    let low = saved_at - 12;
    let aligned = low & !0xfu32;
    assert(aligned <= 0xFFFF_FFF0u32) by (bit_vector)
        requires aligned == low & !0xfu32;
    let slot = aligned + 8;
    let f = RequestFrame {
        saved_at,
        saved: *regs,
        regs_slot: StackWrite { addr: slot, value: saved_at },
        arg_slot: StackWrite { addr: slot - 4, value: arg },
        ret_slot: StackWrite { addr: slot - 8, value: 0 },
    };
    regs.esp = slot - 8;
    regs.eip = iface.ip as u32;
    f
}

/// Ends a request through the interface `name`: marks it idle again and gives the interrupted
/// caller back its registers `saved`. The interface must exist and be busy.
pub fn api_return(state: &mut State, regs: &mut SysCallInternal, name: [u8; 8], saved: SysCallInternal)
    requires
        old(state).interface_of(name) is Some,
        old(state).interface_of(name)->Some_0.in_use,
    ensures
        final(state).syscalls@ == old(state).syscalls@.insert(
            key_of(name),
            Interface { in_use: false, ..old(state).interface_of(name)->Some_0 },
        ),
        *final(regs) == saved,
        final(state).interrupts == old(state).interrupts,
        final(state).curr_proc == old(state).curr_proc,
{
    let iface = match state.lookup(name) {
        Some(i) => i,
        None => {
            proof {
                assert(false);
            }
            Interface { ip: 0, sp: 0, in_use: true }
        },
    };
    submit_interface(state, name, Interface { in_use: false, ..iface });
    *regs = saved;
}

/// After an interface is offered under a name, looking the name up gives it; every other
/// name gives what it gave before.
pub proof fn lemma_submit_then_lookup(m: Map<u64, Interface>, name: [u8; 8], iface: Interface, other: [u8; 8])
    ensures
        offered(m.insert(key_of(name), iface), name) == Some(iface),
        other@ != name@ ==> offered(m.insert(key_of(name), iface), other) == offered(m, other),
{
    if other@ != name@ && key_of(other) == key_of(name) {
        lemma_key_injective(other, name);
    }
}

/// A request followed by its return leaves the interface table as it was: the interface is
/// busy in between and idle again afterwards.
pub proof fn lemma_request_then_return(m: Map<u64, Interface>, name: [u8; 8])
    requires
        offered(m, name) is Some,
        !offered(m, name)->Some_0.in_use,
    ensures
        ({
            let i = offered(m, name)->Some_0;
            let busy = m.insert(key_of(name), Interface { in_use: true, ..i });
            &&& offered(busy, name) is Some
            &&& offered(busy, name)->Some_0.in_use
            &&& busy.insert(key_of(name), Interface { in_use: false, ..offered(busy, name)->Some_0 }) == m
        }),
{
    let i = offered(m, name)->Some_0;
    let busy = m.insert(key_of(name), Interface { in_use: true, ..i });
    assert(busy.insert(key_of(name), Interface { in_use: false, ..offered(busy, name)->Some_0 }) =~= m);
}

/// The stack pointer an interface starts with is 16-byte aligned, and the three words written
/// for a request lie between it and the saved registers.
pub proof fn lemma_request_stack(sp: int)
    requires
        60 <= sp <= u32::MAX,
    ensures
        regs_slot_at(sp) >= 8,
        (regs_slot_at(sp) - 8) % 16 == 0,
        regs_slot_at(sp) + 4 <= sp - FRAME_BYTES,
{
    let low = (sp - 60) as u32;
    assert((low & !0xfu32) % 16 == 0 && (low & !0xfu32) <= low) by (bit_vector);
}

} // verus!
