use core64::core64::loader::{IntepretError, ElfStateError, PtrSubslice, Rel32, RelocSize, Relocation, read_le_u32, reinterpret_rels, reinterpret_u32s};
use core64::core64::symbols::SymbolMap;
use core64::core64::syscall::{api_request, api_return, submit_interface, State};
use core64::dyshared::ports::{io_wait, PortAccess};
use core64::pic::{clock, data_port, enable, enable_begin, get_state, send_eoi, unmask};
use core64::ps2::{with_aux_irq, PS2Port, Ps2Step, Ps2Wait};
use core64::shared::kstd::ManualOnceCell;
use core64::shared::process::Process;
use core64::shared::screen::Screen;
use core64::shared::{Interface, SysCallData, SysCallInternal, Syscall};
use core64::start_process::make_interface;

fn regs() -> SysCallInternal {
    SysCallInternal {
        interrupt: 0x20, edi: 1, esi: 2, ebp: 3, edx: 4, ecx: 5, ebx: 6, esp: 0x9000, eax: 8,
        eip: 0x1234, cs: 0x1b, eflags: 0x202,
    }
}

#[test]
fn rel32_fields() {
    let r = Rel32 { offset: 0x100, info: 0x0000_2a08 };
    assert_eq!(r.get_type(), 8);
    assert_eq!(r.get_symbol(), 0x2a);
    assert!(matches!(r.get_size(), RelocSize::Word32));
    let r = Rel32 { offset: 0, info: 0xffff_ff01 };
    assert_eq!(r.get_type(), 1);
    assert_eq!(r.get_symbol(), 0x00ff_ffff);
}

#[test]
fn relocation_maps_addresses() {
    let rel = Relocation { original_baseaddr: 0x1000, new_baseaddr: 0x40_0000 };
    assert_eq!(rel.relocate_slice(0x1234), 0x234);
    assert_eq!(rel.relocate_ptr(0x1234), 0x40_0234);
}

#[test]
fn subslice_pairs() {
    assert_eq!(PtrSubslice::maybe_from(Some(0x40), Some(8)).ok(), Some(Some(PtrSubslice { start: 0x40, len: 8 })));
    assert_eq!(PtrSubslice::maybe_from(None, None).ok(), Some(None));
    match PtrSubslice::maybe_from(Some(1), None) {
        Err(IntepretError::InvalidElfState(ElfStateError::UnmatchedArray)) => {}
        _ => panic!("unmatched array"),
    }
    let r = PtrSubslice { start: 0x1040, len: 0x10 }.into_range(0x1000);
    assert_eq!((r.start, r.end), (0x40, 0x50));
}

#[test]
fn reinterpret_words() {
    let b = [1u8, 0, 0, 0, 0x78, 0x56, 0x34, 0x12];
    assert_eq!(read_le_u32(&b, 4), 0x1234_5678);
    assert_eq!(reinterpret_u32s(&b).ok(), Some(vec![1, 0x1234_5678]));
    assert!(matches!(reinterpret_u32s(&b[..6]), Err(IntepretError::LayoutError)));
    let rels = reinterpret_rels(&b).ok().unwrap();
    assert_eq!(rels, vec![Rel32 { offset: 1, info: 0x1234_5678 }]);
    assert!(matches!(reinterpret_rels(&b[..4]), Err(IntepretError::LayoutError)));
}

#[test]
fn symbol_map_get_after_insert() {
    let mut m = SymbolMap::new();
    assert!(m.get(b"main").is_none());
    let rel = Relocation { original_baseaddr: 0, new_baseaddr: 0x8000 };
    let sym = core64::core64::elf_file::Sym { st_name: 1, st_shndx: 1, bind: 1, vis: 0, symtype: 2, st_value: 0x40, st_size: 4 };
    m.insert(b"main".to_vec(), sym, rel);
    let other = Relocation { original_baseaddr: 0, new_baseaddr: 0x9000 };
    m.insert(b"aux".to_vec(), sym, other);
    assert_eq!(m.get(b"main"), Some((sym, rel)));
    m.insert(b"main".to_vec(), sym, other);
    assert_eq!(m.get(b"main"), Some((sym, other)));
    assert_eq!(m.get(b"aux"), Some((sym, other)));
}

#[test]
fn state_starts_empty() {
    let s = State::new();
    assert_eq!(s.interrupts.len(), 256);
    assert!(s.interrupts.iter().all(|i| *i == Syscall::Empty));
    assert_eq!(s.handler_for(0x80), Syscall::Empty);
    assert!(s.lookup(*b"sysenter").is_none());
    assert!(s.curr_proc.is_none());
    assert_eq!(Syscall::default(), Syscall::Empty);
}

#[test]
fn submit_then_lookup() {
    let mut s = State::new();
    let i = Interface { ip: 0x40_1000, sp: 0x50_0000, in_use: false };
    submit_interface(&mut s, *b"sysenter", i);
    assert_eq!(s.lookup(*b"sysenter"), Some(i));
    assert!(s.lookup(*b"sysentes").is_none());
    let j = Interface { ip: 0x40_2000, sp: 0x60_0000, in_use: false };
    submit_interface(&mut s, *b"sysenter", j);
    assert_eq!(s.lookup(*b"sysenter"), Some(j));
}

#[test]
fn request_builds_frame_and_return_restores() {
    let mut s = State::new();
    let i = Interface { ip: 0x40_1000, sp: 0x50_0000, in_use: false };
    submit_interface(&mut s, *b"sysenter", i);
    let mut r = regs();
    let f = api_request(&mut s, &mut r, *b"sysenter", 0xdead_0000);
    // The saved frame sits under the stack top; the three words below it, 16-byte aligned.
    assert_eq!(f.saved_at, 0x50_0000 - 48);
    assert_eq!(f.saved, regs());
    assert_eq!(f.regs_slot.addr, 0x4f_ffc8);
    assert_eq!(f.regs_slot.value, 0x50_0000 - 48);
    assert_eq!((f.arg_slot.addr, f.arg_slot.value), (0x4f_ffc4, 0xdead_0000));
    assert_eq!((f.ret_slot.addr, f.ret_slot.value), (0x4f_ffc0, 0));
    assert_eq!(r.esp, 0x4f_ffc0);
    assert_eq!(r.esp % 16, 0);
    assert_eq!(r.eip, 0x40_1000);
    assert_eq!(r.eax, 8);
    assert!(s.lookup(*b"sysenter").unwrap().in_use);
    api_return(&mut s, &mut r, *b"sysenter", f.saved);
    assert_eq!(r, regs());
    assert_eq!(s.lookup(*b"sysenter"), Some(i));
}

#[test]
fn syscall_data_wraps_registers() {
    let mut r = regs();
    {
        let mut d = SysCallData::new(&mut r);
        assert_eq!(d.get(), regs());
        let mut n = d.get();
        n.eax = 99;
        d.set(n);
        assert_eq!(d.get().eax, 99);
    }
    assert_eq!(r.eax, 99);
}

#[test]
fn interface_stack_top() {
    let i = make_interface(0x1000, 0x20_0000);
    assert_eq!(i, Interface { ip: 0x1000, sp: 0x21_0000, in_use: false });
}

#[test]
fn process_stacks() {
    let mut p = Process::new(0x5000, 3, 0x6000, vec![vec![1u8, 2, 3]]);
    assert!(p.stacks.is_none());
    assert_eq!(p.new_stack(), 0);
    assert_eq!(p.new_stack(), 1);
    let (idx, esp) = p.start_frame();
    assert_eq!((idx, esp), (2, 0x4000 - 16));
    let stacks = p.stacks.as_ref().unwrap();
    assert_eq!(stacks.len(), 3);
    assert!(stacks.iter().all(|s| s.len() == 0x4000 && s.iter().all(|b| *b == 0)));
    assert_eq!(p.start, 0x6000);
    assert_eq!(p.owned_data, vec![vec![1u8, 2, 3]]);
}

#[test]
fn once_cell_holds_value() {
    let mut c: ManualOnceCell<u32> = ManualOnceCell::new();
    c.init(7);
    assert_eq!(*c.get(), 7);
    c.init(9);
    assert_eq!(*c.get(), 9);
}

#[test]
fn pic_masks_and_ports() {
    assert_eq!(get_state(0xFB, 0x12), 0x12FB);
    assert_eq!(data_port(3), 0x21);
    assert_eq!(data_port(12), 0xA1);
    assert_eq!(unmask(0xFF, 1), 0xFD);
    assert_eq!(unmask(0xFF, 12), 0xEF);
    let w = enable(12, 0xFF);
    assert_eq!((w.port, w.value), (0xA1, 0xEF));
    let w = io_wait();
    assert_eq!((w.port, w.value), (80, 0));
}

#[test]
fn eoi_order() {
    let w = send_eoi(3);
    assert_eq!(w.iter().map(|x| (x.port, x.value)).collect::<Vec<_>>(), vec![(0x20, 0x20)]);
    let w = send_eoi(9);
    assert_eq!(w.iter().map(|x| (x.port, x.value)).collect::<Vec<_>>(), vec![(0xA0, 0x20), (0x20, 0x20)]);
}

#[test]
fn clock_prints_and_acknowledges() {
    let mut buf = vec![0x0700u16 | b'x' as u16; 2000];
    let mut s = Screen { line: 4, row: 5 };
    let w = clock(&mut s, &mut buf);
    let text: Vec<u8> = w.iter().filter(|x| x.port == 0xe9).map(|x| x.value).collect();
    assert_eq!(text, b"Clock!\n".to_vec());
    let last = w.last().unwrap();
    assert_eq!((last.port, last.value), (0x20, 0x20));
    assert_eq!(w.len(), 8);
    assert_eq!(buf[4 * 80 + 5], 0x0700 | b'C' as u16);
    assert_eq!(buf[0], 0x0700 | b' ' as u16);
    assert_eq!((s.line, s.row), (5, 0));
}

#[test]
fn ps2_write_waits_for_input_buffer() {
    let (mut w, first) = Ps2Wait::ps2_write(PS2Port::DATA, 0xA8);
    assert_eq!(first, Ps2Step::ReadStatus);
    assert_eq!(w.step(0x02), Ps2Step::ReadStatus);
    match w.step(0x00) {
        Ps2Step::Write(p) => assert_eq!((p.port, p.value), (0x60, 0xA8)),
        _ => panic!("the controller is ready"),
    }
}

#[test]
fn ps2_read_gives_up_after_999_polls() {
    let (mut w, _) = Ps2Wait::ps2_read(PS2Port::CMD);
    let mut polls = 0;
    loop {
        polls += 1;
        match w.step(0) {
            Ps2Step::ReadStatus => {}
            Ps2Step::Fail => break,
            _ => panic!("never ready"),
        }
    }
    assert_eq!(polls, 999);
    let (mut r, _) = Ps2Wait::ps2_read(PS2Port::DATA);
    assert_eq!(r.step(1), Ps2Step::Read(0x60));
    assert_eq!(with_aux_irq(0x45), 0x47);
}

#[test]
fn pic_enable_sequence() {
    let ops = enable_begin(3);
    assert_eq!(ops.len(), 2);
    match (ops[0], ops[1]) {
        (PortAccess::Write(w), PortAccess::Read(p)) => {
            assert_eq!((w.port, w.value), (80, 0));
            assert_eq!(p, 0x21);
        }
        _ => panic!("delay, then read of the mask"),
    }
    assert_eq!(enable_begin(9)[1], PortAccess::Read(0xA1));
    let w = enable(3, 0b1010_1101);
    assert_eq!((w.port, w.value), (0x21, 0b1010_0101));
}
