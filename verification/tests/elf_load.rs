use core64::core64::image::{parse_elf, try_parse_elf};
use core64::core64::kalloc::SimpleAllocator;
use core64::core64::link::{relocate_mod, try_relocate_mod};
use core64::core64::loader::{ElfStateError, IntepretError, MistargetError};
use core64::core64::symbols::SymbolMap;
use core64::core64::modload::{load_mod, try_load_mod};

// A symbol of a test object: name, value, section index (0: undefined), binding.
struct TSym {
    name: &'static str,
    value: u32,
    shndx: u16,
    bind: u8,
}

// What a test object holds.
struct Spec {
    syms: Vec<TSym>,
    needed: Vec<&'static str>,
    // (offset into the data area, type, symbol index)
    rels: Vec<(u32, u32, u32)>,
    // initial words of the 16-byte data area
    data: [u32; 4],
    init: Option<u32>,
    fini: Option<u32>,
    with_got: bool,
    extra_tag: Option<(u32, u32)>,
    with_strtab: bool,
    with_dynamic_segment: bool,
    with_dynsym: bool,
}

fn spec() -> Spec {
    Spec {
        syms: Vec::new(),
        needed: Vec::new(),
        rels: Vec::new(),
        data: [0; 4],
        init: None,
        fini: None,
        with_got: true,
        extra_tag: None,
        with_strtab: true,
        with_dynamic_segment: true,
        with_dynsym: true,
    }
}

fn put16(b: &mut Vec<u8>, v: u16) {
    b.extend_from_slice(&v.to_le_bytes());
}

fn put32(b: &mut Vec<u8>, v: u32) {
    b.extend_from_slice(&v.to_le_bytes());
}

fn pad4(b: &mut Vec<u8>) {
    while b.len() % 4 != 0 {
        b.push(0);
    }
}

// Offsets of the parts of a built object.
struct Layout {
    dynamic: u32,
    got: u32,
    data: u32,
    len: u32,
}

// A little-endian ELF32 shared object linked at address 0, with one load covering the whole file
// (addresses equal file offsets), a dynamic segment, `.dynsym`, `.dynstr`, `.dynamic`,
// `.rel.dyn`, `.got` and a 16-byte data area that relocations patch.
fn build(s: &Spec) -> (Vec<u8>, Layout) {
    let ehdr = 52u32;
    let phnum = 2u32;
    // .dynstr
    let mut dynstr: Vec<u8> = vec![0];
    let mut sym_names = Vec::new();
    for sy in &s.syms {
        sym_names.push(dynstr.len() as u32);
        dynstr.extend_from_slice(sy.name.as_bytes());
        dynstr.push(0);
    }
    let mut needed_offs = Vec::new();
    for n in &s.needed {
        needed_offs.push(dynstr.len() as u32);
        dynstr.extend_from_slice(n.as_bytes());
        dynstr.push(0);
    }
    let dynsym_off = ehdr + phnum * 32;
    let dynsym_len = (s.syms.len() as u32 + 1) * 16;
    let dynstr_off = dynsym_off + dynsym_len;
    let dynstr_len = dynstr.len() as u32;
    let dynamic_off = (dynstr_off + dynstr_len + 3) / 4 * 4;
    // dynamic entries
    let mut dyn_entries: Vec<(u32, u32)> = Vec::new();
    let rel_count = s.rels.len() as u32;
    // filled in below once the offsets are known
    let n_dyn = if s.with_strtab { 2 } else { 0 } + s.needed.len() + if rel_count > 0 { 3 } else { 0 } + s.init.is_some() as usize
        + s.fini.is_some() as usize + s.extra_tag.is_some() as usize + 1;
    let dynamic_len = n_dyn as u32 * 8;
    let rel_off = dynamic_off + dynamic_len;
    let rel_len = rel_count * 8;
    let got_off = rel_off + rel_len;
    let got_len = 8u32;
    let data_off = got_off + got_len;
    let shstr_off = data_off + 16;
    let shstr: &[u8] = b"\0.dynsym\0.dynstr\0.dynamic\0.rel.dyn\0.got\0.shstrtab\0";
    let shdr_off = (shstr_off + shstr.len() as u32 + 3) / 4 * 4;
    let shnum = 7u32;
    let total = shdr_off + shnum * 40;

    if s.with_strtab {
        dyn_entries.push((5, dynstr_off));
        dyn_entries.push((10, dynstr_len));
    }
    for off in &needed_offs {
        dyn_entries.push((1, *off));
    }
    if rel_count > 0 {
        dyn_entries.push((17, rel_off));
        dyn_entries.push((18, rel_len));
        dyn_entries.push((19, 8));
    }
    if let Some(i) = s.init {
        dyn_entries.push((12, i));
    }
    if let Some(f) = s.fini {
        dyn_entries.push((13, f));
    }
    if let Some(t) = s.extra_tag {
        dyn_entries.push(t);
    }
    dyn_entries.push((0, 0));
    assert_eq!(dyn_entries.len(), n_dyn);

    let mut b: Vec<u8> = Vec::new();
    // ELF header
    b.extend_from_slice(&[0x7f, b'E', b'L', b'F', 1, 1, 1, 0]);
    b.extend_from_slice(&[0; 8]);
    put16(&mut b, 3); // ET_DYN
    put16(&mut b, 3); // EM_386
    put32(&mut b, 1);
    put32(&mut b, 0); // entry
    put32(&mut b, ehdr); // phoff
    put32(&mut b, shdr_off);
    put32(&mut b, 0);
    put16(&mut b, 52);
    put16(&mut b, 32);
    put16(&mut b, phnum as u16);
    put16(&mut b, 40);
    put16(&mut b, shnum as u16);
    put16(&mut b, 6); // .shstrtab
    assert_eq!(b.len() as u32, ehdr);
    // program headers: PT_LOAD, PT_DYNAMIC
    for w in [1, 0, 0, 0, total, total, 7, 0x1000] {
        put32(&mut b, w);
    }
    let dyn_type = if s.with_dynamic_segment { 2 } else { 4 };
    for w in [dyn_type, dynamic_off, dynamic_off, dynamic_off, dynamic_len, dynamic_len, 6, 4] {
        put32(&mut b, w);
    }
    // .dynsym
    b.extend_from_slice(&[0; 16]);
    for (i, sy) in s.syms.iter().enumerate() {
        put32(&mut b, sym_names[i]);
        put32(&mut b, sy.value);
        put32(&mut b, 4);
        b.push((sy.bind << 4) | 2);
        b.push(0);
        put16(&mut b, sy.shndx);
    }
    assert_eq!(b.len() as u32, dynstr_off);
    b.extend_from_slice(&dynstr);
    pad4(&mut b);
    assert_eq!(b.len() as u32, dynamic_off);
    for (t, v) in &dyn_entries {
        put32(&mut b, *t);
        put32(&mut b, *v);
    }
    for (off, ty, sym) in &s.rels {
        put32(&mut b, data_off + off);
        put32(&mut b, (sym << 8) | ty);
    }
    assert_eq!(b.len() as u32, got_off);
    put32(&mut b, 0);
    put32(&mut b, 0);
    for w in s.data {
        put32(&mut b, w);
    }
    b.extend_from_slice(shstr);
    pad4(&mut b);
    assert_eq!(b.len() as u32, shdr_off);
    // section headers: name, type, flags, addr, offset, size, link, info, align, entsize
    let sh = |b: &mut Vec<u8>, w: [u32; 10]| {
        for x in w {
            put32(b, x);
        }
    };
    sh(&mut b, [0; 10]);
    let dynsym_type = if s.with_dynsym { 11 } else { 1 };
    sh(&mut b, [1, dynsym_type, 2, dynsym_off, dynsym_off, dynsym_len, 2, 1, 4, 16]);
    sh(&mut b, [9, 3, 2, dynstr_off, dynstr_off, dynstr_len, 0, 0, 1, 0]);
    sh(&mut b, [17, 6, 3, dynamic_off, dynamic_off, dynamic_len, 2, 0, 4, 8]);
    sh(&mut b, [26, 9, 2, rel_off, rel_off, rel_len, 1, 0, 4, 8]);
    if s.with_got {
        sh(&mut b, [35, 1, 3, got_off, got_off, got_len, 0, 0, 4, 4]);
    } else {
        sh(&mut b, [0, 1, 3, got_off, got_off, got_len, 0, 0, 4, 4]);
    }
    sh(&mut b, [40, 3, 0, 0, shstr_off, shstr.len() as u32, 0, 0, 1, 0]);
    assert_eq!(b.len() as u32, total);
    (b, Layout { dynamic: dynamic_off, got: got_off, data: data_off, len: total })
}

fn word(img: &[u8], at: u32) -> u32 {
    let a = at as usize;
    u32::from_le_bytes([img[a], img[a + 1], img[a + 2], img[a + 3]])
}

fn pages(len: u32) -> u32 {
    (len + 0xFFF) / 0x1000 * 0x1000
}

#[test]
fn parse_elf_loads_image_at_page_boundary() {
    let mut s = spec();
    s.syms.push(TSym { name: "main", value: 0x40, shndx: 1, bind: 1 });
    s.data = [0x11, 0x22, 0x33, 0x44];
    let (code, lay) = build(&s);
    let mut a = SimpleAllocator::new(0x10_0001);
    let chunk = match parse_elf(&code, &mut a) {
        Ok(c) => c,
        _ => panic!("object should load"),
    };
    // The image starts on the next page and takes whole pages.
    assert_eq!(chunk.baseaddr.original_baseaddr, 0);
    assert_eq!(chunk.baseaddr.new_baseaddr, 0x10_1000);
    assert_eq!(chunk.allocation.len() as u32, pages(lay.len));
    assert_eq!(a.dataptr, 0x10_1000 + pages(lay.len));
    // The file is copied in (the .got aside), the rest of the pages are zero.
    assert_eq!(&chunk.allocation[..lay.got as usize], &code[..lay.got as usize]);
    assert_eq!(&chunk.allocation[lay.got as usize + 4..lay.len as usize], &code[lay.got as usize + 4..]);
    assert_eq!(word(&chunk.allocation, lay.data + 8), 0x33);
    assert!(chunk.allocation[lay.len as usize..].iter().all(|b| *b == 0));
    // The first .got word points at the loaded .dynamic section.
    assert_eq!(word(&chunk.allocation, lay.got), 0x10_1000 + lay.dynamic);
    assert_eq!(chunk.needed.len(), 0);
    assert_eq!(chunk.init_fns.len(), 0);
}

#[test]
fn parse_elf_collects_init_fini_and_needed() {
    let mut s = spec();
    s.needed.push("libdep.so");
    s.init = Some(0x80);
    s.fini = Some(0x90);
    let (code, _) = build(&s);
    let mut a = SimpleAllocator::new(0);
    let chunk = match parse_elf(&code, &mut a) {
        Ok(c) => c,
        _ => panic!("object should load"),
    };
    assert_eq!(chunk.init_fns, vec![0x80]);
    assert_eq!(chunk.fini_fns, vec![0x90]);
    assert_eq!(chunk.needed, vec![b"libdep.so".to_vec()]);
}

#[test]
fn parse_elf_rejects_bad_magic() {
    let (mut code, _) = build(&spec());
    code[1] = b'X';
    let mut a = SimpleAllocator::new(0x2000);
    match parse_elf(&code, &mut a) {
        Err(IntepretError::Parse(_)) => {}
        _ => panic!("bad magic must be a parse error"),
    }
    // Nothing was allocated.
    assert_eq!(a.dataptr, 0x2000);
}

#[test]
fn parse_elf_stops_without_got() {
    let mut s = spec();
    s.with_got = false;
    let (code, _) = build(&s);
    let mut a = SimpleAllocator::new(0x2000);
    assert!(try_parse_elf(&code, &mut a).is_none());
    assert_eq!(a.dataptr, 0x2000);
}

#[test]
fn parse_elf_stops_on_unknown_dynamic_tag() {
    let mut s = spec();
    s.extra_tag = Some((0x7000_0001, 0));
    let (code, _) = build(&s);
    let mut a = SimpleAllocator::new(0x2000);
    assert!(try_parse_elf(&code, &mut a).is_none());
}

#[test]
fn load_mod_links_dependency_first() {
    // libdep.so defines `helper`; libroot.so needs it, defines `main`, and has two relocations:
    // a relative one on data word 0 and an absolute one against `helper` on data word 1.
    let mut dep = spec();
    dep.syms.push(TSym { name: "helper", value: 0x60, shndx: 1, bind: 1 });
    dep.init = Some(0x10);
    let (dep_code, _) = build(&dep);

    let mut root = spec();
    root.needed.push("libdep.so");
    root.syms.push(TSym { name: "main", value: 0x40, shndx: 1, bind: 1 });
    root.syms.push(TSym { name: "helper", value: 0, shndx: 0, bind: 1 });
    root.rels.push((0, 8, 0));
    root.rels.push((4, 1, 2));
    root.data = [0x24, 4, 0, 0];
    root.init = Some(0x20);
    let (root_code, root_lay) = build(&root);

    let images = vec![
        (b"libroot.so".to_vec(), root_code),
        (b"libdep.so".to_vec(), dep_code),
    ];
    let mut a = SimpleAllocator::new(0x40_0000);
    let m = load_mod("libroot.so", &images, &mut a);
    // The root is loaded first, so it sits at the start of the allocator's memory.
    let root_base = 0x40_0000u32;
    let root_pages = pages(root_lay.len);
    let dep_base = root_base + root_pages;
    // Linked dependency first: its image and init function come first.
    assert_eq!(m.allocations.len(), 2);
    assert_eq!(m.init_fns, vec![0x10, 0x20]);
    let (main_sym, main_rel) = m.symbols.get(b"main").expect("main is defined");
    assert_eq!(main_sym.st_value, 0x40);
    assert_eq!(main_rel.new_baseaddr, root_base);
    assert_eq!(main_rel.relocate_ptr(main_sym.st_value as u32), root_base + 0x40);
    let (helper_sym, helper_rel) = m.symbols.get(b"helper").expect("helper is defined");
    assert_eq!(helper_sym.st_shndx, 1);
    assert_eq!(helper_rel.new_baseaddr, dep_base);
    // The relocations in the root's image.
    let img = &m.allocations[1];
    assert_eq!(word(img, root_lay.data), root_base + 0x24);
    assert_eq!(word(img, root_lay.data + 4), dep_base + 0x60 + 4);
}

#[test]
fn try_load_mod_missing_dependency() {
    let mut root = spec();
    root.needed.push("libnothere.so");
    let (root_code, _) = build(&root);
    let images = vec![(b"libroot.so".to_vec(), root_code)];
    let mut a = SimpleAllocator::new(0x1000);
    assert!(try_load_mod("libroot.so", &images, &mut a).is_none());
}

#[test]
fn try_load_mod_unknown_name() {
    let images: Vec<(Vec<u8>, Vec<u8>)> = Vec::new();
    let mut a = SimpleAllocator::new(0x1000);
    assert!(try_load_mod("libtest_mod.so", &images, &mut a).is_none());
    assert_eq!(a.dataptr, 0x1000);
}

#[test]
fn try_load_mod_undefined_symbol_is_refused() {
    let mut root = spec();
    root.syms.push(TSym { name: "missing", value: 0, shndx: 0, bind: 1 });
    root.rels.push((0, 1, 1));
    let (root_code, _) = build(&root);
    let images = vec![(b"libroot.so".to_vec(), root_code)];
    let mut a = SimpleAllocator::new(0x1000);
    assert!(try_load_mod("libroot.so", &images, &mut a).is_none());
}

fn chunk_err(s: &Spec) -> IntepretError {
    let (code, _) = build(s);
    let mut a = SimpleAllocator::new(0x10000);
    match try_parse_elf(&code, &mut a) {
        Some(Err(e)) => e,
        Some(Ok(_)) => panic!("the object should be refused"),
        None => panic!("the loader should not stop"),
    }
}

#[test]
fn parse_elf_needs_string_table_for_needed() {
    let mut s = spec();
    s.needed.push("libdep.so");
    s.with_strtab = false;
    assert!(matches!(chunk_err(&s), IntepretError::InvalidElfState(ElfStateError::NeedStrtab)));
}

#[test]
fn parse_elf_needs_dynamic_segment() {
    let mut s = spec();
    s.with_dynamic_segment = false;
    assert!(matches!(chunk_err(&s), IntepretError::MistargetedElf(MistargetError::NoDynamicData)));
}

#[test]
fn parse_elf_needs_dynamic_symbols() {
    let mut s = spec();
    s.with_dynsym = false;
    assert!(matches!(chunk_err(&s), IntepretError::MistargetedElf(MistargetError::NoDynSymbolTable)));
}

#[test]
fn relocate_mod_reports_missing_symbol() {
    let mut s = spec();
    s.syms.push(TSym { name: "missing", value: 0, shndx: 0, bind: 1 });
    s.rels.push((0, 1, 1));
    let (code, _) = build(&s);
    let mut a = SimpleAllocator::new(0x10000);
    let mut chunk = match parse_elf(&code, &mut a) {
        Ok(c) => c,
        _ => panic!("object should load"),
    };
    let mut syms = SymbolMap::new();
    match relocate_mod(&mut chunk, &mut syms) {
        Err(IntepretError::InvalidElfState(ElfStateError::SymbolMissing)) => {}
        _ => panic!("the symbol is nowhere defined"),
    }
}

#[test]
fn relocate_mod_refuses_second_global_definition() {
    let mut s = spec();
    s.syms.push(TSym { name: "dup", value: 0x10, shndx: 1, bind: 1 });
    let (code, _) = build(&s);
    let mut a = SimpleAllocator::new(0x10000);
    let mut first = match parse_elf(&code, &mut a) {
        Ok(c) => c,
        _ => panic!("object should load"),
    };
    let mut second = match parse_elf(&code, &mut a) {
        Ok(c) => c,
        _ => panic!("object should load"),
    };
    let mut syms = SymbolMap::new();
    assert!(matches!(relocate_mod(&mut first, &mut syms), Ok(())));
    assert!(syms.get(b"dup").is_some());
    assert!(matches!(relocate_mod(&mut second, &mut syms), Err(IntepretError::SymbolError)));
}

#[test]
fn relocate_mod_global_replaces_weak() {
    let mut weak = spec();
    weak.syms.push(TSym { name: "f", value: 0x10, shndx: 1, bind: 2 });
    let (weak_code, _) = build(&weak);
    let mut strong = spec();
    strong.syms.push(TSym { name: "f", value: 0x20, shndx: 1, bind: 1 });
    let (strong_code, _) = build(&strong);
    let mut a = SimpleAllocator::new(0x10000);
    let mut w = match parse_elf(&weak_code, &mut a) {
        Ok(c) => c,
        _ => panic!("object should load"),
    };
    let mut g = match parse_elf(&strong_code, &mut a) {
        Ok(c) => c,
        _ => panic!("object should load"),
    };
    let mut g2 = match parse_elf(&strong_code, &mut a) {
        Ok(c) => c,
        _ => panic!("object should load"),
    };
    let mut syms = SymbolMap::new();
    assert!(matches!(relocate_mod(&mut w, &mut syms), Ok(())));
    assert_eq!(syms.get(b"f").unwrap().0.st_value, 0x10);
    // The global replaces the weak definition.
    assert!(matches!(relocate_mod(&mut g, &mut syms), Ok(())));
    let (sym, rel) = syms.get(b"f").unwrap();
    assert_eq!(sym.st_value, 0x20);
    assert_eq!(rel, g.baseaddr);
    // A second global definition is refused.
    assert!(matches!(relocate_mod(&mut g2, &mut syms), Err(IntepretError::SymbolError)));
}

#[test]
fn relocate_mod_weak_does_not_replace() {
    let mut strong = spec();
    strong.syms.push(TSym { name: "f", value: 0x20, shndx: 1, bind: 1 });
    let (strong_code, _) = build(&strong);
    let mut weak = spec();
    weak.syms.push(TSym { name: "f", value: 0x10, shndx: 1, bind: 2 });
    let (weak_code, _) = build(&weak);
    let mut a = SimpleAllocator::new(0x10000);
    let mut g = match parse_elf(&strong_code, &mut a) {
        Ok(c) => c,
        _ => panic!("object should load"),
    };
    let mut w = match parse_elf(&weak_code, &mut a) {
        Ok(c) => c,
        _ => panic!("object should load"),
    };
    let mut syms = SymbolMap::new();
    assert!(matches!(relocate_mod(&mut g, &mut syms), Ok(())));
    assert!(matches!(relocate_mod(&mut w, &mut syms), Ok(())));
    assert_eq!(syms.get(b"f").unwrap().0.st_value, 0x20);
}

#[test]
fn relocate_mod_refuses_unknown_binding() {
    let mut s = spec();
    s.syms.push(TSym { name: "odd", value: 0x10, shndx: 1, bind: 10 });
    let (code, _) = build(&s);
    let mut a = SimpleAllocator::new(0x10000);
    let mut chunk = match parse_elf(&code, &mut a) {
        Ok(c) => c,
        _ => panic!("object should load"),
    };
    let mut syms = SymbolMap::new();
    match relocate_mod(&mut chunk, &mut syms) {
        Err(IntepretError::InvalidElfState(ElfStateError::UnknownSymbolVisibility)) => {}
        _ => panic!("binding 10 is not handled"),
    }
}

#[test]
fn try_relocate_mod_stops_on_unknown_relocation_type() {
    let mut s = spec();
    s.rels.push((0, 42, 0));
    let (code, _) = build(&s);
    let mut a = SimpleAllocator::new(0x10000);
    let mut chunk = match parse_elf(&code, &mut a) {
        Ok(c) => c,
        _ => panic!("object should load"),
    };
    let mut syms = SymbolMap::new();
    assert!(try_relocate_mod(&mut chunk, &mut syms).is_none());
}

#[test]
fn load_mod_records_image_addresses() {
    let mut dep = spec();
    dep.syms.push(TSym { name: "helper", value: 0x60, shndx: 1, bind: 1 });
    let (dep_code, dep_lay) = build(&dep);
    let mut root = spec();
    root.needed.push("libdep.so");
    let (root_code, root_lay) = build(&root);
    let images = vec![(b"libroot.so".to_vec(), root_code), (b"libdep.so".to_vec(), dep_code)];
    let mut a = SimpleAllocator::new(0x8000);
    let m = load_mod("libroot.so", &images, &mut a);
    // Linked dependency first; the root was loaded first, so it sits lower.
    assert_eq!(m.bases, vec![0x8000 + pages(root_lay.len), 0x8000]);
    assert_eq!(a.dataptr, 0x8000 + pages(root_lay.len) + pages(dep_lay.len));
}

#[test]
fn ignored_dynamic_tags_change_nothing() {
    let mut plain = spec();
    plain.init = Some(0x30);
    plain.syms.push(TSym { name: "main", value: 0x40, shndx: 1, bind: 1 });
    let (code1, _) = build(&plain);
    let mut extra = spec();
    extra.init = Some(0x30);
    extra.syms.push(TSym { name: "main", value: 0x40, shndx: 1, bind: 1 });
    extra.extra_tag = Some((21, 0x1234));
    let (code2, _) = build(&extra);
    let mut a1 = SimpleAllocator::new(0x10000);
    let mut a2 = SimpleAllocator::new(0x10000);
    let c1 = parse_elf(&code1, &mut a1).ok().unwrap();
    let c2 = parse_elf(&code2, &mut a2).ok().unwrap();
    assert_eq!(c1.init_fns, c2.init_fns);
    assert_eq!(c1.fini_fns, c2.fini_fns);
    assert_eq!(c1.needed, c2.needed);
    assert_eq!(c1.rel_array, c2.rel_array);
}
