//! Loading and linking of 32-bit position-independent shared objects.
//!
//! The loader runs on a 32-bit target, so addresses, sizes and offsets are `u32` here; a loaded
//! image is held as its bytes together with the address it is loaded at.
use vstd::prelude::*;
use crate::core64::elf_file::{
    DynEntry, Sym, SymTab, StrTab, ElfFile, SegmentHeader, SectionInfo, strtab_raw, elf_dynamic,
    elf_header_ok, elf_segments, elf_section_by_name, elf_dynamic_symbol_table,
};
use crate::core64::kalloc::{SimpleAllocator, align_up, lemma_page_size_pow2};
use crate::core64::symbols::SymbolMap;
use elf::ParseError;

verus! {

pub const DT_NULL: i64 = 0;
pub const DT_NEEDED: i64 = 1;
pub const DT_PLTRELSZ: i64 = 2;
pub const DT_PLTGOT: i64 = 3;
pub const DT_STRTAB: i64 = 5;
pub const DT_SYMTAB: i64 = 6;
pub const DT_STRSZ: i64 = 10;
pub const DT_SYMENT: i64 = 11;
pub const DT_INIT: i64 = 12;
pub const DT_FINI: i64 = 13;
pub const DT_SONAME: i64 = 14;
pub const DT_REL: i64 = 17;
pub const DT_RELSZ: i64 = 18;
pub const DT_RELENT: i64 = 19;
pub const DT_PLTREL: i64 = 20;
pub const DT_DEBUG: i64 = 21;
pub const DT_JMPREL: i64 = 23;
pub const DT_INIT_ARRAY: i64 = 25;
pub const DT_FINI_ARRAY: i64 = 26;
pub const DT_INIT_ARRAYSZ: i64 = 27;
pub const DT_FINI_ARRAYSZ: i64 = 28;
pub const DT_FLAGS: i64 = 30;
pub const DT_GNU_HASH: i64 = 0x6ffffef5;
pub const DT_RELCOUNT: i64 = 0x6ffffffa;
pub const DT_FLAGS_1: i64 = 0x6ffffffb;

pub const PT_LOAD: u32 = 1;
pub const PT_DYNAMIC: u32 = 2;
pub const PT_NOTE: u32 = 4;
pub const PT_PHDR: u32 = 6;
pub const PT_GNU_EH_FRAME: u32 = 0x6474e550;
pub const PT_GNU_STACK: u32 = 0x6474e551;
pub const PT_GNU_RELRO: u32 = 0x6474e552;

pub const STB_LOCAL: u8 = 0;
pub const STB_GLOBAL: u8 = 1;
pub const STB_WEAK: u8 = 2;
pub const SHN_UNDEF: u16 = 0;

/// Why an object is in a state the loader cannot handle.
#[derive(Clone, Copy, Debug, PartialEq, Eq, Structural)]
pub enum ElfStateError {
    /// An array was given without its size, or a size without its array.
    UnmatchedArray,
    /// `DT_NEEDED` entries exist but the dynamic string table is not located.
    NeedStrtab,
    /// A symbol has a binding the loader does not know.
    UnknownSymbolVisibility,
    /// A relocation refers to a symbol that no loaded object defines.
    SymbolMissing,
}

/// Why an object is not one the loader is built for.
#[derive(Clone, Copy, Debug, PartialEq, Eq, Structural)]
pub enum MistargetError {
    NoDynamicData,
    NoDynSymbolTable,
}

/// Errors of the loader.
#[derive(Debug)]
pub enum IntepretError {
    /// The `elf` crate could not parse a structure.
    Parse(ParseError),
    InvalidElfState(ElfStateError),
    MistargetedElf(MistargetError),
    /// A byte range is not a whole number of the elements it is read as.
    LayoutError,
    /// A global symbol is defined twice, the first definition not being weak.
    SymbolError,
}

/// An `IntepretError` without the parse error's details.
#[derive(Clone, Copy, Debug, PartialEq, Eq, Structural)]
pub enum ErrModel {
    Parse,
    InvalidElfState(ElfStateError),
    MistargetedElf(MistargetError),
    LayoutError,
    SymbolError,
}

impl View for IntepretError {
    type V = ErrModel;

    open spec fn view(&self) -> ErrModel {
        match self {
            IntepretError::Parse(_) => ErrModel::Parse,
            IntepretError::InvalidElfState(e) => ErrModel::InvalidElfState(*e),
            IntepretError::MistargetedElf(e) => ErrModel::MistargetedElf(*e),
            IntepretError::LayoutError => ErrModel::LayoutError,
            IntepretError::SymbolError => ErrModel::SymbolError,
        }
    }
}

/// An `Elf32_Rel` entry.
#[derive(Clone, Copy, Debug, PartialEq, Eq, Structural)]
pub struct Rel32 {
    pub offset: u32,
    /// Low 8 bits: relocation type; high 24 bits: symbol index.
    pub info: u32,
}

/// Width of the field a relocation patches.
#[derive(Clone, Copy, Debug, PartialEq, Eq, Structural)]
pub enum RelocSize {
    Word8,
    Word16,
    Word32,
}

impl Rel32 {
    pub fn get_type(&self) -> (r: u8)
        ensures
            r == self.info % 256,
    {
        let info = self.info;
        let t = info & 0xFF;
        assert(t == info % 256 && t < 256) by (bit_vector) requires t == info & 0xFF;
        t as u8
    }

    pub fn get_size(&self) -> (r: RelocSize)
        ensures
            r == RelocSize::Word32,
    {
        RelocSize::Word32
    }

    pub fn get_symbol(&self) -> (r: u32)
        ensures
            r == self.info / 256,
    {
        let info = self.info;
        let s = info >> 8;
        assert(s == info / 256) by (bit_vector) requires s == info >> 8;
        s
    }
}

/// The little-endian `u32` at byte `i` of `b`.
pub open spec fn le_u32(b: Seq<u8>, i: int) -> u32 {
    (b[i] + b[i + 1] * 0x100 + b[i + 2] * 0x10000 + b[i + 3] * 0x1000000) as u32
}

/// The bytes of `b` read as consecutive little-endian `u32`s (a trailing partial word dropped).
pub open spec fn decode_u32s(b: Seq<u8>) -> Seq<u32> {
    Seq::new(b.len() / 4, |k: int| le_u32(b, 4 * k))
}

/// The bytes of `b` read as consecutive `Elf32_Rel` entries.
pub open spec fn decode_rels(b: Seq<u8>) -> Seq<Rel32> {
    Seq::new(b.len() / 8, |k: int| Rel32 { offset: le_u32(b, 8 * k), info: le_u32(b, 8 * k + 4) })
}

/// The little-endian bytes of `v`.
pub open spec fn le_bytes(v: u32) -> Seq<u8> {
    seq![(v % 0x100) as u8, ((v / 0x100) % 0x100) as u8, ((v / 0x10000) % 0x100) as u8, (v / 0x1000000) as u8]
}

pub fn read_le_u32(b: &[u8], i: usize) -> (r: u32)
    requires
        i + 4 <= b@.len(),
    ensures
        r == le_u32(b@, i as int),
{
    (b[i] as u32) + (b[i + 1] as u32) * 0x100 + (b[i + 2] as u32) * 0x10000 + (b[i + 3] as u32) * 0x1000000
}

/// Reads a byte range as `u32`s; the range must be a whole number of words.
pub fn reinterpret_u32s(b: &[u8]) -> (r: Result<Vec<u32>, IntepretError>)
    ensures
        b@.len() % 4 != 0 ==> (r matches Err(e) && e@ == ErrModel::LayoutError),
        b@.len() % 4 == 0 ==> (r matches Ok(v) && v@ == decode_u32s(b@)),
{
    if b.len() % 4 != 0 {
        return Err(IntepretError::LayoutError);
    }
    let blen = b.len();
    let n = blen / 4;
    let mut out: Vec<u32> = Vec::new();
    let mut k: usize = 0;
    while k < n
        invariant
            n == b@.len() / 4,
            blen == b@.len(),
            k <= n,
            out@ =~= decode_u32s(b@).take(k as int),
        decreases n - k,
    {
        assert(4 * k + 4 <= b@.len());
        out.push(read_le_u32(b, 4 * k));
        k = k + 1;
    }
    assert(out@ =~= decode_u32s(b@));
    Ok(out)
}

/// Reads a byte range as `Elf32_Rel` entries; the range must be a whole number of entries.
pub fn reinterpret_rels(b: &[u8]) -> (r: Result<Vec<Rel32>, IntepretError>)
    ensures
        b@.len() % 8 != 0 ==> (r matches Err(e) && e@ == ErrModel::LayoutError),
        b@.len() % 8 == 0 ==> (r matches Ok(v) && v@ == decode_rels(b@)),
{
    if b.len() % 8 != 0 {
        return Err(IntepretError::LayoutError);
    }
    let blen = b.len();
    let n = blen / 8;
    let mut out: Vec<Rel32> = Vec::new();
    let mut k: usize = 0;
    while k < n
        invariant
            n == b@.len() / 8,
            blen == b@.len(),
            k <= n,
            out@ =~= decode_rels(b@).take(k as int),
        decreases n - k,
    {
        assert(8 * k + 8 <= b@.len());
        let offset = read_le_u32(b, 8 * k);
        let info = read_le_u32(b, 8 * k + 4);
        out.push(Rel32 { offset, info });
        k = k + 1;
    }
    assert(out@ =~= decode_rels(b@));
    Ok(out)
}

/// A range given by an address in the object's own address space and a length.
#[derive(Clone, Copy, Debug, PartialEq, Eq, Structural)]
pub struct PtrSubslice {
    pub start: u32,
    pub len: u32,
}

/// `maybe_from`: both halves present, neither, or an unmatched pair.
pub open spec fn subslice_of(start: Option<u32>, len: Option<u32>) -> Result<Option<PtrSubslice>, ErrModel> {
    match (start, len) {
        (Some(s), Some(l)) => Ok(Some(PtrSubslice { start: s, len: l })),
        (None, None) => Ok(None),
        _ => Err(ErrModel::InvalidElfState(ElfStateError::UnmatchedArray)),
    }
}

impl PtrSubslice {
    /// The range relative to `elfzero`, the address the containing buffer starts at.
    pub fn into_range(&self, elfzero: u32) -> (r: core::ops::Range<usize>)
        requires
            elfzero <= self.start,
            self.start - elfzero + self.len <= u32::MAX,
        ensures
            r.start == self.start - elfzero,
            r.end == self.start - elfzero + self.len,
    {
        ((self.start - elfzero) as usize)..((self.start - elfzero + self.len) as usize)
    }

    pub fn maybe_from(start: Option<u32>, len: Option<u32>) -> (r: Result<Option<Self>, IntepretError>)
        ensures
            match subslice_of(start, len) {
                Ok(v) => (r matches Ok(w) && w == v),
                Err(e) => (r matches Err(x) && x@ == e),
            },
    {
        if let (Some(start), Some(len)) = (start, len) {
            Ok(Some(PtrSubslice { start: start, len: len }))
        } else if let (None, None) = (start, len) {
            Ok(None)
        } else {
            Err(IntepretError::InvalidElfState(ElfStateError::UnmatchedArray))
        }
    }
}

/// Where an object was linked to run, and where it has been loaded.
#[derive(Clone, Copy, Debug, PartialEq, Eq, Structural)]
pub struct Relocation {
    pub original_baseaddr: u32,
    pub new_baseaddr: u32,
}

/// Offset into the loaded image of the object address `addr`.
pub open spec fn image_offset(rel: Relocation, addr: u32) -> int {
    addr - rel.original_baseaddr
}

/// Address in the loaded image of the object address `addr`.
pub open spec fn relocated(rel: Relocation, addr: u32) -> int {
    rel.new_baseaddr + image_offset(rel, addr)
}

/// A relocated address is the image's address plus the offset into it; the object's base goes
/// to the image's base, and addresses keep their distances.
pub proof fn lemma_relocation(rel: Relocation, addr: u32, k: u32)
    requires
        rel.original_baseaddr <= addr,
        addr + k <= u32::MAX,
    ensures
        relocated(rel, addr) == rel.new_baseaddr + image_offset(rel, addr),
        relocated(rel, rel.original_baseaddr) == rel.new_baseaddr,
        image_offset(rel, rel.original_baseaddr) == 0,
        relocated(rel, (addr + k) as u32) == relocated(rel, addr) + k,
        image_offset(rel, (addr + k) as u32) == image_offset(rel, addr) + k,
{
}

impl Relocation {
    /// Address in the loaded image of the object address `addr`.
    pub fn relocate_ptr(&self, addr: u32) -> (r: u32)
        requires
            self.original_baseaddr <= addr,
            relocated(*self, addr) <= u32::MAX,
        ensures
            r == relocated(*self, addr),
    {
        self.new_baseaddr + (addr - self.original_baseaddr)
    }

    /// Offset into the loaded image of the object address `addr`.
    pub fn relocate_slice(&self, addr: u32) -> (r: u32)
        requires
            self.original_baseaddr <= addr,
        ensures
            r == image_offset(*self, addr),
    {
        addr - self.original_baseaddr
    }
}


} // verus!
