use vstd::prelude::*;
use crate::core64::elf_file::{Sym, SymTab, StrTab, strtab_raw};
use crate::core64::loader::{
    RelocSize, STB_LOCAL, STB_GLOBAL, STB_WEAK, SHN_UNDEF, ElfStateError, IntepretError, ErrModel, Rel32, Relocation, le_u32,
};
use crate::core64::image::{SOChunk, ChunkModel, write_le};
use crate::core64::loader::read_le_u32;
use crate::core64::symbols::SymbolMap;

verus! {

/// The name at `off` of a string table, when it can be read.
pub open spec fn name_at(strtab: Seq<u8>, off: u32) -> Option<Seq<u8>> {
    match strtab_raw(strtab, off as int) {
        Some(raw) => if vstd::utf8::valid_utf8(raw) { Some(raw) } else { None },
        None => None,
    }
}

/// One symbol of an object being linked: a defined global replaces an earlier definition bound
/// weak (an earlier definition with any other binding makes it an error), a defined weak symbol is kept only where nothing is defined yet;
/// undefined and local symbols are passed over.
#[verifier::opaque]
pub open spec fn sym_step(strtab: Seq<u8>, base: Relocation, m: Map<Seq<u8>, (Sym, Relocation)>, s: Sym)
    -> Result<Map<Seq<u8>, (Sym, Relocation)>, ErrModel>
{
    match name_at(strtab, s.st_name) {
        None => Err(ErrModel::Parse),
        Some(name) => if s.st_shndx == SHN_UNDEF || s.bind == STB_LOCAL {
            Ok(m)
        } else if s.bind == STB_GLOBAL {
            if m.contains_key(name) && m[name].0.bind != STB_WEAK {
                Err(ErrModel::SymbolError)
            } else {
                Ok(m.insert(name, (s, base)))
            }
        } else if s.bind == STB_WEAK {
            if m.contains_key(name) { Ok(m) } else { Ok(m.insert(name, (s, base))) }
        } else {
            Err(ErrModel::InvalidElfState(ElfStateError::UnknownSymbolVisibility))
        },
    }
}

/// The symbol map after the symbols of an object, in order, and the error that stopped it.
pub open spec fn bind_syms(strtab: Seq<u8>, base: Relocation, m: Map<Seq<u8>, (Sym, Relocation)>, syms: Seq<Sym>)
    -> (Map<Seq<u8>, (Sym, Relocation)>, Option<ErrModel>)
    decreases syms.len(),
{
    if syms.len() == 0 {
        (m, None)
    } else {
        let (m1, e1) = bind_syms(strtab, base, m, syms.drop_last());
        if e1 is Some {
            (m1, e1)
        } else {
            match sym_step(strtab, base, m1, syms.last()) {
                Ok(m2) => (m2, None),
                Err(e) => (m1, Some(e)),
            }
        }
    }
}

/// The address a symbol has once its object is loaded; `None` where it is out of range.
pub open spec fn symbol_address(val: (Sym, Relocation)) -> Option<u32> {
    let sv = val.0.st_value as u32;
    if sv < val.1.original_baseaddr || val.1.new_baseaddr + (sv - val.1.original_baseaddr) > u32::MAX {
        None
    } else {
        Some((val.1.new_baseaddr + (sv - val.1.original_baseaddr)) as u32)
    }
}

/// The value one relocation stores, with `addend` the word already in place: `None` where the
/// loader stops (an unknown type, an address out of range), `Err` where the symbol cannot be
/// read or is undefined and not weak.
pub open spec fn reloc_value(syms: Seq<Sym>, strtab: Seq<u8>, base: Relocation, m: Map<Seq<u8>, (Sym, Relocation)>, r: Rel32, addend: u32)
    -> Option<Result<u32, ErrModel>>
{
    let t = r.info % 256;
    let idx = r.info / 256;
    if t == 1 || t == 6 || t == 7 {
        if idx >= syms.len() {
            Some(Err(ErrModel::Parse))
        } else {
            let s = syms[idx as int];
            match name_at(strtab, s.st_name) {
                None => Some(Err(ErrModel::Parse)),
                Some(name) => {
                    let val = if m.contains_key(name) { m[name] } else { (s, base) };
                    if val.0.st_shndx == SHN_UNDEF && val.0.bind != STB_WEAK {
                        Some(Err(ErrModel::InvalidElfState(ElfStateError::SymbolMissing)))
                    } else {
                        match symbol_address(val) {
                            None => None,
                            Some(p) => if t == 1 {
                                if p + addend > u32::MAX { None } else { Some(Ok((p + addend) as u32)) }
                            } else {
                                Some(Ok(p))
                            },
                        }
                    }
                },
            }
        }
    } else if t == 8 {
        if base.new_baseaddr < base.original_baseaddr || base.new_baseaddr - base.original_baseaddr + addend > u32::MAX {
            None
        } else {
            Some(Ok((base.new_baseaddr - base.original_baseaddr + addend) as u32))
        }
    } else {
        None
    }
}

/// One relocation applied to the image.
pub open spec fn rel_step(syms: Seq<Sym>, strtab: Seq<u8>, base: Relocation, m: Map<Seq<u8>, (Sym, Relocation)>, img: Seq<u8>, r: Rel32)
    -> Option<Result<Seq<u8>, ErrModel>>
{
    if r.offset < base.original_baseaddr || r.offset - base.original_baseaddr + 4 > img.len() {
        None
    } else {
        let ptr = r.offset - base.original_baseaddr;
        match reloc_value(syms, strtab, base, m, r, le_u32(img, ptr)) {
            None => None,
            Some(Err(e)) => Some(Err(e)),
            Some(Ok(v)) => Some(Ok(write_le(img, ptr, v))),
        }
    }
}

/// The image after the relocations, in order, and the error that stopped them; `None` where the
/// loader stops.
pub open spec fn apply_rels(syms: Seq<Sym>, strtab: Seq<u8>, base: Relocation, m: Map<Seq<u8>, (Sym, Relocation)>, img: Seq<u8>, rels: Seq<Rel32>)
    -> Option<(Seq<u8>, Option<ErrModel>)>
    decreases rels.len(),
{
    if rels.len() == 0 {
        Some((img, None))
    } else {
        match apply_rels(syms, strtab, base, m, img, rels.drop_last()) {
            None => None,
            Some((i1, Some(e))) => Some((i1, Some(e))),
            Some((i1, None)) => match rel_step(syms, strtab, base, m, i1, rels.last()) {
                None => None,
                Some(Err(e)) => Some((i1, Some(e))),
                Some(Ok(i2)) => Some((i2, None)),
            },
        }
    }
}

proof fn lemma_bind_prefix_err(strtab: Seq<u8>, base: Relocation, m: Map<Seq<u8>, (Sym, Relocation)>, syms: Seq<Sym>, j: int)
    requires
        0 <= j <= syms.len(),
        bind_syms(strtab, base, m, syms.take(j)).1 is Some,
    ensures
        bind_syms(strtab, base, m, syms) == bind_syms(strtab, base, m, syms.take(j)),
    decreases syms.len() - j,
{
    if j == syms.len() {
        assert(syms.take(j) =~= syms);
    } else {
        assert(syms.drop_last().take(j) =~= syms.take(j));
        lemma_bind_prefix_err(strtab, base, m, syms.drop_last(), j);
    }
}

proof fn lemma_rels_prefix_stop(syms: Seq<Sym>, strtab: Seq<u8>, base: Relocation, m: Map<Seq<u8>, (Sym, Relocation)>, img: Seq<u8>, rels: Seq<Rel32>, j: int)
    requires
        0 <= j <= rels.len(),
        !(apply_rels(syms, strtab, base, m, img, rels.take(j)) matches Some((_, None))),
    ensures
        apply_rels(syms, strtab, base, m, img, rels) == apply_rels(syms, strtab, base, m, img, rels.take(j)),
    decreases rels.len() - j,
{
    if j == rels.len() {
        assert(rels.take(j) =~= rels);
    } else {
        assert(rels.drop_last().take(j) =~= rels.take(j));
        lemma_rels_prefix_stop(syms, strtab, base, m, img, rels.drop_last(), j);
    }
}

/// Adds one symbol of `chunk` to `symbols`; see `sym_step`.
fn bind_one(chunk: &SOChunk, symbols: &mut SymbolMap, symbol: Sym) -> (r: Result<(), IntepretError>)
    requires
        old(symbols).wf(),
    ensures
        final(symbols).wf(),
        match sym_step(chunk.dynstrtab.bytes(), chunk.baseaddr, old(symbols)@, symbol) {
            Ok(m) => r is Ok && final(symbols)@ == m,
            Err(e) => (r matches Err(x) && x@ == e) && final(symbols)@ == old(symbols)@,
        },
{
    proof { reveal(sym_step); }
    let name = match chunk.dynstrtab.get(symbol.st_name as usize) {
        Ok(n) => n,
        Err(e) => { return Err(IntepretError::Parse(e)); },
    };
    let curr = symbols.get(name.as_slice());
    if symbol.st_shndx == SHN_UNDEF || symbol.bind == STB_LOCAL {
        Ok(())
    } else if symbol.bind == STB_GLOBAL {
        if let Some(prev) = curr {
            if prev.0.bind != STB_WEAK {
                return Err(IntepretError::SymbolError);
            }
        }
        symbols.insert(name, symbol, chunk.baseaddr);
        Ok(())
    } else if symbol.bind == STB_WEAK {
        if curr.is_none() {
            symbols.insert(name, symbol, chunk.baseaddr);
        }
        Ok(())
    } else {
        Err(IntepretError::InvalidElfState(ElfStateError::UnknownSymbolVisibility))
    }
}

/// Adds the symbols of `chunk` to `symbols`.
fn bind_symbols(chunk: &SOChunk, symbols: &mut SymbolMap) -> (r: Result<(), IntepretError>)
    requires
        old(symbols).wf(),
    ensures
        final(symbols).wf(),
        ({
            let (m, e) = bind_syms(chunk.dynstrtab.bytes(), chunk.baseaddr, old(symbols)@, chunk.dynsymtab.syms());
            &&& final(symbols)@ == m
            &&& match e {
                None => r is Ok,
                Some(e) => (r matches Err(x) && x@ == e),
            }
        }),
{
    let syms = chunk.dynsymtab.to_vec();
    let ghost m0 = symbols@;
    let ghost strtab = chunk.dynstrtab.bytes();
    let ghost base = chunk.baseaddr;
    let mut i: usize = 0;
    assert(syms@.take(0) =~= seq![]);
    while i < syms.len()
        invariant
            symbols.wf(),
            i <= syms@.len(),
            strtab == chunk.dynstrtab.bytes(),
            base == chunk.baseaddr,
            syms@ == chunk.dynsymtab.syms(),
            m0 == old(symbols)@,
            bind_syms(strtab, base, m0, syms@.take(i as int)) == (symbols@, None::<ErrModel>),
        decreases syms@.len() - i,
    {
        proof {
            assert(syms@.take(i as int + 1).drop_last() =~= syms@.take(i as int));
            assert(syms@.take(i as int + 1).last() == syms@[i as int]);
        }
        let ghost before = symbols@;
        match bind_one(chunk, symbols, syms[i]) {
            Ok(()) => {},
            Err(e) => {
                proof {
                    assert(bind_syms(strtab, base, m0, syms@.take(i as int + 1)) == (before, Some(e@)));
                    lemma_bind_prefix_err(strtab, base, m0, syms@, i as int + 1);
                }
                return Err(e);
            },
        }
        i = i + 1;
    }
    assert(syms@.take(syms@.len() as int) =~= syms@);
    Ok(())
}

/// The value one relocation stores; see `reloc_value`.
fn relocation_value(symtab: &SymTab, strtab: &StrTab, baseaddr: Relocation, symbols: &SymbolMap, reloc: &Rel32, addend: u32)
    -> (r: Option<Result<u32, IntepretError>>)
    requires
        symbols.wf(),
    ensures
        match reloc_value(symtab.syms(), strtab.bytes(), baseaddr, symbols@, *reloc, addend) {
            None => r is None,
            Some(Err(e)) => (r matches Some(Err(x)) && x@ == e),
            Some(Ok(v)) => (r matches Some(Ok(w)) && w == v),
        },
{
    let t = reloc.get_type();
    if t == 1 || t == 6 || t == 7 {
        let s = match symtab.get(reloc.get_symbol() as usize) {
            Ok(s) => s,
            Err(e) => { return Some(Err(IntepretError::Parse(e))); },
        };
        let name = match strtab.get(s.st_name as usize) {
            Ok(n) => n,
            Err(e) => { return Some(Err(IntepretError::Parse(e))); },
        };
        let val = match symbols.get(name.as_slice()) {
            Some(v) => v,
            None => (s, baseaddr),
        };
        if val.0.st_shndx == SHN_UNDEF && val.0.bind != STB_WEAK {
            return Some(Err(IntepretError::InvalidElfState(ElfStateError::SymbolMissing)));
        }
        let sv = val.0.st_value as u32;
        if sv < val.1.original_baseaddr || val.1.new_baseaddr as u64 + (sv - val.1.original_baseaddr) as u64 > u32::MAX as u64 {
            return None;
        }
        let p = val.1.relocate_ptr(sv);
        if t == 1 {
            if p as u64 + addend as u64 > u32::MAX as u64 {
                return None;
            }
            Some(Ok(p + addend))
        } else {
            Some(Ok(p))
        }
    } else if t == 8 {
        let base = baseaddr;
        if base.new_baseaddr < base.original_baseaddr
            || (base.new_baseaddr - base.original_baseaddr) as u64 + addend as u64 > u32::MAX as u64 {
            return None;
        }
        Some(Ok(base.new_baseaddr - base.original_baseaddr + addend))
    } else {
        None
    }
}


/// Writes `v` little-endian at `at`.
fn write_u32_at(img: &mut Vec<u8>, at: usize, v: u32)
    requires
        at + 4 <= old(img)@.len(),
    ensures
        final(img)@ == write_le(old(img)@, at as int, v),
{
    let ghost orig = img@;
    let n = img.len();
    assert(at + 4 <= n);
    img.set(at, (v % 0x100) as u8);
    img.set(at + 1, ((v / 0x100) % 0x100) as u8);
    img.set(at + 2, ((v / 0x10000) % 0x100) as u8);
    img.set(at + 3, (v / 0x1000000) as u8);
    assert(img@ =~= write_le(orig, at as int, v));
}

/// Applies one relocation to `img`; see `rel_step`.
fn apply_one(symtab: &SymTab, strtab: &StrTab, baseaddr: Relocation, symbols: &SymbolMap, img: &mut Vec<u8>, reloc: Rel32)
    -> (r: Option<Result<(), IntepretError>>)
    requires
        symbols.wf(),
    ensures
        match rel_step(symtab.syms(), strtab.bytes(), baseaddr, symbols@, old(img)@, reloc) {
            None => r is None,
            Some(Err(e)) => (r matches Some(Err(x)) && x@ == e) && final(img)@ == old(img)@,
            Some(Ok(i2)) => r == Some(Ok::<(), IntepretError>(())) && final(img)@ == i2,
        },
{
    if reloc.offset < baseaddr.original_baseaddr || (reloc.offset - baseaddr.original_baseaddr) as u64 + 4 > img.len() as u64 {
        return None;
    }
    let ptr = baseaddr.relocate_slice(reloc.offset);
    let addend = read_le_u32(img.as_slice(), ptr as usize);
    match reloc.get_size() {
        RelocSize::Word32 => {
            let result = match relocation_value(symtab, strtab, baseaddr, symbols, &reloc, addend) {
                None => { return None; },
                Some(Err(e)) => { return Some(Err(e)); },
                Some(Ok(v)) => v,
            };
            write_u32_at(img, ptr as usize, result);
            Some(Ok(()))
        },
        _ => None,
    }
}

proof fn lemma_apply_rels_step(syms: Seq<Sym>, strtab: Seq<u8>, base: Relocation, m: Map<Seq<u8>, (Sym, Relocation)>, img: Seq<u8>, rels: Seq<Rel32>, j: int)
    requires
        0 <= j < rels.len(),
    ensures
        rels.take(j + 1).drop_last() == rels.take(j),
        rels.take(j + 1).last() == rels[j],
{
    assert(rels.take(j + 1).drop_last() =~= rels.take(j));
}

/// Links one loaded object; see `relocate_mod`. `None` where the loader stops with a panic: a
/// relocation of an unknown type, or one whose place or value lies outside the address space.
pub fn try_relocate_mod(chunk: &mut SOChunk, symbols: &mut SymbolMap) -> (r: Option<Result<(), IntepretError>>)
    requires
        old(symbols).wf(),
    ensures
        final(symbols).wf(),
        ({
            let c = old(chunk)@;
            let (m, e) = bind_syms(c.strtab, c.baseaddr, old(symbols)@, c.syms);
            &&& final(symbols)@ == m
            &&& exists|img: Seq<u8>| final(chunk)@ == (ChunkModel { image: img, ..c })
            &&& match e {
                Some(e) => (r matches Some(Err(x)) && x@ == e) && final(chunk)@.image == c.image,
                None => match apply_rels(c.syms, c.strtab, c.baseaddr, m, c.image, c.rel_array + c.jmprel_array) {
                    None => r is None,
                    Some((img, None)) => r == Some(Ok::<(), IntepretError>(())) && final(chunk)@.image == img,
                    Some((img, Some(e))) => (r matches Some(Err(x)) && x@ == e) && final(chunk)@.image == img,
                },
            }
        }),
{
    let ghost c = chunk@;
    match bind_symbols(chunk, symbols) {
        Ok(()) => {},
        Err(e) => {
            assert(chunk@ == (ChunkModel { image: c.image, ..c }));
            return Some(Err(e));
        },
    }
    let ghost m = symbols@;
    let ghost rels = c.rel_array + c.jmprel_array;
    let nrel = chunk.rel_array.len();
    let njmp = chunk.jmprel_array.len();
    let mut j: usize = 0;
    let mut k: usize = 0;
    assert(rels.take(0) =~= seq![]);
    while j < nrel || k < njmp
        invariant
            symbols.wf(),
            symbols@ == m,
            c == old(chunk)@,
            bind_syms(c.strtab, c.baseaddr, old(symbols)@, c.syms) == (m, None::<ErrModel>),
            nrel == c.rel_array.len(),
            njmp == c.jmprel_array.len(),
            rels == c.rel_array + c.jmprel_array,
            j <= nrel,
            k <= njmp,
            k > 0 ==> j == nrel,
            chunk@ == (ChunkModel { image: chunk@.image, ..c }),
            apply_rels(c.syms, c.strtab, c.baseaddr, m, c.image, rels.take(j + k)) == Some((chunk@.image, None::<ErrModel>)),
        decreases nrel + njmp - j - k,
    {
        let ghost pos = j + k;
        proof { lemma_apply_rels_step(c.syms, c.strtab, c.baseaddr, m, c.image, rels, pos); }
        let reloc = if j < nrel { chunk.rel_array[j] } else { chunk.jmprel_array[k] };
        assert(reloc == rels[pos]);
        match apply_one(&chunk.dynsymtab, &chunk.dynstrtab, chunk.baseaddr, symbols, &mut chunk.allocation, reloc) {
            None => {
                proof { lemma_rels_prefix_stop(c.syms, c.strtab, c.baseaddr, m, c.image, rels, pos + 1); }
                assert(chunk@ == (ChunkModel { image: chunk@.image, ..c }));
                return None;
            },
            Some(Err(e)) => {
                proof { lemma_rels_prefix_stop(c.syms, c.strtab, c.baseaddr, m, c.image, rels, pos + 1); }
                assert(chunk@ == (ChunkModel { image: chunk@.image, ..c }));
                return Some(Err(e));
            },
            Some(Ok(())) => {},
        }
        if j < nrel {
            j = j + 1;
        } else {
            k = k + 1;
        }
    }
    assert(rels.take(j + k) =~= rels);
    assert(chunk@ == (ChunkModel { image: chunk@.image, ..c }));
    Some(Ok(()))
}

/// Whether linking `c` against the symbols `m` goes through without a stop: the symbols bind
/// with an error, or the relocations apply to the end or to an error.
pub open spec fn link_goes_through(c: ChunkModel, m: Map<Seq<u8>, (Sym, Relocation)>) -> bool {
    let (m2, e) = bind_syms(c.strtab, c.baseaddr, m, c.syms);
    e is Some || apply_rels(c.syms, c.strtab, c.baseaddr, m2, c.image, c.rel_array + c.jmprel_array) is Some
}

/// Links one loaded object: adds its symbols to `symbols`, then applies its relocations (those
/// of `DT_REL`, then those of `DT_JMPREL`) to its image. Every relocation must be of a type the
/// loader handles (`R_386_32`, `GLOB_DAT`, `JUMP_SLOT`, `RELATIVE`) with its place and value
/// inside the address space.
pub fn relocate_mod(chunk: &mut SOChunk, symbols: &mut SymbolMap) -> (r: Result<(), IntepretError>)
    requires
        old(symbols).wf(),
        link_goes_through(old(chunk)@, old(symbols)@),
    ensures
        final(symbols).wf(),
        ({
            let c = old(chunk)@;
            let (m, e) = bind_syms(c.strtab, c.baseaddr, old(symbols)@, c.syms);
            &&& final(symbols)@ == m
            &&& exists|img: Seq<u8>| final(chunk)@ == (ChunkModel { image: img, ..c })
            &&& match e {
                Some(e) => (r matches Err(x) && x@ == e) && final(chunk)@.image == c.image,
                None => match apply_rels(c.syms, c.strtab, c.baseaddr, m, c.image, c.rel_array + c.jmprel_array) {
                    Some((img, None)) => r is Ok && final(chunk)@.image == img,
                    Some((img, Some(e))) => (r matches Err(x) && x@ == e) && final(chunk)@.image == img,
                    None => false,
                },
            }
        }),
{
    match try_relocate_mod(chunk, symbols) {
        Some(r) => r,
        None => {
            proof {
                assert(false);
            }
            Err(IntepretError::LayoutError)
        },
    }
}

/// The definition a relocation against symbol `idx` resolves to: the one already bound under
/// its name, else the object's own entry.
pub open spec fn resolved(syms: Seq<Sym>, strtab: Seq<u8>, base: Relocation, m: Map<Seq<u8>, (Sym, Relocation)>, idx: u32)
    -> (Sym, Relocation)
{
    let s = syms[idx as int];
    let name = name_at(strtab, s.st_name)->0;
    if m.contains_key(name) { m[name] } else { (s, base) }
}

/// A `GLOB_DAT` or `JUMP_SLOT` relocation stores the address where the resolved symbol is
/// loaded (its value moved from where its object was linked to where it was loaded), whatever
/// word was in place before; a `R_386_32` relocation stores that address plus the word in place;
/// a `RELATIVE` relocation stores the word in place moved by the object's load offset.
pub proof fn lemma_relocation_values(
    syms: Seq<Sym>,
    strtab: Seq<u8>,
    base: Relocation,
    m: Map<Seq<u8>, (Sym, Relocation)>,
    r: Rel32,
    addend: u32,
    other: u32,
)
    ensures
        (r.info % 256 == 6 || r.info % 256 == 7) ==> reloc_value(syms, strtab, base, m, r, addend)
            == reloc_value(syms, strtab, base, m, r, other),
        (r.info % 256 == 6 || r.info % 256 == 7) ==> (reloc_value(syms, strtab, base, m, r, addend) matches Some(Ok(v))
            ==> {
                let d = resolved(syms, strtab, base, m, r.info / 256);
                v == d.1.new_baseaddr + ((d.0.st_value as u32) - d.1.original_baseaddr)
            }),
        r.info % 256 == 1 ==> (reloc_value(syms, strtab, base, m, r, addend) matches Some(Ok(v)) ==> {
            let d = resolved(syms, strtab, base, m, r.info / 256);
            v == d.1.new_baseaddr + ((d.0.st_value as u32) - d.1.original_baseaddr) + addend
        }),
        r.info % 256 == 8 ==> (reloc_value(syms, strtab, base, m, r, addend) matches Some(Ok(v))
            ==> v == base.new_baseaddr - base.original_baseaddr + addend),
{
}

} // verus!
