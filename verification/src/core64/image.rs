use vstd::prelude::*;
use crate::core64::elf_file::{
    Sym, SymTab, StrTab, ElfFile, SegmentHeader, SectionInfo, elf_dynamic, elf_header_ok, elf_segments,
    elf_section_by_name, elf_dynamic_symbol_table,
};
use crate::core64::kalloc::{SimpleAllocator, align_up, lemma_mask_round, lemma_page_size_pow2};
use crate::core64::loader::{
    PT_LOAD, PT_DYNAMIC, PT_NOTE, PT_PHDR, PT_GNU_EH_FRAME, PT_GNU_STACK, PT_GNU_RELRO,
    MistargetError, IntepretError, ErrModel, Rel32, PtrSubslice, Relocation, decode_u32s, le_bytes, le_u32, reinterpret_u32s,
};
use crate::core64::dynamic::{DynModel, DynamicStruct, dyn_outcome, names_view, try_get_dynamic_data};

verus! {

/// What the pass over the program headers has found so far.
pub struct SegState {
    pub earliest: Option<u32>,
    pub latest: Option<u32>,
    pub loads: Seq<SegmentHeader>,
    pub dyn_data: Option<DynModel>,
}

/// Program header types the loader passes over.
pub open spec fn seg_ignored(t: u32) -> bool {
    t == PT_PHDR || t == PT_NOTE || t == PT_GNU_STACK || t == PT_GNU_RELRO || t == PT_GNU_EH_FRAME
}

/// One program header: a load widens the span and is kept, the dynamic segment is read,
/// anything unknown stops the loader (`None`).
pub open spec fn seg_step(code: Seq<u8>, st: SegState, h: SegmentHeader) -> Option<Result<SegState, ErrModel>> {
    if seg_ignored(h.p_type) {
        Some(Ok(st))
    } else if h.p_type == PT_LOAD {
        let v = h.p_vaddr as u32;
        let end = v + (h.p_memsz as u32);
        if end > u32::MAX {
            None
        } else {
            Some(Ok(SegState {
                earliest: Some(match st.earliest { Some(e) => if v < e { v } else { e }, None => v }),
                latest: Some(match st.latest { Some(l) => if end as u32 > l { end as u32 } else { l }, None => end as u32 }),
                loads: st.loads.push(h),
                dyn_data: st.dyn_data,
            }))
        }
    } else if h.p_type == PT_DYNAMIC {
        match elf_dynamic(code) {
            Some(Some(es)) => match dyn_outcome(code, es) {
                None => None,
                Some(Err(e)) => Some(Err(e)),
                Some(Ok(d)) => Some(Ok(SegState { dyn_data: Some(d), ..st })),
            },
            _ => None,
        }
    } else {
        None
    }
}

pub open spec fn seg_start() -> SegState {
    SegState { earliest: None, latest: None, loads: seq![], dyn_data: None }
}

/// The pass over all program headers, in order; it stops at the first error or stop.
pub open spec fn seg_scan(code: Seq<u8>, segs: Seq<SegmentHeader>) -> Option<Result<SegState, ErrModel>>
    decreases segs.len(),
{
    if segs.len() == 0 {
        Some(Ok(seg_start()))
    } else {
        match seg_scan(code, segs.drop_last()) {
            Some(Ok(st)) => seg_step(code, st, segs.last()),
            other => other,
        }
    }
}

/// Every kept load lies in `[earliest, latest]`, and there is a load exactly when the span is known.
pub open spec fn seg_state_inv(st: SegState) -> bool {
    &&& (st.loads.len() == 0 <==> st.earliest is None)
    &&& (st.earliest is None <==> st.latest is None)
    &&& st.earliest matches Some(e) ==> (st.latest matches Some(l) && e <= l)
    &&& forall|i: int| 0 <= i < st.loads.len() ==> {
        let h = #[trigger] st.loads[i];
        &&& st.earliest->0 <= h.p_vaddr as u32
        &&& (h.p_vaddr as u32) + (h.p_memsz as u32) <= st.latest->0
    }
}

/// What the exec pass keeps.
pub struct SegScan {
    pub earliest: Option<u32>,
    pub latest: Option<u32>,
    pub loads: Vec<SegmentHeader>,
    pub dyn_data: Option<DynamicStruct>,
}

impl SegScan {
    pub open spec fn model(self) -> SegState {
        SegState {
            earliest: self.earliest,
            latest: self.latest,
            loads: self.loads@,
            dyn_data: match self.dyn_data { Some(d) => Some(d@), None => None },
        }
    }
}

proof fn lemma_seg_step_inv(code: Seq<u8>, st: SegState, h: SegmentHeader)
    requires
        seg_state_inv(st),
    ensures
        seg_step(code, st, h) matches Some(Ok(st2)) ==> seg_state_inv(st2),
{
    if let Some(Ok(st2)) = seg_step(code, st, h) {
        if h.p_type == PT_LOAD && !seg_ignored(h.p_type) {
            assert forall|i: int| 0 <= i < st2.loads.len() implies {
                let g = #[trigger] st2.loads[i];
                &&& st2.earliest->0 <= g.p_vaddr as u32
                &&& (g.p_vaddr as u32) + (g.p_memsz as u32) <= st2.latest->0
            } by {
                if i < st.loads.len() {
                    assert(st2.loads[i] == st.loads[i]);
                }
            }
        }
    }
}

/// Passes over the program headers of `file` (whose bytes are `code`).
fn scan_segments(file: &ElfFile, code: &[u8], segs: &Vec<SegmentHeader>) -> (r: Option<Result<SegScan, IntepretError>>)
    requires
        file.code() == code@,
    ensures
        match seg_scan(code@, segs@) {
            None => r is None,
            Some(Err(e)) => (r matches Some(Err(x)) && x@ == e),
            Some(Ok(st)) => (r matches Some(Ok(sc)) && sc.model() == st && seg_state_inv(st)),
        },
{
    let mut sc = SegScan { earliest: None, latest: None, loads: Vec::new(), dyn_data: None };
    let mut i: usize = 0;
    proof {
        assert(segs@.take(0) =~= seq![]);
        assert(sc.model().loads =~= seq![]);
    }
    while i < segs.len()
        invariant
            file.code() == code@,
            i <= segs@.len(),
            seg_scan(code@, segs@.take(i as int)) == Some(Ok::<SegState, ErrModel>(sc.model())),
            seg_state_inv(sc.model()),
        decreases segs@.len() - i,
    {
        proof {
            assert(segs@.take(i as int + 1).drop_last() =~= segs@.take(i as int));
            lemma_seg_step_inv(code@, sc.model(), segs@[i as int]);
        }
        let h = segs[i];
        let ghost before = sc.model();
        let t = h.p_type;
        if t == PT_PHDR || t == PT_NOTE || t == PT_GNU_STACK || t == PT_GNU_RELRO || t == PT_GNU_EH_FRAME {
        } else if t == PT_LOAD {
            let v = h.p_vaddr as u32;
            let m = h.p_memsz as u32;
            if v as u64 + m as u64 > u32::MAX as u64 {
                proof { lemma_scan_prefix_stop(code@, segs@, i as int + 1); }
                return None;
            }
            let end = v + m;
            sc.earliest = Some(match sc.earliest {
                Some(e) => if v < e { v } else { e },
                None => v,
            });
            sc.latest = Some(match sc.latest {
                Some(l) => if end > l { end } else { l },
                None => end,
            });
            sc.loads.push(h);
        } else if t == PT_DYNAMIC {
            let es = match file.dynamic() {
                Ok(Some(es)) => es,
                _ => {
                    proof { lemma_scan_prefix_stop(code@, segs@, i as int + 1); }
                    return None;
                },
            };
            match try_get_dynamic_data(code, es) {
                None => {
                    proof { lemma_scan_prefix_stop(code@, segs@, i as int + 1); }
                    return None;
                },
                Some(Err(e)) => {
                    proof { lemma_scan_prefix_stop(code@, segs@, i as int + 1); }
                    return Some(Err(e));
                },
                Some(Ok(d)) => {
                    sc.dyn_data = Some(d);
                },
            }
        } else {
            proof { lemma_scan_prefix_stop(code@, segs@, i as int + 1); }
            return None;
        }
        proof {
            assert(sc.model().loads =~= seg_step(code@, before, h)->0->Ok_0.loads);
        }
        i = i + 1;
    }
    proof { assert(segs@.take(segs@.len() as int) =~= segs@); }
    Some(Ok(sc))
}

/// Once a prefix of the headers ends in an error or a stop, so does the whole pass.
proof fn lemma_scan_prefix_stop(code: Seq<u8>, segs: Seq<SegmentHeader>, j: int)
    requires
        0 <= j <= segs.len(),
        !(seg_scan(code, segs.take(j)) is Some && seg_scan(code, segs.take(j))->0 is Ok),
    ensures
        seg_scan(code, segs) == seg_scan(code, segs.take(j)),
    decreases segs.len() - j,
{
    if j == segs.len() {
        assert(segs.take(j) =~= segs);
    } else {
        assert(segs.drop_last().take(j) =~= segs.take(j));
        lemma_scan_prefix_stop(code, segs.drop_last(), j);
    }
}


/// `n` zero bytes.
pub open spec fn zeros(n: nat) -> Seq<u8> {
    Seq::new(n, |i: int| 0u8)
}

/// Offset in the image of a load that starts at object address `h.p_vaddr`.
pub open spec fn load_start(h: SegmentHeader, earliest: u32) -> int {
    (h.p_vaddr as u32) - earliest
}

/// Copying the load in does not stop the loader: the file part lies in the file and in the
/// image, and the file part is not longer than the memory part.
pub open spec fn load_ok(code: Seq<u8>, img_len: int, h: SegmentHeader, earliest: u32) -> bool {
    let start = load_start(h, earliest);
    let fs = h.p_filesz as u32;
    let ms = h.p_memsz as u32;
    let off = h.p_offset as u32;
    &&& start + fs <= img_len
    &&& off + fs <= code.len()
    &&& fs <= ms
    &&& start + ms <= img_len
}

/// The image after one load: its file part copied from the file, the rest of its memory part zeroed.
pub open spec fn apply_load(img: Seq<u8>, code: Seq<u8>, h: SegmentHeader, earliest: u32) -> Seq<u8> {
    let start = load_start(h, earliest);
    let fs = h.p_filesz as u32;
    let ms = h.p_memsz as u32;
    let off = h.p_offset as u32;
    Seq::new(img.len(), |o: int|
        if start <= o < start + fs {
            code[off + (o - start)]
        } else if start + fs <= o < start + ms {
            0u8
        } else {
            img[o]
        })
}

/// The image after all loads, in order; `None` where one of them stops the loader.
pub open spec fn load_all(img: Seq<u8>, code: Seq<u8>, loads: Seq<SegmentHeader>, earliest: u32) -> Option<Seq<u8>>
    decreases loads.len(),
{
    if loads.len() == 0 {
        Some(img)
    } else {
        match load_all(img, code, loads.drop_last(), earliest) {
            None => None,
            Some(i2) => if load_ok(code, i2.len() as int, loads.last(), earliest) {
                Some(apply_load(i2, code, loads.last(), earliest))
            } else {
                None
            },
        }
    }
}

proof fn lemma_load_all_len(img: Seq<u8>, code: Seq<u8>, loads: Seq<SegmentHeader>, earliest: u32)
    ensures
        load_all(img, code, loads, earliest) matches Some(i2) ==> i2.len() == img.len(),
    decreases loads.len(),
{
    if loads.len() > 0 {
        lemma_load_all_len(img, code, loads.drop_last(), earliest);
    }
}

proof fn lemma_load_prefix_none(img: Seq<u8>, code: Seq<u8>, loads: Seq<SegmentHeader>, earliest: u32, j: int)
    requires
        0 <= j <= loads.len(),
        load_all(img, code, loads.take(j), earliest) is None,
    ensures
        load_all(img, code, loads, earliest) is None,
    decreases loads.len() - j,
{
    if j == loads.len() {
        assert(loads.take(j) =~= loads);
    } else {
        assert(loads.drop_last().take(j) =~= loads.take(j));
        lemma_load_prefix_none(img, code, loads.drop_last(), earliest, j);
    }
}

/// Copies one load into the image.
fn copy_load(img: &mut Vec<u8>, code: &[u8], h: &SegmentHeader, earliest: u32)
    requires
        earliest <= h.p_vaddr as u32,
        load_ok(code@, old(img)@.len() as int, *h, earliest),
    ensures
        final(img)@ == apply_load(old(img)@, code@, *h, earliest),
{
    let start = ((h.p_vaddr as u32) - earliest) as usize;
    let fs = (h.p_filesz as u32) as usize;
    let ms = (h.p_memsz as u32) as usize;
    let off = (h.p_offset as u32) as usize;
    let ghost orig = img@;
    let ilen = img.len();
    let clen = code.len();
    let mut j: usize = 0;
    while j < fs
        invariant
            ilen == img@.len(),
            clen == code@.len(),
            j <= fs,
            start + ms <= img@.len(),
            off + fs <= code@.len(),
            fs <= ms,
            img@.len() == orig.len(),
            forall|o: int| 0 <= o < img@.len() ==> #[trigger] img@[o] ==
                if start <= o < start + j { code@[off + (o - start)] } else { orig[o] },
        decreases fs - j,
    {
        img.set(start + j, code[off + j]);
        j = j + 1;
    }
    while j < ms
        invariant
            ilen == img@.len(),
            clen == code@.len(),
            fs <= j <= ms,
            start + ms <= img@.len(),
            off + fs <= code@.len(),
            img@.len() == orig.len(),
            forall|o: int| 0 <= o < img@.len() ==> #[trigger] img@[o] ==
                if start <= o < start + fs { code@[off + (o - start)] }
                else if start + fs <= o < start + j { 0u8 } else { orig[o] },
        decreases ms - j,
    {
        img.set(start + j, 0u8);
        j = j + 1;
    }
    assert(img@ =~= apply_load(orig, code@, *h, earliest));
}

/// Builds the image of `len` bytes from the loads; `None` where one of them stops the loader.
fn load_image(code: &[u8], loads: &Vec<SegmentHeader>, earliest: u32, len: usize) -> (r: Option<Vec<u8>>)
    requires
        forall|i: int| 0 <= i < loads@.len() ==> earliest <= (#[trigger] loads@[i]).p_vaddr as u32,
    ensures
        match load_all(zeros(len as nat), code@, loads@, earliest) {
            None => r is None,
            Some(img) => (r matches Some(v) && v@ == img),
        },
{
    let mut img: Vec<u8> = vec![0u8; len];
    let ghost zero = zeros(len as nat);
    assert(img@ =~= zero);
    assert(loads@.take(0) =~= seq![]);
    let mut i: usize = 0;
    while i < loads.len()
        invariant
            i <= loads@.len(),
            forall|k: int| 0 <= k < loads@.len() ==> earliest <= (#[trigger] loads@[k]).p_vaddr as u32,
            zero == zeros(len as nat),
            load_all(zero, code@, loads@.take(i as int), earliest) == Some(img@),
        decreases loads@.len() - i,
    {
        proof {
            assert(loads@.take(i as int + 1).drop_last() =~= loads@.take(i as int));
            assert(loads@.take(i as int + 1).last() == loads@[i as int]);
        }
        let h = &loads[i];
        let start = (h.p_vaddr as u32 - earliest) as u64;
        let fs = (h.p_filesz as u32) as u64;
        let ms = (h.p_memsz as u32) as u64;
        let off = (h.p_offset as u32) as u64;
        if start + fs > img.len() as u64 || off + fs > code.len() as u64 || fs > ms || start + ms > img.len() as u64 {
            proof {
                lemma_load_prefix_none(zero, code@, loads@, earliest, i as int + 1);
            }
            return None;
        }
        copy_load(&mut img, code, h, earliest);
        i = i + 1;
    }
    assert(loads@.take(loads@.len() as int) =~= loads@);
    Some(img)
}


/// The words of an init or fini array in the loaded image: empty when there is none, `None`
/// where its range is not in the image (the loader stops), an error where it is not whole words.
pub open spec fn array_words(img: Seq<u8>, p: Option<PtrSubslice>, earliest: u32) -> Option<Result<Seq<u32>, ErrModel>> {
    match p {
        None => Some(Ok(seq![])),
        Some(x) => if x.start < earliest || x.start - earliest + x.len > u32::MAX || x.start - earliest + x.len > img.len() {
            None
        } else if x.len % 4 != 0 {
            Some(Err(ErrModel::LayoutError))
        } else {
            Some(Ok(decode_u32s(img.subrange(x.start - earliest, x.start - earliest + x.len))))
        },
    }
}

/// `img` with the little-endian bytes of `v` at `at`.
pub open spec fn write_le(img: Seq<u8>, at: int, v: u32) -> Seq<u8> {
    img.take(at) + le_bytes(v) + img.skip(at + 4)
}

/// The image after the first word of `.got` is pointed at the loaded `.dynamic` section;
/// `None` where the loader stops: `.got` not whole words inside the image, the `.dynamic`
/// lookup failing, or the address not fitting.
pub open spec fn got_patch(code: Seq<u8>, img: Seq<u8>, got: SectionInfo, earliest: u32, base: u32) -> Option<Seq<u8>> {
    let g = got.sh_addr as u32;
    let gs = got.sh_size as u32;
    if g < earliest || g - earliest > img.len() || g - earliest + gs > img.len() || gs % 4 != 0 {
        None
    } else {
        match elf_section_by_name(code, ".dynamic"@) {
            None => None,
            Some(None) => Some(img),
            Some(Some(dh)) => {
                let da = dh.sh_addr as u32;
                if gs < 4 || da < earliest || da - earliest + base > u32::MAX {
                    None
                } else {
                    Some(write_le(img, g - earliest, (da - earliest + base) as u32))
                }
            },
        }
    }
}

/// What `parse_elf` finds before it allocates: the `.got` header, the program-header pass and
/// the dynamic data. `None` where the loader stops.
pub open spec fn elf_front(code: Seq<u8>) -> Option<Result<(SectionInfo, SegState, DynModel), ErrModel>> {
    if !elf_header_ok(code) {
        Some(Err(ErrModel::Parse))
    } else {
        match elf_segments(code) {
            None => None,
            Some(segs) => match elf_section_by_name(code, ".got"@) {
                None => Some(Err(ErrModel::Parse)),
                Some(None) => None,
                Some(Some(got)) => match seg_scan(code, segs) {
                    None => None,
                    Some(Err(e)) => Some(Err(e)),
                    Some(Ok(st)) => match st.dyn_data {
                        None => Some(Err(ErrModel::MistargetedElf(MistargetError::NoDynamicData))),
                        Some(d) => if st.loads.len() == 0 { None } else { Some(Ok((got, st, d))) },
                    },
                },
            },
        }
    }
}

/// Pages needed to hold `[earliest, latest)`.
pub open spec fn pages_for(st: SegState) -> int {
    (st.latest->0 - st.earliest->0 + 0xFFF) / 0x1000
}

/// A loaded object, as a value.
pub struct ChunkModel {
    pub init_fns: Seq<u32>,
    pub fini_fns: Seq<u32>,
    pub rel_array: Seq<Rel32>,
    pub jmprel_array: Seq<Rel32>,
    pub needed: Seq<Seq<u8>>,
    pub syms: Seq<Sym>,
    pub strtab: Seq<u8>,
    pub image: Seq<u8>,
    pub baseaddr: Relocation,
}

/// What `parse_elf` does after allocating the image at `base`.
pub open spec fn elf_back(code: Seq<u8>, got: SectionInfo, st: SegState, d: DynModel, base: u32) -> Option<Result<ChunkModel, ErrModel>> {
    let e = st.earliest->0;
    match load_all(zeros((pages_for(st) * 0x1000) as nat), code, st.loads, e) {
        None => None,
        Some(img) => match array_words(img, d.init_array, e) {
            None => None,
            Some(Err(x)) => Some(Err(x)),
            Some(Ok(iw)) => match array_words(img, d.fini_array, e) {
                None => None,
                Some(Err(x)) => Some(Err(x)),
                Some(Ok(fw)) => match got_patch(code, img, got, e, base) {
                    None => None,
                    Some(img2) => match elf_dynamic_symbol_table(code) {
                        None => Some(Err(ErrModel::Parse)),
                        Some(None) => Some(Err(ErrModel::MistargetedElf(MistargetError::NoDynSymbolTable))),
                        Some(Some((syms, strs))) => Some(Ok(ChunkModel {
                            init_fns: d.init_fns + iw,
                            fini_fns: fw + d.fini_fns,
                            rel_array: d.rel_array,
                            jmprel_array: d.jmprel_array,
                            needed: d.needed,
                            syms,
                            strtab: strs,
                            image: img2,
                            baseaddr: Relocation { original_baseaddr: e, new_baseaddr: base },
                        })),
                    },
                },
            },
        },
    }
}

/// The outcome of `parse_elf` on `code` with the allocator at `dataptr`, and where the allocator
/// ends: the image takes whole pages, page-aligned, from the allocator.
pub open spec fn elf_outcome(code: Seq<u8>, dataptr: u32) -> (Option<Result<ChunkModel, ErrModel>>, u32) {
    match elf_front(code) {
        None => (None, dataptr),
        Some(Err(e)) => (Some(Err(e)), dataptr),
        Some(Ok((got, st, d))) => {
            let size = pages_for(st) * 0x1000;
            if size == 0 {
                // An empty slice is not allocated; it sits at the dangling, page-aligned address.
                (elf_back(code, got, st, d, 0x1000), dataptr)
            } else if dataptr + 0xFFF + size > u32::MAX {
                (None, dataptr)
            } else {
                let base = align_up(dataptr as int, 0x1000) as u32;
                (elf_back(code, got, st, d, base), (base + size) as u32)
            }
        },
    }
}

/// A loaded shared object, ready to be linked.
pub struct SOChunk<'a> {
    pub init_fns: Vec<u32>,
    pub fini_fns: Vec<u32>,
    pub rel_array: Vec<Rel32>,
    pub jmprel_array: Vec<Rel32>,
    pub needed: Vec<Vec<u8>>,
    pub dynsymtab: SymTab<'a>,
    pub dynstrtab: StrTab<'a>,
    /// The loaded image: `[earliest, latest)` of the object, rounded up to whole pages.
    pub allocation: Vec<u8>,
    pub baseaddr: Relocation,
}

impl<'a> View for SOChunk<'a> {
    type V = ChunkModel;

    open spec fn view(&self) -> ChunkModel {
        ChunkModel {
            init_fns: self.init_fns@,
            fini_fns: self.fini_fns@,
            rel_array: self.rel_array@,
            jmprel_array: self.jmprel_array@,
            needed: names_view(self.needed@),
            syms: self.dynsymtab.syms(),
            strtab: self.dynstrtab.bytes(),
            image: self.allocation@,
            baseaddr: self.baseaddr,
        }
    }
}

/// The words of an optional array in the image.
fn words_in(img: &Vec<u8>, p: Option<PtrSubslice>, earliest: u32) -> (r: Option<Result<Vec<u32>, IntepretError>>)
    ensures
        match array_words(img@, p, earliest) {
            None => r is None,
            Some(Err(e)) => (r matches Some(Err(x)) && x@ == e),
            Some(Ok(v)) => (r matches Some(Ok(w)) && w@ == v),
        },
{
    match p {
        None => Some(Ok(Vec::new())),
        Some(x) => {
            if x.start < earliest || (x.start - earliest) as u64 + x.len as u64 > u32::MAX as u64
                || (x.start - earliest) as u64 + x.len as u64 > img.len() as u64 {
                return None;
            }
            let range = x.into_range(earliest);
            let slice = vstd::slice::slice_subrange(img.as_slice(), range.start, range.end);
            Some(reinterpret_u32s(slice))
        },
    }
}

/// Writes `v` little-endian at `at`.
fn write_u32_at(img: &mut Vec<u8>, at: usize, v: u32)
    requires
        at + 4 <= old(img)@.len(),
    ensures
        final(img)@ == write_le(old(img)@, at as int, v),
{
    let ghost orig = img@;
    let n = img.len();
    assert(at + 4 <= n);
    img.set(at, (v % 0x100) as u8);
    img.set(at + 1, ((v / 0x100) % 0x100) as u8);
    img.set(at + 2, ((v / 0x10000) % 0x100) as u8);
    img.set(at + 3, (v / 0x1000000) as u8);
    assert(img@ =~= write_le(orig, at as int, v));
}

/// Points the first word of `.got` at the loaded `.dynamic` section.
fn patch_got(file: &ElfFile, img: &mut Vec<u8>, got: &SectionInfo, earliest: u32, base: u32) -> (r: bool)
    ensures
        match got_patch(file.code(), old(img)@, *got, earliest, base) {
            None => !r,
            Some(i2) => r && final(img)@ == i2,
        },
{
    let g = got.sh_addr as u32;
    let gs = got.sh_size as u32;
    if g < earliest || (g - earliest) as u64 > img.len() as u64 || (g - earliest) as u64 + gs as u64 > img.len() as u64 || gs % 4 != 0 {
        return false;
    }
    match file.section_header_by_name(".dynamic") {
        Err(_) => false,
        Ok(None) => true,
        Ok(Some(dh)) => {
            let da = dh.sh_addr as u32;
            if gs < 4 || da < earliest || (da - earliest) as u64 + base as u64 > u32::MAX as u64 {
                return false;
            }
            write_u32_at(img, (g - earliest) as usize, da - earliest + base);
            true
        },
    }
}


/// Loads the shared object whose bytes are `code`; see `parse_elf`. `None` where the loader stops
/// with a panic.
pub fn try_parse_elf<'a>(code: &'a [u8], a: &mut SimpleAllocator) -> (r: Option<Result<SOChunk<'a>, IntepretError>>)
    ensures
        final(a).dataptr == elf_outcome(code@, old(a).dataptr).1,
        match elf_outcome(code@, old(a).dataptr).0 {
            None => r is None,
            Some(Err(e)) => (r matches Some(Err(x)) && x@ == e),
            Some(Ok(m)) => (r matches Some(Ok(c)) && c@ == m),
        },
{
    let file = match ElfFile::minimal_parse(code) {
        Ok(f) => f,
        Err(e) => { return Some(Err(IntepretError::Parse(e))); },
    };
    let segs = match file.segments() {
        Some(s) => s,
        None => { return None; },
    };
    let got = match file.section_header_by_name(".got") {
        Err(e) => { return Some(Err(IntepretError::Parse(e))); },
        Ok(None) => { return None; },
        Ok(Some(g)) => g,
    };
    let sc = match scan_segments(&file, code, &segs) {
        None => { return None; },
        Some(Err(e)) => { return Some(Err(e)); },
        Some(Ok(sc)) => sc,
    };
    let ghost st = sc.model();
    let SegScan { earliest, latest, loads, dyn_data } = sc;
    let mut d = match dyn_data {
        None => { return Some(Err(IntepretError::MistargetedElf(MistargetError::NoDynamicData))); },
        Some(d) => d,
    };
    if loads.len() == 0 {
        return None;
    }
    let earliest = match earliest { Some(e) => e, None => { return None; } };
    let latest = match latest { Some(l) => l, None => { return None; } };
    let num_pages: u64 = ((latest - earliest) as u64 + 0xFFF) / 0x1000;
    let size: u64 = num_pages * 0x1000;
    assert(size == pages_for(st) * 0x1000);
    let base: u32 = if size == 0 {
        0x1000
    } else {
        if a.dataptr as u64 + 0xFFF + size > u32::MAX as u64 {
            return None;
        }
        proof { lemma_page_size_pow2(); }
        a.allocate(size as u32, 0x1000)
    };
    let mut img = match load_image(code, &loads, earliest, size as usize) {
        None => { return None; },
        Some(i) => i,
    };
    let mut init_words = match words_in(&img, d.init_array, earliest) {
        None => { return None; },
        Some(Err(e)) => { return Some(Err(e)); },
        Some(Ok(w)) => w,
    };
    let fini_words = match words_in(&img, d.fini_array, earliest) {
        None => { return None; },
        Some(Err(e)) => { return Some(Err(e)); },
        Some(Ok(w)) => w,
    };
    if !patch_got(&file, &mut img, &got, earliest, base) {
        return None;
    }
    let (dynsymtab, dynstrtab) = match file.dynamic_symbol_table() {
        Err(e) => { return Some(Err(IntepretError::Parse(e))); },
        Ok(None) => { return Some(Err(IntepretError::MistargetedElf(MistargetError::NoDynSymbolTable))); },
        Ok(Some(p)) => p,
    };
    let mut init_fns = d.init_fns;
    init_fns.append(&mut init_words);
    let mut fini_fns = fini_words;
    fini_fns.append(&mut d.fini_fns);
    Some(Ok(SOChunk {
        init_fns,
        fini_fns,
        rel_array: d.rel_array,
        jmprel_array: d.jmprel_array,
        needed: d.needed,
        dynsymtab,
        dynstrtab,
        allocation: img,
        baseaddr: Relocation { original_baseaddr: earliest, new_baseaddr: base },
    }))
}


proof fn lemma_seg_scan_inv(code: Seq<u8>, segs: Seq<SegmentHeader>)
    ensures
        seg_scan(code, segs) matches Some(Ok(st)) ==> seg_state_inv(st),
    decreases segs.len(),
{
    if segs.len() > 0 {
        lemma_seg_scan_inv(code, segs.drop_last());
        if let Some(Ok(st)) = seg_scan(code, segs.drop_last()) {
            lemma_seg_step_inv(code, st, segs.last());
        }
    }
}

/// A loaded image starts on a page boundary at or after where the allocator stood, takes whole
/// pages, and the allocator ends right after it; the image holds as many bytes as its pages.
pub proof fn lemma_image_pages(code: Seq<u8>, dataptr: u32)
    ensures
        ({
            let (res, dp2) = elf_outcome(code, dataptr);
            res matches Some(Ok(m)) ==> {
                &&& m.baseaddr.new_baseaddr % 0x1000 == 0
                &&& m.image.len() % 0x1000 == 0
                &&& (m.image.len() == 0 || (dataptr <= m.baseaddr.new_baseaddr
                    && dp2 == m.baseaddr.new_baseaddr + m.image.len()))
                &&& (m.image.len() == 0 ==> dp2 == dataptr)
            }
        }),
{
    let (res, dp2) = elf_outcome(code, dataptr);
    if let Some(Ok((got, st, d))) = elf_front(code) {
        lemma_seg_scan_inv(code, elf_segments(code)->Some_0);
        assert(seg_state_inv(st));
        let size = pages_for(st) * 0x1000;
        let e = st.earliest->0;
        let z = zeros((pages_for(st) * 0x1000) as nat);
        lemma_load_all_len(z, code, st.loads, e);
        if let Some(m) = res {
            if let Ok(m) = m {
                let img = load_all(z, code, st.loads, e)->Some_0;
                assert(img.len() == size);
                let g = got.sh_addr as u32;
                let img2 = got_patch(code, img, got, e, m.baseaddr.new_baseaddr)->Some_0;
                if let Some(Some(dh)) = elf_section_by_name(code, ".dynamic"@) {
                    let da = dh.sh_addr as u32;
                    assert(img2 == write_le(img, g - e, (da - e + m.baseaddr.new_baseaddr) as u32));
                    assert(img2.len() == img.len());
                }
                assert(m.image.len() == size);
                assert(size % 0x1000 == 0) by (nonlinear_arith)
                    requires size == pages_for(st) * 0x1000;
                if size != 0 {
                    lemma_page_size_pow2();
                    assert(dataptr + 0xFFF <= u32::MAX);
                    lemma_mask_round(dataptr, 0x1000);
                    vstd::arithmetic::div_mod::lemma_fundamental_div_mod(
                        align_up(dataptr as int, 0x1000), 0x1000);
                }
            }
        }
    }
}

/// Loads the shared object whose bytes are `code`: parses it, copies its loads into a fresh
/// page-aligned image taken from `a`, reads its init and fini arrays, points the first `.got`
/// word at the loaded `.dynamic` section and finds its dynamic symbol table. The object must be
/// one the loader handles: with program headers of known types, at least one load, a dynamic
/// table it handles, a `.got` section inside the image, and room in the allocator.
pub fn parse_elf<'a>(code: &'a [u8], a: &mut SimpleAllocator) -> (r: Result<SOChunk<'a>, IntepretError>)
    requires
        elf_outcome(code@, old(a).dataptr).0 is Some,
    ensures
        final(a).dataptr == elf_outcome(code@, old(a).dataptr).1,
        match elf_outcome(code@, old(a).dataptr).0->0 {
            Err(e) => (r matches Err(x) && x@ == e),
            Ok(m) => (r matches Ok(c) && c@ == m),
        },
{
    match try_parse_elf(code, a) {
        Some(r) => r,
        None => {
            proof {
                assert(false);
            }
            Err(IntepretError::LayoutError)
        },
    }
}

/// A word written with `write_le` reads back as that word, and every other byte stays.
pub proof fn lemma_read_after_write(img: Seq<u8>, at: int, v: u32)
    requires
        0 <= at,
        at + 4 <= img.len(),
    ensures
        write_le(img, at, v).len() == img.len(),
        le_u32(write_le(img, at, v), at) == v,
        forall|i: int| 0 <= i < img.len() && (i < at || at + 4 <= i) ==> #[trigger] write_le(img, at, v)[i] == img[i],
{
    let w = write_le(img, at, v);
    let b = le_bytes(v);
    assert(w[at] == b[0] && w[at + 1] == b[1] && w[at + 2] == b[2] && w[at + 3] == b[3]);
    let b0 = v % 0x100;
    let b1 = (v / 0x100) % 0x100;
    let b2 = (v / 0x10000) % 0x100;
    let b3 = v / 0x1000000;
    assert(b0 < 0x100 && b1 < 0x100 && b2 < 0x100 && b3 < 0x100 && b0 + b1 * 0x100 + b2 * 0x10000 + b3 * 0x1000000 == v)
        by (bit_vector)
        requires
            b0 == v % 0x100,
            b1 == (v / 0x100) % 0x100,
            b2 == (v / 0x10000) % 0x100,
            b3 == v / 0x1000000,
    ;
    assert(b[0] == b0 && b[1] == b1 && b[2] == b2 && b[3] == b3);
}

/// Loading a segment puts its file bytes at its address relative to the image's start
/// (`p_vaddr - earliest`), zeroes the rest of its memory part there, and leaves every other
/// byte of the image as it was.
pub proof fn lemma_load_places_segment(img: Seq<u8>, code: Seq<u8>, h: SegmentHeader, earliest: u32)
    requires
        earliest <= h.p_vaddr as u32,
        load_ok(code, img.len() as int, h, earliest),
    ensures
        ({
            let out = apply_load(img, code, h, earliest);
            let at = (h.p_vaddr as u32) - earliest;
            let fs = h.p_filesz as u32;
            let ms = h.p_memsz as u32;
            &&& out.len() == img.len()
            &&& forall|k: int| 0 <= k < fs ==> #[trigger] out[at + k] == code[(h.p_offset as u32) + k]
            &&& forall|k: int| fs <= k < ms ==> #[trigger] out[at + k] == 0
            &&& forall|o: int| 0 <= o < img.len() && !(at <= o < at + ms) ==> #[trigger] out[o] == img[o]
        }),
{
    let out = apply_load(img, code, h, earliest);
    let at = (h.p_vaddr as u32) - earliest;
    assert(load_start(h, earliest) == at);
    assert forall|k: int| 0 <= k < (h.p_filesz as u32) implies #[trigger] out[at + k] == code[(h.p_offset as u32) + k] by {
        assert(out[at + k] == code[(h.p_offset as u32) + ((at + k) - at)]);
    }
}

/// After all loads, the last one's file bytes stand at its address relative to the image's start
/// and the rest of its memory part is zero: a load is placed by its address, not by where its
/// bytes are in the file.
pub proof fn lemma_load_all_places_last(img: Seq<u8>, code: Seq<u8>, loads: Seq<SegmentHeader>, earliest: u32)
    requires
        loads.len() > 0,
        earliest <= loads.last().p_vaddr as u32,
        load_all(img, code, loads, earliest) is Some,
    ensures
        ({
            let out = load_all(img, code, loads, earliest)->0;
            let h = loads.last();
            let at = (h.p_vaddr as u32) - earliest;
            &&& forall|k: int| 0 <= k < (h.p_filesz as u32) ==> #[trigger] out[at + k] == code[(h.p_offset as u32) + k]
            &&& forall|k: int| (h.p_filesz as u32) <= k < (h.p_memsz as u32) ==> #[trigger] out[at + k] == 0
        }),
{
    let prev = load_all(img, code, loads.drop_last(), earliest)->0;
    lemma_load_places_segment(prev, code, loads.last(), earliest);
}

} // verus!
