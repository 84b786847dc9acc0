use vstd::prelude::*;
use crate::core64::elf_file::{DynEntry, StrTab, strtab_raw};
use crate::core64::loader::{
    DT_NULL, DT_NEEDED, DT_PLTRELSZ, DT_PLTGOT, DT_STRTAB, DT_SYMTAB, DT_STRSZ, DT_SYMENT, DT_INIT, DT_FINI,
    DT_SONAME, DT_REL, DT_RELSZ, DT_RELENT, DT_PLTREL, DT_DEBUG, DT_JMPREL, DT_INIT_ARRAY, DT_FINI_ARRAY,
    DT_INIT_ARRAYSZ, DT_FINI_ARRAYSZ, DT_FLAGS, DT_GNU_HASH, DT_RELCOUNT, DT_FLAGS_1,
    ElfStateError, IntepretError, ErrModel, Rel32, PtrSubslice, subslice_of, decode_rels, reinterpret_rels,
};
use elf::ParseError;

verus! {

/// The value of the last entry tagged `tag`, as the 32-bit target reads it.
pub open spec fn last_val(es: Seq<DynEntry>, tag: i64) -> Option<u32>
    decreases es.len(),
{
    if es.len() == 0 {
        None
    } else if es.last().d_tag == tag {
        Some(es.last().d_val as u32)
    } else {
        last_val(es.drop_last(), tag)
    }
}

/// The values of all entries tagged `tag`, in order, as the 32-bit target reads them.
pub open spec fn all_vals(es: Seq<DynEntry>, tag: i64) -> Seq<u32>
    decreases es.len(),
{
    if es.len() == 0 {
        seq![]
    } else if es.last().d_tag == tag {
        all_vals(es.drop_last(), tag).push(es.last().d_val as u32)
    } else {
        all_vals(es.drop_last(), tag)
    }
}

/// Tags the loader knows what to do with.
pub open spec fn tag_handled(t: i64) -> bool {
    t == DT_NEEDED || t == DT_SONAME || t == DT_FLAGS || t == DT_FLAGS_1 || t == DT_REL || t == DT_RELSZ
        || t == DT_RELENT || t == DT_RELCOUNT || t == DT_STRTAB || t == DT_STRSZ || t == DT_SYMTAB
        || t == DT_SYMENT || t == DT_INIT_ARRAY || t == DT_INIT_ARRAYSZ || t == DT_FINI_ARRAY
        || t == DT_FINI_ARRAYSZ || t == DT_INIT || t == DT_FINI || t == DT_JMPREL || t == DT_PLTRELSZ
        || t == DT_GNU_HASH || t == DT_DEBUG || t == DT_PLTREL || t == DT_PLTGOT || t == DT_NULL
}

/// An entry the loader accepts: a known tag, 8-byte `Elf32_Rel` entries, `DT_REL`-style PLT relocations.
pub open spec fn entry_accepted(e: DynEntry) -> bool {
    &&& tag_handled(e.d_tag)
    &&& e.d_tag == DT_RELENT ==> e.d_val == 8
    &&& e.d_tag == DT_PLTREL ==> e.d_val == DT_REL as u64
}

pub open spec fn dyn_entries_ok(es: Seq<DynEntry>) -> bool {
    forall|i: int| 0 <= i < es.len() ==> #[trigger] entry_accepted(es[i])
}

/// The names at the given offsets of a string table, `None` if one cannot be read.
pub open spec fn lookup_all(table: Seq<u8>, offs: Seq<u32>) -> Option<Seq<Seq<u8>>>
    decreases offs.len(),
{
    if offs.len() == 0 {
        Some(seq![])
    } else {
        match lookup_all(table, offs.drop_last()) {
            None => None,
            Some(names) => match strtab_raw(table, offs.last() as int) {
                Some(raw) => if vstd::utf8::valid_utf8(raw) { Some(names.push(raw)) } else { None },
                None => None,
            },
        }
    }
}

/// The relocation entries an optional range of the file holds: `None` where the range does not
/// lie in the file (the loader stops there), an error where it is not whole entries.
pub open spec fn table_rels(code: Seq<u8>, p: Option<PtrSubslice>) -> Option<Result<Seq<Rel32>, ErrModel>> {
    match p {
        None => Some(Ok(seq![])),
        Some(x) => if x.start + x.len > u32::MAX || x.start + x.len > code.len() {
            None
        } else if x.len % 8 != 0 {
            Some(Err(ErrModel::LayoutError))
        } else {
            Some(Ok(decode_rels(code.subrange(x.start as int, x.start + x.len))))
        },
    }
}

/// What the dynamic table of an object says the loader needs.
pub struct DynamicStruct {
    pub init_fns: Vec<u32>,
    pub fini_fns: Vec<u32>,
    pub init_array: Option<PtrSubslice>,
    pub fini_array: Option<PtrSubslice>,
    pub rel_array: Vec<Rel32>,
    pub jmprel_array: Vec<Rel32>,
    pub needed: Vec<Vec<u8>>,
}

pub struct DynModel {
    pub init_fns: Seq<u32>,
    pub fini_fns: Seq<u32>,
    pub init_array: Option<PtrSubslice>,
    pub fini_array: Option<PtrSubslice>,
    pub rel_array: Seq<Rel32>,
    pub jmprel_array: Seq<Rel32>,
    pub needed: Seq<Seq<u8>>,
}

pub open spec fn names_view(v: Seq<Vec<u8>>) -> Seq<Seq<u8>> {
    v.map_values(|n: Vec<u8>| n@)
}

impl View for DynamicStruct {
    type V = DynModel;

    open spec fn view(&self) -> DynModel {
        DynModel {
            init_fns: self.init_fns@,
            fini_fns: self.fini_fns@,
            init_array: self.init_array,
            fini_array: self.fini_array,
            rel_array: self.rel_array@,
            jmprel_array: self.jmprel_array@,
            needed: names_view(self.needed@),
        }
    }
}

/// The outcome of reading a dynamic table: `None` where the loader stops with a panic.
pub open spec fn dyn_outcome(code: Seq<u8>, es: Seq<DynEntry>) -> Option<Result<DynModel, ErrModel>> {
    let offs = all_vals(es, DT_NEEDED);
    let strtab = last_val(es, DT_STRTAB);
    let strsz = last_val(es, DT_STRSZ);
    if !dyn_entries_ok(es) {
        None
    } else if offs.len() > 0 && (strtab is None || strsz is None) {
        Some(Err(ErrModel::InvalidElfState(ElfStateError::NeedStrtab)))
    } else if offs.len() > 0 && (strtab->0 + strsz->0 > u32::MAX || strtab->0 + strsz->0 > code.len()) {
        None
    } else if offs.len() > 0 && lookup_all(code.subrange(strtab->0 as int, strtab->0 + strsz->0), offs) is None {
        Some(Err(ErrModel::Parse))
    } else {
        let needed = if offs.len() > 0 {
            lookup_all(code.subrange(strtab->0 as int, strtab->0 + strsz->0), offs)->0
        } else {
            seq![]
        };
        match subslice_of(last_val(es, DT_INIT_ARRAY), last_val(es, DT_INIT_ARRAYSZ)) {
            Err(e) => Some(Err(e)),
            Ok(init_array) => match subslice_of(last_val(es, DT_FINI_ARRAY), last_val(es, DT_FINI_ARRAYSZ)) {
                Err(e) => Some(Err(e)),
                Ok(fini_array) => match subslice_of(last_val(es, DT_REL), last_val(es, DT_RELSZ)) {
                    Err(e) => Some(Err(e)),
                    Ok(rel) => match table_rels(code, rel) {
                        None => None,
                        Some(Err(e)) => Some(Err(e)),
                        Some(Ok(rel_array)) => match subslice_of(last_val(es, DT_JMPREL), last_val(es, DT_PLTRELSZ)) {
                            Err(e) => Some(Err(e)),
                            Ok(jmprel) => match table_rels(code, jmprel) {
                                None => None,
                                Some(Err(e)) => Some(Err(e)),
                                Some(Ok(jmprel_array)) => Some(Ok(DynModel {
                                    init_fns: all_vals(es, DT_INIT),
                                    fini_fns: all_vals(es, DT_FINI),
                                    init_array,
                                    fini_array,
                                    rel_array,
                                    jmprel_array,
                                    needed,
                                })),
                            },
                        },
                    },
                },
            },
        }
    }
}

/// `r` is what `outcome` describes: `None` for a stop, the same error, or the same model.
pub open spec fn dyn_matches(r: Option<Result<DynamicStruct, IntepretError>>, outcome: Option<Result<DynModel, ErrModel>>) -> bool {
    match outcome {
        None => r is None,
        Some(Err(e)) => r matches Some(Err(x)) && x@ == e,
        Some(Ok(m)) => r matches Some(Ok(d)) && d@ == m,
    }
}

proof fn lemma_take_step(es: Seq<DynEntry>, i: int)
    requires
        0 <= i < es.len(),
    ensures
        es.take(i + 1).drop_last() == es.take(i),
        es.take(i + 1).last() == es[i],
        es.take(i + 1).len() == i + 1,
{
    assert(es.take(i + 1).drop_last() =~= es.take(i));
}

/// The relocation entries of an optional range of `code`; `None` where the range is not in `code`.
fn rels_in(code: &[u8], p: Option<PtrSubslice>) -> (r: Option<Result<Vec<Rel32>, IntepretError>>)
    ensures
        match table_rels(code@, p) {
            None => r is None,
            Some(Err(e)) => (r matches Some(Err(x)) && x@ == e),
            Some(Ok(v)) => (r matches Some(Ok(w)) && w@ == v),
        },
{
    match p {
        None => Some(Ok(Vec::new())),
        Some(x) => {
            if x.start as u64 + x.len as u64 > u32::MAX as u64 || x.start as u64 + x.len as u64 > code.len() as u64 {
                return None;
            }
            let range = x.into_range(0);
            let slice = vstd::slice::slice_subrange(code, range.start, range.end);
            Some(reinterpret_rels(slice))
        },
    }
}

/// What one pass over the dynamic table collects.
struct DynScan {
    init_fns: Vec<u32>,
    fini_fns: Vec<u32>,
    needed_offsets: Vec<u32>,
    init_ptr: Option<u32>,
    init_size: Option<u32>,
    fini_ptr: Option<u32>,
    fini_size: Option<u32>,
    strtab: Option<u32>,
    strsz: Option<u32>,
    relptr: Option<u32>,
    relsz: Option<u32>,
    jmprelptr: Option<u32>,
    jmprelsz: Option<u32>,
}

impl DynScan {
    spec fn describes(self, es: Seq<DynEntry>) -> bool {
        &&& self.init_fns@ == all_vals(es, DT_INIT)
        &&& self.fini_fns@ == all_vals(es, DT_FINI)
        &&& self.needed_offsets@ == all_vals(es, DT_NEEDED)
        &&& self.init_ptr == last_val(es, DT_INIT_ARRAY)
        &&& self.init_size == last_val(es, DT_INIT_ARRAYSZ)
        &&& self.fini_ptr == last_val(es, DT_FINI_ARRAY)
        &&& self.fini_size == last_val(es, DT_FINI_ARRAYSZ)
        &&& self.strtab == last_val(es, DT_STRTAB)
        &&& self.strsz == last_val(es, DT_STRSZ)
        &&& self.relptr == last_val(es, DT_REL)
        &&& self.relsz == last_val(es, DT_RELSZ)
        &&& self.jmprelptr == last_val(es, DT_JMPREL)
        &&& self.jmprelsz == last_val(es, DT_PLTRELSZ)
    }
}

/// One pass over the dynamic table; `None` at the first entry the loader does not accept.
fn scan_dynamic(table: &Vec<DynEntry>) -> (r: Option<DynScan>)
    ensures
        r is None <==> !dyn_entries_ok(table@),
        r matches Some(sc) ==> sc.describes(table@),
{
    let mut sc = DynScan {
        init_fns: Vec::new(), fini_fns: Vec::new(), needed_offsets: Vec::new(),
        init_ptr: None, init_size: None, fini_ptr: None, fini_size: None, strtab: None, strsz: None,
        relptr: None, relsz: None, jmprelptr: None, jmprelsz: None,
    };
    let ghost es = table@;
    let mut i: usize = 0;
    while i < table.len()
        invariant
            es == table@,
            i <= es.len(),
            forall|j: int| 0 <= j < i ==> #[trigger] entry_accepted(es[j]),
            sc.describes(es.take(i as int)),
        decreases es.len() - i,
    {
        proof { lemma_take_step(es, i as int); }
        let entry = table[i];
        let tag = entry.d_tag;
        let v = entry.d_val as u32;
        if tag == DT_NEEDED {
            sc.needed_offsets.push(v);
        } else if tag == DT_SONAME || tag == DT_FLAGS || tag == DT_FLAGS_1 || tag == DT_RELCOUNT
            || tag == DT_SYMTAB || tag == DT_SYMENT || tag == DT_GNU_HASH || tag == DT_DEBUG
            || tag == DT_PLTGOT || tag == DT_NULL {
        } else if tag == DT_REL {
            sc.relptr = Some(v);
        } else if tag == DT_RELSZ {
            sc.relsz = Some(v);
        } else if tag == DT_RELENT {
            if entry.d_val != 8 {
                assert(!entry_accepted(es[i as int]));
                return None;
            }
        } else if tag == DT_STRTAB {
            sc.strtab = Some(v);
        } else if tag == DT_STRSZ {
            sc.strsz = Some(v);
        } else if tag == DT_INIT_ARRAY {
            sc.init_ptr = Some(v);
        } else if tag == DT_INIT_ARRAYSZ {
            sc.init_size = Some(v);
        } else if tag == DT_FINI_ARRAY {
            sc.fini_ptr = Some(v);
        } else if tag == DT_FINI_ARRAYSZ {
            sc.fini_size = Some(v);
        } else if tag == DT_INIT {
            sc.init_fns.push(v);
        } else if tag == DT_FINI {
            sc.fini_fns.push(v);
        } else if tag == DT_JMPREL {
            sc.jmprelptr = Some(v);
        } else if tag == DT_PLTRELSZ {
            sc.jmprelsz = Some(v);
        } else if tag == DT_PLTREL {
            if entry.d_val != 17 {
                assert(!entry_accepted(es[i as int]));
                return None;
            }
        } else {
            assert(!entry_accepted(es[i as int]));
            return None;
        }
        i = i + 1;
    }
    proof {
        assert(es.take(es.len() as int) =~= es);
    }
    Some(sc)
}

proof fn lemma_lookup_prefix_none(table: Seq<u8>, offs: Seq<u32>, j: int)
    requires
        0 <= j <= offs.len(),
        lookup_all(table, offs.take(j)) is None,
    ensures
        lookup_all(table, offs) is None,
    decreases offs.len() - j,
{
    if j == offs.len() {
        assert(offs.take(j) =~= offs);
    } else {
        assert(offs.drop_last().take(j) =~= offs.take(j));
        lemma_lookup_prefix_none(table, offs.drop_last(), j);
    }
}

/// The names at `offs` of the string table `table`; `Err` with the parse error at the first
/// name that cannot be read.
#[verifier::rlimit(30)]
fn lookup_names(table: &StrTab, offs: &Vec<u32>) -> (r: Result<Vec<Vec<u8>>, ParseError>)
    ensures
        lookup_all(table.bytes(), offs@) is None <==> r is Err,
        r matches Ok(v) ==> lookup_all(table.bytes(), offs@) == Some(names_view(v@)),
{
    let mut names: Vec<Vec<u8>> = Vec::new();
    let mut k: usize = 0;
    assert(offs@.take(0) =~= seq![]);
    while k < offs.len()
        invariant
            k <= offs@.len(),
            lookup_all(table.bytes(), offs@.take(k as int)) == Some(names_view(names@)),
        decreases offs@.len() - k,
    {
        proof { assert(offs@.take(k as int + 1).drop_last() =~= offs@.take(k as int)); }
        match table.get(offs[k] as usize) {
            Ok(name) => {
                let ghost before = names@;
                names.push(name);
                proof { assert(names_view(names@) =~= names_view(before).push(name@)); }
            },
            Err(e) => {
                proof { lemma_lookup_prefix_none(table.bytes(), offs@, k as int + 1); }
                return Err(e);
            },
        }
        k = k + 1;
    }
    proof { assert(offs@.take(offs@.len() as int) =~= offs@); }
    Ok(names)
}

/// Reads the dynamic table of an object whose bytes are `code`; see `get_dynamic_data`. `None`
/// where the loader stops with a panic: an unknown tag, an unexpected relocation entry format,
/// or a string or relocation table that does not lie in the file.
pub fn try_get_dynamic_data(code: &[u8], table: Vec<DynEntry>) -> (r: Option<Result<DynamicStruct, IntepretError>>)
    ensures
        dyn_matches(r, dyn_outcome(code@, table@)),
{
    let sc = match scan_dynamic(&table) {
        Some(sc) => sc,
        None => { return None; },
    };
    let mut needed_strs: Vec<Vec<u8>> = Vec::new();
    if sc.needed_offsets.len() != 0 {
        let (st, sz) = match (sc.strtab, sc.strsz) {
            (Some(st), Some(sz)) => (st, sz),
            _ => {
                return Some(Err(IntepretError::InvalidElfState(ElfStateError::NeedStrtab)));
            },
        };
        if st as u64 + sz as u64 > u32::MAX as u64 || st as u64 + sz as u64 > code.len() as u64 {
            return None;
        }
        let slice = vstd::slice::slice_subrange(code, st as usize, (st + sz) as usize);
        let dyntab = StrTab::new(slice);
        match lookup_names(&dyntab, &sc.needed_offsets) {
            Ok(v) => { needed_strs = v; },
            Err(e) => { return Some(Err(IntepretError::Parse(e))); },
        }
    }
    proof {
        if sc.needed_offsets@.len() == 0 {
            assert(names_view(needed_strs@) =~= seq![]);
        }
    }
    let init_array = match PtrSubslice::maybe_from(sc.init_ptr, sc.init_size) {
        Ok(a) => a,
        Err(e) => { return Some(Err(e)); },
    };
    let fini_array = match PtrSubslice::maybe_from(sc.fini_ptr, sc.fini_size) {
        Ok(a) => a,
        Err(e) => { return Some(Err(e)); },
    };
    let rel = match PtrSubslice::maybe_from(sc.relptr, sc.relsz) {
        Ok(a) => a,
        Err(e) => { return Some(Err(e)); },
    };
    let rel_array = match rels_in(code, rel) {
        None => { return None; },
        Some(Err(e)) => { return Some(Err(e)); },
        Some(Ok(v)) => v,
    };
    let jmprel = match PtrSubslice::maybe_from(sc.jmprelptr, sc.jmprelsz) {
        Ok(a) => a,
        Err(e) => { return Some(Err(e)); },
    };
    let jmprel_array = match rels_in(code, jmprel) {
        None => { return None; },
        Some(Err(e)) => { return Some(Err(e)); },
        Some(Ok(v)) => v,
    };
    Some(Ok(DynamicStruct {
        init_fns: sc.init_fns,
        fini_fns: sc.fini_fns,
        init_array,
        fini_array,
        rel_array,
        jmprel_array,
        needed: needed_strs,
    }))
}


/// Reads the dynamic table of an object whose bytes are `code`: the init and fini functions,
/// the init and fini arrays, the relocation tables and the names of the objects it needs. The
/// table must be one the loader handles: every tag known, 8-byte `Elf32_Rel` entries, `DT_REL`
/// PLT relocations, and its string and relocation tables inside the file.
pub fn get_dynamic_data(code: &[u8], table: Vec<DynEntry>) -> (r: Result<DynamicStruct, IntepretError>)
    requires
        dyn_outcome(code@, table@) is Some,
    ensures
        match dyn_outcome(code@, table@)->0 {
            Ok(m) => (r matches Ok(d) && d@ == m),
            Err(e) => (r matches Err(x) && x@ == e),
        },
{
    match try_get_dynamic_data(code, table) {
        Some(r) => r,
        None => {
            proof {
                assert(false);
            }
            Err(IntepretError::LayoutError)
        },
    }
}

/// Tags the loader reads past without using them.
pub open spec fn tag_ignored(t: i64) -> bool {
    t == DT_SONAME || t == DT_FLAGS || t == DT_FLAGS_1 || t == DT_RELCOUNT || t == DT_SYMTAB
        || t == DT_SYMENT || t == DT_GNU_HASH || t == DT_DEBUG || t == DT_PLTGOT || t == DT_NULL
}

/// The entries of `es` whose tags the loader uses, in order.
pub open spec fn used_entries(es: Seq<DynEntry>) -> Seq<DynEntry>
    decreases es.len(),
{
    if es.len() == 0 {
        es
    } else if tag_ignored(es.last().d_tag) {
        used_entries(es.drop_last())
    } else {
        used_entries(es.drop_last()).push(es.last())
    }
}

proof fn lemma_used_vals(es: Seq<DynEntry>, t: i64)
    requires
        !tag_ignored(t),
    ensures
        last_val(used_entries(es), t) == last_val(es, t),
        all_vals(used_entries(es), t) == all_vals(es, t),
    decreases es.len(),
{
    if es.len() > 0 {
        lemma_used_vals(es.drop_last(), t);
        if !tag_ignored(es.last().d_tag) {
            let k = used_entries(es.drop_last());
            assert(k.push(es.last()).drop_last() =~= k);
        }
    }
}

proof fn lemma_entries_ok_last(es: Seq<DynEntry>)
    requires
        es.len() > 0,
    ensures
        dyn_entries_ok(es) <==> dyn_entries_ok(es.drop_last()) && entry_accepted(es.last()),
{
    if dyn_entries_ok(es.drop_last()) && entry_accepted(es.last()) {
        assert forall|i: int| 0 <= i < es.len() implies #[trigger] entry_accepted(es[i]) by {
            if i < es.len() - 1 {
                assert(es[i] == es.drop_last()[i]);
            }
        }
    }
    if dyn_entries_ok(es) {
        assert forall|i: int| 0 <= i < es.drop_last().len() implies #[trigger] entry_accepted(es.drop_last()[i]) by {
            assert(es[i] == es.drop_last()[i]);
        }
        assert(entry_accepted(es[es.len() - 1]));
    }
}

proof fn lemma_used_ok(es: Seq<DynEntry>)
    ensures
        dyn_entries_ok(used_entries(es)) == dyn_entries_ok(es),
    decreases es.len(),
{
    if es.len() == 0 {
        assert(used_entries(es) == es);
    } else {
        lemma_used_ok(es.drop_last());
        lemma_entries_ok_last(es);
        let k = used_entries(es.drop_last());
        if !tag_ignored(es.last().d_tag) {
            assert(k.push(es.last()).drop_last() =~= k);
            lemma_entries_ok_last(k.push(es.last()));
        }
    }
}

proof fn lemma_outcome_used(code: Seq<u8>, es: Seq<DynEntry>)
    ensures
        dyn_outcome(code, used_entries(es)) == dyn_outcome(code, es),
{
    let u = used_entries(es);
    lemma_used_ok(es);
    lemma_used_vals(es, DT_NEEDED);
    lemma_used_vals(es, DT_STRTAB);
    lemma_used_vals(es, DT_STRSZ);
    lemma_used_vals(es, DT_INIT_ARRAY);
    lemma_used_vals(es, DT_INIT_ARRAYSZ);
    lemma_used_vals(es, DT_FINI_ARRAY);
    lemma_used_vals(es, DT_FINI_ARRAYSZ);
    lemma_used_vals(es, DT_REL);
    lemma_used_vals(es, DT_RELSZ);
    lemma_used_vals(es, DT_JMPREL);
    lemma_used_vals(es, DT_PLTRELSZ);
    lemma_used_vals(es, DT_INIT);
    lemma_used_vals(es, DT_FINI);
}

/// Entries whose tags the loader reads past (`DT_SONAME`, `DT_FLAGS`, `DT_FLAGS_1`,
/// `DT_RELCOUNT`, `DT_SYMTAB`, `DT_SYMENT`, `DT_GNU_HASH`, `DT_DEBUG`, `DT_PLTGOT`, `DT_NULL`)
/// do not matter: two tables that differ only in such entries, wherever they stand, give the
/// same outcome.
pub proof fn lemma_ignored_tags(code: Seq<u8>, es1: Seq<DynEntry>, es2: Seq<DynEntry>)
    requires
        used_entries(es1) == used_entries(es2),
    ensures
        dyn_outcome(code, es1) == dyn_outcome(code, es2),
{
    lemma_outcome_used(code, es1);
    lemma_outcome_used(code, es2);
}

/// The `DT_NEEDED` entries of a table, in order.
pub open spec fn needed_entries(es: Seq<DynEntry>) -> Seq<DynEntry>
    decreases es.len(),
{
    if es.len() == 0 {
        es
    } else if es.last().d_tag == DT_NEEDED {
        needed_entries(es.drop_last()).push(es.last())
    } else {
        needed_entries(es.drop_last())
    }
}

proof fn lemma_needed_vals(es: Seq<DynEntry>)
    ensures
        all_vals(es, DT_NEEDED).len() == needed_entries(es).len(),
        forall|i: int| 0 <= i < needed_entries(es).len() ==> #[trigger] all_vals(es, DT_NEEDED)[i]
            == needed_entries(es)[i].d_val as u32,
    decreases es.len(),
{
    if es.len() > 0 {
        lemma_needed_vals(es.drop_last());
    }
}

proof fn lemma_lookup_all(table: Seq<u8>, offs: Seq<u32>)
    ensures
        lookup_all(table, offs) matches Some(names) ==> {
            &&& names.len() == offs.len()
            &&& forall|i: int| 0 <= i < offs.len() ==> #[trigger] strtab_raw(table, offs[i] as int) == Some(names[i])
        },
    decreases offs.len(),
{
    if offs.len() > 0 {
        lemma_lookup_all(table, offs.drop_last());
        if let Some(names) = lookup_all(table, offs) {
            let prev = lookup_all(table, offs.drop_last())->0;
            assert forall|i: int| 0 <= i < offs.len() implies #[trigger] strtab_raw(table, offs[i] as int) == Some(names[i]) by {
                if i < offs.len() - 1 {
                    assert(offs[i] == offs.drop_last()[i]);
                    assert(names[i] == prev[i]);
                }
            }
        }
    }
}

proof fn lemma_outcome_needed(code: Seq<u8>, es: Seq<DynEntry>)
    ensures
        dyn_outcome(code, es) matches Some(Ok(d)) ==> d.needed == if all_vals(es, DT_NEEDED).len() > 0 {
            lookup_all(
                code.subrange(last_val(es, DT_STRTAB)->0 as int, last_val(es, DT_STRTAB)->0 + last_val(es, DT_STRSZ)->0),
                all_vals(es, DT_NEEDED),
            )->0
        } else {
            seq![]
        },
{
}

/// The objects a table says are needed are named once each, in table order: one name per
/// `DT_NEEDED` entry, the `i`-th name being the string-table entry at the `i`-th such entry's
/// value.
proof fn lemma_needed_from_lookup(es: Seq<DynEntry>, strs: Seq<u8>, names: Seq<Seq<u8>>)
    requires
        lookup_all(strs, all_vals(es, DT_NEEDED)) == Some(names),
    ensures
        names.len() == needed_entries(es).len(),
        forall|i: int| 0 <= i < needed_entries(es).len() ==> strtab_raw(strs, needed_entries(es)[i].d_val as u32 as int)
            == Some(#[trigger] names[i]),
{
    lemma_needed_vals(es);
    lemma_lookup_all(strs, all_vals(es, DT_NEEDED));
    assert forall|i: int| 0 <= i < needed_entries(es).len() implies strtab_raw(strs, needed_entries(es)[i].d_val as u32 as int)
        == Some(#[trigger] names[i]) by {
        assert(all_vals(es, DT_NEEDED)[i] == needed_entries(es)[i].d_val as u32);
    }
}

/// The objects a table says are needed are named once each, in table order: one name per
/// `DT_NEEDED` entry, the `i`-th name being the string-table entry at the `i`-th such entry's
/// value.
pub proof fn lemma_needed_names(code: Seq<u8>, es: Seq<DynEntry>)
    ensures
        dyn_outcome(code, es) matches Some(Ok(d)) ==> {
            let ns = needed_entries(es);
            let strs = code.subrange(last_val(es, DT_STRTAB)->0 as int, last_val(es, DT_STRTAB)->0 + last_val(es, DT_STRSZ)->0);
            &&& d.needed.len() == ns.len()
            &&& forall|i: int| 0 <= i < ns.len() ==> strtab_raw(strs, ns[i].d_val as u32 as int) == Some(#[trigger] d.needed[i])
        },
{
    lemma_needed_vals(es);
    lemma_outcome_needed(code, es);
    let strs = code.subrange(last_val(es, DT_STRTAB)->0 as int, last_val(es, DT_STRTAB)->0 + last_val(es, DT_STRSZ)->0);
    if let Some(Ok(d)) = dyn_outcome(code, es) {
        if all_vals(es, DT_NEEDED).len() > 0 {
            lemma_needed_from_lookup(es, strs, d.needed);
        }
    }
}

} // verus!
