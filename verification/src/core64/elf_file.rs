//! The boundary to the `elf` crate: its types, the calls the loader makes into it, and what
//! each call is trusted to return. Everything the loader decides stands in the other modules.
use vstd::prelude::*;
use elf::ElfBytes;
use elf::ParseError;
use elf::endian::AnyEndian;
use elf::parse::ParsingTable;
use elf::string_table::StringTable;
use elf::symbol::Symbol;

verus! {

#[verifier::external_type_specification]
#[verifier::external_body]
pub struct ExParseError(ParseError);

/// Holds the `elf` crate's parsed file, carried opaquely: the type `ElfBytes` cannot be declared
/// here, its parameter being bounded by the crate's own trait.
#[verifier::external_body]
struct ElfBytesBox<'a> {
    inner: ElfBytes<'a, AnyEndian>,
}

/// Holds the `elf` crate's lazily parsed symbol table, opaquely for the same reason.
#[verifier::external_body]
struct SymbolTableBox<'a> {
    inner: ParsingTable<'a, AnyEndian, Symbol>,
}

#[verifier::external_type_specification]
#[verifier::external_body]
pub struct ExStringTable<'data>(StringTable<'data>);

/// A program header, as the `elf` crate reports it.
#[derive(Clone, Copy, Debug, PartialEq, Eq)]
pub struct SegmentHeader {
    pub p_type: u32,
    pub p_offset: u64,
    pub p_vaddr: u64,
    pub p_paddr: u64,
    pub p_filesz: u64,
    pub p_memsz: u64,
    pub p_flags: u32,
    pub p_align: u64,
}

/// A section header, as the `elf` crate reports it.
#[derive(Clone, Copy, Debug, PartialEq, Eq)]
pub struct SectionInfo {
    pub sh_name: u32,
    pub sh_type: u32,
    pub sh_flags: u64,
    pub sh_addr: u64,
    pub sh_offset: u64,
    pub sh_size: u64,
    pub sh_link: u32,
    pub sh_info: u32,
    pub sh_addralign: u64,
    pub sh_entsize: u64,
}

/// One entry of the dynamic table: its tag and its value (or pointer).
#[derive(Clone, Copy, Debug, PartialEq, Eq)]
pub struct DynEntry {
    pub d_tag: i64,
    pub d_val: u64,
}

/// A symbol-table entry: name offset, section index, binding, visibility, type, value, size.
#[derive(Clone, Copy, Debug, PartialEq, Eq)]
pub struct Sym {
    pub st_name: u32,
    pub st_shndx: u16,
    pub bind: u8,
    pub vis: u8,
    pub symtype: u8,
    pub st_value: u64,
    pub st_size: u64,
}

/// `ElfBytes::minimal_parse` accepts these bytes (file header and header tables in range).
pub uninterp spec fn elf_header_ok(code: Seq<u8>) -> bool;

/// The program headers `segments()` yields for a file that parsed, `None` when it has none.
pub uninterp spec fn elf_segments(code: Seq<u8>) -> Option<Seq<SegmentHeader>>;

/// What `section_header_by_name(name)` returns: `None` for an error, else the header found.
pub uninterp spec fn elf_section_by_name(code: Seq<u8>, name: Seq<char>) -> Option<Option<SectionInfo>>;

/// What `dynamic()` returns: `None` for an error, else the entries of the table found.
pub uninterp spec fn elf_dynamic(code: Seq<u8>) -> Option<Option<Seq<DynEntry>>>;

/// What `dynamic_symbol_table()` returns: `None` for an error, else the symbols the table
/// yields in order and the bytes of its string table.
pub uninterp spec fn elf_dynamic_symbol_table(code: Seq<u8>) -> Option<Option<(Seq<Sym>, Seq<u8>)>>;

/// The bytes `StringTable::get_raw` returns: from `offset` up to (not including) the first NUL;
/// `None` for an empty table, an offset past the end, or no NUL after the offset.
pub open spec fn strtab_raw(data: Seq<u8>, offset: int) -> Option<Seq<u8>> {
    if data.len() == 0 || offset < 0 || offset > data.len() {
        None
    } else if exists|e: int| offset <= e < data.len() && data[e] == 0 {
        let e = choose|e: int| offset <= e < data.len() && data[e] == 0
            && forall|j: int| offset <= j < e ==> data[j] != 0;
        Some(data.subrange(offset, e))
    } else {
        None
    }
}

/// A parsed ELF file, together with the bytes it was parsed from.
pub struct ElfFile<'a> {
    inner: ElfBytesBox<'a>,
    code: Ghost<Seq<u8>>,
}

/// A dynamic symbol table, together with the symbols it yields in order.
pub struct SymTab<'a> {
    inner: SymbolTableBox<'a>,
    syms: Ghost<Seq<Sym>>,
}

/// A string table, together with its bytes.
pub struct StrTab<'a> {
    inner: StringTable<'a>,
    bytes: Ghost<Seq<u8>>,
}

impl<'a> ElfFile<'a> {
    pub closed spec fn code(self) -> Seq<u8> {
        self.code@
    }

    /// `ElfBytes::minimal_parse`: reads the file header and locates the section and program
    /// header tables. Trusted: it succeeds exactly when `elf_header_ok` holds of the bytes.
    #[verifier::external_body]
    pub(crate) fn minimal_parse(code: &'a [u8]) -> (r: Result<ElfFile<'a>, ParseError>)
        ensures
            r is Ok <==> elf_header_ok(code@),
            r matches Ok(f) ==> f.code() == code@,
    {
        match ElfBytes::<AnyEndian>::minimal_parse(code) {
            Ok(inner) => Ok(ElfFile { inner: ElfBytesBox { inner }, code: Ghost(code@) }),
            Err(e) => Err(e),
        }
    }
}


impl<'a> ElfFile<'a> {
    /// `ElfBytes::segments`, each program header copied field for field. Trusted: the headers
    /// are `elf_segments` of the parsed bytes.
    #[verifier::external_body]
    pub(crate) fn segments(&self) -> (r: Option<Vec<SegmentHeader>>)
        ensures
            r matches Some(v) ==> elf_segments(self.code()) == Some(v@),
            r is None ==> elf_segments(self.code()) is None,
    {
        self.inner.inner.segments().map(|table| table.into_iter().map(|h| SegmentHeader {
            p_type: h.p_type, p_offset: h.p_offset, p_vaddr: h.p_vaddr, p_paddr: h.p_paddr,
            p_filesz: h.p_filesz, p_memsz: h.p_memsz, p_flags: h.p_flags, p_align: h.p_align,
        }).collect())
    }

    /// `ElfBytes::section_header_by_name`, the header copied field for field. Trusted: the
    /// outcome is `elf_section_by_name` of the parsed bytes and the name.
    #[verifier::external_body]
    pub(crate) fn section_header_by_name(&self, name: &str) -> (r: Result<Option<SectionInfo>, ParseError>)
        ensures
            r matches Ok(x) ==> elf_section_by_name(self.code(), name@) == Some(x),
            r is Err ==> elf_section_by_name(self.code(), name@) is None,
    {
        self.inner.inner.section_header_by_name(name).map(|o| o.map(|h| SectionInfo {
            sh_name: h.sh_name, sh_type: h.sh_type, sh_flags: h.sh_flags, sh_addr: h.sh_addr,
            sh_offset: h.sh_offset, sh_size: h.sh_size, sh_link: h.sh_link, sh_info: h.sh_info,
            sh_addralign: h.sh_addralign, sh_entsize: h.sh_entsize,
        }))
    }

    /// `ElfBytes::dynamic`, the entries the table yields copied as tag and value. Trusted: the
    /// outcome is `elf_dynamic` of the parsed bytes.
    #[verifier::external_body]
    pub(crate) fn dynamic(&self) -> (r: Result<Option<Vec<DynEntry>>, ParseError>)
        ensures
            r matches Ok(Some(v)) ==> elf_dynamic(self.code()) == Some(Some(v@)),
            r matches Ok(None) ==> elf_dynamic(self.code()) == Some(None::<Seq<DynEntry>>),
            r is Err ==> elf_dynamic(self.code()) is None,
    {
        self.inner.inner.dynamic().map(|o| o.map(|t| t.into_iter().map(|d| DynEntry { d_tag: d.d_tag, d_val: d.d_val() }).collect()))
    }

    /// `ElfBytes::dynamic_symbol_table`. Trusted: the outcome is `elf_dynamic_symbol_table` of
    /// the parsed bytes: the symbols the table yields in order and the string table's bytes.
    #[verifier::external_body]
    pub(crate) fn dynamic_symbol_table(&self) -> (r: Result<Option<(SymTab<'a>, StrTab<'a>)>, ParseError>)
        ensures
            r matches Ok(Some(p)) ==> elf_dynamic_symbol_table(self.code()) == Some(Some((p.0.syms(), p.1.bytes()))),
            r matches Ok(None) ==> elf_dynamic_symbol_table(self.code()) == Some(None::<(Seq<Sym>, Seq<u8>)>),
            r is Err ==> elf_dynamic_symbol_table(self.code()) is None,
    {
        match self.inner.inner.dynamic_symbol_table() {
            Ok(Some((s, t))) => Ok(Some((
                SymTab {
                    inner: SymbolTableBox { inner: s },
                    syms: Ghost(elf_dynamic_symbol_table(self.code())->Some_0->Some_0.0),
                },
                StrTab { inner: t, bytes: Ghost(elf_dynamic_symbol_table(self.code())->Some_0->Some_0.1) },
            ))),
            Ok(None) => Ok(None),
            Err(e) => Err(e),
        }
    }
}

impl<'a> SymTab<'a> {
    pub closed spec fn syms(self) -> Seq<Sym> {
        self.syms@
    }

    /// `SymbolTable::get`. Trusted: entry `index` parses exactly when the iteration reaches
    /// it, and then it is that entry.
    #[verifier::external_body]
    pub(crate) fn get(&self, index: usize) -> (r: Result<Sym, ParseError>)
        ensures
            r is Ok <==> index < self.syms().len(),
            r matches Ok(s) ==> s == self.syms()[index as int],
    {
        self.inner.inner.get(index).map(|s: Symbol| Sym {
            st_name: s.st_name, st_shndx: s.st_shndx, bind: s.st_bind(), vis: s.st_vis(),
            symtype: s.st_symtype(), st_value: s.st_value, st_size: s.st_size,
        })
    }

    /// The symbols the table yields when iterated (`SymbolTable::iter`).
    #[verifier::external_body]
    pub(crate) fn to_vec(&self) -> (r: Vec<Sym>)
        ensures
            r@ == self.syms(),
    {
        self.inner.inner.iter().map(|s: Symbol| Sym {
            st_name: s.st_name, st_shndx: s.st_shndx, bind: s.st_bind(), vis: s.st_vis(),
            symtype: s.st_symtype(), st_value: s.st_value, st_size: s.st_size,
        }).collect()
    }
}

impl<'a> StrTab<'a> {
    pub closed spec fn bytes(self) -> Seq<u8> {
        self.bytes@
    }

    /// `StringTable::new` over the given bytes.
    #[verifier::external_body]
    pub(crate) fn new(data: &'a [u8]) -> (r: StrTab<'a>)
        ensures
            r.bytes() == data@,
    {
        StrTab { inner: StringTable::new(data), bytes: Ghost(data@) }
    }

    /// `StringTable::get`: the bytes from `offset` to the next NUL, which must be UTF-8.
    /// Trusted as its source reads: `get_raw` and then `from_utf8`.
    #[verifier::external_body]
    pub(crate) fn get(&self, offset: usize) -> (r: Result<Vec<u8>, ParseError>)
        ensures
            r is Ok <==> (strtab_raw(self.bytes(), offset as int) matches Some(raw) && vstd::utf8::valid_utf8(raw)),
            r matches Ok(v) ==> strtab_raw(self.bytes(), offset as int) == Some(v@),
    {
        self.inner.get(offset).map(|s| s.as_bytes().to_vec())
    }
}

} // verus!
