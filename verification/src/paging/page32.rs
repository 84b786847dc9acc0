use vstd::prelude::*;
use crate::core64::kalloc::{SimpleAllocator, lemma_page_size_pow2};
use crate::paging::{PageType, Permission};

verus! {

/// Error returned when a linear page is already mapped.
#[derive(Clone, Copy, Debug)]
pub enum PageError {
    PageExists,
}

/// One 32-bit entry of a page directory or a page table; the raw value 0 is the empty entry.
#[derive(Clone, Copy, Debug)]
pub struct Page32Element {
    pub inner: u32,
}

/// The flag bits (0..=8) that `new_exists` sets below the frame address; bit 0 is "present".
pub open spec fn flag_bits(
    global: bool, pat_or_sz: bool, dirty: bool, accessed: bool,
    cache_disable: bool, write_through: bool, allow_user: bool, allow_write: bool,
) -> u32 {
    ((if global { 0x100u32 } else { 0 })
        + (if pat_or_sz { 0x80u32 } else { 0 })
        + (if dirty { 0x40u32 } else { 0 })
        + (if accessed { 0x20u32 } else { 0 })
        + (if cache_disable { 0x10u32 } else { 0 })
        + (if write_through { 0x8u32 } else { 0 })
        + (if allow_user { 0x4u32 } else { 0 })
        + (if allow_write { 0x2u32 } else { 0 })
        + 1) as u32
}

pub proof fn lemma_frame_plus_flags(ptr: u32, f: u32)
    requires
        ptr % 0x1000 == 0,
        f <= 0x1FF,
    ensures
        ptr + f <= u32::MAX,
        (ptr + f) as u32 & 0xFFFFF000 == ptr,
        (ptr + f) as u32 & 0xFFF == f,
{
    assert(ptr & 0xFFF == 0) by (bit_vector) requires ptr % 0x1000 == 0;
    assert(ptr + f <= u32::MAX && (ptr + f) as u32 & 0xFFFFF000 == ptr && (ptr + f) as u32 & 0xFFF == f) by (bit_vector)
        requires ptr & 0xFFF == 0, f <= 0x1FF;
}

impl Page32Element {
    /// Builds a present entry for the page-aligned frame `ptr` with the given flags.
    pub fn new_exists(
        ptr: u32, global: bool, pat_or_sz: bool, dirty: bool, accessed: bool,
        cache_disable: bool, write_through: bool, allow_user: bool, allow_write: bool,
    ) -> (r: Self)
        requires
            ptr % 0x1000 == 0,
        ensures
            r.inner == ptr + flag_bits(global, pat_or_sz, dirty, accessed, cache_disable, write_through, allow_user, allow_write),
            r.inner & 0xFFFFF000 == ptr,
            r.inner & 0xFFF == flag_bits(global, pat_or_sz, dirty, accessed, cache_disable, write_through, allow_user, allow_write),
    {
        let mut flags: u32 = 1;
        if allow_write { flags = flags + 0x2; }
        if allow_user { flags = flags + 0x4; }
        if write_through { flags = flags + 0x8; }
        if cache_disable { flags = flags + 0x10; }
        if accessed { flags = flags + 0x20; }
        if dirty { flags = flags + 0x40; }
        if pat_or_sz { flags = flags + 0x80; }
        if global { flags = flags + 0x100; }
        assert(flags == flag_bits(global, pat_or_sz, dirty, accessed, cache_disable, write_through, allow_user, allow_write));
        proof { lemma_frame_plus_flags(ptr, flags); }
        let val = ptr + flags;
        Page32Element { inner: val }
    }
}


impl Page32Element {
    /// The empty entry.
    pub fn new_empty() -> (r: Self)
        ensures
            r.inner == 0,
    {
        Page32Element { inner: 0 }
    }

    /// The frame an entry points at, or `None` for the empty entry.
    pub fn get_ptr(&self) -> (r: Option<u32>)
        ensures
            r == (if self.inner == 0 { None } else { Some(self.inner & 0xFFFFF000) }),
    {
        if self.inner == 0 {
            return None;
        }
        Some(self.inner & 0xFFFFF000)
    }

    pub fn is_empty(&self) -> (r: bool)
        ensures
            r == (self.inner == 0),
    {
        self.inner == 0
    }

    /// The raw 32-bit value the hardware reads.
    pub fn into_u32(self) -> (r: u32)
        ensures
            r == self.inner,
    {
        self.inner
    }
}

/// Number of entries in a page directory or a page table.
pub const ENTRIES: usize = 1024;

/// Flags `PageTable::insert_page` gives an entry: present, write-through, and user / write as asked.
pub open spec fn pte_flags(page_type: PageType, perms: Permission) -> u32 {
    flag_bits(false, false, false, false, false, true, perms == Permission::User, page_type == PageType::Write)
}

/// Flags of a directory entry: present, write-through, user and write.
pub open spec fn pde_flags() -> u32 {
    flag_bits(false, false, false, false, false, true, true, true)
}

/// Linear page number of an address (bits 12..32).
pub open spec fn page_number(addr: u32) -> u32 {
    addr >> 12
}

/// Index into the page directory (bits 22..32).
pub open spec fn dir_index(addr: u32) -> int {
    (addr >> 22) as int
}

pub proof fn lemma_indices(addr: u32)
    ensures
        (addr >> 12) < 0x100000,
        (addr >> 22) as int == (addr >> 12) as int / 1024,
        ((addr >> 12) & 0x3FF) as int == (addr >> 12) as int % 1024,
        (addr & !0xFFFu32) >> 12 == addr >> 12,
        (addr & !0xFFFu32) >> 22 == addr >> 22,
        addr & 0xFFF <= 0xFFF,
{
    assert((addr >> 12) < 0x100000 && (addr >> 22) == (addr >> 12) / 1024 && ((addr >> 12) & 0x3FF) == (addr >> 12) % 1024
        && (addr & !0xFFFu32) >> 12 == addr >> 12 && (addr & !0xFFFu32) >> 22 == addr >> 22 && addr & 0xFFF <= 0xFFF) by (bit_vector);
}

/// One page table: 1024 entries, stored in the frame `frame`.
pub struct PageTable {
    frame: u32,
    raw: Vec<Page32Element>,
}

impl PageTable {
    pub closed spec fn wf(self) -> bool {
        &&& self.raw@.len() == ENTRIES
        &&& self.frame % 0x1000 == 0
    }

    pub closed spec fn entry(self, i: int) -> u32 {
        self.raw@[i].inner
    }

    pub closed spec fn frame(self) -> u32 {
        self.frame
    }

    fn new_in(a: &mut SimpleAllocator) -> (t: Self)
        requires
            old(a).dataptr + 0x1FFF <= u32::MAX,
        ensures
            t.wf(),
            forall|i: int| 0 <= i < ENTRIES ==> #[trigger] t.entry(i) == 0,
            old(a).dataptr <= t.frame(),
            final(a).dataptr == t.frame() + 0x1000,
            final(a).dataptr <= old(a).dataptr + 0x1FFF,
    {
        proof { lemma_page_size_pow2(); }
        let frame = a.allocate(0x1000, 0x1000);
        let mut raw: Vec<Page32Element> = Vec::new();
        let mut i: usize = 0;
        while i < ENTRIES
            invariant
                i <= ENTRIES,
                raw@.len() == i,
                forall|j: int| 0 <= j < i ==> (#[trigger] raw@[j]).inner == 0,
            decreases ENTRIES - i,
        {
            raw.push(Page32Element::new_empty());
            i = i + 1;
        }
        PageTable { frame, raw }
    }

    /// Maps the page of `addr` to the frame `value`; fails if that slot is taken.
    fn insert_page(&mut self, addr: u32, value: u32, page_type: PageType, perms: Permission) -> (r: Result<(), PageError>)
        requires
            old(self).wf(),
            value % 0x1000 == 0,
        ensures
            final(self).wf(),
            final(self).frame() == old(self).frame(),
            ({
                let i = (addr >> 12) as int % 1024;
                if old(self).entry(i) != 0 {
                    &&& r == Err::<(), PageError>(PageError::PageExists)
                    &&& *final(self) == *old(self)
                } else {
                    &&& r is Ok
                    &&& forall|j: int| 0 <= j < ENTRIES ==> #[trigger] final(self).entry(j)
                        == if j == i { (value + pte_flags(page_type, perms)) as u32 } else { old(self).entry(j) }
                }
            }),
    {
        let write = match page_type {
            PageType::Write => true,
            PageType::Read => false,
            PageType::Execute => false,
        };
        let allow_user = match perms {
            Permission::Supervisor => false,
            Permission::User => true,
        };
        let entry = Page32Element::new_exists(value, false, false, false, false, false, true, allow_user, write);
        proof { lemma_indices(addr); }
        let index = ((addr >> 12) & 0x3FF) as usize;
        if !self.raw[index].is_empty() {
            return Err(PageError::PageExists);
        }
        self.raw.set(index, entry);
        Ok(())
    }

    /// The frame mapped for the page of `addr`, if any.
    fn get_page(&self, addr: u32) -> (r: Option<u32>)
        requires
            self.wf(),
        ensures
            ({
                let e = self.entry((addr >> 12) as int % 1024);
                r == if e == 0 { None } else { Some(e & 0xFFFFF000) }
            }),
    {
        proof { lemma_indices(addr); }
        self.raw[((addr >> 12) & 0x3FF) as usize].get_ptr()
    }
}

/// The page directory: the raw entries the hardware reads, beside the tables they point at.
pub struct PageDirectory {
    frame: u32,
    raw: Vec<Page32Element>,
    repr: Vec<Option<PageTable>>,
}

impl PageDirectory {
    pub closed spec fn wf(self, a: SimpleAllocator) -> bool {
        &&& self.raw@.len() == ENTRIES
        &&& self.repr@.len() == ENTRIES
        &&& self.frame % 0x1000 == 0
        &&& self.frame + 0x1000 <= a.dataptr
        &&& forall|d: int| 0 <= d < ENTRIES ==> match #[trigger] self.repr@[d] {
            Some(t) => t.wf() && t.frame() + 0x1000 <= a.dataptr && t.frame() != self.frame
                && self.raw@[d].inner == t.frame() + pde_flags(),
            None => self.raw@[d].inner == 0,
        }
        &&& forall|d1: int, d2: int| 0 <= d1 < ENTRIES && 0 <= d2 < ENTRIES && d1 != d2
            && (#[trigger] self.repr@[d1]) is Some && (#[trigger] self.repr@[d2]) is Some
            ==> self.repr@[d1]->Some_0.frame() != self.repr@[d2]->Some_0.frame()
    }

    /// Raw entry of linear page `pn`, 0 where no table or no mapping exists.
    pub closed spec fn entry(self, pn: int) -> u32 {
        match self.repr@[pn / 1024] {
            Some(t) => t.entry(pn % 1024),
            None => 0,
        }
    }

    pub closed spec fn has_table(self, d: int) -> bool {
        self.repr@[d] is Some
    }

    fn new_in(a: &mut SimpleAllocator) -> (r: Self)
        requires
            old(a).dataptr + 0x1FFF <= u32::MAX,
        ensures
            r.wf(*final(a)),
            forall|pn: int| 0 <= pn < 0x100000 ==> #[trigger] r.entry(pn) == 0,
            forall|d: int| 0 <= d < ENTRIES ==> !(#[trigger] r.has_table(d)),
            final(a).dataptr <= old(a).dataptr + 0x1FFF,
            old(a).dataptr <= final(a).dataptr,
    {
        proof { lemma_page_size_pow2(); }
        let frame = a.allocate(0x1000, 0x1000);
        let mut raw: Vec<Page32Element> = Vec::new();
        let mut repr: Vec<Option<PageTable>> = Vec::new();
        let mut i: usize = 0;
        while i < ENTRIES
            invariant
                i <= ENTRIES,
                raw@.len() == i,
                repr@.len() == i,
                forall|j: int| 0 <= j < i ==> (#[trigger] raw@[j]).inner == 0,
                forall|j: int| 0 <= j < i ==> (#[trigger] repr@[j]) is None,
            decreases ENTRIES - i,
        {
            raw.push(Page32Element::new_empty());
            repr.push(None);
            i = i + 1;
        }
        let r = PageDirectory { frame, raw, repr };
        assert forall|pn: int| 0 <= pn < 0x100000 implies #[trigger] r.entry(pn) == 0 by {
            assert(r.repr@[pn / 1024] is None);
        }
        r
    }
}


impl PageDirectory {
    /// Makes sure a page table exists for the directory slot of `addr`, taking a frame from `a`
    /// when it does not, and points the raw directory entry at that table.
    fn get_page_table_mut(&mut self, a: &mut SimpleAllocator, addr: u32)
        requires
            old(self).wf(*old(a)),
            old(self).has_table(dir_index(addr)) || old(a).dataptr + 0x1FFF <= u32::MAX,
        ensures
            final(self).wf(*final(a)),
            forall|d: int| 0 <= d < ENTRIES ==> (#[trigger] final(self).has_table(d) <==> (old(self).has_table(d) || d == dir_index(addr))),
            forall|pn: int| 0 <= pn < 0x100000 ==> #[trigger] final(self).entry(pn) == old(self).entry(pn),
            old(self).has_table(dir_index(addr)) ==> final(a).dataptr == old(a).dataptr,
            old(a).dataptr <= final(a).dataptr <= old(a).dataptr + 0x1FFF,
            final(self).repr@[dir_index(addr)] is Some,
            old(self).repr@[dir_index(addr)] is Some ==> final(self).repr@[dir_index(addr)] == old(self).repr@[dir_index(addr)],
            forall|d: int| 0 <= d < ENTRIES && d != dir_index(addr) ==> #[trigger] final(self).repr@[d] == old(self).repr@[d],
    {
        proof { lemma_indices(addr); }
        let d = (addr >> 22) as usize;
        let ghost old_self = *self;
        let ghost old_a = *a;
        let mut slot: Option<PageTable> = None;
        self.repr.set_and_swap(d, &mut slot);
        let table = match slot {
            Some(t) => t,
            None => PageTable::new_in(a),
        };
        let item = Page32Element::new_exists(table.frame, false, false, false, false, false, true, true, true);
        self.raw.set(d, item);
        self.repr.set(d, Some(table));
        proof {
            assert forall|pn: int| 0 <= pn < 0x100000 implies #[trigger] self.entry(pn) == old_self.entry(pn) by {
                if pn / 1024 == d as int {
                    if old_self.repr@[d as int] is None {
                        assert(table.entry(pn % 1024) == 0);
                    }
                }
            }
            assert forall|d1: int, d2: int| 0 <= d1 < ENTRIES && 0 <= d2 < ENTRIES && d1 != d2
                && (#[trigger] self.repr@[d1]) is Some && (#[trigger] self.repr@[d2]) is Some
                implies self.repr@[d1]->Some_0.frame() != self.repr@[d2]->Some_0.frame() by {
                if old_self.repr@[d as int] is None && (d1 == d as int || d2 == d as int) {
                    assert(old_self.repr@[d1] is Some ==> old_self.repr@[d1]->Some_0.frame() + 0x1000 <= old_a.dataptr);
                    assert(old_self.repr@[d2] is Some ==> old_self.repr@[d2]->Some_0.frame() + 0x1000 <= old_a.dataptr);
                }
            }
        }
    }

    /// The page table covering `addr`, if one was created.
    fn get_page_table(&self, addr: u32) -> (r: Option<&PageTable>)
        requires
            self.repr@.len() == ENTRIES,
        ensures
            r == match self.repr@[dir_index(addr)] {
                Some(t) => Some(&t),
                None => None,
            },
    {
        proof { lemma_indices(addr); }
        match &self.repr[(addr >> 22) as usize] {
            Some(t) => Some(t),
            None => None,
        }
    }
}

/// A two-level 32-bit page map together with the allocator its tables come from.
pub struct PageMap32 {
    inner: PageDirectory,
    a: SimpleAllocator,
}

/// The pages `pn..pn+n` are all unmapped in `m`.
pub open spec fn all_free(m: Map<u32, u32>, pn: int, n: int) -> bool {
    forall|j: int| 0 <= j < n ==> !#[trigger] m.contains_key((pn + j) as u32)
}

/// The mappings `insert_many` makes for its first `n` pages.
pub open spec fn span(pn: int, value: u32, n: int, flags: u32) -> Map<u32, u32> {
    Map::new(|p: u32| pn <= p < pn + n, |p: u32| (value + (p - pn) * 0x1000 + flags) as u32)
}

/// Number of directory slots the pages `pn..pn+n` fall in.
pub open spec fn dirs_spanned(pn: int, n: int) -> int {
    if n <= 0 { 0 } else { (pn + n - 1) / 1024 - pn / 1024 + 1 }
}

/// The physical address `addr` translates to under the mappings `m`: the frame of its page's
/// entry plus its offset in the page; `None` when its page is not mapped.
pub open spec fn translate(m: Map<u32, u32>, addr: u32) -> Option<u32> {
    if m.contains_key(page_number(addr)) {
        Some(((m[page_number(addr)] & 0xFFFFF000) + (addr & 0xFFF)) as u32)
    } else {
        None
    }
}

impl View for PageMap32 {
    type V = Map<u32, u32>;

    /// Linear page number to raw page-table entry, for every mapped page.
    closed spec fn view(&self) -> Map<u32, u32> {
        Map::new(|pn: u32| pn < 0x100000 && self.inner.entry(pn as int) != 0, |pn: u32| self.inner.entry(pn as int))
    }
}

impl PageMap32 {
    pub closed spec fn wf(self) -> bool {
        self.inner.wf(self.a)
    }

    /// Bytes the table allocator can still hand out.
    pub closed spec fn alloc_room(self) -> int {
        u32::MAX - self.a.dataptr
    }

    /// A page table already exists for directory slot `d`.
    pub closed spec fn has_table(self, d: int) -> bool {
        self.inner.has_table(d)
    }

    /// An empty map; the directory itself takes the first frame of `a`.
    pub fn new(a: SimpleAllocator) -> (r: Self)
        requires
            a.dataptr + 0x1FFF <= u32::MAX,
        ensures
            r.wf(),
            r@ == Map::<u32, u32>::empty(),
            r.alloc_room() >= u32::MAX - a.dataptr - 0x1FFF,
            forall|d: int| 0 <= d < ENTRIES ==> !#[trigger] r.has_table(d),
    {
        let mut a = a;
        let inner = PageDirectory::new_in(&mut a);
        let r = PageMap32 { inner, a };
        assert(r@ =~= Map::<u32, u32>::empty());
        r
    }

    /// Maps the linear page of `addr` to the frame `value`; never overwrites an existing mapping.
    pub fn insert_phys(&mut self, addr: u32, value: u32, page_type: PageType, perms: Permission) -> (r: Result<(), PageError>)
        requires
            old(self).wf(),
            value % 0x1000 == 0,
            old(self).has_table(dir_index(addr)) || old(self).alloc_room() >= 0x1FFF,
        ensures
            final(self).wf(),
            final(self).has_table(dir_index(addr)),
            forall|d: int| 0 <= d < ENTRIES && #[trigger] old(self).has_table(d) ==> final(self).has_table(d),
            old(self).has_table(dir_index(addr)) ==> final(self).alloc_room() == old(self).alloc_room(),
            final(self).alloc_room() >= old(self).alloc_room() - 0x1FFF,
            if old(self)@.contains_key(page_number(addr)) {
                &&& r == Err::<(), PageError>(PageError::PageExists)
                &&& final(self)@ == old(self)@
            } else {
                &&& r is Ok
                &&& final(self)@ == old(self)@.insert(page_number(addr), (value + pte_flags(page_type, perms)) as u32)
            },
    {
        proof { lemma_indices(addr); }
        let ghost old_map = self@;
        self.inner.get_page_table_mut(&mut self.a, addr);
        let ghost mid = self.inner;
        assert(self@ =~= old_map);
        let d = (addr >> 22) as usize;
        let mut slot: Option<PageTable> = None;
        self.inner.repr.set_and_swap(d, &mut slot);
        let mut table = match slot {
            Some(t) => t,
            None => { assert(false); PageTable { frame: 0, raw: Vec::new() } },
        };
        let ghost old_table = table;
        let res = table.insert_page(addr, value, page_type, perms);
        self.inner.repr.set(d, Some(table));
        proof {
            let pn = page_number(addr);
            assert(self.inner.repr@ =~= mid.repr@.update(d as int, Some(table)));
            if res is Ok {
                assert forall|q: int| 0 <= q < 0x100000 implies #[trigger] self.inner.entry(q)
                    == if q == pn as int { (value + pte_flags(page_type, perms)) as u32 } else { mid.entry(q) } by {
                    if q / 1024 == d as int {
                        assert(table.entry(q % 1024) == if q % 1024 == pn as int % 1024 {
                            (value + pte_flags(page_type, perms)) as u32 } else { old_table.entry(q % 1024) });
                    }
                }
                lemma_frame_plus_flags(value, pte_flags(page_type, perms));
                assert(self@ =~= old_map.insert(pn, (value + pte_flags(page_type, perms)) as u32));
            } else {
                assert(self.inner.repr@ =~= mid.repr@);
                assert(self@ =~= old_map);
            }
        }
        res
    }

    /// Maps `num` consecutive linear pages from `addr` onto consecutive frames from `value`,
    /// stopping at the first page that is already mapped.
    pub fn insert_many(&mut self, addr: u32, value: u32, num: usize, page_type: PageType, perms: Permission) -> (r: Result<(), PageError>)
        requires
            old(self).wf(),
            value % 0x1000 == 0,
            num == 0 || (addr + (num - 1) * 0x1000 <= u32::MAX && value + (num - 1) * 0x1000 <= u32::MAX),
            old(self).alloc_room() >= 0x1FFF * dirs_spanned(page_number(addr) as int, num as int),
        ensures
            final(self).wf(),
            ({
                let pn = page_number(addr) as int;
                let f = pte_flags(page_type, perms);
                if all_free(old(self)@, pn, num as int) {
                    &&& r is Ok
                    &&& final(self)@ == old(self)@.union_prefer_right(span(pn, value, num as int, f))
                } else {
                    &&& r == Err::<(), PageError>(PageError::PageExists)
                    &&& exists|k: int| 0 <= k < num && all_free(old(self)@, pn, k)
                        && #[trigger] old(self)@.contains_key((pn + k) as u32)
                        && final(self)@ == old(self)@.union_prefer_right(span(pn, value, k, f))
                }
            }),
    {
        let ghost pn = page_number(addr) as int;
        let ghost f = pte_flags(page_type, perms);
        let ghost old_map = self@;
        let ghost old_room = self.alloc_room();
        proof {
            lemma_indices(addr);
            assert(old_map.union_prefer_right(span(pn, value, 0, f)) =~= old_map);
        }
        let mut ind: usize = 0;
        while ind < num
            invariant
                self.wf(),
                ind <= num,
                pn == page_number(addr) as int,
                pn < 0x100000,
                f == pte_flags(page_type, perms),
                value % 0x1000 == 0,
                num == 0 || (addr + (num - 1) * 0x1000 <= u32::MAX && value + (num - 1) * 0x1000 <= u32::MAX),
                old_room >= 0x1FFF * dirs_spanned(pn, num as int),
                all_free(old_map, pn, ind as int),
                old_map == old(self)@,
                self@ == old_map.union_prefer_right(span(pn, value, ind as int, f)),
                self.alloc_room() >= old_room - 0x1FFF * dirs_spanned(pn, ind as int),
                ind > 0 ==> self.has_table((pn + ind - 1) / 1024),
            decreases num - ind,
        {
            let i = ind as u32;
            let a_i = addr + i * 0x1000;
            let v_i = value + i * 0x1000;
            proof {
                assert((a_i >> 12) == (addr >> 12) + i) by (bit_vector)
                    requires a_i == addr + i * 0x1000, addr + i * 0x1000 <= 0xFFFFFFFFu32;
                lemma_indices(a_i);
                assert(v_i % 0x1000 == 0);
                assert(dirs_spanned(pn, ind as int + 1) <= dirs_spanned(pn, num as int));
                if ind > 0 && (pn + ind) / 1024 != (pn + ind - 1) / 1024 {
                    assert(dirs_spanned(pn, ind as int + 1) == dirs_spanned(pn, ind as int) + 1);
                }
                if ind == 0 {
                    assert(dirs_spanned(pn, 1) == 1);
                }
            }
            let ghost before = self@;
            match self.insert_phys(a_i, v_i, page_type, perms) {
                Err(e) => {
                    proof {
                        assert(!span(pn, value, ind as int, f).contains_key((pn + ind) as u32));
                        assert(old_map.contains_key((pn + ind) as u32));
                        assert(!all_free(old_map, pn, num as int));
                        let k = ind as int;
                        assert(0 <= k < num && all_free(old_map, pn, k) && old_map.contains_key((pn + k) as u32)
                            && self@ == old_map.union_prefer_right(span(pn, value, k, f)));
                    }
                    return Err(e);
                }
                Ok(()) => {}
            }
            proof {
                assert(!span(pn, value, ind as int, f).contains_key((pn + ind) as u32));
                assert(!old_map.contains_key((pn + ind) as u32));
                assert(v_i + f == value + ind * 0x1000 + f);
                assert(self@ =~= old_map.union_prefer_right(span(pn, value, ind as int + 1, f)));
                if ind > 0 && (pn + ind) / 1024 == (pn + ind - 1) / 1024 {
                    assert(dirs_spanned(pn, ind as int + 1) == dirs_spanned(pn, ind as int));
                }
            }
            ind = ind + 1;
        }
        Ok(())
    }

    /// Bytes the table allocator can still hand out.
    pub fn room(&self) -> (r: u32)
        ensures
            r == self.alloc_room(),
    {
        u32::MAX - self.a.dataptr
    }

    /// Whether a page table exists for the directory slot of `addr`.
    pub fn table_exists(&self, addr: u32) -> (r: bool)
        requires
            self.wf(),
        ensures
            r == self.has_table(dir_index(addr)),
    {
        proof { lemma_indices(addr); }
        self.inner.repr[(addr >> 22) as usize].is_some()
    }

    /// The frame the directory is stored in.
    pub closed spec fn directory_frame(self) -> u32 {
        self.inner.frame
    }

    /// The frame the table of directory slot `d` is stored in, where there is one.
    pub closed spec fn table_frame(self, d: int) -> u32 {
        self.inner.repr@[d]->Some_0.frame()
    }

    /// The directory as the hardware reads it: its frame and its 1024 raw entries, each the
    /// frame of a table with the directory flags, or 0 where the slot has no table.
    pub fn directory(&self) -> (r: (u32, Vec<u32>))
        requires
            self.wf(),
        ensures
            r.0 == self.directory_frame(),
            r.0 % 0x1000 == 0,
            r.1@.len() == ENTRIES,
            forall|d: int| 0 <= d < ENTRIES ==> #[trigger] r.1@[d] == if self.has_table(d) {
                (self.table_frame(d) + pde_flags()) as u32
            } else {
                0
            },
    {
        let mut words: Vec<u32> = Vec::new();
        let mut d: usize = 0;
        while d < ENTRIES
            invariant
                self.wf(),
                d <= ENTRIES,
                words@.len() == d,
                forall|j: int| 0 <= j < d ==> #[trigger] words@[j] == if self.has_table(j) {
                    (self.table_frame(j) + pde_flags()) as u32
                } else {
                    0
                },
            decreases ENTRIES - d,
        {
            words.push(self.inner.raw[d].into_u32());
            d = d + 1;
        }
        (self.inner.frame, words)
    }

    /// The table of directory slot `d` as the hardware reads it, where there is one: its frame
    /// and its 1024 raw entries, entry `i` being the mapping of linear page `d * 1024 + i`, or 0.
    pub fn table(&self, d: usize) -> (r: Option<(u32, Vec<u32>)>)
        requires
            self.wf(),
            d < ENTRIES,
        ensures
            r is Some <==> self.has_table(d as int),
            r matches Some(t) ==> {
                &&& t.0 == self.table_frame(d as int)
                &&& t.0 % 0x1000 == 0
                &&& t.1@.len() == ENTRIES
                &&& forall|i: int| 0 <= i < ENTRIES ==> #[trigger] t.1@[i] == if self@.contains_key((d * 1024 + i) as u32) {
                    self@[(d * 1024 + i) as u32]
                } else {
                    0
                }
            },
    {
        match &self.inner.repr[d] {
            None => None,
            Some(t) => {
                let mut words: Vec<u32> = Vec::new();
                let mut i: usize = 0;
                while i < ENTRIES
                    invariant
                        self.wf(),
                        d < ENTRIES,
                        self.inner.repr@[d as int] == Some(*t),
                        t.wf(),
                        i <= ENTRIES,
                        words@.len() == i,
                        forall|j: int| 0 <= j < i ==> #[trigger] words@[j] == t.entry(j),
                    decreases ENTRIES - i,
                {
                    words.push(t.raw[i].into_u32());
                    i = i + 1;
                }
                assert forall|i: int| 0 <= i < ENTRIES implies #[trigger] words@[i] == if self@.contains_key((d * 1024 + i) as u32) {
                    self@[(d * 1024 + i) as u32]
                } else {
                    0
                } by {
                    let pn = d * 1024 + i;
                    assert(pn / 1024 == d as int && pn % 1024 == i);
                    assert(self.inner.entry(pn) == t.entry(i));
                }
                Some((t.frame, words))
            },
        }
    }

    /// Translates a linear address to the physical address it maps to.
    pub fn get_phys(&self, addr: u32) -> (r: Option<u32>)
        requires
            self.wf(),
        ensures
            r == translate(self@, addr),
    {
        proof { lemma_indices(addr); }
        let page = addr & !0xFFFu32;
        let offset = addr & 0xFFF;
        let pt = match self.inner.get_page_table(page) {
            Some(pt) => pt,
            None => {
                return None;
            }
        };
        match pt.get_page(page) {
            Some(ptr) => {
                assert(forall|e: u32| #[trigger] (e & 0xFFFFF000u32) <= 0xFFFFF000u32) by (bit_vector);
                Some(ptr + offset)
            }
            None => None,
        }
    }
}

/// Once the page of `addr` is mapped to the frame `value`, every address in that page
/// translates to the same offset in the frame, and every address in another page translates as
/// before.
pub proof fn lemma_translate_after_insert(
    m: Map<u32, u32>,
    addr: u32,
    value: u32,
    page_type: PageType,
    perms: Permission,
    probe: u32,
)
    requires
        value % 0x1000 == 0,
    ensures
        page_number(probe) == page_number(addr) ==> translate(
            m.insert(page_number(addr), (value + pte_flags(page_type, perms)) as u32),
            probe,
        ) == Some((value + (probe & 0xFFF)) as u32),
        page_number(probe) != page_number(addr) ==> translate(
            m.insert(page_number(addr), (value + pte_flags(page_type, perms)) as u32),
            probe,
        ) == translate(m, probe),
        value + (probe & 0xFFF) <= u32::MAX,
{
    lemma_frame_plus_flags(value, pte_flags(page_type, perms));
    assert(value & 0xFFF == 0) by (bit_vector)
        requires value % 0x1000 == 0;
    assert(value + (probe & 0xFFF) <= u32::MAX) by (bit_vector)
        requires value & 0xFFF == 0;
}

/// After `insert_many` maps `n` pages from page `pn` onto frames from `value`, an address in
/// the `j`-th of those pages translates to `value + j * 0x1000` plus its offset in the page.
pub proof fn lemma_translate_span(
    m: Map<u32, u32>,
    pn: int,
    value: u32,
    n: int,
    page_type: PageType,
    perms: Permission,
    probe: u32,
)
    requires
        value % 0x1000 == 0,
        n > 0,
        value + (n - 1) * 0x1000 <= u32::MAX,
        pn <= page_number(probe) < pn + n,
    ensures
        translate(m.union_prefer_right(span(pn, value, n, pte_flags(page_type, perms))), probe)
            == Some((value + (page_number(probe) - pn) * 0x1000 + (probe & 0xFFF)) as u32),
{
    let j = page_number(probe) - pn;
    let frame = (value + j * 0x1000) as u32;
    assert(frame % 0x1000 == 0);
    let f = pte_flags(page_type, perms);
    let mm = m.union_prefer_right(span(pn, value, n, f));
    assert(span(pn, value, n, f).contains_key(page_number(probe)));
    assert(mm[page_number(probe)] == (frame + f) as u32);
    lemma_frame_plus_flags(frame, f);
    assert(frame & 0xFFF == 0) by (bit_vector)
        requires frame % 0x1000 == 0;
    assert(frame + (probe & 0xFFF) <= u32::MAX) by (bit_vector)
        requires frame & 0xFFF == 0;
}

/// The entry `insert_phys` stores for the frame `value` keeps the frame in its top 20 bits and
/// sets: present, write-through, writable exactly for a write page, user-accessible exactly for
/// a user page, and nothing else.
pub proof fn lemma_entry_bits(value: u32, page_type: PageType, perms: Permission)
    requires
        value % 0x1000 == 0,
    ensures
        ({
            let e = (value + pte_flags(page_type, perms)) as u32;
            &&& e & 0xFFFFF000 == value
            &&& e & 0x1 == 0x1
            &&& (e & 0x2 == 0x2) == (page_type == PageType::Write)
            &&& (e & 0x4 == 0x4) == (perms == Permission::User)
            &&& e & 0x8 == 0x8
            &&& e & 0xFF0 == 0
        }),
{
    let f = pte_flags(page_type, perms);
    lemma_frame_plus_flags(value, f);
    let e = (value + f) as u32;
    let w = page_type == PageType::Write;
    let u = perms == Permission::User;
    assert(f == 1 + 8 + (if u { 4u32 } else { 0 }) + (if w { 2u32 } else { 0 }));
    assert(e & 0xFFF == f);
    assert(e & 0x1 == f & 0x1 && e & 0x2 == f & 0x2 && e & 0x4 == f & 0x4 && e & 0x8 == f & 0x8
        && e & 0xFF0 == f & 0xFF0) by (bit_vector)
        requires e & 0xFFF == f;
    if u && w {
        assert(f == 15);
    } else if u {
        assert(f == 13);
    } else if w {
        assert(f == 11);
    } else {
        assert(f == 9);
    }
    assert(f == 15 ==> (f & 0x1 == 1 && f & 0x2 == 2 && f & 0x4 == 4 && f & 0x8 == 8 && f & 0xFF0 == 0)) by (bit_vector);
    assert(f == 13 ==> (f & 0x1 == 1 && f & 0x2 == 0 && f & 0x4 == 4 && f & 0x8 == 8 && f & 0xFF0 == 0)) by (bit_vector);
    assert(f == 11 ==> (f & 0x1 == 1 && f & 0x2 == 2 && f & 0x4 == 0 && f & 0x8 == 8 && f & 0xFF0 == 0)) by (bit_vector);
    assert(f == 9 ==> (f & 0x1 == 1 && f & 0x2 == 0 && f & 0x4 == 0 && f & 0x8 == 8 && f & 0xFF0 == 0)) by (bit_vector);
}

} // verus!
