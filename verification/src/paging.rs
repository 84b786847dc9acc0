use vstd::prelude::*;
use crate::core64::kalloc::SimpleAllocator;
use crate::paging::page32::{
    PageError, PageMap32, all_free, dir_index, dirs_spanned, page_number, pte_flags, span, translate,
};

pub mod page32;

verus! {

/// How a mapped page may be accessed.
#[derive(Clone, Copy, Debug, PartialEq, Eq, Structural)]
pub enum PageType {
    Read,
    Write,
    Execute,
}

/// Which privilege level may access a mapped page.
#[derive(Clone, Copy, Debug, PartialEq, Eq, Structural)]
pub enum Permission {
    User,
    Supervisor,
}

/// Where the frames of newly paged allocations come from.
#[derive(Clone, Copy, Debug, PartialEq, Eq, Structural)]
pub enum AllocationStrategy {
    Kernel,
}

/// Stands for ownership of the paging structure the processor is using; there is one.
pub struct PageToken {
    _private: (),
}

impl PageToken {
    /// The token of the paging structure in use; made once, at boot.
    pub fn new() -> Self {
        PageToken { _private: () }
    }
}

/// A page map: linear pages mapped onto physical frames, with the tables it needs taken from an
/// allocator. Its mappings are the raw entries by linear page number.
pub trait PageMap: Sized {
    /// Linear page number to raw entry, for every mapped page.
    spec fn mappings(&self) -> Map<u32, u32>;

    /// The map's internal structure is consistent.
    spec fn well_formed(&self) -> bool;

    /// Bytes the table allocator can still hand out.
    spec fn table_room(&self) -> int;

    /// A table already exists for directory slot `d`.
    spec fn table_present(&self, d: int) -> bool;

    /// An empty map over tables taken from `a`.
    fn new(a: SimpleAllocator) -> (r: Self)
        requires
            a.dataptr + 0x1FFF <= u32::MAX,
        ensures
            r.well_formed(),
            r.mappings() == Map::<u32, u32>::empty(),
    ;

    /// Maps the linear page of `addr` onto the frame `value`; never overwrites a mapped page.
    fn insert_phys(&mut self, addr: u32, value: u32, page_type: PageType, perms: Permission) -> (r: Result<(), PageError>)
        requires
            old(self).well_formed(),
            value % 0x1000 == 0,
            old(self).table_present(dir_index(addr)) || old(self).table_room() >= 0x1FFF,
        ensures
            final(self).well_formed(),
            if old(self).mappings().contains_key(page_number(addr)) {
                &&& r == Err::<(), PageError>(PageError::PageExists)
                &&& final(self).mappings() == old(self).mappings()
            } else {
                &&& r is Ok
                &&& final(self).mappings() == old(self).mappings().insert(
                    page_number(addr),
                    (value + pte_flags(page_type, perms)) as u32,
                )
            },
    ;

    /// Translates a linear address to the physical address it maps to.
    fn get_phys(&self, addr: u32) -> (r: Option<u32>)
        requires
            self.well_formed(),
        ensures
            r == translate(self.mappings(), addr),
    ;

    /// Maps `num` consecutive linear pages from `addr` onto consecutive frames from `value`, one
    /// by one, stopping at the first page that is already mapped.
    fn insert_many(&mut self, addr: u32, value: u32, num: usize, page_type: PageType, perms: Permission) -> (r: Result<(), PageError>)
        requires
            old(self).well_formed(),
            value % 0x1000 == 0,
            num == 0 || (addr + (num - 1) * 0x1000 <= u32::MAX && value + (num - 1) * 0x1000 <= u32::MAX),
            old(self).table_room() >= 0x1FFF * dirs_spanned(page_number(addr) as int, num as int),
        ensures
            final(self).well_formed(),
            ({
                let pn = page_number(addr) as int;
                let f = pte_flags(page_type, perms);
                if all_free(old(self).mappings(), pn, num as int) {
                    &&& r is Ok
                    &&& final(self).mappings() == old(self).mappings().union_prefer_right(span(pn, value, num as int, f))
                } else {
                    &&& r == Err::<(), PageError>(PageError::PageExists)
                    &&& exists|k: int| 0 <= k < num && all_free(old(self).mappings(), pn, k)
                        && #[trigger] old(self).mappings().contains_key((pn + k) as u32)
                        && final(self).mappings() == old(self).mappings().union_prefer_right(span(pn, value, k, f))
                }
            }),
    ;
}

impl PageMap for PageMap32 {
    open spec fn mappings(&self) -> Map<u32, u32> {
        self@
    }

    open spec fn well_formed(&self) -> bool {
        self.wf()
    }

    open spec fn table_room(&self) -> int {
        self.alloc_room()
    }

    open spec fn table_present(&self, d: int) -> bool {
        self.has_table(d)
    }

    fn new(a: SimpleAllocator) -> (r: Self) {
        PageMap32::new(a)
    }

    fn insert_phys(&mut self, addr: u32, value: u32, page_type: PageType, perms: Permission) -> (r: Result<(), PageError>) {
        PageMap32::insert_phys(self, addr, value, page_type, perms)
    }

    fn get_phys(&self, addr: u32) -> (r: Option<u32>) {
        PageMap32::get_phys(self, addr)
    }

    fn insert_many(&mut self, addr: u32, value: u32, num: usize, page_type: PageType, perms: Permission) -> (r: Result<(), PageError>) {
        PageMap32::insert_many(self, addr, value, num, page_type, perms)
    }
}

} // verus!
