use vstd::prelude::*;

verus! {

/// `align` is a power of two below 2^32.
pub open spec fn is_pow2(align: u32) -> bool {
    exists|k: u32| k < 32 && align == (1u32 << k)
}

/// The smallest multiple of `align` that is not below `p`.
pub open spec fn align_up(p: int, align: int) -> int {
    ((p + align - 1) / align) * align
}

/// A bump allocator: every allocation rounds the pointer up to the requested alignment and
/// hands out the next `size` bytes; nothing is ever freed.
pub struct SimpleAllocator {
    pub dataptr: u32,
}

pub proof fn lemma_mask_round(p: u32, align: u32)
    requires
        is_pow2(align),
        p + (align - 1) <= u32::MAX,
    ensures
        align > 0,
        ((p + (align - 1)) as u32 & !((align - 1) as u32)) as int == align_up(p as int, align as int),
        p <= ((p + (align - 1)) as u32 & !((align - 1) as u32)),
        ((p + (align - 1)) as u32 & !((align - 1) as u32)) <= p + (align - 1),
        ((p + (align - 1)) as u32 & !((align - 1) as u32)) % align == 0,
{
    let k = choose|k: u32| k < 32 && align == (1u32 << k);
    vstd::bits::lemma_u32_pow2_no_overflow(k as nat);
    vstd::bits::lemma_u32_shl_is_mul(1, k);
    assert(align as nat == vstd::arithmetic::power2::pow2(k as nat));
    let m = (align - 1) as u32;
    assert(m as nat == vstd::bits::low_bits_mask(k as nat));
    let q = (p + m) as u32;
    let r = q & !m;
    assert(r <= q && q - r == q & m && (r & m) == 0) by (bit_vector)
        requires r == q & !m;
    vstd::bits::lemma_u32_low_bits_mask_is_mod(r, k as nat);
    vstd::bits::lemma_u32_low_bits_mask_is_mod(q, k as nat);
    assert(r % align == 0);
    assert(q & m == q % align);
    assert(r as int == (q as int / align as int) * align as int) by (nonlinear_arith)
        requires r as int + q as int % align as int == q as int, align > 0
    {
        vstd::arithmetic::div_mod::lemma_fundamental_div_mod(q as int, align as int);
    }
}

/// The page size is a power of two.
pub proof fn lemma_page_size_pow2()
    ensures
        is_pow2(0x1000),
{
    assert(0x1000u32 == (1u32 << 12u32)) by (bit_vector);
}

impl SimpleAllocator {
    pub fn new(start: u32) -> (r: Self)
        ensures
            r.dataptr == start,
    {
        SimpleAllocator { dataptr: start }
    }

    /// Hands out `size` bytes aligned to `align`, after the previous allocation.
    pub fn allocate(&mut self, size: u32, align: u32) -> (out: u32)
        requires
            is_pow2(align),
            old(self).dataptr + (align - 1) + size <= u32::MAX,
        ensures
            out as int == align_up(old(self).dataptr as int, align as int),
            old(self).dataptr <= out <= old(self).dataptr + (align - 1),
            out % align == 0,
            final(self).dataptr == out + size,
    {
        proof { lemma_mask_round(self.dataptr, align); }
        let mask = align - 1;
        self.dataptr = (self.dataptr + mask) & !mask;
        let out = self.dataptr;
        self.dataptr = self.dataptr + size;
        out
    }
}

proof fn lemma_pow2_pos(align: u32)
    requires
        is_pow2(align),
    ensures
        align > 0,
{
    let k = choose|k: u32| k < 32 && align == (1u32 << k);
    assert((1u32 << k) > 0) by (bit_vector)
        requires k < 32;
}

/// Allocations never overlap: an allocation made after another starts at or after the end of
/// the earlier one, whatever the two alignments.
pub proof fn lemma_allocations_disjoint(dataptr: u32, size1: u32, align1: u32, align2: u32)
    requires
        is_pow2(align1),
        is_pow2(align2),
        dataptr + (align1 - 1) + size1 + (align2 - 1) <= u32::MAX,
    ensures
        align_up(dataptr as int, align1 as int) >= dataptr,
        align_up(align_up(dataptr as int, align1 as int) + size1, align2 as int)
            >= align_up(dataptr as int, align1 as int) + size1,
{
    lemma_pow2_pos(align1);
    lemma_pow2_pos(align2);
    lemma_mask_round(dataptr, align1);
    let first = ((dataptr + (align1 - 1)) as u32 & !((align1 - 1) as u32));
    let end = (first + size1) as u32;
    lemma_mask_round(end, align2);
}

} // verus!
