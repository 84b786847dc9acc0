use core64::core64::kalloc::SimpleAllocator;
use core64::paging::page32::{Page32Element, PageError, PageMap32};
use core64::paging::{PageMap, PageType, Permission};

#[test]
fn element_flags_and_frame() {
    let e = Page32Element::new_exists(0x0040_3000, false, false, false, false, false, true, true, true);
    assert_eq!(e.into_u32(), 0x0040_3000 | 0x8 | 0x4 | 0x2 | 0x1);
    assert_eq!(e.get_ptr(), Some(0x0040_3000));
    assert!(!e.is_empty());
    let g = Page32Element::new_exists(0x1000, true, true, true, true, true, false, false, false);
    assert_eq!(g.into_u32(), 0x1000 | 0x1F1);
    let z = Page32Element::new_empty();
    assert!(z.is_empty());
    assert_eq!(z.get_ptr(), None);
}

#[test]
fn insert_then_translate() {
    let mut m = PageMap32::new(SimpleAllocator::new(0x10_0000));
    assert_eq!(m.get_phys(0x1234), None);
    assert!(m.insert_phys(0x0040_1000, 0x0080_0000, PageType::Write, Permission::User).is_ok());
    assert_eq!(m.get_phys(0x0040_1abc), Some(0x0080_0abc));
    assert_eq!(m.get_phys(0x0040_0fff), None);
    assert_eq!(m.get_phys(0x0040_2000), None);
}

#[test]
fn insert_never_overwrites() {
    let mut m = PageMap32::new(SimpleAllocator::new(0x10_0000));
    assert!(m.insert_phys(0x5000, 0x9000, PageType::Read, Permission::Supervisor).is_ok());
    match m.insert_phys(0x5abc, 0xA000, PageType::Write, Permission::User) {
        Err(PageError::PageExists) => {}
        _ => panic!("a mapped page must not be replaced"),
    }
    assert_eq!(m.get_phys(0x5010), Some(0x9010));
}

#[test]
fn insert_many_identity_maps_32_mib() {
    // The paging test module maps the first 8192 pages onto themselves and then one more page.
    let mut m = PageMap32::new(SimpleAllocator::new(0x0100_0000));
    assert!(m.insert_many(0, 0, 8192, PageType::Write, Permission::Supervisor).is_ok());
    assert_eq!(m.get_phys(0), Some(0));
    assert_eq!(m.get_phys(0x0123_4567), Some(0x0123_4567));
    assert_eq!(m.get_phys(0x01FF_FFFF), Some(0x01FF_FFFF));
    assert_eq!(m.get_phys(0x0200_0000), None);
    assert!(m.insert_phys(0x0200_0000, 0x0300_0000, PageType::Read, Permission::User).is_ok());
    assert_eq!(m.get_phys(0x0200_0004), Some(0x0300_0004));
}

#[test]
fn insert_many_stops_at_mapped_page() {
    let mut m = PageMap32::new(SimpleAllocator::new(0x10_0000));
    assert!(m.insert_phys(0x3000, 0x7_0000, PageType::Read, Permission::User).is_ok());
    match m.insert_many(0x1000, 0x20_0000, 4, PageType::Write, Permission::User) {
        Err(PageError::PageExists) => {}
        _ => panic!("the third page is already mapped"),
    }
    assert_eq!(m.get_phys(0x1000), Some(0x20_0000));
    assert_eq!(m.get_phys(0x2008), Some(0x20_1008));
    assert_eq!(m.get_phys(0x3008), Some(0x7_0008));
    assert_eq!(m.get_phys(0x4000), None);
}

#[test]
fn allocator_aligns_and_bumps() {
    let mut a = SimpleAllocator::new(0x1001);
    assert_eq!(a.allocate(10, 16), 0x1010);
    assert_eq!(a.dataptr, 0x101A);
    assert_eq!(a.allocate(4, 4), 0x101C);
    assert_eq!(a.allocate(0x1000, 0x1000), 0x2000);
    assert_eq!(a.dataptr, 0x3000);
}

fn map_two<M: PageMap>(m: &mut M) -> Option<u32> {
    m.insert_many(0x0040_0000, 0x0010_0000, 2, PageType::Read, Permission::User).ok()?;
    m.get_phys(0x0040_1010)
}

#[test]
fn page_map_through_the_trait() {
    let mut m = <PageMap32 as PageMap>::new(SimpleAllocator::new(0x10_0000));
    assert_eq!(map_two(&mut m), Some(0x0010_1010));
    assert!(matches!(PageMap::insert_phys(&mut m, 0x0040_0000, 0x5000, PageType::Write, Permission::User), Err(PageError::PageExists)));
}
