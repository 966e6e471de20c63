use wasabi::allocator::Allocator;
use wasabi::error::Error;
use wasabi::x86::{PageAttr, TranslationResult, PML4};

fn heap_with(start: u64, end: u64) -> Allocator {
    let mut heap = Allocator::new();
    assert!(heap.add_region(start, end));
    heap
}

#[test]
fn page_table_round_trip() {
    let mut heap = heap_with(0x10_0000, 0x20_0000);
    let mut root = PML4::new();
    let r = root.create_mapping(0x1000, 0x3000, 0xAAAA_0000, PageAttr::ReadWriteKernel, &mut heap);
    assert_eq!(r, Ok(()));
    let pt = root
        .next_level(0)
        .and_then(|t| t.next_level(0))
        .and_then(|t| t.next_level(0))
        .expect("the three upper tables exist");
    assert_eq!(pt.entry_value((0x2000 >> 12) & 0x1FF), Some(0xAAAA_1003));
    assert_eq!(pt.entry_value(1), Some(0xAAAA_0003));
    assert_eq!(pt.entry_value(0), Some(0));
    assert_eq!(pt.entry_value(3), Some(0));
    assert_eq!(pt.entry_value(512), None);
}

#[test]
fn next_level_is_there_for_every_present_entry() {
    let mut heap = heap_with(0x10_0000, 0x20_0000);
    let mut root = PML4::new();
    assert!(root.next_level(0).is_none());
    assert!(root.next_level(512).is_none());
    assert!(root.next_level(usize::MAX).is_none());
    assert_eq!(root.create_mapping(0x1000, 0x3000, 0xAAAA_0000, PageAttr::ReadWriteKernel, &mut heap), Ok(()));
    assert!(root.next_level(0).is_some());
    assert!(root.next_level(1).is_none());
    assert!(root.next_level(512).is_none());
    let pd = root.next_level(0).unwrap().next_level(0).unwrap();
    let pt = pd.next_level(0).unwrap();
    // on the last level: the mapped page
    assert!(pt.next_level(0).is_none());
    assert!(pt.next_level(1).is_some());
    assert!(pt.next_level(2).is_some());
    assert!(pt.next_level(3).is_none());
    assert!(pt.next_level(512).is_none());
    // a page that is made not present has nothing below its entry
    assert_eq!(root.create_mapping(0x1000, 0x2000, 0xAAAA_0000, PageAttr::NotPresent, &mut heap), Ok(()));
    let pt = root.next_level(0).unwrap().next_level(0).unwrap().next_level(0).unwrap();
    assert!(pt.next_level(1).is_none());
    assert!(pt.next_level(2).is_some());
    assert_eq!(root.create_mapping(0x1000, 0x2000, 0xF000, PageAttr::ReadWriteIo, &mut heap), Ok(()));
    let pt = root.next_level(0).unwrap().next_level(0).unwrap().next_level(0).unwrap();
    assert!(pt.next_level(1).is_some());
    assert_eq!(pt.entry_value(1), Some(0xF01b));
}

#[test]
fn mapping_takes_three_tables_from_the_heap() {
    let mut heap = heap_with(0x10_0000, 0x20_0000);
    let mut root = PML4::new();
    assert_eq!(root.create_mapping(0x1000, 0x3000, 0xAAAA_0000, PageAttr::ReadWriteKernel, &mut heap), Ok(()));
    assert_eq!(heap.live_blocks(), 3);
    // the first table comes from the start of the region, and the entry names it
    assert_eq!(root.entry_value(0), Some(0x10_0000 | 0x3));
    assert_eq!(root.next_level(0).unwrap().entry_value(0), Some(0x10_1000 | 0x3));
    // a second range in the same tables needs no memory
    assert_eq!(root.create_mapping(0x5000, 0x6000, 0x7000, PageAttr::ReadWriteIo, &mut heap), Ok(()));
    assert_eq!(heap.live_blocks(), 3);
    assert_eq!(root.leaf_entry(0x5000), Some(0x7000 | 0x1b));
}

#[test]
fn walk_finds_every_address_of_a_mapped_range() {
    let mut heap = heap_with(0x10_0000, 0x20_0000);
    let mut root = PML4::new();
    assert_eq!(root.create_mapping(0x4000_0000, 0x4000_3000, 0x1_2345_6000, PageAttr::ReadWriteKernel, &mut heap), Ok(()));
    assert_eq!(root.leaf_entry(0x4000_0000), Some(0x1_2345_6003));
    assert_eq!(root.leaf_entry(0x4000_1fff), Some(0x1_2345_7003));
    assert_eq!(root.leaf_entry(0x4000_2abc), Some(0x1_2345_8003));
    assert_eq!(
        root.translate(0x4000_2abc),
        Some(TranslationResult::PageMapped4K { phys: 0x1_2345_8abc })
    );
    // just outside the range: the table exists, the entry is clear
    assert_eq!(root.leaf_entry(0x4000_3000), Some(0));
    assert_eq!(root.translate(0x4000_3000), None);
    // far away: no table
    assert_eq!(root.leaf_entry(0x8000_0000_0000), None);
    assert_eq!(root.translate(0x8000_0000_0000), None);
}

#[test]
fn empty_range_maps_nothing() {
    let mut heap = heap_with(0x10_0000, 0x20_0000);
    let mut root = PML4::new();
    assert_eq!(root.create_mapping(0x3000, 0x3000, 0x123, PageAttr::ReadWriteKernel, &mut heap), Ok(()));
    assert_eq!(root.create_mapping(0x3000, 0x1000, 0x123, PageAttr::ReadWriteKernel, &mut heap), Ok(()));
    assert_eq!(heap.live_blocks(), 0);
    assert_eq!(root.entry_value(0), Some(0));
    assert!(root.next_level(0).is_none());
}

#[test]
fn misaligned_physical_address_is_refused() {
    let mut heap = heap_with(0x10_0000, 0x20_0000);
    let mut root = PML4::new();
    let r = root.create_mapping(0x1000, 0x2000, 0xAAAA_0010, PageAttr::ReadWriteKernel, &mut heap);
    assert_eq!(r, Err(Error::Misaligned));
    assert_eq!(Error::Misaligned.message(), "phys is not aligned");
    // the tables on the way were created before the address was looked at
    assert_eq!(heap.live_blocks(), 3);
    assert_eq!(root.leaf_entry(0x1000), Some(0));
}

#[test]
fn mapping_without_memory_fails() {
    let mut heap = Allocator::new();
    let mut root = PML4::new();
    let r = root.create_mapping(0x1000, 0x2000, 0xAAAA_0000, PageAttr::ReadWriteKernel, &mut heap);
    assert_eq!(r, Err(Error::OutOfMemory));
    assert_eq!(root.entry_value(0), Some(0));

    // room for two tables only: the third allocation fails, two tables stay
    let mut heap = heap_with(0x10_0000, 0x10_2000);
    let r = root.create_mapping(0x1000, 0x2000, 0xAAAA_0000, PageAttr::ReadWriteKernel, &mut heap);
    assert_eq!(r, Err(Error::OutOfMemory));
    assert_eq!(heap.live_blocks(), 2);
    assert_eq!(root.leaf_entry(0x1000), None);
}

#[test]
fn remapping_overwrites_and_not_present_unmaps() {
    let mut heap = heap_with(0x10_0000, 0x20_0000);
    let mut root = PML4::new();
    assert_eq!(root.create_mapping(0, 0x2000, 0, PageAttr::ReadWriteKernel, &mut heap), Ok(()));
    assert_eq!(root.translate(0x10), Some(TranslationResult::PageMapped4K { phys: 0x10 }));
    assert_eq!(root.create_mapping(0, 4096, 0, PageAttr::NotPresent, &mut heap), Ok(()));
    assert_eq!(root.leaf_entry(0), Some(0));
    assert_eq!(root.translate(0x10), None);
    assert_eq!(root.translate(0x1010), Some(TranslationResult::PageMapped4K { phys: 0x1010 }));
    assert_eq!(root.create_mapping(0x1000, 0x2000, 0x9000, PageAttr::ReadWriteIo, &mut heap), Ok(()));
    assert_eq!(root.leaf_entry(0x1000), Some(0x901b));
}

#[test]
fn range_that_ends_inside_a_page_maps_that_page() {
    let mut heap = heap_with(0x10_0000, 0x20_0000);
    let mut root = PML4::new();
    assert_eq!(root.create_mapping(0x1000, 0x2001, 0x8000, PageAttr::ReadWriteKernel, &mut heap), Ok(()));
    assert_eq!(root.leaf_entry(0x1000), Some(0x8003));
    assert_eq!(root.leaf_entry(0x2000), Some(0x9003));
    assert_eq!(root.leaf_entry(0x3000), Some(0));
}

#[test]
fn range_across_tables_populates_each() {
    let mut heap = heap_with(0x10_0000, 0x40_0000);
    let mut root = PML4::new();
    // the last page of one last-level table and the first of the next
    assert_eq!(root.create_mapping(0x1f_f000, 0x20_1000, 0x50_0000, PageAttr::ReadWriteKernel, &mut heap), Ok(()));
    assert_eq!(heap.live_blocks(), 4);
    assert_eq!(root.leaf_entry(0x1f_f000), Some(0x50_0003));
    assert_eq!(root.leaf_entry(0x20_0000), Some(0x50_1003));
}

#[test]
fn page_attr_bits() {
    assert_eq!(PageAttr::NotPresent.bits(), 0);
    assert_eq!(PageAttr::ReadWriteKernel.bits(), 0b11);
    assert_eq!(PageAttr::ReadWriteIo.bits(), 0b11011);
}

#[test]
fn entry_and_table_text() {
    let mut heap = heap_with(0x10_0000, 0x20_0000);
    let mut root = PML4::new();
    assert_eq!(root.create_mapping(0x1000, 0x2000, 0xAAAA_0000, PageAttr::ReadWriteKernel, &mut heap), Ok(()));
    let text = root.format(0x1000);
    assert_eq!(
        text,
        "L4Table @ 0x0000000000001000 {\n  entry[  0] = L4Entry @ 0x0000000000001000 { 0x0000000000100003 PWS  }\n}\n"
    );
    // as the standard formatter prints the numbers
    let entry = format!("L{}Entry @ {:#018x} {{ {:#018X} {}{}{}  }}", 4, 0x1000u64, 0x10_0003u64, "P", "W", "S");
    assert_eq!(text, format!("L{}Table @ {:#018x} {{\n  entry[{:3}] = {}\n}}\n", 4, 0x1000u64, 0, entry));
    let pt = root.next_level(0).unwrap().next_level(0).unwrap().next_level(0).unwrap();
    assert_eq!(
        pt.format(0x10_2000),
        "L1Table @ 0x0000000000102000 {\n  entry[  1] = L1Entry @ 0x0000000000102008 { 0x00000000AAAA0003 PWS  }\n}\n"
    );
}

#[test]
fn new_root_is_clear() {
    let root = PML4::new();
    for index in 0..512 {
        assert_eq!(root.entry_value(index), Some(0));
        assert!(root.next_level(index).is_none());
    }
    assert_eq!(root.entry_value(512), None);
    assert_eq!(root.format(0x2000), "L4Table @ 0x0000000000002000 {\n}\n");
}
