use rvvisor::paging::{
    alloc_16, alloc_continuous, alloc_page, can_hand_out, can_hand_out_16, init, read_byte, set_alloc_base, write_byte, Page,
    PageTable, PageTableEntry, PageTableEntryFlag, PhysMemory, PhysicalAddress,
    VirtualAddress,
};

const BASE: u64 = 0x8000_0000;

fn memory(pages: usize, alloc_end: u64) -> PhysMemory {
    let mut mem = PhysMemory::new(BASE, pages, alloc_end);
    init(&mut mem, BASE + 0x1234);
    mem
}

fn page_is_zero(mem: &PhysMemory, addr: u64) -> bool {
    (0..4096u64).all(|k| read_byte(mem, addr + k) == 0)
}

#[test]
fn alloc_hands_out_increasing_zeroed_pages() {
    let mut mem = PhysMemory::new(BASE, 16, BASE + 5 * 4096);
    // dirty the memory so that zeroing is observable
    for a in (BASE..BASE + 16 * 4096).step_by(97) {
        write_byte(&mut mem, a, 0xab);
    }
    init(&mut mem, BASE + 0x1234);
    let mut addrs = Vec::new();
    for _ in 0..4 {
        let p = alloc_page(&mut mem);
        addrs.push(p.address().to_usize());
    }
    assert_eq!(addrs, vec![BASE + 0x2000, BASE + 0x3000, BASE + 0x4000, BASE + 0x5000]);
    for a in &addrs {
        assert_eq!(a % 4096, 0);
        assert!(page_is_zero(&mem, *a));
    }
    // the next page would start past the bound: handing it out is fatal
    assert!(!can_hand_out(&mem, 1));
}

#[test]
fn alloc_at_the_bound_itself_succeeds() {
    let mut mem = memory(16, BASE + 0x2000);
    assert!(can_hand_out(&mem, 1));
    assert_eq!(alloc_page(&mut mem).address().to_usize(), BASE + 0x2000);
    assert!(!can_hand_out(&mem, 1));
}

#[test]
fn alloc_before_init_fails() {
    let mut mem = PhysMemory::new(BASE, 4, BASE + 0x3000);
    assert!(!can_hand_out(&mem, 1));
    assert!(!can_hand_out_16(&mem));
    init(&mut mem, BASE);
    assert!(can_hand_out(&mem, 1));
}

#[test]
fn alloc_outside_memory_fails() {
    let mut mem = memory(3, BASE + 0x10_0000);
    assert!(can_hand_out(&mem, 1));
    alloc_page(&mut mem);
    assert!(!can_hand_out(&mem, 1));
    assert!(!can_hand_out(&mem, 2));
}

#[test]
fn init_starts_after_the_image() {
    let mut mem = PhysMemory::new(BASE, 8, BASE + 0x7000);
    init(&mut mem, BASE + 0x3000);
    assert_eq!(mem.alloc_base, BASE + 0x4000);
    assert_eq!(alloc_page(&mut mem).address().to_usize(), BASE + 0x4000);
}

#[test]
fn alloc_16_is_aligned_and_consumes_four_pages() {
    let mut mem = memory(64, BASE + 0x3f000);
    let before = mem.alloc_base + 4096 * mem.last_index;
    let p = alloc_16(&mut mem);
    let a = p.address().to_usize();
    assert_eq!(a % 16384, 0);
    assert_eq!(a, BASE + 0x4000);
    let after = mem.alloc_base + 4096 * mem.last_index;
    assert!(after >= before + 4 * 4096);
    assert_eq!(after, a + 4 * 4096);
    let q = alloc_16(&mut mem);
    assert_eq!(q.address().to_usize(), BASE + 0x8000);
}

#[test]
fn alloc_16_fails_when_the_block_does_not_fit() {
    let mut mem = memory(8, BASE + 0x6000);
    assert!(!can_hand_out_16(&mem));
    assert!(can_hand_out(&mem, 4));
}

#[test]
fn alloc_continuous_returns_first_of_run() {
    let mut mem = memory(16, BASE + 0xf000);
    let p = alloc_continuous(&mut mem, 3);
    assert_eq!(p.address().to_usize(), BASE + 0x2000);
    assert_eq!(alloc_page(&mut mem).address().to_usize(), BASE + 0x5000);
}

#[test]
fn set_alloc_base_moves_the_cursor() {
    let mut mem = memory(16, BASE + 0xf000);
    alloc_page(&mut mem);
    set_alloc_base(&mut mem, BASE + 0x8000);
    assert_eq!(alloc_page(&mut mem).address().to_usize(), BASE + 0x8000);
    assert_eq!(alloc_page(&mut mem).address().to_usize(), BASE + 0x9000);
}

#[test]
fn addresses_split_into_indices() {
    let va = VirtualAddress::new(0x8020_3abc);
    assert_eq!(va.to_vpn(), [0x3, 0x1, 0x2]);
    assert_eq!(va.to_offset(), 0xabc);
    let pa = PhysicalAddress::new(0x8020_3abc);
    assert_eq!(pa.to_ppn(), 0x80203);
    assert_eq!(pa.to_ppn_array(), [0x3, 0x1, 0x2]);
}

#[test]
fn entry_round_trip() {
    let v: u64 = (0x8020_3000u64 >> 2) | 0xcf;
    let e = PageTableEntry::from_value(v);
    assert_eq!(e.to_usize(), v);
    assert!(e.is_valid());
    assert_eq!(e.next_page().address().to_usize(), 0x8020_3000);
    let mut f = PageTableEntry::from_value(0);
    assert!(!f.is_valid());
    f.set_flag(PageTableEntryFlag::Valid);
    f.set_flag(PageTableEntryFlag::Dirty);
    assert_eq!(f.flags, 0x81);
}

#[test]
fn entry_top_bit_is_sign_extended() {
    let e = PageTableEntry { ppn: [0, 0, 1 << 25], flags: 1 };
    assert_eq!(e.to_usize(), (0x3ffu64 << 54) | (1u64 << 53) | 1);
    assert_eq!(e.next_page().address().to_usize(), 1u64 << 55);
    let v: u64 = 0xffe0_0000_0000_0000;
    assert_eq!(PageTableEntry::from_value(v).to_usize(), v);
}

fn table(mem: &mut PhysMemory) -> PageTable {
    PageTable::from_page(alloc_page(mem))
}

#[test]
fn map_then_resolve() {
    let mut mem = memory(32, BASE + 0x1f000);
    let mut pt = table(&mut mem);
    let dest = alloc_page(&mut mem);
    let dest_addr = dest.address().to_usize();
    pt.map(&mut mem, VirtualAddress::new(0x8000_0000), &dest, 0x1e);
    let pa = pt.resolve(&mem, &VirtualAddress::new(0x8000_0abc));
    assert_eq!(pa.to_usize(), dest_addr | 0xabc);
    // a second mapping in the same level-0 table keeps the first
    let dest2 = Page::from_address(PhysicalAddress::new(0x1000_0000));
    pt.map(&mut mem, VirtualAddress::new(0x8000_1000), &dest2, 0x2);
    assert_eq!(pt.resolve(&mem, &VirtualAddress::new(0x8000_1004)).to_usize(), 0x1000_0004);
    assert_eq!(pt.resolve(&mem, &VirtualAddress::new(0x8000_0000)).to_usize(), dest_addr);
}

#[test]
fn resolve_of_unmapped_address_faults() {
    let mut mem = memory(32, BASE + 0x1f000);
    let mut pt = table(&mut mem);
    assert!(!pt.is_mapped(&mem, &VirtualAddress::new(0x8000_0000)));
    let dest = alloc_page(&mut mem);
    pt.map(&mut mem, VirtualAddress::new(0x8000_0000), &dest, 0x1e);
    // same tables, other leaf index
    assert!(!pt.is_mapped(&mem, &VirtualAddress::new(0x8000_2000)));
    // other top-level index
    assert!(!pt.is_mapped(&mem, &VirtualAddress::new(0x4000_0000)));
}

#[test]
fn map_needs_a_frame_per_missing_table() {
    let mut mem = memory(32, BASE + 0x3000);
    let _pt = table(&mut mem);
    // both intermediate tables are missing, and only one frame is left
    assert!(can_hand_out(&mem, 1));
    assert!(!can_hand_out(&mem, 2));
}

#[test]
fn clear_zeroes_one_page() {
    let mut mem = PhysMemory::new(BASE, 2, BASE);
    write_byte(&mut mem, BASE + 5, 1);
    write_byte(&mut mem, BASE + 4096, 2);
    Page::from_address(PhysicalAddress::new(BASE)).clear(&mut mem);
    assert!(page_is_zero(&mem, BASE));
    assert_eq!(read_byte(&mem, BASE + 4096), 2);
}

#[test]
fn entry_from_memory() {
    let mut mem = PhysMemory::new(BASE, 1, BASE);
    mem.write_word(BASE + 16, (0x8000_3000u64 >> 2) | 1);
    let e = PageTableEntry::from_memory(&mem, PhysicalAddress::new(BASE + 16));
    assert!(e.is_valid());
    assert_eq!(e.next_page().address().to_usize(), 0x8000_3000);
}

#[test]
fn bytes_round_trip() {
    let mut mem = PhysMemory::new(BASE, 1, BASE);
    write_byte(&mut mem, BASE + 9, 0x5a);
    assert_eq!(read_byte(&mem, BASE + 9), 0x5a);
    assert_eq!(read_byte(&mem, BASE + 8), 0);
    assert_eq!(mem.words[1], 0x5a00);
}

#[test]
fn map_takes_one_frame_per_missing_table() {
    let mut mem = memory(32, BASE + 0x1f000);
    let mut pt = table(&mut mem);
    let next = |m: &PhysMemory| m.alloc_base + 4096 * m.last_index;
    let high = Page::from_address(PhysicalAddress::new(0xff_ffff_ffff_f000));
    let before = next(&mem);
    pt.map(&mut mem, VirtualAddress::new(0x8000_0000), &high, 0x2);
    assert_eq!(next(&mem), before + 2 * 4096);
    assert_eq!(
        pt.resolve(&mem, &VirtualAddress::new(0x8000_0123)).to_usize(),
        0xff_ffff_ffff_f123
    );
    pt.map(&mut mem, VirtualAddress::new(0x8000_1000), &high, 0x2);
    assert_eq!(next(&mem), before + 2 * 4096);
    pt.map(&mut mem, VirtualAddress::new(0x8020_0000), &high, 0x2);
    assert_eq!(next(&mem), before + 3 * 4096);
}
