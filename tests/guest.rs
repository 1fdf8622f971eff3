use rvvisor::elf::{parse, ElfError, ElfImage, LoadError};
use rvvisor::elf::SectionInfo;
use rvvisor::guest::{copy_section, has_build_room, prepare_gpat_pt, Guest, GUEST_PERM};
use rvvisor::memlayout::{DRAM_END, GUEST_DRAM_END, GUEST_DRAM_START, GUEST_UART_BASE};
use rvvisor::paging::{init, read_byte, PhysMemory, VirtualAddress};

const BASE: u64 = 0x8000_0000;

fn put(b: &mut [u8], at: usize, v: u64, n: usize) {
    for k in 0..n {
        b[at + k] = (v >> (8 * k)) as u8;
    }
}

/// A 64-bit (or 32-bit) image with one `.text` section at `addr` holding `data`.
fn image(class: u8, entry: u64, addr: u64, data: &[u8]) -> Vec<u8> {
    let mut b = vec![0u8; 0x3000];
    b[0..4].copy_from_slice(&[0x7f, b'E', b'L', b'F']);
    b[4] = class;
    b[5] = 1;
    b[6] = 1;
    if class == 2 {
        put(&mut b, 24, entry, 8);
        put(&mut b, 40, 0x2800, 8);
        put(&mut b, 52, 64, 2);
        put(&mut b, 58, 64, 2);
        put(&mut b, 60, 2, 2);
        // section 1: .text
        let sh = 0x2800 + 64;
        put(&mut b, sh + 4, 1, 4);
        put(&mut b, sh + 16, addr, 8);
        put(&mut b, sh + 24, 0x1000, 8);
        put(&mut b, sh + 32, data.len() as u64, 8);
    } else {
        put(&mut b, 24, entry, 4);
        put(&mut b, 32, 0x2000, 4);
        put(&mut b, 40, 52, 2);
    }
    b[0x1000..0x1000 + data.len()].copy_from_slice(data);
    b
}

fn machine() -> PhysMemory {
    let mut mem = PhysMemory::new(BASE, 0x3000, DRAM_END);
    init(&mut mem, BASE + 0x10_0000);
    mem
}

#[test]
fn guest_maps_console_and_window() {
    let mut mem = machine();
    let g = Guest::new("guest01", &mut mem);
    assert_eq!(g.name, "guest01");
    assert_eq!(g.sepc, GUEST_DRAM_START);
    let root = g.page_table.page.address().to_usize();
    assert_eq!(root % 16384, 0);
    assert_eq!(g.hgatp.ppn, root >> 12);
    assert_eq!(g.hgatp.vmid, 0);
    assert_eq!(g.hgatp.to_usize(), (8u64 << 60) | (root >> 12));
    let uart = g.page_table.resolve(&mem, &VirtualAddress::new(GUEST_UART_BASE + 5));
    assert_eq!(uart.to_usize(), GUEST_UART_BASE + 5);
    let first = g.page_table.resolve(&mem, &VirtualAddress::new(GUEST_DRAM_START));
    let last = g.page_table.resolve(&mem, &VirtualAddress::new(GUEST_DRAM_END));
    assert_ne!(first.to_usize(), last.to_usize());
    assert!(!g.page_table.is_mapped(&mem, &VirtualAddress::new(GUEST_DRAM_END + 4096)));
}

#[test]
fn guest_needs_an_initialized_allocator() {
    let mut mem = PhysMemory::new(BASE, 16, DRAM_END);
    // building a guest before the allocator starts is fatal
    assert!(!has_build_room(&mem, 8193));
}

#[test]
fn small_window_runs_out_of_frames() {
    let mut mem = PhysMemory::new(BASE, 64, BASE + 0x8000);
    init(&mut mem, BASE);
    assert!(!has_build_room(&mem, 257));
    assert!(!has_build_room(&mem, 1));
    assert!(rvvisor::paging::can_hand_out_16(&mem));
}

#[test]
fn small_window_is_mapped() {
    let mut mem = PhysMemory::new(BASE, 64, BASE + 0x3f000);
    init(&mut mem, BASE);
    assert!(has_build_room(&mem, 5));
    let pt = prepare_gpat_pt(&mut mem, 0x1000_0000, 0x8000_0000, 0x8000_4000);
    for k in 0..5u64 {
        assert!(pt.is_mapped(&mem, &VirtualAddress::new(0x8000_0000 + 4096 * k)));
    }
    assert!(!pt.is_mapped(&mem, &VirtualAddress::new(0x8000_5000)));
    assert_eq!(GUEST_PERM, 0x1e);
}

#[test]
fn load_copies_text_and_sets_entry() {
    let mut mem = machine();
    let mut g = Guest::new("guest01", &mut mem);
    let data: Vec<u8> = (0..4096u32).map(|i| (i * 7 + 3) as u8).collect();
    let img = image(2, 0x8000_0040, 0x8000_0000, &data);
    assert!(Guest::image_loadable(&img));
    g.load_from_disk(&mut mem, &img);
    assert_eq!(g.sepc, 0x8000_0040);
    let frame = g.page_table.resolve(&mem, &VirtualAddress::new(0x8000_0000)).to_usize();
    for (k, d) in data.iter().enumerate() {
        assert_eq!(read_byte(&mem, frame + k as u64), *d);
    }
}

#[test]
fn load_copies_across_pages() {
    let mut mem = machine();
    let mut g = Guest::new("guest01", &mut mem);
    let data: Vec<u8> = (0..5000u32).map(|i| (i % 251) as u8 + 1).collect();
    let img = image(2, 0x8000_1100, 0x8000_1100, &data);
    assert!(Guest::image_loadable(&img));
    g.load_from_disk(&mut mem, &img);
    for (k, d) in data.iter().enumerate() {
        let va = 0x8000_1100 + k as u64;
        let pa = g.page_table.resolve(&mem, &VirtualAddress::new(va)).to_usize();
        assert_eq!(read_byte(&mem, pa), *d);
    }
    let before = g.page_table.resolve(&mem, &VirtualAddress::new(0x8000_10ff)).to_usize();
    assert_eq!(read_byte(&mem, before), 0);
}

#[test]
fn load_rejects_32_bit_images_without_writing() {
    let img = image(1, 0x8000_0040, 0x8000_0000, &[1, 2, 3, 4]);
    // a 32-bit image is fatal: the loader's precondition refuses it
    assert!(!Guest::image_loadable(&img));
    assert!(matches!(parse(&img), Ok(ElfImage::Elf32)));
}

#[test]
fn load_rejects_malformed_images() {
    let mut img = image(2, 0x8000_0040, 0x8000_0000, &[1, 2, 3, 4]);
    assert!(Guest::image_loadable(&img));
    img[1] = b'X';
    assert!(!Guest::image_loadable(&img));
    assert!(matches!(parse(&img), Err(LoadError::Malformed(ElfError::InvalidMagic))));
    assert!(!Guest::image_loadable(&img[0..10].to_vec()));
    let mut bad_class = image(2, 0x8000_0040, 0x8000_0000, &[1, 2, 3, 4]);
    bad_class[4] = 3;
    assert!(!Guest::image_loadable(&bad_class));
    assert!(matches!(parse(&bad_class), Err(LoadError::Malformed(ElfError::InvalidClass))));
    // the section's bytes run past the end of the image
    let mut long = image(2, 0x8000_0040, 0x8000_0000, &[1, 2, 3, 4]);
    put(&mut long, 0x2800 + 64 + 32, 0x10_0000, 8);
    assert!(!Guest::image_loadable(&long));
}

#[test]
fn load_refuses_sections_outside_the_window() {
    let img = image(2, 0x9000_0000, 0x9000_0000, &[1, 2, 3, 4]);
    assert!(!Guest::image_loadable(&img));
    let last = image(2, 0x8200_0000, GUEST_DRAM_END + 4092, &[1, 2, 3]);
    assert!(Guest::image_loadable(&last));
    let past = image(2, 0x8200_0000, GUEST_DRAM_END + 4094, &[1, 2, 3]);
    assert!(!Guest::image_loadable(&past));
}

#[test]
fn parse_reads_header_and_sections() {
    let img = image(2, 0x8000_0040, 0x8000_0000, &[9; 16]);
    match parse(&img).unwrap() {
        ElfImage::Elf64(e) => {
            assert_eq!(e.entry, 0x8000_0040);
            assert_eq!(e.sections.len(), 2);
            assert!(!e.sections[0].progbits);
            assert!(e.sections[1].progbits);
            assert_eq!(e.sections[1].addr, 0x8000_0000);
            assert_eq!(e.sections[1].offset, 0x1000);
            assert_eq!(e.sections[1].size, 16);
        }
        ElfImage::Elf32 => panic!("expected a 64-bit image"),
    }
    // a section table past the end of the buffer
    let mut cut = img.clone();
    put(&mut cut, 40, 0x10_0000, 8);
    assert!(matches!(parse(&cut), Err(LoadError::Truncated)));
}

#[test]
fn header_size_past_the_buffer_is_too_short() {
    let mut img = image(2, 0x8000_0040, 0x8000_0000, &[1]);
    put(&mut img, 52, 0xffff, 2);
    assert!(matches!(parse(&img), Err(LoadError::Malformed(ElfError::BufferTooShort))));
}

#[test]
fn copy_section_places_bytes_page_by_page() {
    let mut mem = PhysMemory::new(BASE, 64, BASE + 0x3f000);
    init(&mut mem, BASE);
    let pt = prepare_gpat_pt(&mut mem, 0x1000_0000, 0x8000_0000, 0x8000_3000);
    let image: Vec<u8> = (0..6000u32).map(|i| (i % 200) as u8 + 7).collect();
    let s = SectionInfo { progbits: true, addr: 0x8000_0ff0, offset: 100, size: 5000 };
    copy_section(&mut mem, &pt, &image, &s);
    for k in 0..5000u64 {
        let pa = pt.resolve(&mem, &VirtualAddress::new(0x8000_0ff0 + k)).to_usize();
        assert_eq!(read_byte(&mem, pa), image[100 + k as usize]);
    }
    // a section running past the mapped window has an unmapped page
    assert!(!pt.is_mapped(&mem, &VirtualAddress::new(0x8000_4000)));
}

#[test]
fn misaligned_section_table_is_refused() {
    let mut img = image(2, 0x8000_0040, 0x8000_0000, &[1, 2, 3]);
    // move the table one byte on, still inside the image
    let table = img[0x2800..0x2880].to_vec();
    img[0x2801..0x2881].copy_from_slice(&table);
    put(&mut img, 40, 0x2801, 8);
    assert!(matches!(parse(&img), Err(LoadError::Misaligned)));
    assert!(!Guest::image_loadable(&img));
}
