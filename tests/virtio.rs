use rvvisor::hypervisor::{
    classify, has_init_room, init, is_handled, rust_strap_handler, switch_to_guest,
    switch_to_hypervisor, TrapAction, TrapCause, HEDELEG, HIDELEG,
};
use rvvisor::guest::Guest;
use rvvisor::mmio::MmioWrite;
use rvvisor::paging::{self, Page, PhysMemory, PhysicalAddress};
use rvvisor::virtio::{
    self, assert_device_status, assert_device_type, handle_interrupt, init_block_device,
    negotiate_features, DeviceRegisters, Queue, UsedElem, VIRTIO_DESC_F_NEXT,
    VIRTIO_DESC_F_WRITE, VIRTIO_MAGIC, VIRTIO_VENDOR,
};

fn queue() -> Queue {
    Queue::from_page(Page::from_address(PhysicalAddress::new(0x8010_0000)))
}

/// A device that finishes chain `id` at once.
fn device_completes(q: &mut Queue, id: u32) {
    let slot = (q.used.idx % 8) as usize;
    q.used.ring[slot] = UsedElem { id, len: 512 };
    q.used.idx = q.used.idx.wrapping_add(1);
}

fn chain_length(q: &Queue, head: usize) -> usize {
    let mut n = 1;
    let mut d = q.desc[head];
    while d.flags & VIRTIO_DESC_F_NEXT != 0 {
        d = q.desc[d.next as usize];
        n += 1;
    }
    n
}

#[test]
fn read_enqueues_a_three_descriptor_chain() {
    let mut q = queue();
    let (head, notify) = q.read(5, 0x8020_0000);
    assert_eq!(head, 0);
    assert_eq!(notify, MmioWrite { offset: 0x050, value: 0 });
    assert_eq!(chain_length(&q, head), 3);
    assert_eq!(q.avail.idx, 1);
    assert_eq!(q.avail.ring[0], 0);
    assert_eq!(q.header[0].sector, 5);
    assert_eq!(q.header[0].typ, 0);
    assert_eq!(q.desc[0].addr, 0x8010_0000 + 4304);
    assert_eq!(q.desc[0].len, 16);
    assert_eq!(q.desc[1].addr, 0x8020_0000);
    assert_eq!(q.desc[1].len, 512);
    assert_eq!(q.desc[1].flags, VIRTIO_DESC_F_NEXT | VIRTIO_DESC_F_WRITE);
    assert_eq!(q.desc[2].len, 1);
    assert_eq!(q.desc[2].flags, VIRTIO_DESC_F_WRITE);
    assert_eq!(q.vinfo[0].status, 0xff);
    assert!(!q.is_finished(head));
    // the device posts the matching used entry; the interrupt marks the chain done
    device_completes(&mut q, 0);
    handle_interrupt(&mut q, 1);
    assert!(q.is_finished(head));
    assert_eq!(q.used_idx, 1);
}

#[test]
fn write_marks_buffer_device_readable() {
    let mut q = queue();
    let (head, _) = q.write(9, 0x8020_0000);
    assert_eq!(q.header[head].typ, 1);
    assert_eq!(q.header[head].sector, 9);
    assert_eq!(q.desc[1].flags, VIRTIO_DESC_F_NEXT);
    assert_eq!(chain_length(&q, head), 3);
}

#[test]
fn available_index_wraps_modulo_eight() {
    let mut q = queue();
    for k in 0..10u16 {
        q.read(k as u64, 0x8020_0000);
        assert_eq!(q.avail.idx, k + 1);
    }
    assert_eq!(q.avail.ring[(9 % 8) as usize], 0);
    q.avail.idx = u16::MAX;
    q.read(0, 0x8020_0000);
    assert_eq!(q.avail.idx, 0);
}

#[test]
fn interrupt_without_progress_changes_nothing() {
    let mut q = queue();
    q.read(1, 0x8020_0000);
    handle_interrupt(&mut q, 1);
    assert!(!q.is_finished(0));
    assert_eq!(q.used_idx, 0);
}

#[test]
fn interrupt_drains_every_new_entry() {
    let mut q = queue();
    device_completes(&mut q, 3);
    device_completes(&mut q, 5);
    device_completes(&mut q, 40);
    handle_interrupt(&mut q, 1);
    assert_eq!(q.used_idx, 3);
    assert!(q.is_finished(3) && q.is_finished(5));
    assert!(!q.is_finished(0));
    q.mark_finished(7);
    assert!(q.is_finished(7));
}

#[test]
fn device_identification_is_checked_before_use() {
    assert!(regs().is_usable());
    assert_device_status(VIRTIO_MAGIC, 1, VIRTIO_VENDOR);
    assert_device_type(2, 2);
    let mut bad = regs();
    bad.magic = 0;
    assert!(!bad.is_usable());
    let mut bad = regs();
    bad.version = 2;
    assert!(!bad.is_usable());
    let mut bad = regs();
    bad.vendor_id = 7;
    assert!(!bad.is_usable());
    let mut bad = regs();
    bad.device_id = 1;
    assert!(!bad.is_usable());
    let mut bad = regs();
    bad.queue_num_max = 7;
    assert!(!bad.is_usable());
}

#[test]
fn features_are_cleared() {
    assert_eq!(negotiate_features(u32::MAX), !((1 << 5) | (1 << 7) | (1 << 11) | (1 << 12) | (1 << 27) | (1 << 28) | (1 << 29)));
    assert_eq!(negotiate_features(1 << 9), 1 << 9);
}

#[test]
fn block_device_init_sequence() {
    let w = init_block_device(0xffff_ffff, 16, 0x8010_0000);
    let statuses: Vec<u32> = w.iter().filter(|m| m.offset == 0x070).map(|m| m.value).collect();
    assert_eq!(statuses, vec![1, 3, 11, 15]);
    assert_eq!(w[2], MmioWrite { offset: 0x020, value: negotiate_features(0xffff_ffff) });
    assert!(w.iter().all(|m| m.offset != 0x010));
    assert_eq!(w[5], MmioWrite { offset: 0x028, value: 4096 });
    assert_eq!(w[6], MmioWrite { offset: 0x030, value: 0 });
    assert_eq!(w[7], MmioWrite { offset: 0x038, value: 8 });
    assert_eq!(w[8], MmioWrite { offset: 0x040, value: 0x80100 });
    assert_eq!(init_block_device(0, 8, 0x8010_0000)[7], MmioWrite { offset: 0x038, value: 8 });
}

fn regs() -> DeviceRegisters {
    DeviceRegisters {
        magic: VIRTIO_MAGIC,
        version: 1,
        device_id: 2,
        vendor_id: VIRTIO_VENDOR,
        host_features: 0,
        queue_num_max: 8,
    }
}

#[test]
fn driver_init_places_the_queue() {
    let mut mem = PhysMemory::new(0x8000_0000, 16, 0x8000_f000);
    paging::init(&mut mem, 0x8000_0000);
    assert!(paging::can_hand_out(&mem, 2));
    let (q, w) = virtio::init(&mut mem, &regs());
    assert_eq!(q.base, 0x8000_1000);
    assert_eq!(w.len(), 9);
    let mut full = PhysMemory::new(0x8000_0000, 2, 0x8000_1000);
    paging::init(&mut full, 0x8000_0000);
    assert!(!paging::can_hand_out(&full, 2));
}

#[test]
fn hypervisor_init_takes_three_frames() {
    let mut mem = PhysMemory::new(0x8000_0000, 16, 0x8000_f000);
    assert!(has_init_room(&mem, 0x8000_2345));
    let s = init(&mut mem, 0x8000_2345, &regs(), 0, 0);
    assert_eq!(s.queue.base, 0x8000_3000);
    assert_eq!(s.trap_frame.address().to_usize(), 0x8000_5000);
    assert_eq!(s.hedeleg, HEDELEG);
    assert_eq!(s.hideleg, HIDELEG);
    assert_eq!(s.interrupts.plic_writes.len(), 4);
    assert_eq!(s.interrupts.sie, 1 << 9);
    assert_eq!(s.interrupts.sstatus, 2);
    let t = init(&mut PhysMemory::new(0x8000_0000, 16, 0x8000_f000), 0x8000_2345, &regs(), 0, 0x120);
    assert_eq!(t.interrupts.sstatus, 0x122);
    let small = PhysMemory::new(0x8000_0000, 5, 0x8000_f000);
    assert!(!has_init_room(&small, 0x8000_2345));
}

#[test]
fn external_interrupt_of_block_device() {
    let mut q = queue();
    q.read(5, 0x8020_0000);
    device_completes(&mut q, 0);
    let out = rust_strap_handler(0x8000_0100, 0, 0x8000_0000_0000_0009, 0, &mut q, 1);
    assert_eq!(out.pc, 0x8000_0100);
    assert_eq!(out.action, TrapAction::Block { complete: MmioWrite { offset: 0x20_1004, value: 1 } });
    assert!(q.is_finished(0));
}

#[test]
fn load_guest_page_fault_halts_in_place() {
    let mut q = queue();
    let out = rust_strap_handler(0x8000_0200, 0x1234, 21, 0, &mut q, 0);
    assert_eq!(out.pc, 0x8000_0200);
    assert_eq!(out.action, TrapAction::Halt(TrapCause::LoadGuestPageFault));
}

#[test]
fn trap_causes_are_classified() {
    assert_eq!(classify(0x8000_0000_0000_0009), TrapCause::ExternalInterrupt);
    assert_eq!(classify(0x8000_0000_0000_0005), TrapCause::UnhandledInterrupt(5));
    assert_eq!(classify(8), TrapCause::EnvCallFromU);
    assert_eq!(classify(10), TrapCause::EnvCallFromVS);
    assert_eq!(classify(21), TrapCause::LoadGuestPageFault);
    assert_eq!(classify(23), TrapCause::StoreGuestPageFault);
    assert_eq!(classify(2), TrapCause::UnhandledException(2));
    assert_eq!(classify(0x1017), TrapCause::StoreGuestPageFault);
}

#[test]
fn other_traps() {
    let mut q = queue();
    let ext = 0x8000_0000_0000_0009;
    // nothing claimed, ids 2 to 8, 11 and unknown causes are fatal
    assert!(!is_handled(ext, 0));
    assert!(!is_handled(ext, 3));
    assert!(!is_handled(ext, 11));
    assert!(!is_handled(0x8000_0000_0000_0005, 1));
    assert!(!is_handled(13, 0));
    assert!(is_handled(ext, 1) && is_handled(ext, 10) && is_handled(21, 0));
    assert_eq!(
        rust_strap_handler(4, 0, ext, 0, &mut q, 10).action,
        TrapAction::Console { complete: MmioWrite { offset: 0x20_1004, value: 10 } }
    );
    assert_eq!(rust_strap_handler(4, 0, 8, 0, &mut q, 0).action, TrapAction::Halt(TrapCause::EnvCallFromU));
    assert_eq!(rust_strap_handler(4, 0, 10, 0, &mut q, 0).action, TrapAction::Halt(TrapCause::EnvCallFromVS));
    assert_eq!(rust_strap_handler(4, 0, 23, 0, &mut q, 0).action, TrapAction::Halt(TrapCause::StoreGuestPageFault));
}

#[test]
fn entering_the_guest_and_the_hypervisor() {
    let mut mem = PhysMemory::new(0x8000_0000, 64, 0x8000_3f000);
    paging::init(&mut mem, 0x8000_0000);
    let pt = rvvisor::guest::prepare_gpat_pt(&mut mem, 0x1000_0000, 0x8000_0000, 0x8000_1000);
    let hgatp = rvvisor::csr::hgatp::Setting::new(rvvisor::csr::hgatp::Mode::Sv39x4, 0, pt.page.address().to_ppn());
    let g = Guest { name: "g", hgatp, sepc: 0x8000_0000, page_table: pt };
    let e = switch_to_guest(&g, 0, u64::MAX);
    assert_eq!(e.hgatp, hgatp.to_usize());
    assert_eq!(e.hstatus, 1 << 7);
    assert_eq!(e.sstatus, u64::MAX);
    assert_eq!(switch_to_guest(&g, 0, 0).sstatus, 1 << 8);
    assert_eq!(e.sepc, 0x8000_0000);
    let target: u64 = 0x8000_0000;
    let m = switch_to_hypervisor(&target, (3 << 11) | (1 << 39));
    assert_eq!(m.mstatus, 1 << 11);
    assert_eq!(m.mepc, 0x8000_0000);
}

#[test]
fn ring_stores_lay_out_the_queue() {
    let mut q = queue();
    q.read(5, 0x8020_0000);
    let w = q.ring_stores();
    assert_eq!(w.len(), 51);
    let base = 0x8010_0000u64;
    assert_eq!(w[0], rvvisor::mmio::MemWrite { addr: base, value: base + 4304 });
    assert_eq!(w[1].addr, base + 8);
    assert_eq!(w[1].value, 16 | (1u64 << 32) | (1u64 << 48));
    assert_eq!(w[3].value, 512 | (3u64 << 32) | (2u64 << 48));
    assert_eq!(w[5].value, 1 | (2u64 << 32));
    assert_eq!(w[16], rvvisor::mmio::MemWrite { addr: base + 128, value: 1 << 16 });
    assert_eq!(w[20], rvvisor::mmio::MemWrite { addr: base + 4176 + 8, value: 0xff });
    assert_eq!(w[35], rvvisor::mmio::MemWrite { addr: base + 4304, value: 0 });
    assert_eq!(w[36], rvvisor::mmio::MemWrite { addr: base + 4304 + 8, value: 5 });
}

#[test]
fn used_ring_is_read_from_memory_words() {
    let mut q = queue();
    q.read(5, 0x8020_0000);
    let mut words = vec![0u64; 9];
    words[0] = 1 << 16; // one entry produced
    words[0] |= 0u64 << 32; // its id: chain 0
    words[1] = 512; // its length
    q.set_used_from_words(&words);
    assert_eq!(q.used.idx, 1);
    assert_eq!(q.used.ring[0], UsedElem { id: 0, len: 512 });
    handle_interrupt(&mut q, 1);
    assert!(q.is_finished(0));
    words[1] |= 6u64 << 32;
    q.set_used_from_words(&words);
    assert_eq!(q.used.ring[1].id, 6);
}
