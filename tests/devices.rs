use rvvisor::csr::{hgatp, hstatus, mepc, mstatus, satp, sepc, sstatus, stvec, vsepc, mtvec};
use rvvisor::csr::{CpuMode, VirtualzationMode};
use rvvisor::gpr::Register;
use rvvisor::jump::Target;
use rvvisor::mmio::MmioWrite;
use rvvisor::plic::{complete, enable_interrupt, get_claim, PLIC_SCLAIM};
use rvvisor::uart::{handle_interrupt, Uart};

#[test]
fn claim_zero_means_none() {
    assert_eq!(get_claim(0), None);
    assert_eq!(get_claim(1), Some(1));
    assert_eq!(get_claim(10), Some(10));
    assert_eq!(get_claim(0xffff_ffff), Some(0xffff_ffff));
}

#[test]
fn complete_writes_the_id_back() {
    assert_eq!(complete(5), MmioWrite { offset: 0x20_1004, value: 5 });
    assert_eq!(complete(1).offset, PLIC_SCLAIM);
}

#[test]
fn plic_enables_block_device_and_console() {
    let w = enable_interrupt();
    assert_eq!(
        w,
        vec![
            MmioWrite { offset: 4, value: 1 },
            MmioWrite { offset: 40, value: 1 },
            MmioWrite { offset: 0x2080, value: (1 << 1) | (1 << 10) },
            MmioWrite { offset: 0x20_1000, value: 0 },
        ]
    );
}

#[test]
fn console_echo() {
    assert_eq!(handle_interrupt(None), Vec::<u8>::new());
    assert_eq!(handle_interrupt(Some(b'a')), vec![b'a']);
    assert_eq!(handle_interrupt(Some(13)), vec![13, 10]);
    assert_eq!(handle_interrupt(Some(10)), vec![13, 10]);
    assert_eq!(handle_interrupt(Some(8)), vec![8, b' ', 8, 13, 10]);
    let mut utf8 = [0u8; 4];
    let e9 = (0xe9u8 as char).encode_utf8(&mut utf8).as_bytes().to_vec();
    assert_eq!(handle_interrupt(Some(0xe9)), e9);
}

#[test]
fn console_registers() {
    let u = Uart::new(0x1000_0000);
    assert_eq!(u.addr_base, 0x1000_0000);
    assert_eq!(
        u.init(),
        vec![
            MmioWrite { offset: 1, value: 1 },
            MmioWrite { offset: 2, value: 1 },
            MmioWrite { offset: 3, value: 3 },
        ]
    );
    assert!(Uart::can_put(0x20));
    assert!(!Uart::can_put(0x01));
    assert_eq!(Uart::get(0x00, 42), None);
    assert_eq!(Uart::get(0x01, 42), Some(42));
}

#[test]
fn translation_settings() {
    let h = hgatp::Setting::new(hgatp::Mode::Sv39x4, 3, 0x80123);
    assert_eq!(h.to_usize(), 0x8000_3000_0008_0123);
    assert_eq!(hgatp::set(&h), h.to_usize());
    let s = satp::Setting::new(satp::Mode::Sv48, 1, 0x42);
    assert_eq!(s.to_usize(), (9u64 << 60) | (1u64 << 44) | 0x42);
    assert_eq!(satp::set(&s), s.to_usize());
    assert_eq!(satp::Setting::new(satp::Mode::Bare, 0, 0).to_usize(), 0);
}

#[test]
fn status_fields() {
    assert_eq!(hstatus::set_spv(0, VirtualzationMode::Guest), 1 << 7);
    assert_eq!(hstatus::set_spv(u64::MAX, VirtualzationMode::Host), u64::MAX & !(1 << 7));
    assert_eq!(mstatus::set_mpp(u64::MAX, CpuMode::S), (u64::MAX & !(3 << 11)) | (1 << 11));
    assert_eq!(mstatus::set_mpp(0, CpuMode::M), 3 << 11);
    assert_eq!(mstatus::set_mpv(1 << 39, VirtualzationMode::Host), 0);
    assert_eq!(mstatus::set_mpv(0, VirtualzationMode::Guest), 1 << 39);
    assert_eq!(sstatus::set_spp(0, CpuMode::S), 1 << 8);
    assert_eq!(sstatus::set_spp(0, CpuMode::M), 1 << 8);
    assert_eq!(sstatus::set_spp(u64::MAX, CpuMode::U), u64::MAX & !(1 << 8));
    assert_eq!(sstatus::set_sie(0, true), 2);
    assert_eq!(sstatus::set_sie(0xff, false), 0xfd);
    assert_eq!(sstatus::set_sie(0xfd, true), 0xff);
}

#[test]
fn program_counters() {
    let a: u64 = 0x8000_1234;
    assert_eq!(a.convert_to_fn_address(), a);
    assert_eq!(mepc::set(&a), a);
    assert_eq!(mtvec::set(&a), a);
    assert_eq!(sepc::set(&a), a);
    assert_eq!(stvec::set(&a), a);
    assert_eq!(vsepc::set(&a), a);
}

#[test]
fn register_numbers() {
    assert_eq!(Register::Zero.index(), 0);
    assert_eq!(Register::A0.index(), 10);
    assert_eq!(Register::T6.index(), 31);
    assert_eq!(Register::from_index(2), Some(Register::Sp));
    assert_eq!(Register::from_index(18), Some(Register::S2));
    assert_eq!(Register::from_index(32), None);
    for i in 0..32 {
        assert_eq!(Register::from_index(i).unwrap().index(), i);
    }
}

#[test]
fn register_names() {
    assert_eq!(Register::Zero.name(), "x0");
    assert_eq!(Register::Ra.name(), "ra");
    assert_eq!(Register::A0.name(), "a0");
    assert_eq!(Register::S11.name(), "s11");
    assert_eq!(Register::T6.name(), "t6");
}
