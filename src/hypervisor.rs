//! Start-up of the hypervisor and the supervisor trap dispatcher.
use vstd::prelude::*;

use crate::csr::{hgatp, hstatus, mstatus, sepc, sstatus, CpuMode, VirtualzationMode};
use crate::guest::Guest;
use crate::jump::Target;
use crate::mmio::MmioWrite;
use crate::paging::{self, Page, PhysMemory};
use crate::plic;
use crate::virtio::{self, device_ok, DeviceRegisters, Queue};

verus! {

/// Registers saved on a trap.
#[derive(Clone, Copy)]
pub struct TrapFrame {
    pub regs: [u64; 32],
    pub fregs: [u64; 32],
    pub pc: u64,
}

/// Exception codes delegated to the guest's supervisor: misaligned fetch,
/// breakpoint, environment call from user mode, and instruction, load and
/// store page faults.
pub const HEDELEG: u64 = (1 << 0) | (1 << 3) | (1 << 8) | (1 << 12) | (1 << 13) | (1 << 15);

/// Virtual supervisor external, timer and software interrupts.
pub const HIDELEG: u64 = (1 << 10) | (1 << 6) | (1 << 2);

/// The interrupt enable bit of supervisor external interrupts.
pub const SIE_SEIE: u64 = 1 << 9;

/// What a trap cause value stands for.
#[derive(Debug, Clone, Copy, PartialEq, Eq, Structural)]
pub enum TrapCause {
    /// Asynchronous, code 9.
    ExternalInterrupt,
    /// Asynchronous with any other code.
    UnhandledInterrupt(u64),
    /// Synchronous, code 8.
    EnvCallFromU,
    /// Synchronous, code 10.
    EnvCallFromVS,
    /// Synchronous, code 21.
    LoadGuestPageFault,
    /// Synchronous, code 23.
    StoreGuestPageFault,
    /// Synchronous with any other code.
    UnhandledException(u64),
}

/// The top bit marks interrupts; the low twelve bits carry the code.
pub open spec fn cause_of(scause: u64) -> TrapCause {
    let code = scause & 0xfff;
    if (scause >> 63u64) & 1 == 1 {
        if code == 9 {
            TrapCause::ExternalInterrupt
        } else {
            TrapCause::UnhandledInterrupt(code)
        }
    } else if code == 8 {
        TrapCause::EnvCallFromU
    } else if code == 10 {
        TrapCause::EnvCallFromVS
    } else if code == 21 {
        TrapCause::LoadGuestPageFault
    } else if code == 23 {
        TrapCause::StoreGuestPageFault
    } else {
        TrapCause::UnhandledException(code)
    }
}

pub fn classify(scause: u64) -> (r: TrapCause)
    ensures
        r == cause_of(scause),
{
    let is_async = (scause >> 63u64) & 1 == 1;
    let code = scause & 0xfff;
    if is_async {
        if code == 9 {
            TrapCause::ExternalInterrupt
        } else {
            TrapCause::UnhandledInterrupt(code)
        }
    } else if code == 8 {
        TrapCause::EnvCallFromU
    } else if code == 10 {
        TrapCause::EnvCallFromVS
    } else if code == 21 {
        TrapCause::LoadGuestPageFault
    } else if code == 23 {
        TrapCause::StoreGuestPageFault
    } else {
        TrapCause::UnhandledException(code)
    }
}

/// The dispatcher handles the trap: an external interrupt whose claimed id
/// is the block device (1) or the console (10), or one of the recognized
/// exceptions. Every other cause or id is fatal.
pub open spec fn trap_handled(scause: u64, claim_register: u32) -> bool {
    match cause_of(scause) {
        TrapCause::ExternalInterrupt => claim_register == 1 || claim_register == 10,
        TrapCause::UnhandledInterrupt(_) => false,
        TrapCause::UnhandledException(_) => false,
        _ => true,
    }
}

/// Whether the dispatcher handles a trap with this cause and claim value;
/// callers test it before calling `rust_strap_handler`.
pub fn is_handled(scause: u64, claim_register: u32) -> (r: bool)
    ensures
        r == trap_handled(scause, claim_register),
{
    match classify(scause) {
        TrapCause::ExternalInterrupt => claim_register == 1 || claim_register == 10,
        TrapCause::UnhandledInterrupt(_) => false,
        TrapCause::UnhandledException(_) => false,
        _ => true,
    }
}

/// What the caller does after the dispatcher returns.
#[derive(Debug, Clone, Copy, PartialEq, Eq, Structural)]
pub enum TrapAction {
    /// The block device's completions were consumed; perform `complete`
    /// and resume.
    Block { complete: MmioWrite },
    /// Read and echo the console's byte, perform `complete` and resume.
    Console { complete: MmioWrite },
    /// A recognized cause that cannot be recovered from: log it and halt.
    Halt(TrapCause),
}

/// The dispatcher's decision and the address to resume at.
#[derive(Debug, Clone, Copy, PartialEq, Eq, Structural)]
pub struct TrapOutcome {
    pub pc: u64,
    pub action: TrapAction,
}

/// Handles one supervisor trap. `claim_register` is the value read from the
/// interrupt controller's claim register; it matters only for external
/// interrupts. Id 1 goes to the block driver, 10 to the console; the
/// resume address is always `sepc`. Causes and ids the dispatcher does not
/// handle are fatal (`trap_handled`).
pub fn rust_strap_handler(
    sepc: u64,
    stval: u64,
    scause: u64,
    sstatus: u64,
    queue: &mut Queue,
    claim_register: u32,
) -> (r: TrapOutcome)
    requires
        old(queue).wf(),
        trap_handled(scause, claim_register),
    ensures
        final(queue).wf(),
        r.pc == sepc,
        !(cause_of(scause) == TrapCause::ExternalInterrupt && claim_register == 1) ==> *final(queue)
            == *old(queue),
        cause_of(scause) == TrapCause::ExternalInterrupt && claim_register == 1 ==> r.action
            == (TrapAction::Block { complete: MmioWrite { offset: plic::PLIC_SCLAIM, value: 1 } }),
        cause_of(scause) == TrapCause::ExternalInterrupt && claim_register == 10 ==> r.action
            == (TrapAction::Console { complete: MmioWrite { offset: plic::PLIC_SCLAIM, value: 10 } }),
        cause_of(scause) != TrapCause::ExternalInterrupt ==> r.action == TrapAction::Halt(
            cause_of(scause),
        ),
        cause_of(scause) == TrapCause::ExternalInterrupt && claim_register == 1
            ==> final(queue).pending() == 0,
        cause_of(scause) == TrapCause::ExternalInterrupt && claim_register == 1 ==> forall|j: int|
            0 <= j < 8 ==> #[trigger] final(queue).notify_slot@[j] == (old(queue).notify_slot@[j]
                || old(queue).completes(j)),
{
    let cause = classify(scause);
    let action = match cause {
        TrapCause::ExternalInterrupt => {
            let interrupt = claim_register;
            if interrupt == 1 {
                virtio::handle_interrupt(queue, interrupt);
                TrapAction::Block { complete: plic::complete(interrupt) }
            } else {
                TrapAction::Console { complete: plic::complete(interrupt) }
            }
        },
        other => TrapAction::Halt(other),
    };
    TrapOutcome { pc: sepc, action }
}

/// The register values that enter a guest on the next return: its
/// translation, the previous-virtualization bit set, supervisor as the
/// previous privilege, and its resume address.
#[derive(Debug, Clone, Copy, PartialEq, Eq, Structural)]
pub struct GuestEntry {
    pub hgatp: u64,
    pub hstatus: u64,
    pub sstatus: u64,
    pub sepc: u64,
}

/// The values to store before returning into `target`, from the current
/// `hstatus` and `sstatus`.
pub fn switch_to_guest(target: &Guest, hstatus_now: u64, sstatus_now: u64) -> (r: GuestEntry)
    ensures
        r.hgatp == hgatp::setting_word(target.hgatp.mode, target.hgatp.vmid, target.hgatp.ppn),
        r.hstatus == (hstatus_now & !(1u64 << 7u64)) | (1u64 << 7u64),
        r.sstatus == (sstatus_now & !(1u64 << 8u64)) | (1u64 << 8u64),
        r.sepc == target.sepc,
{
    let h = hgatp::set(&target.hgatp);
    let hs = hstatus::set_spv(hstatus_now, VirtualzationMode::Guest);
    let ss = sstatus::set_spp(sstatus_now, CpuMode::S);
    assert(1u64 & 1 == 1u64) by (bit_vector);
    let pc = sepc::set(&target.sepc);
    GuestEntry { hgatp: h, hstatus: hs, sstatus: ss, sepc: pc }
}

/// The register values that enter the hypervisor on the next machine-mode
/// return.
#[derive(Debug, Clone, Copy, PartialEq, Eq, Structural)]
pub struct MachineExit {
    pub mstatus: u64,
    pub mepc: u64,
}

/// The values to store before leaving machine mode for `target` in
/// supervisor (host) mode, from the current `mstatus`.
pub fn switch_to_hypervisor<T: Target>(target: &T, mstatus_now: u64) -> (r: MachineExit)
    ensures
        r.mstatus == (((mstatus_now & !(3u64 << 11u64)) | (1u64 << 11u64)) & !(1u64 << 39u64)) | (
        0u64 << 39u64),
        r.mepc == target.address(),
{
    let m = mstatus::set_mpp(mstatus_now, CpuMode::S);
    let m = mstatus::set_mpv(m, VirtualzationMode::Host);
    let pc = crate::csr::mepc::set(target);
    MachineExit { mstatus: m, mepc: pc }
}

/// The values that let interrupts in: the controller's stores, `sie` with
/// external interrupts enabled and `sstatus` with interrupts switched on.
pub struct InterruptEnable {
    pub plic_writes: Vec<MmioWrite>,
    pub sie: u64,
    pub sstatus: u64,
}

/// Enables the block device and console at the controller and external
/// interrupts at the hart, from the current `sie` and `sstatus`.
pub fn enable_interrupt(sie_now: u64, sstatus_now: u64) -> (r: InterruptEnable)
    ensures
        r.plic_writes@ == plic::enable_writes(),
        r.sie == sie_now | SIE_SEIE,
        r.sstatus == (sstatus_now & !2u64) | 2,
{
    let plic_writes = plic::enable_interrupt();
    let sie = sie_now | SIE_SEIE;
    let sstatus = sstatus::set_sie(sstatus_now, true);
    InterruptEnable { plic_writes, sie, sstatus }
}

/// What start-up produced: the block device's queue and the stores that
/// bring the device up, the trap frame, the delegation values and the
/// stores that enable interrupts at the controller.
pub struct Setup {
    pub queue: Queue,
    pub virtio_writes: Vec<MmioWrite>,
    pub trap_frame: Page,
    pub hedeleg: u64,
    pub hideleg: u64,
    pub hvip: u64,
    pub interrupts: InterruptEnable,
}

/// There is room for start-up: the three frames after the page boundary that
/// follows `elf_end` lie in memory and within the allocator's bound.
pub open spec fn init_room(mem: &PhysMemory, elf_end: u64) -> bool {
    let b = (elf_end & !0xfffu64) + 4096;
    &&& mem.base <= b
    &&& b + 2 * 4096 <= mem.alloc_end
    &&& b + 3 * 4096 <= mem.end()
}

/// Whether start-up has room after an image that ends at `elf_end`.
pub fn has_init_room(mem: &PhysMemory, elf_end: u64) -> (r: bool)
    requires
        mem.wf(),
        elf_end < u64::MAX - 4096,
    ensures
        r == init_room(mem, elf_end),
{
    assert((elf_end & !0xfffu64) <= elf_end) by (bit_vector);
    let b = (elf_end & !0xfffu64) + 4096;
    let end = mem.base + 8 * (mem.words.len() as u64);
    mem.base <= b && b <= u64::MAX - 3 * 4096 && b + 2 * 4096 <= mem.alloc_end && b + 3 * 4096
        <= end
}

/// Starts the allocator after the hypervisor's image (which ends at
/// `elf_end`), brings up the block device with a queue in the first two
/// frames, takes the next frame for the trap frame, and computes the
/// delegation and interrupt-enable values from the current `sie` and
/// `sstatus`. An unusable device, or no room for the three frames, is
/// fatal.
pub fn init(
    mem: &mut PhysMemory,
    elf_end: u64,
    regs: &DeviceRegisters,
    sie_now: u64,
    sstatus_now: u64,
) -> (r: Setup)
    requires
        old(mem).wf(),
        elf_end < u64::MAX - 4096,
        device_ok(regs),
        init_room(old(mem), elf_end),
    ensures
        final(mem).wf(),
        final(mem).base == old(mem).base,
        final(mem).alloc_end == old(mem).alloc_end,
        final(mem).alloc_base == (elf_end & !0xfffu64) + 4096,
        final(mem).initialized,
        final(mem).last_index == 3,
        r.queue.wf(),
        r.queue.base == final(mem).alloc_base,
        r.trap_frame.addr.addr == final(mem).alloc_base + 2 * 4096,
        r.hedeleg == HEDELEG,
        r.hideleg == HIDELEG,
        r.hvip == 0,
        r.virtio_writes@ == virtio::init_writes(regs.host_features, r.queue.base),
        r.interrupts.plic_writes@ == plic::enable_writes(),
        r.interrupts.sie == sie_now | SIE_SEIE,
        r.interrupts.sstatus == (sstatus_now & !2u64) | 2,
{
    paging::init(mem, elf_end);
    let (queue, virtio_writes) = virtio::init(mem, regs);
    let trap_frame = paging::alloc_page(mem);
    let interrupts = enable_interrupt(sie_now, sstatus_now);
    Setup { queue, virtio_writes, trap_frame, hedeleg: HEDELEG, hideleg: HIDELEG, hvip: 0, interrupts }
}

} // verus!
