//! The virtio block driver: one eight-slot virtqueue and the device's
//! register protocol.
use vstd::prelude::*;

use crate::memlayout::PAGE_SIZE;
use crate::mmio::{MemWrite, MmioWrite};
use crate::paging::{alloc_continuous, Page, PhysMemory};

verus! {

/// Bytes in one disk sector.
pub const SECTOR_SIZE: u64 = 512;

/// Descriptor flag: the chain continues at `next`.
pub const VIRTIO_DESC_F_NEXT: u16 = 1;

/// Descriptor flag: the device writes into the buffer.
pub const VIRTIO_DESC_F_WRITE: u16 = 2;

pub const VIRTIO_MAGIC: u32 = 0x74_72_69_76;

pub const VIRTIO_VENDOR: u32 = 0x55_4d_45_51;

/// Device id of a block device.
pub const VIRTIO_BLOCK_DEVICE: u32 = 2;

pub const VIRTIO_BLK_F_RO: u32 = 1 << 5;

pub const VIRTIO_BLK_F_SCSI: u32 = 1 << 7;

pub const VIRTIO_BLK_F_CONFIG_WCE: u32 = 1 << 11;

pub const VIRTIO_BLK_F_MQ: u32 = 1 << 12;

pub const VIRTIO_F_ANY_LAYOUT: u32 = 1 << 27;

pub const VIRTIO_RING_F_INDIRECT_DESC: u32 = 1 << 28;

pub const VIRTIO_RING_F_EVENT_IDX: u32 = 1 << 29;

/// Slots in the virtqueue.
pub const VIRTIO_RING_SIZE: u64 = 8;

/// Register offsets from the device's base.
pub const OFFSET_MAGIC_VALUE: u64 = 0x000;

pub const OFFSET_VERSION: u64 = 0x004;

pub const OFFSET_DEVICE_ID: u64 = 0x008;

pub const OFFSET_VENDOR_ID: u64 = 0x00c;

pub const OFFSET_HOST_FEATURES: u64 = 0x010;

pub const OFFSET_GUEST_FEATURES: u64 = 0x020;

pub const OFFSET_GUEST_PAGE_SIZE: u64 = 0x028;

pub const OFFSET_QUEUE_SEL: u64 = 0x030;

pub const OFFSET_QUEUE_NUM_MAX: u64 = 0x034;

pub const OFFSET_QUEUE_NUM: u64 = 0x038;

pub const OFFSET_QUEUE_PFN: u64 = 0x040;

pub const OFFSET_QUEUE_NOTIFY: u64 = 0x050;

pub const OFFSET_STATUS: u64 = 0x070;

/// Device status bits.
pub const STATUS_ACKNOWLEDGE: u32 = 1;

pub const STATUS_DRIVER: u32 = 2;

pub const STATUS_DRIVER_OK: u32 = 4;

pub const STATUS_FEATURES_OK: u32 = 8;

/// Where the driver's own fields lie inside the queue's two pages: the
/// per-slot status bytes and the per-slot request headers.
pub const QUEUE_VINFO_OFFSET: u64 = 4176;

pub const QUEUE_HEADER_OFFSET: u64 = 4304;

/// Where the available and used rings lie inside the queue's two pages.
pub const QUEUE_AVAIL_OFFSET: u64 = 128;

pub const QUEUE_USED_OFFSET: u64 = 4096;

/// Words of the used ring: flags and index, eight elements, the event field.
pub const USED_RING_WORDS: usize = 9;

/// Bytes of a request header.
pub const BLK_HEADER_SIZE: u32 = 16;

#[derive(Debug, Clone, Copy, PartialEq, Eq, Structural)]
pub struct Descriptor {
    pub addr: u64,
    pub len: u32,
    pub flags: u16,
    pub next: u16,
}

/// The ring of chain heads offered to the device.
pub struct Available {
    pub flags: u16,
    pub idx: u16,
    pub ring: Vec<u16>,
    pub event: u16,
}

#[derive(Debug, Clone, Copy, PartialEq, Eq, Structural)]
pub struct UsedElem {
    pub id: u32,
    pub len: u32,
}

/// The ring of chains the device has finished.
pub struct Used {
    pub flags: u16,
    pub idx: u16,
    pub ring: Vec<UsedElem>,
    pub event: u16,
}

/// Per-slot driver data: the data buffer's address and the status byte
/// the device fills in.
#[derive(Debug, Clone, Copy, PartialEq, Eq, Structural)]
pub struct VInfo {
    pub data: u64,
    pub status: u8,
}

/// The header of a block request: operation (0 read, 1 write) and sector.
#[derive(Debug, Clone, Copy, PartialEq, Eq, Structural)]
pub struct BlkOuthdr {
    pub typ: u32,
    pub reserved: u32,
    pub sector: u64,
}

/// The virtqueue, placed at physical address `base` (two pages), with the
/// driver's completion flags.
pub struct Queue {
    pub desc: Vec<Descriptor>,
    pub avail: Available,
    pub used: Used,
    pub used_idx: u16,
    pub vinfo: Vec<VInfo>,
    pub header: Vec<BlkOuthdr>,
    pub notify_slot: Vec<bool>,
    pub base: u64,
}

/// The second word of a descriptor in memory: length, flags and next slot.
pub open spec fn desc_word(d: Descriptor) -> u64 {
    (d.len as u64) | ((d.flags as u64) << 32u64) | ((d.next as u64) << 48u64)
}

/// The `k`-th word (of three) of the available ring in memory.
pub open spec fn avail_word(a: &Available, k: int) -> u64 {
    if k == 0 {
        (a.flags as u64) | ((a.idx as u64) << 16u64) | ((a.ring@[0] as u64) << 32u64) | ((
        a.ring@[1] as u64) << 48u64)
    } else if k == 1 {
        (a.ring@[2] as u64) | ((a.ring@[3] as u64) << 16u64) | ((a.ring@[4] as u64) << 32u64) | ((
        a.ring@[5] as u64) << 48u64)
    } else {
        (a.ring@[6] as u64) | ((a.ring@[7] as u64) << 16u64) | ((a.event as u64) << 32u64)
    }
}

/// The used ring as the device leaves it in the nine words from the queue's
/// second page: flags and index in the first word, each element's id in
/// the high half of word `k` and its length in the low half of word `k + 1`,
/// the event field after them.
pub open spec fn used_elem_of(w: Seq<u64>, k: int) -> UsedElem {
    UsedElem { id: ((w[k] >> 32u64) & 0xffff_ffff) as u32, len: (w[k + 1] & 0xffff_ffff) as u32 }
}

/// Stores that `ring_stores` hands out.
pub const RING_STORES: usize = 51;

/// Store `m` of the queue's layout in memory: two words per descriptor,
/// three for the available ring, two per slot for its buffer address and
/// status byte, and two per request header.
pub open spec fn ring_store(q: &Queue, m: int) -> MemWrite {
    if m < 16 {
        let i = m / 2;
        if m % 2 == 0 {
            MemWrite { addr: (q.base + 16 * i) as u64, value: q.desc@[i].addr }
        } else {
            MemWrite { addr: (q.base + 16 * i + 8) as u64, value: desc_word(q.desc@[i]) }
        }
    } else if m < 19 {
        MemWrite {
            addr: (q.base + QUEUE_AVAIL_OFFSET + 8 * (m - 16)) as u64,
            value: avail_word(&q.avail, m - 16),
        }
    } else if m < 35 {
        let i = (m - 19) / 2;
        if (m - 19) % 2 == 0 {
            MemWrite { addr: (q.base + QUEUE_VINFO_OFFSET + 16 * i) as u64, value: q.vinfo@[i].data }
        } else {
            MemWrite {
                addr: (q.base + QUEUE_VINFO_OFFSET + 16 * i + 8) as u64,
                value: q.vinfo@[i].status as u64,
            }
        }
    } else {
        let i = (m - 35) / 2;
        if (m - 35) % 2 == 0 {
            MemWrite {
                addr: (q.base + QUEUE_HEADER_OFFSET + 16 * i) as u64,
                value: (q.header@[i].typ as u64) | ((q.header@[i].reserved as u64) << 32u64),
            }
        } else {
            MemWrite {
                addr: (q.base + QUEUE_HEADER_OFFSET + 16 * i + 8) as u64,
                value: q.header@[i].sector,
            }
        }
    }
}

/// `q1` is `q0` after a request for `sector` with the buffer at
/// `buf_addr`: the header in slot 0, the three-descriptor chain in slots 0
/// to 2 (device-writable buffer for a read), the status byte reset, the head
/// offered on the available ring, its completion flag cleared, and nothing
/// else changed.
pub open spec fn request_made(q0: &Queue, q1: &Queue, sector: u64, buf_addr: u64, is_write: bool) -> bool {
    &&& q1.wf()
    &&& q1.header@ == q0.header@.update(
        0,
        BlkOuthdr { typ: if is_write { 1u32 } else { 0u32 }, reserved: 0, sector: sector },
    )
    &&& q1.desc@ == q0.desc@.update(
        0,
        Descriptor {
            addr: q0.header_addr(0) as u64,
            len: BLK_HEADER_SIZE,
            flags: VIRTIO_DESC_F_NEXT,
            next: 1,
        },
    ).update(
        1,
        Descriptor {
            addr: buf_addr,
            len: SECTOR_SIZE as u32,
            flags: if is_write { VIRTIO_DESC_F_NEXT } else { VIRTIO_DESC_F_NEXT | VIRTIO_DESC_F_WRITE },
            next: 2,
        },
    ).update(
        2,
        Descriptor { addr: q0.status_addr(0) as u64, len: 1, flags: VIRTIO_DESC_F_WRITE, next: 0 },
    )
    &&& q1.vinfo@ == q0.vinfo@.update(0, VInfo { data: buf_addr, status: 0xff })
    &&& q1.avail.ring@ == q0.avail.ring@.update(slot_of(q0.avail.idx), 0)
    &&& q1.avail.idx as int == (q0.avail.idx as int + 1) % 0x10000
    &&& q1.avail.flags == q0.avail.flags
    &&& q1.avail.event == q0.avail.event
    &&& q1.notify_slot@ == q0.notify_slot@.update(0, false)
    &&& q1.used == q0.used
    &&& q1.used_idx == q0.used_idx
    &&& q1.base == q0.base
}

/// Slot of a wrapping ring index.
pub open spec fn slot_of(i: u16) -> int {
    (i as int) % 8
}

impl Queue {
    pub open spec fn wf(&self) -> bool {
        &&& self.desc@.len() == 8
        &&& self.avail.ring@.len() == 8
        &&& self.used.ring@.len() == 8
        &&& self.vinfo@.len() == 8
        &&& self.header@.len() == 8
        &&& self.notify_slot@.len() == 8
        &&& self.base + 2 * 4096 <= u64::MAX
    }

    /// Used-ring entries the driver has not consumed yet.
    pub open spec fn pending(&self) -> int {
        (slot_of(self.used.idx) - slot_of(self.used_idx) + 8) % 8
    }

    /// Some entry among the pending ones names chain `j`.
    pub open spec fn completes(&self, j: int) -> bool {
        exists|k: int|
            0 <= k < self.pending() && #[trigger] self.used.ring@[(slot_of(self.used_idx) + k) % 8].id
                == j
    }

    /// Physical address of the request header of slot `i`.
    pub open spec fn header_addr(&self, i: int) -> int {
        self.base + QUEUE_HEADER_OFFSET + 16 * i
    }

    /// Physical address of the status byte of slot `i`.
    pub open spec fn status_addr(&self, i: int) -> int {
        self.base + QUEUE_VINFO_OFFSET + 16 * i + 8
    }

    /// A queue in the two pages from `p`, with empty rings.
    pub fn from_page(p: Page) -> (r: Queue)
        requires
            p.addr.addr + 2 * 4096 <= u64::MAX,
        ensures
            r.wf(),
            r.base == p.addr.addr,
            r.used_idx == 0,
            r.avail.idx == 0,
            r.used.idx == 0,
            forall|i: int| 0 <= i < 8 ==> !#[trigger] r.notify_slot@[i],
    {
        let d = Descriptor { addr: 0, len: 0, flags: 0, next: 0 };
        let u = UsedElem { id: 0, len: 0 };
        let v = VInfo { data: 0, status: 0 };
        assert(1u16 | 0u16 == 1u16) by (bit_vector);
        let h = BlkOuthdr { typ: 0, reserved: 0, sector: 0 };
        Queue {
            desc: vec![d, d, d, d, d, d, d, d],
            avail: Available { flags: 0, idx: 0, ring: vec![0u16, 0, 0, 0, 0, 0, 0, 0], event: 0 },
            used: Used { flags: 0, idx: 0, ring: vec![u, u, u, u, u, u, u, u], event: 0 },
            used_idx: 0,
            vinfo: vec![v, v, v, v, v, v, v, v],
            header: vec![h, h, h, h, h, h, h, h],
            notify_slot: vec![false, false, false, false, false, false, false, false],
            base: p.addr.addr,
        }
    }

    /// Builds the three-descriptor chain of one request in slots 0, 1 and 2
    /// (header, the sector's buffer at `buf_addr`, status byte), offers its
    /// head on the available ring and clears the head's completion flag.
    /// Returns the head and the store that tells the device.
    fn request(&mut self, sector: u64, buf_addr: u64, is_write: bool) -> (r: (usize, MmioWrite))
        requires
            old(self).wf(),
        ensures
            final(self).wf(),
            r.0 == 0,
            r.1 == (MmioWrite { offset: OFFSET_QUEUE_NOTIFY, value: 0 }),
            final(self).header@[0] == (BlkOuthdr {
                typ: if is_write { 1u32 } else { 0u32 },
                reserved: 0,
                sector: sector,
            }),
            final(self).desc@[0] == (Descriptor {
                addr: old(self).header_addr(0) as u64,
                len: BLK_HEADER_SIZE,
                flags: VIRTIO_DESC_F_NEXT,
                next: 1,
            }),
            final(self).desc@[1] == (Descriptor {
                addr: buf_addr,
                len: SECTOR_SIZE as u32,
                flags: if is_write { VIRTIO_DESC_F_NEXT } else { VIRTIO_DESC_F_NEXT | VIRTIO_DESC_F_WRITE },
                next: 2,
            }),
            final(self).desc@[2] == (Descriptor {
                addr: old(self).status_addr(0) as u64,
                len: 1,
                flags: VIRTIO_DESC_F_WRITE,
                next: 0,
            }),
            final(self).vinfo@[0].status == 0xff,
            final(self).avail.ring@ == old(self).avail.ring@.update(slot_of(old(self).avail.idx), 0),
            final(self).avail.idx as int == (old(self).avail.idx as int + 1) % 0x10000,
            final(self).notify_slot@ == old(self).notify_slot@.update(0, false),
            forall|i: int| 3 <= i < 8 ==> #[trigger] final(self).desc@[i] == old(self).desc@[i],
            final(self).used == old(self).used,
            final(self).used_idx == old(self).used_idx,
            final(self).base == old(self).base,
            request_made(old(self), final(self), sector, buf_addr, is_write),
    {
        assert(1u16 | 0u16 == 1u16) by (bit_vector);
        let h = BlkOuthdr { typ: if is_write { 1 } else { 0 }, reserved: 0, sector: sector };
        self.header.set(0, h);
        self.desc.set(
            0,
            Descriptor {
                addr: self.base + QUEUE_HEADER_OFFSET,
                len: BLK_HEADER_SIZE,
                flags: VIRTIO_DESC_F_NEXT,
                next: 1,
            },
        );
        self.desc.set(
            1,
            Descriptor {
                addr: buf_addr,
                len: SECTOR_SIZE as u32,
                flags: VIRTIO_DESC_F_NEXT | (if !is_write { VIRTIO_DESC_F_WRITE } else { 0 }),
                next: 2,
            },
        );
        let v = VInfo { data: buf_addr, status: 0xff };
        self.vinfo.set(0, v);
        self.desc.set(
            2,
            Descriptor {
                addr: self.base + QUEUE_VINFO_OFFSET + 8,
                len: 1,
                flags: VIRTIO_DESC_F_WRITE,
                next: 0,
            },
        );
        let slot = (self.avail.idx % 8) as usize;
        self.avail.ring.set(slot, 0);
        self.avail.idx = self.avail.idx.wrapping_add(1);
        self.notify_slot.set(0, false);
        (0, MmioWrite { offset: OFFSET_QUEUE_NOTIFY, value: 0 })
    }

    /// Issues a read of `sector` into the buffer at `buf_addr`. The caller
    /// performs the returned store, then waits until `is_finished` of the
    /// returned slot holds.
    pub fn read(&mut self, sector: u64, buf_addr: u64) -> (r: (usize, MmioWrite))
        requires
            old(self).wf(),
        ensures
            final(self).wf(),
            r.0 == 0,
            r.1 == (MmioWrite { offset: OFFSET_QUEUE_NOTIFY, value: 0 }),
            final(self).header@[0] == (BlkOuthdr { typ: 0, reserved: 0, sector: sector }),
            final(self).desc@[0] == (Descriptor {
                addr: old(self).header_addr(0) as u64,
                len: BLK_HEADER_SIZE,
                flags: VIRTIO_DESC_F_NEXT,
                next: 1,
            }),
            final(self).desc@[1] == (Descriptor {
                addr: buf_addr,
                len: SECTOR_SIZE as u32,
                flags: VIRTIO_DESC_F_NEXT | VIRTIO_DESC_F_WRITE,
                next: 2,
            }),
            final(self).desc@[2] == (Descriptor {
                addr: old(self).status_addr(0) as u64,
                len: 1,
                flags: VIRTIO_DESC_F_WRITE,
                next: 0,
            }),
            final(self).avail.ring@ == old(self).avail.ring@.update(slot_of(old(self).avail.idx), 0),
            final(self).avail.idx as int == (old(self).avail.idx as int + 1) % 0x10000,
            final(self).notify_slot@ == old(self).notify_slot@.update(0, false),
            final(self).used == old(self).used,
            final(self).used_idx == old(self).used_idx,
            request_made(old(self), final(self), sector, buf_addr, false),
            final(self).vinfo@[0].status == 0xff,
            forall|i: int| 3 <= i < 8 ==> #[trigger] final(self).desc@[i] == old(self).desc@[i],
            final(self).base == old(self).base,
    {
        self.request(sector, buf_addr, false)
    }

    /// Issues a write of the buffer at `buf_addr` to `sector`; as `read`.
    pub fn write(&mut self, sector: u64, buf_addr: u64) -> (r: (usize, MmioWrite))
        requires
            old(self).wf(),
        ensures
            final(self).wf(),
            r.0 == 0,
            r.1 == (MmioWrite { offset: OFFSET_QUEUE_NOTIFY, value: 0 }),
            final(self).header@[0] == (BlkOuthdr { typ: 1, reserved: 0, sector: sector }),
            final(self).desc@[0] == (Descriptor {
                addr: old(self).header_addr(0) as u64,
                len: BLK_HEADER_SIZE,
                flags: VIRTIO_DESC_F_NEXT,
                next: 1,
            }),
            final(self).desc@[2] == (Descriptor {
                addr: old(self).status_addr(0) as u64,
                len: 1,
                flags: VIRTIO_DESC_F_WRITE,
                next: 0,
            }),
            final(self).desc@[1] == (Descriptor {
                addr: buf_addr,
                len: SECTOR_SIZE as u32,
                flags: VIRTIO_DESC_F_NEXT,
                next: 2,
            }),
            final(self).avail.ring@ == old(self).avail.ring@.update(slot_of(old(self).avail.idx), 0),
            final(self).avail.idx as int == (old(self).avail.idx as int + 1) % 0x10000,
            final(self).notify_slot@ == old(self).notify_slot@.update(0, false),
            final(self).used == old(self).used,
            final(self).used_idx == old(self).used_idx,
            request_made(old(self), final(self), sector, buf_addr, true),
            final(self).vinfo@[0].status == 0xff,
            forall|i: int| 3 <= i < 8 ==> #[trigger] final(self).desc@[i] == old(self).desc@[i],
            final(self).base == old(self).base,
    {
        self.request(sector, buf_addr, true)
    }

    /// The 64-bit stores that put the descriptor table, the available ring,
    /// the per-slot buffers and status bytes, and the request headers into
    /// the queue's frames, where the device reads them; store `m` is
    /// `ring_store(self, m)`.
    pub fn ring_stores(&self) -> (r: Vec<MemWrite>)
        requires
            self.wf(),
        ensures
            r@.len() == RING_STORES,
            forall|m: int| 0 <= m < RING_STORES ==> #[trigger] r@[m] == ring_store(self, m),
    {
        let mut r: Vec<MemWrite> = Vec::new();
        let mut i: usize = 0;
        while i < 8
            invariant
                self.wf(),
                0 <= i <= 8,
                r@.len() == 2 * i,
                forall|m: int| 0 <= m < r@.len() ==> #[trigger] r@[m] == ring_store(self, m),
            decreases 8 - i,
        {
            let d = self.desc[i];
            let a = self.base + 16 * (i as u64);
            r.push(MemWrite { addr: a, value: d.addr });
            r.push(
                MemWrite {
                    addr: a + 8,
                    value: (d.len as u64) | ((d.flags as u64) << 32u64) | ((d.next as u64)
                        << 48u64),
                },
            );
            i = i + 1;
        }
        let av = &self.avail;
        let ab = self.base + QUEUE_AVAIL_OFFSET;
        r.push(
            MemWrite {
                addr: ab,
                value: (av.flags as u64) | ((av.idx as u64) << 16u64) | ((av.ring[0] as u64)
                    << 32u64) | ((av.ring[1] as u64) << 48u64),
            },
        );
        r.push(
            MemWrite {
                addr: ab + 8,
                value: (av.ring[2] as u64) | ((av.ring[3] as u64) << 16u64) | ((av.ring[4] as u64)
                    << 32u64) | ((av.ring[5] as u64) << 48u64),
            },
        );
        r.push(
            MemWrite {
                addr: ab + 16,
                value: (av.ring[6] as u64) | ((av.ring[7] as u64) << 16u64) | ((av.event as u64)
                    << 32u64),
            },
        );
        let mut i: usize = 0;
        while i < 8
            invariant
                self.wf(),
                0 <= i <= 8,
                r@.len() == 19 + 2 * i,
                forall|m: int| 0 <= m < r@.len() ==> #[trigger] r@[m] == ring_store(self, m),
            decreases 8 - i,
        {
            let v = self.vinfo[i];
            let a = self.base + QUEUE_VINFO_OFFSET + 16 * (i as u64);
            r.push(MemWrite { addr: a, value: v.data });
            r.push(MemWrite { addr: a + 8, value: v.status as u64 });
            i = i + 1;
        }
        let mut i: usize = 0;
        while i < 8
            invariant
                self.wf(),
                0 <= i <= 8,
                r@.len() == 35 + 2 * i,
                forall|m: int| 0 <= m < r@.len() ==> #[trigger] r@[m] == ring_store(self, m),
            decreases 8 - i,
        {
            let h = self.header[i];
            let a = self.base + QUEUE_HEADER_OFFSET + 16 * (i as u64);
            r.push(MemWrite { addr: a, value: (h.typ as u64) | ((h.reserved as u64) << 32u64) });
            r.push(MemWrite { addr: a + 8, value: h.sector });
            i = i + 1;
        }
        r
    }

    /// Takes the used ring from the nine words the device left at the
    /// queue's second page.
    pub fn set_used_from_words(&mut self, w: &Vec<u64>)
        requires
            old(self).wf(),
            w@.len() == USED_RING_WORDS,
        ensures
            final(self).wf(),
            final(self).used.flags == (w@[0] & 0xffff) as u16,
            final(self).used.idx == ((w@[0] >> 16u64) & 0xffff) as u16,
            forall|k: int| 0 <= k < 8 ==> #[trigger] final(self).used.ring@[k] == used_elem_of(w@, k),
            final(self).used.event == ((w@[8] >> 32u64) & 0xffff) as u16,
            final(self).desc == old(self).desc,
            final(self).avail == old(self).avail,
            final(self).used_idx == old(self).used_idx,
            final(self).vinfo == old(self).vinfo,
            final(self).header == old(self).header,
            final(self).notify_slot == old(self).notify_slot,
            final(self).base == old(self).base,
    {
        let mut ring: Vec<UsedElem> = Vec::new();
        let mut k: usize = 0;
        while k < 8
            invariant
                w@.len() == 9,
                0 <= k <= 8,
                ring@.len() == k,
                forall|j: int| 0 <= j < k ==> #[trigger] ring@[j] == used_elem_of(w@, j),
            decreases 8 - k,
        {
            ring.push(
                UsedElem {
                    id: ((w[k] >> 32u64) & 0xffff_ffff) as u32,
                    len: (w[k + 1] & 0xffff_ffff) as u32,
                },
            );
            k = k + 1;
        }
        self.used = Used {
            flags: (w[0] & 0xffff) as u16,
            idx: ((w[0] >> 16u64) & 0xffff) as u16,
            ring,
            event: ((w[8] >> 32u64) & 0xffff) as u16,
        };
    }

    /// Whether the device has finished the chain with head `id`.
    pub fn is_finished(&self, id: usize) -> (r: bool)
        requires
            self.wf(),
            id < 8,
        ensures
            r == self.notify_slot@[id as int],
    {
        self.notify_slot[id]
    }

    pub fn mark_finished(&mut self, id: usize)
        requires
            old(self).wf(),
            id < 8,
        ensures
            final(self).wf(),
            final(self).notify_slot@ == old(self).notify_slot@.update(id as int, true),
            final(self).vinfo == old(self).vinfo,
            final(self).header == old(self).header,
            final(self).desc == old(self).desc,
            final(self).avail == old(self).avail,
            final(self).used == old(self).used,
            final(self).used_idx == old(self).used_idx,
            final(self).base == old(self).base,
    {
        self.notify_slot.set(id, true);
    }
}

/// Feature bits this driver never takes.
pub const UNUSED_FEATURES: u32 = VIRTIO_BLK_F_RO | VIRTIO_BLK_F_SCSI | VIRTIO_BLK_F_CONFIG_WCE
    | VIRTIO_BLK_F_MQ | VIRTIO_F_ANY_LAYOUT | VIRTIO_RING_F_EVENT_IDX | VIRTIO_RING_F_INDIRECT_DESC;

/// The registers describe a block device this driver can use: the magic
/// value, version 1, the vendor, the block device type, and room for the
/// eight-slot queue.
pub open spec fn device_ok(regs: &DeviceRegisters) -> bool {
    &&& regs.magic == VIRTIO_MAGIC
    &&& regs.version == 1
    &&& regs.vendor_id == VIRTIO_VENDOR
    &&& regs.device_id == VIRTIO_BLOCK_DEVICE
    &&& regs.queue_num_max >= 8
}

/// The identification registers and offers of a device, as read before
/// initialization.
#[derive(Debug, Clone, Copy, PartialEq, Eq, Structural)]
pub struct DeviceRegisters {
    pub magic: u32,
    pub version: u32,
    pub device_id: u32,
    pub vendor_id: u32,
    pub host_features: u32,
    pub queue_num_max: u32,
}

impl DeviceRegisters {
    /// Whether the registers describe a usable block device.
    pub fn is_usable(&self) -> (r: bool)
        ensures
            r == device_ok(self),
    {
        self.magic == VIRTIO_MAGIC && self.version == 1 && self.vendor_id == VIRTIO_VENDOR
            && self.device_id == VIRTIO_BLOCK_DEVICE && self.queue_num_max >= 8
    }
}

/// A device with another magic value, protocol version (1) or vendor id is
/// fatal; the check is this function's precondition, which callers test
/// with `DeviceRegisters::is_usable`.
pub fn assert_device_status(magic: u32, version: u32, vendor_id: u32)
    requires
        magic == VIRTIO_MAGIC,
        version == 1,
        vendor_id == VIRTIO_VENDOR,
{
}

/// A device that is not of type `t` is fatal; the check is the precondition.
pub fn assert_device_type(device_id: u32, t: u32)
    requires
        device_id == t,
{
}

/// The offered features without those this driver never takes.
pub fn negotiate_features(host_features: u32) -> (r: u32)
    ensures
        r == host_features & !UNUSED_FEATURES,
{
    let mut features = host_features;
    features = features & !VIRTIO_BLK_F_RO;
    features = features & !VIRTIO_BLK_F_SCSI;
    features = features & !VIRTIO_BLK_F_CONFIG_WCE;
    features = features & !VIRTIO_BLK_F_MQ;
    features = features & !VIRTIO_F_ANY_LAYOUT;
    features = features & !VIRTIO_RING_F_EVENT_IDX;
    features = features & !VIRTIO_RING_F_INDIRECT_DESC;
    assert(features == host_features & !UNUSED_FEATURES) by (bit_vector)
        requires
            features == host_features & !(1u32 << 5) & !(1u32 << 7) & !(1u32 << 11) & !(1u32 << 12)
                & !(1u32 << 27) & !(1u32 << 29) & !(1u32 << 28),
    ;
    features
}

/// The stores of `init_block_device`, in order.
pub open spec fn init_writes(host_features: u32, queue_addr: u64) -> Seq<MmioWrite> {
    seq![
        MmioWrite { offset: OFFSET_STATUS, value: STATUS_ACKNOWLEDGE },
        MmioWrite { offset: OFFSET_STATUS, value: STATUS_ACKNOWLEDGE | STATUS_DRIVER },
        MmioWrite { offset: OFFSET_GUEST_FEATURES, value: host_features & !UNUSED_FEATURES },
        MmioWrite {
            offset: OFFSET_STATUS,
            value: STATUS_ACKNOWLEDGE | STATUS_DRIVER | STATUS_FEATURES_OK,
        },
        MmioWrite {
            offset: OFFSET_STATUS,
            value: STATUS_ACKNOWLEDGE | STATUS_DRIVER | STATUS_FEATURES_OK | STATUS_DRIVER_OK,
        },
        MmioWrite { offset: OFFSET_GUEST_PAGE_SIZE, value: 4096 },
        MmioWrite { offset: OFFSET_QUEUE_SEL, value: 0 },
        MmioWrite { offset: OFFSET_QUEUE_NUM, value: 8 },
        MmioWrite { offset: OFFSET_QUEUE_PFN, value: (queue_addr >> 12u64) as u32 },
    ]
}

/// The stores that bring a probed block device up with the queue at
/// `queue_addr`: status through acknowledge, driver, features-ok and
/// driver-ok, the negotiated features, the page size, queue 0 with eight
/// slots, and the queue's frame number.
pub fn init_block_device(host_features: u32, queue_num_max: u32, queue_addr: u64) -> (r: Vec<
    MmioWrite,
>)
    requires
        queue_num_max >= 8,
    ensures
        r@ == init_writes(host_features, queue_addr),
{
    let queue_num: u32 = VIRTIO_RING_SIZE as u32;
    let mut w: Vec<MmioWrite> = Vec::new();
    let mut status: u32 = 0;
    status = status | STATUS_ACKNOWLEDGE;
    w.push(MmioWrite { offset: OFFSET_STATUS, value: status });
    status = status | STATUS_DRIVER;
    w.push(MmioWrite { offset: OFFSET_STATUS, value: status });
    w.push(MmioWrite { offset: OFFSET_GUEST_FEATURES, value: negotiate_features(host_features) });
    status = status | STATUS_FEATURES_OK;
    w.push(MmioWrite { offset: OFFSET_STATUS, value: status });
    status = status | STATUS_DRIVER_OK;
    w.push(MmioWrite { offset: OFFSET_STATUS, value: status });
    w.push(MmioWrite { offset: OFFSET_GUEST_PAGE_SIZE, value: PAGE_SIZE as u32 });
    w.push(MmioWrite { offset: OFFSET_QUEUE_SEL, value: 0 });
    w.push(MmioWrite { offset: OFFSET_QUEUE_NUM, value: queue_num });
    w.push(MmioWrite { offset: OFFSET_QUEUE_PFN, value: (queue_addr >> 12u64) as u32 });
    assert(0u32 | 1u32 == 1u32) by (bit_vector);
    w
}

/// Places a queue in two fresh frames for a usable block device and returns
/// it with the stores that initialize the device. An unusable device, or no
/// frames for the queue, is fatal: both are preconditions.
pub fn init(mem: &mut PhysMemory, regs: &DeviceRegisters) -> (r: (Queue, Vec<MmioWrite>))
    requires
        old(mem).wf(),
        device_ok(regs),
        old(mem).can_alloc(2),
    ensures
        final(mem).wf(),
        final(mem).same_config(old(mem)),
        r.0.wf(),
        r.0.base == old(mem).next_free(),
        r.0.used_idx == 0,
        r.0.avail.idx == 0,
        r.0.used.idx == 0,
        final(mem).next_free() == old(mem).next_free() + 2 * 4096,
        r.1@ == init_writes(regs.host_features, r.0.base),
{
    assert_device_status(regs.magic, regs.version, regs.vendor_id);
    assert_device_type(regs.device_id, VIRTIO_BLOCK_DEVICE);
    let page = alloc_continuous(mem, 2);
    let queue = Queue::from_page(page);
    let queue_addr = queue.base;
    let w = init_block_device(regs.host_features, regs.queue_num_max, queue_addr);
    (queue, w)
}

/// Consumes every used-ring entry the device produced since the last call
/// and marks each finished chain as complete. Only the first virtio device
/// (interrupt id 1) is driven; any other id is fatal.
#[verifier::rlimit(40)]
pub fn handle_interrupt(queue: &mut Queue, interrupt: u32)
    requires
        old(queue).wf(),
        interrupt == 1,
    ensures
        final(queue).wf(),
        final(queue).used_idx as int == (old(queue).used_idx as int + old(queue).pending())
            % 0x10000,
        final(queue).pending() == 0,
        forall|j: int|
            0 <= j < 8 ==> #[trigger] final(queue).notify_slot@[j] == (old(queue).notify_slot@[j]
                || old(queue).completes(j)),
        final(queue).desc == old(queue).desc,
        final(queue).vinfo == old(queue).vinfo,
        final(queue).header == old(queue).header,
        final(queue).avail == old(queue).avail,
        final(queue).used == old(queue).used,
        final(queue).base == old(queue).base,
{
    let ghost q0 = *queue;
    let ghost s0 = slot_of(q0.used_idx);
    let ghost mut k: int = 0;
    while queue.used_idx % 8 != queue.used.idx % 8
        invariant
            queue.wf(),
            q0.wf(),
            queue.desc == q0.desc,
            queue.vinfo == q0.vinfo,
            queue.header == q0.header,
            queue.avail == q0.avail,
            queue.used == q0.used,
            queue.base == q0.base,
            s0 == slot_of(q0.used_idx),
            0 <= k <= q0.pending(),
            queue.used_idx as int == (q0.used_idx as int + k) % 0x10000,
            forall|j: int|
                0 <= j < 8 ==> #[trigger] queue.notify_slot@[j] == (q0.notify_slot@[j] || exists|
                    kk: int,
                |
                    0 <= kk < k && #[trigger] q0.used.ring@[(s0 + kk) % 8].id == j),
        decreases q0.pending() - k,
    {
        let e = queue.used.ring[(queue.used_idx % 8) as usize];
        assert(slot_of(queue.used_idx) == (s0 + k) % 8);
        if (e.id as u64) < 8 {
            queue.mark_finished(e.id as usize);
        }
        queue.used_idx = queue.used_idx.wrapping_add(1);
        proof {
            assert forall|j: int|
                0 <= j < 8 implies #[trigger] queue.notify_slot@[j] == (q0.notify_slot@[j] || exists|
                kk: int,
            |
                0 <= kk < k + 1 && #[trigger] q0.used.ring@[(s0 + kk) % 8].id == j) by {
                if q0.used.ring@[(s0 + k) % 8].id == j {
                    assert(0 <= k < k + 1);
                }
            }
            k = k + 1;
        }
    }
    assert(k == q0.pending());
    proof {
        assert forall|j: int|
            0 <= j < 8 implies #[trigger] queue.notify_slot@[j] == (q0.notify_slot@[j]
            || q0.completes(j)) by {
            if q0.completes(j) {
                let kk = choose|kk: int|
                    0 <= kk < q0.pending() && #[trigger] q0.used.ring@[(slot_of(q0.used_idx) + kk)
                        % 8].id == j;
                assert(0 <= kk < k && q0.used.ring@[(s0 + kk) % 8].id == j);
            }
        }
    }
}

} // verus!
