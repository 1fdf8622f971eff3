//! Physical memory, the page-frame allocator and the three-level page table
//! used for guest-physical address translation.
use vstd::prelude::*;

verus! {

/// Exclusive bound on physical addresses that a page-table entry carries:
/// its frame number has 44 bits (the top one is copied into bits 54 to 63
/// of the stored word).
pub const PHYS_LIMIT: u64 = 0x100_0000_0000_0000;

/// Index into the table of the given level (0, 1 or 2) that `addr` selects.
pub open spec fn vpn_of(addr: u64, level: int) -> u64 {
    if level == 0 {
        (addr >> 12u64) & 0x1ff
    } else if level == 1 {
        (addr >> 21u64) & 0x1ff
    } else {
        (addr >> 30u64) & 0x1ff
    }
}

/// A guest-physical (or virtual) address.
#[derive(Debug)]
pub struct VirtualAddress {
    pub addr: u64,
}

impl VirtualAddress {
    pub fn new(addr: u64) -> (r: VirtualAddress)
        ensures
            r.addr == addr,
    {
        VirtualAddress { addr: addr }
    }

    /// The three table indices, level 0 first.
    pub fn to_vpn(&self) -> (r: [u64; 3])
        ensures
            r@ == seq![vpn_of(self.addr, 0), vpn_of(self.addr, 1), vpn_of(self.addr, 2)],
    {
        let r = [(self.addr >> 12u64) & 0x1ff, (self.addr >> 21u64) & 0x1ff, (self.addr >> 30u64) & 0x1ff];
        assert(r@ =~= seq![vpn_of(self.addr, 0), vpn_of(self.addr, 1), vpn_of(self.addr, 2)]);
        r
    }

    /// The offset of the address inside its page.
    pub fn to_offset(&self) -> (r: u64)
        ensures
            r == self.addr & 0xfff,
    {
        self.addr & 0xfff
    }

    pub fn to_usize(&self) -> (r: u64)
        ensures
            r == self.addr,
    {
        self.addr
    }
}

/// A host-physical address.
#[derive(Copy, Clone, Debug)]
pub struct PhysicalAddress {
    pub addr: u64,
}

impl PhysicalAddress {
    pub fn new(addr: u64) -> (r: PhysicalAddress)
        ensures
            r.addr == addr,
    {
        PhysicalAddress { addr: addr }
    }

    /// The frame number of the address.
    pub fn to_ppn(&self) -> (r: u64)
        ensures
            r == self.addr >> 12u64,
    {
        self.addr >> 12u64
    }

    /// The frame number split into the three fields of a page-table entry.
    pub fn to_ppn_array(&self) -> (r: [u64; 3])
        ensures
            r@ == seq![(self.addr >> 12u64) & 0x1ff, (self.addr >> 21u64) & 0x1ff, (self.addr >> 30u64) & 0x3ff_ffff],
    {
        let r = [(self.addr >> 12u64) & 0x1ff, (self.addr >> 21u64) & 0x1ff, (self.addr >> 30u64) & 0x3ff_ffff];
        assert(r@ =~= seq![(self.addr >> 12u64) & 0x1ff, (self.addr >> 21u64) & 0x1ff, (self.addr >> 30u64) & 0x3ff_ffff]);
        r
    }

    pub fn to_usize(&self) -> (r: u64)
        ensures
            r == self.addr,
    {
        self.addr
    }
}

/// A handle to one 4096-byte page frame.
#[derive(Debug)]
pub struct Page {
    pub addr: PhysicalAddress,
}

impl Page {
    pub fn from_address(addr: PhysicalAddress) -> (r: Page)
        ensures
            r.addr == addr,
    {
        Page { addr: addr }
    }

    pub fn address(&self) -> (r: PhysicalAddress)
        ensures
            r == self.addr,
    {
        self.addr
    }

    /// Fills the page with zeros.
    pub fn clear(&self, mem: &mut PhysMemory)
        requires
            old(mem).wf(),
            old(mem).holds_page(self.addr.addr as int),
        ensures
            final(mem).wf(),
            final(mem).same_config(old(mem)),
            final(mem).last_index == old(mem).last_index,
            final(mem).zeroed(self.addr.addr as int, 1),
            final(mem).same_outside(old(mem), self.addr.addr as int, 1),
    {
        mem.zero_page(self.addr.addr);
    }
}

/// The permission and status bits of a page-table entry.
pub enum PageTableEntryFlag {
    Valid,
    Read,
    Write,
    Execute,
    User,
    Global,
    Access,
    Dirty,
}

impl PageTableEntryFlag {
    pub open spec fn spec_bits(&self) -> u16 {
        match self {
            PageTableEntryFlag::Valid => 1,
            PageTableEntryFlag::Read => 2,
            PageTableEntryFlag::Write => 4,
            PageTableEntryFlag::Execute => 8,
            PageTableEntryFlag::User => 16,
            PageTableEntryFlag::Global => 32,
            PageTableEntryFlag::Access => 64,
            PageTableEntryFlag::Dirty => 128,
        }
    }

    /// The bit of the flag inside an entry.
    pub fn bits(&self) -> (r: u16)
        ensures
            r == self.spec_bits(),
    {
        match self {
            PageTableEntryFlag::Valid => 1,
            PageTableEntryFlag::Read => 2,
            PageTableEntryFlag::Write => 4,
            PageTableEntryFlag::Execute => 8,
            PageTableEntryFlag::User => 16,
            PageTableEntryFlag::Global => 32,
            PageTableEntryFlag::Access => 64,
            PageTableEntryFlag::Dirty => 128,
        }
    }
}

/// The word that an entry with these fields is stored as; the top bit of
/// the highest field is repeated in bits 54 to 63.
pub open spec fn pte_word(ppn0: u64, ppn1: u64, ppn2: u64, flags: u16) -> u64 {
    (if (ppn2 >> 25u64) & 1 == 1 { 0x3ffu64 << 54u64 } else { 0u64 }) | (ppn2 << 28u64) | (ppn1
        << 19u64) | (ppn0 << 10u64) | (flags as u64)
}

/// `v` with its bit 53 repeated in bits 54 to 63.
#[verifier::opaque]
pub open spec fn pte_sext(v: u64) -> u64 {
    (if (v >> 53u64) & 1 == 1 { 0x3ffu64 << 54u64 } else { 0u64 }) | v
}

/// The frame address that a stored entry points at.
pub open spec fn pte_target(v: u64) -> u64 {
    (((v >> 28u64) & 0x3ff_ffff) << 30u64) | (((v >> 19u64) & 0x1ff) << 21u64) | (((v
        >> 10u64) & 0x1ff) << 12u64)
}

/// Whether a stored entry has its valid bit set.
pub open spec fn pte_valid(v: u64) -> bool {
    v & 1 != 0
}

/// A stored entry with none of read, write and execute points at the next
/// table; a valid one with any of them is a leaf.
pub open spec fn pte_pointer(v: u64) -> bool {
    v & 0xe == 0
}

/// The frame number of `addr` in place, with the given low bits.
pub open spec fn pte_raw(addr: u64, low: u64) -> u64 {
    (addr >> 2u64) | low
}

/// The entry word stored for frame `addr` with the given low bits.
pub open spec fn pte_encode(addr: u64, low: u64) -> u64 {
    pte_sext(pte_raw(addr, low))
}

/// An entry built from frame `addr` and flags `low` (< 256) is stored as
/// `pte_encode(addr, low)`, which reads back as that frame, with the valid,
/// pointer and flag bits of `low`.
pub proof fn lemma_pte_encode(addr: u64, low: u64)
    requires
        addr % 4096 == 0,
        addr < PHYS_LIMIT,
        low < 256,
    ensures
        pte_target(pte_encode(addr, low)) == addr,
        pte_valid(pte_encode(addr, low)) == (low & 1 != 0),
        pte_pointer(pte_encode(addr, low)) == (low & 0xe == 0),
        pte_encode(addr, low) & 0x1ff == low,
        pte_word(
            (pte_raw(addr, low) >> 10u64) & 0x1ff,
            (pte_raw(addr, low) >> 19u64) & 0x1ff,
            (pte_raw(addr, low) >> 28u64) & 0x3ff_ffff,
            (pte_raw(addr, low) & 0x1ff) as u16,
        ) == pte_encode(addr, low),
{
    reveal(pte_sext);
    assert(addr & 0xfff == 0) by (bit_vector)
        requires
            addr % 4096 == 0,
    ;
    let v = (addr >> 2u64) | low;
    let w = (if (v >> 53u64) & 1 == 1 { 0x3ffu64 << 54u64 } else { 0u64 }) | v;
    assert(pte_target(w) == addr && (w & 1 != 0) == (low & 1 != 0) && ((w & 0xe) == 0) == (low
        & 0xe == 0) && w & 0x1ff == low) by (bit_vector)
        requires
            v == (addr >> 2u64) | low,
            w == (if (v >> 53u64) & 1 == 1 { 0x3ffu64 << 54u64 } else { 0u64 }) | v,
            addr & 0xfff == 0,
            addr < 0x100_0000_0000_0000,
            low < 256,
    ;
    assert(((v & 0x1ff) as u16) as u64 == v & 0x1ff) by (bit_vector);
    assert(((if (((v >> 28u64) & 0x3ff_ffff) >> 25u64) & 1 == 1 { 0x3ffu64 << 54u64 } else { 0u64 })
        | (((v >> 28u64) & 0x3ff_ffff) << 28u64) | (((v >> 19u64) & 0x1ff) << 19u64) | (((v
        >> 10u64) & 0x1ff) << 10u64) | (v & 0x1ff)) == w) by (bit_vector)
        requires
            v == (addr >> 2u64) | low,
            w == (if (v >> 53u64) & 1 == 1 { 0x3ffu64 << 54u64 } else { 0u64 }) | v,
            addr & 0xfff == 0,
            addr < 0x100_0000_0000_0000,
            low < 256,
    ;
}

/// A page-table entry split into its frame-number fields and its flags.
#[derive(Debug)]
pub struct PageTableEntry {
    pub ppn: [u64; 3],
    pub flags: u16,
}

impl PageTableEntry {
    pub fn from_value(v: u64) -> (r: PageTableEntry)
        ensures
            r.ppn@ == seq![(v >> 10u64) & 0x1ff, (v >> 19u64) & 0x1ff, (v >> 28u64) & 0x3ff_ffff],
            r.flags == (v & 0x1ff) as u16,
    {
        let ppn = [(v >> 10u64) & 0x1ff, (v >> 19u64) & 0x1ff, (v >> 28u64) & 0x3ff_ffff];
        assert(ppn@ =~= seq![(v >> 10u64) & 0x1ff, (v >> 19u64) & 0x1ff, (v >> 28u64) & 0x3ff_ffff]);
        PageTableEntry { ppn: ppn, flags: (v & (0x1ff as u64)) as u16 }
    }

    /// The entry stored at `paddr`.
    pub fn from_memory(mem: &PhysMemory, paddr: PhysicalAddress) -> (r: PageTableEntry)
        requires
            mem.wf(),
            mem.base <= paddr.addr,
            paddr.addr + 8 <= mem.end(),
        ensures
            r.ppn@ == seq![
                (mem.word(paddr.addr as int) >> 10u64) & 0x1ff,
                (mem.word(paddr.addr as int) >> 19u64) & 0x1ff,
                (mem.word(paddr.addr as int) >> 28u64) & 0x3ff_ffff,
            ],
            r.flags == (mem.word(paddr.addr as int) & 0x1ff) as u16,
    {
        PageTableEntry::from_value(mem.read_word(paddr.addr))
    }

    /// The word the entry is stored as.
    pub fn to_usize(&self) -> (r: u64)
        ensures
            r == pte_word(self.ppn@[0], self.ppn@[1], self.ppn@[2], self.flags),
    {
        (if (self.ppn[2] >> 25u64) & 1 == 1 {
            0x3ffu64 << 54u64
        } else {
            0u64
        }) | (self.ppn[2] << 28u64) | (self.ppn[1] << 19u64) | (self.ppn[0] << 10u64) | (
        self.flags as u64)
    }

    /// The page that the entry points at.
    pub fn next_page(&self) -> (r: Page)
        ensures
            r.addr.addr == (self.ppn@[2] << 30u64) | (self.ppn@[1] << 21u64) | (self.ppn@[0]
                << 12u64),
    {
        Page::from_address(
            PhysicalAddress::new((self.ppn[2] << 30u64) | (self.ppn[1] << 21u64) | (self.ppn[0] << 12u64)),
        )
    }

    pub fn set_flag(&mut self, flag: PageTableEntryFlag)
        ensures
            final(self).ppn == old(self).ppn,
            final(self).flags == old(self).flags | flag.spec_bits(),
    {
        self.flags = self.flags | flag.bits();
    }

    pub fn is_valid(&self) -> (r: bool)
        ensures
            r == (self.flags & 1 != 0),
    {
        self.flags & 1 != 0
    }
}

/// A window of physical memory, held word by word, together with the cursor
/// of the page-frame allocator that hands out its frames.
pub struct PhysMemory {
    /// Physical address of the first word.
    pub base: u64,
    pub words: Vec<u64>,
    /// Address of the frame handed out first.
    pub alloc_base: u64,
    /// Number of frames handed out since `alloc_base`.
    pub last_index: u64,
    pub initialized: bool,
    /// Highest address the allocator may hand out.
    pub alloc_end: u64,
}

/// The least multiple of 16 KiB that is at least `a`.
pub open spec fn round_up_16k(a: int) -> int {
    if a % 16384 == 0 {
        a
    } else {
        a + 16384 - a % 16384
    }
}

impl PhysMemory {
    pub open spec fn wf(&self) -> bool {
        &&& self.base % 4096 == 0
        &&& self.base + 8 * self.words@.len() <= PHYS_LIMIT
        &&& self.alloc_base % 4096 == 0
    }

    /// One past the last byte of the window.
    pub open spec fn end(&self) -> int {
        self.base + 8 * self.words@.len()
    }

    /// `a` is a page frame inside the window.
    pub open spec fn holds_page(&self, a: int) -> bool {
        a % 4096 == 0 && self.base <= a && a + 4096 <= self.end()
    }

    /// Position in `words` of the word at address `a`.
    pub open spec fn index_of(&self, a: int) -> int {
        (a - self.base) / 8
    }

    /// The word stored at address `a`.
    pub open spec fn word(&self, a: int) -> u64 {
        self.words@[self.index_of(a)]
    }

    /// Address of the frame the allocator hands out next.
    pub open spec fn next_free(&self) -> int {
        self.alloc_base + 4096 * self.last_index
    }

    /// `n` consecutive frames can be handed out from the cursor.
    pub open spec fn can_alloc(&self, n: int) -> bool {
        &&& self.initialized
        &&& self.base <= self.next_free()
        &&& self.next_free() + 4096 * (n - 1) <= self.alloc_end
        &&& self.next_free() + 4096 * n <= self.end()
    }

    /// A 16 KiB-aligned block of four frames can be handed out.
    pub open spec fn can_alloc_16(&self) -> bool {
        &&& self.initialized
        &&& self.base <= self.next_free()
        &&& round_up_16k(self.next_free()) + 3 * 4096 <= self.alloc_end
        &&& round_up_16k(self.next_free()) + 4 * 4096 <= self.end()
    }

    /// The `n` frames from `a` on hold zeros.
    pub open spec fn zeroed(&self, a: int, n: int) -> bool {
        forall|i: int|
            self.index_of(a) <= i < self.index_of(a) + 512 * n ==> #[trigger] self.words@[i] == 0
    }

    /// Both have the same window and allocator bounds.
    pub open spec fn same_config(&self, other: &PhysMemory) -> bool {
        &&& self.base == other.base
        &&& self.words@.len() == other.words@.len()
        &&& self.alloc_base == other.alloc_base
        &&& self.initialized == other.initialized
        &&& self.alloc_end == other.alloc_end
    }

    /// Both agree on every word outside the `n` frames from `a`.
    pub open spec fn same_outside(&self, other: &PhysMemory, a: int, n: int) -> bool {
        forall|i: int|
            0 <= i < self.words@.len() && !(self.index_of(a) <= i < self.index_of(a) + 512 * n)
                ==> #[trigger] self.words@[i] == other.words@[i]
    }

    /// A window of `pages` zeroed frames from `base` on; the allocator may
    /// hand out frames up to `alloc_end` once it is initialized.
    pub fn new(base: u64, pages: usize, alloc_end: u64) -> (r: PhysMemory)
        requires
            base % 4096 == 0,
            base + 4096 * pages <= PHYS_LIMIT,
            512 * pages <= usize::MAX,
        ensures
            r.wf(),
            r.base == base,
            r.words@.len() == 512 * pages,
            r.alloc_base == base,
            r.last_index == 0,
            !r.initialized,
            r.alloc_end == alloc_end,
            forall|i: int| 0 <= i < r.words@.len() ==> #[trigger] r.words@[i] == 0,
    {
        let words = vec![0u64; 512 * pages];
        PhysMemory { base, words, alloc_base: base, last_index: 0, initialized: false, alloc_end }
    }

    /// Position in `words` of the word at `a`.
    fn index(&self, a: u64) -> (r: usize)
        requires
            self.wf(),
            self.base <= a,
            a + 8 <= self.end(),
        ensures
            r == self.index_of(a as int),
            r < self.words@.len(),
    {
        let d = a - self.base;
        let n = self.words.len();
        assert(d / 8 < self.words@.len()) by (nonlinear_arith)
            requires
                d + 8 <= 8 * self.words@.len(),
        ;
        assert(d / 8 < n);
        (d / 8) as usize
    }

    /// Reads the word at `a`.
    pub fn read_word(&self, a: u64) -> (r: u64)
        requires
            self.wf(),
            self.base <= a,
            a + 8 <= self.end(),
        ensures
            r == self.word(a as int),
    {
        let i = self.index(a);
        self.words[i]
    }

    /// Writes `v` to the word at `a`.
    pub fn write_word(&mut self, a: u64, v: u64)
        requires
            old(self).wf(),
            old(self).base <= a,
            a + 8 <= old(self).end(),
        ensures
            final(self).wf(),
            final(self).same_config(old(self)),
            final(self).last_index == old(self).last_index,
            final(self).words@ == old(self).words@.update(old(self).index_of(a as int), v),
    {
        let i = self.index(a);
        self.words.set(i, v);
    }

    /// Fills the frame at `a` with zeros.
    #[verifier::rlimit(40)]
    fn zero_page(&mut self, a: u64)
        requires
            old(self).wf(),
            old(self).holds_page(a as int),
        ensures
            final(self).wf(),
            final(self).same_config(old(self)),
            final(self).last_index == old(self).last_index,
            final(self).zeroed(a as int, 1),
            final(self).same_outside(old(self), a as int, 1),
    {
        let start = self.index(a);
        assert(start + 512 <= self.words@.len()) by (nonlinear_arith)
            requires
                start == (a - self.base) / 8,
                (a - self.base) % 8 == 0,
                a + 4096 <= self.base + 8 * self.words@.len(),
        ;
        let n = self.words.len();
        assert(start + 512 <= n);
        let stop = start + 512;
        let mut j: usize = start;
        while j < stop
            invariant
                self.wf(),
                self.same_config(old(self)),
                self.last_index == old(self).last_index,
                start == self.index_of(a as int),
                start + 512 <= self.words@.len(),
                stop == start + 512,
                start <= j <= start + 512,
                forall|i: int| start <= i < j ==> #[trigger] self.words@[i] == 0,
                forall|i: int|
                    0 <= i < self.words@.len() && !(start <= i < j) ==> #[trigger] self.words@[i]
                        == old(self).words@[i],
            decreases start + 512 - j,
        {
            self.words.set(j, 0);
            j = j + 1;
        }
    }
}

/// The byte at address `a`; words hold their bytes least significant first.
pub open spec fn byte_at(mem: &PhysMemory, a: int) -> u8 {
    ((mem.words@[(a - mem.base) / 8] >> ((8 * ((a - mem.base) % 8)) as u64)) & 0xff) as u8
}

/// Storing a byte into a word changes that byte and keeps the others.
proof fn lemma_store_byte(w: u64, v: u8, sh: u64, sh2: u64)
    requires
        sh < 64,
        sh2 < 64,
        sh & 7 == 0,
        sh2 & 7 == 0,
    ensures
        ((((w & !(0xffu64 << sh)) | ((v as u64) << sh)) >> sh) & 0xff) as u8 == v,
        sh2 != sh ==> (((w & !(0xffu64 << sh)) | ((v as u64) << sh)) >> sh2) & 0xff == (w >> sh2)
            & 0xff,
{
    assert(((((w & !(0xffu64 << sh)) | ((v as u64) << sh)) >> sh) & 0xff) == v as u64)
        by (bit_vector)
        requires
            sh < 64,
            sh & 7 == 0,
    ;
    assert(sh2 != sh ==> (((w & !(0xffu64 << sh)) | ((v as u64) << sh)) >> sh2) & 0xff == (w >> sh2)
        & 0xff) by (bit_vector)
        requires
            sh < 64,
            sh2 < 64,
            sh & 7 == 0,
            sh2 & 7 == 0,
    ;
}

/// Reads the byte at `a`.
pub fn read_byte(mem: &PhysMemory, a: u64) -> (r: u8)
    requires
        mem.wf(),
        mem.base <= a < mem.end(),
    ensures
        r == byte_at(mem, a as int),
{
    let d = a - mem.base;
    let n = mem.words.len();
    assert(d / 8 < n) by (nonlinear_arith)
        requires
            d < 8 * n,
    ;
    let w = mem.words[(d / 8) as usize];
    ((w >> (8 * (d % 8))) & 0xff) as u8
}

/// Writes the byte `v` to `a`.
#[verifier::rlimit(40)]
pub fn write_byte(mem: &mut PhysMemory, a: u64, v: u8)
    requires
        old(mem).wf(),
        old(mem).base <= a < old(mem).end(),
    ensures
        final(mem).wf(),
        final(mem).same_config(old(mem)),
        final(mem).last_index == old(mem).last_index,
        byte_at(final(mem), a as int) == v,
        forall|b: int|
            #![trigger byte_at(final(mem), b)]
            old(mem).base <= b < old(mem).end() && b != a ==> byte_at(final(mem), b) == byte_at(
                old(mem),
                b,
            ),
        forall|i: int|
            #![trigger final(mem).words@[i]]
            0 <= i < old(mem).words@.len() && i != (a - old(mem).base) / 8 ==> final(mem).words@[i]
                == old(mem).words@[i],
{
    let d = a - mem.base;
    let n = mem.words.len();
    assert(d / 8 < n) by (nonlinear_arith)
        requires
            d < 8 * n,
    ;
    let i = (d / 8) as usize;
    let sh = 8 * (d % 8);
    let w = mem.words[i];
    let nw = (w & !(0xffu64 << sh)) | ((v as u64) << sh);
    mem.words.set(i, nw);
    proof {
        assert(sh & 7 == 0) by (bit_vector)
            requires
                sh == 8 * (d % 8),
        ;
        lemma_store_byte(w, v, sh, sh);
        assert forall|b: int|
            #![trigger byte_at(mem, b)]
            old(mem).base <= b < old(mem).end() && b != a implies byte_at(mem, b) == byte_at(
            old(mem),
            b,
        ) by {
            let db = b - mem.base;
            if db / 8 == i {
                let m = (db % 8) as u64;
                let sh2 = (8 * m) as u64;
                assert(sh2 & 7 == 0 && sh2 < 64) by (bit_vector)
                    requires
                        sh2 == 8 * m,
                        m < 8,
                ;
                assert(sh2 != sh);
                lemma_store_byte(w, v, sh, sh2);
            }
        }
    }
}

/// Copies `len` bytes from `src[from..]` to memory at `dst`.
#[verifier::rlimit(40)]
pub fn copy_bytes(mem: &mut PhysMemory, dst: u64, src: &[u8], from: usize, len: usize)
    requires
        old(mem).wf(),
        old(mem).base <= dst,
        dst + len <= old(mem).end(),
        from + len <= src@.len(),
    ensures
        final(mem).wf(),
        final(mem).same_config(old(mem)),
        final(mem).last_index == old(mem).last_index,
        forall|k: int| 0 <= k < len ==> byte_at(final(mem), dst + k) == #[trigger] src@[from + k],
        forall|b: int|
            #![trigger byte_at(final(mem), b)]
            old(mem).base <= b < old(mem).end() && !(dst <= b < dst + len) ==> byte_at(
                final(mem),
                b,
            ) == byte_at(old(mem), b),
        forall|i: int|
            #![trigger final(mem).words@[i]]
            0 <= i < old(mem).words@.len() && !((dst - old(mem).base) / 8 <= i < (dst + len
                - old(mem).base + 7) / 8) ==> final(mem).words@[i] == old(mem).words@[i],
{
    let sl = src.len();
    let mut k: usize = 0;
    while k < len
        invariant
            sl == src@.len(),
            mem.wf(),
            mem.same_config(old(mem)),
            mem.last_index == old(mem).last_index,
            old(mem).base <= dst,
            dst + len <= old(mem).end(),
            from + len <= src@.len(),
            0 <= k <= len,
            forall|kk: int| 0 <= kk < k ==> byte_at(mem, dst + kk) == #[trigger] src@[from + kk],
            forall|b: int|
                #![trigger byte_at(mem, b)]
                old(mem).base <= b < old(mem).end() && !(dst <= b < dst + k) ==> byte_at(mem, b)
                    == byte_at(old(mem), b),
            forall|i: int|
                #![trigger mem.words@[i]]
                0 <= i < old(mem).words@.len() && !((dst - old(mem).base) / 8 <= i < (dst + k
                    - old(mem).base + 7) / 8) ==> mem.words@[i] == old(mem).words@[i],
        decreases len - k,
    {
        let ghost before = mem.words@;
        write_byte(mem, dst + k as u64, src[from + k]);
        proof {
            let lo = (dst - mem.base) / 8;
            let w = (dst + k - mem.base) / 8;
            assert(lo <= w < (dst + k + 1 - mem.base + 7) / 8);
            assert((dst + k - mem.base + 7) / 8 <= (dst + k + 1 - mem.base + 7) / 8);
        }
        k = k + 1;
    }
}

/// Sets the allocator's cursor to the first page boundary after `elf_end`, the
/// end of the hypervisor's own image.
pub fn init(mem: &mut PhysMemory, elf_end: u64)
    requires
        old(mem).wf(),
        elf_end < u64::MAX - 4096,
    ensures
        final(mem).wf(),
        final(mem).alloc_base == (elf_end & !0xfffu64) + 4096,
        final(mem).last_index == 0,
        final(mem).initialized,
        final(mem).base == old(mem).base,
        final(mem).words == old(mem).words,
        final(mem).alloc_end == old(mem).alloc_end,
{
    let head = elf_end & !(0xfffu64);
    assert(head <= elf_end && head % 4096 == 0) by (bit_vector)
        requires
            head == elf_end & !0xfffu64,
    ;
    mem.alloc_base = head + 4096;
    mem.last_index = 0;
    mem.initialized = true;
}

/// Moves the allocator's cursor to the frame at `addr`: the next frame
/// handed out is the one at `addr`.
pub fn set_alloc_base(mem: &mut PhysMemory, addr: u64)
    requires
        old(mem).wf(),
        addr % 4096 == 0,
    ensures
        final(mem).wf(),
        final(mem).alloc_base == addr,
        final(mem).last_index == 0,
        final(mem).next_free() == addr,
        final(mem).initialized == old(mem).initialized,
        final(mem).base == old(mem).base,
        final(mem).words == old(mem).words,
        final(mem).alloc_end == old(mem).alloc_end,
{
    mem.alloc_base = addr;
    mem.last_index = 0;
}

/// `m1` is `m0` after handing out the frame at `a`: the frame at the cursor,
/// now zeroed, with the cursor one frame further and every other word kept.
pub open spec fn alloc_step(m0: &PhysMemory, m1: &PhysMemory, a: int) -> bool {
    &&& a == m0.next_free()
    &&& m1.wf()
    &&& m1.same_config(m0)
    &&& m1.last_index == m0.last_index + 1
    &&& m0.holds_page(a)
    &&& m1.zeroed(a, 1)
    &&& m1.same_outside(m0, a, 1)
}

/// Along a run of allocations the window stays put and the `j`-th frame
/// lies `j` frames after the first.
proof fn lemma_alloc_run_addr(ms: Seq<PhysMemory>, addrs: Seq<int>, j: int)
    requires
        ms.len() == addrs.len() + 1,
        forall|i: int| 0 <= i < addrs.len() ==> #[trigger] alloc_step(&ms[i], &ms[i + 1], addrs[i]),
        0 <= j < addrs.len(),
    ensures
        addrs[j] == addrs[0] + 4096 * j,
        ms[j].same_config(&ms[0]),
        ms[j + 1].same_config(&ms[0]),
    decreases j,
{
    assert(alloc_step(&ms[j], &ms[j + 1], addrs[j]));
    if j > 0 {
        lemma_alloc_run_addr(ms, addrs, j - 1);
        assert(alloc_step(&ms[j - 1], &ms[j], addrs[j - 1]));
    }
}

/// The `j`-th frame of a run stays zeroed through the later allocations.
proof fn lemma_alloc_run_zero(ms: Seq<PhysMemory>, addrs: Seq<int>, j: int, k: int)
    requires
        ms.len() == addrs.len() + 1,
        forall|i: int| 0 <= i < addrs.len() ==> #[trigger] alloc_step(&ms[i], &ms[i + 1], addrs[i]),
        0 <= j < k <= addrs.len(),
    ensures
        ms[k].zeroed(addrs[j], 1),
    decreases k,
{
    if k == j + 1 {
        assert(alloc_step(&ms[j], &ms[j + 1], addrs[j]));
    } else {
        lemma_alloc_run_zero(ms, addrs, j, k - 1);
        lemma_alloc_run_addr(ms, addrs, j);
        lemma_alloc_run_addr(ms, addrs, k - 1);
        let prev = ms[k - 1];
        let cur = ms[k];
        assert(alloc_step(&ms[k - 1], &ms[k], addrs[k - 1]));
        assert(addrs[j] + 4096 <= addrs[k - 1]) by (nonlinear_arith)
            requires
                addrs[j] == addrs[0] + 4096 * j,
                addrs[k - 1] == addrs[0] + 4096 * (k - 1),
                j < k - 1,
        ;
        assert(prev.index_of(addrs[j]) + 512 <= prev.index_of(addrs[k - 1])) by (nonlinear_arith)
            requires
                addrs[j] + 4096 <= addrs[k - 1],
                prev.index_of(addrs[j]) == (addrs[j] - prev.base) / 8,
                prev.index_of(addrs[k - 1]) == (addrs[k - 1] - prev.base) / 8,
        ;
        assert(alloc_step(&ms[j], &ms[j + 1], addrs[j]));
        assert forall|i: int|
            cur.index_of(addrs[j]) <= i < cur.index_of(addrs[j]) + 512 implies #[trigger] cur.words@[i]
            == 0 by {
            assert(prev.words@[i] == 0);
            assert(ms[j].holds_page(addrs[j]));
            assert(0 <= i < prev.words@.len());
        }
    }
}

/// Allocating `n` times in a row hands out `n` distinct, page-aligned frames
/// in increasing order, each 4096 bytes after the one before, and all of
/// them read as zeros afterwards.
pub proof fn lemma_alloc_run(ms: Seq<PhysMemory>, addrs: Seq<int>)
    requires
        ms.len() == addrs.len() + 1,
        forall|i: int| 0 <= i < addrs.len() ==> #[trigger] alloc_step(&ms[i], &ms[i + 1], addrs[i]),
    ensures
        forall|j: int|
            0 <= j < addrs.len() ==> #[trigger] addrs[j] == addrs[0] + 4096 * j && addrs[j] % 4096
                == 0,
        forall|j: int, k: int| 0 <= j < k < addrs.len() ==> addrs[j] < addrs[k],
        forall|j: int| 0 <= j < addrs.len() ==> #[trigger] ms[addrs.len() as int].zeroed(addrs[j], 1),
{
    assert forall|j: int| 0 <= j < addrs.len() implies #[trigger] addrs[j] == addrs[0] + 4096 * j
        && addrs[j] % 4096 == 0 by {
        lemma_alloc_run_addr(ms, addrs, j);
        assert(alloc_step(&ms[j], &ms[j + 1], addrs[j]));
    }
    assert forall|j: int, k: int| 0 <= j < k < addrs.len() implies addrs[j] < addrs[k] by {
        lemma_alloc_run_addr(ms, addrs, j);
        lemma_alloc_run_addr(ms, addrs, k);
    }
    assert forall|j: int| 0 <= j < addrs.len() implies #[trigger] ms[addrs.len() as int].zeroed(
        addrs[j],
        1,
    ) by {
        lemma_alloc_run_zero(ms, addrs, j, addrs.len() as int);
    }
}

/// Hands out the next frame, zeroed. Running out of frames, or allocating
/// before `init`, is fatal: callers test `can_hand_out` first. Frames come
/// in increasing order, each
/// 4096 bytes after the one before.
#[verifier::rlimit(40)]
pub fn alloc_page(mem: &mut PhysMemory) -> (r: Page)
    requires
        old(mem).wf(),
        old(mem).can_alloc(1),
    ensures
        final(mem).wf(),
        final(mem).same_config(old(mem)),
        alloc_step(old(mem), final(mem), r.addr.addr as int),
{
    let addr = mem.alloc_base + 4096 * mem.last_index;
    let p = Page::from_address(PhysicalAddress::new(addr));
    p.clear(mem);
    mem.last_index = mem.last_index + 1;
    p
}

/// The allocator can hand out `n` more frames (`n` at least one).
pub fn can_hand_out(mem: &PhysMemory, n: u64) -> (r: bool)
    requires
        mem.wf(),
        n > 0,
    ensures
        r == mem.can_alloc(n as int),
{
    if !mem.initialized || mem.last_index > (u64::MAX - mem.alloc_base) / 4096 {
        return false;
    }
    let next = mem.alloc_base + 4096 * mem.last_index;
    let end = mem.base + 8 * (mem.words.len() as u64);
    if next < mem.base || n > (u64::MAX / 4096) || next > u64::MAX - 4096 * n {
        return false;
    }
    next + 4096 * (n - 1) <= mem.alloc_end && next + 4096 * n <= end
}

/// The allocator can hand out a 16 KiB-aligned block of four frames.
pub fn can_hand_out_16(mem: &PhysMemory) -> (r: bool)
    requires
        mem.wf(),
    ensures
        r == mem.can_alloc_16(),
{
    if !mem.initialized || mem.last_index > (u64::MAX - mem.alloc_base) / 4096 {
        return false;
    }
    let next = mem.alloc_base + 4096 * mem.last_index;
    let end = mem.base + 8 * (mem.words.len() as u64);
    if next < mem.base || next > u64::MAX - 8 * 16384 {
        return false;
    }
    let a = if next % 16384 == 0 {
        next
    } else {
        next + 16384 - next % 16384
    };
    a + 3 * 4096 <= mem.alloc_end && a + 4 * 4096 <= end
}

/// Hands out the frame at the next 16 KiB boundary and the three frames after
/// it, so that the four make one 16 KiB-aligned block; frames before the
/// boundary are skipped (and still consumed). The block must be available
/// (`can_hand_out_16`).
#[verifier::rlimit(40)]
pub fn alloc_16(mem: &mut PhysMemory) -> (r: Page)
    requires
        old(mem).wf(),
        old(mem).can_alloc_16(),
    ensures
        final(mem).wf(),
        final(mem).same_config(old(mem)),
        r.addr.addr == round_up_16k(old(mem).next_free()),
        r.addr.addr % 16384 == 0,
        final(mem).next_free() == r.addr.addr + 4 * 4096,
        final(mem).zeroed(r.addr.addr as int, 4),
{
    let ghost start = mem.next_free();
    let mut root_page = alloc_page(mem);
    while root_page.addr.addr % 16384 != 0
        invariant
            mem.wf(),
            mem.same_config(old(mem)),
            old(mem).wf(),
            old(mem).can_alloc_16(),
            start == old(mem).next_free(),
            start % 4096 == 0,
            start <= root_page.addr.addr <= round_up_16k(start),
            root_page.addr.addr % 4096 == 0,
            mem.next_free() == root_page.addr.addr + 4096,
            mem.zeroed(root_page.addr.addr as int, 1),
        decreases round_up_16k(start) - root_page.addr.addr,
    {
        root_page = alloc_page(mem);
    }
    let ghost a = root_page.addr.addr as int;
    assert(a == round_up_16k(start));
    let mut k: u64 = 1;
    while k < 4
        invariant
            mem.wf(),
            mem.same_config(old(mem)),
            old(mem).can_alloc_16(),
            start == old(mem).next_free(),
            a == round_up_16k(start),
            a % 16384 == 0,
            a == root_page.addr.addr,
            1 <= k <= 4,
            mem.next_free() == a + 4096 * k,
            mem.zeroed(a, k as int),
        decreases 4 - k,
    {
        alloc_page(mem);
        k = k + 1;
    }
    root_page
}

/// Hands out `num` consecutive zeroed frames and returns the first; they
/// must be available (`can_hand_out(num)`).
#[verifier::rlimit(40)]
pub fn alloc_continuous(mem: &mut PhysMemory, num: u64) -> (r: Page)
    requires
        old(mem).wf(),
        num > 0,
        old(mem).can_alloc(num as int),
    ensures
        final(mem).wf(),
        final(mem).same_config(old(mem)),
        r.addr.addr == old(mem).next_free(),
        final(mem).next_free() == old(mem).next_free() + 4096 * num,
        final(mem).zeroed(r.addr.addr as int, num as int),
        final(mem).same_outside(old(mem), r.addr.addr as int, num as int),
{
    let first = alloc_page(mem);
    let mut k: u64 = 1;
    while k < num
        invariant
            mem.wf(),
            mem.same_config(old(mem)),
            old(mem).wf(),
            old(mem).can_alloc(num as int),
            first.addr.addr == old(mem).next_free(),
            1 <= k <= num,
            mem.next_free() == first.addr.addr + 4096 * k,
            mem.zeroed(first.addr.addr as int, k as int),
            mem.same_outside(old(mem), first.addr.addr as int, k as int),
        decreases num - k,
    {
        alloc_page(mem);
        k = k + 1;
    }
    first
}

/// Entry `i` of the table in frame `table`.
pub open spec fn table_entry(mem: &PhysMemory, table: int, i: int) -> u64 {
    mem.words@[mem.index_of(table) + i]
}

/// The frame that entry `vpn_of(va, level)` of `table` points at, if the
/// table lies in memory and the entry is valid.
pub open spec fn descend(mem: &PhysMemory, table: int, va: u64, level: int) -> Option<int> {
    if mem.holds_page(table) && pte_valid(table_entry(mem, table, vpn_of(va, level) as int)) {
        Some(pte_target(table_entry(mem, table, vpn_of(va, level) as int)) as int)
    } else {
        None
    }
}

/// The walk from a table of level 0: the mapped frame with the offset of `va`.
pub open spec fn walk0(mem: &PhysMemory, table: int, va: u64) -> Option<u64> {
    match descend(mem, table, va, 0) {
        Some(frame) => Some((frame as u64) | (va & 0xfff)),
        None => None,
    }
}

pub open spec fn walk1(mem: &PhysMemory, table: int, va: u64) -> Option<u64> {
    match descend(mem, table, va, 1) {
        Some(next) => walk0(mem, next, va),
        None => None,
    }
}

pub open spec fn walk2(mem: &PhysMemory, table: int, va: u64) -> Option<u64> {
    match descend(mem, table, va, 2) {
        Some(next) => walk1(mem, next, va),
        None => None,
    }
}

/// The physical address that `va` translates to from a table of `level`.
pub open spec fn walk_from(mem: &PhysMemory, table: int, va: u64, level: int) -> Option<u64> {
    if level == 0 {
        walk0(mem, table, va)
    } else if level == 1 {
        walk1(mem, table, va)
    } else {
        walk2(mem, table, va)
    }
}

/// `a` and `b` lie in the same page: all three table indices agree.
pub open spec fn same_page(a: u64, b: u64) -> bool {
    vpn_of(a, 0) == vpn_of(b, 0) && vpn_of(a, 1) == vpn_of(b, 1) && vpn_of(a, 2) == vpn_of(b, 2)
}

/// Two distinct page addresses less than 2^39 bytes apart select different
/// table entries somewhere on their walks.
pub proof fn lemma_distinct_pages(a: u64, b: u64)
    requires
        a % 4096 == 0,
        b % 4096 == 0,
        a < b,
        b - a < 0x80_0000_0000,
    ensures
        !same_page(a, b),
{
    assert(a & 0xfff == 0 && b & 0xfff == 0) by (bit_vector)
        requires
            a % 4096 == 0,
            b % 4096 == 0,
    ;
    assert(!((a >> 12u64) & 0x1ff == (b >> 12u64) & 0x1ff && (a >> 21u64) & 0x1ff == (b >> 21u64)
        & 0x1ff && (a >> 30u64) & 0x1ff == (b >> 30u64) & 0x1ff)) by (bit_vector)
        requires
            a & 0xfff == 0,
            b & 0xfff == 0,
            a < b,
            b - a < 0x80_0000_0000,
    ;
}

/// Table indices are below 512.
pub proof fn lemma_vpn_bound(a: u64)
    ensures
        vpn_of(a, 0) < 512,
        vpn_of(a, 1) < 512,
        vpn_of(a, 2) < 512,
{
    assert((a >> 12u64) & 0x1ff < 512 && (a >> 21u64) & 0x1ff < 512 && (a >> 30u64) & 0x1ff < 512)
        by (bit_vector);
}

/// Frames of distinct pages occupy disjoint runs of words.
pub proof fn lemma_pages_disjoint(mem: &PhysMemory, t: int, u: int)
    requires
        mem.wf(),
        mem.holds_page(t),
        mem.holds_page(u),
        t != u,
    ensures
        mem.index_of(t) + 512 <= mem.index_of(u) || mem.index_of(u) + 512 <= mem.index_of(t),
        mem.index_of(t) + 512 <= mem.words@.len(),
        mem.index_of(t) >= 0,
        t + 4096 <= u || u + 4096 <= t,
{
    assert((t - mem.base) % 4096 == 0 && (u - mem.base) % 4096 == 0);
    assert(mem.index_of(t) + 512 <= mem.index_of(u) || mem.index_of(u) + 512 <= mem.index_of(t))
        by (nonlinear_arith)
        requires
            (t - mem.base) % 4096 == 0,
            (u - mem.base) % 4096 == 0,
            t != u,
            t >= mem.base,
            u >= mem.base,
            mem.index_of(t) == (t - mem.base) / 8,
            mem.index_of(u) == (u - mem.base) / 8,
    ;
}

/// The entry at index `i` of the table at `table`.
fn get_entry(mem: &PhysMemory, table: u64, i: u64) -> (r: PageTableEntry)
    requires
        mem.wf(),
        mem.holds_page(table as int),
        i < 512,
    ensures
        r.ppn@ == seq![
            (table_entry(mem, table as int, i as int) >> 10u64) & 0x1ff,
            (table_entry(mem, table as int, i as int) >> 19u64) & 0x1ff,
            (table_entry(mem, table as int, i as int) >> 28u64) & 0x3ff_ffff,
        ],
        r.flags == (table_entry(mem, table as int, i as int) & 0x1ff) as u16,
{
    assert(mem.index_of(table + 8 * i) == mem.index_of(table as int) + i);
    PageTableEntry::from_memory(mem, PhysicalAddress::new(table + 8 * i))
}

/// Stores `entry` at index `i` of the table at `table`.
fn set_entry(mem: &mut PhysMemory, table: u64, i: u64, entry: PageTableEntry)
    requires
        old(mem).wf(),
        old(mem).holds_page(table as int),
        i < 512,
    ensures
        final(mem).wf(),
        final(mem).same_config(old(mem)),
        final(mem).last_index == old(mem).last_index,
        final(mem).words@ == old(mem).words@.update(
            old(mem).index_of(table as int) + i,
            pte_word(entry.ppn@[0], entry.ppn@[1], entry.ppn@[2], entry.flags),
        ),
{
    assert(mem.index_of(table + 8 * i) == mem.index_of(table as int) + i);
    mem.write_word(table + 8 * i, entry.to_usize());
}

/// The bits every leaf entry carries besides the caller's permissions:
/// valid, accessed and dirty.
pub const LEAF_FLAGS: u64 = 0xc1;

/// The valid level-0 entry that the walk for `va` from `root` reaches.
pub open spec fn leaf_entry(mem: &PhysMemory, root: int, va: u64) -> Option<u64> {
    match descend(mem, root, va, 2) {
        Some(t1) => match descend(mem, t1, va, 1) {
            Some(t0) => if mem.holds_page(t0) && pte_valid(table_entry(mem, t0, vpn_of(va, 0) as int)) {
                Some(table_entry(mem, t0, vpn_of(va, 0) as int))
            } else {
                None
            },
            None => None,
        },
        None => None,
    }
}

/// How many tables a walk for `va` from `root` lacks: two when the root's
/// entry is invalid, one when the level-1 table's entry is, else none.
pub open spec fn tables_missing(mem: &PhysMemory, root: int, va: u64) -> int {
    let e2 = table_entry(mem, root, vpn_of(va, 2) as int);
    if !pte_valid(e2) {
        2
    } else if !pte_valid(table_entry(mem, pte_target(e2) as int, vpn_of(va, 1) as int)) {
        1
    } else {
        0
    }
}

/// A three-level page table rooted at `page`. `mid` and `leaf` name the
/// frames of the tables of level 1 and level 0 that hang below the root.
pub struct PageTable {
    pub page: Page,
    pub mid: Ghost<Set<int>>,
    pub leaf: Ghost<Set<int>>,
}

impl PageTable {
    /// The table tree is sound in `mem`: every table is an allocated frame,
    /// the three levels use distinct frames, and each valid entry of a
    /// non-leaf table points at a table of the level below.
    pub open spec fn wf(&self, mem: &PhysMemory) -> bool {
        let root = self.page.addr.addr as int;
        &&& mem.holds_page(root)
        &&& root + 4096 <= mem.next_free()
        &&& forall|t: int|
            #[trigger] self.mid@.contains(t) ==> mem.holds_page(t) && t + 4096 <= mem.next_free()
                && t != root
        &&& forall|t: int|
            #[trigger] self.leaf@.contains(t) ==> mem.holds_page(t) && t + 4096 <= mem.next_free()
                && t != root && !self.mid@.contains(t)
        &&& forall|i: int|
            0 <= i < 512 && pte_valid(#[trigger] table_entry(mem, root, i)) ==> self.mid@.contains(
                pte_target(table_entry(mem, root, i)) as int,
            )
        &&& forall|t: int, i: int|
            #![trigger self.mid@.contains(t), table_entry(mem, t, i)]
            self.mid@.contains(t) && 0 <= i < 512 && pte_valid(table_entry(mem, t, i))
                ==> self.leaf@.contains(pte_target(table_entry(mem, t, i)) as int)
        &&& forall|i: int, j: int|
            #![trigger table_entry(mem, root, i), table_entry(mem, root, j)]
            0 <= i < 512 && 0 <= j < 512 && pte_valid(table_entry(mem, root, i)) && pte_valid(
                table_entry(mem, root, j),
            ) && pte_target(table_entry(mem, root, i)) == pte_target(table_entry(mem, root, j))
                ==> i == j
        &&& forall|t: int, i: int, u: int, j: int|
            #![trigger table_entry(mem, t, i), table_entry(mem, u, j)]
            self.mid@.contains(t) && self.mid@.contains(u) && 0 <= i < 512 && 0 <= j < 512
                && pte_valid(table_entry(mem, t, i)) && pte_valid(table_entry(mem, u, j))
                && pte_target(table_entry(mem, t, i)) == pte_target(table_entry(mem, u, j)) ==> t
                == u && i == j
        &&& forall|i: int|
            0 <= i < 512 && pte_valid(#[trigger] table_entry(mem, root, i)) ==> pte_pointer(
                table_entry(mem, root, i),
            )
        &&& forall|t: int, i: int|
            #![trigger self.mid@.contains(t), table_entry(mem, t, i)]
            self.mid@.contains(t) && 0 <= i < 512 && pte_valid(table_entry(mem, t, i))
                ==> pte_pointer(table_entry(mem, t, i))
        &&& forall|t: int, i: int|
            #![trigger self.leaf@.contains(t), table_entry(mem, t, i)]
            self.leaf@.contains(t) && 0 <= i < 512 && pte_valid(table_entry(mem, t, i))
                ==> !pte_pointer(table_entry(mem, t, i))
    }

    /// The address `va` translates to through this table.
    pub open spec fn translate(&self, mem: &PhysMemory, va: u64) -> Option<u64> {
        walk_from(mem, self.page.addr.addr as int, va, 2)
    }

    pub fn from_page(page: Page) -> (r: PageTable)
        ensures
            r.page == page,
            r.mid@ == Set::<int>::empty(),
            r.leaf@ == Set::<int>::empty(),
    {
        PageTable { page: page, mid: Ghost(Set::empty()), leaf: Ghost(Set::empty()) }
    }

    /// A zeroed, allocated frame is a sound empty table.
    pub proof fn lemma_fresh(&self, mem: &PhysMemory)
        requires
            mem.wf(),
            mem.holds_page(self.page.addr.addr as int),
            self.page.addr.addr + 4096 <= mem.next_free(),
            mem.zeroed(self.page.addr.addr as int, 1),
            self.mid@ == Set::<int>::empty(),
            self.leaf@ == Set::<int>::empty(),
        ensures
            self.wf(mem),
            forall|va: u64| #[trigger] self.translate(mem, va) is None,
    {
        let root = self.page.addr.addr as int;
        assert(!pte_valid(0u64)) by (bit_vector);
        assert forall|i: int| 0 <= i < 512 implies !pte_valid(#[trigger] table_entry(mem, root, i)) by {
            assert(mem.words@[mem.index_of(root) + i] == 0);
        }
        assert forall|va: u64| #[trigger] self.translate(mem, va) is None by {
            lemma_vpn_bound(va);
            assert(!pte_valid(table_entry(mem, root, vpn_of(va, 2) as int)));
        }
    }

    /// `t` is the root or one of the tables below it.
    pub open spec fn is_table_frame(&self, t: int) -> bool {
        t == self.page.addr.addr as int || self.mid@.contains(t) || self.leaf@.contains(t)
    }

    /// Every frame of `m0` that is no table of this tree reads the same in `m1`.
    pub open spec fn frames_kept(&self, m0: &PhysMemory, m1: &PhysMemory) -> bool {
        forall|t: int, j: int|
            m0.holds_page(t) && !self.is_table_frame(t) && 0 <= j < 512
                ==> #[trigger] m1.words@[m0.index_of(t) + j] == m0.words@[m0.index_of(t) + j]
    }

    /// Handing out the frame `p` and then writing one word of the table
    /// `table`, both tables of this tree, keeps every other frame.
    pub proof fn lemma_kept_write(
        &self,
        m0: &PhysMemory,
        m1: &PhysMemory,
        m2: &PhysMemory,
        p: int,
        table: int,
        idx: int,
        v: u64,
    )
        requires
            m0.wf(),
            m1.same_config(m0),
            m1.same_outside(m0, p, 1),
            m0.holds_page(p),
            self.is_table_frame(p),
            m0.holds_page(table),
            self.is_table_frame(table),
            0 <= idx < 512,
            m2.words@ == m1.words@.update(m0.index_of(table) + idx, v),
        ensures
            self.frames_kept(m0, m2),
    {
        assert forall|t: int, j: int|
            m0.holds_page(t) && !self.is_table_frame(t) && 0 <= j < 512 implies #[trigger] m2.words@[m0.index_of(t) + j]
            == m0.words@[m0.index_of(t) + j] by {
            lemma_pages_disjoint(m0, t, p);
            lemma_pages_disjoint(m0, t, table);
        }
    }

    /// Keeping frames composes while the tree only grows.
    pub proof fn lemma_kept_trans(
        &self,
        later: &PageTable,
        m0: &PhysMemory,
        m1: &PhysMemory,
        m2: &PhysMemory,
    )
        requires
            self.frames_kept(m0, m1),
            later.frames_kept(m1, m2),
            m1.same_config(m0),
            forall|t: int| #[trigger] self.is_table_frame(t) ==> later.is_table_frame(t),
        ensures
            later.frames_kept(m0, m2),
    {
        assert forall|t: int, j: int|
            m0.holds_page(t) && !later.is_table_frame(t) && 0 <= j < 512 implies #[trigger] m2.words@[m0.index_of(t) + j]
            == m0.words@[m0.index_of(t) + j] by {
            assert(!self.is_table_frame(t));
            assert(m1.index_of(t) == m0.index_of(t));
            assert(m2.words@[m1.index_of(t) + j] == m1.words@[m1.index_of(t) + j]);
            assert(m1.words@[m0.index_of(t) + j] == m0.words@[m0.index_of(t) + j]);
        }
    }

    /// Every table of the tree reads the same in `m2` as in `m`.
    pub open spec fn tables_agree(&self, m: &PhysMemory, m2: &PhysMemory) -> bool {
        forall|t: int, i: int|
            (t == self.page.addr.addr as int || self.mid@.contains(t) || self.leaf@.contains(t)) && 0
                <= i < 512 ==> #[trigger] table_entry(m2, t, i) == table_entry(m, t, i)
    }

    pub proof fn lemma_agree_wf(&self, m: &PhysMemory, m2: &PhysMemory)
        requires
            self.wf(m),
            m2.same_config(m),
            m2.next_free() >= m.next_free(),
            self.tables_agree(m, m2),
        ensures
            self.wf(m2),
    {
        let root = self.page.addr.addr as int;
        assert forall|i: int|
            0 <= i < 512 && pte_valid(#[trigger] table_entry(m2, root, i)) implies self.mid@.contains(
            pte_target(table_entry(m2, root, i)) as int) by {
            assert(table_entry(m2, root, i) == table_entry(m, root, i));
        }
        assert forall|t: int, i: int|
            self.mid@.contains(t) && 0 <= i < 512 && pte_valid(
                #[trigger] table_entry(m2, t, i),
            ) implies self.leaf@.contains(pte_target(table_entry(m2, t, i)) as int) by {
            assert(table_entry(m2, t, i) == table_entry(m, t, i));
        }
    }

    /// Where all tables read the same, so do all translations.
    pub proof fn lemma_agree_translate(&self, m: &PhysMemory, m2: &PhysMemory)
        requires
            self.wf(m),
            m2.same_config(m),
            self.tables_agree(m, m2),
        ensures
            forall|va: u64| #[trigger] self.translate(m2, va) == self.translate(m, va),
            forall|va: u64|
                #[trigger] leaf_entry(m2, self.page.addr.addr as int, va) == leaf_entry(
                    m,
                    self.page.addr.addr as int,
                    va,
                ),
    {
        let rt = self.page.addr.addr as int;
        assert forall|va: u64| #[trigger] self.translate(m2, va) == self.translate(m, va) by {
            lemma_vpn_bound(va);
            let v2 = vpn_of(va, 2) as int;
            let v1 = vpn_of(va, 1) as int;
            let v0 = vpn_of(va, 0) as int;
            assert(table_entry(m2, rt, v2) == table_entry(m, rt, v2));
            if pte_valid(table_entry(m, rt, v2)) {
                let t = pte_target(table_entry(m, rt, v2)) as int;
                assert(table_entry(m2, t, v1) == table_entry(m, t, v1));
                if pte_valid(table_entry(m, t, v1)) {
                    let t0 = pte_target(table_entry(m, t, v1)) as int;
                    assert(table_entry(m2, t0, v0) == table_entry(m, t0, v0));
                }
            }
        }
        assert forall|va: u64| #[trigger] leaf_entry(m2, self.page.addr.addr as int, va) == leaf_entry(m, self.page.addr.addr as int, va) by {
            lemma_vpn_bound(va);
            let v2 = vpn_of(va, 2) as int;
            let v1 = vpn_of(va, 1) as int;
            let v0 = vpn_of(va, 0) as int;
            assert(table_entry(m2, rt, v2) == table_entry(m, rt, v2));
            if pte_valid(table_entry(m, rt, v2)) {
                let t = pte_target(table_entry(m, rt, v2)) as int;
                assert(table_entry(m2, t, v1) == table_entry(m, t, v1));
                if pte_valid(table_entry(m, t, v1)) {
                    let t0 = pte_target(table_entry(m, t, v1)) as int;
                    assert(table_entry(m2, t0, v0) == table_entry(m, t0, v0));
                }
            }
        }
    }

    /// A fresh frame handed out after every table leaves all tables as they were.
    pub proof fn lemma_alloc_agree(&self, m: &PhysMemory, m1: &PhysMemory, p: int)
        requires
            m.wf(),
            self.wf(m),
            m1.same_config(m),
            p == m.next_free(),
            m.holds_page(p),
            m1.same_outside(m, p, 1),
        ensures
            self.tables_agree(m, m1),
    {
        assert forall|t: int, i: int|
            (t == self.page.addr.addr as int || self.mid@.contains(t) || self.leaf@.contains(t)) && 0
                <= i < 512 implies #[trigger] table_entry(m1, t, i) == table_entry(m, t, i) by {
            lemma_pages_disjoint(m, t, p);
        }
    }

    /// The level-1 table that `vaddr` goes through, made if missing.
    #[verifier::rlimit(60)]
    fn mid_table(&mut self, mem: &mut PhysMemory, vaddr: &VirtualAddress) -> (r: u64)
        requires
            old(mem).wf(),
            old(self).wf(old(mem)),
            !pte_valid(table_entry(old(mem), old(self).page.addr.addr as int, vpn_of(vaddr.addr, 2) as int)) ==> old(mem).can_alloc(1),
        ensures
            final(mem).wf(),
            final(mem).same_config(old(mem)),
            final(mem).next_free() >= old(mem).next_free(),
            final(self).page == old(self).page,
            final(self).wf(final(mem)),
            old(mem).can_alloc(2) ==> final(mem).can_alloc(1),
            final(self).leaf == old(self).leaf,
            final(self).frames_kept(old(mem), final(mem)),
            forall|t: int| #[trigger] old(self).mid@.contains(t) ==> final(self).mid@.contains(t),
            forall|t: int, j: int|
                #![trigger final(self).mid@.contains(t), table_entry(final(mem), t, j)]
                final(self).mid@.contains(t) && !old(self).mid@.contains(t) && 0 <= j < 512
                    ==> table_entry(final(mem), t, j) == 0,
            pte_valid(table_entry(old(mem), old(self).page.addr.addr as int, vpn_of(vaddr.addr, 2) as int))
                ==> *final(mem) == *old(mem),
            !pte_valid(table_entry(old(mem), old(self).page.addr.addr as int, vpn_of(vaddr.addr, 2) as int))
                ==> final(mem).next_free() == old(mem).next_free() + 4096,
            !pte_valid(table_entry(old(mem), old(self).page.addr.addr as int, vpn_of(vaddr.addr, 2) as int))
                ==> !pte_valid(table_entry(final(mem), r as int, vpn_of(vaddr.addr, 1) as int)),
            forall|t: int|
                #[trigger] final(self).mid@.contains(t) ==> old(self).mid@.contains(t) || t
                    >= old(mem).next_free(),
            forall|va: u64|
                #[trigger] walk2(final(mem), old(self).page.addr.addr as int, va) == walk2(
                    old(mem),
                    old(self).page.addr.addr as int,
                    va,
                ),
            forall|va: u64|
                #[trigger] leaf_entry(final(mem), old(self).page.addr.addr as int, va) == leaf_entry(
                    old(mem),
                    old(self).page.addr.addr as int,
                    va,
                ),
            final(self).mid@.contains(r as int),
            descend(final(mem), final(self).page.addr.addr as int, vaddr.addr, 2) == Some(r as int),
    {
        let root = self.page.addr.addr;
        let vpn = vaddr.to_vpn();
        proof {
            lemma_vpn_bound(vaddr.addr);
        }
        let e2 = get_entry(mem, root, vpn[2]);
        let ghost w = table_entry(mem, root as int, vpn[2] as int);
        assert((((w & 0x1ff) as u16) & 1 != 0) == (w & 1 != 0)) by (bit_vector);
        if e2.is_valid() {
            return e2.next_page().addr.addr;
        }
        let ghost m0 = *mem;
        let p = alloc_page(mem);
        let pa = p.addr.addr;
        let ghost m1 = *mem;
        proof {
            self.lemma_alloc_agree(&m0, &m1, pa as int);
            self.lemma_agree_wf(&m0, &m1);
            lemma_pte_encode(pa, 1);
            assert(1u64 & 1 != 0) by (bit_vector);
        }
        let entry = PageTableEntry::from_value((pa >> 2u64) | 1);
        set_entry(mem, root, vpn[2], entry);
        let ghost old_mid = self.mid@;
        self.mid = Ghost(self.mid@.insert(pa as int));
        proof {
            let m2 = *mem;
            let rt = root as int;
            let k = vpn[2] as int;
            lemma_pages_disjoint(&m1, rt, pa as int);
            assert(m2.words@[m2.index_of(rt) + k] == pte_encode(pa, 1));
            self.lemma_kept_write(&m0, &m1, &m2, pa as int, rt, k, pte_encode(pa, 1));
            assert forall|t: int, j: int|
                #![trigger self.mid@.contains(t), table_entry(&m2, t, j)]
                self.mid@.contains(t) && !old_mid.contains(t) && 0 <= j < 512 implies table_entry(
                &m2,
                t,
                j,
            ) == 0 by {
                assert(table_entry(&m2, t, j) == table_entry(&m1, t, j));
                assert(m1.words@[m1.index_of(t) + j] == 0);
            }
            assert forall|i: int|
                0 <= i < 512 && pte_valid(#[trigger] table_entry(&m2, rt, i)) implies self.mid@.contains(
                pte_target(table_entry(&m2, rt, i)) as int) by {
                if i != k {
                    assert(table_entry(&m2, rt, i) == table_entry(&m1, rt, i));
                }
            }
            assert forall|t: int, i: int|
                self.mid@.contains(t) && 0 <= i < 512 && pte_valid(
                    #[trigger] table_entry(&m2, t, i),
                ) implies self.leaf@.contains(pte_target(table_entry(&m2, t, i)) as int) by {
                lemma_pages_disjoint(&m1, t, rt);
                assert(table_entry(&m2, t, i) == table_entry(&m1, t, i));
                if t == pa as int {
                    assert(m1.words@[m1.index_of(t) + i] == 0);
                    assert(!pte_valid(0u64)) by (bit_vector);
                }
            }
            assert forall|t: int| #[trigger] self.leaf@.contains(t) implies !self.mid@.contains(t) by {
                assert(!old_mid.contains(t));
            }
            assert(!old_mid.contains(pa as int));
            assert(!pte_valid(0u64)) by (bit_vector);
            assert forall|i: int, j: int|
                #![trigger table_entry(&m2, rt, i), table_entry(&m2, rt, j)]
                0 <= i < 512 && 0 <= j < 512 && pte_valid(table_entry(&m2, rt, i)) && pte_valid(
                    table_entry(&m2, rt, j),
                ) && pte_target(table_entry(&m2, rt, i)) == pte_target(table_entry(&m2, rt, j))
                    implies i == j by {
                if i != k {
                    assert(table_entry(&m2, rt, i) == table_entry(&m1, rt, i));
                    assert(old_mid.contains(pte_target(table_entry(&m1, rt, i)) as int));
                }
                if j != k {
                    assert(table_entry(&m2, rt, j) == table_entry(&m1, rt, j));
                    assert(old_mid.contains(pte_target(table_entry(&m1, rt, j)) as int));
                }
            }
            assert forall|t: int, i: int, u: int, j: int|
                #![trigger table_entry(&m2, t, i), table_entry(&m2, u, j)]
                self.mid@.contains(t) && self.mid@.contains(u) && 0 <= i < 512 && 0 <= j < 512
                    && pte_valid(table_entry(&m2, t, i)) && pte_valid(table_entry(&m2, u, j))
                    && pte_target(table_entry(&m2, t, i)) == pte_target(table_entry(&m2, u, j))
                    implies t == u && i == j by {
                lemma_pages_disjoint(&m1, t, rt);
                lemma_pages_disjoint(&m1, u, rt);
                assert(table_entry(&m2, t, i) == table_entry(&m1, t, i));
                assert(table_entry(&m2, u, j) == table_entry(&m1, u, j));
                if t == pa as int {
                    assert(m1.words@[m1.index_of(t) + i] == 0);
                }
                if u == pa as int {
                    assert(m1.words@[m1.index_of(u) + j] == 0);
                }
                if t != pa as int && u != pa as int {
                    assert(old_mid.contains(t) && old_mid.contains(u));
                    assert(pte_valid(table_entry(&m1, t, i)) && pte_valid(table_entry(&m1, u, j)));
                }
            }
            assert(1u64 & 0xe == 0) by (bit_vector);
            assert forall|i: int|
                0 <= i < 512 && pte_valid(#[trigger] table_entry(&m2, rt, i)) implies pte_pointer(
                table_entry(&m2, rt, i),
            ) by {
                if i != k {
                    assert(table_entry(&m2, rt, i) == table_entry(&m1, rt, i));
                }
            }
            assert forall|t: int, i: int|
                #![trigger self.mid@.contains(t), table_entry(&m2, t, i)]
                self.mid@.contains(t) && 0 <= i < 512 && pte_valid(table_entry(&m2, t, i))
                    implies pte_pointer(table_entry(&m2, t, i)) by {
                lemma_pages_disjoint(&m1, t, rt);
                assert(table_entry(&m2, t, i) == table_entry(&m1, t, i));
                if t == pa as int {
                    assert(m1.words@[m1.index_of(t) + i] == 0);
                }
            }
            assert forall|t: int, i: int|
                #![trigger self.leaf@.contains(t), table_entry(&m2, t, i)]
                self.leaf@.contains(t) && 0 <= i < 512 && pte_valid(table_entry(&m2, t, i))
                    implies !pte_pointer(table_entry(&m2, t, i)) by {
                lemma_pages_disjoint(&m1, t, rt);
                assert(table_entry(&m2, t, i) == table_entry(&m1, t, i));
            }
            assert forall|va: u64| #[trigger] walk2(&m2, rt, va) == walk2(&m0, rt, va) by {
                lemma_vpn_bound(va);
                let v2 = vpn_of(va, 2) as int;
                let v1 = vpn_of(va, 1) as int;
                let v0 = vpn_of(va, 0) as int;
                if v2 == k {
                    assert(table_entry(&m0, rt, k) == table_entry(&m1, rt, k));
                    assert(table_entry(&m2, pa as int, v1) == table_entry(&m1, pa as int, v1));
                    assert(m1.words@[m1.index_of(pa as int) + v1] == 0);
                } else {
                    assert(table_entry(&m2, rt, v2) == table_entry(&m1, rt, v2));
                    assert(table_entry(&m1, rt, v2) == table_entry(&m0, rt, v2));
                    if pte_valid(table_entry(&m0, rt, v2)) {
                        let t1 = pte_target(table_entry(&m0, rt, v2)) as int;
                        assert(old_mid.contains(t1));
                        lemma_pages_disjoint(&m1, t1, rt);
                        assert(table_entry(&m2, t1, v1) == table_entry(&m1, t1, v1));
                        assert(table_entry(&m1, t1, v1) == table_entry(&m0, t1, v1));
                        if pte_valid(table_entry(&m0, t1, v1)) {
                            let t0 = pte_target(table_entry(&m0, t1, v1)) as int;
                            assert(self.leaf@.contains(t0));
                            lemma_pages_disjoint(&m1, t0, rt);
                            assert(table_entry(&m2, t0, v0) == table_entry(&m1, t0, v0));
                            assert(table_entry(&m1, t0, v0) == table_entry(&m0, t0, v0));
                        }
                    }
                }
            }
            assert forall|va: u64| #[trigger] leaf_entry(&m2, rt, va) == leaf_entry(&m0, rt, va) by {
                lemma_vpn_bound(va);
                let v2 = vpn_of(va, 2) as int;
                let v1 = vpn_of(va, 1) as int;
                let v0 = vpn_of(va, 0) as int;
                if v2 == k {
                    assert(table_entry(&m0, rt, k) == table_entry(&m1, rt, k));
                    assert(table_entry(&m2, pa as int, v1) == table_entry(&m1, pa as int, v1));
                    assert(m1.words@[m1.index_of(pa as int) + v1] == 0);
                } else {
                    assert(table_entry(&m2, rt, v2) == table_entry(&m1, rt, v2));
                    assert(table_entry(&m1, rt, v2) == table_entry(&m0, rt, v2));
                    if pte_valid(table_entry(&m0, rt, v2)) {
                        let t1 = pte_target(table_entry(&m0, rt, v2)) as int;
                        assert(old_mid.contains(t1));
                        lemma_pages_disjoint(&m1, t1, rt);
                        assert(table_entry(&m2, t1, v1) == table_entry(&m1, t1, v1));
                        assert(table_entry(&m1, t1, v1) == table_entry(&m0, t1, v1));
                        if pte_valid(table_entry(&m0, t1, v1)) {
                            let t0 = pte_target(table_entry(&m0, t1, v1)) as int;
                            assert(self.leaf@.contains(t0));
                            lemma_pages_disjoint(&m1, t0, rt);
                            assert(table_entry(&m2, t0, v0) == table_entry(&m1, t0, v0));
                            assert(table_entry(&m1, t0, v0) == table_entry(&m0, t0, v0));
                        }
                    }
                }
            }
        }
        pa
    }

    /// The level-0 table that `vaddr` goes through below `t1`, made if missing.
    /// Hanging a zeroed level-0 table `pa` below entry `k` of the level-1
    /// table `u` keeps the tree sound and every translation as it was.
    proof fn lemma_leaf_added(
        before: &PageTable,
        after: &PageTable,
        m0: PhysMemory,
        m1: PhysMemory,
        m2: PhysMemory,
        u: int,
        k: int,
        pa: u64,
    )
        requires
            m0.wf(),
            m1.wf(),
            m2.wf(),
            before.wf(&m0),
            before.wf(&m1),
            before.tables_agree(&m0, &m1),
            m1.same_config(&m0),
            m2.same_config(&m1),
            m2.last_index == m1.last_index,
            pa == m0.next_free(),
            m1.holds_page(pa as int),
            m1.next_free() == pa + 4096,
            m1.zeroed(pa as int, 1),
            before.mid@.contains(u),
            0 <= k < 512,
            !pte_valid(table_entry(&m0, u, k)),
            pte_target(pte_encode(pa, 1)) == pa,
            pte_valid(pte_encode(pa, 1)),
            pte_pointer(pte_encode(pa, 1)),
            m2.words@ == m1.words@.update(m1.index_of(u) + k, pte_encode(pa, 1)),
            after.page == before.page,
            after.mid == before.mid,
            after.leaf@ == before.leaf@.insert(pa as int),
        ensures
            after.wf(&m2),
            table_entry(&m2, u, k) == pte_encode(pa, 1),
            forall|i: int|
                0 <= i < 512 ==> #[trigger] table_entry(&m2, before.page.addr.addr as int, i)
                    == table_entry(&m0, before.page.addr.addr as int, i),
            forall|va: u64|
                #[trigger] walk2(&m2, before.page.addr.addr as int, va) == walk2(
                    &m0,
                    before.page.addr.addr as int,
                    va,
                ),
            forall|va: u64|
                #[trigger] leaf_entry(&m2, before.page.addr.addr as int, va) == leaf_entry(
                    &m0,
                    before.page.addr.addr as int,
                    va,
                ),
    {
        let rt = after.page.addr.addr as int;
        lemma_pages_disjoint(&m1, rt, u);
        assert(m2.words@[m2.index_of(u) + k] == pte_encode(pa, 1));
        assert forall|i: int| 0 <= i < 512 implies #[trigger] table_entry(&m2, rt, i)
            == table_entry(&m1, rt, i) by {}
        assert forall|i: int|
            0 <= i < 512 && pte_valid(#[trigger] table_entry(&m2, rt, i)) implies after.mid@.contains(
            pte_target(table_entry(&m2, rt, i)) as int) by {}
        assert forall|t: int, i: int|
            after.mid@.contains(t) && 0 <= i < 512 && pte_valid(
                #[trigger] table_entry(&m2, t, i),
            ) implies after.leaf@.contains(pte_target(table_entry(&m2, t, i)) as int) by {
            if t != u {
                lemma_pages_disjoint(&m1, t, u);
                assert(table_entry(&m2, t, i) == table_entry(&m1, t, i));
            } else if i != k {
                assert(table_entry(&m2, t, i) == table_entry(&m1, t, i));
            }
        }
        assert forall|t: int| #[trigger] after.leaf@.contains(t) implies m2.holds_page(t) && t
            + 4096 <= m2.next_free() && t != rt && !after.mid@.contains(t) by {
            if t != pa as int {
                assert(before.leaf@.contains(t));
            }
        }
        assert(!before.leaf@.contains(pa as int));
        assert forall|i: int, j: int|
            #![trigger table_entry(&m2, rt, i), table_entry(&m2, rt, j)]
            0 <= i < 512 && 0 <= j < 512 && pte_valid(table_entry(&m2, rt, i)) && pte_valid(
                table_entry(&m2, rt, j),
            ) && pte_target(table_entry(&m2, rt, i)) == pte_target(table_entry(&m2, rt, j))
                implies i == j by {
            assert(table_entry(&m2, rt, i) == table_entry(&m1, rt, i));
            assert(table_entry(&m2, rt, j) == table_entry(&m1, rt, j));
        }
        assert forall|t: int, i: int, v: int, j: int|
            #![trigger table_entry(&m2, t, i), table_entry(&m2, v, j)]
            after.mid@.contains(t) && after.mid@.contains(v) && 0 <= i < 512 && 0 <= j < 512
                && pte_valid(table_entry(&m2, t, i)) && pte_valid(table_entry(&m2, v, j))
                && pte_target(table_entry(&m2, t, i)) == pte_target(table_entry(&m2, v, j))
                implies t == v && i == j by {
            if t != u {
                lemma_pages_disjoint(&m1, t, u);
            }
            if v != u {
                lemma_pages_disjoint(&m1, v, u);
            }
            if !(t == u && i == k) {
                assert(table_entry(&m2, t, i) == table_entry(&m1, t, i));
                assert(before.leaf@.contains(pte_target(table_entry(&m1, t, i)) as int));
            }
            if !(v == u && j == k) {
                assert(table_entry(&m2, v, j) == table_entry(&m1, v, j));
                assert(before.leaf@.contains(pte_target(table_entry(&m1, v, j)) as int));
            }
        }
        assert(!pte_valid(0u64)) by (bit_vector);
        assert forall|va: u64| #[trigger] walk2(&m2, rt, va) == walk2(&m0, rt, va) by {
            lemma_vpn_bound(va);
            let v2 = vpn_of(va, 2) as int;
            let v1 = vpn_of(va, 1) as int;
            let v0 = vpn_of(va, 0) as int;
            assert(table_entry(&m2, rt, v2) == table_entry(&m1, rt, v2));
            assert(table_entry(&m1, rt, v2) == table_entry(&m0, rt, v2));
            if pte_valid(table_entry(&m0, rt, v2)) {
                let t = pte_target(table_entry(&m0, rt, v2)) as int;
                assert(after.mid@.contains(t));
                assert(table_entry(&m1, t, v1) == table_entry(&m0, t, v1));
                if t == u && v1 == k {
                    assert(table_entry(&m2, pa as int, v0) == table_entry(&m1, pa as int, v0))
                        by {
                        lemma_pages_disjoint(&m1, pa as int, u);
                    }
                    assert(m1.words@[m1.index_of(pa as int) + v0] == 0);
                } else {
                    if t != u {
                        lemma_pages_disjoint(&m1, t, u);
                    }
                    assert(table_entry(&m2, t, v1) == table_entry(&m1, t, v1));
                    if pte_valid(table_entry(&m0, t, v1)) {
                        let t0 = pte_target(table_entry(&m0, t, v1)) as int;
                        assert(before.leaf@.contains(t0));
                        lemma_pages_disjoint(&m1, t0, u);
                        assert(table_entry(&m2, t0, v0) == table_entry(&m1, t0, v0));
                        assert(table_entry(&m1, t0, v0) == table_entry(&m0, t0, v0));
                    }
                }
            }
        }
        assert forall|va: u64| #[trigger] leaf_entry(&m2, rt, va) == leaf_entry(&m0, rt, va) by {
            lemma_vpn_bound(va);
            let v2 = vpn_of(va, 2) as int;
            let v1 = vpn_of(va, 1) as int;
            let v0 = vpn_of(va, 0) as int;
            assert(table_entry(&m2, rt, v2) == table_entry(&m1, rt, v2));
            assert(table_entry(&m1, rt, v2) == table_entry(&m0, rt, v2));
            if pte_valid(table_entry(&m0, rt, v2)) {
                let t = pte_target(table_entry(&m0, rt, v2)) as int;
                assert(after.mid@.contains(t));
                assert(table_entry(&m1, t, v1) == table_entry(&m0, t, v1));
                if t == u && v1 == k {
                    assert(table_entry(&m2, pa as int, v0) == table_entry(&m1, pa as int, v0))
                        by {
                        lemma_pages_disjoint(&m1, pa as int, u);
                    }
                    assert(m1.words@[m1.index_of(pa as int) + v0] == 0);
                } else {
                    if t != u {
                        lemma_pages_disjoint(&m1, t, u);
                    }
                    assert(table_entry(&m2, t, v1) == table_entry(&m1, t, v1));
                    if pte_valid(table_entry(&m0, t, v1)) {
                        let t0 = pte_target(table_entry(&m0, t, v1)) as int;
                        assert(before.leaf@.contains(t0));
                        lemma_pages_disjoint(&m1, t0, u);
                        assert(table_entry(&m2, t0, v0) == table_entry(&m1, t0, v0));
                        assert(table_entry(&m1, t0, v0) == table_entry(&m0, t0, v0));
                    }
                }
            }
        }
            assert forall|i: int|
            0 <= i < 512 && pte_valid(#[trigger] table_entry(&m2, rt, i)) implies pte_pointer(
            table_entry(&m2, rt, i),
        ) by {
            assert(table_entry(&m2, rt, i) == table_entry(&m1, rt, i));
        }
        assert forall|t: int, i: int|
            #![trigger after.mid@.contains(t), table_entry(&m2, t, i)]
            after.mid@.contains(t) && 0 <= i < 512 && pte_valid(table_entry(&m2, t, i)) implies pte_pointer(
            table_entry(&m2, t, i),
        ) by {
            if t != u {
                lemma_pages_disjoint(&m1, t, u);
            }
            if !(t == u && i == k) {
                assert(table_entry(&m2, t, i) == table_entry(&m1, t, i));
            }
        }
        assert forall|t: int, i: int|
            #![trigger after.leaf@.contains(t), table_entry(&m2, t, i)]
            after.leaf@.contains(t) && 0 <= i < 512 && pte_valid(table_entry(&m2, t, i)) implies !pte_pointer(
            table_entry(&m2, t, i),
        ) by {
            lemma_pages_disjoint(&m1, t, u);
            assert(table_entry(&m2, t, i) == table_entry(&m1, t, i));
            if t == pa as int {
                assert(m1.words@[m1.index_of(t) + i] == 0);
            }
        }
        assert forall|i: int|
            0 <= i < 512 implies #[trigger] table_entry(&m2, rt, i) == table_entry(&m0, rt, i) by {
            assert(table_entry(&m1, rt, i) == table_entry(&m0, rt, i));
        }
    }

    #[verifier::rlimit(60)]
    fn leaf_table(&mut self, mem: &mut PhysMemory, vaddr: &VirtualAddress, t1: u64) -> (r: u64)
        requires
            old(mem).wf(),
            old(self).wf(old(mem)),
            old(self).mid@.contains(t1 as int),
            !pte_valid(table_entry(old(mem), t1 as int, vpn_of(vaddr.addr, 1) as int)) ==> old(mem).can_alloc(1),
        ensures
            final(mem).wf(),
            final(mem).same_config(old(mem)),
            final(mem).next_free() >= old(mem).next_free(),
            final(self).page == old(self).page,
            final(self).mid == old(self).mid,
            final(self).wf(final(mem)),
            forall|i: int|
                0 <= i < 512 ==> #[trigger] table_entry(final(mem), old(self).page.addr.addr as int, i)
                    == table_entry(old(mem), old(self).page.addr.addr as int, i),
            final(self).leaf@.contains(r as int),
            descend(final(mem), t1 as int, vaddr.addr, 1) == Some(r as int),
            forall|t: int|
                #[trigger] final(self).leaf@.contains(t) ==> old(self).leaf@.contains(t) || t
                    >= old(mem).next_free(),
            pte_valid(table_entry(old(mem), t1 as int, vpn_of(vaddr.addr, 1) as int)) ==> *final(mem)
                == *old(mem),
            final(self).frames_kept(old(mem), final(mem)),
            forall|t: int| #[trigger] old(self).leaf@.contains(t) ==> final(self).leaf@.contains(t),
            forall|t: int, j: int|
                #![trigger final(self).leaf@.contains(t), table_entry(final(mem), t, j)]
                final(self).leaf@.contains(t) && !old(self).leaf@.contains(t) && 0 <= j < 512
                    ==> table_entry(final(mem), t, j) == 0,
            forall|t: int, j: int|
                #![trigger old(self).mid@.contains(t), table_entry(final(mem), t, j)]
                old(self).mid@.contains(t) && 0 <= j < 512 && !(t == t1 && j == vpn_of(
                    vaddr.addr,
                    1,
                )) ==> table_entry(final(mem), t, j) == table_entry(old(mem), t, j),
            !pte_valid(table_entry(old(mem), t1 as int, vpn_of(vaddr.addr, 1) as int))
                ==> final(mem).next_free() == old(mem).next_free() + 4096,
            forall|va: u64|
                #[trigger] walk2(final(mem), old(self).page.addr.addr as int, va) == walk2(
                    old(mem),
                    old(self).page.addr.addr as int,
                    va,
                ),
            forall|va: u64|
                #[trigger] leaf_entry(final(mem), old(self).page.addr.addr as int, va) == leaf_entry(
                    old(mem),
                    old(self).page.addr.addr as int,
                    va,
                ),
    {
        let vpn = vaddr.to_vpn();
        proof {
            lemma_vpn_bound(vaddr.addr);
        }
        let e1 = get_entry(mem, t1, vpn[1]);
        let ghost w = table_entry(mem, t1 as int, vpn[1] as int);
        assert((((w & 0x1ff) as u16) & 1 != 0) == (w & 1 != 0)) by (bit_vector);
        if e1.is_valid() {
            return e1.next_page().addr.addr;
        }
        let ghost m0 = *mem;
        let p = alloc_page(mem);
        let pa = p.addr.addr;
        let ghost m1 = *mem;
        proof {
            self.lemma_alloc_agree(&m0, &m1, pa as int);
            self.lemma_agree_wf(&m0, &m1);
            lemma_pte_encode(pa, 1);
            assert(1u64 & 1 != 0) by (bit_vector);
        }
        let entry = PageTableEntry::from_value((pa >> 2u64) | 1);
        set_entry(mem, t1, vpn[1], entry);
        let ghost before = *self;
        self.leaf = Ghost(self.leaf@.insert(pa as int));
        proof {
            let m2 = *mem;
            assert(m2.words@ == m1.words@.update(
                m1.index_of(t1 as int) + vpn[1] as int,
                pte_encode(pa, 1),
            ));
            assert(1u64 & 0xe == 0) by (bit_vector);
            Self::lemma_leaf_added(&before, self, m0, m1, m2, t1 as int, vpn[1] as int, pa);
            self.lemma_kept_write(&m0, &m1, &m2, pa as int, t1 as int, vpn[1] as int, pte_encode(pa, 1));
            assert forall|t: int, j: int|
                #![trigger self.leaf@.contains(t), table_entry(&m2, t, j)]
                self.leaf@.contains(t) && !before.leaf@.contains(t) && 0 <= j < 512 implies table_entry(
                &m2,
                t,
                j,
            ) == 0 by {
                lemma_pages_disjoint(&m1, t, t1 as int);
                assert(table_entry(&m2, t, j) == table_entry(&m1, t, j));
                assert(m1.words@[m1.index_of(t) + j] == 0);
            }
            assert forall|t: int, j: int|
                #![trigger before.mid@.contains(t), table_entry(&m2, t, j)]
                before.mid@.contains(t) && 0 <= j < 512 && !(t == t1 && j == vpn[1] as int)
                    implies table_entry(&m2, t, j) == table_entry(&m0, t, j) by {
                if t != t1 as int {
                    lemma_pages_disjoint(&m1, t, t1 as int);
                }
                assert(table_entry(&m2, t, j) == table_entry(&m1, t, j));
                assert(table_entry(&m1, t, j) == table_entry(&m0, t, j));
            }
        }
        pa
    }

    /// Tables that a mapping adds hold only the entry on its path.
    proof fn lemma_fresh_tables(
        p0: &PageTable,
        p1: &PageTable,
        p2: &PageTable,
        mb: &PhysMemory,
        mc: &PhysMemory,
        md: &PhysMemory,
        t1: int,
        t0: int,
        v1: int,
        v0: int,
        w: u64,
    )
        requires
            mc.wf(),
            p2.wf(mc),
            md.same_config(mc),
            p1.leaf == p0.leaf,
            p2.mid == p1.mid,
            p2.page == p1.page,
            forall|t: int, j: int|
                #![trigger p1.mid@.contains(t), table_entry(mb, t, j)]
                p1.mid@.contains(t) && !p0.mid@.contains(t) && 0 <= j < 512 ==> table_entry(mb, t, j)
                    == 0,
            forall|t: int, j: int|
                #![trigger p2.leaf@.contains(t), table_entry(mc, t, j)]
                p2.leaf@.contains(t) && !p1.leaf@.contains(t) && 0 <= j < 512 ==> table_entry(
                    mc,
                    t,
                    j,
                ) == 0,
            forall|t: int, j: int|
                #![trigger p1.mid@.contains(t), table_entry(mc, t, j)]
                p1.mid@.contains(t) && 0 <= j < 512 && !(t == t1 && j == v1) ==> table_entry(mc, t, j)
                    == table_entry(mb, t, j),
            p2.leaf@.contains(t0),
            0 <= v0 < 512,
            md.words@ == mc.words@.update(mc.index_of(t0) + v0, w),
        ensures
            forall|t: int, j: int|
                #![trigger p2.mid@.contains(t), table_entry(md, t, j)]
                p2.mid@.contains(t) && !p0.mid@.contains(t) && 0 <= j < 512 && j != v1
                    ==> table_entry(md, t, j) == 0,
            forall|t: int, j: int|
                #![trigger p2.leaf@.contains(t), table_entry(md, t, j)]
                p2.leaf@.contains(t) && !p0.leaf@.contains(t) && 0 <= j < 512 && j != v0
                    ==> table_entry(md, t, j) == 0,
    {
        assert forall|t: int, j: int|
            #![trigger p2.mid@.contains(t), table_entry(md, t, j)]
            p2.mid@.contains(t) && !p0.mid@.contains(t) && 0 <= j < 512 && j != v1 implies table_entry(
            md,
            t,
            j,
        ) == 0 by {
            lemma_pages_disjoint(mc, t, t0);
            assert(table_entry(mc, t, j) == table_entry(mb, t, j));
        }
        assert forall|t: int, j: int|
            #![trigger p2.leaf@.contains(t), table_entry(md, t, j)]
            p2.leaf@.contains(t) && !p0.leaf@.contains(t) && 0 <= j < 512 && j != v0 implies table_entry(
            md,
            t,
            j,
        ) == 0 by {
            if t != t0 {
                lemma_pages_disjoint(mc, t, t0);
            }
            assert(table_entry(md, t, j) == table_entry(mc, t, j));
        }
    }

    /// Maps the page of `vaddr` to the frame `dest` with the permission bits
    /// `perm` (at least one of read, write and execute, so that the entry is
    /// a leaf), adding the intermediate tables that the walk lacks, one fresh
    /// frame each. The leaf entry is valid, accessed and dirty besides
    /// `perm`; frames outside the table tree are not written.
    #[verifier::rlimit(60)]
    pub fn map(&mut self, mem: &mut PhysMemory, vaddr: VirtualAddress, dest: &Page, perm: u16)
        requires
            old(mem).wf(),
            old(self).wf(old(mem)),
            tables_missing(old(mem), old(self).page.addr.addr as int, vaddr.addr) > 0 ==> old(
                mem,
            ).can_alloc(tables_missing(old(mem), old(self).page.addr.addr as int, vaddr.addr)),
            dest.addr.addr % 4096 == 0,
            dest.addr.addr < PHYS_LIMIT,
            perm < 256,
            perm & 0xe != 0,
        ensures
            final(mem).wf(),
            final(mem).same_config(old(mem)),
            final(mem).next_free() >= old(mem).next_free(),
            final(self).page == old(self).page,
            final(self).wf(final(mem)),
            final(self).translate(final(mem), vaddr.addr) == Some(
                dest.addr.addr | (vaddr.addr & 0xfff),
            ),
            leaf_entry(final(mem), old(self).page.addr.addr as int, vaddr.addr) == Some(
                pte_encode(dest.addr.addr, LEAF_FLAGS | perm as u64),
            ),
            pte_encode(dest.addr.addr, LEAF_FLAGS | perm as u64) & 0x1ff == LEAF_FLAGS | perm as u64,
            forall|va: u64|
                !same_page(va, vaddr.addr) ==> #[trigger] final(self).translate(final(mem), va)
                    == old(self).translate(old(mem), va),
            forall|va: u64|
                !same_page(va, vaddr.addr) ==> #[trigger] leaf_entry(
                    final(mem),
                    old(self).page.addr.addr as int,
                    va,
                ) == leaf_entry(old(mem), old(self).page.addr.addr as int, va),
            forall|t: int|
                #[trigger] final(self).mid@.contains(t) ==> old(self).mid@.contains(t) || t
                    >= old(mem).next_free(),
            forall|t: int|
                #[trigger] final(self).leaf@.contains(t) ==> old(self).leaf@.contains(t) || t
                    >= old(mem).next_free(),
            final(self).frames_kept(old(mem), final(mem)),
            forall|t: int, j: int|
                #![trigger final(self).mid@.contains(t), table_entry(final(mem), t, j)]
                final(self).mid@.contains(t) && !old(self).mid@.contains(t) && 0 <= j < 512 && j
                    != vpn_of(vaddr.addr, 1) ==> table_entry(final(mem), t, j) == 0,
            forall|t: int, j: int|
                #![trigger final(self).leaf@.contains(t), table_entry(final(mem), t, j)]
                final(self).leaf@.contains(t) && !old(self).leaf@.contains(t) && 0 <= j < 512 && j
                    != vpn_of(vaddr.addr, 0) ==> table_entry(final(mem), t, j) == 0,
            final(mem).next_free() == old(mem).next_free() + 4096 * tables_missing(
                old(mem),
                old(self).page.addr.addr as int,
                vaddr.addr,
            ),
    {
        proof {
            let low0 = LEAF_FLAGS | perm as u64;
            assert(low0 < 256) by (bit_vector)
                requires
                    low0 == 0xc1u64 | (perm as u64),
                    perm < 256,
            ;
            lemma_pte_encode(dest.addr.addr, low0);
        }
        let ghost ma = *mem;
        let ghost pa0 = *self;
        let t1 = self.mid_table(mem, &vaddr);
        let ghost mb = *mem;
        let ghost pa1 = *self;
        let t0 = self.leaf_table(mem, &vaddr, t1);
        proof {
            pa1.lemma_kept_trans(self, &ma, &mb, mem);
        }
        let vpn = vaddr.to_vpn();
        proof {
            lemma_vpn_bound(vaddr.addr);
        }
        let low: u64 = LEAF_FLAGS | (perm as u64);
        assert(low < 256 && low & 1 != 0) by (bit_vector)
            requires
                low == 0xc1u64 | (perm as u64),
                perm < 256,
        ;
        let ghost m1 = *mem;
        proof {
            lemma_pte_encode(dest.addr.addr, low);
        }
        let entry = PageTableEntry::from_value((dest.addr.addr >> 2u64) | low);
        set_entry(mem, t0, vpn[0], entry);
        proof {
            let m2 = *mem;
            let rt = self.page.addr.addr as int;
            let k = vpn[0] as int;
            let u = t0 as int;
            lemma_pages_disjoint(&m1, rt, u);
            lemma_pages_disjoint(&m1, t1 as int, u);
            assert(m2.words@[m2.index_of(u) + k] == pte_encode(dest.addr.addr, low));
            self.lemma_kept_write(&m1, &m1, &m2, u, u, k, pte_encode(dest.addr.addr, low));
            Self::lemma_fresh_tables(
                &pa0,
                &pa1,
                self,
                &mb,
                &m1,
                &m2,
                t1 as int,
                u,
                vpn[1] as int,
                k,
                pte_encode(dest.addr.addr, low),
            );
            self.lemma_kept_trans(self, &ma, &m1, &m2);
            assert(table_entry(&m2, rt, vpn[2] as int) == table_entry(&m1, rt, vpn[2] as int));
            assert(table_entry(&m2, t1 as int, vpn[1] as int) == table_entry(
                &m1,
                t1 as int,
                vpn[1] as int,
            ));
            assert forall|i: int|
                0 <= i < 512 && pte_valid(#[trigger] table_entry(&m2, rt, i)) implies self.mid@.contains(
                pte_target(table_entry(&m2, rt, i)) as int) by {
                assert(table_entry(&m2, rt, i) == table_entry(&m1, rt, i));
            }
            assert forall|t: int, i: int|
                self.mid@.contains(t) && 0 <= i < 512 && pte_valid(
                    #[trigger] table_entry(&m2, t, i),
                ) implies self.leaf@.contains(pte_target(table_entry(&m2, t, i)) as int) by {
                lemma_pages_disjoint(&m1, t, u);
                assert(table_entry(&m2, t, i) == table_entry(&m1, t, i));
            }
            assert forall|i: int, j: int|
                #![trigger table_entry(&m2, rt, i), table_entry(&m2, rt, j)]
                0 <= i < 512 && 0 <= j < 512 && pte_valid(table_entry(&m2, rt, i)) && pte_valid(
                    table_entry(&m2, rt, j),
                ) && pte_target(table_entry(&m2, rt, i)) == pte_target(table_entry(&m2, rt, j))
                    implies i == j by {
                assert(table_entry(&m2, rt, i) == table_entry(&m1, rt, i));
                assert(table_entry(&m2, rt, j) == table_entry(&m1, rt, j));
            }
            assert forall|t: int, i: int, v: int, j: int|
                #![trigger table_entry(&m2, t, i), table_entry(&m2, v, j)]
                self.mid@.contains(t) && self.mid@.contains(v) && 0 <= i < 512 && 0 <= j < 512
                    && pte_valid(table_entry(&m2, t, i)) && pte_valid(table_entry(&m2, v, j))
                    && pte_target(table_entry(&m2, t, i)) == pte_target(table_entry(&m2, v, j))
                    implies t == v && i == j by {
                lemma_pages_disjoint(&m1, t, u);
                lemma_pages_disjoint(&m1, v, u);
                assert(table_entry(&m2, t, i) == table_entry(&m1, t, i));
                assert(table_entry(&m2, v, j) == table_entry(&m1, v, j));
            }
            assert(low & 0xe != 0) by (bit_vector)
                requires
                    low == 0xc1u64 | (perm as u64),
                    perm & 0xe != 0,
            ;
            assert forall|i: int|
                0 <= i < 512 && pte_valid(#[trigger] table_entry(&m2, rt, i)) implies pte_pointer(
                table_entry(&m2, rt, i),
            ) by {
                assert(table_entry(&m2, rt, i) == table_entry(&m1, rt, i));
            }
            assert forall|t: int, i: int|
                #![trigger self.mid@.contains(t), table_entry(&m2, t, i)]
                self.mid@.contains(t) && 0 <= i < 512 && pte_valid(table_entry(&m2, t, i))
                    implies pte_pointer(table_entry(&m2, t, i)) by {
                lemma_pages_disjoint(&m1, t, u);
                assert(table_entry(&m2, t, i) == table_entry(&m1, t, i));
            }
            assert forall|t: int, i: int|
                #![trigger self.leaf@.contains(t), table_entry(&m2, t, i)]
                self.leaf@.contains(t) && 0 <= i < 512 && pte_valid(table_entry(&m2, t, i))
                    implies !pte_pointer(table_entry(&m2, t, i)) by {
                if t != u {
                    lemma_pages_disjoint(&m1, t, u);
                }
                if !(t == u && i == k) {
                    assert(table_entry(&m2, t, i) == table_entry(&m1, t, i));
                }
            }
            assert forall|va: u64| !same_page(va, vaddr.addr) implies #[trigger] walk2(&m2, rt, va)
                == walk2(&m1, rt, va) by {
                lemma_vpn_bound(va);
                let v2 = vpn_of(va, 2) as int;
                let v1 = vpn_of(va, 1) as int;
                let v0 = vpn_of(va, 0) as int;
                assert(table_entry(&m2, rt, v2) == table_entry(&m1, rt, v2));
                if pte_valid(table_entry(&m1, rt, v2)) {
                    let t = pte_target(table_entry(&m1, rt, v2)) as int;
                    assert(self.mid@.contains(t));
                    lemma_pages_disjoint(&m1, t, u);
                    assert(table_entry(&m2, t, v1) == table_entry(&m1, t, v1));
                    if pte_valid(table_entry(&m1, t, v1)) {
                        let t0 = pte_target(table_entry(&m1, t, v1)) as int;
                        if t0 == u && v0 == k {
                            assert(table_entry(&m1, t1 as int, vpn[1] as int) == table_entry(
                                &m1,
                                t1 as int,
                                vpn[1] as int,
                            ));
                            assert(t == t1 as int && v1 == vpn[1] as int);
                            assert(table_entry(&m1, rt, vpn[2] as int) == table_entry(
                                &m1,
                                rt,
                                vpn[2] as int,
                            ));
                            assert(v2 == vpn[2] as int);
                            assert(false);
                        }
                        if t0 != u {
                            lemma_pages_disjoint(&m1, t0, u);
                        }
                        assert(table_entry(&m2, t0, v0) == table_entry(&m1, t0, v0));
                    }
                }
            }
            assert forall|va: u64| !same_page(va, vaddr.addr) implies #[trigger] leaf_entry(&m2, rt, va)
                == leaf_entry(&m1, rt, va) by {
                lemma_vpn_bound(va);
                let v2 = vpn_of(va, 2) as int;
                let v1 = vpn_of(va, 1) as int;
                let v0 = vpn_of(va, 0) as int;
                assert(table_entry(&m2, rt, v2) == table_entry(&m1, rt, v2));
                if pte_valid(table_entry(&m1, rt, v2)) {
                    let t = pte_target(table_entry(&m1, rt, v2)) as int;
                    assert(self.mid@.contains(t));
                    lemma_pages_disjoint(&m1, t, u);
                    assert(table_entry(&m2, t, v1) == table_entry(&m1, t, v1));
                    if pte_valid(table_entry(&m1, t, v1)) {
                        let t0 = pte_target(table_entry(&m1, t, v1)) as int;
                        if t0 == u && v0 == k {
                            assert(table_entry(&m1, t1 as int, vpn[1] as int) == table_entry(
                                &m1,
                                t1 as int,
                                vpn[1] as int,
                            ));
                            assert(t == t1 as int && v1 == vpn[1] as int);
                            assert(table_entry(&m1, rt, vpn[2] as int) == table_entry(
                                &m1,
                                rt,
                                vpn[2] as int,
                            ));
                            assert(v2 == vpn[2] as int);
                            assert(false);
                        }
                        if t0 != u {
                            lemma_pages_disjoint(&m1, t0, u);
                        }
                        assert(table_entry(&m2, t0, v0) == table_entry(&m1, t0, v0));
                    }
                }
            }
        }
    }

    /// The physical address `vaddr` translates to. Resolving an address the
    /// table does not map is fatal: callers test `is_mapped` first.
    pub fn resolve(&self, mem: &PhysMemory, vaddr: &VirtualAddress) -> (r: PhysicalAddress)
        requires
            mem.wf(),
            self.translate(mem, vaddr.addr) is Some,
        ensures
            self.translate(mem, vaddr.addr) == Some(r.addr),
    {
        self.resolve_intl(mem, vaddr, self.page.addr.addr, 2)
    }

    fn resolve_intl(&self, mem: &PhysMemory, vaddr: &VirtualAddress, table: u64, level: u64) -> (r:
        PhysicalAddress)
        requires
            mem.wf(),
            level <= 2,
            walk_from(mem, table as int, vaddr.addr, level as int) is Some,
        ensures
            walk_from(mem, table as int, vaddr.addr, level as int) == Some(r.addr),
        decreases level,
    {
        let vpn = vaddr.to_vpn();
        let idx = vpn[level as usize];
        proof {
            lemma_vpn_bound(vaddr.addr);
        }
        let entry = get_entry(mem, table, idx);
        let next = entry.next_page();
        if level == 0 {
            PhysicalAddress::new(next.addr.addr | vaddr.to_offset())
        } else {
            self.resolve_intl(mem, vaddr, next.addr.addr, level - 1)
        }
    }

    /// Whether `vaddr` translates through this table.
    pub fn is_mapped(&self, mem: &PhysMemory, vaddr: &VirtualAddress) -> (r: bool)
        requires
            mem.wf(),
        ensures
            r == self.translate(mem, vaddr.addr) is Some,
    {
        self.is_mapped_intl(mem, vaddr, self.page.addr.addr, 2)
    }

    fn is_mapped_intl(&self, mem: &PhysMemory, vaddr: &VirtualAddress, table: u64, level: u64) -> (r:
        bool)
        requires
            mem.wf(),
            level <= 2,
        ensures
            r == walk_from(mem, table as int, vaddr.addr, level as int) is Some,
        decreases level,
    {
        let end = mem.base + 8 * (mem.words.len() as u64);
        if table % 4096 != 0 || table < mem.base || end < 4096 || table > end - 4096 {
            return false;
        }
        let vpn = vaddr.to_vpn();
        let idx = vpn[level as usize];
        proof {
            lemma_vpn_bound(vaddr.addr);
        }
        let entry = get_entry(mem, table, idx);
        let ghost w = table_entry(mem, table as int, idx as int);
        assert((((w & 0x1ff) as u16) & 1 != 0) == (w & 1 != 0)) by (bit_vector);
        if !entry.is_valid() {
            return false;
        }
        if level == 0 {
            true
        } else {
            self.is_mapped_intl(mem, vaddr, entry.next_page().addr.addr, level - 1)
        }
    }
}

} // verus!
