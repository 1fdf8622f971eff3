//! One guest: its guest-physical address space and its kernel image.
use vstd::prelude::*;

use crate::csr::hgatp;
use crate::elf::{self, ElfImage, LoadError, SectionInfo};
use crate::memlayout::{GUEST_DRAM_END, GUEST_DRAM_START, GUEST_UART_BASE, PAGE_SIZE};
use crate::paging::{
    self,
    leaf_entry,
    pte_encode,
    table_entry,
    alloc_16,
    alloc_page,
    copy_bytes,
    round_up_16k,
    Page,
    PageTable,
    PhysMemory,
    PhysicalAddress,
    VirtualAddress,
    PHYS_LIMIT,
};

verus! {

/// Bytes read from the disk as the guest's image.
pub const LOAD_SIZE: u64 = 2 * 1024 * 1024;

/// Permissions of every guest mapping: read, write, execute and user.
pub const GUEST_PERM: u16 = 0x1e;

/// Flags of every guest leaf entry: valid, read, write, execute, user,
/// accessed and dirty.
pub const GUEST_LEAF_FLAGS: u64 = 0xdf;

/// A guest: its name, its guest-physical translation and where it resumes.
pub struct Guest {
    pub name: &'static str,
    pub hgatp: hgatp::Setting,
    pub sepc: u64,
    pub page_table: PageTable,
}

/// Pages in the window `[dram_start, dram_end]`, the last page included.
pub open spec fn window_pages(dram_start: u64, dram_end: u64) -> int {
    (dram_end - dram_start) / 4096 + 1
}

/// The frame that page `j` of the window from `dram_start` translates to.
pub open spec fn window_frame(pt: &PageTable, mem: &PhysMemory, dram_start: u64, j: int) -> int {
    match pt.translate(mem, (dram_start + 4096 * j) as u64) {
        Some(f) => f as int,
        None => -1,
    }
}

/// The first `n` pages of the window translate to frames in memory that are
/// no tables, a later page to a higher frame.
pub open spec fn window_mapped(pt: &PageTable, mem: &PhysMemory, dram_start: u64, n: int) -> bool {
    &&& forall|j: int|
        0 <= j < n ==> #[trigger] pt.translate(mem, (dram_start + 4096 * j) as u64) is Some
            && mem.holds_page(window_frame(pt, mem, dram_start, j)) && !is_table(
            pt,
            window_frame(pt, mem, dram_start, j),
        )
    &&& forall|j: int, k: int|
        #![trigger window_frame(pt, mem, dram_start, j), window_frame(pt, mem, dram_start, k)]
        0 <= j < k < n ==> window_frame(pt, mem, dram_start, j) < window_frame(
            pt,
            mem,
            dram_start,
            k,
        )
}

/// There is room to build the table for a window of `n` pages: the 16 KiB
/// root block at the next 16 KiB boundary, then up to two tables for the
/// console and, for each page, its frame and up to two tables.
pub open spec fn build_room(mem: &PhysMemory, n: int) -> bool {
    &&& mem.can_alloc_16()
    &&& round_up_16k(mem.next_free()) + 4096 * (6 + 3 * n) <= mem.alloc_end
    &&& round_up_16k(mem.next_free()) + 4096 * (6 + 3 * n) <= mem.end()
}

/// Whether there is room to build the table for a window of `n` pages.
pub fn has_build_room(mem: &PhysMemory, n: u64) -> (r: bool)
    requires
        mem.wf(),
        n < 0x100_0000_0000,
    ensures
        r == build_room(mem, n as int),
{
    if !paging::can_hand_out_16(mem) {
        return false;
    }
    let next = mem.alloc_base + 4096 * mem.last_index;
    let a = if next % 16384 == 0 {
        next
    } else {
        next + 16384 - next % 16384
    };
    let end = mem.base + 8 * (mem.words.len() as u64);
    let need = 4096 * (6 + 3 * n);
    a + need <= mem.alloc_end && a + need <= end
}

/// No page of the window shares its table entries with `a`.
pub open spec fn outside_window(a: u64, dram_start: u64, dram_end: u64) -> bool {
    forall|j: int|
        0 <= j < window_pages(dram_start, dram_end) ==> !paging::same_page(
            a,
            #[trigger] ((dram_start + 4096 * j) as u64),
        )
}

/// After mapping page `i` of the window to `p`, the earlier pages keep their
/// frames and page `i` has frame `p`.
proof fn lemma_window_frames(
    before: &PageTable,
    after: &PageTable,
    m0: &PhysMemory,
    m1: &PhysMemory,
    m2: &PhysMemory,
    dram_start: u64,
    dram_end: u64,
    i: u64,
    p: int,
)
    requires
        dram_start % 4096 == 0,
        dram_start <= dram_end,
        dram_end + 4096 <= u64::MAX,
        dram_end - dram_start < 0x80_0000_0000,
        i < window_pages(dram_start, dram_end),
        0 <= p < u64::MAX,
        window_mapped(before, m0, dram_start, i as int),
        forall|va: u64| #[trigger] before.translate(m1, va) == before.translate(m0, va),
        forall|va: u64|
            !paging::same_page(va, (dram_start + 4096 * i) as u64) ==> #[trigger] after.translate(
                m2,
                va,
            ) == before.translate(m1, va),
        after.translate(m2, (dram_start + 4096 * i) as u64) == Some(
            (p as u64) | (((dram_start + 4096 * i) as u64) & 0xfff),
        ),
    ensures
        window_frame(after, m2, dram_start, i as int) == p,
        forall|j: int|
            0 <= j < i ==> #[trigger] window_frame(after, m2, dram_start, j) == window_frame(
                before,
                m0,
                dram_start,
                j,
            ),
        after.translate(m2, (dram_start + 4096 * i) as u64) is Some,
{
    assert(dram_start + i * 4096 <= dram_end) by (nonlinear_arith)
        requires
            i < (dram_end - dram_start) / 4096 + 1,
            dram_start <= dram_end,
    ;
    let vaddr = (dram_start + 4096 * i) as u64;
    assert(vaddr % 4096 == 0);
    let pu = p as u64;
    assert((pu | (vaddr & 0xfff)) == pu) by (bit_vector)
        requires
            vaddr % 4096 == 0,
    ;
    assert(window_frame(after, m2, dram_start, i as int) == p);
    assert forall|j: int| 0 <= j < i implies #[trigger] window_frame(after, m2, dram_start, j)
        == window_frame(before, m0, dram_start, j) by {
        assert(dram_start + 4096 * j < vaddr);
        assert((dram_start + 4096 * j) % 4096 == 0);
        paging::lemma_distinct_pages((dram_start + 4096 * j) as u64, vaddr);
        assert(before.translate(m0, (dram_start + 4096 * j) as u64) is Some);
    }
}

/// Mapping the next page of the window to the fresh frame `p` keeps the
/// pages before it and the console mapped as they were.
#[verifier::rlimit(100)]
proof fn lemma_window_step(
    before: &PageTable,
    after: &PageTable,
    m0: &PhysMemory,
    m1: &PhysMemory,
    m2: &PhysMemory,
    uart_base: u64,
    dram_start: u64,
    dram_end: u64,
    i: u64,
    p: int,
)
    requires
        after.page == before.page,
        m0.wf(),
        before.wf(m0),
        m1.same_config(m0),
        m2.same_config(m0),
        p == m0.next_free(),
        m0.holds_page(p),
        m1.next_free() == p + 4096,
        m2.next_free() >= m1.next_free(),
        dram_start % 4096 == 0,
        dram_start <= dram_end,
        dram_end + 4096 <= u64::MAX,
        dram_end - dram_start < 0x80_0000_0000,
        i < window_pages(dram_start, dram_end),
        window_mapped(before, m0, dram_start, i as int),
        forall|j: int|
            0 <= j < i ==> #[trigger] window_frame(before, m0, dram_start, j) + 4096
                <= m0.next_free(),
        outside_window(uart_base, dram_start, dram_end) ==> before.translate(m0, uart_base) == Some(
            uart_base,
        ),
        forall|va: u64| #[trigger] before.translate(m1, va) == before.translate(m0, va),
        forall|va: u64|
            !paging::same_page(va, (dram_start + 4096 * i) as u64) ==> #[trigger] after.translate(
                m2,
                va,
            ) == before.translate(m1, va),
        after.translate(m2, (dram_start + 4096 * i) as u64) == Some(
            (p as u64) | (((dram_start + 4096 * i) as u64) & 0xfff),
        ),
        forall|t: int|
            #[trigger] after.mid@.contains(t) ==> before.mid@.contains(t) || t >= m1.next_free(),
        forall|t: int|
            #[trigger] after.leaf@.contains(t) ==> before.leaf@.contains(t) || t >= m1.next_free(),
    ensures
        forall|j: int|
            0 <= j < i ==> #[trigger] window_frame(after, m2, dram_start, j) == window_frame(
                before,
                m0,
                dram_start,
                j,
            ),
        window_frame(after, m2, dram_start, i as int) == p,
        window_mapped(after, m2, dram_start, i + 1),
        forall|j: int|
            0 <= j < i + 1 ==> #[trigger] window_frame(after, m2, dram_start, j) + 4096
                <= m2.next_free(),
        outside_window(uart_base, dram_start, dram_end) ==> after.translate(m2, uart_base) == Some(
            uart_base,
        ),
{
    assert(dram_start + i * 4096 <= dram_end) by (nonlinear_arith)
        requires
            i < (dram_end - dram_start) / 4096 + 1,
            dram_start <= dram_end,
    ;
    let vaddr = (dram_start + 4096 * i) as u64;
    assert(vaddr % 4096 == 0);
    lemma_window_frames(before, after, m0, m1, m2, dram_start, dram_end, i, p);
    assert forall|j: int| 0 <= j < i + 1 implies #[trigger] after.translate(
        m2,
        (dram_start + 4096 * j) as u64,
    ) is Some && m2.holds_page(window_frame(after, m2, dram_start, j)) && !is_table(
        after,
        window_frame(after, m2, dram_start, j),
    ) by {
        let f = window_frame(after, m2, dram_start, j);
        if j < i {
            assert(dram_start + 4096 * j < vaddr);
            assert((dram_start + 4096 * j) % 4096 == 0);
            paging::lemma_distinct_pages((dram_start + 4096 * j) as u64, vaddr);
            assert(before.translate(m0, (dram_start + 4096 * j) as u64) is Some);
            assert(f == window_frame(before, m0, dram_start, j));
            assert(f + 4096 <= m0.next_free());
        }
        assert(f <= p);
        assert(!(after.mid@.contains(f) && !before.mid@.contains(f)));
        assert(!(after.leaf@.contains(f) && !before.leaf@.contains(f)));
        if j == i {
            assert(!before.mid@.contains(p));
            assert(!before.leaf@.contains(p));
        }
    }
    assert forall|j: int, k: int|
        #![trigger window_frame(after, m2, dram_start, j), window_frame(after, m2, dram_start, k)]
        0 <= j < k < i + 1 implies window_frame(after, m2, dram_start, j) < window_frame(
        after,
        m2,
        dram_start,
        k,
    ) by {
        assert(window_frame(after, m2, dram_start, j) == window_frame(before, m0, dram_start, j));
        if k < i {
            assert(window_frame(after, m2, dram_start, k) == window_frame(before, m0, dram_start, k));
        } else {
            assert(window_frame(before, m0, dram_start, j) + 4096 <= m0.next_free());
        }
    }
    if outside_window(uart_base, dram_start, dram_end) {
        assert(!paging::same_page(uart_base, ((dram_start + 4096 * i) as u64)));
    }
}

/// Mapping the next page of the window keeps every window frame zeroed.
proof fn lemma_window_zero(
    before: &PageTable,
    after: &PageTable,
    m0: &PhysMemory,
    m1: &PhysMemory,
    m2: &PhysMemory,
    dram_start: u64,
    i: u64,
    p: int,
)
    requires
        m0.wf(),
        m1.same_config(m0),
        m2.same_config(m0),
        p == m0.next_free(),
        m0.holds_page(p),
        window_mapped(after, m2, dram_start, i + 1),
        forall|j: int|
            0 <= j < i ==> #[trigger] window_frame(after, m2, dram_start, j) == window_frame(
                before,
                m0,
                dram_start,
                j,
            ),
        window_frame(after, m2, dram_start, i as int) == p,
        forall|j: int|
            0 <= j < i ==> #[trigger] window_frame(before, m0, dram_start, j) + 4096
                <= m0.next_free(),
        forall|j: int|
            0 <= j < i ==> #[trigger] m0.zeroed(window_frame(before, m0, dram_start, j), 1),
        m1.zeroed(p, 1),
        m1.same_outside(m0, p, 1),
        after.frames_kept(m1, m2),
    ensures
        forall|j: int|
            0 <= j < i + 1 ==> #[trigger] m2.zeroed(window_frame(after, m2, dram_start, j), 1),
{
    assert forall|j: int| 0 <= j < i + 1 implies #[trigger] m2.zeroed(
        window_frame(after, m2, dram_start, j),
        1,
    ) by {
        let f = window_frame(after, m2, dram_start, j);
        assert(m2.holds_page(f) && !is_table(after, f));
        if j < i {
            assert(f == window_frame(before, m0, dram_start, j));
            assert(m0.zeroed(f, 1));
            assert(f + 4096 <= p);
            paging::lemma_pages_disjoint(m0, f, p);
        }
        assert forall|x: int|
            m2.index_of(f) <= x < m2.index_of(f) + 512 implies #[trigger] m2.words@[x] == 0 by {
            let jj = x - m2.index_of(f);
            assert(m2.words@[m1.index_of(f) + jj] == m1.words@[m1.index_of(f) + jj]);
        }
    }
}

/// Mapping the next page of the window keeps the leaf entries of the pages
/// before it and of the console, and adds one for the new page.
#[verifier::rlimit(100)]
proof fn lemma_window_leaf(
    before: &PageTable,
    after: &PageTable,
    m0: &PhysMemory,
    m1: &PhysMemory,
    m2: &PhysMemory,
    uart_base: u64,
    dram_start: u64,
    dram_end: u64,
    i: u64,
    p: int,
)
    requires
        after.page == before.page,
        dram_start % 4096 == 0,
        dram_start <= dram_end,
        dram_end + 4096 <= u64::MAX,
        dram_end - dram_start < 0x80_0000_0000,
        i < window_pages(dram_start, dram_end),
        window_mapped(before, m0, dram_start, i as int),
        forall|va: u64| #[trigger] before.translate(m1, va) == before.translate(m0, va),
        forall|va: u64|
            !paging::same_page(va, (dram_start + 4096 * i) as u64) ==> #[trigger] after.translate(
                m2,
                va,
            ) == before.translate(m1, va),
        forall|j: int|
            0 <= j < i ==> #[trigger] window_frame(after, m2, dram_start, j) == window_frame(
                before,
                m0,
                dram_start,
                j,
            ),
        window_frame(after, m2, dram_start, i as int) == p,
        forall|j: int|
            0 <= j < i ==> #[trigger] leaf_entry(
                m0,
                before.page.addr.addr as int,
                (dram_start + 4096 * j) as u64,
            ) == Some(pte_encode(window_frame(before, m0, dram_start, j) as u64, GUEST_LEAF_FLAGS)),
        forall|va: u64|
            #[trigger] leaf_entry(m1, before.page.addr.addr as int, va) == leaf_entry(
                m0,
                before.page.addr.addr as int,
                va,
            ),
        forall|va: u64|
            !paging::same_page(va, (dram_start + 4096 * i) as u64) ==> #[trigger] leaf_entry(
                m2,
                before.page.addr.addr as int,
                va,
            ) == leaf_entry(m1, before.page.addr.addr as int, va),
        leaf_entry(m2, before.page.addr.addr as int, (dram_start + 4096 * i) as u64) == Some(
            pte_encode(p as u64, GUEST_LEAF_FLAGS),
        ),
        outside_window(uart_base, dram_start, dram_end) ==> leaf_entry(
            m0,
            before.page.addr.addr as int,
            uart_base,
        ) == Some(pte_encode(uart_base, GUEST_LEAF_FLAGS)),
    ensures
        forall|j: int|
            0 <= j < i + 1 ==> #[trigger] leaf_entry(
                m2,
                before.page.addr.addr as int,
                (dram_start + 4096 * j) as u64,
            ) == Some(pte_encode(window_frame(after, m2, dram_start, j) as u64, GUEST_LEAF_FLAGS)),
        outside_window(uart_base, dram_start, dram_end) ==> leaf_entry(
            m2,
            before.page.addr.addr as int,
            uart_base,
        ) == Some(pte_encode(uart_base, GUEST_LEAF_FLAGS)),
{
    assert(dram_start + i * 4096 <= dram_end) by (nonlinear_arith)
        requires
            i < (dram_end - dram_start) / 4096 + 1,
            dram_start <= dram_end,
    ;
    let vaddr = (dram_start + 4096 * i) as u64;
    assert forall|j: int| 0 <= j < i + 1 implies #[trigger] leaf_entry(
        m2,
        before.page.addr.addr as int,
        (dram_start + 4096 * j) as u64,
    ) == Some(pte_encode(window_frame(after, m2, dram_start, j) as u64, GUEST_LEAF_FLAGS)) by {
        if j < i {
            assert(dram_start + 4096 * j < vaddr);
            assert((dram_start + 4096 * j) % 4096 == 0);
            paging::lemma_distinct_pages((dram_start + 4096 * j) as u64, vaddr);
            assert(before.translate(m0, (dram_start + 4096 * j) as u64) is Some);
        }
    }
    if outside_window(uart_base, dram_start, dram_end) {
        assert(!paging::same_page(uart_base, ((dram_start + 4096 * i) as u64)));
    }
}

/// A fresh guest-physical table in a 16 KiB-aligned root that maps the
/// console page at `uart_base` to itself and each page of the window
/// `[dram_start, dram_end]` (the last page included) to a fresh frame, all
/// with `GUEST_PERM`.
#[verifier::rlimit(40)]
pub fn prepare_gpat_pt(mem: &mut PhysMemory, uart_base: u64, dram_start: u64, dram_end: u64) -> (r:
    PageTable)
    requires
        old(mem).wf(),
        build_room(old(mem), window_pages(dram_start, dram_end)),
        uart_base % 4096 == 0,
        uart_base < PHYS_LIMIT,
        dram_start % 4096 == 0,
        dram_start <= dram_end,
        dram_end + 4096 <= u64::MAX,
        dram_end - dram_start < 0x80_0000_0000,
    ensures
        final(mem).wf(),
        final(mem).same_config(old(mem)),
        final(mem).next_free() >= old(mem).next_free(),
        ({
            let pt = r;
            &&& pt.wf(final(mem))
            &&& pt.page.addr.addr == round_up_16k(old(mem).next_free())
            &&& pt.page.addr.addr % 16384 == 0
            &&& window_mapped(&pt, final(mem), dram_start, window_pages(dram_start, dram_end))
            &&& forall|j: int|
                0 <= j < window_pages(dram_start, dram_end) ==> #[trigger] final(mem).zeroed(
                    window_frame(&pt, final(mem), dram_start, j),
                    1,
                )
            &&& outside_window(uart_base, dram_start, dram_end) ==> pt.translate(final(mem), uart_base)
                == Some(uart_base)
            &&& forall|j: int|
                0 <= j < window_pages(dram_start, dram_end) ==> #[trigger] leaf_entry(
                    final(mem),
                    pt.page.addr.addr as int,
                    (dram_start + 4096 * j) as u64,
                ) == Some(pte_encode(window_frame(&pt, final(mem), dram_start, j) as u64, GUEST_LEAF_FLAGS))
            &&& outside_window(uart_base, dram_start, dram_end) ==> leaf_entry(
                final(mem),
                pt.page.addr.addr as int,
                uart_base,
            ) == Some(pte_encode(uart_base, GUEST_LEAF_FLAGS))
        }),
{
    let root_page = alloc_16(mem);
    let mut root_pt = PageTable::from_page(root_page);
    proof {
        assert forall|i: int|
            mem.index_of(root_pt.page.addr.addr as int) <= i < mem.index_of(
                root_pt.page.addr.addr as int,
            ) + 512 implies #[trigger] mem.words@[i] == 0 by {}
        root_pt.lemma_fresh(mem);
    }
    let ghost rb = round_up_16k(old(mem).next_free());
    assert(GUEST_PERM & 0xe != 0) by (bit_vector);
    let uart_page = Page::from_address(PhysicalAddress::new(uart_base));
    root_pt.map(mem, VirtualAddress::new(uart_base), &uart_page, GUEST_PERM);
    assert((0xc1u64 | (GUEST_PERM as u64)) == GUEST_LEAF_FLAGS) by (bit_vector);
    assert((uart_base | (uart_base & 0xfff)) == uart_base) by (bit_vector)
        requires
            uart_base % 4096 == 0,
    ;
    let map_page_num = (dram_end - dram_start) / PAGE_SIZE + 1;
    let mut i: u64 = 0;
    while i < map_page_num
        invariant
            mem.wf(),
            mem.same_config(old(mem)),
            mem.next_free() >= old(mem).next_free(),
            root_pt.wf(mem),
            root_pt.page.addr.addr == round_up_16k(old(mem).next_free()),
            root_pt.page.addr.addr % 16384 == 0,
            map_page_num == (dram_end - dram_start) / 4096 + 1,
            dram_start % 4096 == 0,
            dram_start <= dram_end,
            dram_end + 4096 <= u64::MAX,
            dram_end - dram_start < 0x80_0000_0000,
            i <= map_page_num,
            rb == round_up_16k(old(mem).next_free()),
            mem.next_free() <= rb + 4096 * (6 + 3 * i),
            build_room(old(mem), window_pages(dram_start, dram_end)),
            mem.initialized,
            build_room(old(mem), window_pages(dram_start, dram_end)) ==> mem.base <= mem.next_free(),
            old(mem).wf(),
            window_mapped(&root_pt, mem, dram_start, i as int),
            forall|j: int|
                0 <= j < i ==> #[trigger] mem.zeroed(window_frame(&root_pt, mem, dram_start, j), 1),
            forall|j: int|
                0 <= j < i ==> #[trigger] leaf_entry(
                    mem,
                    root_pt.page.addr.addr as int,
                    (dram_start + 4096 * j) as u64,
                ) == Some(pte_encode(window_frame(&root_pt, mem, dram_start, j) as u64, GUEST_LEAF_FLAGS)),
            outside_window(uart_base, dram_start, dram_end) ==> leaf_entry(
                mem,
                root_pt.page.addr.addr as int,
                uart_base,
            ) == Some(pte_encode(uart_base, GUEST_LEAF_FLAGS)),
            forall|j: int|
                0 <= j < i ==> #[trigger] window_frame(&root_pt, mem, dram_start, j) + 4096
                    <= mem.next_free(),
            outside_window(uart_base, dram_start, dram_end) ==> root_pt.translate(mem, uart_base)
                == Some(uart_base),
        decreases map_page_num - i,
    {
        assert(dram_start + i * 4096 <= dram_end) by (nonlinear_arith)
            requires
                i < (dram_end - dram_start) / 4096 + 1,
                dram_start <= dram_end,
        ;
        let vaddr = dram_start + i * PAGE_SIZE;
        let ghost m0 = *mem;
        let page = alloc_page(mem);
        proof {
            root_pt.lemma_alloc_agree(&m0, mem, page.addr.addr as int);
            root_pt.lemma_agree_wf(&m0, mem);
            root_pt.lemma_agree_translate(&m0, mem);
        }
        let ghost before = root_pt;
        let ghost m1 = *mem;
        assert(GUEST_PERM & 0xe != 0) by (bit_vector);
        assert((0xc1u64 | (GUEST_PERM as u64)) == GUEST_LEAF_FLAGS) by (bit_vector);
        root_pt.map(mem, VirtualAddress::new(vaddr), &page, GUEST_PERM);
        proof {
            lemma_window_step(
                &before,
                &root_pt,
                &m0,
                &m1,
                mem,
                uart_base,
                dram_start,
                dram_end,
                i,
                page.addr.addr as int,
            );
            lemma_window_zero(&before, &root_pt, &m0, &m1, mem, dram_start, i, page.addr.addr as int);
            lemma_window_leaf(
                &before,
                &root_pt,
                &m0,
                &m1,
                mem,
                uart_base,
                dram_start,
                dram_end,
                i,
                page.addr.addr as int,
            );
        }
        i = i + 1;
    }
    root_pt
}

/// The guest's console page lies outside its memory window.
proof fn lemma_console_outside_window()
    ensures
        outside_window(GUEST_UART_BASE, GUEST_DRAM_START, GUEST_DRAM_END),
{
    assert forall|j: int| 0 <= j < window_pages(GUEST_DRAM_START, GUEST_DRAM_END) implies !paging::same_page(
        GUEST_UART_BASE,
        #[trigger] ((GUEST_DRAM_START + 4096 * j) as u64),
    ) by {
        let a = (GUEST_DRAM_START + 4096 * j) as u64;
        assert(0x8000_0000 <= a <= 0x8200_0000);
        assert((a >> 30u64) & 0x1ff == 2) by (bit_vector)
            requires
                0x8000_0000 <= a <= 0x8200_0000,
        ;
        assert((0x1000_0000u64 >> 30u64) & 0x1ff == 0) by (bit_vector);
    }
}

impl Guest {
    /// A guest whose guest-physical space maps the console and the guest
    /// memory window, translated by a three-level scheme with id 0 from the
    /// new root; it starts at the window's first address.
    pub fn new(name: &'static str, mem: &mut PhysMemory) -> (r: Guest)
        requires
            old(mem).wf(),
            build_room(old(mem), window_pages(GUEST_DRAM_START, GUEST_DRAM_END)),
        ensures
            final(mem).wf(),
            final(mem).same_config(old(mem)),
            ({
                let g = r;
                &&& g.name == name
                &&& g.page_table.wf(final(mem))
                &&& g.hgatp == (hgatp::Setting {
                    mode: hgatp::Mode::Sv39x4,
                    vmid: 0,
                    ppn: g.page_table.page.addr.addr >> 12u64,
                })
                &&& g.sepc == GUEST_DRAM_START
                &&& g.page_table.page.addr.addr % 16384 == 0
                &&& g.page_table.translate(final(mem), GUEST_UART_BASE) == Some(GUEST_UART_BASE)
                &&& leaf_entry(final(mem), g.page_table.page.addr.addr as int, GUEST_UART_BASE)
                    == Some(pte_encode(GUEST_UART_BASE, GUEST_LEAF_FLAGS))
                &&& forall|j: int|
                    #![trigger window_frame(&g.page_table, final(mem), GUEST_DRAM_START, j)]
                    0 <= j < window_pages(GUEST_DRAM_START, GUEST_DRAM_END) ==> leaf_entry(
                        final(mem),
                        g.page_table.page.addr.addr as int,
                        (GUEST_DRAM_START + 4096 * j) as u64,
                    ) == Some(
                        pte_encode(
                            window_frame(&g.page_table, final(mem), GUEST_DRAM_START, j) as u64,
                            GUEST_LEAF_FLAGS,
                        ),
                    )
                &&& window_mapped(
                    &g.page_table,
                    final(mem),
                    GUEST_DRAM_START,
                    window_pages(GUEST_DRAM_START, GUEST_DRAM_END),
                )
                &&& forall|j: int|
                    #![trigger window_frame(&g.page_table, final(mem), GUEST_DRAM_START, j)]
                    0 <= j < window_pages(GUEST_DRAM_START, GUEST_DRAM_END) ==> final(mem).zeroed(
                        window_frame(&g.page_table, final(mem), GUEST_DRAM_START, j),
                        1,
                    )
            }),
    {
        proof {
            lemma_console_outside_window();
        }
        let root_pt = prepare_gpat_pt(mem, GUEST_UART_BASE, GUEST_DRAM_START, GUEST_DRAM_END);
        let hgatp = hgatp::Setting::new(hgatp::Mode::Sv39x4, 0, root_pt.page.address().to_ppn());
        Guest { name: name, hgatp: hgatp, sepc: GUEST_DRAM_START, page_table: root_pt }
    }

    /// Whether `image` can be loaded into the guest's window: a sound 64-bit
    /// header, every loaded section's bytes in the image and its range
    /// inside the window.
    pub fn image_loadable(image: &Vec<u8>) -> (r: bool)
        ensures
            r == (elf64_header_ok(image@) && sections_fit(image@) && sections_in_window(image@)),
    {
        match elf::parse(image) {
            Ok(ElfImage::Elf64(e)) => {
                let n = e.sections.len();
                let len = image.len() as u64;
                let mut k: usize = 0;
                while k < n
                    invariant
                        n == e.sections@.len(),
                        n == elf::section_count(image@),
                        forall|j: int|
                            0 <= j < n ==> #[trigger] e.sections@[j] == image_section(image@, j),
                        len == image@.len(),
                        elf64_header_ok(image@),
                        k <= n,
                        forall|j: int|
                            0 <= j < k ==> section_fits(
                                image@.len() as int,
                                #[trigger] image_section(image@, j),
                            ) && (loaded(image_section(image@, j)) ==> GUEST_DRAM_START
                                <= image_section(image@, j).addr && image_section(image@, j).addr
                                + image_section(image@, j).size < GUEST_DRAM_END + 4096),
                    decreases n - k,
                {
                    let s = e.sections[k];
                    if s.addr > 0 && s.progbits {
                        if s.addr > u64::MAX - s.size || s.offset > len || s.size > len - s.offset
                            || s.addr < GUEST_DRAM_START || s.addr + s.size >= GUEST_DRAM_END + 4096 {
                            assert(!(section_fits(image@.len() as int, image_section(image@, k as int))
                                && GUEST_DRAM_START <= image_section(image@, k as int).addr
                                && image_section(image@, k as int).addr + image_section(
                                image@,
                                k as int,
                            ).size < GUEST_DRAM_END + 4096));
                            return false;
                        }
                    }
                    k = k + 1;
                }
                true
            },
            _ => false,
        }
    }

    /// Loads a kernel image read from the disk: a 64-bit ELF image whose
    /// sections with a nonzero address and bytes in the file are copied,
    /// page by page, to the frames their guest-physical pages map to. The
    /// guest then resumes at the image's entry point. A 32-bit or malformed
    /// image, or a section page with no frame of its own, is fatal: the
    /// image is checked first with `image_loadable`.
    #[verifier::rlimit(40)]
    pub fn load_from_disk(&mut self, mem: &mut PhysMemory, image: &Vec<u8>)
        requires
            old(mem).wf(),
            old(self).page_table.wf(old(mem)),
            elf64_header_ok(image@),
            sections_fit(image@),
            sections_mapped(&old(self).page_table, old(mem), image@),
        ensures
            final(mem).wf(),
            final(mem).same_config(old(mem)),
            final(mem).last_index == old(mem).last_index,
            final(self).name == old(self).name,
            final(self).hgatp == old(self).hgatp,
            final(self).page_table == old(self).page_table,
            final(self).sepc == elf::le64(image@, 24),
            final(self).page_table.wf(final(mem)),
            loaded_by(&old(self).page_table, old(mem), final(mem), image@),
    {
        let parsed = elf::parse(image);
        match parsed {
            Ok(ElfImage::Elf64(e)) => {
                let ghost m0 = *mem;
                let n = e.sections.len();
                let len = image.len();
                let ghost mut ms: Seq<PhysMemory> = seq![*mem];
                let mut k: usize = 0;
                while k < n
                    invariant
                        n == e.sections@.len(),
                        n == elf::section_count(image@),
                        forall|j: int|
                            0 <= j < n ==> #[trigger] e.sections@[j] == image_section(image@, j),
                        len == image@.len(),
                        ms.len() == k + 1,
                        ms[0] == m0,
                        ms[k as int] == *mem,
                        forall|j: int| 0 <= j < k ==> #[trigger] load_step(&self.page_table, ms, image@, j),
                        *self == *old(self),
                        sections_fit(image@),
                        sections_mapped(&self.page_table, &m0, image@),
                        self.page_table.wf(&m0),
                        self.page_table.wf(mem),
                        self.page_table.tables_agree(&m0, mem),
                        mem.wf(),
                        mem.same_config(&m0),
                        mem.last_index == m0.last_index,
                        m0 == *old(mem),
                        k <= n,
                    decreases n - k,
                {
                    let s = e.sections[k];
                    if s.addr > 0 && s.progbits {
                        let ghost mb = *mem;
                        proof {
                            assert(section_fits(image@.len() as int, image_section(image@, k as int)));
                            assert(loaded(image_section(image@, k as int)));
                            lemma_pages_ok_kept(&self.page_table, &m0, &mb, s);
                        }
                        copy_section(mem, &self.page_table, image, &s);
                        proof {
                            let pt = self.page_table;
                            assert forall|t: int, i: int|
                                (t == pt.page.addr.addr as int || pt.mid@.contains(t)
                                    || pt.leaf@.contains(t)) && 0 <= i < 512 implies #[trigger] table_entry(
                                mem,
                                t,
                                i,
                            ) == table_entry(&m0, t, i) by {
                                assert(table_entry(&mb, t, i) == table_entry(&m0, t, i));
                            }
                        }
                    }
                    proof {
                        let ms2 = ms.push(*mem);
                        assert forall|j: int| 0 <= j < k + 1 implies #[trigger] load_step(
                            &self.page_table,
                            ms2,
                            image@,
                            j,
                        ) by {
                            if j < k {
                                assert(load_step(&self.page_table, ms, image@, j));
                                assert(ms2[j] == ms[j] && ms2[j + 1] == ms[j + 1]);
                            }
                        }
                        ms = ms2;
                    }
                    k = k + 1;
                }
                assert(loaded_by(&self.page_table, &m0, mem, image@)) by {
                    assert(load_trace(&self.page_table, ms, image@));
                }
                self.sepc = e.entry;
            },
            _ => {
                assert(false);
            },
        }
    }
}

/// The header of a 64-bit image is sound: magic, class, a section table
/// that lies in the image at a multiple of eight bytes, and a header size
/// within the image.
pub open spec fn elf64_header_ok(image: Seq<u8>) -> bool {
    &&& image.len() >= elf::ELF64_HEADER_SIZE
    &&& elf::has_elf_magic(image)
    &&& elf::elf_class(image) == 2
    &&& elf::section_table_fits(image)
    &&& elf::section_table_aligned(image)
    &&& image.len() >= elf::le16(image, 52)
}

/// Every loaded section of the image has its bytes in the image.
pub open spec fn sections_fit(image: Seq<u8>) -> bool {
    forall|j: int|
        0 <= j < elf::section_count(image) ==> section_fits(
            image.len() as int,
            #[trigger] image_section(image, j),
        )
}

/// Every loaded section's pages map to distinct frames that are no tables.
pub open spec fn sections_mapped(pt: &PageTable, mem: &PhysMemory, image: Seq<u8>) -> bool {
    forall|j: int|
        0 <= j < elf::section_count(image) && loaded(#[trigger] image_section(image, j))
            ==> section_pages_ok(pt, mem, image_section(image, j))
}

/// Every loaded section lies inside the guest's memory window.
pub open spec fn sections_in_window(image: Seq<u8>) -> bool {
    forall|j: int|
        0 <= j < elf::section_count(image) && loaded(#[trigger] image_section(image, j))
            ==> GUEST_DRAM_START <= image_section(image, j).addr && image_section(image, j).addr
            + image_section(image, j).size < GUEST_DRAM_END + 4096
}

/// A guest's mapped window holds every section that lies inside it.
pub proof fn lemma_window_sections_mapped(pt: &PageTable, mem: &PhysMemory, image: Seq<u8>)
    requires
        window_mapped(pt, mem, GUEST_DRAM_START, window_pages(GUEST_DRAM_START, GUEST_DRAM_END)),
        sections_in_window(image),
    ensures
        sections_mapped(pt, mem, image),
{
    assert forall|j: int|
        0 <= j < elf::section_count(image) && loaded(#[trigger] image_section(image, j)) implies section_pages_ok(
        pt,
        mem,
        image_section(image, j),
    ) by {
        lemma_window_section(
            pt,
            mem,
            image_section(image, j),
            GUEST_DRAM_START,
            window_pages(GUEST_DRAM_START, GUEST_DRAM_END),
        );
    }
}

/// Where the tables read the same, a section maps to the same frames.
proof fn lemma_pages_ok_kept(pt: &PageTable, m0: &PhysMemory, m1: &PhysMemory, s: SectionInfo)
    requires
        m0.wf(),
        pt.wf(m0),
        m1.same_config(m0),
        pt.tables_agree(m0, m1),
        section_pages_ok(pt, m0, s),
    ensures
        section_pages_ok(pt, m1, s),
{
    reveal(section_pages_ok);
    pt.lemma_agree_translate(m0, m1);
    assert forall|a: int| #![trigger page_of(a)] s.addr <= a <= s.addr + s.size implies pt.translate(
        m1,
        page_of(a) as u64,
    ) is Some by {
        assert(mem_frame_same(pt, m0, m1, a));
    }
    assert forall|a: int|
        #![trigger frame_of(pt, m1, a)]
        s.addr <= a <= s.addr + s.size implies m1.holds_page(frame_of(pt, m1, a)) && !is_table(
        pt,
        frame_of(pt, m1, a),
    ) by {
        assert(mem_frame_same(pt, m0, m1, a));
    }
    assert forall|a: int, b: int|
        #![trigger frame_of(pt, m1, a), frame_of(pt, m1, b)]
        s.addr <= a <= s.addr + s.size && s.addr <= b <= s.addr + s.size && page_of(a) != page_of(
            b,
        ) implies frame_of(pt, m1, a) != frame_of(pt, m1, b) by {
        assert(mem_frame_same(pt, m0, m1, a));
        assert(mem_frame_same(pt, m0, m1, b));
    }
}

/// The page of `a` translates alike in both memories.
spec fn mem_frame_same(pt: &PageTable, m0: &PhysMemory, m1: &PhysMemory, a: int) -> bool {
    &&& pt.translate(m1, page_of(a) as u64) == pt.translate(m0, page_of(a) as u64)
    &&& frame_of(pt, m1, a) == frame_of(pt, m0, a)
}

/// A section with a nonzero address and bytes in the file is loaded.
pub open spec fn loaded(s: SectionInfo) -> bool {
    s.addr > 0 && s.progbits
}

/// Section `j` of a 64-bit image.
pub open spec fn image_section(image: Seq<u8>, j: int) -> SectionInfo {
    elf::section_at(image, elf::section_table_offset(image) + elf::ELF64_SECTION_HEADER_SIZE * j)
}

/// `m1` is `m0` after copying section `s`: the same window and cursor, and,
/// where the section's pages map to distinct frames that are no tables, the
/// section's bytes at their translated addresses, with the tables and every
/// other byte as they were.
pub open spec fn copy_step(
    pt: &PageTable,
    m0: &PhysMemory,
    m1: &PhysMemory,
    image: Seq<u8>,
    s: SectionInfo,
) -> bool {
    &&& m1.wf()
    &&& m1.same_config(m0)
    &&& m1.last_index == m0.last_index
    &&& pt.wf(m0) && section_pages_ok(pt, m0, s) ==> pt.wf(m1) && pt.tables_agree(m0, m1)
        && others_kept(pt, m0, m1, s) && section_copied(pt, m0, m1, image, s, s.size as int)
}

/// Step `j` of a load: section `j` is copied if it is loaded, and memory is
/// left alone otherwise.
pub open spec fn load_step(pt: &PageTable, ms: Seq<PhysMemory>, image: Seq<u8>, j: int) -> bool {
    if loaded(image_section(image, j)) {
        copy_step(pt, &ms[j], &ms[j + 1], image, image_section(image, j))
    } else {
        ms[j + 1] == ms[j]
    }
}

/// `ms` runs through one state per section of the image, each step a
/// `load_step`.
pub open spec fn load_trace(pt: &PageTable, ms: Seq<PhysMemory>, image: Seq<u8>) -> bool {
    &&& ms.len() == elf::section_count(image) + 1
    &&& forall|j: int| 0 <= j < elf::section_count(image) ==> #[trigger] load_step(pt, ms, image, j)
}

/// `m1` is `m0` after copying the image's sections in order.
pub open spec fn loaded_by(pt: &PageTable, m0: &PhysMemory, m1: &PhysMemory, image: Seq<u8>) -> bool {
    exists|ms: Seq<PhysMemory>|
        #[trigger] load_trace(pt, ms, image) && ms[0] == *m0 && ms[ms.len() - 1] == *m1
}

/// A loaded section's range does not overflow and its bytes lie in an image
/// of `len` bytes; sections that are not loaded always fit.
pub open spec fn section_fits(len: int, s: SectionInfo) -> bool {
    s.addr > 0 && s.progbits ==> s.addr + s.size <= u64::MAX && s.offset + s.size <= len
}

/// First address of the page holding `a`.
pub open spec fn page_of(a: int) -> int {
    a - a % 4096
}

/// The frame that the guest page holding `a` translates to.
pub open spec fn frame_of(pt: &PageTable, mem: &PhysMemory, a: int) -> int {
    match pt.translate(mem, page_of(a) as u64) {
        Some(f) => f as int,
        None => -1,
    }
}

/// `t` is one of the frames of the table tree.
pub open spec fn is_table(pt: &PageTable, t: int) -> bool {
    t == pt.page.addr.addr as int || pt.mid@.contains(t) || pt.leaf@.contains(t)
}

/// Every page the section's range `[addr, addr + size]` touches translates
/// to a frame in memory that is no table, and distinct pages to distinct
/// frames.
#[verifier::opaque]
pub open spec fn section_pages_ok(pt: &PageTable, mem: &PhysMemory, s: SectionInfo) -> bool {
    &&& forall|a: int|
        #![trigger frame_of(pt, mem, a)]
        s.addr <= a <= s.addr + s.size ==> pt.translate(mem, page_of(a) as u64) is Some
            && mem.holds_page(frame_of(pt, mem, a)) && !is_table(pt, frame_of(pt, mem, a))
    &&& forall|a: int, b: int|
        #![trigger frame_of(pt, mem, a), frame_of(pt, mem, b)]
        s.addr <= a <= s.addr + s.size && s.addr <= b <= s.addr + s.size && page_of(a) != page_of(
            b,
        ) ==> frame_of(pt, mem, a) != frame_of(pt, mem, b)
}

/// Byte `k` of the section lies at its translated address in `m1`, for
/// every `k` below `n`, translations taken in `m0`.
#[verifier::opaque]
pub open spec fn section_copied(
    pt: &PageTable,
    m0: &PhysMemory,
    m1: &PhysMemory,
    image: Seq<u8>,
    s: SectionInfo,
    n: int,
) -> bool {
    forall|k: int|
        #![trigger image[s.offset + k]]
        0 <= k < n ==> paging::byte_at(m1, frame_of(pt, m0, s.addr + k) + (s.addr + k) % 4096)
            == image[s.offset + k]
}

/// An address inside the first `n` pages of the window lies in page `j` of
/// it, and its frame is that page's.
proof fn lemma_window_index(pt: &PageTable, mem: &PhysMemory, dram_start: u64, n: int, a: int)
    requires
        dram_start % 4096 == 0,
        dram_start <= a < dram_start + 4096 * n,
    ensures
        0 <= (page_of(a) - dram_start) / 4096 < n,
        page_of(a) == dram_start + 4096 * ((page_of(a) - dram_start) / 4096),
        frame_of(pt, mem, a) == window_frame(pt, mem, dram_start, (page_of(a) - dram_start) / 4096),
{
    let j = (page_of(a) - dram_start) / 4096;
    assert(0 <= j < n && page_of(a) == dram_start + 4096 * j) by (nonlinear_arith)
        requires
            j == (page_of(a) - dram_start) / 4096,
            page_of(a) == a - a % 4096,
            dram_start % 4096 == 0,
            dram_start <= a,
            a < dram_start + 4096 * n,
    ;
}

/// A section that lies inside the first `n` pages of a mapped window has
/// its pages on distinct frames that are no tables, so it can be copied.
#[verifier::rlimit(40)]
pub proof fn lemma_window_section(
    pt: &PageTable,
    mem: &PhysMemory,
    s: SectionInfo,
    dram_start: u64,
    n: int,
)
    requires
        window_mapped(pt, mem, dram_start, n),
        dram_start % 4096 == 0,
        dram_start <= s.addr,
        s.addr + s.size < dram_start + 4096 * n,
    ensures
        section_pages_ok(pt, mem, s),
{
    reveal(section_pages_ok);
    assert forall|a: int|
        #![trigger page_of(a)]
        s.addr <= a <= s.addr + s.size implies pt.translate(mem, page_of(a) as u64) is Some by {
        lemma_window_index(pt, mem, dram_start, n, a);
        let j = (page_of(a) - dram_start) / 4096;
        assert(pt.translate(mem, (dram_start + 4096 * j) as u64) is Some);
    }
    assert forall|a: int|
        #![trigger frame_of(pt, mem, a)]
        s.addr <= a <= s.addr + s.size implies mem.holds_page(frame_of(pt, mem, a)) && !is_table(
        pt,
        frame_of(pt, mem, a),
    ) by {
        lemma_window_index(pt, mem, dram_start, n, a);
        let j = (page_of(a) - dram_start) / 4096;
        assert(pt.translate(mem, (dram_start + 4096 * j) as u64) is Some);
    }
    assert forall|a: int, b: int|
        #![trigger frame_of(pt, mem, a), frame_of(pt, mem, b)]
        s.addr <= a <= s.addr + s.size && s.addr <= b <= s.addr + s.size && page_of(a) != page_of(
            b,
        ) implies frame_of(pt, mem, a) != frame_of(pt, mem, b) by {
        lemma_window_index(pt, mem, dram_start, n, a);
        lemma_window_index(pt, mem, dram_start, n, b);
        let j = (page_of(a) - dram_start) / 4096;
        let k = (page_of(b) - dram_start) / 4096;
        assert(j != k);
        if j < k {
            assert(window_frame(pt, mem, dram_start, j) < window_frame(pt, mem, dram_start, k));
        } else {
            assert(window_frame(pt, mem, dram_start, k) < window_frame(pt, mem, dram_start, j));
        }
    }
}

/// States of a trace that only pass over sections that are not loaded are
/// all the same.
proof fn lemma_trace_still(pt: &PageTable, ms: Seq<PhysMemory>, image: Seq<u8>, a: int, b: int)
    requires
        load_trace(pt, ms, image),
        0 <= a <= b <= elf::section_count(image),
        forall|i: int| a <= i < b ==> !loaded(#[trigger] image_section(image, i)),
    ensures
        ms[b] == ms[a],
    decreases b - a,
{
    if a < b {
        lemma_trace_still(pt, ms, image, a, b - 1);
        assert(load_step(pt, ms, image, b - 1));
        assert(!loaded(image_section(image, b - 1)));
    }
}

/// Loading an image whose one loaded section lies inside the mapped window
/// of a sound table places every byte of that section at the frame its
/// page translates to.
pub proof fn lemma_load_into_window(
    pt: &PageTable,
    m0: &PhysMemory,
    m1: &PhysMemory,
    image: Seq<u8>,
    dram_start: u64,
    n: int,
    j: int,
)
    requires
        m0.wf(),
        pt.wf(m0),
        window_mapped(pt, m0, dram_start, n),
        dram_start % 4096 == 0,
        loaded_by(pt, m0, m1, image),
        0 <= j < elf::section_count(image),
        loaded(image_section(image, j)),
        forall|i: int|
            0 <= i < elf::section_count(image) && i != j ==> !loaded(
                #[trigger] image_section(image, i),
            ),
        dram_start <= image_section(image, j).addr,
        image_section(image, j).addr + image_section(image, j).size < dram_start + 4096 * n,
    ensures
        section_copied(
            pt,
            m0,
            m1,
            image,
            image_section(image, j),
            image_section(image, j).size as int,
        ),
{
    let ms = choose|ms: Seq<PhysMemory>|
        #[trigger] load_trace(pt, ms, image) && ms[0] == *m0 && ms[ms.len() - 1] == *m1;
    let c = elf::section_count(image);
    lemma_trace_still(pt, ms, image, 0, j);
    lemma_trace_still(pt, ms, image, j + 1, c);
    assert(load_step(pt, ms, image, j));
    lemma_window_section(pt, m0, image_section(image, j), dram_start, n);
}

/// What `section_pages_ok` says of one address of the section.
proof fn lemma_page_ok(pt: &PageTable, m0: &PhysMemory, s: SectionInfo, a: int)
    requires
        section_pages_ok(pt, m0, s),
        s.addr <= a <= s.addr + s.size,
    ensures
        pt.translate(m0, page_of(a) as u64) is Some,
        m0.holds_page(frame_of(pt, m0, a)),
        !is_table(pt, frame_of(pt, m0, a)),
{
    reveal(section_pages_ok);
    let f = frame_of(pt, m0, a);
    assert(pt.translate(m0, page_of(a) as u64) is Some && m0.holds_page(f) && !is_table(pt, f));
}

/// An address `q * 4096 + r` with `r` below 4096 lies at offset `r` of page
/// `q * 4096`.
proof fn lemma_in_page(x: int, q: int, r: int)
    requires
        x == 4096 * q + r,
        0 <= r < 4096,
    ensures
        x % 4096 == r,
        page_of(x) == 4096 * q,
{
    assert(x % 4096 == r) by (nonlinear_arith)
        requires
            x == 4096 * q + r,
            0 <= r < 4096,
    ;
}

/// Writing inside a frame that is no table keeps every table as it was.
proof fn lemma_tables_kept(
    pt: &PageTable,
    m0: &PhysMemory,
    m1: &PhysMemory,
    m2: &PhysMemory,
    f: int,
    dst: int,
    len: int,
)
    requires
        m0.wf(),
        pt.wf(m0),
        m1.same_config(m0),
        pt.tables_agree(m0, m1),
        m0.holds_page(f),
        !is_table(pt, f),
        f <= dst,
        0 <= len,
        dst + len <= f + 4096,
        forall|i: int|
            #![trigger m2.words@[i]]
            0 <= i < m1.words@.len() && !((dst - m1.base) / 8 <= i < (dst + len - m1.base + 7) / 8)
                ==> m2.words@[i] == m1.words@[i],
        m2.words@.len() == m1.words@.len(),
        m2.base == m1.base,
    ensures
        pt.tables_agree(m0, m2),
{
    assert forall|t: int, j: int| is_table(pt, t) && 0 <= j < 512 implies #[trigger] table_entry(
        m2,
        t,
        j,
    ) == table_entry(m0, t, j) by {
        paging::lemma_pages_disjoint(m0, t, f);
        assert(table_entry(m1, t, j) == table_entry(m0, t, j));
        assert((dst + len - m0.base + 7) / 8 <= m0.index_of(f) + 512) by (nonlinear_arith)
            requires
                dst + len <= f + 4096,
                (f - m0.base) % 8 == 0,
                f >= m0.base,
                m0.index_of(f) == (f - m0.base) / 8,
        ;
        assert((dst - m0.base) / 8 >= m0.index_of(f)) by (nonlinear_arith)
            requires
                dst >= f,
                f >= m0.base,
                m0.index_of(f) == (f - m0.base) / 8,
        ;
        assert(m2.words@[m0.index_of(t) + j] == m1.words@[m0.index_of(t) + j]);
    }
}

/// After copying the part of the section that falls in the page of `a`, the
/// bytes copied so far stand at their translated addresses.
proof fn lemma_bytes_landed(
    pt: &PageTable,
    m0: &PhysMemory,
    m1: &PhysMemory,
    m2: &PhysMemory,
    image: Seq<u8>,
    s: SectionInfo,
    a: int,
    dst: int,
    src: int,
    len: int,
    seek: int,
    in_page: int,
    start: int,
    i: int,
)
    requires
        m0.wf(),
        m1.same_config(m0),
        section_pages_ok(pt, m0, s),
        section_copied(pt, m0, m1, image, s, seek - in_page),
        s.addr <= a <= s.addr + s.size,
        frame_of(pt, m0, a) + seek % 4096 == dst,
        page_of(a) == start + 4096 * i,
        start % 4096 == 0,
        s.addr == start + in_page,
        0 <= in_page < 4096,
        i == 0 ==> seek == in_page,
        i >= 1 ==> seek == 4096 * i,
        0 <= len,
        seek % 4096 + len <= 4096,
        seek - in_page + len <= s.size,
        src == s.offset + seek - in_page,
        src + len <= image.len(),
        forall|k: int| 0 <= k < len ==> paging::byte_at(m2, dst + k) == #[trigger] image[src + k],
        forall|b: int|
            #![trigger paging::byte_at(m2, b)]
            m1.base <= b < m1.end() && !(dst <= b < dst + len) ==> paging::byte_at(m2, b)
                == paging::byte_at(m1, b),
    ensures
        section_copied(pt, m0, m2, image, s, seek + len - in_page),
{
    reveal(section_pages_ok);
    reveal(section_copied);
    let f = frame_of(pt, m0, a);
    assert forall|k: int| 0 <= k < seek + len - in_page implies paging::byte_at(
        m2,
        frame_of(pt, m0, s.addr + k) + (s.addr + k) % 4096,
    ) == #[trigger] image[s.offset + k] by {
        if k < seek - in_page {
            let g = frame_of(pt, m0, s.addr + k);
            assert(s.addr <= s.addr + k <= s.addr + s.size);
            assert(i >= 1);
            assert(page_of(s.addr + k) <= s.addr + k);
            assert(page_of(s.addr + k) != page_of(a));
            assert(g != f);
            paging::lemma_pages_disjoint(m0, g, f);
            assert(!(dst <= g + (s.addr + k) % 4096 < dst + len));
            assert(paging::byte_at(m1, g + (s.addr + k) % 4096) == image[s.offset + k]);
        } else {
            let t = k - (seek - in_page);
            let q = start / 4096 + i;
            assert(start == 4096 * (start / 4096));
            if i == 0 {
                assert(seek % 4096 == in_page) by {
                    lemma_in_page(seek, 0, in_page);
                }
                lemma_in_page(s.addr + k, q, in_page + t);
            } else {
                assert(seek % 4096 == 0) by {
                    lemma_in_page(seek, i, 0);
                }
                lemma_in_page(s.addr + k, q, t);
            }
            assert(page_of(s.addr + k) == page_of(a));
            assert(frame_of(pt, m0, s.addr + k) == f);
            assert(image[src + t] == image[s.offset + k]);
        }
    }
}

/// `b` is not the translated address of any byte of section `s`.
pub open spec fn not_section_byte(pt: &PageTable, m0: &PhysMemory, s: SectionInfo, b: int) -> bool {
    forall|a: int|
        #![trigger frame_of(pt, m0, a)]
        s.addr <= a < s.addr + s.size ==> b != frame_of(pt, m0, a) + a % 4096
}

/// Every byte of `m1` that no byte of section `s` is copied to reads as in
/// `m0`, translations taken in `m0`.
#[verifier::opaque]
pub open spec fn others_kept(pt: &PageTable, m0: &PhysMemory, m1: &PhysMemory, s: SectionInfo) -> bool {
    forall|b: int|
        #![trigger paging::byte_at(m1, b)]
        m0.base <= b < m0.end() && not_section_byte(pt, m0, s, b) ==> paging::byte_at(m1, b)
            == paging::byte_at(m0, b)
}

/// Copying the part of the section that falls in the page of `a` writes no
/// byte that is not a section byte's destination.
proof fn lemma_rest_kept(
    pt: &PageTable,
    m0: &PhysMemory,
    m1: &PhysMemory,
    m2: &PhysMemory,
    s: SectionInfo,
    a: int,
    dst: int,
    len: int,
    seek: int,
    in_page: int,
    start: int,
    i: int,
)
    requires
        m1.same_config(m0),
        others_kept(pt, m0, m1, s),
        s.addr <= a <= s.addr + s.size,
        frame_of(pt, m0, a) + seek % 4096 == dst,
        page_of(a) == start + 4096 * i,
        start % 4096 == 0,
        s.addr == start + in_page,
        0 <= in_page < 4096,
        i == 0 ==> seek == in_page,
        i >= 1 ==> seek == 4096 * i,
        0 <= len,
        seek % 4096 + len <= 4096,
        seek - in_page + len <= s.size,
        forall|b: int|
            #![trigger paging::byte_at(m2, b)]
            m1.base <= b < m1.end() && !(dst <= b < dst + len) ==> paging::byte_at(m2, b)
                == paging::byte_at(m1, b),
    ensures
        others_kept(pt, m0, m2, s),
{
    reveal(others_kept);
    assert forall|b: int|
        #![trigger paging::byte_at(m2, b)]
        m0.base <= b < m0.end() && not_section_byte(pt, m0, s, b) implies paging::byte_at(m2, b)
        == paging::byte_at(m0, b) by {
        if dst <= b < dst + len {
            let t = b - dst;
            let k = seek - in_page + t;
            let q = start / 4096 + i;
            assert(start == 4096 * (start / 4096));
            if i == 0 {
                assert(seek % 4096 == in_page) by {
                    lemma_in_page(seek, 0, in_page);
                }
                lemma_in_page(s.addr + k, q, in_page + t);
            } else {
                assert(seek % 4096 == 0) by {
                    lemma_in_page(seek, i, 0);
                }
                lemma_in_page(s.addr + k, q, t);
            }
            assert(page_of(s.addr + k) == page_of(a));
            assert(frame_of(pt, m0, s.addr + k) == frame_of(pt, m0, a));
            assert(s.addr <= s.addr + k < s.addr + s.size);
            assert(b == frame_of(pt, m0, s.addr + k) + (s.addr + k) % 4096);
        }
    }
}

/// Copies the bytes of section `s` of `image` to the frames that the pages
/// of its address range translate to, one page at a time (the frames need
/// not be contiguous). The section must fit in the image and its pages must
/// map to distinct frames in memory that are no tables; a missing mapping
/// is fatal.
#[verifier::rlimit(100)]
pub fn copy_section(mem: &mut PhysMemory, pt: &PageTable, image: &Vec<u8>, s: &SectionInfo)
    requires
        old(mem).wf(),
        pt.wf(old(mem)),
        s.addr + s.size <= u64::MAX,
        s.offset + s.size <= image@.len(),
        section_pages_ok(pt, old(mem), *s),
    ensures
        final(mem).wf(),
        final(mem).same_config(old(mem)),
        final(mem).last_index == old(mem).last_index,
        pt.wf(final(mem)),
        pt.tables_agree(old(mem), final(mem)),
        others_kept(pt, old(mem), final(mem), *s),
        section_copied(pt, old(mem), final(mem), image@, *s, s.size as int),
{
    let addr = s.addr;
    let size = s.size;
    let offset = s.offset;
    let n = image.len();
    let len = n as u64;
    let ghost m0 = *mem;
    let ghost h = pt.wf(&m0) && section_pages_ok(pt, &m0, *s);
    assert(h);
    proof {
        reveal(section_copied);
        reveal(others_kept);
    }
    let start = addr & !0xfffu64;
    let end_head = (addr + size) & !0xfffu64;
    let in_page = addr & 0xfff;
    assert(start + in_page == addr && start % 4096 == 0 && in_page < 4096) by (bit_vector)
        requires
            start == addr & !0xfffu64,
            in_page == addr & 0xfff,
    ;
    let ghost e = (addr + size) as u64;
    assert(end_head <= e && end_head % 4096 == 0 && e - end_head < 4096) by (bit_vector)
        requires
            end_head == e & !0xfffu64,
    ;
    assert(start <= end_head) by (nonlinear_arith)
        requires
            start <= addr,
            addr <= e,
            start % 4096 == 0,
            end_head % 4096 == 0,
            e - end_head < 4096,
    ;
    assert((end_head - start) % 4096 == 0);
    let last = (end_head - start) / PAGE_SIZE;
    let total = in_page + size;
    let mut seek = in_page;
    let mut i: u64 = 0;
    while i <= last
        invariant
            mem.wf(),
            mem.same_config(&m0),
            mem.last_index == m0.last_index,
            m0 == *old(mem),
            h == (pt.wf(&m0) && section_pages_ok(pt, &m0, *s)),
            h,
            h ==> pt.tables_agree(&m0, mem),
            addr == s.addr,
            size == s.size,
            offset == s.offset,
            start % 4096 == 0,
            end_head % 4096 == 0,
            start <= end_head,
            start + in_page == addr,
            start + total == addr + size,
            last == (end_head - start) / 4096,
            end_head - start <= total,
            (end_head - start) % 4096 == 0,
            n == image@.len(),
            len == n,
            total < end_head - start + 4096,
            offset + size <= image@.len(),
            total == in_page + size,
            in_page < 4096,
            i <= last + 1,
            in_page <= seek <= total,
            i == 0 ==> seek == in_page,
            1 <= i <= last ==> seek == 4096 * i,
            i == last + 1 ==> seek == total,
            h ==> section_copied(pt, &m0, mem, image@, *s, seek - in_page),
            h ==> others_kept(pt, &m0, mem, *s),
        decreases last + 1 - i,
    {
        assert(start + i * 4096 <= end_head) by (nonlinear_arith)
            requires
                i <= (end_head - start) / 4096,
                start <= end_head,
        ;
        let dest_base = start + i * PAGE_SIZE;
        let ghost a = if i == 0 {
            addr as int
        } else {
            dest_base as int
        };
        proof {
            if h {
                pt.lemma_agree_wf(&m0, mem);
                pt.lemma_agree_translate(&m0, mem);
            }
            assert(page_of(a) == dest_base) by (nonlinear_arith)
                requires
                    a == if i == 0 {
                        addr as int
                    } else {
                        dest_base as int
                    },
                    dest_base == start + i * 4096,
                    start % 4096 == 0,
                    addr == start + in_page,
                    in_page < 4096,
            ;
            assert(addr <= a <= addr + size);
            if h {
                lemma_page_ok(pt, &m0, *s, a);
            }
        }
        proof {
            assert((page_of(a) as u64) == dest_base);
            assert(pt.translate(&m0, dest_base) is Some);
            assert(pt.translate(mem, dest_base) is Some);
        }
        let frame = pt.resolve(mem, &VirtualAddress::new(dest_base)).addr;
        assert(h ==> frame == frame_of(pt, &m0, a));
        let room = PAGE_SIZE - seek % PAGE_SIZE;
        let remaining = total - seek;
        let copy_size = if room < remaining {
            room
        } else {
            remaining
        };
        let dst = frame + seek % PAGE_SIZE;
        let src = offset + (seek - in_page);
        proof {
            if i == 0 {
                if last == 0 {
                    assert(total < 4096);
                } else {
                    assert(4096 <= end_head - start) by (nonlinear_arith)
                        requires
                            last == (end_head - start) / 4096,
                            last >= 1,
                            start <= end_head,
                    ;
                }
            } else {
                assert(seek % 4096 == 0) by (nonlinear_arith)
                    requires
                        seek == 4096 * i,
                ;
                if i < last {
                    assert(4096 * (i + 1) <= end_head - start) by (nonlinear_arith)
                        requires
                            i + 1 <= last,
                            last == (end_head - start) / 4096,
                            start <= end_head,
                    ;
                } else {
                    assert(total < 4096 * (i + 1)) by (nonlinear_arith)
                        requires
                            i == last,
                            last == (end_head - start) / 4096,
                            total < end_head - start + 4096,
                            start <= end_head,
                            (end_head - start) % 4096 == 0,
                    ;
                }
            }
            assert(seek % 4096 + copy_size <= 4096);
        }
        let ghost m1 = *mem;
        copy_bytes(mem, dst, image, src as usize, copy_size as usize);
        proof {
            if h {
                let f = frame_of(pt, &m0, a) as int;
                lemma_page_ok(pt, &m0, *s, a);
                lemma_tables_kept(pt, &m0, &m1, mem, f, dst as int, copy_size as int);
                lemma_bytes_landed(
                    pt,
                    &m0,
                    &m1,
                    mem,
                    image@,
                    *s,
                    a,
                    dst as int,
                    src as int,
                    copy_size as int,
                    seek as int,
                    in_page as int,
                    start as int,
                    i as int,
                );
                lemma_rest_kept(
                    pt,
                    &m0,
                    &m1,
                    mem,
                    *s,
                    a,
                    dst as int,
                    copy_size as int,
                    seek as int,
                    in_page as int,
                    start as int,
                    i as int,
                );
            }
        }
        seek = seek + copy_size;
        i = i + 1;
    }
    proof {
        if h {
            pt.lemma_agree_wf(&m0, mem);
        }
    }
}

} // verus!
