//! Sv39 page tables in mathematical terms.
//!
//! A page table has three levels. The walk starts at level 2 and ends at a leaf on
//! any level: a leaf on level 0 maps a page of 4 KiB, one on level 1 of 2 MiB and
//! one on level 2 of 1 GiB.
use crate::bus::{all_loadable, all_storable, Bus};
use crate::device::{Clint, Plic, Uart, VirtioBlockDisk};
use crate::endian::{le_bytes, le_value};
use vstd::prelude::*;

verus! {

/// What an access is for. It decides which permission of a page is asked for.
#[derive(Clone, Copy, Debug, PartialEq, Eq, Structural)]
pub enum MemoryAccessType {
    Execute,
    Read,
    Write,
    DontCare,
}

/// Size of a page, of a page table, and of the pages that level 0 maps.
pub const PAGE_SIZE: u64 = 0x1000;

/// The address of the page that `address` lies in.
pub open spec fn page_of(address: u64) -> u64 {
    (address - address % PAGE_SIZE) as u64
}

/// The page table index for `v_address` on a level.
pub open spec fn vpn(v_address: u64, level: nat) -> u64 {
    if level == 0 {
        (v_address >> 12) & 0x1ff
    } else if level == 1 {
        (v_address >> 21) & 0x1ff
    } else {
        (v_address >> 30) & 0x1ff
    }
}

/// How many bytes a leaf on a level maps.
pub open spec fn span(level: nat) -> u64 {
    if level == 0 {
        PAGE_SIZE
    } else if level == 1 {
        0x20_0000
    } else {
        0x4000_0000
    }
}

/// The address of the page table entry for `v_address` in the table at page number
/// `table`. It may exceed the address space if `table` does.
pub open spec fn pte_address(table: u64, v_address: u64, level: nat) -> int {
    table * PAGE_SIZE + vpn(v_address, level) * 8
}

/// Whether bit `n` of a page table entry is set.
pub open spec fn bit(pte: u64, n: u64) -> bool {
    (pte >> n) & 1 == 1
}

pub open spec fn is_valid(pte: u64) -> bool {
    bit(pte, 0)
}

pub open spec fn is_readable(pte: u64) -> bool {
    bit(pte, 1)
}

pub open spec fn is_writable(pte: u64) -> bool {
    bit(pte, 2)
}

pub open spec fn is_executable(pte: u64) -> bool {
    bit(pte, 3)
}

pub open spec fn is_accessed(pte: u64) -> bool {
    bit(pte, 6)
}

pub open spec fn is_dirty(pte: u64) -> bool {
    bit(pte, 7)
}

/// The physical page number in a page table entry.
pub open spec fn ppn_of(pte: u64) -> u64 {
    (pte >> 10) & 0xfff_ffff_ffff
}

/// Entries that end a walk with a fault: not valid, or writable but not readable.
pub open spec fn is_broken(pte: u64) -> bool {
    !is_valid(pte) || (is_writable(pte) && !is_readable(pte))
}

/// Entries that point to the table on the next level.
pub open spec fn is_pointer(pte: u64) -> bool {
    !is_broken(pte) && !is_readable(pte) && !is_executable(pte)
}

/// Entries that map a page.
pub open spec fn is_leaf(pte: u64) -> bool {
    !is_broken(pte) && !is_pointer(pte)
}

/// Whether a leaf permits an access.
pub open spec fn permits(pte: u64, access_type: MemoryAccessType) -> bool {
    match access_type {
        MemoryAccessType::Execute => is_executable(pte),
        MemoryAccessType::Read => is_readable(pte),
        MemoryAccessType::Write => is_writable(pte),
        MemoryAccessType::DontCare => true,
    }
}

/// Whether the accessed bit, or for a write the dirty bit, has yet to be set.
pub open spec fn needs_marking(pte: u64, access_type: MemoryAccessType) -> bool {
    !is_accessed(pte) || (access_type == MemoryAccessType::Write && !is_dirty(pte))
}

/// A leaf with the accessed bit set, and for a write the dirty bit too.
pub open spec fn marked(pte: u64, access_type: MemoryAccessType) -> u64 {
    if access_type == MemoryAccessType::Write {
        pte | 0x40 | 0x80
    } else {
        pte | 0x40
    }
}

/// Whether the page that a leaf on a level maps is aligned to its size.
pub open spec fn is_aligned(pte: u64, level: nat) -> bool {
    (ppn_of(pte) * PAGE_SIZE) % (span(level) as int) == 0
}

/// The physical address that a leaf maps `v_address` to, or the fault.
pub open spec fn leaf_translation(
    pte: u64,
    v_address: u64,
    level: nat,
    access_type: MemoryAccessType,
) -> Result<u64, ()> {
    if permits(pte, access_type) && is_aligned(pte, level) {
        Ok((ppn_of(pte) * PAGE_SIZE + v_address % span(level)) as u64)
    } else {
        Err(())
    }
}

impl<C: Clint, P: Plic, U: Uart, D: VirtioBlockDisk> Bus<C, P, U, D> {
    /// The page table entry at a physical address, and the bus after it was loaded.
    pub open spec fn load_pte(self, p_address: u64) -> (u64, Self) {
        let (bytes, bus) = self.load_all(p_address, 8);
        (le_value(bytes) as u64, bus)
    }

    /// The bus after a page table entry was stored at a physical address.
    pub open spec fn store_pte(self, p_address: u64, pte: u64) -> Self {
        self.store_all(p_address, le_bytes(pte as nat, 8))
    }

    /// Walks the page table from the table at page number `table` on `level`: the
    /// physical address of `v_address`, or the fault, and the bus after the walk.
    ///
    /// A leaf is marked as accessed, and for a write as dirty, before its
    /// permissions and its alignment are looked at.
    pub open spec fn walk(
        self,
        v_address: u64,
        level: nat,
        table: u64,
        access_type: MemoryAccessType,
    ) -> (Result<u64, ()>, Self)
        decreases level,
    {
        let at = pte_address(table, v_address, level) as u64;
        let (pte, bus) = self.load_pte(at);
        if is_broken(pte) {
            (Err(()), bus)
        } else if is_pointer(pte) {
            if level == 0 {
                (Err(()), bus)
            } else {
                bus.walk(v_address, (level - 1) as nat, ppn_of(pte), access_type)
            }
        } else {
            (
                leaf_translation(pte, v_address, level, access_type),
                if needs_marking(pte, access_type) {
                    bus.store_pte(at, marked(pte, access_type))
                } else {
                    bus
                },
            )
        }
    }

    /// Whether every page table entry that the walk loads can be loaded, and the one
    /// it marks can be stored.
    pub open spec fn can_walk(
        self,
        v_address: u64,
        level: nat,
        table: u64,
        access_type: MemoryAccessType,
    ) -> bool
        decreases level,
    {
        let at = pte_address(table, v_address, level);
        let (pte, bus) = self.load_pte(at as u64);
        &&& at <= u64::MAX
        &&& all_loadable(self.memory.len(), at as u64, 8)
        &&& is_pointer(pte) && level > 0 ==> bus.can_walk(
            v_address,
            (level - 1) as nat,
            ppn_of(pte),
            access_type,
        )
        &&& is_leaf(pte) && needs_marking(pte, access_type) ==> all_storable(
            self.memory.len(),
            at as u64,
            8,
        )
    }
}

impl<C: Clint, P: Plic, U: Uart, D: VirtioBlockDisk> Bus<C, P, U, D> {
    /// Walks keep the size of main memory, and leave the device tree as it is.
    pub proof fn lemma_walk(
        self,
        v_address: u64,
        level: nat,
        table: u64,
        access_type: MemoryAccessType,
    )
        ensures
            self.walk(v_address, level, table, access_type).1.memory.len()
                == self.memory.len(),
            self.walk(v_address, level, table, access_type).1.dtb == self.dtb,
        decreases level,
    {
        let at = pte_address(table, v_address, level) as u64;
        let (pte, bus) = self.load_pte(at);
        self.lemma_load_all(at, 8);
        bus.lemma_store_all(at, le_bytes(marked(pte, access_type) as nat, 8));
        if is_pointer(pte) && level > 0 {
            bus.lemma_walk(v_address, (level - 1) as nat, ppn_of(pte), access_type);
        }
    }
}

/// A leaf maps addresses below 2^56, and keeps the offset in the page.
pub proof fn lemma_leaf_translation(
    pte: u64,
    v_address: u64,
    level: nat,
    access_type: MemoryAccessType,
)
    ensures
        leaf_translation(pte, v_address, level, access_type) matches Ok(p_address) ==> {
            &&& p_address % PAGE_SIZE == v_address % PAGE_SIZE
            &&& p_address < 0x100_0000_0000_0000
            &&& p_address == ppn_of(pte) * PAGE_SIZE + v_address % span(level)
        },
{
    lemma_field_widths(v_address, level, pte);
    let base = ppn_of(pte) * PAGE_SIZE;
    assert({
        &&& base % 0x1000 == 0 ==> base + 0x1000 <= 0x100_0000_0000_0000
        &&& base % 0x20_0000 == 0 ==> base + 0x20_0000 <= 0x100_0000_0000_0000
        &&& base % 0x4000_0000 == 0 ==> base + 0x4000_0000 <= 0x100_0000_0000_0000
    });
    assert((v_address % 0x20_0000) % 0x1000 == v_address % 0x1000);
    assert((v_address % 0x4000_0000) % 0x1000 == v_address % 0x1000);
}

impl<C: Clint, P: Plic, U: Uart, D: VirtioBlockDisk> Bus<C, P, U, D> {
    /// Walks find addresses below 2^56, and keep the offset in the page.
    pub proof fn lemma_walk_offset(
        self,
        v_address: u64,
        level: nat,
        table: u64,
        access_type: MemoryAccessType,
    )
        ensures
            self.walk(v_address, level, table, access_type).0 matches Ok(p_address) ==> {
                &&& p_address % PAGE_SIZE == v_address % PAGE_SIZE
                &&& p_address < 0x100_0000_0000_0000
            },
        decreases level,
    {
        let at = pte_address(table, v_address, level) as u64;
        let (pte, bus) = self.load_pte(at);
        lemma_leaf_translation(pte, v_address, level, access_type);
        if is_pointer(pte) && level > 0 {
            bus.lemma_walk_offset(v_address, (level - 1) as nat, ppn_of(pte), access_type);
        }
    }
}

/// The page and the offset of an address, taken apart with masks.
pub proof fn lemma_page_masks(address: u64)
    ensures
        address & !0xfffu64 == page_of(address),
        address & 0xfff == address % PAGE_SIZE,
        page_of(address) % PAGE_SIZE == 0,
{
    assert(address & !0xfffu64 == address - address % 0x1000) by (bit_vector);
    assert(address & 0xfff == address % 0x1000) by (bit_vector);
}

/// A page and an offset, put together with a mask.
pub proof fn lemma_join_page(page: u64, address: u64)
    requires
        page % PAGE_SIZE == 0,
    ensures
        page | (address & 0xfff) == page + address % PAGE_SIZE,
{
    assert(page % 0x1000 == 0 ==> page | (address & 0xfff) == page + address % 0x1000)
        by (bit_vector);
}

/// Bits are 0 or 1.
pub proof fn lemma_bits(pte: u64)
    ensures
        forall|n: u64| #[trigger] bit(pte, n) || (pte >> n) & 1 == 0,
        pte & 1 == (pte >> 0) & 1,
{
    assert(forall|n: u64| #[trigger] ((pte >> n) & 1) == 0 || (pte >> n) & 1 == 1)
        by (bit_vector);
    assert(pte & 1 == (pte >> 0) & 1) by (bit_vector);
}

/// Page table indices are 9 bits wide, page numbers in entries 44 bits.
pub proof fn lemma_field_widths(v_address: u64, level: nat, pte: u64)
    ensures
        vpn(v_address, level) <= 0x1ff,
        ppn_of(pte) <= 0xfff_ffff_ffff,
{
    assert((v_address >> 12) & 0x1ff <= 0x1ff) by (bit_vector);
    assert((v_address >> 21) & 0x1ff <= 0x1ff) by (bit_vector);
    assert((v_address >> 30) & 0x1ff <= 0x1ff) by (bit_vector);
    assert((pte >> 10) & 0xfff_ffff_ffff <= 0xfff_ffff_ffff) by (bit_vector);
}

/// The alignment of a leaf and the address it maps to, put together from the parts of
/// its page number.
pub proof fn lemma_leaf_parts(pte: u64, v_address: u64)
    ensures
        ({
            let ppn0 = (pte >> 10) & 0x1ff;
            let ppn1 = (pte >> 19) & 0x1ff;
            let ppn2 = (pte >> 28) & 0x3ff_ffff;
            let vpn0 = vpn(v_address, 0);
            let vpn1 = vpn(v_address, 1);
            let offset = v_address & 0xfff;
            let base = ppn_of(pte) * PAGE_SIZE;
            &&& is_aligned(pte, 0)
            &&& is_aligned(pte, 1) == (ppn0 == 0)
            &&& is_aligned(pte, 2) == (ppn1 == 0 && ppn0 == 0)
            &&& (ppn_of(pte) << 12) | offset == base + v_address % span(0)
            &&& ppn0 == 0 ==> (ppn2 << 30) | (ppn1 << 21) | (vpn0 << 12) | offset == base
                + v_address % span(1)
            &&& ppn1 == 0 && ppn0 == 0 ==> (ppn2 << 30) | (vpn1 << 21) | (vpn0 << 12) | offset
                == base + v_address % span(2)
        }),
{
    lemma_field_widths(v_address, 0, pte);
    let ppn = ppn_of(pte);
    assert((ppn * 0x1000) % 0x1000 == 0);
    assert((ppn << 12) | (v_address & 0xfff) == ppn * 0x1000 + v_address % 0x1000)
        by (bit_vector)
        requires
            ppn <= 0xfff_ffff_ffff,
    ;
    assert(((ppn * 0x1000) % 0x20_0000 == 0) == ((pte >> 10) & 0x1ff == 0)) by (bit_vector)
        requires
            ppn == (pte >> 10) & 0xfff_ffff_ffff,
    ;
    assert(((ppn * 0x1000) % 0x4000_0000 == 0) == ((pte >> 10) & 0x1ff == 0 && (pte >> 19)
        & 0x1ff == 0)) by (bit_vector)
        requires
            ppn == (pte >> 10) & 0xfff_ffff_ffff,
    ;
    assert((pte >> 10) & 0x1ff == 0 ==> (((pte >> 28) & 0x3ff_ffff) << 30) | (((pte >> 19)
        & 0x1ff) << 21) | (((v_address >> 12) & 0x1ff) << 12) | (v_address & 0xfff) == ppn
        * 0x1000 + v_address % 0x20_0000) by (bit_vector)
        requires
            ppn == (pte >> 10) & 0xfff_ffff_ffff,
    ;
    assert((pte >> 10) & 0x1ff == 0 && (pte >> 19) & 0x1ff == 0 ==> (((pte >> 28)
        & 0x3ff_ffff) << 30) | (((v_address >> 21) & 0x1ff) << 21) | (((v_address >> 12)
        & 0x1ff) << 12) | (v_address & 0xfff) == ppn * 0x1000 + v_address % 0x4000_0000)
        by (bit_vector)
        requires
            ppn == (pte >> 10) & 0xfff_ffff_ffff,
    ;
}

/// Addresses in the same page have the same page table indices, and a leaf maps them
/// into the same page.
pub proof fn lemma_same_page(
    first: u64,
    second: u64,
    pte: u64,
    level: nat,
    access_type: MemoryAccessType,
)
    requires
        page_of(first) == page_of(second),
    ensures
        vpn(first, level) == vpn(second, level),
        ({
            let one = leaf_translation(pte, first, level, access_type);
            let two = leaf_translation(pte, second, level, access_type);
            &&& one is Ok == two is Ok
            &&& one is Ok ==> page_of(one->Ok_0) == page_of(two->Ok_0)
        }),
{
    assert(first - first % 0x1000 == second - second % 0x1000 ==> {
        &&& (first >> 12) & 0x1ff == (second >> 12) & 0x1ff
        &&& (first >> 21) & 0x1ff == (second >> 21) & 0x1ff
        &&& (first >> 30) & 0x1ff == (second >> 30) & 0x1ff
        &&& first % 0x20_0000 - first % 0x1000 == second % 0x20_0000 - second % 0x1000
        &&& first % 0x4000_0000 - first % 0x1000 == second % 0x4000_0000 - second % 0x1000
    }) by (bit_vector);
    lemma_leaf_translation(pte, first, level, access_type);
    lemma_leaf_translation(pte, second, level, access_type);
}

impl<C: Clint, P: Plic, U: Uart, D: VirtioBlockDisk> Bus<C, P, U, D> {
    /// Walks for addresses in the same page find the same page, and leave the same
    /// behind.
    pub proof fn lemma_walk_same_page(
        self,
        first: u64,
        second: u64,
        level: nat,
        table: u64,
        access_type: MemoryAccessType,
    )
        requires
            page_of(first) == page_of(second),
        ensures
            ({
                let (one, one_bus) = self.walk(first, level, table, access_type);
                let (two, two_bus) = self.walk(second, level, table, access_type);
                &&& one is Ok == two is Ok
                &&& one is Ok ==> page_of(one->Ok_0) == page_of(two->Ok_0)
                &&& one_bus == two_bus
            }),
            self.can_walk(first, level, table, access_type) == self.can_walk(
                second,
                level,
                table,
                access_type,
            ),
        decreases level,
    {
        let at = pte_address(table, first, level) as u64;
        let (pte, bus) = self.load_pte(at);
        lemma_same_page(first, second, pte, level, access_type);
        if is_pointer(pte) && level > 0 {
            bus.lemma_walk_same_page(
                first,
                second,
                (level - 1) as nat,
                ppn_of(pte),
                access_type,
            );
        }
    }
}

/// The 39 bits of a virtual address that translation looks at.
pub open spec fn low_bits(v_address: u64) -> u64 {
    v_address & 0x7f_ffff_ffff
}

/// Page table indices and what a leaf maps to depend on the low bits of the address
/// alone.
proof fn lemma_same_low_bits(
    first: u64,
    second: u64,
    pte: u64,
    level: nat,
    access_type: MemoryAccessType,
)
    requires
        low_bits(first) == low_bits(second),
    ensures
        vpn(first, level) == vpn(second, level),
        leaf_translation(pte, first, level, access_type) == leaf_translation(
            pte,
            second,
            level,
            access_type,
        ),
{
    assert(first & 0x7f_ffff_ffff == second & 0x7f_ffff_ffff ==> {
        &&& (first >> 12) & 0x1ff == (second >> 12) & 0x1ff
        &&& (first >> 21) & 0x1ff == (second >> 21) & 0x1ff
        &&& (first >> 30) & 0x1ff == (second >> 30) & 0x1ff
        &&& first % 0x1000 == second % 0x1000
        &&& first % 0x20_0000 == second % 0x20_0000
        &&& first % 0x4000_0000 == second % 0x4000_0000
    }) by (bit_vector);
}

impl<C: Clint, P: Plic, U: Uart, D: VirtioBlockDisk> Bus<C, P, U, D> {
    /// Walks depend on the low bits of the address alone.
    pub proof fn lemma_walk_low_bits(
        self,
        first: u64,
        second: u64,
        level: nat,
        table: u64,
        access_type: MemoryAccessType,
    )
        requires
            low_bits(first) == low_bits(second),
        ensures
            self.walk(first, level, table, access_type) == self.walk(
                second,
                level,
                table,
                access_type,
            ),
            self.can_walk(first, level, table, access_type) == self.can_walk(
                second,
                level,
                table,
                access_type,
            ),
        decreases level,
    {
        let at = pte_address(table, first, level) as u64;
        let (pte, bus) = self.load_pte(at);
        lemma_same_low_bits(first, second, pte, level, access_type);
        if is_pointer(pte) && level > 0 {
            bus.lemma_walk_low_bits(
                first,
                second,
                (level - 1) as nat,
                ppn_of(pte),
                access_type,
            );
        }
    }
}

} // verus!
