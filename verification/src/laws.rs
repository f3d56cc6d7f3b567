//! What the memory management unit guarantees across accesses.
use crate::address_map::address_after;
use crate::bus::Bus;
use crate::cpu::{privilege_of, PrivilegeMode};
use crate::device::{Clint, Plic, Uart, VirtioBlockDisk};
use crate::dram::{holds, DRAM_BASE};
use crate::endian::{
    le_bytes, le_value, lemma_bytes_of_low_part, lemma_bytes_of_value, lemma_value_of_bytes,
    lemma_weights, weight,
};
use crate::memory::overwrite;
use crate::model::{fault, in_one_page, AddressingMode, State};
use crate::sv39::{
    is_pointer, low_bits, marked, page_of, ppn_of, pte_address, MemoryAccessType, PAGE_SIZE,
};
use vstd::prelude::*;

verus! {

/// Main memory gives back what was last written to it.
pub proof fn law_memory_reads_back<C: Clint, P: Plic, U: Uart, D: VirtioBlockDisk>(
    bus: Bus<C, P, U, D>,
    p_address: u64,
    bytes: Seq<u8>,
)
    requires
        holds(bus.memory.len(), p_address, bytes.len()),
        p_address + bytes.len() <= 0x1_0000_0000_0000_0000,
    ensures
        bus.store_all(p_address, bytes).load_all(p_address, bytes.len()).0 == bytes,
{
    bus.lemma_store_all_dram(p_address, bytes);
    let after = bus.store_all(p_address, bytes);
    after.lemma_load_all_dram(p_address, bytes.len());
    let offset = p_address - DRAM_BASE;
    assert(after.memory.subrange(offset, offset + bytes.len()) =~= bytes);
}

/// A write to main memory leaves all bytes apart from those written as they were.
pub proof fn law_memory_write_is_local<C: Clint, P: Plic, U: Uart, D: VirtioBlockDisk>(
    bus: Bus<C, P, U, D>,
    p_address: u64,
    bytes: Seq<u8>,
    other: u64,
    width: nat,
)
    requires
        holds(bus.memory.len(), p_address, bytes.len()),
        p_address + bytes.len() <= 0x1_0000_0000_0000_0000,
        holds(bus.memory.len(), other, width),
        other + width <= 0x1_0000_0000_0000_0000,
        other + width <= p_address || p_address + bytes.len() <= other,
    ensures
        bus.store_all(p_address, bytes).load_all(other, width).0 == bus.load_all(
            other,
            width,
        ).0,
{
    bus.lemma_store_all_dram(p_address, bytes);
    let after = bus.store_all(p_address, bytes);
    after.lemma_load_all_dram(other, width);
    bus.lemma_load_all_dram(other, width);
    let offset = other - DRAM_BASE;
    assert(after.memory.subrange(offset, offset + width) =~= bus.memory.subrange(
        offset,
        offset + width,
    ));
}

/// Stores of some bytes and of those behind them are one store of all of them.
pub proof fn law_stores_split<C: Clint, P: Plic, U: Uart, D: VirtioBlockDisk>(
    bus: Bus<C, P, U, D>,
    p_address: u64,
    low: Seq<u8>,
    high: Seq<u8>,
)
    ensures
        bus.store_all(p_address, low + high) == bus.store_all(p_address, low).store_all(
            address_after(p_address, low.len() as int),
            high,
        ),
    decreases high.len(),
{
    if high.len() > 0 {
        law_stores_split(bus, p_address, low, high.drop_last());
        assert((low + high).drop_last() =~= low + high.drop_last());
        lemma_addresses_add_up(p_address, low.len() as int, high.len() - 1);
    } else {
        assert(low + high =~= low);
    }
}

/// Loads of some bytes and of those behind them are one load of all of them.
pub proof fn law_loads_split<C: Clint, P: Plic, U: Uart, D: VirtioBlockDisk>(
    bus: Bus<C, P, U, D>,
    p_address: u64,
    low: nat,
    high: nat,
)
    ensures
        ({
            let (low_bytes, middle) = bus.load_all(p_address, low);
            let (high_bytes, after) = middle.load_all(
                address_after(p_address, low as int),
                high,
            );
            bus.load_all(p_address, low + high) == (low_bytes + high_bytes, after)
        }),
    decreases high,
{
    let (low_bytes, middle) = bus.load_all(p_address, low);
    let next = address_after(p_address, low as int);
    if high > 0 {
        let i = (high - 1) as nat;
        law_loads_split(bus, p_address, low, i);
        lemma_addresses_add_up(p_address, low as int, i as int);
        let (bytes, before) = middle.load_all(next, i);
        let byte = before.load(address_after(next, i as int)).0;
        assert(low_bytes + bytes.push(byte) =~= (low_bytes + bytes).push(byte));
    } else {
        assert(low_bytes + Seq::<u8>::empty() =~= low_bytes);
    }
}

/// The store of a doubleword is the store of its low word followed by that of its high
/// word.
pub proof fn law_doubleword_stores_are_two_words<
    C: Clint,
    P: Plic,
    U: Uart,
    D: VirtioBlockDisk,
>(bus: Bus<C, P, U, D>, p_address: u64, value: u64)
    ensures
        bus.store_all(p_address, le_bytes(value as nat, 8)) == bus.store_all(
            p_address,
            le_bytes(value as nat % 0x1_0000_0000, 4),
        ).store_all(
            address_after(p_address, 4),
            le_bytes(value as nat / 0x1_0000_0000, 4),
        ),
{
    let low = le_bytes(value as nat % 0x1_0000_0000, 4);
    let high = le_bytes(value as nat / 0x1_0000_0000, 4);
    lemma_weights();
    lemma_bytes_of_low_part(value as nat, 4);
    assert(le_bytes(value as nat, 8) =~= low + high) by {
        assert forall|i: int| 0 <= i < 4 implies #[trigger] high[i] == le_bytes(
            value as nat,
            8,
        )[i + 4] by {
            vstd::arithmetic::div_mod::lemma_div_denominator(
                value as int,
                0x1_0000_0000,
                weight(i) as int,
            );
            assert(weight(i + 4) == 0x1_0000_0000 * weight(i));
        }
    }
    law_stores_split(bus, p_address, low, high);
}

/// Going on from an address that was reached already.
proof fn lemma_addresses_add_up(address: u64, i: int, j: int)
    ensures
        address_after(address_after(address, i), j) == address_after(address, i + j),
{
    vstd::arithmetic::div_mod::lemma_add_mod_noop_right(
        j,
        address + i,
        0x1_0000_0000_0000_0000,
    );
    vstd::arithmetic::div_mod::lemma_mod_twice(j, 0x1_0000_0000_0000_0000);
}

/// A number written to memory and read back in the same width is the same number.
pub proof fn law_numbers_read_back(contents: Seq<u8>, at: int, value: nat, width: nat)
    requires
        0 <= at,
        at + width <= contents.len(),
        value < weight(width as int),
    ensures
        le_value(
            overwrite(contents, at, le_bytes(value, width)).subrange(at, at + width),
        ) == value,
{
    let written = overwrite(contents, at, le_bytes(value, width));
    assert(written.subrange(at, at + width) =~= le_bytes(value, width));
    lemma_value_of_bytes(value, width);
    vstd::arithmetic::div_mod::lemma_small_mod(value, weight(width as int));
}

/// Translation keeps the offset in the page.
pub proof fn law_translation_keeps_offset<C: Clint, P: Plic, U: Uart, D: VirtioBlockDisk>(
    state: State<C, P, U, D>,
    v_address: u64,
    access_type: MemoryAccessType,
)
    requires
        state.is_well_formed(),
        state.can_translate(v_address, access_type),
    ensures
        state.translate(v_address, access_type).0 matches Ok(p_address) ==> p_address
            % PAGE_SIZE == v_address % PAGE_SIZE,
{
    state.lemma_translate(v_address, access_type);
}

/// Translation changes no register of the memory management unit. In particular, an
/// access in a borrowed privilege mode leaves the current one in place.
pub proof fn law_translation_keeps_registers<C: Clint, P: Plic, U: Uart, D: VirtioBlockDisk>(
    state: State<C, P, U, D>,
    v_address: u64,
    access_type: MemoryAccessType,
)
    ensures
        ({
            let after = state.translate(v_address, access_type).1;
            &&& after.clock == state.clock
            &&& after.ppn == state.ppn
            &&& after.addressing_mode == state.addressing_mode
            &&& after.privilege_mode == state.privilege_mode
            &&& after.mstatus == state.mstatus
            &&& after.page_cache_enabled == state.page_cache_enabled
        }),
{
}

/// Virtual addresses are physical addresses in bare mode, in the reserved privilege
/// mode, and for fetches in machine mode, whether or not pages are cached.
pub proof fn law_unpaged_addresses_are_physical<C: Clint, P: Plic, U: Uart, D: VirtioBlockDisk>(
    state: State<C, P, U, D>,
    v_address: u64,
    access_type: MemoryAccessType,
)
    requires
        state.is_well_formed(),
        state.addressing_mode != AddressingMode::SV48,
        state.addressing_mode == AddressingMode::Bare || state.privilege_mode
            == PrivilegeMode::Reserved || (state.privilege_mode == PrivilegeMode::Machine
            && access_type == MemoryAccessType::Execute),
    ensures
        state.can_translate(v_address, access_type),
        state.translate(v_address, access_type).0 == Ok::<u64, ()>(v_address),
        state.translate(v_address, access_type).1.bus == state.bus,
{
}

/// In machine mode virtual addresses are physical addresses, unless `mstatus` lends
/// another privilege mode to the access or the page was cached while it did.
pub proof fn law_machine_addresses_are_physical<C: Clint, P: Plic, U: Uart, D: VirtioBlockDisk>(
    state: State<C, P, U, D>,
    v_address: u64,
    access_type: MemoryAccessType,
)
    requires
        state.is_well_formed(),
        state.addressing_mode != AddressingMode::SV48,
        state.privilege_mode == PrivilegeMode::Machine,
        !state.borrows_privilege(access_type),
        !state.is_cached(v_address, access_type),
    ensures
        state.can_translate(v_address, access_type),
        state.translate(v_address, access_type).0 == Ok::<u64, ()>(v_address),
        state.translate(v_address, access_type).1.bus == state.bus,
{
}

/// In machine mode, an access to which `mstatus` lends another privilege mode is translated
/// as in that mode itself with empty page caches, and machine mode is back afterwards.
pub proof fn law_borrowed_privilege_translates_alike<
    C: Clint,
    P: Plic,
    U: Uart,
    D: VirtioBlockDisk,
>(state: State<C, P, U, D>, v_address: u64, access_type: MemoryAccessType)
    requires
        state.is_well_formed(),
        state.addressing_mode == AddressingMode::SV39,
        state.borrows_privilege(access_type),
        !state.is_cached(v_address, access_type),
    ensures
        ({
            let lent = privilege_of((state.mstatus >> 11) & 3);
            let itself = State { privilege_mode: lent, ..state.cleared() };
            let (result, after) = state.translate(v_address, access_type);
            let (expected, there) = itself.translate(v_address, access_type);
            &&& state.can_translate(v_address, access_type) == itself.can_translate(
                v_address,
                access_type,
            )
            &&& result == expected
            &&& after == State { privilege_mode: PrivilegeMode::Machine, ..there }
            &&& !state.page_cache_enabled ==> itself == State { privilege_mode: lent, ..state }
        }),
{
    let lent = privilege_of((state.mstatus >> 11) & 3);
    let itself = State { privilege_mode: lent, ..state.cleared() };
    let (result, after) = state.translate(v_address, access_type);
    let there = itself.translate(v_address, access_type).1;
    assert(itself.is_paged(access_type) == state.is_paged(access_type));
    assert(after =~= State { privilege_mode: PrivilegeMode::Machine, ..there });
    if !state.page_cache_enabled {
        assert(itself =~= State { privilege_mode: lent, ..state });
    }
}

/// Where page tables are walked, the privilege mode and the address bits above the 39 low
/// ones play no part: user and supervisor mode translate alike.
pub proof fn law_paged_modes_translate_alike<C: Clint, P: Plic, U: Uart, D: VirtioBlockDisk>(
    one: State<C, P, U, D>,
    two: State<C, P, U, D>,
    first: u64,
    second: u64,
    access_type: MemoryAccessType,
)
    requires
        one.bus == two.bus,
        one.ppn == two.ppn,
        one.is_paged(access_type),
        two.is_paged(access_type),
        !one.is_cached(first, access_type),
        !two.is_cached(second, access_type),
        low_bits(first) == low_bits(second),
    ensures
        one.translate(first, access_type).0 == two.translate(second, access_type).0,
        one.translate(first, access_type).1.bus == two.translate(second, access_type).1.bus,
        one.can_translate(first, access_type) == two.can_translate(second, access_type),
{
    one.bus.lemma_walk_low_bits(first, second, 2, one.ppn, access_type);
}

/// A fault puts no page into a page cache.
pub proof fn law_faults_are_not_cached<C: Clint, P: Plic, U: Uart, D: VirtioBlockDisk>(
    state: State<C, P, U, D>,
    v_address: u64,
    access_type: MemoryAccessType,
    other: MemoryAccessType,
)
    requires
        state.translate(v_address, access_type).0 is Err,
    ensures
        ({
            let after = state.translate(v_address, access_type).1;
            after.cache(other) == state.cache(other) || after.cache(other) == Map::<
                u64,
                u64,
            >::empty()
        }),
{
}

/// A page table entry that points on fails on the last level and leaves the bus as it is.
/// On the levels before, the walk is that of the table it points to: the pointer itself is
/// not marked.
pub proof fn law_pointers_are_followed<C: Clint, P: Plic, U: Uart, D: VirtioBlockDisk>(
    bus: Bus<C, P, U, D>,
    v_address: u64,
    level: nat,
    table: u64,
    access_type: MemoryAccessType,
)
    requires
        bus.has_entry(pte_address(table, v_address, level)),
        is_pointer(bus.entry(pte_address(table, v_address, level))),
    ensures
        ({
            let next = ppn_of(bus.entry(pte_address(table, v_address, level)));
            bus.walk(v_address, level, table, access_type) == (if level == 0 {
                (Err::<u64, ()>(()), bus)
            } else {
                bus.walk(v_address, (level - 1) as nat, next, access_type)
            })
        }),
{
    bus.lemma_load_table_entry(v_address, level, table);
}

/// Addresses in the same page are translated alike: both fault or both are found in
/// the same physical page, and the state afterwards is the same. This is what makes
/// it sound to cache pages.
#[verifier::rlimit(50)]
pub proof fn law_pages_are_translated_alike<C: Clint, P: Plic, U: Uart, D: VirtioBlockDisk>(
    state: State<C, P, U, D>,
    first: u64,
    second: u64,
    access_type: MemoryAccessType,
)
    requires
        state.is_well_formed(),
        page_of(first) == page_of(second),
    ensures
        state.can_translate(first, access_type) == state.can_translate(second, access_type),
        ({
            let (one, one_state) = state.translate(first, access_type);
            let (two, two_state) = state.translate(second, access_type);
            &&& one is Ok == two is Ok
            &&& one is Ok ==> page_of(one->Ok_0) == page_of(two->Ok_0)
            &&& one_state == two_state
        }),
{
    state.bus.lemma_walk_same_page(first, second, 2, state.ppn, access_type);
}

/// Once a page was found and the page cache is enabled, the page is used for all
/// addresses in it as long as the cache is not cleared, without another look at the
/// page tables.
pub proof fn law_cached_pages_are_reused<C: Clint, P: Plic, U: Uart, D: VirtioBlockDisk>(
    state: State<C, P, U, D>,
    v_address: u64,
    access_type: MemoryAccessType,
    later: State<C, P, U, D>,
    other: u64,
)
    requires
        state.is_well_formed(),
        state.can_translate(v_address, access_type),
        state.page_cache_enabled,
        access_type != MemoryAccessType::DontCare,
        state.translate(v_address, access_type).0 is Ok,
        later.page_cache_enabled,
        later.cache(access_type) == state.translate(v_address, access_type).1.cache(
            access_type,
        ),
        page_of(other) == page_of(v_address),
    ensures
        ({
            let p_address = state.translate(v_address, access_type).0->Ok_0;
            later.translate(other, access_type) == (
                Ok::<u64, ()>((page_of(p_address) + other % PAGE_SIZE) as u64),
                later,
            )
        }),
{
    state.lemma_translate(v_address, access_type);
}

/// Whether the page cache is enabled does not matter for a page that is not in it.
pub proof fn law_caching_changes_no_translation<C: Clint, P: Plic, U: Uart, D: VirtioBlockDisk>(
    state: State<C, P, U, D>,
    v_address: u64,
    access_type: MemoryAccessType,
)
    requires
        !state.is_cached(v_address, access_type),
    ensures
        ({
            let uncaching = State { page_cache_enabled: false, ..state.cleared() };
            &&& uncaching.translate(v_address, access_type).0 == state.translate(
                v_address,
                access_type,
            ).0
            &&& uncaching.translate(v_address, access_type).1.bus == state.translate(
                v_address,
                access_type,
            ).1.bus
            &&& uncaching.can_translate(v_address, access_type) == state.can_translate(
                v_address,
                access_type,
            )
        }),
{
}

/// A cycle advances the clock by one, and changes no register, no page cache, not the
/// device tree and not the size of main memory.
pub proof fn law_tick_keeps_registers<C: Clint, P: Plic, U: Uart, D: VirtioBlockDisk>(
    state: State<C, P, U, D>,
    mip: u64,
    next: State<C, P, U, D>,
    next_mip: u64,
)
    requires
        state.is_well_formed(),
        state.may_tick_to(mip, next, next_mip),
    ensures
        next == (State { bus: next.bus, clock: next.clock, ..state }),
        next.clock == (state.clock + 1) % 0x1_0000_0000_0000_0000,
        next.bus.dtb == state.bus.dtb,
        next.bus.memory.len() == state.bus.memory.len(),
        next.is_well_formed(),
{
}

/// A failed load raises the exception that goes with the access, and names the address
/// of the byte that failed.
pub proof fn law_load_fault_names_address<C: Clint, P: Plic, U: Uart, D: VirtioBlockDisk>(
    state: State<C, P, U, D>,
    access_type: MemoryAccessType,
    v_address: u64,
    width: nat,
)
    requires
        0 < width,
    ensures
        state.load(access_type, v_address, width).0 matches Err(trap) ==> exists|i: int|
            0 <= i < width && trap == fault(
                access_type,
                #[trigger] address_after(v_address, i),
            ),
{
    assert(address_after(v_address, 0) == v_address);
    if !in_one_page(v_address, width) {
        lemma_load_each_fault(state, access_type, v_address, width);
    }
}

proof fn lemma_load_each_fault<C: Clint, P: Plic, U: Uart, D: VirtioBlockDisk>(
    state: State<C, P, U, D>,
    access_type: MemoryAccessType,
    v_address: u64,
    width: nat,
)
    ensures
        state.load_each(access_type, v_address, width).0 matches Err(trap) ==> exists|i: int|
            0 <= i < width && trap == fault(
                access_type,
                #[trigger] address_after(v_address, i),
            ),
    decreases width,
{
    if width > 0 {
        lemma_load_each_fault(state, access_type, v_address, (width - 1) as nat);
    }
}

/// A failed store raises the exception for stores, and names the address of the byte
/// that failed.
pub proof fn law_store_fault_names_address<C: Clint, P: Plic, U: Uart, D: VirtioBlockDisk>(
    state: State<C, P, U, D>,
    v_address: u64,
    bytes: Seq<u8>,
)
    requires
        0 < bytes.len(),
    ensures
        state.store(v_address, bytes).0 matches Err(trap) ==> exists|i: int|
            0 <= i < bytes.len() && trap == fault(
                MemoryAccessType::Write,
                #[trigger] address_after(v_address, i),
            ),
{
    assert(address_after(v_address, 0) == v_address);
    if !in_one_page(v_address, bytes.len()) {
        lemma_store_each_fault(state, v_address, bytes);
    }
}

proof fn lemma_store_each_fault<C: Clint, P: Plic, U: Uart, D: VirtioBlockDisk>(
    state: State<C, P, U, D>,
    v_address: u64,
    bytes: Seq<u8>,
)
    ensures
        state.store_each(v_address, bytes).0 matches Err(trap) ==> exists|i: int|
            0 <= i < bytes.len() && trap == fault(
                MemoryAccessType::Write,
                #[trigger] address_after(v_address, i),
            ),
    decreases bytes.len(),
{
    if bytes.len() > 0 {
        lemma_store_each_fault(state, v_address, bytes.drop_last());
    }
}

impl<C: Clint, P: Plic, U: Uart, D: VirtioBlockDisk> State<C, P, U, D> {
    /// Whether the page tables that the translation of `v_address` looks at, if it
    /// looks at any, lie in main memory or in the device tree.
    pub open spec fn translates_in_memory(
        self,
        v_address: u64,
        access_type: MemoryAccessType,
    ) -> bool {
        !self.is_cached(v_address, access_type) && self.is_paged(access_type)
            ==> self.bus.tables_in_memory(v_address, 2, self.ppn)
    }

    /// Whether the page tables that the translation of `v_address` looks at, if it
    /// looks at any, have no byte in common with the given ones.
    pub open spec fn translates_apart_from(
        self,
        v_address: u64,
        access_type: MemoryAccessType,
        p_address: u64,
        width: nat,
    ) -> bool {
        !self.is_cached(v_address, access_type) && self.is_paged(access_type)
            ==> self.bus.tables_avoid(v_address, 2, self.ppn, p_address, width)
    }
}

/// Whether `after` is `before` or `before` with an accessed or a dirty bit set.
pub open spec fn differs_by_marks(before: u8, after: u8) -> bool {
    after == before || after == before | 0x40 || after == before | 0xc0
}

/// Translation changes nothing on the bus but the accessed and the dirty bit of the leaf
/// that it ends at, and it never clears them. So at most one aligned doubleword of main
/// memory changes, to what it was with the accessed bit set, and for a write the dirty bit
/// too.
pub proof fn law_translation_only_sets_marks<C: Clint, P: Plic, U: Uart, D: VirtioBlockDisk>(
    state: State<C, P, U, D>,
    v_address: u64,
    access_type: MemoryAccessType,
)
    requires
        state.translates_in_memory(v_address, access_type),
    ensures
        ({
            let after = state.translate(v_address, access_type).1.bus;
            let looks = !state.is_cached(v_address, access_type) && state.is_paged(access_type);
            &&& match state.bus.leaf(v_address, 2, state.ppn) {
                Some((at, level)) if looks => {
                    &&& at % 8 == 0
                    &&& state.bus.has_entry(at)
                    &&& after == state.bus.with_mark(at, access_type)
                    &&& after.entry(at) == state.bus.entry(at) || after.entry(at) == marked(
                        state.bus.entry(at),
                        access_type,
                    )
                },
                _ => after == state.bus,
            }
            &&& after == Bus { memory: after.memory, ..state.bus }
            &&& after.memory.len() == state.bus.memory.len()
            &&& forall|i: int|
                0 <= i < after.memory.len() ==> differs_by_marks(
                    state.bus.memory[i],
                    #[trigger] after.memory[i],
                )
        }),
{
    if !state.is_cached(v_address, access_type) && state.is_paged(access_type) {
        state.bus.lemma_walk_in_memory(v_address, 2, state.ppn, access_type);
        match state.bus.leaf(v_address, 2, state.ppn) {
            Some((at, level)) => {
                if DRAM_BASE <= at {
                    lemma_mark_bytes(state.bus, at, access_type);
                }
            },
            None => {},
        }
    }
}

/// Marking a leaf only sets bits of its first byte.
proof fn lemma_mark_bytes<C: Clint, P: Plic, U: Uart, D: VirtioBlockDisk>(
    bus: Bus<C, P, U, D>,
    at: int,
    access_type: MemoryAccessType,
)
    requires
        0 <= at <= u64::MAX,
        holds(bus.memory.len(), at as u64, 8),
    ensures
        ({
            let after = bus.with_mark(at, access_type).memory;
            &&& bus.with_mark(at, access_type).entry(at) == bus.entry(at) || bus.with_mark(
                at,
                access_type,
            ).entry(at) == marked(bus.entry(at), access_type)
            &&& after.len() == bus.memory.len()
            &&& forall|i: int|
                0 <= i < after.len() ==> differs_by_marks(bus.memory[i], #[trigger] after[i])
        }),
{
    let pte = bus.entry(at);
    let offset = at - DRAM_BASE;
    let bytes = bus.memory.subrange(offset, offset + 8);
    let new_pte = marked(pte, access_type);
    let new_bytes = le_bytes(new_pte as nat, 8);
    lemma_weights();
    crate::endian::lemma_le_value_bound(bytes);
    lemma_bytes_of_value(bytes);
    assert(le_bytes(pte as nat, 8) == bytes);
    lemma_value_of_bytes(new_pte as nat, 8);
    assert(overwrite(bus.memory, offset, new_bytes).subrange(offset, offset + 8) =~= new_bytes);
    assert forall|i: int| 0 <= i < 8 implies differs_by_marks(
        bytes[i],
        #[trigger] new_bytes[i],
    ) by {
        let low = (pte % 0x100) as u8;
        assert(bytes[i] == le_bytes(pte as nat, 8)[i]);
        assert((pte | 0x40) % 0x100 == ((pte % 0x100) as u8 | 0x40u8) as u64) by (bit_vector);
        assert((pte | 0x40 | 0x80) % 0x100 == ((pte % 0x100) as u8 | 0xc0u8) as u64)
            by (bit_vector);
        assert((pte | 0x40) / 0x100 == pte / 0x100) by (bit_vector);
        assert((pte | 0x40 | 0x80) / 0x100 == pte / 0x100) by (bit_vector);
        if i > 0 {
            let w = weight(i - 1);
            crate::endian::lemma_weight_step(i - 1);
            vstd::arithmetic::div_mod::lemma_div_denominator(pte as int, 0x100, w as int);
            vstd::arithmetic::div_mod::lemma_div_denominator(new_pte as int, 0x100, w as int);
            assert(pte as nat / weight(i) == pte as nat / 0x100 / w);
            assert(new_pte as nat / weight(i) == new_pte as nat / 0x100 / w);
            assert(bytes[i] == new_bytes[i]);
        } else {
            assert(pte as nat / weight(0) == pte as nat / 1);
            assert(new_pte as nat / weight(0) == new_pte as nat / 1);
            assert(bytes[0] == low);
            assert(new_bytes[0] == (new_pte % 0x100) as u8);
        }
    }
    assert forall|i: int|
        0 <= i < bus.memory.len() implies differs_by_marks(
        bus.memory[i],
        #[trigger] bus.with_mark(at, access_type).memory[i],
    ) by {
        if offset <= i < offset + 8 {
            assert(bytes[i - offset] == bus.memory[i]);
            assert(differs_by_marks(bytes[i - offset], new_bytes[i - offset]));
        }
    }
}

/// A translation that is made again has the same result, and changes nothing more.
/// The same holds of any other address in the page.
#[verifier::rlimit(50)]
pub proof fn law_translation_is_stable<C: Clint, P: Plic, U: Uart, D: VirtioBlockDisk>(
    state: State<C, P, U, D>,
    v_address: u64,
    other: u64,
    access_type: MemoryAccessType,
)
    requires
        state.is_well_formed(),
        state.can_translate(v_address, access_type),
        state.translates_in_memory(v_address, access_type),
        page_of(other) == page_of(v_address),
    ensures
        ({
            let (result, after) = state.translate(v_address, access_type);
            let (again, again_after) = after.translate(other, access_type);
            &&& after.can_translate(other, access_type)
            &&& again_after == after
            &&& again is Ok == result is Ok
            &&& again is Ok ==> again->Ok_0 == page_of(result->Ok_0) + other % PAGE_SIZE
        }),
{
    let (result, after) = state.translate(v_address, access_type);
    state.lemma_translate(v_address, access_type);
    lemma_translate_again(state, v_address, access_type);
    law_pages_are_translated_alike(after, v_address, other, access_type);
    after.lemma_translate(v_address, access_type);
    after.lemma_translate(other, access_type);
}

/// A translation that is made again.
proof fn lemma_translate_again<C: Clint, P: Plic, U: Uart, D: VirtioBlockDisk>(
    state: State<C, P, U, D>,
    v_address: u64,
    access_type: MemoryAccessType,
)
    requires
        state.is_well_formed(),
        state.can_translate(v_address, access_type),
        state.translates_in_memory(v_address, access_type),
    ensures
        ({
            let (result, after) = state.translate(v_address, access_type);
            &&& after.can_translate(v_address, access_type)
            &&& after.translate(v_address, access_type).1 == after
            &&& after.translate(v_address, access_type).0 is Ok == result is Ok
            &&& result is Ok ==> page_of(
                after.translate(v_address, access_type).0->Ok_0,
            ) == page_of(result->Ok_0)
        }),
{
    let (result, after) = state.translate(v_address, access_type);
    state.lemma_translate(v_address, access_type);
    if !state.is_cached(v_address, access_type) && state.is_paged(access_type) {
        state.bus.lemma_walk_again(v_address, 2, state.ppn, access_type);
        state.bus.lemma_walk_in_memory(v_address, 2, state.ppn, access_type);
        after.bus.lemma_walk_in_memory(v_address, 2, state.ppn, access_type);
    }
    assert(after.translate(v_address, access_type).1 =~= after);
}

/// A page that goes into the page cache agrees with the page tables: as long as nothing
/// else happens, every address in it is translated as it would be without page caches.
pub proof fn law_cached_pages_agree_with_tables<
    C: Clint,
    P: Plic,
    U: Uart,
    D: VirtioBlockDisk,
>(state: State<C, P, U, D>, v_address: u64, other: u64, access_type: MemoryAccessType)
    requires
        state.is_well_formed(),
        !state.is_cached(v_address, access_type),
        state.can_translate(v_address, access_type),
        state.translates_in_memory(v_address, access_type),
        page_of(other) == page_of(v_address),
    ensures
        ({
            let after = state.translate(v_address, access_type).1;
            let uncaching = State { page_cache_enabled: false, ..after.cleared() };
            &&& uncaching.can_translate(other, access_type)
            &&& uncaching.translate(other, access_type).0 == after.translate(
                other,
                access_type,
            ).0
            &&& uncaching.translate(other, access_type).1.bus == after.bus
        }),
{
    let after = state.translate(v_address, access_type).1;
    let uncaching = State { page_cache_enabled: false, ..after.cleared() };
    let before = State { page_cache_enabled: false, ..state.cleared() };
    law_caching_changes_no_translation(state, v_address, access_type);
    assert(before.translate(v_address, access_type).1 =~= uncaching);
    law_translation_is_stable(state, v_address, other, access_type);
    law_translation_is_stable(before, v_address, other, access_type);
    let one = after.translate(other, access_type).0;
    let two = uncaching.translate(other, access_type).0;
    if let Err(nothing) = one {
        assert(nothing == ());
    }
    if let Err(nothing) = two {
        assert(nothing == ());
    }
}

/// Accesses agree on where a page is. One that asks for no permission finds it wherever
/// another did, a page that was found for a write is found for a read, and neither changes
/// anything more.
pub proof fn law_accesses_agree<C: Clint, P: Plic, U: Uart, D: VirtioBlockDisk>(
    state: State<C, P, U, D>,
    v_address: u64,
    access_type: MemoryAccessType,
    other: MemoryAccessType,
)
    requires
        state.is_well_formed(),
        access_type != other,
        state.can_translate(v_address, access_type),
        state.translates_in_memory(v_address, access_type),
        !state.is_cached(v_address, access_type),
        !state.is_cached(v_address, other),
        state.is_paged(access_type) == state.is_paged(other),
        state.translate(v_address, access_type).0 is Ok,
    ensures
        ({
            let (result, after) = state.translate(v_address, access_type);
            let (again, again_after) = after.translate(v_address, other);
            &&& again is Ok ==> again == result
            &&& other == MemoryAccessType::DontCare || (access_type == MemoryAccessType::Write
                && other == MemoryAccessType::Read) ==> {
                &&& after.can_translate(v_address, other)
                &&& again == result
                &&& again_after.bus == after.bus
            }
        }),
{
    let (result, after) = state.translate(v_address, access_type);
    if state.is_paged(access_type) {
        let bus = state.bus;
        bus.lemma_walk_in_memory(v_address, 2, state.ppn, access_type);
        if let Some((at, level)) = bus.leaf(v_address, 2, state.ppn) {
            bus.lemma_mark_keeps_tables(at, access_type, v_address, 2, state.ppn, 0, 0);
            bus.lemma_marked_leaf(at, access_type);
        }
        after.bus.lemma_walk_in_memory(v_address, 2, state.ppn, other);
    }
}

/// A page that was found for a write is found for a read too, and the read changes
/// nothing more.
pub proof fn law_written_pages_can_be_read<C: Clint, P: Plic, U: Uart, D: VirtioBlockDisk>(
    state: State<C, P, U, D>,
    v_address: u64,
)
    requires
        state.is_well_formed(),
        state.can_translate(v_address, MemoryAccessType::Write),
        state.translates_in_memory(v_address, MemoryAccessType::Write),
        !state.is_cached(v_address, MemoryAccessType::Write),
        !state.is_cached(v_address, MemoryAccessType::Read),
        state.translate(v_address, MemoryAccessType::Write).0 is Ok,
    ensures
        ({
            let (result, after) = state.translate(v_address, MemoryAccessType::Write);
            &&& after.can_translate(v_address, MemoryAccessType::Read)
            &&& after.translate(v_address, MemoryAccessType::Read).0 == result
            &&& after.translate(v_address, MemoryAccessType::Read).1.bus == after.bus
        }),
{
    law_accesses_agree(state, v_address, MemoryAccessType::Write, MemoryAccessType::Read);
}

} // verus!
