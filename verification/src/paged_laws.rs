//! What loads give back of stores through page tables.
use crate::access_laws::{
    law_page_loads_are_bytewise, law_page_stores_are_bytewise, lemma_within_page,
};
use crate::address_map::{address_after, lemma_offsets_differ};
use crate::bus::{all_storable, loadable, storable, Bus};
use crate::cpu::Trap;
use crate::device::{Clint, Plic, Uart, VirtioBlockDisk};
use crate::dram::{holds, DRAM_BASE};
use crate::memory::overwrite;
use crate::model::{in_one_page, State};
use crate::sv39::{
    is_pointer, lemma_leaf_translation, needs_marking, page_of, ppn_of, pte_address,
    MemoryAccessType, PAGE_SIZE,
};
use vstd::prelude::*;

verus! {

impl<C: Clint, P: Plic, U: Uart, D: VirtioBlockDisk> Bus<C, P, U, D> {
    /// Whether the page tables from the root `table` on map the bytes from `v_address`
    /// on for writing to the physical addresses `targets` in main memory, where the page
    /// tables lie in main memory apart from the targets, or in the device tree with leaves
    /// that need no marks.
    pub open spec fn maps_apart(self, table: u64, v_address: u64, targets: Seq<u64>) -> bool {
        &&& forall|i: int|
            0 <= i < targets.len() ==> self.tables_in_memory(
                #[trigger] address_after(v_address, i),
                2,
                table,
            )
        &&& forall|i: int|
            0 <= i < targets.len() ==> self.mapped(
                #[trigger] address_after(v_address, i),
                2,
                table,
                MemoryAccessType::Write,
            ) == Ok::<u64, ()>(targets[i])
        &&& forall|i: int|
            0 <= i < targets.len() ==> self.leaf_is_markable(
                #[trigger] address_after(v_address, i),
                2,
                table,
                MemoryAccessType::Write,
            )
        &&& forall|i: int|
            0 <= i < targets.len() ==> holds(self.memory.len(), #[trigger] targets[i], 1)
        &&& forall|i: int, j: int|
            0 <= i < targets.len() && 0 <= j < targets.len() ==> self.tables_avoid(
                #[trigger] address_after(v_address, i),
                2,
                table,
                #[trigger] targets[j],
                1,
            )
    }

    /// Whether the leaf for `v_address` needs no further marks.
    pub open spec fn is_settled(self, table: u64, v_address: u64) -> bool {
        self.leaf(v_address, 2, table) matches Some((at, level)) ==> !needs_marking(
            self.entry(at),
            MemoryAccessType::Write,
        )
    }

    /// A walk keeps what is mapped apart, and the bytes there. It changes nothing where no
    /// marks are needed, and one for a write leaves it so.
    proof fn lemma_walk_keeps_targets(
        self,
        table: u64,
        v_address: u64,
        targets: Seq<u64>,
        k: int,
        access_type: MemoryAccessType,
    )
        requires
            self.maps_apart(table, v_address, targets),
            0 <= k < targets.len(),
            access_type == MemoryAccessType::Read || access_type == MemoryAccessType::Write,
        ensures
            ({
                let walked = address_after(v_address, k);
                let after = self.walk(walked, 2, table, access_type).1;
                &&& self.can_walk(walked, 2, table, access_type)
                &&& self.walk(walked, 2, table, access_type).0 == self.mapped(
                    walked,
                    2,
                    table,
                    access_type,
                )
                &&& after == Bus { memory: after.memory, ..self }
                &&& after.memory.len() == self.memory.len()
                &&& after.maps_apart(table, v_address, targets)
                &&& forall|j: int|
                    0 <= j < targets.len() ==> after.memory[#[trigger] targets[j] - DRAM_BASE]
                        == self.memory[targets[j] - DRAM_BASE]
                &&& access_type == MemoryAccessType::Write ==> after.is_settled(table, walked)
                &&& self.is_settled(table, walked) ==> after == self
                &&& forall|i: int|
                    0 <= i < targets.len() && self.is_settled(
                        table,
                        #[trigger] address_after(v_address, i),
                    ) ==> after.is_settled(table, address_after(v_address, i))
            }),
    {
        let walked = address_after(v_address, k);
        self.lemma_walk_in_memory(walked, 2, table, access_type);
        match self.leaf(walked, 2, table) {
            Some((at, level)) => {
                let after = self.with_mark(at, access_type);
                assert forall|i: int, j: int|
                    0 <= i < targets.len() && 0 <= j < targets.len() implies {
                    let v = #[trigger] address_after(v_address, i);
                    &&& after.tables_in_memory(v, 2, table)
                    &&& after.mapped(v, 2, table, MemoryAccessType::Write) == self.mapped(
                        v,
                        2,
                        table,
                        MemoryAccessType::Write,
                    )
                    &&& after.leaf_is_markable(v, 2, table, MemoryAccessType::Write)
                    &&& self.is_settled(table, v) ==> after.is_settled(table, v)
                    &&& after.tables_avoid(v, 2, table, #[trigger] targets[j], 1)
                } by {
                    let v = address_after(v_address, i);
                    self.lemma_mark_keeps_tables(at, access_type, v, 2, table, targets[j], 1);
                }
                assert(targets[0] == targets[0]);
                self.lemma_marked_leaf(at, access_type);
                assert(after.leaf(walked, 2, table) == self.leaf(walked, 2, table)) by {
                    self.lemma_mark_keeps_tables(at, access_type, walked, 2, table, 0, 0);
                }
                assert forall|j: int| 0 <= j < targets.len() implies after.memory[#[trigger]
                    targets[j] - DRAM_BASE] == self.memory[targets[j] - DRAM_BASE] by {
                    assert(self.tables_avoid(walked, 2, table, targets[j], 1));
                    self.lemma_leaf_avoids(walked, 2, table, targets[j], 1);
                }
            },
            None => {},
        }
    }

    /// A write to one of the targets keeps what is mapped apart.
    proof fn lemma_write_keeps_targets(
        self,
        table: u64,
        v_address: u64,
        targets: Seq<u64>,
        k: int,
        byte: u8,
    )
        requires
            self.maps_apart(table, v_address, targets),
            0 <= k < targets.len(),
        ensures
            (Bus {
                memory: overwrite(self.memory, targets[k] - DRAM_BASE, seq![byte]),
                ..self
            }).maps_apart(table, v_address, targets),
            forall|i: int|
                0 <= i < targets.len() && self.is_settled(
                    table,
                    #[trigger] address_after(v_address, i),
                ) ==> (Bus {
                    memory: overwrite(self.memory, targets[k] - DRAM_BASE, seq![byte]),
                    ..self
                }).is_settled(table, address_after(v_address, i)),
    {
        let after = Bus {
            memory: overwrite(self.memory, targets[k] - DRAM_BASE, seq![byte]),
            ..self
        };
        assert forall|i: int, j: int|
            0 <= i < targets.len() && 0 <= j < targets.len() implies {
            let v = #[trigger] address_after(v_address, i);
            &&& after.tables_in_memory(v, 2, table)
            &&& after.mapped(v, 2, table, MemoryAccessType::Write) == self.mapped(
                v,
                2,
                table,
                MemoryAccessType::Write,
            )
            &&& after.leaf_is_markable(v, 2, table, MemoryAccessType::Write)
            &&& self.is_settled(table, v) ==> after.is_settled(table, v)
            &&& after.tables_avoid(v, 2, table, #[trigger] targets[j], 1)
        } by {
            let v = address_after(v_address, i);
            assert(self.tables_avoid(v, 2, table, targets[k], 1));
            self.lemma_write_keeps_tables(
                after,
                targets[k],
                1,
                v,
                2,
                table,
                targets[j],
                1,
            );
        }
        assert(targets[0] == targets[0]);
    }

    /// Targets keep the offset in the page, and can be read.
    proof fn lemma_targets(self, table: u64, v_address: u64, targets: Seq<u64>, i: int)
        requires
            self.maps_apart(table, v_address, targets),
            0 <= i < targets.len(),
        ensures
            targets[i] % PAGE_SIZE == address_after(v_address, i) % PAGE_SIZE,
            self.mapped(
                address_after(v_address, i),
                2,
                table,
                MemoryAccessType::Read,
            ) == Ok::<u64, ()>(targets[i]),
    {
        let v = address_after(v_address, i);
        self.lemma_walk_in_memory(v, 2, table, MemoryAccessType::Write);
        match self.leaf(v, 2, table) {
            Some((at, level)) => {
                lemma_leaf_translation(self.entry(at), v, level, MemoryAccessType::Write);
            },
            None => {},
        }
    }
}

/// Targets of different bytes differ.
proof fn lemma_targets_differ<C: Clint, P: Plic, U: Uart, D: VirtioBlockDisk>(
    bus: Bus<C, P, U, D>,
    table: u64,
    v_address: u64,
    targets: Seq<u64>,
    i: int,
    j: int,
)
    requires
        bus.maps_apart(table, v_address, targets),
        targets.len() <= PAGE_SIZE,
        0 <= i < j < targets.len(),
    ensures
        targets[i] != targets[j],
{
    bus.lemma_targets(table, v_address, targets, i);
    bus.lemma_targets(table, v_address, targets, j);
    lemma_offsets_differ(v_address, i, j);
}

/// Targets of bytes in one page lie in one page.
proof fn lemma_targets_share_page<C: Clint, P: Plic, U: Uart, D: VirtioBlockDisk>(
    bus: Bus<C, P, U, D>,
    table: u64,
    v_address: u64,
    targets: Seq<u64>,
    i: int,
    j: int,
)
    requires
        bus.maps_apart(table, v_address, targets),
        0 <= i < targets.len(),
        0 <= j < targets.len(),
        page_of(address_after(v_address, i)) == page_of(address_after(v_address, j)),
    ensures
        page_of(targets[i]) == page_of(targets[j]),
{
    let first = address_after(v_address, i);
    let other = address_after(v_address, j);
    bus.lemma_walk_in_memory(first, 2, table, MemoryAccessType::Write);
    bus.lemma_walk_in_memory(other, 2, table, MemoryAccessType::Write);
    bus.lemma_walk_same_page(first, other, 2, table, MemoryAccessType::Write);
}

impl<C: Clint, P: Plic, U: Uart, D: VirtioBlockDisk> State<C, P, U, D> {
    /// Whether the page cache for an access, where it holds the pages of the bytes from
    /// `v_address` on, holds them as those of `targets`.
    pub open spec fn cache_agrees(
        self,
        v_address: u64,
        targets: Seq<u64>,
        access_type: MemoryAccessType,
    ) -> bool {
        forall|i: int|
            0 <= i < targets.len() && self.is_cached(
                #[trigger] address_after(v_address, i),
                access_type,
            ) ==> self.cache(access_type)[page_of(address_after(v_address, i))] == page_of(
                targets[i],
            )
    }

    /// Whether loads and stores go through page tables that map the bytes from
    /// `v_address` on to `targets`, and the page caches agree with that.
    pub open spec fn pages_apart(self, v_address: u64, targets: Seq<u64>) -> bool {
        &&& self.is_paged(MemoryAccessType::Write)
        &&& self.bus.maps_apart(self.ppn, v_address, targets)
        &&& self.cache_agrees(v_address, targets, MemoryAccessType::Read)
        &&& self.cache_agrees(v_address, targets, MemoryAccessType::Write)
    }

    /// Whether without page caches loads of the first `count` bytes need no further marks.
    spec fn is_settled(self, v_address: u64, count: nat) -> bool {
        !self.page_cache_enabled ==> forall|i: int|
            0 <= i < count ==> self.bus.is_settled(
                self.ppn,
                #[trigger] address_after(v_address, i),
            )
    }

    /// The translation of one byte, through the page cache or through page tables.
    proof fn lemma_translate_target(
        self,
        v_address: u64,
        targets: Seq<u64>,
        k: int,
        access_type: MemoryAccessType,
    )
        requires
            self.pages_apart(v_address, targets),
            0 <= k < targets.len(),
            access_type == MemoryAccessType::Read || access_type == MemoryAccessType::Write,
        ensures
            ({
                let next = address_after(v_address, k);
                let (result, after) = self.translate(next, access_type);
                &&& self.can_translate(next, access_type)
                &&& result == Ok::<u64, ()>(targets[k])
                &&& after.pages_apart(v_address, targets)
                &&& after.ppn == self.ppn
                &&& after.page_cache_enabled == self.page_cache_enabled
                &&& forall|n: nat|
                    n <= targets.len() && self.is_settled(v_address, n)
                        ==> #[trigger] after.is_settled(v_address, n)
                &&& !self.page_cache_enabled && access_type == MemoryAccessType::Write
                    ==> after.bus.is_settled(self.ppn, next)
                &&& !self.page_cache_enabled && self.bus.is_settled(self.ppn, next)
                    ==> after.bus == self.bus
                &&& after.bus.memory.len() == self.bus.memory.len()
                &&& forall|j: int|
                    0 <= j < targets.len() ==> after.bus.memory[#[trigger] targets[j]
                        - DRAM_BASE] == self.bus.memory[targets[j] - DRAM_BASE]
            }),
    {
        let next = address_after(v_address, k);
        self.bus.lemma_targets(self.ppn, v_address, targets, k);
        if !self.is_cached(next, access_type) {
            self.bus.lemma_walk_keeps_targets(self.ppn, v_address, targets, k, access_type);
            let after = self.translate(next, access_type).1;
            assert forall|i: int|
                0 <= i < targets.len() && after.is_cached(
                    #[trigger] address_after(v_address, i),
                    access_type,
                ) implies after.cache(access_type)[page_of(address_after(v_address, i))]
                == page_of(targets[i]) by {
                if page_of(address_after(v_address, i)) == page_of(next) {
                    lemma_targets_share_page(self.bus, self.ppn, v_address, targets, i, k);
                }
            }
        }
    }

    /// One byte of a store through page tables.
    proof fn lemma_store_target(self, v_address: u64, targets: Seq<u64>, k: int, byte: u8)
        requires
            self.pages_apart(v_address, targets),
            targets.len() <= PAGE_SIZE,
            0 <= k < targets.len(),
        ensures
            ({
                let next = address_after(v_address, k);
                let (result, after) = self.store_together(next, seq![byte]);
                &&& self.can_store_together(next, 1)
                &&& result == Ok::<(), Trap>(())
                &&& after.pages_apart(v_address, targets)
                &&& after.page_cache_enabled == self.page_cache_enabled
                &&& self.is_settled(v_address, k as nat) ==> after.is_settled(
                    v_address,
                    (k + 1) as nat,
                )
                &&& after.bus.memory.len() == self.bus.memory.len()
                &&& after.bus.memory[targets[k] - DRAM_BASE] == byte
                &&& forall|j: int|
                    0 <= j < targets.len() && j != k ==> after.bus.memory[#[trigger] targets[j]
                        - DRAM_BASE] == self.bus.memory[targets[j] - DRAM_BASE]
            }),
    {
        let next = address_after(v_address, k);
        let target = targets[k];
        self.lemma_translate_target(v_address, targets, k, MemoryAccessType::Write);
        let found = self.translate(next, MemoryAccessType::Write).1;
        assert(address_after(target, 0) == target);
        found.bus.lemma_store_one(target, byte);
        found.bus.lemma_write_keeps_targets(self.ppn, v_address, targets, k, byte);
        if self.is_settled(v_address, k as nat) {
            assert(found.is_settled(v_address, k as nat));
        }
        assert forall|j: int| 0 <= j < targets.len() && j != k implies #[trigger] targets[j]
            != target by {
            if j < k {
                lemma_targets_differ(self.bus, self.ppn, v_address, targets, j, k);
            } else {
                lemma_targets_differ(self.bus, self.ppn, v_address, targets, k, j);
            }
        }
    }

    /// One byte of a load through page tables.
    proof fn lemma_load_target(self, v_address: u64, targets: Seq<u64>, k: int)
        requires
            self.pages_apart(v_address, targets),
            0 <= k < targets.len(),
        ensures
            ({
                let next = address_after(v_address, k);
                let (result, after) = self.load_together(MemoryAccessType::Read, next, 1);
                &&& self.can_load_together(MemoryAccessType::Read, next, 1)
                &&& result == Ok::<Seq<u8>, Trap>(
                    seq![self.bus.memory[targets[k] - DRAM_BASE]],
                )
                &&& after.pages_apart(v_address, targets)
                &&& after.ppn == self.ppn
                &&& after.page_cache_enabled == self.page_cache_enabled
                &&& !self.page_cache_enabled && self.bus.is_settled(self.ppn, next)
                    ==> after.bus == self.bus
                &&& after.bus.memory.len() == self.bus.memory.len()
                &&& forall|j: int|
                    0 <= j < targets.len() ==> after.bus.memory[#[trigger] targets[j]
                        - DRAM_BASE] == self.bus.memory[targets[j] - DRAM_BASE]
            }),
    {
        let next = address_after(v_address, k);
        let target = targets[k];
        self.lemma_translate_target(v_address, targets, k, MemoryAccessType::Read);
        let found = self.translate(next, MemoryAccessType::Read).1;
        assert(address_after(target, 0) == target);
        found.bus.lemma_load_one(target);
    }

    /// The first bytes of a store through page tables.
    #[verifier::rlimit(50)]
    proof fn lemma_store_targets(
        self,
        v_address: u64,
        targets: Seq<u64>,
        bytes: Seq<u8>,
    )
        requires
            self.pages_apart(v_address, targets),
            bytes.len() <= targets.len() <= PAGE_SIZE,
        ensures
            ({
                let (result, after) = self.store_each(v_address, bytes);
                &&& self.can_store_each(v_address, bytes)
                &&& result == Ok::<(), Trap>(())
                &&& after.pages_apart(v_address, targets)
                &&& after.page_cache_enabled == self.page_cache_enabled
                &&& after.is_settled(v_address, bytes.len())
                &&& after.bus.memory.len() == self.bus.memory.len()
                &&& forall|j: int|
                    0 <= j < bytes.len() ==> after.bus.memory[#[trigger] targets[j] - DRAM_BASE]
                        == bytes[j]
            }),
        decreases bytes.len(),
    {
        if bytes.len() > 0 {
            let low = bytes.drop_last();
            self.lemma_store_targets(v_address, targets, low);
            let middle = self.store_each(v_address, low).1;
            middle.lemma_store_target(v_address, targets, bytes.len() - 1, bytes.last());
        }
    }

    /// The first bytes of a load through page tables.
    proof fn lemma_load_targets(self, v_address: u64, targets: Seq<u64>, width: nat)
        requires
            self.pages_apart(v_address, targets),
            width <= targets.len(),
        ensures
            ({
                let (result, after) = self.load_each(
                    MemoryAccessType::Read,
                    v_address,
                    width,
                );
                &&& self.can_load_each(MemoryAccessType::Read, v_address, width)
                &&& result == Ok::<Seq<u8>, Trap>(
                    Seq::new(width, |j: int| self.bus.memory[targets[j] - DRAM_BASE]),
                )
                &&& after.pages_apart(v_address, targets)
                &&& after.ppn == self.ppn
                &&& after.page_cache_enabled == self.page_cache_enabled
                &&& !self.page_cache_enabled && self.is_settled(v_address, width)
                    ==> after.bus == self.bus
                &&& forall|j: int|
                    0 <= j < targets.len() ==> after.bus.memory[#[trigger] targets[j]
                        - DRAM_BASE] == self.bus.memory[targets[j] - DRAM_BASE]
            }),
        decreases width,
    {
        let at = |j: int| self.bus.memory[targets[j] - DRAM_BASE];
        if width > 0 {
            let i = (width - 1) as nat;
            self.lemma_load_targets(v_address, targets, i);
            let middle = self.load_each(MemoryAccessType::Read, v_address, i).1;
            middle.lemma_load_target(v_address, targets, i as int);
            assert(Seq::new(i, at) + seq![self.bus.memory[targets[i as int] - DRAM_BASE]]
                =~= Seq::new(width, at));
        } else {
            assert(Seq::new(0, at) =~= Seq::empty());
        }
    }
}

/// Tables that avoid each of some bytes avoid all of them.
proof fn lemma_avoid_all<C: Clint, P: Plic, U: Uart, D: VirtioBlockDisk>(
    bus: Bus<C, P, U, D>,
    v_address: u64,
    level: nat,
    table: u64,
    targets: Seq<u64>,
)
    requires
        0 < targets.len(),
        forall|i: int| 0 <= i < targets.len() ==> #[trigger] targets[i] == targets[0] + i,
        forall|i: int|
            0 <= i < targets.len() ==> bus.tables_avoid(
                v_address,
                level,
                table,
                #[trigger] targets[i],
                1,
            ),
    ensures
        bus.tables_avoid(v_address, level, table, targets[0], targets.len()),
    decreases level,
{
    let at = pte_address(table, v_address, level);
    if is_pointer(bus.entry(at)) && level > 0 {
        lemma_avoid_all(
            bus,
            v_address,
            (level - 1) as nat,
            ppn_of(bus.entry(at)),
            targets,
        );
    }
    if at + 8 > targets[0] && targets[0] + targets.len() > at {
        if targets[0] < at {
            assert(targets[at - targets[0]] == at);
        }
        assert(false);
    }
}

/// Bytes mapped from one page lie next to each other.
proof fn lemma_targets_in_page<C: Clint, P: Plic, U: Uart, D: VirtioBlockDisk>(
    bus: Bus<C, P, U, D>,
    table: u64,
    v_address: u64,
    targets: Seq<u64>,
    i: int,
)
    requires
        bus.maps_apart(table, v_address, targets),
        in_one_page(v_address, targets.len()),
        0 <= i < targets.len(),
    ensures
        targets[i] == targets[0] + i,
        address_after(v_address, 0) == v_address,
{
    let first = address_after(v_address, 0);
    let other = address_after(v_address, i);
    lemma_within_page(v_address, targets.len(), i);
    lemma_within_page(v_address, targets.len(), 0);
    bus.lemma_targets(table, v_address, targets, 0);
    bus.lemma_targets(table, v_address, targets, i);
    bus.lemma_walk_in_memory(first, 2, table, MemoryAccessType::Write);
    bus.lemma_walk_in_memory(other, 2, table, MemoryAccessType::Write);
    bus.lemma_walk_same_page(first, other, 2, table, MemoryAccessType::Write);
}

/// Through page tables a load gives back what was stored to main memory before, within
/// a page and across pages, as long as the page caches agree with the page tables. Without
/// page caches the load changes nothing on the bus.
pub proof fn law_paged_loads_give_back_stores<C: Clint, P: Plic, U: Uart, D: VirtioBlockDisk>(
    state: State<C, P, U, D>,
    v_address: u64,
    bytes: Seq<u8>,
    targets: Seq<u64>,
)
    requires
        state.is_well_formed(),
        state.pages_apart(v_address, targets),
        0 < bytes.len() <= PAGE_SIZE,
        targets.len() == bytes.len(),
    ensures
        state.can_store(v_address, bytes),
        state.store(v_address, bytes).0 is Ok,
        ({
            let stored = state.store(v_address, bytes).1;
            &&& stored.can_load(MemoryAccessType::Read, v_address, bytes.len())
            &&& stored.load(MemoryAccessType::Read, v_address, bytes.len()).0 == Ok::<
                Seq<u8>,
                Trap,
            >(bytes)
            &&& !state.page_cache_enabled ==> stored.load(
                MemoryAccessType::Read,
                v_address,
                bytes.len(),
            ).1.bus == stored.bus
        }),
{
    lemma_each_gives_back(state, v_address, bytes, targets);
    if in_one_page(v_address, bytes.len()) {
        lemma_page_store_agrees(state, v_address, bytes, targets);
        lemma_page_load_agrees(state.store_each(v_address, bytes).1, v_address, targets);
    }
}

/// Byte by byte, through page tables a load gives back what was stored.
proof fn lemma_each_gives_back<C: Clint, P: Plic, U: Uart, D: VirtioBlockDisk>(
    state: State<C, P, U, D>,
    v_address: u64,
    bytes: Seq<u8>,
    targets: Seq<u64>,
)
    requires
        state.is_well_formed(),
        state.pages_apart(v_address, targets),
        bytes.len() <= PAGE_SIZE,
        targets.len() == bytes.len(),
    ensures
        state.can_store_each(v_address, bytes),
        ({
            let (result, stored) = state.store_each(v_address, bytes);
            let (loaded, after) = stored.load_each(
                MemoryAccessType::Read,
                v_address,
                bytes.len(),
            );
            &&& result == Ok::<(), Trap>(())
            &&& stored.is_well_formed()
            &&& stored.pages_apart(v_address, targets)
            &&& stored.can_load_each(MemoryAccessType::Read, v_address, bytes.len())
            &&& loaded == Ok::<Seq<u8>, Trap>(bytes)
            &&& !state.page_cache_enabled ==> after.bus == stored.bus
        }),
{
    let width = bytes.len();
    state.lemma_store_targets(v_address, targets, bytes);
    state.lemma_store_each(v_address, bytes);
    let stored = state.store_each(v_address, bytes).1;
    stored.lemma_load_targets(v_address, targets, width);
    assert(Seq::new(width, |j: int| stored.bus.memory[targets[j] - DRAM_BASE]) =~= bytes);
}

proof fn lemma_page_store_agrees<C: Clint, P: Plic, U: Uart, D: VirtioBlockDisk>(
    state: State<C, P, U, D>,
    v_address: u64,
    bytes: Seq<u8>,
    targets: Seq<u64>,
)
    requires
        state.is_well_formed(),
        state.pages_apart(v_address, targets),
        0 < bytes.len(),
        targets.len() == bytes.len(),
        in_one_page(v_address, bytes.len()),
    ensures
        state.can_store_together(v_address, bytes.len()),
        state.store_together(v_address, bytes) == state.store_each(v_address, bytes),
{
    lemma_page_target(state, v_address, targets);
    law_page_stores_are_bytewise(state, v_address, bytes);
}

/// The place that the bytes of one page are stored to.
proof fn lemma_page_target<C: Clint, P: Plic, U: Uart, D: VirtioBlockDisk>(
    state: State<C, P, U, D>,
    v_address: u64,
    targets: Seq<u64>,
)
    requires
        state.pages_apart(v_address, targets),
        0 < targets.len(),
        in_one_page(v_address, targets.len()),
    ensures
        state.can_translate(v_address, MemoryAccessType::Write),
        state.translate(v_address, MemoryAccessType::Write).0 == Ok::<u64, ()>(targets[0]),
        state.translates_in_memory(v_address, MemoryAccessType::Write),
        state.translates_apart_from(
            v_address,
            MemoryAccessType::Write,
            targets[0],
            targets.len(),
        ),
        holds(state.bus.memory.len(), targets[0], targets.len()),
        all_storable(state.bus.memory.len(), targets[0], targets.len()),
{
    let bus = state.bus;
    let target = targets[0];
    assert forall|i: int| 0 <= i < targets.len() implies #[trigger] targets[i] == target + i by {
        lemma_targets_in_page(bus, state.ppn, v_address, targets, i);
    }
    lemma_targets_in_page(bus, state.ppn, v_address, targets, 0);
    assert(holds(bus.memory.len(), targets[targets.len() - 1], 1));
    lemma_avoid_all(bus, v_address, 2, state.ppn, targets);
    state.lemma_translate_target(v_address, targets, 0, MemoryAccessType::Write);
    assert forall|i: int| 0 <= i < targets.len() implies storable(
        bus.memory.len(),
        #[trigger] address_after(target, i),
    ) by {
        assert(holds(bus.memory.len(), targets[i], 1));
    }
}

proof fn lemma_page_load_agrees<C: Clint, P: Plic, U: Uart, D: VirtioBlockDisk>(
    state: State<C, P, U, D>,
    v_address: u64,
    targets: Seq<u64>,
)
    requires
        state.is_well_formed(),
        state.pages_apart(v_address, targets),
        0 < targets.len(),
        in_one_page(v_address, targets.len()),
    ensures
        state.can_load_together(MemoryAccessType::Read, v_address, targets.len()),
        state.load_together(MemoryAccessType::Read, v_address, targets.len())
            == state.load_each(MemoryAccessType::Read, v_address, targets.len()),
{
    let bus = state.bus;
    let target = targets[0];
    assert forall|i: int| 0 <= i < targets.len() implies #[trigger] targets[i] == target + i by {
        lemma_targets_in_page(bus, state.ppn, v_address, targets, i);
    }
    lemma_targets_in_page(bus, state.ppn, v_address, targets, 0);
    assert(holds(bus.memory.len(), targets[targets.len() - 1], 1));
    state.lemma_translate_target(v_address, targets, 0, MemoryAccessType::Read);
    assert forall|i: int| 0 <= i < targets.len() implies loadable(
        bus.memory.len(),
        #[trigger] address_after(target, i),
    ) by {
        assert(holds(bus.memory.len(), targets[i], 1));
    }
    law_page_loads_are_bytewise(state, MemoryAccessType::Read, v_address, targets.len());
}

} // verus!
