//! Page tables that lie in memory, that is in main memory or in the device tree and not
//! in a device: what a walk finds there, and what leaves it as it is.
use crate::address_map::{address_after, DTB_BASE, DTB_SIZE};
use crate::bus::{all_loadable, all_storable, Bus};
use crate::device::{Clint, Plic, Uart, VirtioBlockDisk};
use crate::dram::{holds, DRAM_BASE};
use crate::endian::{le_bytes, le_value, lemma_value_of_bytes, lemma_weights};
use crate::memory::overwrite;
use crate::sv39::{
    is_leaf, is_pointer, leaf_translation, marked, needs_marking, ppn_of, pte_address,
    MemoryAccessType,
};
use vstd::prelude::*;

verus! {

impl<C: Clint, P: Plic, U: Uart, D: VirtioBlockDisk> Bus<C, P, U, D> {
    /// The page table entry at a physical address in main memory or in the device tree.
    pub open spec fn entry(self, p_address: int) -> u64 {
        let bytes = if DRAM_BASE <= p_address {
            self.memory.subrange(p_address - DRAM_BASE, p_address - DRAM_BASE + 8)
        } else {
            self.dtb.subrange(p_address - DTB_BASE, p_address - DTB_BASE + 8)
        };
        le_value(bytes) as u64
    }

    /// Whether main memory or the device tree has a page table entry at a physical
    /// address.
    pub open spec fn has_entry(self, p_address: int) -> bool {
        if DRAM_BASE <= p_address {
            p_address <= u64::MAX && holds(self.memory.len(), p_address as u64, 8)
        } else {
            &&& self.dtb.len() == DTB_SIZE
            &&& DTB_BASE <= p_address
            &&& p_address + 8 <= DTB_BASE + DTB_SIZE
        }
    }

    /// Whether every page table entry on the way from `v_address` to its page lies in
    /// main memory or in the device tree.
    pub open spec fn tables_in_memory(self, v_address: u64, level: nat, table: u64) -> bool
        decreases level,
    {
        let at = pte_address(table, v_address, level);
        &&& self.has_entry(at)
        &&& is_pointer(self.entry(at)) && level > 0 ==> self.tables_in_memory(
            v_address,
            (level - 1) as nat,
            ppn_of(self.entry(at)),
        )
    }

    /// The address and the level of the leaf that the walk for `v_address` ends at, if
    /// it ends at one.
    pub open spec fn leaf(self, v_address: u64, level: nat, table: u64) -> Option<(int, nat)>
        decreases level,
    {
        let at = pte_address(table, v_address, level);
        if is_leaf(self.entry(at)) {
            Some((at, level))
        } else if is_pointer(self.entry(at)) && level > 0 {
            self.leaf(v_address, (level - 1) as nat, ppn_of(self.entry(at)))
        } else {
            None
        }
    }

    /// What the page tables map `v_address` to.
    pub open spec fn mapped(
        self,
        v_address: u64,
        level: nat,
        table: u64,
        access_type: MemoryAccessType,
    ) -> Result<u64, ()> {
        match self.leaf(v_address, level, table) {
            Some((at, leaf_level)) => leaf_translation(
                self.entry(at),
                v_address,
                leaf_level,
                access_type,
            ),
            None => Err(()),
        }
    }

    /// Whether the leaf for `v_address`, if there is one, can be marked for an access or
    /// needs no mark. The device tree cannot be written.
    pub open spec fn leaf_is_markable(
        self,
        v_address: u64,
        level: nat,
        table: u64,
        access_type: MemoryAccessType,
    ) -> bool {
        self.leaf(v_address, level, table) matches Some((at, leaf_level)) ==> DRAM_BASE <= at
            || !needs_marking(self.entry(at), access_type)
    }

    /// Whether no page table entry on the way from `v_address` to its page has a byte
    /// in common with the `width` bytes from `p_address` on.
    pub open spec fn tables_avoid(
        self,
        v_address: u64,
        level: nat,
        table: u64,
        p_address: u64,
        width: nat,
    ) -> bool
        decreases level,
    {
        let at = pte_address(table, v_address, level);
        &&& at + 8 <= p_address || p_address + width <= at
        &&& is_pointer(self.entry(at)) && level > 0 ==> self.tables_avoid(
            v_address,
            (level - 1) as nat,
            ppn_of(self.entry(at)),
            p_address,
            width,
        )
    }

    /// The bus with the leaf at `at` marked for an access, if it is in main memory.
    pub open spec fn with_mark(self, at: int, access_type: MemoryAccessType) -> Self {
        if DRAM_BASE <= at && needs_marking(self.entry(at), access_type) {
            Bus {
                memory: overwrite(
                    self.memory,
                    at - DRAM_BASE,
                    le_bytes(marked(self.entry(at), access_type) as nat, 8),
                ),
                ..self
            }
        } else {
            self
        }
    }
}

/// Page table entries are aligned to their size.
proof fn lemma_entry_alignment(table: u64, v_address: u64, level: nat)
    ensures
        pte_address(table, v_address, level) % 8 == 0,
{
}

/// Marking changes neither what kind of entry it is nor what it maps to, and takes no
/// mark away. A leaf that is marked for a write needs no further marks.
proof fn lemma_marks(pte: u64, access_type: MemoryAccessType)
    ensures
        ({
            let after = marked(pte, access_type);
            &&& is_leaf(after) == is_leaf(pte)
            &&& !needs_marking(after, access_type)
            &&& forall|other: MemoryAccessType|
                !needs_marking(pte, other) ==> !needs_marking(after, other)
            &&& access_type == MemoryAccessType::Write ==> forall|other: MemoryAccessType|
                !needs_marking(after, other)
            &&& forall|v_address: u64, level: nat, other: MemoryAccessType| #[trigger]
                leaf_translation(after, v_address, level, other) == leaf_translation(
                    pte,
                    v_address,
                    level,
                    other,
                )
        }),
{
    let x = pte | 0x40;
    let y = pte | 0x40 | 0x80;
    assert({
        &&& (x >> 0) & 1 == (pte >> 0) & 1
        &&& (x >> 1) & 1 == (pte >> 1) & 1
        &&& (x >> 2) & 1 == (pte >> 2) & 1
        &&& (x >> 3) & 1 == (pte >> 3) & 1
        &&& (x >> 6) & 1 == 1
        &&& (x >> 7) & 1 == (pte >> 7) & 1
        &&& (x >> 10) & 0xfff_ffff_ffff == (pte >> 10) & 0xfff_ffff_ffff
        &&& (y >> 0) & 1 == (pte >> 0) & 1
        &&& (y >> 1) & 1 == (pte >> 1) & 1
        &&& (y >> 2) & 1 == (pte >> 2) & 1
        &&& (y >> 3) & 1 == (pte >> 3) & 1
        &&& (y >> 6) & 1 == 1
        &&& (y >> 7) & 1 == 1
        &&& (y >> 10) & 0xfff_ffff_ffff == (pte >> 10) & 0xfff_ffff_ffff
    }) by (bit_vector)
        requires
            x == pte | 0x40,
            y == pte | 0x40 | 0x80,
    ;
}

impl<C: Clint, P: Plic, U: Uart, D: VirtioBlockDisk> Bus<C, P, U, D> {
    /// Loading an entry.
    proof fn lemma_load_entry(self, at: int)
        requires
            at % 8 == 0,
            self.has_entry(at),
        ensures
            0 <= at <= u64::MAX,
            self.load_pte(at as u64) == (self.entry(at), self),
            all_loadable(self.memory.len(), at as u64, 8),
            all_storable(self.memory.len(), at as u64, 8) == (DRAM_BASE <= at),
    {
        if DRAM_BASE <= at {
            self.lemma_load_all_dram(at as u64, 8);
        } else {
            self.lemma_load_all_dtb(at as u64, 8);
        }
        assert forall|i: int| 0 <= i < 8 implies #[trigger] address_after(at as u64, i) == at
            + i by {}
        assert(address_after(at as u64, 0) == at);
    }

    /// Storing an entry. The device tree stays as it is.
    proof fn lemma_store_entry(self, at: int, pte: u64)
        requires
            at % 8 == 0,
            self.has_entry(at),
        ensures
            ({
                let after = Bus {
                    memory: overwrite(self.memory, at - DRAM_BASE, le_bytes(pte as nat, 8)),
                    ..self
                };
                if DRAM_BASE <= at {
                    &&& self.store_pte(at as u64, pte) == after
                    &&& after.memory.len() == self.memory.len()
                    &&& after.entry(at) == pte
                    &&& forall|other: int|
                        self.has_entry(other) && (other + 8 <= at || at + 8 <= other)
                            ==> #[trigger] after.entry(other) == self.entry(other)
                } else {
                    self.store_pte(at as u64, pte) == self
                }
            }),
    {
        if DRAM_BASE <= at {
            self.lemma_store_all_dram(at as u64, le_bytes(pte as nat, 8));
            let after = Bus {
                memory: overwrite(self.memory, at - DRAM_BASE, le_bytes(pte as nat, 8)),
                ..self
            };
            let offset = at - DRAM_BASE;
            assert(after.memory.subrange(offset, offset + 8) =~= le_bytes(pte as nat, 8));
            lemma_value_of_bytes(pte as nat, 8);
            lemma_weights();
            assert forall|other: int|
                self.has_entry(other) && (other + 8 <= at || at + 8 <= other) implies
                #[trigger] after.entry(other) == self.entry(other) by {
                let o = other - DRAM_BASE;
                if 0 <= o {
                    assert(after.memory.subrange(o, o + 8) =~= self.memory.subrange(o, o + 8));
                }
            }
        } else {
            self.lemma_store_all_below_dram(at as u64, le_bytes(pte as nat, 8));
        }
    }

    /// Loading the entry for `v_address` of a table.
    pub proof fn lemma_load_table_entry(self, v_address: u64, level: nat, table: u64)
        requires
            self.has_entry(pte_address(table, v_address, level)),
        ensures
            ({
                let at = pte_address(table, v_address, level);
                self.load_pte(at as u64) == (self.entry(at), self)
            }),
    {
        lemma_entry_alignment(table, v_address, level);
        self.lemma_load_entry(pte_address(table, v_address, level));
    }

    /// A leaf that can be marked, once it is.
    pub proof fn lemma_marked_leaf(self, at: int, access_type: MemoryAccessType)
        requires
            at % 8 == 0,
            self.has_entry(at),
            DRAM_BASE <= at || !needs_marking(self.entry(at), access_type),
        ensures
            ({
                let pte = self.with_mark(at, access_type).entry(at);
                &&& !needs_marking(pte, access_type)
                &&& !needs_marking(pte, MemoryAccessType::DontCare)
                &&& access_type == MemoryAccessType::Write ==> forall|other: MemoryAccessType|
                    !needs_marking(pte, other)
            }),
    {
        self.lemma_store_entry(at, marked(self.entry(at), access_type));
        lemma_marks(self.entry(at), access_type);
    }

    /// A walk through tables in memory ends at their leaf, and does nothing but mark it.
    pub proof fn lemma_walk_in_memory(
        self,
        v_address: u64,
        level: nat,
        table: u64,
        access_type: MemoryAccessType,
    )
        requires
            self.tables_in_memory(v_address, level, table),
        ensures
            self.can_walk(v_address, level, table, access_type) == self.leaf_is_markable(
                v_address,
                level,
                table,
                access_type,
            ),
            self.walk(v_address, level, table, access_type).0 == self.mapped(
                v_address,
                level,
                table,
                access_type,
            ),
            self.walk(v_address, level, table, access_type).1 == (match self.leaf(
                v_address,
                level,
                table,
            ) {
                Some((at, leaf_level)) => self.with_mark(at, access_type),
                None => self,
            }),
            self.leaf(v_address, level, table) matches Some((at, leaf_level)) ==> {
                &&& 0 <= at <= u64::MAX
                &&& at % 8 == 0
                &&& self.has_entry(at)
                &&& is_leaf(self.entry(at))
            },
        decreases level,
    {
        let at = pte_address(table, v_address, level);
        lemma_entry_alignment(table, v_address, level);
        self.lemma_load_entry(at);
        let pte = self.entry(at);
        self.lemma_store_entry(at, marked(pte, access_type));
        if is_pointer(pte) && level > 0 {
            self.lemma_walk_in_memory(
                v_address,
                (level - 1) as nat,
                ppn_of(pte),
                access_type,
            );
        }
        if let Err(nothing) = self.walk(v_address, level, table, access_type).0 {
            assert(nothing == ());
        }
        if let Err(nothing) = self.mapped(v_address, level, table, access_type) {
            assert(nothing == ());
        }
    }

    /// Marking a leaf keeps all tables, and what they map to.
    pub proof fn lemma_mark_keeps_tables(
        self,
        leaf_at: int,
        mark_type: MemoryAccessType,
        v_address: u64,
        level: nat,
        table: u64,
        p_address: u64,
        width: nat,
    )
        requires
            leaf_at % 8 == 0,
            self.has_entry(leaf_at),
            is_leaf(self.entry(leaf_at)),
            self.tables_in_memory(v_address, level, table),
        ensures
            ({
                let after = self.with_mark(leaf_at, mark_type);
                &&& after.memory.len() == self.memory.len()
                &&& after.tables_in_memory(v_address, level, table)
                &&& after.leaf(v_address, level, table) == self.leaf(v_address, level, table)
                &&& forall|access_type: MemoryAccessType| #[trigger]
                    after.mapped(v_address, level, table, access_type) == self.mapped(
                        v_address,
                        level,
                        table,
                        access_type,
                    )
                &&& after.tables_avoid(v_address, level, table, p_address, width)
                    == self.tables_avoid(v_address, level, table, p_address, width)
                &&& self.leaf(v_address, level, table) matches Some((at, leaf_level))
                    ==> forall|access_type: MemoryAccessType|
                    !needs_marking(self.entry(at), access_type) ==> !#[trigger] needs_marking(
                        after.entry(at),
                        access_type,
                    )
            }),
        decreases level,
    {
        let after = self.with_mark(leaf_at, mark_type);
        let at = pte_address(table, v_address, level);
        lemma_entry_alignment(table, v_address, level);
        self.lemma_store_entry(leaf_at, marked(self.entry(leaf_at), mark_type));
        lemma_marks(self.entry(leaf_at), mark_type);
        if at != leaf_at {
            assert(at + 8 <= leaf_at || leaf_at + 8 <= at);
            assert(after.entry(at) == self.entry(at));
        }
        if is_pointer(self.entry(at)) && level > 0 {
            self.lemma_mark_keeps_tables(
                leaf_at,
                mark_type,
                v_address,
                (level - 1) as nat,
                ppn_of(self.entry(at)),
                p_address,
                width,
            );
            assert forall|access_type: MemoryAccessType| #[trigger]
                after.mapped(v_address, level, table, access_type) == self.mapped(
                    v_address,
                    level,
                    table,
                    access_type,
                ) by {
                let next = ppn_of(self.entry(at));
                assert(after.mapped(v_address, (level - 1) as nat, next, access_type)
                    == self.mapped(v_address, (level - 1) as nat, next, access_type));
            }
        }
    }

    /// Changing main memory apart from the tables keeps them, and what they map to.
    pub proof fn lemma_write_keeps_tables(
        self,
        after: Self,
        changed: u64,
        changed_width: nat,
        v_address: u64,
        level: nat,
        table: u64,
        p_address: u64,
        width: nat,
    )
        requires
            after.dtb == self.dtb,
            after.memory.len() == self.memory.len(),
            forall|i: int|
                0 <= i < self.memory.len() && !(changed - DRAM_BASE <= i < changed - DRAM_BASE
                    + changed_width) ==> #[trigger] after.memory[i] == self.memory[i],
            self.tables_in_memory(v_address, level, table),
            self.tables_avoid(v_address, level, table, changed, changed_width),
        ensures
            after.tables_in_memory(v_address, level, table),
            after.leaf(v_address, level, table) == self.leaf(v_address, level, table),
            self.leaf(v_address, level, table) matches Some((at, leaf_level)) ==> after.entry(
                at,
            ) == self.entry(at),
            after.tables_avoid(v_address, level, table, p_address, width)
                == self.tables_avoid(v_address, level, table, p_address, width),
        decreases level,
    {
        let at = pte_address(table, v_address, level);
        let offset = at - DRAM_BASE;
        if 0 <= offset {
            assert(after.memory.subrange(offset, offset + 8) =~= self.memory.subrange(
                offset,
                offset + 8,
            ));
        }
        if is_pointer(self.entry(at)) && level > 0 {
            self.lemma_write_keeps_tables(
                after,
                changed,
                changed_width,
                v_address,
                (level - 1) as nat,
                ppn_of(self.entry(at)),
                p_address,
                width,
            );
        }
    }

    /// The tables depend on main memory and the device tree alone.
    pub proof fn lemma_tables_of_memory(
        self,
        after: Self,
        v_address: u64,
        level: nat,
        table: u64,
    )
        requires
            after.memory == self.memory,
            after.dtb == self.dtb,
        ensures
            after.tables_in_memory(v_address, level, table) == self.tables_in_memory(
                v_address,
                level,
                table,
            ),
            after.leaf(v_address, level, table) == self.leaf(v_address, level, table),
        decreases level,
    {
        let at = pte_address(table, v_address, level);
        if is_pointer(self.entry(at)) && level > 0 {
            self.lemma_tables_of_memory(
                after,
                v_address,
                (level - 1) as nat,
                ppn_of(self.entry(at)),
            );
        }
    }

    /// Walks for the same access through the same tables find the same, and the second
    /// one changes nothing.
    pub proof fn lemma_walk_again(
        self,
        v_address: u64,
        level: nat,
        table: u64,
        access_type: MemoryAccessType,
    )
        requires
            self.tables_in_memory(v_address, level, table),
        ensures
            ({
                let after = self.walk(v_address, level, table, access_type).1;
                &&& after.tables_in_memory(v_address, level, table)
                &&& after.walk(v_address, level, table, access_type) == (
                    self.mapped(v_address, level, table, access_type),
                    after,
                )
                &&& self.can_walk(v_address, level, table, access_type) ==> after.can_walk(
                    v_address,
                    level,
                    table,
                    access_type,
                )
            }),
    {
        self.lemma_walk_in_memory(v_address, level, table, access_type);
        let after = self.walk(v_address, level, table, access_type).1;
        match self.leaf(v_address, level, table) {
            Some((at, leaf_level)) => {
                self.lemma_mark_keeps_tables(at, access_type, v_address, level, table, 0, 0);
                self.lemma_store_entry(at, marked(self.entry(at), access_type));
                lemma_marks(self.entry(at), access_type);
            },
            None => {},
        }
        after.lemma_walk_in_memory(v_address, level, table, access_type);
        assert(after.mapped(v_address, level, table, access_type) == self.mapped(
            v_address,
            level,
            table,
            access_type,
        ));
    }

    /// After a walk, and changes to main memory apart from the tables, a walk for the same
    /// access finds the same, and changes nothing.
    pub proof fn lemma_walk_after_change(
        self,
        v_address: u64,
        level: nat,
        table: u64,
        access_type: MemoryAccessType,
        changed: u64,
        changed_width: nat,
        later: Self,
    )
        requires
            self.tables_in_memory(v_address, level, table),
            self.tables_avoid(v_address, level, table, changed, changed_width),
            later.dtb == self.dtb,
            later.memory.len() == self.memory.len(),
            forall|i: int|
                0 <= i < self.memory.len() && !(changed - DRAM_BASE <= i < changed - DRAM_BASE
                    + changed_width) ==> #[trigger] later.memory[i] == self.walk(
                    v_address,
                    level,
                    table,
                    access_type,
                ).1.memory[i],
        ensures
            later.tables_in_memory(v_address, level, table),
            later.walk(v_address, level, table, access_type) == (
                self.mapped(v_address, level, table, access_type),
                later,
            ),
            self.can_walk(v_address, level, table, access_type) ==> later.can_walk(
                v_address,
                level,
                table,
                access_type,
            ),
    {
        let after = self.walk(v_address, level, table, access_type).1;
        self.lemma_walk(v_address, level, table, access_type);
        self.lemma_walk_in_memory(v_address, level, table, access_type);
        self.lemma_walk_again(v_address, level, table, access_type);
        match self.leaf(v_address, level, table) {
            Some((at, leaf_level)) => {
                self.lemma_mark_keeps_tables(
                    at,
                    access_type,
                    v_address,
                    level,
                    table,
                    changed,
                    changed_width,
                );
                self.lemma_store_entry(at, marked(self.entry(at), access_type));
                lemma_marks(self.entry(at), access_type);
            },
            None => {},
        }
        after.lemma_write_keeps_tables(
            later,
            changed,
            changed_width,
            v_address,
            level,
            table,
            0,
            0,
        );
        after.lemma_walk_in_memory(v_address, level, table, access_type);
        later.lemma_walk_in_memory(v_address, level, table, access_type);
    }

    /// Tables avoid nothing at all.
    pub proof fn lemma_avoid_nothing(self, v_address: u64, level: nat, table: u64)
        ensures
            self.tables_avoid(v_address, level, table, 0, 0),
        decreases level,
    {
        let at = pte_address(table, v_address, level);
        if is_pointer(self.entry(at)) && level > 0 {
            self.lemma_avoid_nothing(v_address, (level - 1) as nat, ppn_of(self.entry(at)));
        }
    }

    /// The leaf has no byte in common with what the tables avoid.
    pub proof fn lemma_leaf_avoids(
        self,
        v_address: u64,
        level: nat,
        table: u64,
        p_address: u64,
        width: nat,
    )
        requires
            self.tables_avoid(v_address, level, table, p_address, width),
        ensures
            self.leaf(v_address, level, table) matches Some((at, leaf_level)) ==> at + 8
                <= p_address || p_address + width <= at,
        decreases level,
    {
        let at = pte_address(table, v_address, level);
        if is_pointer(self.entry(at)) && level > 0 {
            self.lemma_leaf_avoids(
                v_address,
                (level - 1) as nat,
                ppn_of(self.entry(at)),
                p_address,
                width,
            );
        }
    }
}

} // verus!
