//! Which accesses go through page tables, and what page caches do to that.
use crate::bus::Bus;
use crate::cpu::{privilege_of, PrivilegeMode};
use crate::device::{Clint, Plic, Uart, VirtioBlockDisk};
use crate::dram::holds;
use crate::model::{AddressingMode, State};
use crate::sv39::MemoryAccessType;
use crate::walk_laws::{
    doubleword_of, has_flag_for, law_walk_step, missing_marks, page_size, slot_of, target_of,
    with_marks,
};
use vstd::prelude::*;

verus! {

/// The privilege mode that an access is made in, by number: the `MPP` field of `mstatus`,
/// which is bits 11 and 12, for loads, stores and validations in machine mode while the
/// `MPRV` bit, which is bit 17, is set. Otherwise it is the current one.
pub open spec fn mode_number(
    privilege_mode: PrivilegeMode,
    mstatus: u64,
    access_type: MemoryAccessType,
) -> int {
    match privilege_mode {
        PrivilegeMode::User => 0,
        PrivilegeMode::Supervisor => 1,
        PrivilegeMode::Reserved => 2,
        PrivilegeMode::Machine => if access_type != MemoryAccessType::Execute && mstatus
            / 131072 % 2 == 1 {
            mstatus as int / 2048 % 4
        } else {
            3
        },
    }
}

/// The fields of `mstatus` as numbers.
proof fn lemma_mstatus(mstatus: u64)
    ensures
        (mstatus >> 17) & 1 == mstatus / 131072 % 2,
        (mstatus >> 11) & 3 == mstatus / 2048 % 4,
{
    assert((mstatus >> 17) & 1 == mstatus / 131072 % 2) by (bit_vector);
    assert((mstatus >> 11) & 3 == mstatus / 2048 % 4) by (bit_vector);
}

/// Privilege modes are numbered 0 for user, 1 for supervisor and 3 for machine mode. Number
/// 2 is reserved.
pub proof fn law_privilege_numbers(encoding: u64)
    requires
        encoding <= 3,
    ensures
        privilege_of(encoding) == PrivilegeMode::User <==> encoding == 0,
        privilege_of(encoding) == PrivilegeMode::Supervisor <==> encoding == 1,
        privilege_of(encoding) == PrivilegeMode::Reserved <==> encoding == 2,
        privilege_of(encoding) == PrivilegeMode::Machine <==> encoding == 3,
{
}

/// Without page caches, user and supervisor mode go through the page tables in Sv39 mode,
/// from the table that the page number register names on level 2. Other modes do not, and in
/// bare mode none does: there virtual addresses are physical addresses, and nothing changes.
pub proof fn law_modes_decide<C: Clint, P: Plic, U: Uart, D: VirtioBlockDisk>(
    state: State<C, P, U, D>,
    v_address: u64,
    access_type: MemoryAccessType,
)
    requires
        !state.page_cache_enabled,
    ensures
        ({
            let (result, after) = state.translate(v_address, access_type);
            let possible = state.can_translate(v_address, access_type);
            let mode = mode_number(state.privilege_mode, state.mstatus, access_type);
            match state.addressing_mode {
                AddressingMode::Bare => {
                    result == Ok::<u64, ()>(v_address) && after.bus == state.bus && possible
                },
                AddressingMode::SV39 => {
                    if mode == 0 || mode == 1 {
                        &&& (result, after.bus) == state.bus.walk(
                            v_address,
                            2,
                            state.ppn,
                            access_type,
                        )
                        &&& possible == state.bus.can_walk(
                            v_address,
                            2,
                            state.ppn,
                            access_type,
                        )
                    } else {
                        result == Ok::<u64, ()>(v_address) && after.bus == state.bus && possible
                    }
                },
                AddressingMode::SV48 => !possible,
            }
        }),
{
    lemma_mstatus(state.mstatus);
}

/// Bits of `mstatus` other than 11, 12 and 17 play no part, whatever they are.
pub proof fn law_other_mstatus_bits_play_no_part<
    C: Clint,
    P: Plic,
    U: Uart,
    D: VirtioBlockDisk,
>(
    state: State<C, P, U, D>,
    mstatus: u64,
    v_address: u64,
    access_type: MemoryAccessType,
)
    requires
        mstatus / 2048 % 4 == state.mstatus / 2048 % 4,
        mstatus / 131072 % 2 == state.mstatus / 131072 % 2,
    ensures
        ({
            let other = State { mstatus, ..state };
            let (result, after) = state.translate(v_address, access_type);
            &&& other.translate(v_address, access_type) == (result, State { mstatus, ..after })
            &&& other.can_translate(v_address, access_type) == state.can_translate(
                v_address,
                access_type,
            )
        }),
{
    lemma_mstatus(state.mstatus);
    lemma_mstatus(mstatus);
}

/// Outside machine mode, and for fetches, `mstatus` plays no part at all.
pub proof fn law_mstatus_is_for_machine_mode<C: Clint, P: Plic, U: Uart, D: VirtioBlockDisk>(
    state: State<C, P, U, D>,
    mstatus: u64,
    v_address: u64,
    access_type: MemoryAccessType,
)
    requires
        state.privilege_mode != PrivilegeMode::Machine || access_type
            == MemoryAccessType::Execute,
    ensures
        ({
            let other = State { mstatus, ..state };
            let (result, after) = state.translate(v_address, access_type);
            other.translate(v_address, access_type) == (result, State { mstatus, ..after })
        }),
{
}

/// A page that is in the page cache for the access is used as it is, and nothing changes.
/// Only that cache counts: fetches, loads and stores each have their own.
pub proof fn law_cached_pages_decide<C: Clint, P: Plic, U: Uart, D: VirtioBlockDisk>(
    state: State<C, P, U, D>,
    v_address: u64,
    access_type: MemoryAccessType,
)
    requires
        state.page_cache_enabled,
        state.is_well_formed(),
    ensures
        ({
            let page = (v_address - v_address % 4096) as u64;
            let offset = v_address as int % 4096;
            let (result, after) = state.translate(v_address, access_type);
            let possible = state.can_translate(v_address, access_type);
            &&& access_type == MemoryAccessType::Execute && state.fetch_cache.contains_key(page)
                ==> result == Ok::<u64, ()>((state.fetch_cache[page] + offset) as u64) && after
                == state && possible
            &&& access_type == MemoryAccessType::Read && state.load_cache.contains_key(page)
                ==> result == Ok::<u64, ()>((state.load_cache[page] + offset) as u64) && after
                == state && possible
            &&& access_type == MemoryAccessType::Write && state.store_cache.contains_key(page)
                ==> result == Ok::<u64, ()>((state.store_cache[page] + offset) as u64) && after
                == state && possible
        }),
{
}

/// A page that is not in the page cache for the access is looked up as if there were no page
/// caches. If it is found, it goes into that cache and into no other. Another privilege mode
/// that `mstatus` lends clears the caches before.
pub proof fn law_missing_pages_are_looked_up<C: Clint, P: Plic, U: Uart, D: VirtioBlockDisk>(
    state: State<C, P, U, D>,
    v_address: u64,
    access_type: MemoryAccessType,
)
    requires
        state.page_cache_enabled,
        match access_type {
            MemoryAccessType::Execute => !state.fetch_cache.contains_key(
                (v_address - v_address % 4096) as u64,
            ),
            MemoryAccessType::Read => !state.load_cache.contains_key(
                (v_address - v_address % 4096) as u64,
            ),
            MemoryAccessType::Write => !state.store_cache.contains_key(
                (v_address - v_address % 4096) as u64,
            ),
            MemoryAccessType::DontCare => true,
        },
    ensures
        ({
            let without = State { page_cache_enabled: false, ..state };
            let (result, after) = state.translate(v_address, access_type);
            let (expected, there) = without.translate(v_address, access_type);
            let page = (v_address - v_address % 4096) as u64;
            let frame = (result->Ok_0 - result->Ok_0 % 4096) as u64;
            let lent = state.addressing_mode == AddressingMode::SV39 && state.privilege_mode
                == PrivilegeMode::Machine && mode_number(
                state.privilege_mode,
                state.mstatus,
                access_type,
            ) != 3;
            let nothing = Map::<u64, u64>::empty();
            let kept_fetch = if lent {
                nothing
            } else {
                state.fetch_cache
            };
            let kept_load = if lent {
                nothing
            } else {
                state.load_cache
            };
            let kept_store = if lent {
                nothing
            } else {
                state.store_cache
            };
            &&& result == expected
            &&& after.bus == there.bus
            &&& state.can_translate(v_address, access_type) == without.can_translate(
                v_address,
                access_type,
            )
            &&& after.fetch_cache == (if result is Ok && access_type
                == MemoryAccessType::Execute {
                kept_fetch.insert(page, frame)
            } else {
                kept_fetch
            })
            &&& after.load_cache == (if result is Ok && access_type == MemoryAccessType::Read {
                kept_load.insert(page, frame)
            } else {
                kept_load
            })
            &&& after.store_cache == (if result is Ok && access_type
                == MemoryAccessType::Write {
                kept_store.insert(page, frame)
            } else {
                kept_store
            })
        }),
{
    lemma_mstatus(state.mstatus);
}

/// Page caches that are disabled play no part.
pub proof fn law_disabled_caches_play_no_part<C: Clint, P: Plic, U: Uart, D: VirtioBlockDisk>(
    state: State<C, P, U, D>,
    fetch_cache: Map<u64, u64>,
    load_cache: Map<u64, u64>,
    store_cache: Map<u64, u64>,
    v_address: u64,
    access_type: MemoryAccessType,
)
    requires
        !state.page_cache_enabled,
    ensures
        ({
            let other = State { fetch_cache, load_cache, store_cache, ..state };
            &&& other.translate(v_address, access_type).0 == state.translate(
                v_address,
                access_type,
            ).0
            &&& other.translate(v_address, access_type).1.bus == state.translate(
                v_address,
                access_type,
            ).1.bus
        }),
{
}

/// Clearing the page caches makes every translation what it is without page caches, and
/// changes nothing else.
pub proof fn law_clearing_forgets_all_pages<C: Clint, P: Plic, U: Uart, D: VirtioBlockDisk>(
    state: State<C, P, U, D>,
    v_address: u64,
    access_type: MemoryAccessType,
)
    ensures
        ({
            let without = State { page_cache_enabled: false, ..state };
            let cleared = state.cleared();
            &&& cleared.translate(v_address, access_type).0 == without.translate(
                v_address,
                access_type,
            ).0
            &&& cleared.translate(v_address, access_type).1.bus == without.translate(
                v_address,
                access_type,
            ).1.bus
            &&& State {
                fetch_cache: state.fetch_cache,
                load_cache: state.load_cache,
                store_cache: state.store_cache,
                ..cleared
            } == state
        }),
{
}

/// The page table entry at a physical address in main memory.
pub open spec fn entry_in(memory: Seq<u8>, at: int) -> int {
    doubleword_of(memory.subrange(at - 2147483648, at - 2147483648 + 8))
}

/// Whether main memory, which starts at 2 GiB, has an entry at a physical address.
pub open spec fn has_entry_at(memory: Seq<u8>, at: int) -> bool {
    2147483648 <= at && at - 2147483648 + 8 <= memory.len() && at + 7 <= u64::MAX
}

/// The number of the table on a level that the entries above lead to.
pub open spec fn table_on(memory: Seq<u8>, root: u64, v_address: u64, level: nat) -> u64
    decreases 2 - level,
{
    if level >= 2 {
        root
    } else {
        let above = table_on(memory, root, v_address, level + 1);
        (target_of(entry_in(memory, slot_of(above, v_address, level + 1))) / 4096) as u64
    }
}

/// Whether entries in main memory with V and without R, W and X lead from the root to a
/// level, and there is an entry on it.
pub open spec fn leads_to(memory: Seq<u8>, root: u64, v_address: u64, level: nat) -> bool
    decreases 2 - level,
{
    let at = slot_of(table_on(memory, root, v_address, level), v_address, level);
    &&& has_entry_at(memory, at)
    &&& level < 2 ==> {
        let above = table_on(memory, root, v_address, level + 1);
        &&& leads_to(memory, root, v_address, level + 1)
        &&& entry_in(memory, slot_of(above, v_address, level + 1)) % 16 == 1
    }
}

/// The outcome of a translation in Sv39 mode, in user or supervisor mode without page
/// caches, when page tables in main memory lead to an entry on some level that does not lead
/// on: the level of 4 KiB, of 2 MiB or of 1 GiB pages.
///
/// The address is found, at its offset in the page, exactly if the entry has V, does not have
/// W without R, has R or X and the flag for the access, and its page is aligned. The missing
/// marks are added to the first byte of an entry that maps a page, found or not. Nothing else
/// changes.
pub proof fn law_pages_are_found<C: Clint, P: Plic, U: Uart, D: VirtioBlockDisk>(
    state: State<C, P, U, D>,
    v_address: u64,
    level: nat,
    access_type: MemoryAccessType,
)
    requires
        !state.page_cache_enabled,
        state.addressing_mode == AddressingMode::SV39,
        state.privilege_mode == PrivilegeMode::User || state.privilege_mode
            == PrivilegeMode::Supervisor,
        level <= 2,
        leads_to(state.bus.memory, state.ppn, v_address, level),
        ({
            let table = table_on(state.bus.memory, state.ppn, v_address, level);
            level == 0 || entry_in(state.bus.memory, slot_of(table, v_address, level)) % 16 != 1
        }),
    ensures
        ({
            let memory = state.bus.memory;
            let table = table_on(memory, state.ppn, v_address, level);
            let at = slot_of(table, v_address, level);
            let pte = entry_in(memory, at);
            let (result, after) = state.translate(v_address, access_type);
            let maps = pte % 2 == 1 && (pte / 2 % 2 == 1 || (pte / 4 % 2 == 0 && pte / 8 % 2
                == 1));
            let marks = missing_marks(pte, access_type);
            &&& state.can_translate(v_address, access_type)
            &&& result is Ok <==> maps && has_flag_for(pte, access_type) && target_of(pte)
                % page_size(level) == 0
            &&& result is Ok ==> result->Ok_0 == target_of(pte) + v_address as int % page_size(
                level,
            )
            &&& after.bus == Bus {
                memory: if maps && marks > 0 {
                    memory.update(at - 2147483648, (memory[at - 2147483648] + marks) as u8)
                } else {
                    memory
                },
                ..state.bus
            }
        }),
{
    let table = table_on(state.bus.memory, state.ppn, v_address, level);
    law_modes_decide(state, v_address, access_type);
    lemma_leads_to(state.bus, state.ppn, v_address, level, access_type);
    lemma_step_in_memory(state.bus, v_address, level, table, access_type);
}

/// One step of a walk that reads an entry in main memory.
proof fn lemma_step_in_memory<C: Clint, P: Plic, U: Uart, D: VirtioBlockDisk>(
    bus: Bus<C, P, U, D>,
    v_address: u64,
    level: nat,
    table: u64,
    access_type: MemoryAccessType,
)
    requires
        level <= 2,
        has_entry_at(bus.memory, slot_of(table, v_address, level)),
    ensures
        ({
            let memory = bus.memory;
            let at = slot_of(table, v_address, level);
            let pte = entry_in(memory, at);
            let (result, after) = bus.walk(v_address, level, table, access_type);
            let possible = bus.can_walk(v_address, level, table, access_type);
            if pte % 16 == 1 && level > 0 {
                let below = (level - 1) as nat;
                let next = (target_of(pte) / 4096) as u64;
                &&& (result, after) == bus.walk(v_address, below, next, access_type)
                &&& possible == bus.can_walk(v_address, below, next, access_type)
            } else {
                let maps = pte % 2 == 1 && (pte / 2 % 2 == 1 || (pte / 4 % 2 == 0 && pte / 8 % 2
                    == 1));
                let marks = missing_marks(pte, access_type);
                &&& possible
                &&& result is Ok <==> maps && has_flag_for(pte, access_type) && target_of(pte)
                    % page_size(level) == 0
                &&& result is Ok ==> result->Ok_0 == target_of(pte) + v_address as int
                    % page_size(level)
                &&& after == Bus {
                    memory: if maps && marks > 0 {
                        memory.update(at - 2147483648, (memory[at - 2147483648] + marks) as u8)
                    } else {
                        memory
                    },
                    ..bus
                }
            }
        }),
{
    let at = slot_of(table, v_address, level);
    let pte = entry_in(bus.memory, at);
    law_walk_step(bus, v_address, level, table, access_type);
    lemma_entry_access(bus, at, access_type);
    lemma_low_bits(pte);
    assert(bus == Bus { memory: bus.memory, ..bus });
}

/// The four low bits of a number.
proof fn lemma_low_bits(pte: int)
    requires
        0 <= pte,
    ensures
        pte % 16 == 1 <==> pte % 2 == 1 && pte / 2 % 2 == 0 && pte / 4 % 2 == 0 && pte / 8 % 2
            == 0,
{
}

/// Reading and marking an entry in main memory.
proof fn lemma_entry_access<C: Clint, P: Plic, U: Uart, D: VirtioBlockDisk>(
    bus: Bus<C, P, U, D>,
    at: int,
    access_type: MemoryAccessType,
)
    requires
        has_entry_at(bus.memory, at),
    ensures
        ({
            let (bytes, read) = bus.load_all(at as u64, 8);
            let offset = at - 2147483648;
            &&& read == bus
            &&& bytes == bus.memory.subrange(offset, offset + 8)
            &&& doubleword_of(bytes) == entry_in(bus.memory, at)
            &&& 0 <= entry_in(bus.memory, at)
            &&& crate::bus::all_loadable(bus.memory.len(), at as u64, 8)
            &&& crate::bus::all_storable(bus.memory.len(), at as u64, 8)
            &&& bus.store_all(at as u64, with_marks(bytes, access_type)) == Bus {
                memory: bus.memory.update(
                    offset,
                    (bus.memory[offset] + missing_marks(entry_in(bus.memory, at), access_type))
                        as u8,
                ),
                ..bus
            }
        }),
{
    let p_address = at as u64;
    let offset = at - 2147483648;
    let bytes = bus.memory.subrange(offset, offset + 8);
    assert(holds(bus.memory.len(), p_address, 8));
    assert(0 <= doubleword_of(bytes)) by {
        reveal(doubleword_of);
    }
    bus.lemma_load_all_dram(p_address, 8);
    bus.lemma_store_all_dram(p_address, with_marks(bytes, access_type));
    assert(bus.store_all(p_address, with_marks(bytes, access_type)).memory
        =~= bus.memory.update(
        offset,
        (bus.memory[offset] + missing_marks(entry_in(bus.memory, at), access_type)) as u8,
    ));
    assert forall|i: int| 0 <= i < 8 implies #[trigger] crate::address_map::address_after(
        p_address,
        i,
    ) == at + i by {}
}

/// Entries that lead on do so.
proof fn lemma_leads_to<C: Clint, P: Plic, U: Uart, D: VirtioBlockDisk>(
    bus: Bus<C, P, U, D>,
    root: u64,
    v_address: u64,
    level: nat,
    access_type: MemoryAccessType,
)
    requires
        level <= 2,
        leads_to(bus.memory, root, v_address, level),
    ensures
        ({
            let table = table_on(bus.memory, root, v_address, level);
            &&& bus.walk(v_address, 2, root, access_type) == bus.walk(
                v_address,
                level,
                table,
                access_type,
            )
            &&& bus.can_walk(v_address, 2, root, access_type) == bus.can_walk(
                v_address,
                level,
                table,
                access_type,
            )
        }),
    decreases 2 - level,
{
    if level < 2 {
        reveal_with_fuel(leads_to, 2);
        let above = table_on(bus.memory, root, v_address, level + 1);
        lemma_leads_to(bus, root, v_address, level + 1, access_type);
        lemma_step_in_memory(bus, v_address, level + 1, above, access_type);
    }
}

} // verus!
