//! What the bits of virtual addresses and of page table entries mean, in numbers.
//!
//! A page table entry is a number of 64 bits. From bit 0 on it has the flags V, R, W and X,
//! in bits 6 and 7 the flags A and D, and from bit 10 on the 44 bits of a page number.
use crate::bus::{all_loadable, all_storable, Bus};
use crate::bus_laws::law_numbers_are_read_little_endian;
use crate::device::{Clint, Plic, Uart, VirtioBlockDisk};
use crate::endian::{
    le_bytes, le_value, lemma_bytes_of_value, lemma_le_value_bound, lemma_weights,
};
use crate::sv39::{
    is_aligned, is_broken, is_leaf, is_pointer, leaf_translation, marked, needs_marking,
    permits, ppn_of, pte_address, span, MemoryAccessType,
};
use vstd::prelude::*;

verus! {

/// The number that eight bytes stand for.
#[verifier::opaque]
pub open spec fn doubleword_of(bytes: Seq<u8>) -> int {
    bytes[0] + 0x100 * bytes[1] + 0x1_0000 * bytes[2] + 0x100_0000 * bytes[3] + 0x1_0000_0000
        * bytes[4] + 0x100_0000_0000 * bytes[5] + 0x1_0000_0000_0000 * bytes[6]
        + 0x100_0000_0000_0000 * bytes[7]
}

/// How many bytes an entry on a level maps: 4 KiB, 2 MiB, 1 GiB.
#[verifier::opaque]
pub open spec fn page_size(level: nat) -> int {
    if level == 0 {
        4096
    } else if level == 1 {
        2097152
    } else {
        1073741824
    }
}

/// The table that an entry refers to, or the start of the page, as an address.
#[verifier::opaque]
pub open spec fn target_of(pte: int) -> int {
    pte / 1024 % 17592186044416 * 4096
}

/// Where the page table entry for `v_address` is in the table with number `table`: tables
/// have 512 entries of eight bytes, and each level goes by nine bits of the address.
#[verifier::opaque]
pub open spec fn slot_of(table: u64, v_address: u64, level: nat) -> int {
    table * 4096 + 8 * (v_address as int / page_size(level) % 512)
}

/// Whether an entry has the flag for an access: X to execute, R to read, W to write.
#[verifier::opaque]
pub open spec fn has_flag_for(pte: int, access_type: MemoryAccessType) -> bool {
    match access_type {
        MemoryAccessType::Execute => pte / 8 % 2 == 1,
        MemoryAccessType::Read => pte / 2 % 2 == 1,
        MemoryAccessType::Write => pte / 4 % 2 == 1,
        MemoryAccessType::DontCare => true,
    }
}

/// What the marks that an access still has to set add to an entry: 64 for A, and for a
/// write 128 for D.
#[verifier::opaque]
pub open spec fn missing_marks(pte: int, access_type: MemoryAccessType) -> int {
    (if pte / 64 % 2 == 0 {
        64int
    } else {
        0int
    }) + (if access_type == MemoryAccessType::Write && pte / 128 % 2 == 0 {
        128int
    } else {
        0int
    })
}

/// Eight bytes of an entry with the missing marks set. They are in the first byte.
pub open spec fn with_marks(bytes: Seq<u8>, access_type: MemoryAccessType) -> Seq<u8> {
    bytes.update(0, (bytes[0] + missing_marks(doubleword_of(bytes), access_type)) as u8)
}

/// The walk looks up an address in the entry that nine of its bits select on each level:
/// bits 12 to 20, 21 to 29 and 30 to 38.
pub proof fn law_entry_addresses(table: u64, v_address: u64)
    ensures
        pte_address(table, v_address, 0) == table * 4096 + 8 * (v_address as int / 4096 % 512),
        pte_address(table, v_address, 1) == table * 4096 + 8 * (v_address as int / 2097152
            % 512),
        pte_address(table, v_address, 2) == table * 4096 + 8 * (v_address as int / 1073741824
            % 512),
{
    assert({
        &&& (v_address >> 12) & 0x1ff == v_address / 4096 % 512
        &&& (v_address >> 21) & 0x1ff == v_address / 2097152 % 512
        &&& (v_address >> 30) & 0x1ff == v_address / 1073741824 % 512
    }) by (bit_vector);
}

/// Addresses that differ in any of bits 12 to 38 are looked up in different entries on some
/// level, and addresses that agree in them in the same.
pub proof fn law_entries_tell_pages_apart(table: u64, first: u64, second: u64)
    ensures
        first as int / 4096 % 134217728 == second as int / 4096 % 134217728 <==> {
            &&& pte_address(table, first, 0) == pte_address(table, second, 0)
            &&& pte_address(table, first, 1) == pte_address(table, second, 1)
            &&& pte_address(table, first, 2) == pte_address(table, second, 2)
        },
{
    law_entry_addresses(table, first);
    law_entry_addresses(table, second);
    assert((first / 4096 % 134217728 == second / 4096 % 134217728) == (first / 4096 % 512
        == second / 4096 % 512 && first / 2097152 % 512 == second / 2097152 % 512 && first
        / 1073741824 % 512 == second / 1073741824 % 512)) by (bit_vector);
}

/// Whether a leaf is accepted depends on bits 0 to 3 of the entry and on its page number
/// alone: bits 4 to 9 and those above the page number play no part.
pub proof fn law_other_entry_bits_play_no_part(
    first: u64,
    second: u64,
    v_address: u64,
    level: nat,
    access_type: MemoryAccessType,
)
    requires
        level <= 2,
        first % 16 == second % 16,
        first as int / 1024 % 17592186044416 == second as int / 1024 % 17592186044416,
    ensures
        is_leaf(first) == is_leaf(second),
        is_pointer(first) == is_pointer(second),
        leaf_translation(first, v_address, level, access_type) == leaf_translation(
            second,
            v_address,
            level,
            access_type,
        ),
{
    reveal(has_flag_for);
    lemma_entry_fields(first, access_type);
    lemma_entry_fields(second, access_type);
    assert(first % 16 == second % 16 ==> {
        &&& first % 2 == second % 2
        &&& first % 8 / 2 == second % 8 / 2
        &&& first / 2 % 2 == second / 2 % 2
        &&& first / 4 % 2 == second / 4 % 2
        &&& first / 8 % 2 == second / 8 % 2
    }) by (bit_vector);
    assert(ppn_of(first) == ppn_of(second));
    assert(permits(first, access_type) == permits(second, access_type));
    if let Err(nothing) = leaf_translation(first, v_address, level, access_type) {
        assert(nothing == ());
    }
    if let Err(nothing) = leaf_translation(second, v_address, level, access_type) {
        assert(nothing == ());
    }
}

/// The fields of an entry as numbers.
proof fn lemma_entry_fields(pte: u64, access_type: MemoryAccessType)
    ensures
        is_broken(pte) == (pte % 2 == 0 || pte % 8 / 2 == 2),
        is_pointer(pte) == (pte % 16 == 1),
        permits(pte, access_type) == has_flag_for(pte as int, access_type),
        needs_marking(pte, access_type) == (missing_marks(pte as int, access_type) > 0),
        needs_marking(pte, access_type) ==> marked(pte, access_type) == pte + missing_marks(
            pte as int,
            access_type,
        ),
        ppn_of(pte) == pte as int / 1024 % 17592186044416,
{
    reveal(has_flag_for);
    reveal(missing_marks);
    assert({
        &&& (pte >> 0) & 1 == pte % 2
        &&& (pte >> 1) & 1 == pte / 2 % 2
        &&& (pte >> 2) & 1 == pte / 4 % 2
        &&& (pte >> 3) & 1 == pte / 8 % 2
        &&& (pte >> 6) & 1 == pte / 64 % 2
        &&& (pte >> 7) & 1 == pte / 128 % 2
        &&& (pte >> 10) & 0xfff_ffff_ffff == pte / 1024 % 17592186044416
        &&& pte % 8 / 2 == 2 <==> pte / 2 % 2 == 0 && pte / 4 % 2 == 1
        &&& pte % 16 == 1 <==> pte % 2 == 1 && pte / 2 % 2 == 0 && pte / 4 % 2 == 0 && pte / 8
            % 2 == 0
    }) by (bit_vector);
    assert({
        &&& pte | 0x40 == (if pte / 64 % 2 == 0 {
            pte + 64
        } else {
            pte as int
        })
        &&& (pte | 0x40 | 0x80) == (if pte / 64 % 2 == 0 {
            if pte / 128 % 2 == 0 {
                pte + 192
            } else {
                pte + 64
            }
        } else {
            if pte / 128 % 2 == 0 {
                pte + 128
            } else {
                pte as int
            }
        })
    }) by (bit_vector);
}

/// Eight bytes as a number.
pub proof fn lemma_doubleword(bytes: Seq<u8>)
    requires
        bytes.len() == 8,
    ensures
        le_value(bytes) == doubleword_of(bytes),
        le_value(bytes) <= u64::MAX,
{
    reveal(doubleword_of);
    lemma_weights();
    lemma_le_value_bound(bytes);
    assert forall|i: int| 0 <= i < 8 implies le_value(#[trigger] bytes.subrange(i, 8))
        == bytes[i] + 256 * le_value(bytes.subrange(i + 1, 8)) by {
        law_numbers_are_read_little_endian(bytes[i], bytes.subrange(i + 1, 8));
        assert(seq![bytes[i]] + bytes.subrange(i + 1, 8) =~= bytes.subrange(i, 8));
    }
    assert(bytes.subrange(0, 8) =~= bytes);
    assert(bytes.subrange(8, 8) =~= Seq::empty());
    law_numbers_are_read_little_endian(0, Seq::empty());
    assert(le_value(bytes.subrange(7, 8)) == bytes[7]);
    assert(le_value(bytes.subrange(6, 8)) == bytes[6] + 256 * le_value(bytes.subrange(7, 8)));
    assert(le_value(bytes.subrange(5, 8)) == bytes[5] + 256 * le_value(bytes.subrange(6, 8)));
    assert(le_value(bytes.subrange(4, 8)) == bytes[4] + 256 * le_value(bytes.subrange(5, 8)));
    assert(le_value(bytes.subrange(3, 8)) == bytes[3] + 256 * le_value(bytes.subrange(4, 8)));
    assert(le_value(bytes.subrange(2, 8)) == bytes[2] + 256 * le_value(bytes.subrange(3, 8)));
    assert(le_value(bytes.subrange(1, 8)) == bytes[1] + 256 * le_value(bytes.subrange(2, 8)));
}

/// Missing marks fit the low byte of an entry.
proof fn lemma_marks_fit(pte: u64, low: u8, access_type: MemoryAccessType)
    requires
        pte % 256 == low,
    ensures
        low + missing_marks(pte as int, access_type) < 256,
{
    reveal(missing_marks);
    assert({
        &&& pte / 64 % 2 == low / 64 % 2
        &&& pte / 128 % 2 == low / 128 % 2
        &&& low / 64 % 2 == 0 ==> low <= 191
        &&& low / 128 % 2 == 0 ==> low <= 127
        &&& low / 64 % 2 == 0 && low / 128 % 2 == 0 ==> low <= 63
    }) by (bit_vector)
        requires
            pte % 256 == low,
    ;
}

/// Adding to the first byte of a number adds to the number.
proof fn lemma_add_to_first_byte(bytes: Seq<u8>, more: int)
    requires
        bytes.len() == 8,
        0 <= more,
        bytes[0] + more < 256,
    ensures
        le_value(bytes.update(0, (bytes[0] + more) as u8)) == le_value(bytes) + more,
{
    lemma_doubleword(bytes);
    lemma_doubleword(bytes.update(0, (bytes[0] + more) as u8));
    reveal(doubleword_of);
}

/// Marks that are added to an entry change its first byte only.
proof fn lemma_marked_bytes(bytes: Seq<u8>, access_type: MemoryAccessType)
    requires
        bytes.len() == 8,
        missing_marks(doubleword_of(bytes), access_type) > 0,
    ensures
        le_bytes(marked(le_value(bytes) as u64, access_type) as nat, 8) == with_marks(
            bytes,
            access_type,
        ),
{
    lemma_doubleword(bytes);
    let pte = le_value(bytes) as u64;
    let low = bytes[0];
    assert(pte % 256 == low) by {
        reveal(doubleword_of);
    }
    lemma_marks_fit(pte, low, access_type);
    lemma_add_to_first_byte(bytes, missing_marks(pte as int, access_type));
    lemma_entry_fields(pte, access_type);
    lemma_bytes_of_value(with_marks(bytes, access_type));
}

/// One step of a walk through page tables, wherever the entry lies that it reads.
///
/// - An entry without V, or with W but not R, ends the walk with a fault.
/// - One with none of R, W and X refers to the table on the next level. On the last level
///   it is a fault.
/// - Any other maps a page. Missing marks are set, and then the page is accepted if it has
///   the flag for the access and is aligned to its size. The address keeps its offset.
pub proof fn law_walk_step<C: Clint, P: Plic, U: Uart, D: VirtioBlockDisk>(
    bus: Bus<C, P, U, D>,
    v_address: u64,
    level: nat,
    table: u64,
    access_type: MemoryAccessType,
)
    requires
        level <= 2,
        slot_of(table, v_address, level) <= u64::MAX,
    ensures
        ({
            let at = slot_of(table, v_address, level) as u64;
            let size = bus.memory.len();
            let (bytes, read) = bus.load_all(at, 8);
            let pte = doubleword_of(bytes);
            let (result, after) = bus.walk(v_address, level, table, access_type);
            let possible = bus.can_walk(v_address, level, table, access_type);
            if pte % 2 == 0 || (pte / 2 % 2 == 0 && pte / 4 % 2 == 1) {
                &&& result is Err
                &&& after == read
                &&& possible == all_loadable(size, at, 8)
            } else if pte % 16 == 1 {
                if level == 0 {
                    &&& result is Err
                    &&& after == read
                    &&& possible == all_loadable(size, at, 8)
                } else {
                    let below = (level - 1) as nat;
                    let next = (target_of(pte) / 4096) as u64;
                    &&& (result, after) == read.walk(v_address, below, next, access_type)
                    &&& possible == (all_loadable(size, at, 8) && read.can_walk(
                        v_address,
                        below,
                        next,
                        access_type,
                    ))
                }
            } else {
                let accepted = has_flag_for(pte, access_type) && target_of(pte) % page_size(level)
                    == 0;
                let marks = missing_marks(pte, access_type);
                &&& result is Ok <==> accepted
                &&& accepted ==> result->Ok_0 == target_of(pte) + v_address as int % page_size(
                    level,
                )
                &&& after == (if marks > 0 {
                    read.store_all(at, with_marks(bytes, access_type))
                } else {
                    read
                })
                &&& possible == (all_loadable(size, at, 8) && (marks > 0 ==> all_storable(
                    size,
                    at,
                    8,
                )))
            }
        }),
{
    let at = slot_of(table, v_address, level) as u64;
    let (bytes, read) = bus.load_all(at, 8);
    let pte = le_value(bytes) as u64;
    lemma_step_reads(bus, v_address, level, table);
    lemma_doubleword(bytes);
    lemma_step_decides(bus, v_address, level, table, access_type);
    lemma_entry_fields(pte, access_type);
    assert(pte % 8 / 2 == 2 <==> pte / 2 % 2 == 0 && pte / 4 % 2 == 1) by (bit_vector);
    if missing_marks(pte as int, access_type) > 0 {
        lemma_marked_bytes(bytes, access_type);
    }
    lemma_outcome(pte, v_address, level, access_type);
    assert((target_of(pte as int) / 4096) as u64 == ppn_of(pte)) by {
        reveal(target_of);
    }
}

/// The entry that a step of a walk reads.
proof fn lemma_step_reads<C: Clint, P: Plic, U: Uart, D: VirtioBlockDisk>(
    bus: Bus<C, P, U, D>,
    v_address: u64,
    level: nat,
    table: u64,
)
    requires
        level <= 2,
        slot_of(table, v_address, level) <= u64::MAX,
    ensures
        pte_address(table, v_address, level) == slot_of(table, v_address, level),
        ({
            let at = slot_of(table, v_address, level) as u64;
            let (bytes, read) = bus.load_all(at, 8);
            &&& bytes.len() == 8
            &&& bus.load_pte(at) == (le_value(bytes) as u64, read)
            &&& read.memory.len() == bus.memory.len()
        }),
{
    reveal(slot_of);
    reveal(page_size);
    law_entry_addresses(table, v_address);
    bus.lemma_load_all(slot_of(table, v_address, level) as u64, 8);
}

/// What a step of a walk does with the entry.
proof fn lemma_step_decides<C: Clint, P: Plic, U: Uart, D: VirtioBlockDisk>(
    bus: Bus<C, P, U, D>,
    v_address: u64,
    level: nat,
    table: u64,
    access_type: MemoryAccessType,
)
    requires
        pte_address(table, v_address, level) <= u64::MAX,
    ensures
        ({
            let at = pte_address(table, v_address, level) as u64;
            let size = bus.memory.len();
            let (pte, read) = bus.load_pte(at);
            let (result, after) = bus.walk(v_address, level, table, access_type);
            let possible = bus.can_walk(v_address, level, table, access_type);
            if is_broken(pte) || (is_pointer(pte) && level == 0) {
                result is Err && after == read && possible == all_loadable(size, at, 8)
            } else if is_pointer(pte) {
                let below = (level - 1) as nat;
                &&& (result, after) == read.walk(v_address, below, ppn_of(pte), access_type)
                &&& possible == (all_loadable(size, at, 8) && read.can_walk(
                    v_address,
                    below,
                    ppn_of(pte),
                    access_type,
                ))
            } else {
                &&& result == leaf_translation(pte, v_address, level, access_type)
                &&& after == (if needs_marking(pte, access_type) {
                    read.store_all(at, le_bytes(marked(pte, access_type) as nat, 8))
                } else {
                    read
                })
                &&& possible == (all_loadable(size, at, 8) && (needs_marking(pte, access_type)
                    ==> all_storable(size, at, 8)))
            }
        }),
{
}

/// What a leaf maps to.
proof fn lemma_outcome(pte: u64, v_address: u64, level: nat, access_type: MemoryAccessType)
    requires
        level <= 2,
    ensures
        ({
            let result = leaf_translation(pte, v_address, level, access_type);
            let accepted = has_flag_for(pte as int, access_type) && target_of(pte as int)
                % page_size(level) == 0;
            &&& result is Ok <==> accepted
            &&& accepted ==> result->Ok_0 == target_of(pte as int) + v_address as int
                % page_size(level)
        }),
{
    reveal(target_of);
    reveal(page_size);
    lemma_entry_fields(pte, access_type);
    crate::sv39::lemma_leaf_translation(pte, v_address, level, access_type);
    assert(span(level) == page_size(level));
    assert(ppn_of(pte) * 0x1000 == target_of(pte as int));
    assert(is_aligned(pte, level) == (target_of(pte as int) % page_size(level) == 0));
}

} // verus!
