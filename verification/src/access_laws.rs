//! What loads give back of stores, and that accesses within a page agree with accesses
//! byte by byte.
use crate::address_map::{address_after, lemma_offset_after};
use crate::bus::{all_loadable, all_storable, loadable, storable, Bus};
use crate::cpu::{PrivilegeMode, Trap};
use crate::device::{Clint, Plic, Uart, VirtioBlockDisk};
use crate::dram::{holds, DRAM_BASE};
use crate::laws::{
    differs_by_marks, law_memory_reads_back, law_pages_are_translated_alike,
    law_translation_only_sets_marks,
};
use crate::model::{fault, in_one_page, maps_to_self, AddressingMode, State};
use crate::sv39::{page_of, MemoryAccessType, PAGE_SIZE};
use vstd::prelude::*;

verus! {

/// Bytes within a page do not wrap around.
pub proof fn lemma_within_page(v_address: u64, width: nat, i: int)
    requires
        in_one_page(v_address, width),
        0 <= i < width,
    ensures
        address_after(v_address, i) == v_address + i,
        address_after(v_address, i) % PAGE_SIZE == v_address % PAGE_SIZE + i,
        page_of(address_after(v_address, i)) == page_of(v_address),
{
    let v = v_address as int;
    assert(v % 0x1000 + i < 0x1000);
    assert(v - v % 0x1000 + 0x1000 <= 0x1_0000_0000_0000_0000);
    lemma_offset_after(v_address, i);
    assert((v + i) % 0x1000 == v % 0x1000 + i);
}

/// Where bytes within a page are found.
proof fn lemma_found_within_page(v_address: u64, p_address: u64, width: nat, i: int)
    requires
        in_one_page(v_address, width),
        0 <= i < width,
        p_address % PAGE_SIZE == v_address % PAGE_SIZE,
    ensures
        page_of(address_after(v_address, i)) == page_of(v_address),
        page_of(p_address) + address_after(v_address, i) % PAGE_SIZE == p_address + i,
        p_address + width <= 0x1_0000_0000_0000_0000,
{
    lemma_within_page(v_address, width, i);
    let p = p_address as int;
    assert(p - p % 0x1000 + 0x1000 <= 0x1_0000_0000_0000_0000);
}

/// Loading the bytes of a page with one translation gives the same as loading them one
/// by one, from wherever they are loaded, when the page tables lie in main memory or in
/// the device tree.
pub proof fn law_page_loads_are_bytewise<C: Clint, P: Plic, U: Uart, D: VirtioBlockDisk>(
    state: State<C, P, U, D>,
    access_type: MemoryAccessType,
    v_address: u64,
    width: nat,
)
    requires
        state.is_well_formed(),
        0 < width,
        in_one_page(v_address, width),
        state.can_load_together(access_type, v_address, width),
        state.translates_in_memory(v_address, access_type),
    ensures
        state.can_load_each(access_type, v_address, width),
        state.load_each(access_type, v_address, width) == state.load_together(
            access_type,
            v_address,
            width,
        ),
    decreases width,
{
    let (translation, after) = state.translate(v_address, access_type);
    let i = (width - 1) as nat;
    if i == 0 {
        lemma_load_each_one(state, access_type, v_address);
    } else {
        if let Ok(p_address) = translation {
            assert forall|j: int| 0 <= j < i implies loadable(
                state.bus.memory.len(),
                #[trigger] address_after(p_address, j),
            ) by {}
        }
        law_page_loads_are_bytewise(state, access_type, v_address, i);
        if translation is Ok {
            lemma_load_next(state, access_type, v_address, i, width);
        }
    }
}

/// A load gives what loading its bytes one by one gives, or the first fault of these,
/// within a page and across pages.
pub proof fn law_loads_are_bytewise<C: Clint, P: Plic, U: Uart, D: VirtioBlockDisk>(
    state: State<C, P, U, D>,
    access_type: MemoryAccessType,
    v_address: u64,
    width: nat,
)
    requires
        state.is_well_formed(),
        0 < width,
        state.can_load(access_type, v_address, width),
        in_one_page(v_address, width) ==> state.translates_in_memory(v_address, access_type),
    ensures
        state.can_load_each(access_type, v_address, width),
        state.load(access_type, v_address, width) == state.load_each(
            access_type,
            v_address,
            width,
        ),
{
    if in_one_page(v_address, width) {
        law_page_loads_are_bytewise(state, access_type, v_address, width);
    }
}

/// A bytewise load of one byte.
proof fn lemma_load_each_one<C: Clint, P: Plic, U: Uart, D: VirtioBlockDisk>(
    state: State<C, P, U, D>,
    access_type: MemoryAccessType,
    v_address: u64,
)
    ensures
        state.load_each(access_type, v_address, 1) == state.load_together(
            access_type,
            v_address,
            1,
        ),
        state.can_load_each(access_type, v_address, 1) == state.can_load_together(
            access_type,
            v_address,
            1,
        ),
{
    reveal_with_fuel(State::load_each, 2);
    reveal_with_fuel(State::can_load_each, 2);
    assert(address_after(v_address, 0) == v_address);
    if let Ok(bytes) = state.load_together(access_type, v_address, 1).0 {
        assert(Seq::empty() + bytes =~= bytes);
    }
}

/// Whether a state is another one but for main memory, where it may differ in `width`
/// bytes from `changed` on, and for the devices.
spec fn changed_only_at<C, P, U, D>(
    state: State<C, P, U, D>,
    later: State<C, P, U, D>,
    changed: u64,
    width: nat,
) -> bool {
    &&& later == State { bus: later.bus, ..state }
    &&& later.bus.dtb == state.bus.dtb
    &&& later.bus.memory.len() == state.bus.memory.len()
    &&& forall|i: int|
        0 <= i < state.bus.memory.len() && !(changed - DRAM_BASE <= i < changed - DRAM_BASE
            + width) ==> #[trigger] later.bus.memory[i] == state.bus.memory[i]
}

/// After a translation, and changes to main memory apart from the page tables, the address
/// is translated as before.
proof fn lemma_translate_after_change<C: Clint, P: Plic, U: Uart, D: VirtioBlockDisk>(
    state: State<C, P, U, D>,
    v_address: u64,
    access_type: MemoryAccessType,
    changed: u64,
    width: nat,
    later: State<C, P, U, D>,
)
    requires
        state.is_well_formed(),
        state.can_translate(v_address, access_type),
        state.translates_in_memory(v_address, access_type),
        state.translates_apart_from(v_address, access_type, changed, width),
        state.translate(v_address, access_type).0 is Ok,
        changed_only_at(state.translate(v_address, access_type).1, later, changed, width),
    ensures
        later.is_well_formed(),
        later.can_translate(v_address, access_type),
        later.translate(v_address, access_type).1 == later,
        later.translate(v_address, access_type).0 is Ok,
        page_of(later.translate(v_address, access_type).0->Ok_0) == page_of(
            state.translate(v_address, access_type).0->Ok_0,
        ),
{
    state.lemma_translate(v_address, access_type);
    let after = state.translate(v_address, access_type).1;
    if !state.is_cached(v_address, access_type) && state.is_paged(access_type) {
        state.bus.lemma_walk_in_memory(v_address, 2, state.ppn, access_type);
        state.bus.lemma_walk(v_address, 2, state.ppn, access_type);
        state.bus.lemma_walk_after_change(
            v_address,
            2,
            state.ppn,
            access_type,
            changed,
            width,
            later.bus,
        );
    }
    assert(later.can_translate(v_address, access_type));
    if after.is_cached(v_address, access_type) {
        assert(later.translate(v_address, access_type).1 == later);
    } else {
        assert(later.translate(v_address, access_type).1 =~= later);
    }
    later.lemma_translate(v_address, access_type);
}

/// Where one address of a page is translated without a change, so are the others.
proof fn lemma_page_rests<C: Clint, P: Plic, U: Uart, D: VirtioBlockDisk>(
    state: State<C, P, U, D>,
    v_address: u64,
    other: u64,
    access_type: MemoryAccessType,
)
    requires
        state.is_well_formed(),
        state.can_translate(v_address, access_type),
        state.translate(v_address, access_type).0 is Ok,
        state.translate(v_address, access_type).1 == state,
        page_of(other) == page_of(v_address),
    ensures
        state.can_translate(other, access_type),
        ({
            let p_address = state.translate(v_address, access_type).0->Ok_0;
            state.translate(other, access_type) == (
                Ok::<u64, ()>((page_of(p_address) + other % PAGE_SIZE) as u64),
                state,
            )
        }),
{
    law_pages_are_translated_alike(state, v_address, other, access_type);
    state.lemma_translate(other, access_type);
}

/// After a translation, and changes to main memory apart from the page tables, addresses
/// in the page are translated as before.
proof fn lemma_translate_page_after_change<C: Clint, P: Plic, U: Uart, D: VirtioBlockDisk>(
    state: State<C, P, U, D>,
    v_address: u64,
    access_type: MemoryAccessType,
    changed: u64,
    width: nat,
    later: State<C, P, U, D>,
    other: u64,
)
    requires
        state.is_well_formed(),
        state.can_translate(v_address, access_type),
        state.translates_in_memory(v_address, access_type),
        state.translates_apart_from(v_address, access_type, changed, width),
        state.translate(v_address, access_type).0 is Ok,
        changed_only_at(state.translate(v_address, access_type).1, later, changed, width),
        page_of(other) == page_of(v_address),
    ensures
        ({
            let p_address = state.translate(v_address, access_type).0->Ok_0;
            &&& later.is_well_formed()
            &&& later.can_translate(other, access_type)
            &&& later.translate(other, access_type) == (
                Ok::<u64, ()>((page_of(p_address) + other % PAGE_SIZE) as u64),
                later,
            )
        }),
{
    lemma_translate_after_change(state, v_address, access_type, changed, width, later);
    lemma_page_rests(later, v_address, other, access_type);
}

/// One more byte of a load within a page.
#[verifier::rlimit(50)]
proof fn lemma_load_next<C: Clint, P: Plic, U: Uart, D: VirtioBlockDisk>(
    state: State<C, P, U, D>,
    access_type: MemoryAccessType,
    v_address: u64,
    i: nat,
    width: nat,
)
    requires
        state.is_well_formed(),
        0 < i < width,
        in_one_page(v_address, width),
        state.can_load_together(access_type, v_address, width),
        state.translates_in_memory(v_address, access_type),
        state.translate(v_address, access_type).0 is Ok,
    ensures
        ({
            let (low, low_state) = state.load_together(access_type, v_address, i);
            let next = address_after(v_address, i as int);
            let (byte, next_state) = low_state.load_together(access_type, next, 1);
            &&& low_state.can_load_together(access_type, next, 1)
            &&& low is Ok
            &&& byte is Ok
            &&& state.load_together(access_type, v_address, i + 1) == (
                Ok::<Seq<u8>, Trap>(low->Ok_0 + byte->Ok_0),
                next_state,
            )
        }),
{
    let (translation, after) = state.translate(v_address, access_type);
    let p_address = translation->Ok_0;
    state.lemma_translate(v_address, access_type);
    lemma_found_within_page(v_address, p_address, width, i as int);
    let next = address_after(v_address, i as int);
    let p_next = (p_address + i) as u64;
    let (low, low_bus) = after.bus.load_all(p_address, i);
    let low_state = State { bus: low_bus, ..after };
    after.bus.lemma_load_all(p_address, i);
    state.bus.lemma_avoid_nothing(v_address, 2, state.ppn);
    lemma_translate_page_after_change(state, v_address, access_type, 0, 0, low_state, next);
    assert(low_state.translate(next, access_type) == (Ok::<u64, ()>(p_next), low_state));
    assert(address_after(p_address, i as int) == p_next);
    low_bus.lemma_load_one(p_next);
    let byte = low_bus.load(p_next).0;
    assert(low.push(byte) =~= low + seq![byte]);
    assert forall|j: int| 0 <= j < 1 implies loadable(
        low_bus.memory.len(),
        #[trigger] address_after(p_next, j),
    ) by {}
}

/// Storing the bytes of a page with one translation does the same as storing them one
/// by one, to main memory or to a device, when the page tables lie in main memory or in
/// the device tree, apart from the bytes.
pub proof fn law_page_stores_are_bytewise<C: Clint, P: Plic, U: Uart, D: VirtioBlockDisk>(
    state: State<C, P, U, D>,
    v_address: u64,
    bytes: Seq<u8>,
)
    requires
        state.is_well_formed(),
        0 < bytes.len(),
        in_one_page(v_address, bytes.len()),
        state.can_translate(v_address, MemoryAccessType::Write),
        state.translates_in_memory(v_address, MemoryAccessType::Write),
        state.translate(v_address, MemoryAccessType::Write).0 matches Ok(p_address) ==> {
            &&& all_storable(state.bus.memory.len(), p_address, bytes.len())
            &&& DRAM_BASE <= p_address ==> state.translates_apart_from(
                v_address,
                MemoryAccessType::Write,
                p_address,
                bytes.len(),
            )
        },
    ensures
        state.can_store_each(v_address, bytes),
        state.store_each(v_address, bytes) == state.store_together(v_address, bytes),
{
    assert(bytes.take(bytes.len() as int) =~= bytes);
    if state.translate(v_address, MemoryAccessType::Write).0 is Ok {
        reveal(stores_within_page);
        lemma_store_beginning(state, v_address, bytes, bytes.len());
    } else {
        lemma_store_failing(state, v_address, bytes, bytes.len());
    }
}

/// A store does what storing its bytes one by one does, up to the first fault of these,
/// within a page and across pages.
pub proof fn law_stores_are_bytewise<C: Clint, P: Plic, U: Uart, D: VirtioBlockDisk>(
    state: State<C, P, U, D>,
    v_address: u64,
    bytes: Seq<u8>,
)
    requires
        state.is_well_formed(),
        0 < bytes.len(),
        state.can_store(v_address, bytes),
        in_one_page(v_address, bytes.len()) ==> {
            &&& state.translates_in_memory(v_address, MemoryAccessType::Write)
            &&& state.translate(v_address, MemoryAccessType::Write).0 matches Ok(p_address)
                ==> DRAM_BASE <= p_address ==> state.translates_apart_from(
                v_address,
                MemoryAccessType::Write,
                p_address,
                bytes.len(),
            )
        },
    ensures
        state.can_store_each(v_address, bytes),
        state.store(v_address, bytes) == state.store_each(v_address, bytes),
{
    if in_one_page(v_address, bytes.len()) {
        law_page_stores_are_bytewise(state, v_address, bytes);
    }
}

proof fn lemma_store_failing<C: Clint, P: Plic, U: Uart, D: VirtioBlockDisk>(
    state: State<C, P, U, D>,
    v_address: u64,
    bytes: Seq<u8>,
    width: nat,
)
    requires
        0 < width <= bytes.len(),
        state.can_translate(v_address, MemoryAccessType::Write),
        state.translate(v_address, MemoryAccessType::Write).0 is Err,
    ensures
        state.can_store_each(v_address, bytes.take(width as int)),
        state.store_each(v_address, bytes.take(width as int)) == (
            Err::<(), Trap>(fault(MemoryAccessType::Write, v_address)),
            state.translate(v_address, MemoryAccessType::Write).1,
        ),
    decreases width,
{
    let i = (width - 1) as nat;
    if i == 0 {
        assert(bytes.take(1) =~= seq![bytes[0]]);
        lemma_store_each_one(state, v_address, bytes[0]);
    } else {
        lemma_store_failing(state, v_address, bytes, i);
        lemma_store_each_unfold(state, v_address, bytes, i);
    }
}

/// Whether bytes within a page can be stored, and where they are in main memory lie apart
/// from the page tables.
#[verifier::opaque]
spec fn stores_within_page<C: Clint, P: Plic, U: Uart, D: VirtioBlockDisk>(
    state: State<C, P, U, D>,
    v_address: u64,
    bytes: Seq<u8>,
) -> bool {
    let translation = state.translate(v_address, MemoryAccessType::Write).0;
    &&& state.is_well_formed()
    &&& in_one_page(v_address, bytes.len())
    &&& state.can_translate(v_address, MemoryAccessType::Write)
    &&& state.translates_in_memory(v_address, MemoryAccessType::Write)
    &&& translation is Ok
    &&& all_storable(state.bus.memory.len(), translation->Ok_0, bytes.len())
    &&& DRAM_BASE <= translation->Ok_0 ==> state.translates_apart_from(
        v_address,
        MemoryAccessType::Write,
        translation->Ok_0,
        bytes.len(),
    )
}

/// The first byte of a store within a page.
proof fn lemma_store_first<C: Clint, P: Plic, U: Uart, D: VirtioBlockDisk>(
    state: State<C, P, U, D>,
    v_address: u64,
    bytes: Seq<u8>,
)
    requires
        0 < bytes.len(),
        stores_within_page(state, v_address, bytes),
    ensures
        state.can_store_each(v_address, bytes.take(1)),
        state.store_each(v_address, bytes.take(1)) == state.store_together(
            v_address,
            bytes.take(1),
        ),
        state.store_each(v_address, bytes.take(1)).0 is Ok,
{
    reveal(stores_within_page);
    let p_address = state.translate(v_address, MemoryAccessType::Write).0->Ok_0;
    assert(bytes.take(1) =~= seq![bytes[0]]);
    lemma_store_each_one(state, v_address, bytes[0]);
    assert(address_after(p_address, 0) == p_address);
}

proof fn lemma_store_beginning<C: Clint, P: Plic, U: Uart, D: VirtioBlockDisk>(
    state: State<C, P, U, D>,
    v_address: u64,
    bytes: Seq<u8>,
    width: nat,
)
    requires
        0 < width <= bytes.len(),
        stores_within_page(state, v_address, bytes),
    ensures
        state.can_store_each(v_address, bytes.take(width as int)),
        state.store_each(v_address, bytes.take(width as int)) == state.store_together(
            v_address,
            bytes.take(width as int),
        ),
        state.store_each(v_address, bytes.take(width as int)).0 is Ok,
    decreases width,
{
    let i = (width - 1) as nat;
    if i == 0 {
        lemma_store_first(state, v_address, bytes);
    } else {
        lemma_store_beginning(state, v_address, bytes, i);
        lemma_store_next(state, v_address, bytes, i);
        lemma_store_each_unfold(state, v_address, bytes, i);
    }
}

/// The last step of a bytewise store.
proof fn lemma_store_each_unfold<C: Clint, P: Plic, U: Uart, D: VirtioBlockDisk>(
    state: State<C, P, U, D>,
    v_address: u64,
    bytes: Seq<u8>,
    i: nat,
)
    requires
        i < bytes.len(),
    ensures
        ({
            let low = bytes.take(i as int);
            let all = bytes.take(i as int + 1);
            let (result, middle) = state.store_each(v_address, low);
            let next = address_after(v_address, i as int);
            &&& state.store_each(v_address, all) == (if result is Ok {
                middle.store_together(next, seq![bytes[i as int]])
            } else {
                (result, middle)
            })
            &&& state.can_store_each(v_address, all) == (state.can_store_each(v_address, low)
                && (result is Ok ==> middle.can_store_together(next, 1)))
        }),
{
    let all = bytes.take(i as int + 1);
    assert(all.drop_last() =~= bytes.take(i as int));
    assert(all.last() == bytes[i as int]);
    assert(all.len() - 1 == i);
}

/// A bytewise store of one byte.
proof fn lemma_store_each_one<C: Clint, P: Plic, U: Uart, D: VirtioBlockDisk>(
    state: State<C, P, U, D>,
    v_address: u64,
    byte: u8,
)
    ensures
        state.store_each(v_address, seq![byte]) == state.store_together(
            v_address,
            seq![byte],
        ),
        state.can_store_each(v_address, seq![byte]) == state.can_store_together(
            v_address,
            1,
        ),
{
    reveal_with_fuel(State::store_each, 2);
    reveal_with_fuel(State::can_store_each, 2);
    assert(address_after(v_address, 0) == v_address);
    assert(seq![byte].drop_last() =~= Seq::empty());
}

/// The next byte of a store within a page is found behind the one before it.
proof fn lemma_store_finds_next<C: Clint, P: Plic, U: Uart, D: VirtioBlockDisk>(
    state: State<C, P, U, D>,
    v_address: u64,
    bytes: Seq<u8>,
    i: nat,
)
    requires
        0 < i < bytes.len(),
        stores_within_page(state, v_address, bytes),
    ensures
        ({
            let p_address = state.translate(v_address, MemoryAccessType::Write).0->Ok_0;
            let low_state = state.store_together(v_address, bytes.take(i as int)).1;
            let next = address_after(v_address, i as int);
            &&& p_address + i <= u64::MAX
            &&& low_state.can_translate(next, MemoryAccessType::Write)
            &&& low_state.translate(next, MemoryAccessType::Write) == (
                Ok::<u64, ()>((p_address + i) as u64),
                low_state,
            )
            &&& low_state.bus.memory.len() == state.bus.memory.len()
        }),
{
    reveal(stores_within_page);
    let (translation, after) = state.translate(v_address, MemoryAccessType::Write);
    let p_address = translation->Ok_0;
    let low = bytes.take(i as int);
    state.lemma_translate(v_address, MemoryAccessType::Write);
    lemma_found_within_page(v_address, p_address, bytes.len(), i as int);
    let next = address_after(v_address, i as int);
    let low_state = state.store_together(v_address, low).1;
    let (changed, width) = if DRAM_BASE <= p_address {
        (p_address, bytes.len())
    } else {
        (0u64, 0nat)
    };
    if DRAM_BASE <= p_address {
        after.bus.lemma_loadable_dram(p_address, bytes.len());
        after.bus.lemma_store_all_dram(p_address, low);
    } else {
        assert(p_address + bytes.len() <= DRAM_BASE);
        after.bus.lemma_store_all_below_dram(p_address, low);
        state.bus.lemma_avoid_nothing(v_address, 2, state.ppn);
    }
    assert(changed_only_at(after, low_state, changed, width));
    lemma_translate_page_after_change(
        state,
        v_address,
        MemoryAccessType::Write,
        changed,
        width,
        low_state,
        next,
    );
}

/// One more byte of a store within a page.
proof fn lemma_store_next<C: Clint, P: Plic, U: Uart, D: VirtioBlockDisk>(
    state: State<C, P, U, D>,
    v_address: u64,
    bytes: Seq<u8>,
    i: nat,
)
    requires
        0 < i < bytes.len(),
        stores_within_page(state, v_address, bytes),
    ensures
        ({
            let low_state = state.store_together(v_address, bytes.take(i as int)).1;
            let next = address_after(v_address, i as int);
            &&& low_state.can_store_together(next, 1)
            &&& state.store_together(v_address, bytes.take(i as int + 1))
                == low_state.store_together(next, seq![bytes[i as int]])
            &&& state.store_together(v_address, bytes.take(i as int + 1)).0 is Ok
        }),
{
    reveal(stores_within_page);
    let p_address = state.translate(v_address, MemoryAccessType::Write).0->Ok_0;
    let low = bytes.take(i as int);
    let all = bytes.take(i as int + 1);
    lemma_store_finds_next(state, v_address, bytes, i);
    let low_state = state.store_together(v_address, low).1;
    let p_next = (p_address + i) as u64;
    assert(address_after(p_address, i as int) == p_next);
    assert forall|j: int| 0 <= j < 1 implies storable(
        state.bus.memory.len(),
        #[trigger] address_after(p_next, j),
    ) by {}
    assert(all.drop_last() =~= low);
    low_state.bus.lemma_store_one(p_next, bytes[i as int]);
}

impl<C, P, U, D> State<C, P, U, D> {
    /// Whether virtual addresses are physical addresses for all accesses: none goes
    /// through the page table, and no page is cached from a time when one did. So it is
    /// in bare mode, in the reserved privilege mode, and in machine mode as long as
    /// `mstatus` has not lent another privilege mode.
    pub open spec fn is_unpaged(self) -> bool {
        &&& self.addressing_mode != AddressingMode::SV48
        &&& !self.is_paged(MemoryAccessType::Execute)
        &&& !self.is_paged(MemoryAccessType::Read)
        &&& !self.is_paged(MemoryAccessType::Write)
        &&& maps_to_self(self.fetch_cache)
        &&& maps_to_self(self.load_cache)
        &&& maps_to_self(self.store_cache)
    }
}

/// Virtual addresses are physical addresses for all accesses in bare mode, in the
/// reserved privilege mode, and in machine mode when `mstatus` lends no other privilege
/// mode and the page caches for loads and stores are empty, as they are on entry.
pub proof fn law_unpaged_states<C, P, U, D>(state: State<C, P, U, D>)
    requires
        state.is_well_formed(),
        state.addressing_mode != AddressingMode::SV48,
        state.addressing_mode == AddressingMode::Bare || state.privilege_mode
            == PrivilegeMode::Reserved || {
            &&& state.privilege_mode == PrivilegeMode::Machine
            &&& !state.borrows_privilege(MemoryAccessType::Read)
            &&& state.load_cache == Map::<u64, u64>::empty()
            &&& state.store_cache == Map::<u64, u64>::empty()
        },
    ensures
        state.is_unpaged(),
{
}

/// Where virtual addresses are physical addresses, they stay so.
proof fn lemma_unpaged_translation<C: Clint, P: Plic, U: Uart, D: VirtioBlockDisk>(
    state: State<C, P, U, D>,
    v_address: u64,
    access_type: MemoryAccessType,
)
    requires
        state.is_well_formed(),
        state.is_unpaged(),
    ensures
        ({
            let (result, after) = state.translate(v_address, access_type);
            &&& state.can_translate(v_address, access_type)
            &&& result == Ok::<u64, ()>(v_address)
            &&& after.bus == state.bus
            &&& after.is_well_formed()
            &&& after.is_unpaged()
        }),
{
    state.lemma_translate(v_address, access_type);
}

/// Where virtual addresses are physical addresses, loads do what loads from the bus do,
/// within a page and across pages.
pub proof fn law_unpaged_loads_are_physical<C: Clint, P: Plic, U: Uart, D: VirtioBlockDisk>(
    state: State<C, P, U, D>,
    access_type: MemoryAccessType,
    v_address: u64,
    width: nat,
)
    requires
        state.is_well_formed(),
        state.is_unpaged(),
    ensures
        ({
            let (result, after) = state.load(access_type, v_address, width);
            let (bytes, bus) = state.bus.load_all(v_address, width);
            &&& result == Ok::<Seq<u8>, Trap>(bytes)
            &&& after.bus == bus
            &&& after.is_well_formed()
            &&& after.is_unpaged()
        }),
        state.can_load(access_type, v_address, width) == all_loadable(
            state.bus.memory.len(),
            v_address,
            width,
        ),
{
    if in_one_page(v_address, width) {
        lemma_unpaged_translation(state, v_address, access_type);
        state.bus.lemma_load_all(v_address, width);
    } else {
        lemma_unpaged_load_each(state, access_type, v_address, width);
    }
}

proof fn lemma_unpaged_load_each<C: Clint, P: Plic, U: Uart, D: VirtioBlockDisk>(
    state: State<C, P, U, D>,
    access_type: MemoryAccessType,
    v_address: u64,
    width: nat,
)
    requires
        state.is_well_formed(),
        state.is_unpaged(),
    ensures
        ({
            let (result, after) = state.load_each(access_type, v_address, width);
            let (bytes, bus) = state.bus.load_all(v_address, width);
            &&& result == Ok::<Seq<u8>, Trap>(bytes)
            &&& after.bus == bus
            &&& after.is_well_formed()
            &&& after.is_unpaged()
        }),
        state.can_load_each(access_type, v_address, width) == all_loadable(
            state.bus.memory.len(),
            v_address,
            width,
        ),
    decreases width,
{
    if width > 0 {
        let i = (width - 1) as nat;
        lemma_unpaged_load_each(state, access_type, v_address, i);
        let middle = state.load_each(access_type, v_address, i).1;
        let next = address_after(v_address, i as int);
        lemma_unpaged_translation(middle, next, access_type);
        middle.bus.lemma_load_one(next);
        let low = state.bus.load_all(v_address, i).0;
        let byte = middle.bus.load(next).0;
        assert(low + seq![byte] =~= low.push(byte));
        state.bus.lemma_load_all(v_address, i);
        assert(address_after(next, 0) == next);
        assert(all_loadable(state.bus.memory.len(), next, 1) == loadable(
            state.bus.memory.len(),
            next,
        ));
    }
}

/// Where virtual addresses are physical addresses, stores do what stores to the bus do,
/// within a page and across pages.
pub proof fn law_unpaged_stores_are_physical<C: Clint, P: Plic, U: Uart, D: VirtioBlockDisk>(
    state: State<C, P, U, D>,
    v_address: u64,
    bytes: Seq<u8>,
)
    requires
        state.is_well_formed(),
        state.is_unpaged(),
    ensures
        ({
            let (result, after) = state.store(v_address, bytes);
            &&& result == Ok::<(), Trap>(())
            &&& after.bus == state.bus.store_all(v_address, bytes)
            &&& after.is_well_formed()
            &&& after.is_unpaged()
        }),
        state.can_store(v_address, bytes) == all_storable(
            state.bus.memory.len(),
            v_address,
            bytes.len(),
        ),
{
    if in_one_page(v_address, bytes.len()) {
        lemma_unpaged_translation(state, v_address, MemoryAccessType::Write);
        state.bus.lemma_store_all(v_address, bytes);
    } else {
        lemma_unpaged_store_each(state, v_address, bytes);
    }
}

proof fn lemma_unpaged_store_each<C: Clint, P: Plic, U: Uart, D: VirtioBlockDisk>(
    state: State<C, P, U, D>,
    v_address: u64,
    bytes: Seq<u8>,
)
    requires
        state.is_well_formed(),
        state.is_unpaged(),
    ensures
        ({
            let (result, after) = state.store_each(v_address, bytes);
            &&& result == Ok::<(), Trap>(())
            &&& after.bus == state.bus.store_all(v_address, bytes)
            &&& after.is_well_formed()
            &&& after.is_unpaged()
        }),
        state.can_store_each(v_address, bytes) == all_storable(
            state.bus.memory.len(),
            v_address,
            bytes.len(),
        ),
    decreases bytes.len(),
{
    if bytes.len() > 0 {
        let low = bytes.drop_last();
        lemma_unpaged_store_each(state, v_address, low);
        let middle = state.store_each(v_address, low).1;
        let next = address_after(v_address, bytes.len() - 1);
        lemma_unpaged_translation(middle, next, MemoryAccessType::Write);
        middle.bus.lemma_store_one(next, bytes.last());
        middle.bus.lemma_store_all(next, seq![bytes.last()]);
        state.bus.lemma_store_all(v_address, low);
        assert(address_after(next, 0) == next);
        assert(all_storable(state.bus.memory.len(), next, 1) == storable(
            state.bus.memory.len(),
            next,
        ));
    }
}

/// Where virtual addresses are physical addresses, a load gives back what was stored to
/// main memory before, and changes nothing on the bus.
pub proof fn law_unpaged_loads_give_back_stores<C: Clint, P: Plic, U: Uart, D: VirtioBlockDisk>(
    state: State<C, P, U, D>,
    access_type: MemoryAccessType,
    v_address: u64,
    bytes: Seq<u8>,
)
    requires
        state.is_well_formed(),
        state.is_unpaged(),
        holds(state.bus.memory.len(), v_address, bytes.len()),
        v_address + bytes.len() <= 0x1_0000_0000_0000_0000,
    ensures
        state.can_store(v_address, bytes),
        ({
            let (result, after) = state.store(v_address, bytes);
            &&& result is Ok
            &&& after.can_load(access_type, v_address, bytes.len())
            &&& after.load(access_type, v_address, bytes.len()).0 == Ok::<Seq<u8>, Trap>(bytes)
            &&& after.load(access_type, v_address, bytes.len()).1.bus == after.bus
        }),
{
    law_unpaged_stores_are_physical(state, v_address, bytes);
    let after = state.store(v_address, bytes).1;
    law_unpaged_loads_are_physical(after, access_type, v_address, bytes.len());
    law_memory_reads_back(state.bus, v_address, bytes);
    state.bus.lemma_store_all(v_address, bytes);
    after.bus.lemma_load_all_dram(v_address, bytes.len());
    assert forall|i: int| 0 <= i < bytes.len() implies storable(
        state.bus.memory.len(),
        #[trigger] address_after(v_address, i),
    ) by {
        lemma_offset_after(v_address, i);
    }
}

/// Within a page, a load gives back what was stored to main memory before, provided
/// that its translation leads to the same place and leaves the stored bytes alone.
pub proof fn law_loads_give_back_stores<C: Clint, P: Plic, U: Uart, D: VirtioBlockDisk>(
    state: State<C, P, U, D>,
    access_type: MemoryAccessType,
    v_address: u64,
    bytes: Seq<u8>,
)
    requires
        state.is_well_formed(),
        in_one_page(v_address, bytes.len()),
        state.can_store(v_address, bytes),
        state.store(v_address, bytes).0 is Ok,
        ({
            let p_address = state.translate(v_address, MemoryAccessType::Write).0->Ok_0;
            let stored = state.store(v_address, bytes).1;
            let (translation, after) = stored.translate(v_address, access_type);
            let offset = p_address - DRAM_BASE;
            &&& holds(state.bus.memory.len(), p_address, bytes.len())
            &&& translation == Ok::<u64, ()>(p_address)
            &&& after.bus.memory.len() == state.bus.memory.len()
            &&& after.bus.memory.subrange(offset, offset + bytes.len())
                == stored.bus.memory.subrange(offset, offset + bytes.len())
        }),
    ensures
        state.store(v_address, bytes).1.load(access_type, v_address, bytes.len()).0 == Ok::<
            Seq<u8>,
            Trap,
        >(bytes),
{
    let (translation, written) = state.translate(v_address, MemoryAccessType::Write);
    let p_address = translation->Ok_0;
    state.lemma_translate(v_address, MemoryAccessType::Write);
    if bytes.len() > 0 {
        lemma_found_within_page(v_address, p_address, bytes.len(), 0);
    }
    let stored = state.store(v_address, bytes).1;
    let after = stored.translate(v_address, access_type).1;
    written.bus.lemma_store_all_dram(p_address, bytes);
    after.bus.lemma_load_all_dram(p_address, bytes.len());
    let offset = p_address - DRAM_BASE;
    assert(stored.bus.memory.subrange(offset, offset + bytes.len()) =~= bytes);
}

/// A store that fails keeps the bytes before the one that failed, and of that one and
/// those after it stores nothing.
pub proof fn law_failed_stores_stop_at_the_fault<C: Clint, P: Plic, U: Uart, D: VirtioBlockDisk>(
    state: State<C, P, U, D>,
    v_address: u64,
    bytes: Seq<u8>,
)
    requires
        state.store(v_address, bytes).0 is Err,
        0 < bytes.len(),
    ensures
        exists|i: int|
            0 <= i < bytes.len() && state.store_stops_at(v_address, bytes, i)
                && #[trigger] address_after(v_address, i) == state.store(
                v_address,
                bytes,
            ).0->Err_0.value,
{
    if in_one_page(v_address, bytes.len()) {
        assert(bytes.take(0) =~= Seq::empty());
        assert(address_after(v_address, 0) == v_address);
        assert(state.store_stops_at(v_address, bytes, 0));
    } else {
        let i = lemma_store_each_stops(state, v_address, bytes);
        assert(state.store_stops_at(v_address, bytes, i));
    }
}

impl<C: Clint, P: Plic, U: Uart, D: VirtioBlockDisk> State<C, P, U, D> {
    /// Whether a store fails at byte `i`: the bytes before it are stored, and what
    /// follows is the translation that failed.
    pub open spec fn store_stops_at(self, v_address: u64, bytes: Seq<u8>, i: int) -> bool {
        let before = self.store_each(v_address, bytes.take(i));
        let next = address_after(v_address, i);
        let (translation, after) = before.1.translate(next, MemoryAccessType::Write);
        &&& before.0 is Ok
        &&& translation is Err
        &&& self.store(v_address, bytes) == (
            Err::<(), Trap>(fault(MemoryAccessType::Write, next)),
            after,
        )
    }
}

proof fn lemma_store_each_stops<C: Clint, P: Plic, U: Uart, D: VirtioBlockDisk>(
    state: State<C, P, U, D>,
    v_address: u64,
    bytes: Seq<u8>,
) -> (i: int)
    requires
        state.store_each(v_address, bytes).0 is Err,
    ensures
        0 <= i < bytes.len(),
        ({
            let before = state.store_each(v_address, bytes.take(i));
            let next = address_after(v_address, i);
            let (translation, after) = before.1.translate(next, MemoryAccessType::Write);
            &&& before.0 is Ok
            &&& translation is Err
            &&& state.store_each(v_address, bytes) == (
                Err::<(), Trap>(fault(MemoryAccessType::Write, next)),
                after,
            )
        }),
    decreases bytes.len(),
{
    let low = bytes.drop_last();
    if state.store_each(v_address, low).0 is Err {
        let i = lemma_store_each_stops(state, v_address, low);
        assert(low.take(i) =~= bytes.take(i));
        i
    } else {
        assert(bytes.take(bytes.len() - 1) =~= low);
        bytes.len() - 1
    }
}

impl<C: Clint, P: Plic, U: Uart, D: VirtioBlockDisk> State<C, P, U, D> {
    /// Whether the page tables for the `width` bytes from `v_address` on, if an access
    /// looks at any, lie in main memory or in the device tree.
    pub open spec fn reaches_in_memory(
        self,
        v_address: u64,
        access_type: MemoryAccessType,
        width: nat,
    ) -> bool {
        self.is_paged(access_type) ==> forall|i: int|
            0 <= i < width ==> self.bus.tables_in_memory(
                #[trigger] address_after(v_address, i),
                2,
                self.ppn,
            )
    }
}

/// Whether main memory is the same but for accessed and dirty bits that were set, and
/// the device tree is the same.
pub open spec fn only_marked<C, P, U, D>(before: Bus<C, P, U, D>, after: Bus<C, P, U, D>) -> bool {
    &&& after.dtb == before.dtb
    &&& after.memory.len() == before.memory.len()
    &&& forall|i: int|
        0 <= i < after.memory.len() ==> differs_by_marks(
            before.memory[i],
            #[trigger] after.memory[i],
        )
}

/// A load changes main memory only by the marks that translations set, and leaves the
/// device tree as it is.
pub proof fn law_loads_only_set_marks<C: Clint, P: Plic, U: Uart, D: VirtioBlockDisk>(
    state: State<C, P, U, D>,
    access_type: MemoryAccessType,
    v_address: u64,
    width: nat,
)
    requires
        0 < width,
        state.reaches_in_memory(v_address, access_type, width),
    ensures
        only_marked(state.bus, state.load(access_type, v_address, width).1.bus),
{
    if in_one_page(v_address, width) {
        lemma_load_one_only_marks(state, access_type, v_address, width, 0, width);
    } else {
        lemma_load_each_only_marks(state, access_type, v_address, width, width);
    }
}

/// Loads of bytes that are translated once only set marks, and keep where the page
/// tables lie.
proof fn lemma_load_one_only_marks<C: Clint, P: Plic, U: Uart, D: VirtioBlockDisk>(
    state: State<C, P, U, D>,
    access_type: MemoryAccessType,
    v_address: u64,
    width: nat,
    k: int,
    part: nat,
)
    requires
        0 <= k < width,
        state.reaches_in_memory(v_address, access_type, width),
    ensures
        ({
            let next = address_after(v_address, k);
            let after = state.load_together(access_type, next, part).1;
            &&& only_marked(state.bus, after.bus)
            &&& after.reaches_in_memory(v_address, access_type, width)
        }),
        address_after(v_address, 0) == v_address,
{
    let next = address_after(v_address, k);
    let (translation, found) = state.translate(next, access_type);
    law_translation_only_sets_marks(state, next, access_type);
    if state.is_paged(access_type) {
        assert forall|i: int| 0 <= i < width implies found.bus.tables_in_memory(
            #[trigger] address_after(v_address, i),
            2,
            state.ppn,
        ) by {
            if !state.is_cached(next, access_type) {
                state.bus.lemma_walk_in_memory(next, 2, state.ppn, access_type);
                if let Some((at, level)) = state.bus.leaf(next, 2, state.ppn) {
                    state.bus.lemma_mark_keeps_tables(
                        at,
                        access_type,
                        address_after(v_address, i),
                        2,
                        state.ppn,
                        0,
                        0,
                    );
                }
            }
        }
    }
    if let Ok(p_address) = translation {
        let after = found.bus.load_all(p_address, part).1;
        found.bus.lemma_load_all(p_address, part);
        assert forall|i: int| 0 <= i < width && state.is_paged(access_type) implies
            after.tables_in_memory(#[trigger] address_after(v_address, i), 2, state.ppn) by {
            found.bus.lemma_tables_of_memory(after, address_after(v_address, i), 2, state.ppn);
        }
    }
}

proof fn lemma_load_each_only_marks<C: Clint, P: Plic, U: Uart, D: VirtioBlockDisk>(
    state: State<C, P, U, D>,
    access_type: MemoryAccessType,
    v_address: u64,
    width: nat,
    part: nat,
)
    requires
        part <= width,
        state.reaches_in_memory(v_address, access_type, width),
    ensures
        ({
            let after = state.load_each(access_type, v_address, part).1;
            &&& only_marked(state.bus, after.bus)
            &&& after.reaches_in_memory(v_address, access_type, width)
        }),
    decreases part,
{
    if part > 0 {
        let i = (part - 1) as nat;
        lemma_load_each_only_marks(state, access_type, v_address, width, i);
        let (low, middle) = state.load_each(access_type, v_address, i);
        if low is Ok {
            lemma_load_one_only_marks(middle, access_type, v_address, width, i as int, 1);
            let after = state.load_each(access_type, v_address, part).1;
            assert forall|j: int| 0 <= j < after.bus.memory.len() implies differs_by_marks(
                state.bus.memory[j],
                #[trigger] after.bus.memory[j],
            ) by {
                assert(differs_by_marks(middle.bus.memory[j], after.bus.memory[j]));
                lemma_marks_add_up(
                    state.bus.memory[j],
                    middle.bus.memory[j],
                    after.bus.memory[j],
                );
            }
        }
    }
}

proof fn lemma_marks_add_up(before: u8, middle: u8, after: u8)
    requires
        differs_by_marks(before, middle),
        differs_by_marks(middle, after),
    ensures
        differs_by_marks(before, after),
{
    assert(before | 0x40 | 0x40 == before | 0x40) by (bit_vector);
    assert(before | 0x40 | 0xc0 == before | 0xc0) by (bit_vector);
    assert(before | 0xc0 | 0x40 == before | 0xc0) by (bit_vector);
    assert(before | 0xc0 | 0xc0 == before | 0xc0) by (bit_vector);
}

/// Where virtual addresses are physical addresses, the addresses that are valid are
/// those that a byte can be loaded from.
pub proof fn law_valid_addresses_can_be_loaded<C: Clint, P: Plic, U: Uart, D: VirtioBlockDisk>(
    state: State<C, P, U, D>,
    access_type: MemoryAccessType,
    v_address: u64,
)
    requires
        state.is_well_formed(),
        state.is_unpaged(),
    ensures
        state.translate(v_address, MemoryAccessType::DontCare).0 == Ok::<u64, ()>(v_address),
        state.can_load(access_type, v_address, 1) == loadable(
            state.bus.memory.len(),
            v_address,
        ),
{
    lemma_unpaged_translation(state, v_address, access_type);
    lemma_unpaged_translation(state, v_address, MemoryAccessType::DontCare);
    assert(address_after(v_address, 0) == v_address);
}

} // verus!
