//! How loads and stores are made up of translations and of accesses to the bus.
use crate::bus::{all_loadable, all_storable};
use crate::cpu::{Trap, TrapType};
use crate::device::{Clint, Plic, Uart, VirtioBlockDisk};
use crate::model::{fault, State};
use crate::sv39::MemoryAccessType;
use vstd::prelude::*;

verus! {

/// A failed access raises the page fault of its kind, which names the address: instruction
/// page faults for fetches, store page faults for stores, and load page faults for loads.
pub proof fn law_faults_are_told_apart(access_type: MemoryAccessType, v_address: u64)
    ensures
        fault(access_type, v_address).value == v_address,
        fault(access_type, v_address).trap_type == TrapType::InstructionPageFault <==> access_type
            == MemoryAccessType::Execute,
        fault(access_type, v_address).trap_type == TrapType::StorePageFault <==> access_type
            == MemoryAccessType::Write,
{
}

/// Bytes that lie in one page of 4096 bytes are loaded with one translation, from the
/// physical address found on. If it fails, the page fault names the address of the first.
pub proof fn law_loads_within_a_page<C: Clint, P: Plic, U: Uart, D: VirtioBlockDisk>(
    state: State<C, P, U, D>,
    access_type: MemoryAccessType,
    v_address: u64,
    width: nat,
)
    requires
        v_address as int % 4096 + width <= 4096,
        access_type == MemoryAccessType::Read || access_type == MemoryAccessType::Execute,
    ensures
        ({
            let (translation, found) = state.translate(v_address, access_type);
            let (result, after) = state.load(access_type, v_address, width);
            let possible = state.can_load(access_type, v_address, width);
            match translation {
                Ok(p_address) => {
                    let (bytes, bus) = found.bus.load_all(p_address, width);
                    &&& result == Ok::<Seq<u8>, Trap>(bytes)
                    &&& after == State { bus, ..found }
                    &&& possible == (state.can_translate(v_address, access_type) && all_loadable(
                        state.bus.memory.len(),
                        p_address,
                        width,
                    ))
                },
                Err(()) => {
                    &&& result == Err::<Seq<u8>, Trap>(
                        Trap {
                            trap_type: if access_type == MemoryAccessType::Read {
                                TrapType::LoadPageFault
                            } else {
                                TrapType::InstructionPageFault
                            },
                            value: v_address,
                        },
                    )
                    &&& after == found
                    &&& possible == state.can_translate(v_address, access_type)
                },
            }
        }),
{
}

/// Bytes that lie in more than one page are loaded one by one.
pub proof fn law_loads_across_pages<C: Clint, P: Plic, U: Uart, D: VirtioBlockDisk>(
    state: State<C, P, U, D>,
    access_type: MemoryAccessType,
    v_address: u64,
    width: nat,
)
    requires
        v_address as int % 4096 + width > 4096,
    ensures
        state.load(access_type, v_address, width) == state.load_each(
            access_type,
            v_address,
            width,
        ),
        state.can_load(access_type, v_address, width) == state.can_load_each(
            access_type,
            v_address,
            width,
        ),
{
}

/// Loading bytes one by one, one byte more is a load of that byte alone, after the others
/// and from the address behind theirs. After a fault nothing more happens.
pub proof fn law_loads_one_by_one<C: Clint, P: Plic, U: Uart, D: VirtioBlockDisk>(
    state: State<C, P, U, D>,
    access_type: MemoryAccessType,
    v_address: u64,
    width: nat,
)
    requires
        width <= u64::MAX,
    ensures
        state.load_each(access_type, v_address, 0) == (Ok::<Seq<u8>, Trap>(Seq::empty()), state),
        state.can_load_each(access_type, v_address, 0),
        ({
            let next = if v_address + width <= u64::MAX {
                (v_address + width) as u64
            } else {
                (v_address + width - u64::MAX - 1) as u64
            };
            let (low, middle) = state.load_each(access_type, v_address, width);
            let (one, after) = middle.load(access_type, next, 1);
            let low_possible = state.can_load_each(access_type, v_address, width);
            &&& state.load_each(access_type, v_address, width + 1) == (match low {
                Ok(bytes) => match one {
                    Ok(byte) => (Ok::<Seq<u8>, Trap>(bytes + byte), after),
                    Err(trap) => (Err::<Seq<u8>, Trap>(trap), after),
                },
                Err(trap) => (Err::<Seq<u8>, Trap>(trap), middle),
            })
            &&& state.can_load_each(access_type, v_address, width + 1) == (low_possible && (low
                is Ok ==> middle.can_load(access_type, next, 1)))
        }),
{
    crate::bus_laws::law_addresses_wrap_around(v_address, width as int);
}

/// Bytes that lie in one page of 4096 bytes are stored with one translation, from the
/// physical address found on. If it fails, nothing is stored, and the page fault names the
/// address of the first.
pub proof fn law_stores_within_a_page<C: Clint, P: Plic, U: Uart, D: VirtioBlockDisk>(
    state: State<C, P, U, D>,
    v_address: u64,
    bytes: Seq<u8>,
)
    requires
        v_address as int % 4096 + bytes.len() <= 4096,
    ensures
        ({
            let (translation, found) = state.translate(v_address, MemoryAccessType::Write);
            let (result, after) = state.store(v_address, bytes);
            let possible = state.can_store(v_address, bytes);
            match translation {
                Ok(p_address) => {
                    &&& result == Ok::<(), Trap>(())
                    &&& after == State { bus: found.bus.store_all(p_address, bytes), ..found }
                    &&& possible == (state.can_translate(v_address, MemoryAccessType::Write)
                        && all_storable(state.bus.memory.len(), p_address, bytes.len()))
                },
                Err(()) => {
                    &&& result == Err::<(), Trap>(
                        Trap { trap_type: TrapType::StorePageFault, value: v_address },
                    )
                    &&& after == found
                    &&& possible == state.can_translate(v_address, MemoryAccessType::Write)
                },
            }
        }),
{
}

/// Bytes that lie in more than one page are stored one by one.
pub proof fn law_stores_across_pages<C: Clint, P: Plic, U: Uart, D: VirtioBlockDisk>(
    state: State<C, P, U, D>,
    v_address: u64,
    bytes: Seq<u8>,
)
    requires
        v_address as int % 4096 + bytes.len() > 4096,
    ensures
        state.store(v_address, bytes) == state.store_each(v_address, bytes),
        state.can_store(v_address, bytes) == state.can_store_each(v_address, bytes),
{
}

/// Storing bytes one by one, one byte more is a store of that byte alone, after the others
/// and to the address behind theirs. After a fault nothing more happens.
pub proof fn law_stores_one_by_one<C: Clint, P: Plic, U: Uart, D: VirtioBlockDisk>(
    state: State<C, P, U, D>,
    v_address: u64,
    bytes: Seq<u8>,
    byte: u8,
)
    requires
        bytes.len() <= u64::MAX,
    ensures
        state.store_each(v_address, Seq::<u8>::empty()) == (Ok::<(), Trap>(()), state),
        state.can_store_each(v_address, Seq::<u8>::empty()),
        ({
            let next = if v_address + bytes.len() <= u64::MAX {
                (v_address + bytes.len()) as u64
            } else {
                (v_address + bytes.len() - u64::MAX - 1) as u64
            };
            let (low, middle) = state.store_each(v_address, bytes);
            let low_possible = state.can_store_each(v_address, bytes);
            &&& state.store_each(v_address, bytes.push(byte)) == (if low is Ok {
                middle.store(next, seq![byte])
            } else {
                (low, middle)
            })
            &&& state.can_store_each(v_address, bytes.push(byte)) == (low_possible && (low is Ok
                ==> middle.can_store(next, seq![byte])))
        }),
{
    crate::bus_laws::law_addresses_wrap_around(v_address, bytes.len() as int);
    assert(bytes.push(byte).drop_last() =~= bytes);
    if let Ok(nothing) = state.store_each(v_address, bytes).0 {
        assert(nothing == ());
    }
}

} // verus!
