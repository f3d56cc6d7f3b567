//! What a cycle does to the devices, and what the device tree holds.
use crate::bus::Bus;
use crate::device::{Clint, EmptySlot, Plic, Uart, VirtioBlockDisk};
use crate::mmu::{addressing_mode_name, padded};
use crate::model::{AddressingMode, State};
use vstd::prelude::*;

verus! {

/// A cycle of the devices: the CLINT steps and leaves `clint_mip`, the disk and the UART step
/// to the given states, and then the PLIC is told whether these are interrupting.
pub open spec fn is_cycle<C: Clint, P: Plic, U: Uart, D: VirtioBlockDisk>(
    before: Bus<C, P, U, D>,
    mip: u64,
    clint_mip: u64,
    disk: D,
    uart: U,
    after: Bus<C, P, U, D>,
    next_mip: u64,
) -> bool {
    &&& before.clint.may_tick_to(mip, after.clint, clint_mip)
    &&& before.disk.may_tick_to(before.memory, disk, after.memory)
    &&& before.uart.may_tick_to(uart)
    &&& before.plic.may_tick_to(
        disk.after_poll().0,
        uart.after_poll().0,
        clint_mip,
        after.plic,
        next_mip,
    )
    &&& after.disk == disk.after_poll().1
    &&& after.uart == uart.after_poll().1
    &&& after.dtb == before.dtb
    &&& after.memory.len() == before.memory.len()
}

/// In a cycle the PLIC is told of an interrupt of the disk exactly if the disk, asked after
/// its tick, says that it is interrupting, and likewise of the UART. The CLINT has ticked
/// before, so that the PLIC goes on from the interrupts that the CLINT has left pending.
pub proof fn law_interrupts_reach_the_plic<C: Clint, P: Plic, U: Uart, D: VirtioBlockDisk>(
    state: State<C, P, U, D>,
    mip: u64,
    next: State<C, P, U, D>,
    next_mip: u64,
) -> (steps: (u64, D, U))
    requires
        state.may_tick_to(mip, next, next_mip),
    ensures
        ({
            let (clint_mip, disk, uart) = steps;
            is_cycle(state.bus, mip, clint_mip, disk, uart, next.bus, next_mip)
        }),
{
    let (clint_mip, disk, uart) = choose|clint_mip: u64, disk: D, uart: U| #[trigger]
        state.ticks_through(mip, clint_mip, disk, uart, next, next_mip);
    (clint_mip, disk, uart)
}

/// When neither the disk nor the UART can be interrupting after its tick, the PLIC sees no
/// interrupt.
pub proof fn law_quiet_devices_do_not_interrupt<
    C: Clint,
    P: Plic,
    U: Uart,
    D: VirtioBlockDisk,
>(
    state: State<C, P, U, D>,
    mip: u64,
    next: State<C, P, U, D>,
    next_mip: u64,
)
    requires
        state.may_tick_to(mip, next, next_mip),
        forall|disk: D, memory: Seq<u8>| #[trigger]
            state.bus.disk.may_tick_to(state.bus.memory, disk, memory) ==> !disk.after_poll().0,
        forall|uart: U| #[trigger] state.bus.uart.may_tick_to(uart) ==> !uart.after_poll().0,
    ensures
        exists|clint_mip: u64|
            state.bus.clint.may_tick_to(mip, next.bus.clint, clint_mip)
                && #[trigger] state.bus.plic.may_tick_to(
                false,
                false,
                clint_mip,
                next.bus.plic,
                next_mip,
            ),
{
    let steps = law_interrupts_reach_the_plic(state, mip, next, next_mip);
    assert(state.bus.plic.may_tick_to(false, false, steps.0, next.bus.plic, next_mip));
}

/// A cycle counts the clock up by one, modulo 2^64, and changes nothing but the clock, the
/// devices and main memory.
pub proof fn law_cycles_are_counted<C: Clint, P: Plic, U: Uart, D: VirtioBlockDisk>(
    state: State<C, P, U, D>,
    mip: u64,
    next: State<C, P, U, D>,
    next_mip: u64,
)
    requires
        state.may_tick_to(mip, next, next_mip),
    ensures
        next.clock == (if state.clock == u64::MAX {
            0
        } else {
            state.clock + 1
        }),
        next.ppn == state.ppn,
        next.addressing_mode == state.addressing_mode,
        next.privilege_mode == state.privilege_mode,
        next.mstatus == state.mstatus,
        next.page_cache_enabled == state.page_cache_enabled,
        next.fetch_cache == state.fetch_cache,
        next.load_cache == state.load_cache,
        next.store_cache == state.store_cache,
{
}

/// On a machine without devices a cycle only counts.
pub proof fn law_empty_slots_do_nothing(
    state: State<EmptySlot, EmptySlot, EmptySlot, EmptySlot>,
    p_address: u64,
    value: u8,
    mip: u64,
    next: State<EmptySlot, EmptySlot, EmptySlot, EmptySlot>,
    next_mip: u64,
)
    ensures
        p_address < 0x8000_0000 && !(0x1020 <= p_address < 0x2000) ==> state.bus.load(p_address)
            == (0u8, state.bus),
        p_address < 0x8000_0000 ==> state.bus.store(p_address, value) == state.bus,
        state.may_tick_to(mip, next, next_mip) ==> {
            &&& next.bus == state.bus
            &&& next_mip == mip
        },
{
    if state.may_tick_to(mip, next, next_mip) {
        let steps = law_interrupts_reach_the_plic(state, mip, next, next_mip);
        assert(next.bus =~= state.bus);
    }
}

/// The device tree is 4064 bytes long. It holds the given bytes, and zeros behind them.
pub proof fn law_device_tree_is_filled_up(data: Seq<u8>, i: int)
    requires
        data.len() <= 4064,
        0 <= i < 4064,
    ensures
        padded(data).len() == 4064,
        i < data.len() ==> padded(data)[i] == data[i],
        data.len() <= i ==> padded(data)[i] == 0,
{
}

/// Addressing modes go by their names.
pub proof fn law_addressing_modes_have_names()
    ensures
        addressing_mode_name(AddressingMode::Bare) == seq!['N', 'o', 'n', 'e'],
        addressing_mode_name(AddressingMode::SV39) == seq!['S', 'V', '3', '9'],
        addressing_mode_name(AddressingMode::SV48) == seq!['S', 'V', '4', '8'],
{
    reveal_strlit("None");
    reveal_strlit("SV39");
    reveal_strlit("SV48");
    assert("None"@ =~= seq!['N', 'o', 'n', 'e']);
    assert("SV39"@ =~= seq!['S', 'V', '3', '9']);
    assert("SV48"@ =~= seq!['S', 'V', '4', '8']);
}

} // verus!
