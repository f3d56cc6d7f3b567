//! The peripheral devices as the memory management unit sees them.
//!
//! A device is a state machine. Its register accesses are functions of its state:
//! the spec methods name the byte that a load returns and the state that a load or
//! a store leaves behind. The outside world enters a device when it is made and
//! when it ticks, so there the spec methods say which states may follow.
//!
//! Register accesses pass the physical address on as it is, and only addresses of
//! the device's own region.
use crate::address_map::{region, Region};
use crate::dram::MemoryWrapper;
use vstd::prelude::*;

verus! {

/// Core local interruptor: timer and software interrupts.
pub trait Clint: Sized {
    /// Whether this is a state that the device starts in.
    spec fn is_initial(self) -> bool;

    /// The byte that a load returns, and the state after it.
    spec fn after_load(self, p_address: u64) -> (u8, Self);

    /// The state after a store.
    spec fn after_store(self, p_address: u64, value: u8) -> Self;

    /// Whether a tick may lead from this state and `mip` to the given ones.
    spec fn may_tick_to(self, mip: u64, next: Self, next_mip: u64) -> bool;

    fn new() -> (device: Self)
        ensures
            device.is_initial(),
    ;

    fn load(&mut self, p_address: u64) -> (value: u8)
        requires
            region(p_address) == Region::Clint,
        ensures
            (value, *final(self)) == old(self).after_load(p_address),
    ;

    fn store(&mut self, p_address: u64, value: u8)
        requires
            region(p_address) == Region::Clint,
        ensures
            *final(self) == old(self).after_store(p_address, value),
    ;

    /// Runs one cycle. The pending interrupts are signalled in `mip`.
    fn tick(&mut self, mip: &mut u64)
        ensures
            old(self).may_tick_to(*old(mip), *final(self), *final(mip)),
    ;
}

/// Platform level interrupt controller.
pub trait Plic: Sized {
    /// Whether this is a state that the device starts in.
    spec fn is_initial(self) -> bool;

    /// The byte that a load returns, and the state after it.
    spec fn after_load(self, p_address: u64) -> (u8, Self);

    /// The state after a store.
    spec fn after_store(self, p_address: u64, value: u8) -> Self;

    /// Whether a tick may lead from this state and `mip` to the given ones, when
    /// the disk and the UART raise their interrupt lines as told.
    spec fn may_tick_to(
        self,
        disk_interrupt: bool,
        uart_interrupt: bool,
        mip: u64,
        next: Self,
        next_mip: u64,
    ) -> bool;

    fn new() -> (device: Self)
        ensures
            device.is_initial(),
    ;

    fn load(&mut self, p_address: u64) -> (value: u8)
        requires
            region(p_address) == Region::Plic,
        ensures
            (value, *final(self)) == old(self).after_load(p_address),
    ;

    fn store(&mut self, p_address: u64, value: u8)
        requires
            region(p_address) == Region::Plic,
        ensures
            *final(self) == old(self).after_store(p_address, value),
    ;

    /// Runs one cycle. The pending interrupts are signalled in `mip`.
    fn tick(&mut self, disk_interrupt: bool, uart_interrupt: bool, mip: &mut u64)
        ensures
            old(self).may_tick_to(
                disk_interrupt,
                uart_interrupt,
                *old(mip),
                *final(self),
                *final(mip),
            ),
    ;
}

/// Serial port, attached to a terminal.
pub trait Uart: Sized {
    /// The terminal that the port sends to and receives from.
    type Terminal;

    /// Whether this is a state that the device starts in, attached to `terminal`.
    spec fn is_initial(self, terminal: Self::Terminal) -> bool;

    /// The byte that a load returns, and the state after it.
    spec fn after_load(self, p_address: u64) -> (u8, Self);

    /// The state after a store.
    spec fn after_store(self, p_address: u64, value: u8) -> Self;

    /// Whether a tick may lead from this state to `next`.
    spec fn may_tick_to(self, next: Self) -> bool;

    /// Whether the device is interrupting, and the state after it was asked.
    spec fn after_poll(self) -> (bool, Self);

    fn new(terminal: Self::Terminal) -> (device: Self)
        ensures
            device.is_initial(terminal),
    ;

    fn load(&mut self, p_address: u64) -> (value: u8)
        requires
            region(p_address) == Region::Uart,
        ensures
            (value, *final(self)) == old(self).after_load(p_address),
    ;

    fn store(&mut self, p_address: u64, value: u8)
        requires
            region(p_address) == Region::Uart,
        ensures
            *final(self) == old(self).after_store(p_address, value),
    ;

    /// Runs one cycle.
    fn tick(&mut self)
        ensures
            old(self).may_tick_to(*final(self)),
    ;

    fn is_interrupting(&mut self) -> (interrupting: bool)
        ensures
            (interrupting, *final(self)) == old(self).after_poll(),
    ;
}

/// Virtio block disk. It reads and writes main memory by itself.
pub trait VirtioBlockDisk: Sized {
    /// Whether this is a state that the device starts in.
    spec fn is_initial(self) -> bool;

    /// The state after the disk was given its contents.
    spec fn after_init(self, contents: Seq<u8>) -> Self;

    /// The byte that a load returns, and the state after it.
    spec fn after_load(self, p_address: u64) -> (u8, Self);

    /// The state after a store.
    spec fn after_store(self, p_address: u64, value: u8) -> Self;

    /// Whether a tick may lead from this state and main memory to the given ones.
    spec fn may_tick_to(self, memory: Seq<u8>, next: Self, next_memory: Seq<u8>) -> bool;

    /// Whether the device is interrupting, and the state after it was asked.
    spec fn after_poll(self) -> (bool, Self);

    fn new() -> (device: Self)
        ensures
            device.is_initial(),
    ;

    /// Gives the disk its contents.
    fn init(&mut self, contents: &[u8])
        ensures
            *final(self) == old(self).after_init(contents@),
    ;

    fn load(&mut self, p_address: u64) -> (value: u8)
        requires
            region(p_address) == Region::Disk,
        ensures
            (value, *final(self)) == old(self).after_load(p_address),
    ;

    fn store(&mut self, p_address: u64, value: u8)
        requires
            region(p_address) == Region::Disk,
        ensures
            *final(self) == old(self).after_store(p_address, value),
    ;

    /// Runs one cycle. The size of main memory stays.
    fn tick(&mut self, memory: &mut MemoryWrapper)
        ensures
            old(self).may_tick_to(old(memory)@, *final(self), final(memory)@),
            final(memory)@.len() == old(memory)@.len(),
    ;

    fn is_interrupting(&mut self) -> (interrupting: bool)
        ensures
            (interrupting, *final(self)) == old(self).after_poll(),
    ;
}

/// The slot of a device that is not fitted. Loads return zero, stores have no
/// effect, and it never interrupts.
#[derive(Clone, Copy, Debug, PartialEq, Eq, Structural)]
pub struct EmptySlot;

impl Clint for EmptySlot {
    open spec fn is_initial(self) -> bool {
        true
    }

    open spec fn after_load(self, p_address: u64) -> (u8, Self) {
        (0, self)
    }

    open spec fn after_store(self, p_address: u64, value: u8) -> Self {
        self
    }

    open spec fn may_tick_to(self, mip: u64, next: Self, next_mip: u64) -> bool {
        next == self && next_mip == mip
    }

    fn new() -> Self {
        EmptySlot
    }

    fn load(&mut self, p_address: u64) -> u8 {
        0
    }

    fn store(&mut self, p_address: u64, value: u8) {
    }

    fn tick(&mut self, mip: &mut u64) {
    }
}

impl Plic for EmptySlot {
    open spec fn is_initial(self) -> bool {
        true
    }

    open spec fn after_load(self, p_address: u64) -> (u8, Self) {
        (0, self)
    }

    open spec fn after_store(self, p_address: u64, value: u8) -> Self {
        self
    }

    open spec fn may_tick_to(
        self,
        disk_interrupt: bool,
        uart_interrupt: bool,
        mip: u64,
        next: Self,
        next_mip: u64,
    ) -> bool {
        next == self && next_mip == mip
    }

    fn new() -> Self {
        EmptySlot
    }

    fn load(&mut self, p_address: u64) -> u8 {
        0
    }

    fn store(&mut self, p_address: u64, value: u8) {
    }

    fn tick(&mut self, disk_interrupt: bool, uart_interrupt: bool, mip: &mut u64) {
    }
}

impl Uart for EmptySlot {
    type Terminal = ();

    open spec fn is_initial(self, terminal: ()) -> bool {
        true
    }

    open spec fn after_load(self, p_address: u64) -> (u8, Self) {
        (0, self)
    }

    open spec fn after_store(self, p_address: u64, value: u8) -> Self {
        self
    }

    open spec fn may_tick_to(self, next: Self) -> bool {
        next == self
    }

    open spec fn after_poll(self) -> (bool, Self) {
        (false, self)
    }

    fn new(terminal: ()) -> Self {
        EmptySlot
    }

    fn load(&mut self, p_address: u64) -> u8 {
        0
    }

    fn store(&mut self, p_address: u64, value: u8) {
    }

    fn tick(&mut self) {
    }

    fn is_interrupting(&mut self) -> bool {
        false
    }
}

impl VirtioBlockDisk for EmptySlot {
    open spec fn is_initial(self) -> bool {
        true
    }

    open spec fn after_init(self, contents: Seq<u8>) -> Self {
        self
    }

    open spec fn after_load(self, p_address: u64) -> (u8, Self) {
        (0, self)
    }

    open spec fn after_store(self, p_address: u64, value: u8) -> Self {
        self
    }

    open spec fn may_tick_to(self, memory: Seq<u8>, next: Self, next_memory: Seq<u8>) -> bool {
        next == self && next_memory == memory
    }

    open spec fn after_poll(self) -> (bool, Self) {
        (false, self)
    }

    fn new() -> Self {
        EmptySlot
    }

    fn init(&mut self, contents: &[u8]) {
    }

    fn load(&mut self, p_address: u64) -> u8 {
        0
    }

    fn store(&mut self, p_address: u64, value: u8) {
    }

    fn tick(&mut self, memory: &mut MemoryWrapper) {
    }

    fn is_interrupting(&mut self) -> bool {
        false
    }
}

} // verus!
