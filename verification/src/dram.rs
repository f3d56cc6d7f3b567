//! Main memory as it appears in the physical address space.
use crate::endian::{le_bytes, le_value};
use crate::memory::{overwrite, Memory};
use vstd::prelude::*;

verus! {

/// DRAM base address. Offset from this base address
/// is the address in main memory.
pub const DRAM_BASE: u64 = 0x80000000;

/// [`Memory`] wrapper. Converts physical address to the one in memory
/// using [`DRAM_BASE`] and accesses [`Memory`].
pub struct MemoryWrapper {
    memory: Memory,
}

impl View for MemoryWrapper {
    type V = Seq<u8>;

    /// The bytes of main memory. The first one is at [`DRAM_BASE`].
    closed spec fn view(&self) -> Seq<u8> {
        self.memory@
    }
}

/// Whether a memory of `size` bytes holds the `width` bytes from the physical
/// address `p_address` on.
pub open spec fn holds(size: nat, p_address: u64, width: nat) -> bool {
    DRAM_BASE <= p_address && p_address - DRAM_BASE + width <= size
}

impl MemoryWrapper {
    /// Creates a main memory without capacity.
    pub(crate) fn new() -> (wrapper: Self)
        ensures
            wrapper@ == Seq::<u8>::empty(),
    {
        MemoryWrapper { memory: Memory::new() }
    }

    /// Gives the main memory `capacity` bytes, all zero.
    pub(crate) fn init(&mut self, capacity: u64)
        requires
            capacity <= isize::MAX,
        ensures
            final(self)@ == Seq::new(capacity as nat, |i: int| 0u8),
    {
        self.memory.init(capacity);
    }

    /// Reads the byte at a physical address.
    pub fn read_byte(&mut self, p_address: u64) -> (value: u8)
        requires
            holds(old(self)@.len(), p_address, 1),
        ensures
            value == old(self)@[p_address - DRAM_BASE],
            final(self)@ == old(self)@,
    {
        self.memory.read_byte(p_address - DRAM_BASE)
    }

    /// Reads the two bytes from a physical address on.
    pub fn read_halfword(&mut self, p_address: u64) -> (value: u16)
        requires
            holds(old(self)@.len(), p_address, 2),
        ensures
            value == le_value(
                old(self)@.subrange(p_address - DRAM_BASE, p_address - DRAM_BASE + 2),
            ),
            final(self)@ == old(self)@,
    {
        self.memory.read_halfword(p_address - DRAM_BASE)
    }

    /// Reads the four bytes from a physical address on.
    pub fn read_word(&mut self, p_address: u64) -> (value: u32)
        requires
            holds(old(self)@.len(), p_address, 4),
        ensures
            value == le_value(
                old(self)@.subrange(p_address - DRAM_BASE, p_address - DRAM_BASE + 4),
            ),
            final(self)@ == old(self)@,
    {
        self.memory.read_word(p_address - DRAM_BASE)
    }

    /// Reads the eight bytes from a physical address on.
    pub fn read_doubleword(&mut self, p_address: u64) -> (value: u64)
        requires
            holds(old(self)@.len(), p_address, 8),
        ensures
            value == le_value(
                old(self)@.subrange(p_address - DRAM_BASE, p_address - DRAM_BASE + 8),
            ),
            final(self)@ == old(self)@,
    {
        self.memory.read_doubleword(p_address - DRAM_BASE)
    }

    /// Writes the byte at a physical address.
    pub fn write_byte(&mut self, p_address: u64, value: u8)
        requires
            holds(old(self)@.len(), p_address, 1),
        ensures
            final(self)@ == old(self)@.update(p_address - DRAM_BASE, value),
    {
        self.memory.write_byte(p_address - DRAM_BASE, value);
    }

    /// Writes the two bytes from a physical address on.
    pub fn write_halfword(&mut self, p_address: u64, value: u16)
        requires
            holds(old(self)@.len(), p_address, 2),
        ensures
            final(self)@ == overwrite(
                old(self)@,
                p_address - DRAM_BASE,
                le_bytes(value as nat, 2),
            ),
    {
        self.memory.write_halfword(p_address - DRAM_BASE, value);
    }

    /// Writes the four bytes from a physical address on.
    pub fn write_word(&mut self, p_address: u64, value: u32)
        requires
            holds(old(self)@.len(), p_address, 4),
        ensures
            final(self)@ == overwrite(
                old(self)@,
                p_address - DRAM_BASE,
                le_bytes(value as nat, 4),
            ),
    {
        self.memory.write_word(p_address - DRAM_BASE, value);
    }

    /// Writes the eight bytes from a physical address on.
    pub fn write_doubleword(&mut self, p_address: u64, value: u64)
        requires
            holds(old(self)@.len(), p_address, 8),
        ensures
            final(self)@ == overwrite(
                old(self)@,
                p_address - DRAM_BASE,
                le_bytes(value as nat, 8),
            ),
    {
        self.memory.write_doubleword(p_address - DRAM_BASE, value);
    }

    /// Tells whether main memory has a byte at a physical address.
    pub fn validate_address(&self, address: u64) -> (valid: bool)
        requires
            DRAM_BASE <= address,
        ensures
            valid == holds(self@.len(), address, 1),
    {
        self.memory.validate_address(address - DRAM_BASE)
    }
}

} // verus!
