//! The physical address space: which part of the machine answers at which address.
use crate::dram::DRAM_BASE;
use vstd::prelude::*;

verus! {

/// Address of the first byte of the device tree.
pub const DTB_BASE: u64 = 0x1020;

/// Size of the device tree in bytes. It ends right before address 0x2000.
pub const DTB_SIZE: usize = 0xfe0;

/// What a physical address belongs to.
#[derive(Clone, Copy, Debug, PartialEq, Eq, Structural)]
pub enum Region {
    Dram,
    DeviceTree,
    Clint,
    Plic,
    Uart,
    Disk,
    Unmapped,
}

/// The part of the machine that `p_address` belongs to. All addresses from
/// [`DRAM_BASE`] on belong to main memory, whether or not it is that large.
pub open spec fn region(p_address: u64) -> Region {
    if DRAM_BASE <= p_address {
        Region::Dram
    } else if 0x1020 <= p_address <= 0x1fff {
        Region::DeviceTree
    } else if 0x0200_0000 <= p_address <= 0x0200_ffff {
        Region::Clint
    } else if 0x0c00_0000 <= p_address <= 0x0fff_ffff {
        Region::Plic
    } else if 0x1000_0000 <= p_address <= 0x1000_00ff {
        Region::Uart
    } else if 0x1000_1000 <= p_address <= 0x1000_1fff {
        Region::Disk
    } else {
        Region::Unmapped
    }
}

/// Finds the part of the machine that a physical address belongs to.
pub fn region_of(p_address: u64) -> (found: Region)
    ensures
        found == region(p_address),
{
    if p_address >= DRAM_BASE {
        Region::Dram
    } else {
        match p_address {
            0x00001020..=0x00001fff => Region::DeviceTree,
            0x02000000..=0x0200ffff => Region::Clint,
            0x0c000000..=0x0fffffff => Region::Plic,
            0x10000000..=0x100000ff => Region::Uart,
            0x10001000..=0x10001fff => Region::Disk,
            _ => Region::Unmapped,
        }
    }
}

/// The address `i` bytes after `address`. Addresses wrap around.
pub open spec fn address_after(address: u64, i: int) -> u64 {
    ((address + i) % 0x1_0000_0000_0000_0000) as u64
}

/// Offsets in pages do not notice that addresses wrap around.
pub proof fn lemma_offset_after(address: u64, i: int)
    ensures
        address_after(address, i) % 0x1000 == (address + i) % 0x1000,
        0 <= i && address + i <= u64::MAX ==> address_after(address, i) == address + i,
{
    vstd::arithmetic::div_mod::lemma_mod_mod(address + i, 0x1000, 0x10_0000_0000_0000);
}

/// Addresses less than a page apart have different offsets.
pub proof fn lemma_offsets_differ(address: u64, i: int, j: int)
    requires
        0 <= i < j < i + 0x1000,
    ensures
        address_after(address, i) % 0x1000 != address_after(address, j) % 0x1000,
{
    lemma_offset_after(address, i);
    lemma_offset_after(address, j);
    let a = address + i;
    let b = address + j;
    assert(a % 0x1000 != b % 0x1000);
}

} // verus!
