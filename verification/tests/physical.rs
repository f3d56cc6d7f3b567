//! Accesses without address translation.

use riscv_mmu::address_map::{region_of, Region, DTB_SIZE};
use riscv_mmu::cpu::{get_privilege_mode, PrivilegeMode};
use riscv_mmu::device::{EmptySlot, Uart};
use riscv_mmu::memory::Memory;
use riscv_mmu::mmu::{Mmu, _get_addressing_mode_name, DRAM_BASE};
use riscv_mmu::model::AddressingMode;

type Machine = Mmu<EmptySlot, EmptySlot, EmptySlot, EmptySlot>;

fn machine() -> Machine {
    let mut mmu: Machine = Mmu::new((), &[0xd0, 0x0d, 0xfe, 0xed]);
    mmu.init_memory(0x10000);
    mmu
}

#[test]
fn memory_starts_out_as_zeros() {
    let mut mmu = machine();
    assert_eq!(mmu.load(DRAM_BASE), Ok(0));
    assert_eq!(mmu.load_doubleword(DRAM_BASE + 0xfff8), Ok(0));
    assert_eq!(mmu.load_word_raw(DRAM_BASE + 0x8000), 0);
}

#[test]
fn numbers_are_little_endian() {
    let mut mmu = machine();
    assert_eq!(mmu.store_doubleword(DRAM_BASE, 0x0123456789abcdef), Ok(()));
    assert_eq!(mmu.load(DRAM_BASE), Ok(0xef));
    assert_eq!(mmu.load(DRAM_BASE + 7), Ok(0x01));
    assert_eq!(mmu.load_halfword(DRAM_BASE), Ok(0xcdef));
    assert_eq!(mmu.load_halfword(DRAM_BASE + 3), Ok(0x6789));
    assert_eq!(mmu.load_word(DRAM_BASE), Ok(0x89abcdef));
    assert_eq!(mmu.load_word(DRAM_BASE + 1), Ok(0x6789abcd));
    assert_eq!(mmu.load_doubleword(DRAM_BASE), Ok(0x0123456789abcdef));
    assert_eq!(mmu.fetch_word(DRAM_BASE + 2), Ok(0x456789ab));
    assert_eq!(mmu.load_word_raw(DRAM_BASE + 4), 0x01234567);
}

#[test]
fn stores_write_their_width_only() {
    let mut mmu = machine();
    mmu.store_doubleword(DRAM_BASE, u64::MAX).unwrap();
    mmu.store(DRAM_BASE + 1, 0x12).unwrap();
    mmu.store_halfword(DRAM_BASE + 2, 0x3456).unwrap();
    mmu.store_word(DRAM_BASE + 4, 0x789abcde).unwrap();
    assert_eq!(mmu.load_doubleword(DRAM_BASE), Ok(0x789abcde345612ff));
    assert_eq!(mmu.load(DRAM_BASE + 8), Ok(0));
    mmu.store_raw(DRAM_BASE + 8, 0x77);
    assert_eq!(mmu.load_halfword(DRAM_BASE + 7), Ok(0x7778));
}

#[test]
fn accesses_cross_pages() {
    let mut mmu = machine();
    let end = DRAM_BASE + 0x1000;
    assert_eq!(mmu.store_doubleword(end - 3, 0x1122334455667788), Ok(()));
    assert_eq!(mmu.load_doubleword(end - 3), Ok(0x1122334455667788));
    assert_eq!(mmu.load(end - 1), Ok(0x66));
    assert_eq!(mmu.load(end), Ok(0x55));
    assert_eq!(mmu.store_word(end - 2, 0xa1b2c3d4), Ok(()));
    assert_eq!(mmu.load_word(end - 2), Ok(0xa1b2c3d4));
    assert_eq!(mmu.fetch_word(end - 2), Ok(0xa1b2c3d4));
    assert_eq!(mmu.fetch_word(end - 1), Ok(0x33a1b2c3));
    assert_eq!(mmu.store_halfword(end - 1, 0xbeef), Ok(()));
    assert_eq!(mmu.load_halfword(end - 1), Ok(0xbeef));
    // The last position that fits a page, and the first that does not.
    for offset in [4u64, 5, 6, 7, 8, 9] {
        mmu.store_doubleword(end - offset, 0x0102030405060708 * offset).unwrap();
        assert_eq!(mmu.load_doubleword(end - offset), Ok(0x0102030405060708 * offset));
    }
}

#[test]
fn device_tree_is_filled_up_with_zeros() {
    let mut mmu = machine();
    assert_eq!(mmu.load_word(0x1020), Ok(0xedfe0dd0));
    assert_eq!(mmu.load_word(0x1024), Ok(0));
    assert_eq!(mmu.load(0x1fff), Ok(0));
    mmu.init_dtb(&[7; DTB_SIZE]);
    assert_eq!(mmu.load(0x1020), Ok(7));
    assert_eq!(mmu.load(0x1fff), Ok(7));
    assert_eq!(mmu.load_doubleword(0x1fc0), Ok(0x0707070707070707));
    mmu.init_dtb(&[9, 8]);
    assert_eq!(mmu.load_word(0x1020), Ok(0x0809));
    assert_eq!(mmu.load(0x1fff), Ok(0));
}

#[test]
fn empty_slots_read_as_zero() {
    let mut mmu = machine();
    for address in [0x0200_0000u64, 0x0c00_0000, 0x1000_0000, 0x1000_1000] {
        assert_eq!(mmu.store_word(address, 0xffff_ffff), Ok(()));
        assert_eq!(mmu.load_word(address), Ok(0));
    }
    let mut mip: u64 = 0x20;
    mmu.tick(&mut mip);
    assert_eq!(mip, 0x20);
    assert_eq!(mmu.get_clint(), &EmptySlot);
    assert!(!mmu.get_mut_uart().is_interrupting());
}

#[test]
fn valid_addresses_are_those_of_the_machine() {
    let mut mmu = machine();
    for address in [
        0x1020,
        0x1fff,
        0x0200_0000,
        0x0200_ffff,
        0x0c00_0000,
        0x0fff_ffff,
        0x1000_0000,
        0x1000_00ff,
        0x1000_1000,
        0x1000_1fff,
        DRAM_BASE,
        DRAM_BASE + 0xffff,
    ] {
        assert_eq!(mmu.validate_address(address), Ok(true), "{address:x}");
    }
    for address in [
        0,
        0x101f,
        0x2000,
        0x01ff_ffff,
        0x0201_0000,
        0x0bff_ffff,
        0x1000_0100,
        0x1000_0fff,
        0x1000_2000,
        DRAM_BASE - 1,
        DRAM_BASE + 0x10000,
        u64::MAX,
    ] {
        assert_eq!(mmu.validate_address(address), Ok(false), "{address:x}");
    }
}

#[test]
fn regions_have_their_bounds() {
    assert_eq!(region_of(0x101f), Region::Unmapped);
    assert_eq!(region_of(0x1020), Region::DeviceTree);
    assert_eq!(region_of(0x0200_8000), Region::Clint);
    assert_eq!(region_of(0x0d00_0000), Region::Plic);
    assert_eq!(region_of(0x1000_0005), Region::Uart);
    assert_eq!(region_of(0x1000_1fff), Region::Disk);
    assert_eq!(region_of(0x1000_2000), Region::Unmapped);
    assert_eq!(region_of(0x7fff_ffff), Region::Unmapped);
    assert_eq!(region_of(0x8000_0000), Region::Dram);
    assert_eq!(region_of(u64::MAX), Region::Dram);
}

#[test]
fn memory_starts_over_when_initialized() {
    let mut mmu = machine();
    mmu.store(DRAM_BASE, 1).unwrap();
    mmu.init_memory(0x20);
    assert_eq!(mmu.load(DRAM_BASE), Ok(0));
    assert_eq!(mmu.validate_address(DRAM_BASE + 0x1f), Ok(true));
    assert_eq!(mmu.validate_address(DRAM_BASE + 0x20), Ok(false));
}

#[test]
fn memory_is_addressed_from_zero() {
    let mut memory = Memory::new();
    assert!(!memory.validate_address(0));
    memory.init(16);
    assert!(memory.validate_address(15));
    assert!(!memory.validate_address(16));
    memory.write_doubleword(3, 0x8877665544332211);
    assert_eq!(memory.read_byte(3), 0x11);
    assert_eq!(memory.read_halfword(4), 0x3322);
    assert_eq!(memory.read_word(7), 0x88776655);
    assert_eq!(memory.read_doubleword(8), 0x0000000000887766);
    memory.write_byte(10, 0xff);
    memory.write_halfword(0, 0xabcd);
    memory.write_word(12, 0xdeadbeef);
    assert_eq!(memory.read_doubleword(0), 0x554433221100abcd);
    assert_eq!(memory.read_doubleword(8), 0xdeadbeef00ff7766);
}

#[test]
fn privilege_modes_are_decoded() {
    assert_eq!(get_privilege_mode(0), PrivilegeMode::User);
    assert_eq!(get_privilege_mode(1), PrivilegeMode::Supervisor);
    assert_eq!(get_privilege_mode(2), PrivilegeMode::Reserved);
    assert_eq!(get_privilege_mode(3), PrivilegeMode::Machine);
}

#[test]
fn addressing_modes_have_names() {
    assert_eq!(_get_addressing_mode_name(&AddressingMode::Bare), "None");
    assert_eq!(_get_addressing_mode_name(&AddressingMode::SV39), "SV39");
    assert_eq!(_get_addressing_mode_name(&AddressingMode::SV48), "SV48");
}
