//! Accesses through Sv39 page tables.

use riscv_mmu::cpu::{PrivilegeMode, Trap, TrapType};
use riscv_mmu::device::EmptySlot;
use riscv_mmu::mmu::{AddressingMode, Mmu, DRAM_BASE};

type Machine = Mmu<EmptySlot, EmptySlot, EmptySlot, EmptySlot>;

const V: u64 = 1 << 0;
const R: u64 = 1 << 1;
const W: u64 = 1 << 2;
const X: u64 = 1 << 3;
const A: u64 = 1 << 6;
const D: u64 = 1 << 7;

const ROOT: u64 = DRAM_BASE;
const MIDDLE: u64 = DRAM_BASE + 0x1000;
const LAST: u64 = DRAM_BASE + 0x2000;
const DATA: u64 = DRAM_BASE + 0x4000;
const MORE: u64 = DRAM_BASE + 0x6000;

/// The virtual address with the given page table indices and offset.
fn va(vpn2: u64, vpn1: u64, vpn0: u64, offset: u64) -> u64 {
    (vpn2 << 30) | (vpn1 << 21) | (vpn0 << 12) | offset
}

/// The entry that refers to the page of a physical address.
fn pte(p_address: u64, flags: u64) -> u64 {
    ((p_address >> 12) << 10) | flags
}

/// Writes to a physical address.
fn poke(mmu: &mut Machine, p_address: u64, value: u64) {
    for i in 0..8 {
        mmu.store_raw(p_address + i, (value >> (8 * i)) as u8);
    }
}

/// Reads from a physical address.
fn peek(mmu: &mut Machine, p_address: u64) -> u64 {
    u64::from(mmu.load_word_raw(p_address))
        | (u64::from(mmu.load_word_raw(p_address + 4)) << 32)
}

/// A machine in supervisor mode. Entry 3 of the last table maps `DATA`, entry 4 `MORE`,
/// both with the given flags, under indices 1 and 2.
fn paged(flags: u64) -> Machine {
    let mut mmu: Machine = Mmu::new((), &[]);
    mmu.init_memory(0x10000);
    poke(&mut mmu, ROOT + 8, pte(MIDDLE, V));
    poke(&mut mmu, MIDDLE + 2 * 8, pte(LAST, V));
    poke(&mut mmu, LAST + 3 * 8, pte(DATA, flags));
    poke(&mut mmu, LAST + 4 * 8, pte(MORE, flags));
    mmu.update_ppn(ROOT >> 12);
    mmu.update_addressing_mode(AddressingMode::SV39);
    mmu.update_privilege_mode(PrivilegeMode::Supervisor);
    mmu
}

fn page(offset: u64) -> u64 {
    va(1, 2, 3, offset)
}

fn load_fault(value: u64) -> Trap {
    Trap { trap_type: TrapType::LoadPageFault, value }
}

fn store_fault(value: u64) -> Trap {
    Trap { trap_type: TrapType::StorePageFault, value }
}

fn fetch_fault(value: u64) -> Trap {
    Trap { trap_type: TrapType::InstructionPageFault, value }
}

#[test]
fn pages_are_found() {
    let mut mmu = paged(V | R | W | X);
    poke(&mut mmu, DATA + 0x238, 0x1122334455667788);
    assert_eq!(mmu.load(page(0x238)), Ok(0x88));
    assert_eq!(mmu.load_halfword(page(0x239)), Ok(0x6677));
    assert_eq!(mmu.load_word(page(0x238)), Ok(0x55667788));
    assert_eq!(mmu.load_doubleword(page(0x238)), Ok(0x1122334455667788));
    assert_eq!(mmu.fetch_word(page(0x23c)), Ok(0x11223344));
    assert_eq!(mmu.validate_address(page(0x238)), Ok(true));
    mmu.update_privilege_mode(PrivilegeMode::User);
    assert_eq!(mmu.load(page(0x238)), Ok(0x88));
}

#[test]
fn stores_reach_the_page_and_can_be_loaded() {
    let mut mmu = paged(V | R | W);
    assert_eq!(mmu.store_doubleword(page(0x10), 0xa1a2a3a4a5a6a7a8), Ok(()));
    assert_eq!(mmu.load_doubleword(page(0x10)), Ok(0xa1a2a3a4a5a6a7a8));
    assert_eq!(peek(&mut mmu, DATA + 0x10), 0xa1a2a3a4a5a6a7a8);
    assert_eq!(mmu.store_word(page(0x11), 0xb1b2b3b4), Ok(()));
    assert_eq!(mmu.store_halfword(page(0x16), 0xc1c2), Ok(()));
    assert_eq!(mmu.store(page(0x10), 0xd1), Ok(()));
    assert_eq!(peek(&mut mmu, DATA + 0x10), 0xc1c2a3b1b2b3b4d1);
}

#[test]
fn accesses_through_two_pages() {
    let mut mmu = paged(V | R | W | X);
    assert_eq!(mmu.store_doubleword(page(0xffd), 0x0102030405060708), Ok(()));
    assert_eq!(mmu.load_doubleword(page(0xffd)), Ok(0x0102030405060708));
    assert_eq!(peek(&mut mmu, DATA + 0xff8) >> 40, 0x060708);
    assert_eq!(peek(&mut mmu, MORE) & 0xff_ffff_ffff, 0x0102030405);
    assert_eq!(peek(&mut mmu, DATA + 0x1000), 0);
    assert_eq!(mmu.fetch_word(page(0xffe)), Ok(0x04050607));
}

#[test]
fn the_fault_names_the_byte_that_failed() {
    let mut mmu = paged(V | R | W | X);
    poke(&mut mmu, LAST + 4 * 8, 0);
    let next = va(1, 2, 4, 0);
    assert_eq!(mmu.load_word(page(0xffe)), Err(load_fault(next)));
    assert_eq!(mmu.fetch_word(page(0xfff)), Err(fetch_fault(next)));
    assert_eq!(mmu.store_doubleword(page(0xffd), 0x0102030405060708), Err(store_fault(next)));
    // The bytes before the failing one stay stored.
    assert_eq!(peek(&mut mmu, DATA + 0xff8) >> 40, 0x060708);
    assert_eq!(peek(&mut mmu, MORE), 0);
    poke(&mut mmu, LAST + 3 * 8, 0);
    assert_eq!(mmu.load_word(page(0xffe)), Err(load_fault(page(0xffe))));
    assert_eq!(mmu.load(page(0x1)), Err(load_fault(page(0x1))));
    assert_eq!(mmu.store(page(0x2), 1), Err(store_fault(page(0x2))));
    assert_eq!(mmu.fetch_word(page(0x4)), Err(fetch_fault(page(0x4))));
    assert_eq!(mmu.validate_address(page(0x4)), Err(()));
}

#[test]
fn leaves_are_marked() {
    let mut mmu = paged(V | R | W | X);
    mmu.load(page(0)).unwrap();
    assert_eq!(peek(&mut mmu, LAST + 24), pte(DATA, V | R | W | X | A));
    mmu.load(page(8)).unwrap();
    assert_eq!(peek(&mut mmu, LAST + 24), pte(DATA, V | R | W | X | A));
    mmu.store(page(16), 1).unwrap();
    assert_eq!(peek(&mut mmu, LAST + 24), pte(DATA, V | R | W | X | A | D));
    // The entries above the leaf are not marked.
    assert_eq!(peek(&mut mmu, MIDDLE + 16), pte(LAST, V));
    assert_eq!(peek(&mut mmu, ROOT + 8), pte(MIDDLE, V));
    mmu.fetch_word(va(1, 2, 4, 0)).unwrap();
    assert_eq!(peek(&mut mmu, LAST + 32), pte(MORE, V | R | W | X | A));
    let mut mmu = paged(V | R | W);
    mmu.validate_address(page(0)).unwrap();
    assert_eq!(peek(&mut mmu, LAST + 24), pte(DATA, V | R | W | A));
    mmu.store(va(1, 2, 4, 0), 1).unwrap();
    assert_eq!(peek(&mut mmu, LAST + 32), pte(MORE, V | R | W | A | D));
}

#[test]
fn leaves_are_marked_even_when_the_access_is_refused() {
    let mut mmu = paged(V | R);
    assert_eq!(mmu.store(page(0), 1), Err(store_fault(page(0))));
    assert_eq!(peek(&mut mmu, LAST + 24), pte(DATA, V | R | A | D));
    assert_eq!(peek(&mut mmu, DATA), 0);
}

#[test]
fn permissions_are_asked_for() {
    let at = page(0x20);
    // flags, fetch, load, store
    for (flags, fetch, load, store) in [
        (V | R, false, true, false),
        (V | X, true, false, false),
        (V | R | X, true, true, false),
        (V | R | W, false, true, true),
        (V | R | W | X, true, true, true),
        // Not valid.
        (R | W | X, false, false, false),
        // Writable but not readable.
        (V | W, false, false, false),
        (V | W | X, false, false, false),
        // A pointer on the last level.
        (V, false, false, false),
    ] {
        let mut mmu = paged(flags);
        assert_eq!(mmu.fetch_word(at).is_ok(), fetch, "{flags:x}");
        assert_eq!(mmu.load(at).is_ok(), load, "{flags:x}");
        assert_eq!(mmu.store(at, 0).is_ok(), store, "{flags:x}");
        assert_eq!(mmu.validate_address(at).is_ok(), fetch || load, "{flags:x}");
    }
}

#[test]
fn larger_pages_are_found() {
    let mut mmu = paged(V | R | W);
    // A leaf of 2 MiB, right at the start of main memory.
    poke(&mut mmu, MIDDLE + 5 * 8, pte(DRAM_BASE, V | R | W));
    poke(&mut mmu, DATA + 0x18, 0x77);
    assert_eq!(mmu.load(va(1, 5, 4, 0x18)), Ok(0x77));
    assert_eq!(peek(&mut mmu, MIDDLE + 40), pte(DRAM_BASE, V | R | W | A));
    // A leaf of 1 GiB.
    poke(&mut mmu, ROOT + 6 * 8, pte(DRAM_BASE, V | R | W));
    assert_eq!(mmu.load(va(6, 0, 4, 0x18)), Ok(0x77));
    assert_eq!(mmu.store(va(6, 0, 6, 0x19), 0x78), Ok(()));
    assert_eq!(peek(&mut mmu, MORE + 0x18), 0x7800);
    assert_eq!(peek(&mut mmu, ROOT + 48), pte(DRAM_BASE, V | R | W | A | D));
    // Far beyond main memory.
    assert_eq!(mmu.validate_address(va(6, 1, 0, 0)), Ok(false));
}

#[test]
fn misaligned_larger_pages_fault() {
    let mut mmu = paged(V | R | W);
    poke(&mut mmu, MIDDLE + 5 * 8, pte(DRAM_BASE + 0x1000, V | R | W));
    assert_eq!(mmu.load(va(1, 5, 0, 0)), Err(load_fault(va(1, 5, 0, 0))));
    assert_eq!(peek(&mut mmu, MIDDLE + 40), pte(DRAM_BASE + 0x1000, V | R | W | A));
    poke(&mut mmu, ROOT + 6 * 8, pte(DRAM_BASE + 0x1000, V | R | W | A));
    assert_eq!(mmu.load(va(6, 0, 0, 0)), Err(load_fault(va(6, 0, 0, 0))));
    poke(&mut mmu, ROOT + 6 * 8, pte(DRAM_BASE + 0x200000, V | R | W | A));
    assert_eq!(mmu.load(va(6, 0, 0, 0)), Err(load_fault(va(6, 0, 0, 0))));
}

#[test]
fn pages_of_devices_are_found() {
    let mut mmu = paged(V | R | W);
    poke(&mut mmu, LAST + 9 * 8, pte(0x1000, V | R));
    mmu.init_dtb(&[0xaa, 0xbb]);
    assert_eq!(mmu.load_halfword(va(1, 2, 9, 0x20)), Ok(0xbbaa));
    poke(&mut mmu, LAST + 9 * 8, pte(0x1000_1000, V | R | W));
    assert_eq!(mmu.store_word(va(1, 2, 9, 0x70), 0xffff), Ok(()));
    assert_eq!(mmu.load_word(va(1, 2, 9, 0x70)), Ok(0));
    poke(&mut mmu, LAST + 9 * 8, pte(0x3000, V | R | W));
    assert_eq!(mmu.validate_address(va(1, 2, 9, 0)), Ok(false));
}

#[test]
fn machine_mode_is_not_paged() {
    let mut mmu = paged(V | R | W | X);
    mmu.update_privilege_mode(PrivilegeMode::Machine);
    assert_eq!(mmu.store(DATA, 0x31), Ok(()));
    assert_eq!(mmu.load(DATA), Ok(0x31));
    assert_eq!(mmu.fetch_word(DATA), Ok(0x31));
    assert_eq!(mmu.validate_address(page(0)), Ok(false));
    mmu.update_privilege_mode(PrivilegeMode::Reserved);
    assert_eq!(mmu.load(DATA), Ok(0x31));
}

#[test]
fn machine_mode_borrows_privilege() {
    let mut mmu = paged(V | R | W | X);
    mmu.update_privilege_mode(PrivilegeMode::Machine);
    poke(&mut mmu, DATA, 0x51);
    let mprv: u64 = 1 << 17;
    // User and supervisor mode are paged.
    for mpp in [0u64, 1] {
        mmu.update_mstatus(mprv | (mpp << 11));
        assert_eq!(mmu.load(page(0)), Ok(0x51));
        assert_eq!(mmu.store(page(1), 0x52), Ok(()));
        assert_eq!(mmu.load(0x8000_0000), Err(load_fault(0x8000_0000)));
        assert_eq!(mmu.validate_address(page(0)), Ok(true));
        // Fetches are made in machine mode all the same.
        assert_eq!(mmu.fetch_word(DATA), Ok(0x5251));
    }
    // The reserved mode and machine mode are not.
    for mpp in [2u64, 3] {
        mmu.update_mstatus(mprv | (mpp << 11));
        assert_eq!(mmu.load(DATA), Ok(0x51));
    }
    // Without the bit nothing is borrowed.
    mmu.update_mstatus(1 << 11);
    assert_eq!(mmu.load(DATA), Ok(0x51));
    // In supervisor mode the bit has no effect.
    mmu.update_privilege_mode(PrivilegeMode::Supervisor);
    mmu.update_mstatus(mprv | (3 << 11));
    assert_eq!(mmu.load(page(0)), Ok(0x51));
}

#[test]
fn bare_mode_is_not_paged() {
    let mut mmu = paged(V | R | W | X);
    mmu.update_addressing_mode(AddressingMode::Bare);
    poke(&mut mmu, DATA, 0x61);
    assert_eq!(mmu.load(DATA), Ok(0x61));
    mmu.update_addressing_mode(AddressingMode::SV39);
    assert_eq!(mmu.load(page(0)), Ok(0x61));
}

#[test]
fn tables_in_the_device_tree_are_walked() {
    let mut mmu: Machine = Mmu::new((), &[]);
    mmu.init_memory(0x1000);
    // The root table is the page of the device tree. Its entry 4 is at 0x1020.
    let mut dtb: Vec<u8> = Vec::new();
    dtb.extend_from_slice(&pte(DRAM_BASE, V | R | A).to_le_bytes());
    mmu.init_dtb(&dtb);
    poke(&mut mmu, DRAM_BASE + 0x30, 0x99);
    mmu.update_ppn(1);
    mmu.update_addressing_mode(AddressingMode::SV39);
    mmu.update_privilege_mode(PrivilegeMode::User);
    assert_eq!(mmu.load(va(4, 0, 0, 0x30)), Ok(0x99));
}

#[test]
fn the_last_translation_bits_of_an_address_are_ignored() {
    let mut mmu = paged(V | R);
    poke(&mut mmu, DATA, 0x71);
    assert_eq!(mmu.load(page(0) | (0xffff << 39)), Ok(0x71));
}

/// All of main memory.
fn memory(mmu: &mut Machine) -> Vec<u32> {
    (0..0x4000).map(|i| mmu.load_word_raw(DRAM_BASE + 4 * i)).collect()
}

#[test]
fn loads_change_nothing_but_marks() {
    let mut mmu = paged(V | R | W | X);
    let mut expected = memory(&mut mmu);
    mmu.load_doubleword(page(0xffc)).unwrap();
    expected[0x2018 / 4] |= 0x40;
    expected[0x2020 / 4] |= 0x40;
    assert_eq!(memory(&mut mmu), expected);
    // Loading again changes nothing at all.
    mmu.load_doubleword(page(0xffc)).unwrap();
    mmu.fetch_word(page(0xffe)).unwrap();
    assert_eq!(memory(&mut mmu), expected);
    // After a store neither does a load.
    mmu.store(page(0), 0).unwrap();
    expected[0x2018 / 4] |= 0xc0;
    assert_eq!(memory(&mut mmu), expected);
    mmu.load(page(0)).unwrap();
    assert_eq!(memory(&mut mmu), expected);
}

#[test]
fn wide_accesses_agree_with_bytes() {
    let mut one = paged(V | R | W);
    let mut two = paged(V | R | W);
    for at in [page(0x40), page(0xffb)] {
        one.store_doubleword(at, 0x8877665544332211).unwrap();
        for i in 0..8 {
            two.store(at + i, 0x11 * (i as u8 + 1)).unwrap();
        }
        assert_eq!(memory(&mut one), memory(&mut two));
        let wide = one.load_doubleword(at).unwrap();
        for i in 0..8 {
            assert_eq!(two.load(at + i), Ok((wide >> (8 * i)) as u8));
        }
        assert_eq!(memory(&mut one), memory(&mut two));
    }
}

#[test]
fn caching_changes_no_result() {
    let mut one = paged(V | R | W | X);
    let mut two = paged(V | R | W | X);
    two.enable_page_cache(true);
    poke(&mut one, LAST + 5 * 8, pte(DATA, V | R));
    poke(&mut two, LAST + 5 * 8, pte(DATA, V | R));
    for (i, at) in [page(0), page(0x123), page(0xffd), va(1, 2, 4, 0x77), va(1, 2, 5, 0)]
        .into_iter()
        .enumerate()
    {
        let value = 0x1234_5678_9abc_def0 + i as u64;
        assert_eq!(one.store_doubleword(at, value), two.store_doubleword(at, value));
        assert_eq!(one.load_doubleword(at), two.load_doubleword(at));
        assert_eq!(one.fetch_word(at), two.fetch_word(at));
    }
    assert_eq!(memory(&mut one), memory(&mut two));
    assert_eq!(two.load_doubleword(page(0xffd)), Ok(0x1234_5678_9abc_def2));
}

#[test]
fn machine_mode_gives_back_what_was_stored() {
    for caching in [false, true] {
        let mut mmu = paged(V | R | W | X);
        mmu.enable_page_cache(caching);
        mmu.update_privilege_mode(PrivilegeMode::Machine);
        assert_eq!(mmu.store_doubleword(DATA + 0xffa, 0x0102030405060708), Ok(()));
        assert_eq!(mmu.load_doubleword(DATA + 0xffa), Ok(0x0102030405060708));
        assert_eq!(mmu.fetch_word(DATA + 0xffa), Ok(0x05060708));
        assert_eq!(mmu.load_word(DATA + 0xffe), Ok(0x01020304));
    }
}

#[test]
fn machine_mode_may_lend_itself() {
    let mut mmu = paged(V | R | W | X);
    mmu.update_privilege_mode(PrivilegeMode::Machine);
    poke(&mut mmu, DATA, 0x51);
    // MPRV is set, and MPP names machine mode.
    mmu.update_mstatus(0x21800);
    assert_eq!(mmu.load_word(DATA), Ok(0x51));
    assert_eq!(mmu.store_word(DATA, 0x52), Ok(()));
    assert_eq!(mmu.load_word(DATA), Ok(0x52));
    assert_eq!(mmu.validate_address(page(0)), Ok(false));
    // The bits below MPP name nothing.
    mmu.update_mstatus(0x20000 | (3 << 9));
    assert_eq!(mmu.load_word(page(0)), Ok(0x52));
    assert_eq!(mmu.load_word(DATA), Err(load_fault(DATA)));
}

#[test]
fn a_borrowed_mode_translates_as_the_mode_itself() {
    for (mpp, mode) in [(0u64, PrivilegeMode::User), (1, PrivilegeMode::Supervisor)] {
        let mut one = paged(V | R | W);
        one.update_privilege_mode(PrivilegeMode::Machine);
        one.update_mstatus((1 << 17) | (mpp << 11));
        let mut two = paged(V | R | W);
        two.update_privilege_mode(mode);
        for at in [page(0), page(0xffe), va(1, 2, 5, 0), DATA] {
            assert_eq!(one.store_word(at, 0x1234), two.store_word(at, 0x1234));
            assert_eq!(one.load_word(at), two.load_word(at));
        }
        assert_eq!(memory(&mut one), memory(&mut two));
        // Machine mode is back: fetches are physical.
        assert_eq!(one.fetch_word(DATA), Ok(0x1234));
        assert_eq!(two.fetch_word(DATA), Err(fetch_fault(DATA)));
    }
}

#[test]
fn modes_and_high_bits_play_no_part() {
    let mut one = paged(V | R | W);
    one.update_privilege_mode(PrivilegeMode::User);
    let mut two = paged(V | R | W);
    for at in [page(0x20), va(1, 2, 4, 0x30), va(1, 2, 5, 0)] {
        let high = at | (0x1abcdef << 39);
        assert_eq!(one.store(at, 7).is_ok(), two.store(high, 7).is_ok());
        assert_eq!(one.load(at).ok(), two.load(high).ok());
    }
    assert_eq!(memory(&mut one), memory(&mut two));
    assert_eq!(peek(&mut two, DATA + 0x20), 7);
}

#[test]
fn validation_finds_what_any_access_finds() {
    let mut mmu = paged(V | X);
    assert_eq!(mmu.fetch_word(page(0)), Ok(0));
    assert_eq!(mmu.load(page(0)), Err(load_fault(page(0))));
    let before = memory(&mut mmu);
    assert_eq!(mmu.validate_address(page(0)), Ok(true));
    assert_eq!(memory(&mut mmu), before);
}

#[test]
fn tables_in_the_device_tree_serve_stores_and_loads() {
    let mut mmu: Machine = Mmu::new((), &[]);
    mmu.init_memory(0x1000);
    mmu.init_dtb(&pte(2 << 30, V | R | W | A | D).to_le_bytes());
    mmu.update_ppn(1);
    mmu.update_addressing_mode(AddressingMode::SV39);
    mmu.update_privilege_mode(PrivilegeMode::Supervisor);
    let at = va(4, 0, 0, 0xff8);
    assert_eq!(mmu.store_doubleword(at, 0x0807060504030201), Ok(()));
    assert_eq!(mmu.load_doubleword(at), Ok(0x0807060504030201));
    assert_eq!(mmu.load_word_raw(DRAM_BASE + 0xff8), 0x04030201);
    // A doubleword is two words.
    assert_eq!(mmu.store_word(at, 0x14131211), Ok(()));
    assert_eq!(mmu.store_word(at + 4, 0x18171615), Ok(()));
    assert_eq!(mmu.load_doubleword(at), Ok(0x1817161514131211));
}

#[test]
fn pointers_on_the_last_level_fault() {
    let mut mmu = paged(V);
    let before = memory(&mut mmu);
    assert_eq!(mmu.load(page(0)), Err(load_fault(page(0))));
    assert_eq!(mmu.store(page(0), 1), Err(store_fault(page(0))));
    assert_eq!(memory(&mut mmu), before);
}
