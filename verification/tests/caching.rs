//! The page caches.

use riscv_mmu::cpu::PrivilegeMode;
use riscv_mmu::device::EmptySlot;
use riscv_mmu::mmu::{AddressingMode, Mmu, DRAM_BASE};

type Machine = Mmu<EmptySlot, EmptySlot, EmptySlot, EmptySlot>;

const LEAF: u64 = DRAM_BASE;
const ONE: u64 = DRAM_BASE + 0x1000;
const TWO: u64 = DRAM_BASE + 0x2000;
const ALL: u64 = 0xf | 0xc0;

fn poke(mmu: &mut Machine, p_address: u64, value: u64) {
    for i in 0..8 {
        mmu.store_raw(p_address + i, (value >> (8 * i)) as u8);
    }
}

/// Maps the first gigabyte, and the virtual page 0x1000 in it, to the page given. The
/// tables of all levels are in one page.
fn map(mmu: &mut Machine, p_address: u64) {
    let table = ((LEAF >> 12) << 10) | 1;
    poke(mmu, LEAF, table);
    poke(mmu, LEAF + 8, ((p_address >> 12) << 10) | ALL);
}

/// A machine in user mode that maps the virtual page 0x1000 to `ONE`. The first bytes
/// of `ONE` and `TWO` are 1 and 2.
fn machine(caching: bool) -> Machine {
    let mut mmu: Machine = Mmu::new((), &[]);
    mmu.init_memory(0x4000);
    map(&mut mmu, ONE);
    poke(&mut mmu, ONE, 1);
    poke(&mut mmu, TWO, 2);
    mmu.update_ppn(LEAF >> 12);
    mmu.update_addressing_mode(AddressingMode::SV39);
    mmu.update_privilege_mode(PrivilegeMode::User);
    mmu.enable_page_cache(caching);
    mmu
}

#[test]
fn without_cache_changes_are_seen_at_once() {
    let mut mmu = machine(false);
    assert_eq!(mmu.load(0x1000), Ok(1));
    map(&mut mmu, TWO);
    assert_eq!(mmu.load(0x1000), Ok(2));
}

#[test]
fn cached_pages_are_reused() {
    let mut mmu = machine(true);
    assert_eq!(mmu.load(0x1000), Ok(1));
    map(&mut mmu, TWO);
    assert_eq!(mmu.load(0x1000), Ok(1));
    assert_eq!(mmu.load_word(0x1000), Ok(1));
    // All addresses in the page are.
    poke(&mut mmu, ONE + 0xff8, 0x1111);
    assert_eq!(mmu.load_halfword(0x1ff8), Ok(0x1111));
    // Fetches and stores have caches of their own.
    assert_eq!(mmu.fetch_word(0x1000), Ok(2));
    assert_eq!(mmu.store(0x1008, 5), Ok(()));
    assert_eq!(mmu.load_word_raw(TWO + 8), 5);
    assert_eq!(mmu.load(0x1008), Ok(0));
    // Validation has none.
    assert_eq!(mmu.validate_address(0x1000), Ok(true));
    map(&mut mmu, 0x3000);
    assert_eq!(mmu.validate_address(0x1000), Ok(false));
}

#[test]
fn faults_are_not_cached() {
    let mut mmu = machine(true);
    poke(&mut mmu, LEAF + 8, 0);
    assert!(mmu.load(0x1000).is_err());
    map(&mut mmu, TWO);
    assert_eq!(mmu.load(0x1000), Ok(2));
}

#[test]
fn updates_clear_the_caches() {
    let mut mmu = machine(true);
    assert_eq!(mmu.load(0x1000), Ok(1));
    map(&mut mmu, TWO);
    assert_eq!(mmu.load(0x1000), Ok(1));
    mmu.update_ppn(LEAF >> 12);
    assert_eq!(mmu.load(0x1000), Ok(2));
    map(&mut mmu, ONE);
    assert_eq!(mmu.load(0x1000), Ok(2));
    mmu.update_privilege_mode(PrivilegeMode::Supervisor);
    assert_eq!(mmu.load(0x1000), Ok(1));
    map(&mut mmu, TWO);
    assert_eq!(mmu.load(0x1000), Ok(1));
    mmu.update_addressing_mode(AddressingMode::SV39);
    assert_eq!(mmu.load(0x1000), Ok(2));
    map(&mut mmu, ONE);
    assert_eq!(mmu.load(0x1000), Ok(2));
    mmu.enable_page_cache(true);
    assert_eq!(mmu.load(0x1000), Ok(1));
    map(&mut mmu, TWO);
    mmu.enable_page_cache(false);
    assert_eq!(mmu.load(0x1000), Ok(2));
}

#[test]
fn updates_of_mstatus_keep_the_caches() {
    let mut mmu = machine(true);
    assert_eq!(mmu.load(0x1000), Ok(1));
    map(&mut mmu, TWO);
    mmu.update_mstatus(1 << 17);
    assert_eq!(mmu.load(0x1000), Ok(1));
}

#[test]
fn borrowed_privilege_clears_the_caches() {
    let mut mmu = machine(true);
    mmu.update_privilege_mode(PrivilegeMode::Machine);
    mmu.update_mstatus(1 << 17);
    assert_eq!(mmu.load(0x1000), Ok(1));
    map(&mut mmu, TWO);
    // Found in the cache, without another privilege mode.
    assert_eq!(mmu.load(0x1000), Ok(1));
    // Not found, which clears all caches.
    assert_eq!(mmu.store(0x1008, 1), Ok(()));
    assert_eq!(mmu.load(0x1000), Ok(2));
    // What was cached before the bit was cleared is still used.
    mmu.update_mstatus(0);
    assert_eq!(mmu.load(0x1000), Ok(2));
}

#[test]
fn unpaged_pages_are_cached_as_themselves() {
    let mut mmu = machine(true);
    mmu.update_addressing_mode(AddressingMode::Bare);
    assert_eq!(mmu.load(ONE), Ok(1));
    assert_eq!(mmu.load(ONE), Ok(1));
    assert_eq!(mmu.load(TWO), Ok(2));
    assert_eq!(mmu.store(ONE, 7), Ok(()));
    assert_eq!(mmu.store(ONE + 1, 8), Ok(()));
    assert_eq!(mmu.load_halfword(ONE), Ok(0x0807));
    assert_eq!(mmu.fetch_word(ONE), Ok(0x0807));
    assert_eq!(mmu.fetch_word(ONE + 0xffe), Ok(0x20000));
}

#[test]
fn cycles_keep_registers_and_caches() {
    let mut mmu = machine(true);
    assert_eq!(mmu.load(0x1000), Ok(1));
    map(&mut mmu, TWO);
    let mut mip: u64 = 0x222;
    mmu.tick(&mut mip);
    mmu.tick(&mut mip);
    assert_eq!(mip, 0x222);
    assert_eq!(mmu.load(0x1000), Ok(1));
    assert_eq!(mmu.fetch_word(0x1000), Ok(2));
}

#[test]
fn stored_bytes_are_loaded_through_the_caches() {
    let mut mmu = machine(true);
    for value in [0x1111u32, 0x2222] {
        assert_eq!(mmu.store_word(0x1010, value), Ok(()));
        assert_eq!(mmu.load_word(0x1010), Ok(value));
        assert_eq!(mmu.load_word_raw(ONE + 0x10), value);
    }
}
