//! Accesses to the peripheral devices, and the order of a cycle.

use riscv_mmu::cpu::PrivilegeMode;
use riscv_mmu::device::{Clint, Plic, Uart, VirtioBlockDisk};
use riscv_mmu::mmu::{AddressingMode, MemoryWrapper, Mmu, DRAM_BASE};
use vstd::seq::Seq;

/// A device that keeps the last byte stored to each of its low eight registers, adds
/// one to a register when it is loaded, and notes what happens to it.
#[derive(Clone, Debug, Default, PartialEq)]
struct Registers {
    values: [u8; 8],
    notes: Vec<String>,
}

impl Registers {
    fn get(&mut self, address: u64) -> u8 {
        let register = &mut self.values[(address % 8) as usize];
        let value = *register;
        *register = value.wrapping_add(1);
        self.notes.push(format!("load {address:x}"));
        value
    }

    fn set(&mut self, address: u64, value: u8) {
        self.values[(address % 8) as usize] = value;
        self.notes.push(format!("store {address:x} {value:x}"));
    }
}

#[derive(Clone, Debug, Default, PartialEq)]
struct TestClint(Registers);

impl Clint for TestClint {
    fn is_initial(self) -> bool {
        unreachable!()
    }

    fn after_load(self, _: u64) -> (u8, Self) {
        unreachable!()
    }

    fn after_store(self, _: u64, _: u8) -> Self {
        unreachable!()
    }

    fn may_tick_to(self, _: u64, _: Self, _: u64) -> bool {
        unreachable!()
    }

    fn new() -> Self {
        TestClint::default()
    }

    fn load(&mut self, p_address: u64) -> u8 {
        self.0.get(p_address)
    }

    fn store(&mut self, p_address: u64, value: u8) {
        self.0.set(p_address, value)
    }

    fn tick(&mut self, mip: &mut u64) {
        self.0.notes.push(format!("tick {mip:x}"));
        *mip |= 0x80;
    }
}

#[derive(Clone, Debug, Default, PartialEq)]
struct TestPlic(Registers);

impl Plic for TestPlic {
    fn is_initial(self) -> bool {
        unreachable!()
    }

    fn after_load(self, _: u64) -> (u8, Self) {
        unreachable!()
    }

    fn after_store(self, _: u64, _: u8) -> Self {
        unreachable!()
    }

    fn may_tick_to(self, _: bool, _: bool, _: u64, _: Self, _: u64) -> bool {
        unreachable!()
    }

    fn new() -> Self {
        TestPlic::default()
    }

    fn load(&mut self, p_address: u64) -> u8 {
        self.0.get(p_address)
    }

    fn store(&mut self, p_address: u64, value: u8) {
        self.0.set(p_address, value)
    }

    fn tick(&mut self, disk_interrupt: bool, uart_interrupt: bool, mip: &mut u64) {
        if *mip & 0x80 != 0 {
            *mip |= 0x8000;
        }
        if disk_interrupt {
            *mip |= 0x100;
        }
        if uart_interrupt {
            *mip |= 0x200;
        }
    }
}

#[derive(Clone, Debug, PartialEq)]
struct TestUart {
    registers: Registers,
    terminal: String,
    interrupting: bool,
}

impl Uart for TestUart {
    type Terminal = String;

    fn is_initial(self, _: String) -> bool {
        unreachable!()
    }

    fn after_load(self, _: u64) -> (u8, Self) {
        unreachable!()
    }

    fn after_store(self, _: u64, _: u8) -> Self {
        unreachable!()
    }

    fn may_tick_to(self, _: Self) -> bool {
        unreachable!()
    }

    fn after_poll(self) -> (bool, Self) {
        unreachable!()
    }

    fn new(terminal: String) -> Self {
        TestUart { registers: Registers::default(), terminal, interrupting: false }
    }

    fn load(&mut self, p_address: u64) -> u8 {
        self.registers.get(p_address)
    }

    fn store(&mut self, p_address: u64, value: u8) {
        self.registers.set(p_address, value)
    }

    fn tick(&mut self) {
        self.terminal.push('t');
        self.interrupting = true;
    }

    fn is_interrupting(&mut self) -> bool {
        let interrupting = self.interrupting;
        self.interrupting = false;
        interrupting
    }
}

#[derive(Clone, Debug, Default, PartialEq)]
struct TestDisk {
    registers: Registers,
    contents: Vec<u8>,
}

impl VirtioBlockDisk for TestDisk {
    fn is_initial(self) -> bool {
        unreachable!()
    }

    fn after_init(self, _: Seq<u8>) -> Self {
        unreachable!()
    }

    fn after_load(self, _: u64) -> (u8, Self) {
        unreachable!()
    }

    fn after_store(self, _: u64, _: u8) -> Self {
        unreachable!()
    }

    fn may_tick_to(self, _: Seq<u8>, _: Self, _: Seq<u8>) -> bool {
        unreachable!()
    }

    fn after_poll(self) -> (bool, Self) {
        unreachable!()
    }

    fn new() -> Self {
        TestDisk::default()
    }

    fn init(&mut self, contents: &[u8]) {
        self.contents = contents.to_vec();
    }

    fn load(&mut self, p_address: u64) -> u8 {
        self.registers.get(p_address)
    }

    fn store(&mut self, p_address: u64, value: u8) {
        self.registers.set(p_address, value)
    }

    fn tick(&mut self, memory: &mut MemoryWrapper) {
        if !self.contents.is_empty() {
            memory.write_byte(DRAM_BASE, self.contents[0]);
            memory.write_halfword(DRAM_BASE + 1, 0x2211);
            memory.write_word(DRAM_BASE + 3, 0x66554433);
            memory.write_doubleword(DRAM_BASE + 7, 0xeeddccbbaa998877);
            assert_eq!(memory.read_byte(DRAM_BASE), self.contents[0]);
            assert_eq!(memory.read_halfword(DRAM_BASE + 6), 0x7766);
            assert_eq!(memory.read_word(DRAM_BASE + 2), 0x55443322);
            assert_eq!(memory.read_doubleword(DRAM_BASE + 7), 0xeeddccbbaa998877);
            assert!(memory.validate_address(DRAM_BASE + 0xff));
            assert!(!memory.validate_address(DRAM_BASE + 0x100));
        }
    }

    fn is_interrupting(&mut self) -> bool {
        !self.contents.is_empty()
    }
}

type Machine = Mmu<TestClint, TestPlic, TestUart, TestDisk>;

fn machine() -> Machine {
    let mut mmu: Machine = Mmu::new(String::from(">"), &[]);
    mmu.init_memory(0x100);
    mmu
}

#[test]
fn each_region_belongs_to_its_device() {
    let mut mmu = machine();
    mmu.store(0x0200_0001, 0x11).unwrap();
    mmu.store(0x0c00_0001, 0x22).unwrap();
    mmu.store(0x1000_0001, 0x33).unwrap();
    mmu.store_raw(0x1000_1001, 0x44);
    assert_eq!(mmu.load(0x0200_0001), Ok(0x11));
    assert_eq!(mmu.load(0x0c00_0001), Ok(0x22));
    assert_eq!(mmu.load(0x1000_0001), Ok(0x33));
    assert_eq!(mmu.load(0x1000_1001), Ok(0x44));
    // Loads change the device.
    assert_eq!(mmu.load(0x0200_0001), Ok(0x12));
    assert_eq!(mmu.load(0x1000_1001), Ok(0x45));
    let notes = &mmu.get_clint().0.notes;
    assert_eq!(notes[0], "store 2000001 11");
    assert_eq!(notes[1], "load 2000001");
    assert_eq!(notes.len(), 3);
}

#[test]
fn wide_accesses_to_devices_go_byte_by_byte() {
    let mut mmu = machine();
    mmu.store_word(0x0200_4000, 0x0a0b0c0d).unwrap();
    assert_eq!(mmu.load_doubleword(0x0200_4000), Ok(0x0a0b0c0d));
    assert_eq!(mmu.load_halfword(0x0200_4000), Ok(0x0d0e));
    assert_eq!(mmu.load_word_raw(0x0200_4000), 0x0b0c0e0f);
    mmu.store_doubleword(0x1000_0000, 0x0807060504030201).unwrap();
    assert_eq!(mmu.load_doubleword(0x1000_0000), Ok(0x0807060504030201));
    let notes = &mmu.get_clint().0.notes;
    assert_eq!(
        notes[..6],
        [
            "store 2004000 d",
            "store 2004001 c",
            "store 2004002 b",
            "store 2004003 a",
            "load 2004000",
            "load 2004001"
        ]
    );
}

#[test]
fn devices_can_be_borrowed() {
    let mut mmu = machine();
    mmu.get_mut_clint().0.values[3] = 9;
    assert_eq!(mmu.load(0x0200_0003), Ok(9));
    assert_eq!(mmu.get_clint().0.values[3], 10);
    mmu.get_mut_uart().registers.values[2] = 7;
    assert_eq!(mmu.load(0x1000_0002), Ok(7));
    assert_eq!(mmu.get_mut_uart().terminal, ">");
}

#[test]
fn a_cycle_runs_all_devices() {
    let mut mmu = machine();
    let mut mip: u64 = 0x2;
    mmu.tick(&mut mip);
    // The CLINT came before the PLIC, which was told of the UART's interrupt alone.
    assert_eq!(mip, 0x8282);
    assert_eq!(mmu.get_clint().0.notes, ["tick 2"]);
    assert_eq!(mmu.get_mut_uart().terminal, ">t");
    // The UART was asked for its interrupt.
    assert!(!mmu.get_mut_uart().interrupting);
    assert_eq!(mmu.load_doubleword(DRAM_BASE), Ok(0));
}

#[test]
fn the_disk_writes_memory_and_interrupts() {
    let mut mmu = machine();
    mmu.init_disk(&[0x5a, 1]);
    let mut mip: u64 = 0;
    mmu.tick(&mut mip);
    assert_eq!(mip, 0x8380);
    assert_eq!(mmu.load_doubleword(DRAM_BASE), Ok(0x776655443322115a));
    assert_eq!(mmu.load_doubleword(DRAM_BASE + 7), Ok(0xeeddccbbaa998877));
}

#[test]
fn wide_accesses_through_page_tables_go_byte_by_byte() {
    let mut machines = Vec::new();
    for _ in 0..2 {
        let mut mmu = machine();
        mmu.init_memory(0x1000);
        // Maps the first gigabyte to itself.
        mmu.store_raw(DRAM_BASE, 0xc7);
        mmu.update_ppn(DRAM_BASE >> 12);
        mmu.update_addressing_mode(AddressingMode::SV39);
        mmu.update_privilege_mode(PrivilegeMode::User);
        machines.push(mmu);
    }
    let mut two = machines.pop().unwrap();
    let mut one = machines.pop().unwrap();
    one.store_word(0x0200_4000, 0x0a0b0c0d).unwrap();
    for i in 0..4 {
        two.store(0x0200_4000 + i, 0x0d - i as u8).unwrap();
    }
    let wide = one.load_word(0x0200_4000).unwrap();
    assert_eq!(wide, 0x0a0b0c0d);
    for i in 0..4 {
        assert_eq!(two.load(0x0200_4000 + i), Ok((wide >> (8 * i)) as u8));
    }
    assert_eq!(one.get_clint().0.notes, two.get_clint().0.notes);
    assert_eq!(one.load_word(0x0200_4000), two.load_word(0x0200_4000));
}
