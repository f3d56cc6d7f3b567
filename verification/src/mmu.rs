//! The memory management unit.
use crate::address_map::{address_after, region_of, Region, DTB_BASE, DTB_SIZE};
use crate::bus::{all_loadable, all_storable, loadable, storable, Bus};
use crate::cpu::{get_privilege_mode, PrivilegeMode, Trap, TrapType};
use crate::device::{Clint, Plic, Uart, VirtioBlockDisk};
pub use crate::dram::{MemoryWrapper, DRAM_BASE};
use crate::endian::{
    join_byte, le_bytes, le_value, lemma_bytes_of_low_part, lemma_le_value_push, lemma_weights,
    nth_byte, weight,
};
use crate::memory::overwrite;
pub use crate::model::AddressingMode;
use crate::model::{in_one_page, State};
use crate::page_cache::{empty_cache, forget_all, lookup, remember};
use crate::sv39::{
    lemma_bits, lemma_join_page, lemma_leaf_parts, lemma_page_masks, marked, vpn,
    MemoryAccessType,
};
use fnv::FnvHashMap;
use vstd::pervasive::unreached;
use vstd::prelude::*;

verus! {

/// Emulates Memory Management Unit. It holds the Main memory and peripheral
/// devices, maps address to them, and accesses them depending on address.
///
/// It also manages virtual-physical address translation.
/// It may also be said Bus.
pub struct Mmu<C: Clint, P: Plic, U: Uart, D: VirtioBlockDisk> {
    clock: u64,
    ppn: u64,
    addressing_mode: AddressingMode,
    privilege_mode: PrivilegeMode,
    memory: MemoryWrapper,
    dtb: Vec<u8>,
    disk: D,
    plic: P,
    clint: C,
    uart: U,
    /// Address translation can be affected `mstatus` (MPRV, MPP in machine mode)
    /// then `Mmu` has copy of it.
    mstatus: u64,
    /// Address translation page cache. Experimental feature.
    /// The cache is cleared when translation mapping can be changed;
    /// ppn, `privilege_mode`, or `addressing_mode` is updated.
    /// Precisely it isn't good enough because page table entries
    /// can be updated anytime with store instructions, of course
    /// very depending on how pages are mapped tho.
    /// But observing all page table entries is high cost so
    /// ignoring so far. Then this cache optimization can cause a bug
    /// due to unexpected (meaning not in page fault handler)
    /// page table entry update. So this is experimental feature and
    /// disabled by default. If you want to enable, use `enable_page_cache()`.
    page_cache_enabled: bool,
    fetch_page_cache: FnvHashMap<u64, u64>,
    load_page_cache: FnvHashMap<u64, u64>,
    store_page_cache: FnvHashMap<u64, u64>,
}

impl<C: Clint, P: Plic, U: Uart, D: VirtioBlockDisk> View for Mmu<C, P, U, D> {
    type V = State<C, P, U, D>;

    closed spec fn view(&self) -> State<C, P, U, D> {
        State {
            bus: Bus {
                memory: self.memory@,
                dtb: self.dtb@,
                clint: self.clint,
                plic: self.plic,
                uart: self.uart,
                disk: self.disk,
            },
            clock: self.clock,
            ppn: self.ppn,
            addressing_mode: self.addressing_mode,
            privilege_mode: self.privilege_mode,
            mstatus: self.mstatus,
            page_cache_enabled: self.page_cache_enabled,
            fetch_cache: self.fetch_page_cache@,
            load_cache: self.load_page_cache@,
            store_cache: self.store_page_cache@,
        }
    }
}

impl<C: Clint, P: Plic, U: Uart, D: VirtioBlockDisk> Mmu<C, P, U, D> {
    /// Loads a byte from main memory or peripheral devices depending on
    /// physical address.
    ///
    /// # Arguments
    /// * `p_address` Physical address
    fn load_raw(&mut self, p_address: u64) -> (value: u8)
        requires
            old(self)@.is_well_formed(),
            loadable(old(self)@.bus.memory.len(), p_address),
        ensures
            value == old(self)@.bus.load(p_address).0,
            final(self)@ == (State { bus: old(self)@.bus.load(p_address).1, ..old(self)@ }),
            final(self)@.is_well_formed(),
    {
        match region_of(p_address) {
            Region::Dram => self.memory.read_byte(p_address),
            Region::DeviceTree => self.dtb[(p_address - DTB_BASE) as usize],
            Region::Clint => self.clint.load(p_address),
            Region::Plic => self.plic.load(p_address),
            Region::Uart => self.uart.load(p_address),
            Region::Disk => self.disk.load(p_address),
            Region::Unmapped => unreached(),
        }
    }

    /// Loads `width` bytes one after the other from main memory or peripheral devices
    /// depending on physical address.
    fn load_bytes_raw(&mut self, p_address: u64, width: u64) -> (value: u64)
        requires
            old(self)@.is_well_formed(),
            width <= 8,
            all_loadable(old(self)@.bus.memory.len(), p_address, width as nat),
        ensures
            value == le_value(old(self)@.bus.load_all(p_address, width as nat).0),
            value < weight(width as int),
            final(self)@ == (State {
                bus: old(self)@.bus.load_all(p_address, width as nat).1,
                ..old(self)@
            }),
            final(self)@.is_well_formed(),
    {
        let ghost before = self@;
        let mut data: u64 = 0;
        let mut i: u64 = 0;
        proof {
            lemma_weights();
        }
        while i < width
            invariant
                i <= width <= 8,
                all_loadable(before.bus.memory.len(), p_address, width as nat),
                self@.is_well_formed(),
                self@ == (State { bus: before.bus.load_all(p_address, i as nat).1, ..before }),
                data == le_value(before.bus.load_all(p_address, i as nat).0),
                data < weight(i as int),
            decreases width - i,
        {
            proof {
                before.bus.lemma_load_all(p_address, i as nat);
                assert(p_address.wrapping_add(i) == address_after(p_address, i as int));
            }
            let byte = self.load_raw(p_address.wrapping_add(i));
            data = join_byte(data, byte, i, Ghost(before.bus.load_all(p_address, i as nat).0));
            i = i + 1;
        }
        data
    }

    /// Loads two bytes from main memory or peripheral devices depending on
    /// physical address.
    ///
    /// # Arguments
    /// * `p_address` Physical address
    fn load_halfword_raw(&mut self, p_address: u64) -> (value: u16)
        requires
            old(self)@.is_well_formed(),
            all_loadable(old(self)@.bus.memory.len(), p_address, 2),
        ensures
            value == le_value(old(self)@.bus.load_all(p_address, 2).0),
            final(self)@ == (State { bus: old(self)@.bus.load_all(p_address, 2).1, ..old(self)@ }),
            final(self)@.is_well_formed(),
    {
        if p_address >= DRAM_BASE && p_address.wrapping_add(1) > p_address {
            // Fast path. Directly load main memory at a time.
            proof {
                self@.bus.lemma_loadable_dram(p_address, 2);
                self@.bus.lemma_load_all_dram(p_address, 2);
            }
            self.memory.read_halfword(p_address)
        } else {
            proof {
                lemma_weights();
            }
            self.load_bytes_raw(p_address, 2) as u16
        }
    }

    /// Loads four bytes from main memory or peripheral devices depending on
    /// physical address.
    ///
    /// # Arguments
    /// * `p_address` Physical address
    pub fn load_word_raw(&mut self, p_address: u64) -> (value: u32)
        requires
            old(self)@.is_well_formed(),
            all_loadable(old(self)@.bus.memory.len(), p_address, 4),
        ensures
            value == le_value(old(self)@.bus.load_all(p_address, 4).0),
            final(self)@ == (State { bus: old(self)@.bus.load_all(p_address, 4).1, ..old(self)@ }),
            final(self)@.is_well_formed(),
    {
        if p_address >= DRAM_BASE && p_address.wrapping_add(3) > p_address {
            proof {
                self@.bus.lemma_loadable_dram(p_address, 4);
                self@.bus.lemma_load_all_dram(p_address, 4);
            }
            self.memory.read_word(p_address)
        } else {
            proof {
                lemma_weights();
            }
            self.load_bytes_raw(p_address, 4) as u32
        }
    }

    /// Loads eight bytes from main memory or peripheral devices depending on
    /// physical address.
    ///
    /// # Arguments
    /// * `p_address` Physical address
    fn load_doubleword_raw(&mut self, p_address: u64) -> (value: u64)
        requires
            old(self)@.is_well_formed(),
            all_loadable(old(self)@.bus.memory.len(), p_address, 8),
        ensures
            value == le_value(old(self)@.bus.load_all(p_address, 8).0),
            final(self)@ == (State { bus: old(self)@.bus.load_all(p_address, 8).1, ..old(self)@ }),
            final(self)@.is_well_formed(),
    {
        if p_address >= DRAM_BASE && p_address.wrapping_add(7) > p_address {
            proof {
                self@.bus.lemma_loadable_dram(p_address, 8);
                self@.bus.lemma_load_all_dram(p_address, 8);
            }
            self.memory.read_doubleword(p_address)
        } else {
            self.load_bytes_raw(p_address, 8)
        }
    }

    /// Stores a byte to main memory or peripheral devices depending on
    /// physical address.
    ///
    /// # Arguments
    /// * `p_address` Physical address
    /// * `value` data written
    pub fn store_raw(&mut self, p_address: u64, value: u8)
        requires
            old(self)@.is_well_formed(),
            storable(old(self)@.bus.memory.len(), p_address),
        ensures
            final(self)@ == (State {
                bus: old(self)@.bus.store(p_address, value),
                ..old(self)@
            }),
            final(self)@.is_well_formed(),
    {
        match region_of(p_address) {
            Region::Dram => {
                self.memory.write_byte(p_address, value);
                assert(self@.bus.memory =~= overwrite(
                    old(self)@.bus.memory,
                    p_address - DRAM_BASE,
                    seq![value],
                ));
            },
            Region::Clint => self.clint.store(p_address, value),
            Region::Plic => self.plic.store(p_address, value),
            Region::Uart => self.uart.store(p_address, value),
            Region::Disk => self.disk.store(p_address, value),
            Region::DeviceTree => unreached(),
            Region::Unmapped => unreached(),
        }
    }

    /// Stores the `width` low bytes of `value` one after the other to main memory or
    /// peripheral devices depending on physical address.
    fn store_bytes_raw(&mut self, p_address: u64, value: u64, width: u64)
        requires
            old(self)@.is_well_formed(),
            width <= 8,
            all_storable(old(self)@.bus.memory.len(), p_address, width as nat),
        ensures
            final(self)@ == (State {
                bus: old(self)@.bus.store_all(p_address, le_bytes(value as nat, width as nat)),
                ..old(self)@
            }),
            final(self)@.is_well_formed(),
    {
        let ghost before = self@;
        let mut i: u64 = 0;
        while i < width
            invariant
                i <= width <= 8,
                all_storable(before.bus.memory.len(), p_address, width as nat),
                self@.is_well_formed(),
                self@ == (State {
                    bus: before.bus.store_all(p_address, le_bytes(value as nat, i as nat)),
                    ..before
                }),
            decreases width - i,
        {
            let byte = nth_byte(value, i);
            proof {
                before.bus.lemma_store_all(p_address, le_bytes(value as nat, i as nat));
                assert(p_address.wrapping_add(i) == address_after(p_address, i as int));
                let bytes = le_bytes(value as nat, (i + 1) as nat);
                assert(bytes.drop_last() =~= le_bytes(value as nat, i as nat));
                assert(bytes.last() == byte);
            }
            self.store_raw(p_address.wrapping_add(i), byte);
            i = i + 1;
        }
    }

    /// Stores two bytes to main memory or peripheral devices depending on
    /// physical address.
    ///
    /// # Arguments
    /// * `p_address` Physical address
    /// * `value` data written
    fn store_halfword_raw(&mut self, p_address: u64, value: u16)
        requires
            old(self)@.is_well_formed(),
            all_storable(old(self)@.bus.memory.len(), p_address, 2),
        ensures
            final(self)@ == (State {
                bus: old(self)@.bus.store_all(p_address, le_bytes(value as nat, 2)),
                ..old(self)@
            }),
            final(self)@.is_well_formed(),
    {
        if p_address >= DRAM_BASE && p_address.wrapping_add(1) > p_address {
            proof {
                self@.bus.lemma_loadable_dram(p_address, 2);
                self@.bus.lemma_store_all_dram(p_address, le_bytes(value as nat, 2));
            }
            self.memory.write_halfword(p_address, value);
        } else {
            self.store_bytes_raw(p_address, value as u64, 2);
        }
    }

    /// Stores four bytes to main memory or peripheral devices depending on
    /// physical address.
    ///
    /// # Arguments
    /// * `p_address` Physical address
    /// * `value` data written
    fn store_word_raw(&mut self, p_address: u64, value: u32)
        requires
            old(self)@.is_well_formed(),
            all_storable(old(self)@.bus.memory.len(), p_address, 4),
        ensures
            final(self)@ == (State {
                bus: old(self)@.bus.store_all(p_address, le_bytes(value as nat, 4)),
                ..old(self)@
            }),
            final(self)@.is_well_formed(),
    {
        if p_address >= DRAM_BASE && p_address.wrapping_add(3) > p_address {
            proof {
                self@.bus.lemma_loadable_dram(p_address, 4);
                self@.bus.lemma_store_all_dram(p_address, le_bytes(value as nat, 4));
            }
            self.memory.write_word(p_address, value);
        } else {
            self.store_bytes_raw(p_address, value as u64, 4);
        }
    }

    /// Stores eight bytes to main memory or peripheral devices depending on
    /// physical address.
    ///
    /// # Arguments
    /// * `p_address` Physical address
    /// * `value` data written
    fn store_doubleword_raw(&mut self, p_address: u64, value: u64)
        requires
            old(self)@.is_well_formed(),
            all_storable(old(self)@.bus.memory.len(), p_address, 8),
        ensures
            final(self)@ == (State {
                bus: old(self)@.bus.store_all(p_address, le_bytes(value as nat, 8)),
                ..old(self)@
            }),
            final(self)@.is_well_formed(),
    {
        if p_address >= DRAM_BASE && p_address.wrapping_add(7) > p_address {
            proof {
                self@.bus.lemma_loadable_dram(p_address, 8);
                self@.bus.lemma_store_all_dram(p_address, le_bytes(value as nat, 8));
            }
            self.memory.write_doubleword(p_address, value);
        } else {
            self.store_bytes_raw(p_address, value, 8);
        }
    }
}

impl<C: Clint, P: Plic, U: Uart, D: VirtioBlockDisk> Mmu<C, P, U, D> {
    /// Clears page cache entries
    fn clear_page_cache(&mut self)
        ensures
            final(self)@ == old(self)@.cleared(),
    {
        forget_all(&mut self.fetch_page_cache);
        forget_all(&mut self.load_page_cache);
        forget_all(&mut self.store_page_cache);
    }

    /// Updates privilege mode
    ///
    /// # Arguments
    /// * `mode`
    pub fn update_privilege_mode(&mut self, mode: PrivilegeMode)
        requires
            old(self)@.is_well_formed(),
        ensures
            final(self)@ == (State { privilege_mode: mode, ..old(self)@.cleared() }),
            final(self)@.is_well_formed(),
    {
        self.privilege_mode = mode;
        self.clear_page_cache();
    }

    /// Translates a virtual address to a physical address.
    ///
    /// # Arguments
    /// * `v_address` Virtual address
    /// * `access_type` What the address is accessed for
    fn translate_address(
        &mut self,
        v_address: u64,
        access_type: &MemoryAccessType,
    ) -> (result: Result<u64, ()>)
        requires
            old(self)@.is_well_formed(),
            old(self)@.can_translate(v_address, *access_type),
        ensures
            result == old(self)@.translate(v_address, *access_type).0,
            final(self)@ == old(self)@.translate(v_address, *access_type).1,
            final(self)@.is_well_formed(),
            final(self)@.bus.memory.len() == old(self)@.bus.memory.len(),
        decreases
                (if old(self)@.privilege_mode == PrivilegeMode::Machine {
                    1int
                } else {
                    0int
                }),
    {
        let ghost before = self@;
        let address = v_address;
        let v_page: u64 = address & !0xfffu64;
        proof {
            lemma_page_masks(address);
            before.lemma_translate(v_address, *access_type);
            if let Err(nothing) = before.translate(v_address, *access_type).0 {
                assert(nothing == ());
            }
        }
        let cache = if self.page_cache_enabled {
            match access_type {
                MemoryAccessType::Execute => lookup(&self.fetch_page_cache, v_page),
                MemoryAccessType::Read => lookup(&self.load_page_cache, v_page),
                MemoryAccessType::Write => lookup(&self.store_page_cache, v_page),
                MemoryAccessType::DontCare => None,
            }
        } else {
            None
        };
        if let Some(p_page) = cache {
            proof {
                lemma_join_page(p_page, address);
            }
            Ok(p_page | (address & 0xfff))
        } else {
            let p_address = match self.addressing_mode {
                AddressingMode::Bare => Ok(address),
                AddressingMode::SV39 => match self.privilege_mode {
                    PrivilegeMode::Machine => match access_type {
                        MemoryAccessType::Execute => Ok(address),
                        _ => {
                            proof {
                                lemma_mstatus_fields(self.mstatus);
                            }
                            if (self.mstatus >> 17) & 1 == 0 {
                                Ok(address)
                            } else {
                                let privilege_mode = get_privilege_mode((self.mstatus >> 11) & 3);
                                if matches!(privilege_mode, PrivilegeMode::Machine) {
                                    Ok(address)
                                } else {
                                    let current_privilege_mode = self.privilege_mode;
                                    self.update_privilege_mode(privilege_mode);
                                    let result = self.translate_address(v_address, access_type);
                                    self.update_privilege_mode(current_privilege_mode);
                                    result
                                }
                            }
                        },
                    },
                    PrivilegeMode::User | PrivilegeMode::Supervisor => {
                        let vpns = [
                            (address >> 12) & 0x1ff,
                            (address >> 21) & 0x1ff,
                            (address >> 30) & 0x1ff,
                        ];
                        let root: u64 = self.ppn;
                        self.traverse_page(address, 3 - 1, root, &vpns, access_type)
                    },
                    PrivilegeMode::Reserved => Ok(address),
                },
                AddressingMode::SV48 => unreached(),
            };
            if self.page_cache_enabled {
                match p_address {
                    Ok(p_address) => {
                        proof {
                            lemma_page_masks(p_address);
                        }
                        let p_page: u64 = p_address & !0xfffu64;
                        match access_type {
                            MemoryAccessType::Execute => {
                                remember(&mut self.fetch_page_cache, v_page, p_page)
                            },
                            MemoryAccessType::Read => {
                                remember(&mut self.load_page_cache, v_page, p_page)
                            },
                            MemoryAccessType::Write => {
                                remember(&mut self.store_page_cache, v_page, p_page)
                            },
                            MemoryAccessType::DontCare => {},
                        };
                        Ok(p_address)
                    },
                    Err(()) => Err(()),
                }
            } else {
                p_address
            }
        }
    }

    /// Walks the page table from one of its tables on.
    ///
    /// # Arguments
    /// * `v_address` Virtual address
    /// * `level` Level of the table
    /// * `parent_ppn` Physical page number of the table
    /// * `vpns` Page table indices for the virtual address, by level
    /// * `access_type` What the address is accessed for
    fn traverse_page(
        &mut self,
        v_address: u64,
        level: u8,
        parent_ppn: u64,
        vpns: &[u64; 3],
        access_type: &MemoryAccessType,
    ) -> (result: Result<u64, ()>)
        requires
            old(self)@.is_well_formed(),
            level <= 2,
            forall|i: int| 0 <= i < 3 ==> #[trigger] vpns@[i] == vpn(v_address, i as nat),
            old(self)@.bus.can_walk(v_address, level as nat, parent_ppn, *access_type),
        ensures
            result == old(self)@.bus.walk(
                v_address,
                level as nat,
                parent_ppn,
                *access_type,
            ).0,
            final(self)@ == (State {
                bus: old(self)@.bus.walk(
                    v_address,
                    level as nat,
                    parent_ppn,
                    *access_type,
                ).1,
                ..old(self)@
            }),
            final(self)@.is_well_formed(),
        decreases level,
    {
        let ghost before = self@;
        let pagesize: u64 = 4096;
        let ptesize: u64 = 8;
        let pte_address: u64 = parent_ppn * pagesize + vpns[level as usize] * ptesize;
        let pte = self.load_doubleword_raw(pte_address);
        proof {
            before.bus.lemma_load_all(pte_address, 8);
            lemma_bits(pte);
            lemma_leaf_parts(pte, v_address);
        }
        let ppn: u64 = (pte >> 10) & 0xfffffffffff;
        let ppns = [(pte >> 10) & 0x1ff, (pte >> 19) & 0x1ff, (pte >> 28) & 0x3ffffff];
        let d: u64 = (pte >> 7) & 1;
        let a: u64 = (pte >> 6) & 1;
        let x: u64 = (pte >> 3) & 1;
        let w: u64 = (pte >> 2) & 1;
        let r: u64 = (pte >> 1) & 1;
        let v: u64 = pte & 1;

        if v == 0 || (r == 0 && w == 1) {
            return Err(());
        }
        if r == 0 && x == 0 {
            return match level {
                0 => Err(()),
                _ => self.traverse_page(v_address, level - 1, ppn, vpns, access_type),
            };
        }
        // Leaf page found

        if a == 0 || (match access_type {
            MemoryAccessType::Write => d == 0,
            _ => false,
        }) {
            let new_pte: u64 = pte | (1 << 6) | (match access_type {
                MemoryAccessType::Write => 1 << 7,
                _ => 0,
            });
            proof {
                lemma_marked(pte);
            }
            self.store_doubleword_raw(pte_address, new_pte);
        }
        if match access_type {
            MemoryAccessType::Execute => x == 0,
            MemoryAccessType::Read => r == 0,
            MemoryAccessType::Write => w == 0,
            MemoryAccessType::DontCare => false,
        } {
            return Err(());
        }
        let offset: u64 = v_address & 0xfff;  // [11:0]
        let p_address: u64 = match level {
            2 => {
                if ppns[1] != 0 || ppns[0] != 0 {
                    return Err(());
                }
                (ppns[2] << 30) | (vpns[1] << 21) | (vpns[0] << 12) | offset
            },
            1 => {
                if ppns[0] != 0 {
                    return Err(());
                }
                (ppns[2] << 30) | (ppns[1] << 21) | (vpns[0] << 12) | offset
            },
            _ => (ppn << 12) | offset,
        };
        Ok(p_address)
    }
}

impl<C: Clint, P: Plic, U: Uart, D: VirtioBlockDisk> Mmu<C, P, U, D> {
    /// Fetches an instruction byte. This method takes virtual address
    /// and translates into physical address inside.
    ///
    /// # Arguments
    /// * `v_address` Virtual address
    fn fetch(&mut self, v_address: u64) -> (result: Result<u8, Trap>)
        requires
            old(self)@.is_well_formed(),
            old(self)@.can_load_together(MemoryAccessType::Execute, v_address, 1),
        ensures
            match old(self)@.load_together(MemoryAccessType::Execute, v_address, 1).0 {
                Ok(bytes) => result matches Ok(value) && bytes == seq![value],
                Err(trap) => result matches Err(raised) && raised == trap,
            },
            final(self)@ == old(self)@.load_together(
                MemoryAccessType::Execute,
                v_address,
                1,
            ).1,
            final(self)@.is_well_formed(),
    {
        match self.translate_address(v_address, &MemoryAccessType::Execute) {
            Ok(p_address) => {
                proof {
                    self@.bus.lemma_load_one(p_address);
                }
                Ok(self.load_raw(p_address))
            },
            Err(()) => Err(
                Trap { trap_type: TrapType::InstructionPageFault, value: v_address },
            ),
        }
    }

    /// Fetches instruction four bytes. This method takes virtual address
    /// and translates into physical address inside.
    ///
    /// # Arguments
    /// * `v_address` Virtual address
    /// # Errors
    /// Exceptions are returned as errors
    #[verifier::rlimit(50)]
    #[verifier::spinoff_prover]
    pub fn fetch_word(&mut self, v_address: u64) -> (result: Result<u32, Trap>)
        requires
            old(self)@.is_well_formed(),
            old(self)@.can_load(MemoryAccessType::Execute, v_address, 4),
        ensures
            match old(self)@.load(MemoryAccessType::Execute, v_address, 4).0 {
                Ok(bytes) => result matches Ok(value) && value == le_value(bytes),
                Err(trap) => result matches Err(raised) && raised == trap,
            },
            final(self)@ == old(self)@.load(MemoryAccessType::Execute, v_address, 4).1,
            final(self)@.is_well_formed(),
    {
        let width: u64 = 4;
        proof {
            lemma_page_masks(v_address);
        }
        if v_address & 0xfff <= 0x1000 - width {
            // Fast path. All bytes fetched are in the same page so
            // translating an address only once.
            match self.translate_address(v_address, &MemoryAccessType::Execute) {
                Ok(p_address) => Ok(self.load_word_raw(p_address)),
                Err(()) => Err(
                    Trap { trap_type: TrapType::InstructionPageFault, value: v_address },
                ),
            }
        } else {
            let ghost before = self@;
            let mut data: u64 = 0;
            let mut i: u64 = 0;
            let ghost mut bytes: Seq<u8> = Seq::empty();
            proof {
                lemma_weights();
            }
            while i < width
                invariant
                    i <= width == 4,
                    before == old(self)@,
                    !in_one_page(v_address, width as nat),
                    before.is_well_formed(),
                    before.can_load_each(MemoryAccessType::Execute, v_address, width as nat),
                    before.load_each(MemoryAccessType::Execute, v_address, i as nat) == (
                        Ok::<Seq<u8>, Trap>(bytes),
                        self@,
                    ),
                    self@.is_well_formed(),
                    bytes.len() == i,
                    data == le_value(bytes),
                    data < weight(i as int),
                decreases width - i,
            {
                proof {
                    before.lemma_load_each_step(
                        MemoryAccessType::Execute,
                        v_address,
                        i as nat,
                        width as nat,
                    );
                    assert(v_address.wrapping_add(i) == address_after(v_address, i as int));
                }
                match self.fetch(v_address.wrapping_add(i)) {
                    Ok(byte) => {
                        data = join_byte(data, byte, i, Ghost(bytes));
                        proof {
                            assert(bytes + seq![byte] =~= bytes.push(byte));
                            bytes = bytes.push(byte);
                        }
                    },
                    Err(e) => return Err(e),
                };
                i = i + 1;
            }
            proof {
                lemma_weights();
            }
            Ok(data as u32)
        }
    }

    /// Loads an byte. This method takes virtual address and translates
    /// into physical address inside.
    ///
    /// # Arguments
    /// * `v_address` Virtual address
    /// # Errors
    /// Exceptions are returned as errors
    pub fn load(&mut self, v_address: u64) -> (result: Result<u8, Trap>)
        requires
            old(self)@.is_well_formed(),
            old(self)@.can_load(MemoryAccessType::Read, v_address, 1),
        ensures
            match old(self)@.load(MemoryAccessType::Read, v_address, 1).0 {
                Ok(bytes) => result matches Ok(value) && bytes.len() == 1 && value == bytes[0],
                Err(trap) => result matches Err(raised) && raised == trap,
            },
            final(self)@ == old(self)@.load(MemoryAccessType::Read, v_address, 1).1,
            final(self)@.is_well_formed(),
    {
        match self.translate_address(v_address, &MemoryAccessType::Read) {
            Ok(p_address) => {
                proof {
                    self@.bus.lemma_load_one(p_address);
                }
                Ok(self.load_raw(p_address))
            },
            Err(()) => Err(Trap { trap_type: TrapType::LoadPageFault, value: v_address }),
        }
    }

    /// Loads multiple bytes. This method takes virtual address and translates
    /// into physical address inside.
    ///
    /// # Arguments
    /// * `v_address` Virtual address
    /// * `width` Must be 1, 2, 4, or 8
    #[verifier::rlimit(50)]
    #[verifier::spinoff_prover]
    fn load_bytes(&mut self, v_address: u64, width: u64) -> (result: Result<u64, Trap>)
        requires
            old(self)@.is_well_formed(),
            width == 1 || width == 2 || width == 4 || width == 8,
            old(self)@.can_load(MemoryAccessType::Read, v_address, width as nat),
        ensures
            match old(self)@.load(MemoryAccessType::Read, v_address, width as nat).0 {
                Ok(bytes) => result matches Ok(value) && value == le_value(bytes) && value
                    < weight(width as int),
                Err(trap) => result matches Err(raised) && raised == trap,
            },
            final(self)@ == old(self)@.load(
                MemoryAccessType::Read,
                v_address,
                width as nat,
            ).1,
            final(self)@.is_well_formed(),
    {
        proof {
            lemma_page_masks(v_address);
            lemma_weights();
        }
        if v_address & 0xfff <= 0x1000 - width {
            match self.translate_address(v_address, &MemoryAccessType::Read) {
                Ok(p_address) => {
                    // Fast path. All bytes fetched are in the same page so
                    // translating an address only once.
                    match width {
                        1 => {
                            proof {
                                self@.bus.lemma_load_one(p_address);
                                let byte = self@.bus.load(p_address).0;
                                lemma_le_value_push(Seq::empty(), byte);
                                assert(Seq::empty().push(byte) =~= seq![byte]);
                            }
                            Ok(self.load_raw(p_address) as u64)
                        },
                        2 => Ok(self.load_halfword_raw(p_address) as u64),
                        4 => Ok(self.load_word_raw(p_address) as u64),
                        _ => Ok(self.load_doubleword_raw(p_address)),
                    }
                },
                Err(()) => Err(Trap { trap_type: TrapType::LoadPageFault, value: v_address }),
            }
        } else {
            let ghost before = self@;
            let mut data: u64 = 0;
            let mut i: u64 = 0;
            let ghost mut bytes: Seq<u8> = Seq::empty();
            while i < width
                invariant
                    i <= width <= 8,
                    before == old(self)@,
                    !in_one_page(v_address, width as nat),
                    before.is_well_formed(),
                    before.can_load_each(MemoryAccessType::Read, v_address, width as nat),
                    before.load_each(MemoryAccessType::Read, v_address, i as nat) == (
                        Ok::<Seq<u8>, Trap>(bytes),
                        self@,
                    ),
                    self@.is_well_formed(),
                    bytes.len() == i,
                    data == le_value(bytes),
                    data < weight(i as int),
                decreases width - i,
            {
                proof {
                    before.lemma_load_each_step(
                        MemoryAccessType::Read,
                        v_address,
                        i as nat,
                        width as nat,
                    );
                    assert(v_address.wrapping_add(i) == address_after(v_address, i as int));
                }
                let ghost found = self@.load_together(
                    MemoryAccessType::Read,
                    address_after(v_address, i as int),
                    1,
                ).0;
                match self.load(v_address.wrapping_add(i)) {
                    Ok(byte) => {
                        data = join_byte(data, byte, i, Ghost(bytes));
                        proof {
                            assert(found->Ok_0 =~= seq![byte]);
                            assert(bytes + seq![byte] =~= bytes.push(byte));
                            bytes = bytes.push(byte);
                        }
                    },
                    Err(e) => return Err(e),
                };
                i = i + 1;
            }
            Ok(data)
        }
    }

    /// Loads two bytes. This method takes virtual address and translates
    /// into physical address inside.
    ///
    /// # Arguments
    /// * `v_address` Virtual address
    /// # Errors
    /// Exceptions are returned as errors
    pub fn load_halfword(&mut self, v_address: u64) -> (result: Result<u16, Trap>)
        requires
            old(self)@.is_well_formed(),
            old(self)@.can_load(MemoryAccessType::Read, v_address, 2),
        ensures
            match old(self)@.load(MemoryAccessType::Read, v_address, 2).0 {
                Ok(bytes) => result matches Ok(value) && value == le_value(bytes),
                Err(trap) => result matches Err(raised) && raised == trap,
            },
            final(self)@ == old(self)@.load(MemoryAccessType::Read, v_address, 2).1,
            final(self)@.is_well_formed(),
    {
        proof {
            lemma_weights();
        }
        match self.load_bytes(v_address, 2) {
            Ok(data) => Ok(data as u16),
            Err(e) => Err(e),
        }
    }

    /// Loads four bytes. This method takes virtual address and translates
    /// into physical address inside.
    ///
    /// # Arguments
    /// * `v_address` Virtual address
    /// # Errors
    /// Exceptions are returned as errors
    pub fn load_word(&mut self, v_address: u64) -> (result: Result<u32, Trap>)
        requires
            old(self)@.is_well_formed(),
            old(self)@.can_load(MemoryAccessType::Read, v_address, 4),
        ensures
            match old(self)@.load(MemoryAccessType::Read, v_address, 4).0 {
                Ok(bytes) => result matches Ok(value) && value == le_value(bytes),
                Err(trap) => result matches Err(raised) && raised == trap,
            },
            final(self)@ == old(self)@.load(MemoryAccessType::Read, v_address, 4).1,
            final(self)@.is_well_formed(),
    {
        proof {
            lemma_weights();
        }
        match self.load_bytes(v_address, 4) {
            Ok(data) => Ok(data as u32),
            Err(e) => Err(e),
        }
    }

    /// Loads eight bytes. This method takes virtual address and translates
    /// into physical address inside.
    ///
    /// # Arguments
    /// * `v_address` Virtual address
    /// # Errors
    /// Exceptions are returned as errors
    pub fn load_doubleword(&mut self, v_address: u64) -> (result: Result<u64, Trap>)
        requires
            old(self)@.is_well_formed(),
            old(self)@.can_load(MemoryAccessType::Read, v_address, 8),
        ensures
            match old(self)@.load(MemoryAccessType::Read, v_address, 8).0 {
                Ok(bytes) => result matches Ok(value) && value == le_value(bytes),
                Err(trap) => result matches Err(raised) && raised == trap,
            },
            final(self)@ == old(self)@.load(MemoryAccessType::Read, v_address, 8).1,
            final(self)@.is_well_formed(),
    {
        proof {
            lemma_weights();
        }
        match self.load_bytes(v_address, 8) {
            Ok(data) => Ok(data),
            Err(e) => Err(e),
        }
    }

    /// Store an byte. This method takes virtual address and translates
    /// into physical address inside.
    ///
    /// # Arguments
    /// * `v_address` Virtual address
    /// * `value`
    /// # Errors
    /// Exceptions are returned as errors
    pub fn store(&mut self, v_address: u64, value: u8) -> (result: Result<(), Trap>)
        requires
            old(self)@.is_well_formed(),
            old(self)@.can_store(v_address, seq![value]),
        ensures
            result == old(self)@.store(v_address, seq![value]).0,
            final(self)@ == old(self)@.store(v_address, seq![value]).1,
            final(self)@.is_well_formed(),
    {
        match self.translate_address(v_address, &MemoryAccessType::Write) {
            Ok(p_address) => {
                proof {
                    self@.bus.lemma_store_one(p_address, value);
                }
                self.store_raw(p_address, value);
                Ok(())
            },
            Err(()) => Err(Trap { trap_type: TrapType::StorePageFault, value: v_address }),
        }
    }

    /// Stores multiple bytes. This method takes a virtual address and translates
    /// it into physical address inside.
    ///
    /// # Arguments
    /// * `v_address` Virtual address
    /// * `value` data written
    /// * `width` Must be 1, 2, 4, or 8
    /// # Errors
    /// Exceptions are returned as errors
    #[verifier::rlimit(50)]
    #[verifier::spinoff_prover]
    fn store_bytes(&mut self, v_address: u64, value: u64, width: u64) -> (result: Result<
        (),
        Trap,
    >)
        requires
            old(self)@.is_well_formed(),
            width == 1 || width == 2 || width == 4 || width == 8,
            old(self)@.can_store(v_address, le_bytes(value as nat, width as nat)),
        ensures
            result == old(self)@.store(v_address, le_bytes(value as nat, width as nat)).0,
            final(self)@ == old(self)@.store(
                v_address,
                le_bytes(value as nat, width as nat),
            ).1,
            final(self)@.is_well_formed(),
    {
        let ghost bytes = le_bytes(value as nat, width as nat);
        proof {
            lemma_page_masks(v_address);
            lemma_weights();
        }
        if v_address & 0xfff <= 0x1000 - width {
            match self.translate_address(v_address, &MemoryAccessType::Write) {
                Ok(p_address) => {
                    // Fast path. All bytes fetched are in the same page so
                    // translating an address only once.
                    proof {
                        lemma_truncations(value);
                    }
                    match width {
                        1 => {
                            assert(bytes =~= seq![value as u8]);
                            proof {
                                self@.bus.lemma_store_one(p_address, value as u8);
                            }
                            self.store_raw(p_address, value as u8)
                        },
                        2 => self.store_halfword_raw(p_address, value as u16),
                        4 => self.store_word_raw(p_address, value as u32),
                        _ => self.store_doubleword_raw(p_address, value),
                    }
                    Ok(())
                },
                Err(()) => Err(Trap { trap_type: TrapType::StorePageFault, value: v_address }),
            }
        } else {
            let ghost before = self@;
            let mut i: u64 = 0;
            assert(bytes.take(0) =~= Seq::empty());
            while i < width
                invariant
                    i <= width <= 8,
                    bytes == le_bytes(value as nat, width as nat),
                    before == old(self)@,
                    !in_one_page(v_address, width as nat),
                    before.is_well_formed(),
                    before.can_store_each(v_address, bytes),
                    before.store_each(v_address, bytes.take(i as int)) == (
                        Ok::<(), Trap>(()),
                        self@,
                    ),
                    self@.is_well_formed(),
                decreases width - i,
            {
                let byte = nth_byte(value, i);
                proof {
                    before.lemma_store_each_step(v_address, bytes, i as nat);
                    assert(bytes[i as int] == byte);
                    assert(v_address.wrapping_add(i) == address_after(v_address, i as int));
                }
                match self.store(v_address.wrapping_add(i), byte) {
                    Ok(()) => {},
                    Err(e) => return Err(e),
                }
                i = i + 1;
            }
            assert(bytes.take(width as int) =~= bytes);
            Ok(())
        }
    }

    /// Stores two bytes. This method takes virtual address and translates
    /// into physical address inside.
    ///
    /// # Arguments
    /// * `v_address` Virtual address
    /// * `value` data written
    /// # Errors
    /// Exceptions are returned as errors
    pub fn store_halfword(&mut self, v_address: u64, value: u16) -> (result: Result<(), Trap>)
        requires
            old(self)@.is_well_formed(),
            old(self)@.can_store(v_address, le_bytes(value as nat, 2)),
        ensures
            result == old(self)@.store(v_address, le_bytes(value as nat, 2)).0,
            final(self)@ == old(self)@.store(v_address, le_bytes(value as nat, 2)).1,
            final(self)@.is_well_formed(),
    {
        self.store_bytes(v_address, value as u64, 2)
    }

    /// Stores four bytes. This method takes virtual address and translates
    /// into physical address inside.
    ///
    /// # Arguments
    /// * `v_address` Virtual address
    /// * `value` data written
    /// # Errors
    /// Exceptions are returned as errors
    pub fn store_word(&mut self, v_address: u64, value: u32) -> (result: Result<(), Trap>)
        requires
            old(self)@.is_well_formed(),
            old(self)@.can_store(v_address, le_bytes(value as nat, 4)),
        ensures
            result == old(self)@.store(v_address, le_bytes(value as nat, 4)).0,
            final(self)@ == old(self)@.store(v_address, le_bytes(value as nat, 4)).1,
            final(self)@.is_well_formed(),
    {
        self.store_bytes(v_address, value as u64, 4)
    }

    /// Stores eight bytes. This method takes virtual address and translates
    /// into physical address inside.
    ///
    /// # Arguments
    /// * `v_address` Virtual address
    /// * `value` data written
    /// # Errors
    /// Exceptions are returned as errors
    pub fn store_doubleword(&mut self, v_address: u64, value: u64) -> (result: Result<(), Trap>)
        requires
            old(self)@.is_well_formed(),
            old(self)@.can_store(v_address, le_bytes(value as nat, 8)),
        ensures
            result == old(self)@.store(v_address, le_bytes(value as nat, 8)).0,
            final(self)@ == old(self)@.store(v_address, le_bytes(value as nat, 8)).1,
            final(self)@.is_well_formed(),
    {
        self.store_bytes(v_address, value, 8)
    }
}

impl<C: Clint, P: Plic, U: Uart, D: VirtioBlockDisk> Mmu<C, P, U, D> {
    /// Creates a new `Mmu`.
    ///
    /// # Arguments
    /// * `terminal` What the UART is attached to
    /// * `dtb` Default device tree binary content
    pub fn new(terminal: U::Terminal, dtb: &[u8]) -> (mmu: Self)
        requires
            dtb@.len() <= DTB_SIZE,
        ensures
            mmu@.bus.memory == Seq::<u8>::empty(),
            mmu@.bus.dtb == padded(dtb@),
            mmu@.bus.clint.is_initial(),
            mmu@.bus.plic.is_initial(),
            mmu@.bus.uart.is_initial(terminal),
            mmu@.bus.disk.is_initial(),
            mmu@.clock == 0,
            mmu@.ppn == 0,
            mmu@.addressing_mode == AddressingMode::Bare,
            mmu@.privilege_mode == PrivilegeMode::Machine,
            mmu@.mstatus == 0,
            !mmu@.page_cache_enabled,
            mmu@.fetch_cache == Map::<u64, u64>::empty(),
            mmu@.load_cache == Map::<u64, u64>::empty(),
            mmu@.store_cache == Map::<u64, u64>::empty(),
            mmu@.has_no_cached_page(),
            mmu@.is_well_formed(),
    {
        let mut mmu = Mmu {
            clock: 0,
            ppn: 0,
            addressing_mode: AddressingMode::Bare,
            privilege_mode: PrivilegeMode::Machine,
            memory: MemoryWrapper::new(),
            dtb: vec![0u8; DTB_SIZE],
            disk: D::new(),
            plic: P::new(),
            clint: C::new(),
            uart: U::new(terminal),
            mstatus: 0,
            page_cache_enabled: false,
            fetch_page_cache: empty_cache(),
            load_page_cache: empty_cache(),
            store_page_cache: empty_cache(),
        };
        // Load default device tree binary content
        mmu.init_dtb(dtb);
        mmu
    }

    /// Initializes Main memory. This method is expected to be called only once.
    ///
    /// # Arguments
    /// * `capacity`
    pub fn init_memory(&mut self, capacity: u64)
        requires
            old(self)@.is_well_formed(),
            capacity <= isize::MAX,
        ensures
            final(self)@ == (State {
                bus: Bus {
                    memory: Seq::new(capacity as nat, |i: int| 0u8),
                    ..old(self)@.bus
                },
                ..old(self)@
            }),
            final(self)@.is_well_formed(),
    {
        self.memory.init(capacity);
    }

    /// Initializes Virtio block disk. This method is expected to be called only once.
    ///
    /// # Arguments
    /// * `data` Filesystem binary content
    pub fn init_disk(&mut self, data: &[u8])
        requires
            old(self)@.is_well_formed(),
        ensures
            final(self)@ == (State {
                bus: Bus { disk: old(self)@.bus.disk.after_init(data@), ..old(self)@.bus },
                ..old(self)@
            }),
            final(self)@.is_well_formed(),
    {
        self.disk.init(data);
    }

    /// Overrides default Device tree configuration.
    ///
    /// # Arguments
    /// * `data` DTB binary content
    pub fn init_dtb(&mut self, data: &[u8])
        requires
            old(self)@.is_well_formed(),
            data@.len() <= DTB_SIZE,
        ensures
            final(self)@ == (State {
                bus: Bus { dtb: padded(data@), ..old(self)@.bus },
                ..old(self)@
            }),
            final(self)@.is_well_formed(),
    {
        let ghost before = self@;
        let mut i: usize = 0;
        while i < DTB_SIZE
            invariant
                i <= DTB_SIZE,
                data@.len() <= DTB_SIZE,
                self.dtb@.len() == DTB_SIZE,
                self@ == (State { bus: Bus { dtb: self.dtb@, ..before.bus }, ..before }),
                forall|j: int| 0 <= j < i ==> #[trigger] self.dtb@[j] == padded(data@)[j],
            decreases DTB_SIZE - i,
        {
            let byte: u8 = if i < data.len() {
                data[i]
            } else {
                0
            };
            self.dtb.set(i, byte);
            i = i + 1;
        }
        assert(self.dtb@ =~= padded(data@));
    }

    /// Enables or disables page cache optimization.
    ///
    /// # Arguments
    /// * `enabled`
    pub fn enable_page_cache(&mut self, enabled: bool)
        requires
            old(self)@.is_well_formed(),
        ensures
            final(self)@ == (State { page_cache_enabled: enabled, ..old(self)@.cleared() }),
            final(self)@.is_well_formed(),
    {
        self.page_cache_enabled = enabled;
        self.clear_page_cache();
    }

    /// Runs one cycle of MMU and peripheral devices.
    pub fn tick(&mut self, mip: &mut u64)
        requires
            old(self)@.is_well_formed(),
        ensures
            old(self)@.may_tick_to(*old(mip), final(self)@, *final(mip)),
            final(self)@.is_well_formed(),
    {
        self.clint.tick(mip);
        let ghost clint_mip = *mip;
        self.disk.tick(&mut self.memory);
        let ghost disk = self.disk;
        self.uart.tick();
        let ghost uart = self.uart;
        let disk_interrupt = self.disk.is_interrupting();
        let uart_interrupt = self.uart.is_interrupting();
        self.plic.tick(disk_interrupt, uart_interrupt, mip);
        self.clock = self.clock.wrapping_add(1);
        assert(old(self)@.ticks_through(*old(mip), clint_mip, disk, uart, self@, *mip));
    }

    /// Updates addressing mode
    ///
    /// # Arguments
    /// * `new_addressing_mode`
    pub fn update_addressing_mode(&mut self, new_addressing_mode: AddressingMode)
        requires
            old(self)@.is_well_formed(),
        ensures
            final(self)@ == (State {
                addressing_mode: new_addressing_mode,
                ..old(self)@.cleared()
            }),
            final(self)@.is_well_formed(),
    {
        self.addressing_mode = new_addressing_mode;
        self.clear_page_cache();
    }

    /// Updates mstatus copy. `CPU` needs to call this method whenever
    /// `mstatus` is updated.
    ///
    /// # Arguments
    /// * `mstatus`
    pub fn update_mstatus(&mut self, mstatus: u64)
        requires
            old(self)@.is_well_formed(),
        ensures
            final(self)@ == (State { mstatus, ..old(self)@ }),
            final(self)@.is_well_formed(),
    {
        self.mstatus = mstatus;
    }

    /// Updates PPN used for address translation
    ///
    /// # Arguments
    /// * `ppn`
    pub fn update_ppn(&mut self, ppn: u64)
        requires
            old(self)@.is_well_formed(),
        ensures
            final(self)@ == (State { ppn, ..old(self)@.cleared() }),
            final(self)@.is_well_formed(),
    {
        self.ppn = ppn;
        self.clear_page_cache();
    }

    /// Checks if passed virtual address is valid (pointing a certain device) or not.
    /// This method can return page fault trap.
    ///
    /// # Arguments
    /// * `v_address` Virtual address
    /// # Errors
    /// Exceptions are returned as errors
    pub fn validate_address(&mut self, v_address: u64) -> (result: Result<bool, ()>)
        requires
            old(self)@.is_well_formed(),
            old(self)@.can_translate(v_address, MemoryAccessType::DontCare),
        ensures
            match old(self)@.translate(v_address, MemoryAccessType::DontCare).0 {
                Ok(p_address) => result matches Ok(valid) && valid == loadable(
                    old(self)@.bus.memory.len(),
                    p_address,
                ),
                Err(()) => result is Err,
            },
            final(self)@ == old(self)@.translate(v_address, MemoryAccessType::DontCare).1,
            final(self)@.is_well_formed(),
    {
        let p_address = match self.translate_address(v_address, &MemoryAccessType::DontCare) {
            Ok(p_address) => p_address,
            Err(()) => return Err(()),
        };
        let valid = match region_of(p_address) {
            Region::Dram => self.memory.validate_address(p_address),
            Region::Unmapped => false,
            _ => true,
        };
        Ok(valid)
    }

    /// Returns immutable reference to `Clint`.
    pub fn get_clint(&self) -> (clint: &C)
        ensures
            *clint == self@.bus.clint,
    {
        &self.clint
    }

    /// Returns mutable reference to `Clint`.
    pub fn get_mut_clint(&mut self) -> (clint: &mut C)
        requires
            old(self)@.is_well_formed(),
        ensures
            *clint == old(self)@.bus.clint,
            final(self)@ == (State {
                bus: Bus { clint: *final(clint), ..old(self)@.bus },
                ..old(self)@
            }),
            final(self)@.is_well_formed(),
    {
        &mut self.clint
    }

    /// Returns mutable reference to `Uart`.
    pub fn get_mut_uart(&mut self) -> (uart: &mut U)
        requires
            old(self)@.is_well_formed(),
        ensures
            *uart == old(self)@.bus.uart,
            final(self)@ == (State {
                bus: Bus { uart: *final(uart), ..old(self)@.bus },
                ..old(self)@
            }),
            final(self)@.is_well_formed(),
    {
        &mut self.uart
    }
}

/// The contents of the device tree: `data`, filled up with zeros.
pub open spec fn padded(data: Seq<u8>) -> Seq<u8> {
    Seq::new(
        DTB_SIZE as nat,
        |i: int|
            if i < data.len() {
                data[i]
            } else {
                0u8
            },
    )
}

/// The name of an addressing mode.
pub open spec fn addressing_mode_name(mode: AddressingMode) -> Seq<char> {
    match mode {
        AddressingMode::Bare => "None"@,
        AddressingMode::SV39 => "SV39"@,
        AddressingMode::SV48 => "SV48"@,
    }
}

/// Names an addressing mode.
pub fn _get_addressing_mode_name(mode: &AddressingMode) -> (name: &'static str)
    ensures
        name@ == addressing_mode_name(*mode),
{
    match mode {
        AddressingMode::Bare => "None",
        AddressingMode::SV39 => "SV39",
        AddressingMode::SV48 => "SV48",
    }
}

/// Cutting a doubleword to its low bytes keeps those bytes.
proof fn lemma_truncations(value: u64)
    ensures
        value as u8 == value as nat / weight(0) % 256,
        le_bytes((value as u16) as nat, 2) == le_bytes(value as nat, 2),
        le_bytes((value as u32) as nat, 4) == le_bytes(value as nat, 4),
{
    lemma_weights();
    assert(value as u8 == value % 0x100) by (bit_vector);
    assert(value as u16 == value % 0x1_0000) by (bit_vector);
    assert(value as u32 == value % 0x1_0000_0000) by (bit_vector);
    lemma_bytes_of_low_part(value as nat, 2);
    lemma_bytes_of_low_part(value as nat, 4);
}

/// The `MPRV` bit is 0 or 1, and the `MPP` field is two bits wide.
proof fn lemma_mstatus_fields(mstatus: u64)
    ensures
        (mstatus >> 17) & 1 == 0 || (mstatus >> 17) & 1 == 1,
        (mstatus >> 11) & 3 <= 3,
{
    assert((mstatus >> 17) & 1 == 0 || (mstatus >> 17) & 1 == 1) by (bit_vector);
    assert((mstatus >> 11) & 3 <= 3) by (bit_vector);
}

/// The accessed and the dirty bit, set by shifting.
proof fn lemma_marked(pte: u64)
    ensures
        pte | (1u64 << 6) | (1u64 << 7) == marked(pte, MemoryAccessType::Write),
        pte | (1u64 << 6) | 0 == pte | 0x40,
{
    assert(pte | (1u64 << 6) | (1u64 << 7) == pte | 0x40 | 0x80) by (bit_vector);
    assert(pte | (1u64 << 6) | 0 == pte | 0x40) by (bit_vector);
}

} // verus!
