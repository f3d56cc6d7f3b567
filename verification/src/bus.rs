//! The physical bus in mathematical terms: main memory, the device tree and the
//! devices, and what byte accesses do to them.
use crate::address_map::{address_after, region, Region, DTB_BASE, DTB_SIZE};
use crate::device::{Clint, Plic, Uart, VirtioBlockDisk};
use crate::dram::{holds, DRAM_BASE};
use crate::memory::overwrite;
use vstd::prelude::*;

verus! {

/// The state of everything that has a physical address.
#[verifier::ext_equal]
pub struct Bus<C, P, U, D> {
    /// Main memory. Its first byte is at [`DRAM_BASE`].
    pub memory: Seq<u8>,
    /// The device tree. Its first byte is at [`DTB_BASE`].
    pub dtb: Seq<u8>,
    pub clint: C,
    pub plic: P,
    pub uart: U,
    pub disk: D,
}

/// Whether a byte can be loaded from `p_address` on a machine with `size` bytes of
/// main memory.
pub open spec fn loadable(size: nat, p_address: u64) -> bool {
    match region(p_address) {
        Region::Dram => p_address - DRAM_BASE < size,
        Region::Unmapped => false,
        _ => true,
    }
}

/// Whether a byte can be stored at `p_address` on a machine with `size` bytes of
/// main memory. The device tree cannot be stored to.
pub open spec fn storable(size: nat, p_address: u64) -> bool {
    loadable(size, p_address) && region(p_address) != Region::DeviceTree
}

/// Whether `width` bytes can be loaded from `p_address` on.
pub open spec fn all_loadable(size: nat, p_address: u64, width: nat) -> bool {
    forall|i: int| 0 <= i < width ==> loadable(size, #[trigger] address_after(p_address, i))
}

/// Whether `width` bytes can be stored from `p_address` on.
pub open spec fn all_storable(size: nat, p_address: u64, width: nat) -> bool {
    forall|i: int| 0 <= i < width ==> storable(size, #[trigger] address_after(p_address, i))
}

impl<C: Clint, P: Plic, U: Uart, D: VirtioBlockDisk> Bus<C, P, U, D> {
    /// The byte that a load from `p_address` returns, and the bus after it.
    pub open spec fn load(self, p_address: u64) -> (u8, Self) {
        match region(p_address) {
            Region::Dram => (self.memory[p_address - DRAM_BASE], self),
            Region::DeviceTree => (self.dtb[p_address - DTB_BASE], self),
            Region::Clint => {
                let (value, clint) = self.clint.after_load(p_address);
                (value, Bus { clint, ..self })
            },
            Region::Plic => {
                let (value, plic) = self.plic.after_load(p_address);
                (value, Bus { plic, ..self })
            },
            Region::Uart => {
                let (value, uart) = self.uart.after_load(p_address);
                (value, Bus { uart, ..self })
            },
            Region::Disk => {
                let (value, disk) = self.disk.after_load(p_address);
                (value, Bus { disk, ..self })
            },
            Region::Unmapped => (0, self),
        }
    }

    /// The bus after a store of `value` at `p_address`.
    pub open spec fn store(self, p_address: u64, value: u8) -> Self {
        match region(p_address) {
            Region::Dram => Bus {
                memory: overwrite(self.memory, p_address - DRAM_BASE, seq![value]),
                ..self
            },
            Region::Clint => Bus { clint: self.clint.after_store(p_address, value), ..self },
            Region::Plic => Bus { plic: self.plic.after_store(p_address, value), ..self },
            Region::Uart => Bus { uart: self.uart.after_store(p_address, value), ..self },
            Region::Disk => Bus { disk: self.disk.after_store(p_address, value), ..self },
            Region::DeviceTree => self,
            Region::Unmapped => self,
        }
    }

    /// The `width` bytes that loads from `p_address` on return, one after the
    /// other, and the bus after them.
    pub open spec fn load_all(self, p_address: u64, width: nat) -> (Seq<u8>, Self)
        decreases width,
    {
        if width == 0 {
            (Seq::empty(), self)
        } else {
            let i = (width - 1) as nat;
            let (bytes, bus) = self.load_all(p_address, i);
            let (byte, bus) = bus.load(address_after(p_address, i as int));
            (bytes.push(byte), bus)
        }
    }

    /// The bus after `bytes` were stored from `p_address` on, one after the other.
    pub open spec fn store_all(self, p_address: u64, bytes: Seq<u8>) -> Self
        decreases bytes.len(),
    {
        if bytes.len() == 0 {
            self
        } else {
            self.store_all(p_address, bytes.drop_last()).store(
                address_after(p_address, bytes.len() - 1),
                bytes.last(),
            )
        }
    }
}

impl<C: Clint, P: Plic, U: Uart, D: VirtioBlockDisk> Bus<C, P, U, D> {
    /// Loads leave main memory and the device tree as they are.
    pub proof fn lemma_load_all(self, p_address: u64, width: nat)
        ensures
            self.load_all(p_address, width).0.len() == width,
            self.load_all(p_address, width).1.memory == self.memory,
            self.load_all(p_address, width).1.dtb == self.dtb,
        decreases width,
    {
        if width > 0 {
            self.lemma_load_all(p_address, (width - 1) as nat);
        }
    }

    /// Stores keep the size of main memory, and leave the device tree as it is.
    pub proof fn lemma_store_all(self, p_address: u64, bytes: Seq<u8>)
        ensures
            self.store_all(p_address, bytes).memory.len() == self.memory.len(),
            self.store_all(p_address, bytes).dtb == self.dtb,
        decreases bytes.len(),
    {
        if bytes.len() > 0 {
            self.lemma_store_all(p_address, bytes.drop_last());
        }
    }

    /// A load of one byte.
    pub proof fn lemma_load_one(self, p_address: u64)
        ensures
            self.load_all(p_address, 1) == (
                seq![self.load(p_address).0],
                self.load(p_address).1,
            ),
            address_after(p_address, 0) == p_address,
    {
        reveal_with_fuel(Bus::load_all, 2);
        assert(Seq::<u8>::empty().push(self.load(p_address).0) =~= seq![
            self.load(p_address).0,
        ]);
    }

    /// A store of one byte.
    pub proof fn lemma_store_one(self, p_address: u64, value: u8)
        ensures
            self.store_all(p_address, seq![value]) == self.store(p_address, value),
            address_after(p_address, 0) == p_address,
    {
        reveal_with_fuel(Bus::store_all, 2);
    }

    /// Loads from main memory return what it holds, and change nothing.
    pub proof fn lemma_load_all_dram(self, p_address: u64, width: nat)
        requires
            holds(self.memory.len(), p_address, width),
            p_address + width <= 0x1_0000_0000_0000_0000,
        ensures
            self.load_all(p_address, width) == (
                self.memory.subrange(p_address - DRAM_BASE, p_address - DRAM_BASE + width),
                self,
            ),
        decreases width,
    {
        let offset = p_address - DRAM_BASE;
        if width > 0 {
            let i = (width - 1) as nat;
            self.lemma_load_all_dram(p_address, i);
            assert(self.memory.subrange(offset, offset + width) =~= self.memory.subrange(
                offset,
                offset + i,
            ).push(self.memory[offset + i]));
        } else {
            assert(self.memory.subrange(offset, offset) =~= Seq::empty());
        }
    }

    /// Stores to main memory write over what it holds, and change nothing else.
    pub proof fn lemma_store_all_dram(self, p_address: u64, bytes: Seq<u8>)
        requires
            holds(self.memory.len(), p_address, bytes.len()),
            p_address + bytes.len() <= 0x1_0000_0000_0000_0000,
        ensures
            self.store_all(p_address, bytes) == (Bus {
                memory: overwrite(self.memory, p_address - DRAM_BASE, bytes),
                ..self
            }),
        decreases bytes.len(),
    {
        let offset = p_address - DRAM_BASE;
        if bytes.len() > 0 {
            let low = bytes.drop_last();
            self.lemma_store_all_dram(p_address, low);
            assert(overwrite(self.memory, offset, bytes) =~= overwrite(
                overwrite(self.memory, offset, low),
                offset + low.len(),
                seq![bytes.last()],
            ));
        } else {
            assert(overwrite(self.memory, offset, bytes) =~= self.memory);
        }
    }

    /// Loads from the device tree return what it holds, and change nothing.
    pub proof fn lemma_load_all_dtb(self, p_address: u64, width: nat)
        requires
            self.dtb.len() == DTB_SIZE,
            DTB_BASE <= p_address,
            p_address + width <= DTB_BASE + DTB_SIZE,
        ensures
            self.load_all(p_address, width) == (
                self.dtb.subrange(p_address - DTB_BASE, p_address - DTB_BASE + width),
                self,
            ),
        decreases width,
    {
        let offset = p_address - DTB_BASE;
        if width > 0 {
            let i = (width - 1) as nat;
            self.lemma_load_all_dtb(p_address, i);
            assert(self.dtb.subrange(offset, offset + width) =~= self.dtb.subrange(
                offset,
                offset + i,
            ).push(self.dtb[offset + i]));
        } else {
            assert(self.dtb.subrange(offset, offset) =~= Seq::empty());
        }
    }

    /// Below main memory stores reach at most the devices.
    pub proof fn lemma_store_all_below_dram(self, p_address: u64, bytes: Seq<u8>)
        requires
            p_address + bytes.len() <= DRAM_BASE,
        ensures
            self.store_all(p_address, bytes).memory == self.memory,
            self.store_all(p_address, bytes).dtb == self.dtb,
            DTB_BASE <= p_address && p_address + bytes.len() <= DTB_BASE + DTB_SIZE
                ==> self.store_all(p_address, bytes) == self,
        decreases bytes.len(),
    {
        if bytes.len() > 0 {
            self.lemma_store_all_below_dram(p_address, bytes.drop_last());
        }
    }

    /// Bytes that can be loaded from main memory on without wrapping around lie in it.
    pub proof fn lemma_loadable_dram(self, p_address: u64, width: nat)
        requires
            DRAM_BASE <= p_address,
            0 < width,
            p_address + width <= 0x1_0000_0000_0000_0000,
            all_loadable(self.memory.len(), p_address, width) || all_storable(
                self.memory.len(),
                p_address,
                width,
            ),
        ensures
            holds(self.memory.len(), p_address, width),
    {
        assert(address_after(p_address, width - 1) == p_address + width - 1);
    }
}

} // verus!
