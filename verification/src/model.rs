//! The memory management unit in mathematical terms: its state, and what accesses
//! through virtual addresses return and do to it.
use crate::address_map::{address_after, DTB_SIZE};
use crate::bus::{all_loadable, all_storable, Bus};
use crate::cpu::{privilege_of, PrivilegeMode, Trap, TrapType};
use crate::device::{Clint, Plic, Uart, VirtioBlockDisk};
use crate::sv39::{page_of, MemoryAccessType, PAGE_SIZE};
use vstd::prelude::*;

verus! {

/// How virtual addresses are translated. In `Bare` mode they are physical addresses.
/// `SV48` can be selected, but addresses cannot be translated in it.
#[derive(Clone, Copy, Debug, PartialEq, Eq, Structural)]
pub enum AddressingMode {
    Bare,
    SV39,
    SV48,
}

/// The state of the memory management unit and of all that it holds.
#[verifier::ext_equal]
pub struct State<C, P, U, D> {
    /// Everything that has a physical address.
    pub bus: Bus<C, P, U, D>,
    /// Cycles run so far.
    pub clock: u64,
    /// Physical page number of the root page table.
    pub ppn: u64,
    pub addressing_mode: AddressingMode,
    pub privilege_mode: PrivilegeMode,
    /// Copy of the `mstatus` register.
    pub mstatus: u64,
    pub page_cache_enabled: bool,
    /// The physical pages found for virtual pages when fetching.
    pub fetch_cache: Map<u64, u64>,
    /// The physical pages found for virtual pages when loading.
    pub load_cache: Map<u64, u64>,
    /// The physical pages found for virtual pages when storing.
    pub store_cache: Map<u64, u64>,
}

/// Whether a page cache maps pages to pages.
pub open spec fn maps_pages(cache: Map<u64, u64>) -> bool {
    forall|page: u64| #[trigger]
        cache.contains_key(page) ==> page % PAGE_SIZE == 0 && cache[page] % PAGE_SIZE == 0
}

/// Whether a page cache maps pages to themselves.
pub open spec fn maps_to_self(cache: Map<u64, u64>) -> bool {
    forall|page: u64| #[trigger] cache.contains_key(page) ==> cache[page] == page
}

/// The exception that a failed access raises.
pub open spec fn fault(access_type: MemoryAccessType, v_address: u64) -> Trap {
    Trap {
        trap_type: match access_type {
            MemoryAccessType::Execute => TrapType::InstructionPageFault,
            MemoryAccessType::Write => TrapType::StorePageFault,
            _ => TrapType::LoadPageFault,
        },
        value: v_address,
    }
}

/// Whether the `width` bytes from `v_address` on lie in one page.
pub open spec fn in_one_page(v_address: u64, width: nat) -> bool {
    v_address % PAGE_SIZE + width <= PAGE_SIZE
}

impl<C, P, U, D> State<C, P, U, D> {
    /// What holds of the memory management unit at all times: the size of the device
    /// tree is fixed, the page caches map pages to pages, they hold nothing while
    /// they are disabled or addresses cannot be translated, and those that are not
    /// filled by page table walks map pages to themselves.
    pub open spec fn is_well_formed(self) -> bool {
        &&& self.bus.dtb.len() == DTB_SIZE
        &&& maps_pages(self.fetch_cache)
        &&& maps_pages(self.load_cache)
        &&& maps_pages(self.store_cache)
        &&& !self.page_cache_enabled || self.addressing_mode == AddressingMode::SV48
            ==> self.has_no_cached_page()
        &&& self.addressing_mode == AddressingMode::Bare || self.privilege_mode
            == PrivilegeMode::Reserved ==> {
            &&& maps_to_self(self.fetch_cache)
            &&& maps_to_self(self.load_cache)
            &&& maps_to_self(self.store_cache)
        }
        &&& self.privilege_mode == PrivilegeMode::Machine ==> maps_to_self(self.fetch_cache)
    }

    /// Whether no page cache holds a page.
    pub open spec fn has_no_cached_page(self) -> bool {
        &&& self.fetch_cache == Map::<u64, u64>::empty()
        &&& self.load_cache == Map::<u64, u64>::empty()
        &&& self.store_cache == Map::<u64, u64>::empty()
    }

    /// The state with all page caches cleared.
    pub open spec fn cleared(self) -> Self {
        State {
            fetch_cache: Map::empty(),
            load_cache: Map::empty(),
            store_cache: Map::empty(),
            ..self
        }
    }

    /// The page cache for an access. Accesses that ask for no permission have none.
    pub open spec fn cache(self, access_type: MemoryAccessType) -> Map<u64, u64> {
        match access_type {
            MemoryAccessType::Execute => self.fetch_cache,
            MemoryAccessType::Read => self.load_cache,
            MemoryAccessType::Write => self.store_cache,
            MemoryAccessType::DontCare => Map::empty(),
        }
    }

    /// Whether the page of `v_address` is found in the page cache.
    pub open spec fn is_cached(self, v_address: u64, access_type: MemoryAccessType) -> bool {
        self.page_cache_enabled && self.cache(access_type).contains_key(page_of(v_address))
    }

    /// The state once the page of `v_address` was found to be that of `p_address`.
    pub open spec fn remembering(
        self,
        v_address: u64,
        p_address: u64,
        access_type: MemoryAccessType,
    ) -> Self {
        if !self.page_cache_enabled {
            self
        } else {
            match access_type {
                MemoryAccessType::Execute => State {
                    fetch_cache: self.fetch_cache.insert(page_of(v_address), page_of(p_address)),
                    ..self
                },
                MemoryAccessType::Read => State {
                    load_cache: self.load_cache.insert(page_of(v_address), page_of(p_address)),
                    ..self
                },
                MemoryAccessType::Write => State {
                    store_cache: self.store_cache.insert(page_of(v_address), page_of(p_address)),
                    ..self
                },
                MemoryAccessType::DontCare => self,
            }
        }
    }

    /// Whether an access is made in the privilege mode that `mstatus` names and not
    /// in the current one: in machine mode, when the `MPRV` bit is set and the `MPP`
    /// field does not name machine mode too. Fetches never are.
    pub open spec fn borrows_privilege(self, access_type: MemoryAccessType) -> bool {
        &&& self.privilege_mode == PrivilegeMode::Machine
        &&& access_type != MemoryAccessType::Execute
        &&& (self.mstatus >> 17) & 1 == 1
        &&& privilege_of((self.mstatus >> 11) & 3) != PrivilegeMode::Machine
    }

    /// The privilege mode that an access is made in.
    pub open spec fn effective_privilege(
        self,
        access_type: MemoryAccessType,
    ) -> PrivilegeMode {
        if self.borrows_privilege(access_type) {
            privilege_of((self.mstatus >> 11) & 3)
        } else {
            self.privilege_mode
        }
    }

    /// Whether an access goes through the page table. Otherwise virtual addresses are
    /// physical addresses.
    pub open spec fn is_paged(self, access_type: MemoryAccessType) -> bool {
        &&& self.addressing_mode == AddressingMode::SV39
        &&& {
            ||| self.effective_privilege(access_type) == PrivilegeMode::User
            ||| self.effective_privilege(access_type) == PrivilegeMode::Supervisor
        }
    }
}

impl<C: Clint, P: Plic, U: Uart, D: VirtioBlockDisk> State<C, P, U, D> {
    /// The physical address of `v_address`, or the fault, and the state after the
    /// translation.
    ///
    /// A cached page is used as it is. Otherwise borrowing another privilege mode
    /// clears the page caches, and a page that was found goes into them.
    pub open spec fn translate(
        self,
        v_address: u64,
        access_type: MemoryAccessType,
    ) -> (Result<u64, ()>, Self) {
        if self.is_cached(v_address, access_type) {
            let page = self.cache(access_type)[page_of(v_address)];
            (Ok((page + v_address % PAGE_SIZE) as u64), self)
        } else {
            let (result, bus) = if self.is_paged(access_type) {
                self.bus.walk(v_address, 2, self.ppn, access_type)
            } else {
                (Ok(v_address), self.bus)
            };
            let pre = if self.addressing_mode == AddressingMode::SV39
                && self.borrows_privilege(access_type) {
                self.cleared()
            } else {
                self
            };
            let found = State { bus, ..pre };
            match result {
                Ok(p_address) => (
                    result,
                    found.remembering(v_address, p_address, access_type),
                ),
                Err(()) => (result, found),
            }
        }
    }

    /// Whether `v_address` can be translated: the addressing mode is supported, and
    /// the page table can be walked.
    pub open spec fn can_translate(
        self,
        v_address: u64,
        access_type: MemoryAccessType,
    ) -> bool {
        self.is_cached(v_address, access_type) || {
            &&& self.addressing_mode != AddressingMode::SV48
            &&& self.is_paged(access_type) ==> self.bus.can_walk(
                v_address,
                2,
                self.ppn,
                access_type,
            )
        }
    }

    /// The `width` bytes from `v_address` on, when it is translated once for all of
    /// them, or the exception, and the state after that.
    pub open spec fn load_together(
        self,
        access_type: MemoryAccessType,
        v_address: u64,
        width: nat,
    ) -> (Result<Seq<u8>, Trap>, Self) {
        let (translation, state) = self.translate(v_address, access_type);
        match translation {
            Ok(p_address) => {
                let (bytes, bus) = state.bus.load_all(p_address, width);
                (Ok(bytes), State { bus, ..state })
            },
            Err(()) => (Err(fault(access_type, v_address)), state),
        }
    }

    /// Whether [`State::load_together`] only touches what can be translated and
    /// loaded.
    pub open spec fn can_load_together(
        self,
        access_type: MemoryAccessType,
        v_address: u64,
        width: nat,
    ) -> bool {
        &&& self.can_translate(v_address, access_type)
        &&& self.translate(v_address, access_type).0 matches Ok(p_address) ==> all_loadable(
            self.bus.memory.len(),
            p_address,
            width,
        )
    }

    /// The `width` bytes from `v_address` on, when each is translated and loaded
    /// after the one before it, or the first exception, and the state after that.
    pub open spec fn load_each(
        self,
        access_type: MemoryAccessType,
        v_address: u64,
        width: nat,
    ) -> (Result<Seq<u8>, Trap>, Self)
        decreases width,
    {
        if width == 0 {
            (Ok(Seq::empty()), self)
        } else {
            let i = (width - 1) as nat;
            let (low, state) = self.load_each(access_type, v_address, i);
            match low {
                Ok(bytes) => {
                    let (next, state) = state.load_together(
                        access_type,
                        address_after(v_address, i as int),
                        1,
                    );
                    match next {
                        Ok(byte) => (Ok(bytes + byte), state),
                        Err(trap) => (Err(trap), state),
                    }
                },
                Err(trap) => (Err(trap), state),
            }
        }
    }

    /// Whether [`State::load_each`] only touches what can be translated and loaded.
    pub open spec fn can_load_each(
        self,
        access_type: MemoryAccessType,
        v_address: u64,
        width: nat,
    ) -> bool
        decreases width,
    {
        width > 0 ==> {
            let i = (width - 1) as nat;
            let (low, state) = self.load_each(access_type, v_address, i);
            &&& self.can_load_each(access_type, v_address, i)
            &&& low is Ok ==> state.can_load_together(
                access_type,
                address_after(v_address, i as int),
                1,
            )
        }
    }

    /// A load of `width` bytes from `v_address` on. Within a page the address is
    /// translated once, otherwise once per byte.
    pub open spec fn load(
        self,
        access_type: MemoryAccessType,
        v_address: u64,
        width: nat,
    ) -> (Result<Seq<u8>, Trap>, Self) {
        if in_one_page(v_address, width) {
            self.load_together(access_type, v_address, width)
        } else {
            self.load_each(access_type, v_address, width)
        }
    }

    /// Whether a load only touches what can be translated and loaded.
    pub open spec fn can_load(
        self,
        access_type: MemoryAccessType,
        v_address: u64,
        width: nat,
    ) -> bool {
        if in_one_page(v_address, width) {
            self.can_load_together(access_type, v_address, width)
        } else {
            self.can_load_each(access_type, v_address, width)
        }
    }

    /// The store of `bytes` from `v_address` on, when it is translated once for all
    /// of them: nothing, or the exception, and the state after that.
    pub open spec fn store_together(
        self,
        v_address: u64,
        bytes: Seq<u8>,
    ) -> (Result<(), Trap>, Self) {
        let (translation, state) = self.translate(v_address, MemoryAccessType::Write);
        match translation {
            Ok(p_address) => (
                Ok(()),
                State { bus: state.bus.store_all(p_address, bytes), ..state },
            ),
            Err(()) => (Err(fault(MemoryAccessType::Write, v_address)), state),
        }
    }

    /// Whether [`State::store_together`] only touches what can be translated and
    /// stored.
    pub open spec fn can_store_together(self, v_address: u64, width: nat) -> bool {
        &&& self.can_translate(v_address, MemoryAccessType::Write)
        &&& self.translate(v_address, MemoryAccessType::Write).0 matches Ok(p_address)
            ==> all_storable(self.bus.memory.len(), p_address, width)
    }

    /// The store of `bytes` from `v_address` on, when each is translated and stored
    /// after the one before it: nothing, or the first exception, and the state after
    /// that. The bytes before the one that failed stay stored.
    pub open spec fn store_each(
        self,
        v_address: u64,
        bytes: Seq<u8>,
    ) -> (Result<(), Trap>, Self)
        decreases bytes.len(),
    {
        if bytes.len() == 0 {
            (Ok(()), self)
        } else {
            let (low, state) = self.store_each(v_address, bytes.drop_last());
            match low {
                Ok(()) => state.store_together(
                    address_after(v_address, bytes.len() - 1),
                    seq![bytes.last()],
                ),
                Err(trap) => (Err(trap), state),
            }
        }
    }

    /// Whether [`State::store_each`] only touches what can be translated and stored.
    pub open spec fn can_store_each(self, v_address: u64, bytes: Seq<u8>) -> bool
        decreases bytes.len(),
    {
        bytes.len() > 0 ==> {
            let (low, state) = self.store_each(v_address, bytes.drop_last());
            &&& self.can_store_each(v_address, bytes.drop_last())
            &&& low is Ok ==> state.can_store_together(
                address_after(v_address, bytes.len() - 1),
                1,
            )
        }
    }

    /// A store of `bytes` from `v_address` on. Within a page the address is
    /// translated once, otherwise once per byte.
    pub open spec fn store(self, v_address: u64, bytes: Seq<u8>) -> (Result<(), Trap>, Self) {
        if in_one_page(v_address, bytes.len()) {
            self.store_together(v_address, bytes)
        } else {
            self.store_each(v_address, bytes)
        }
    }

    /// Whether a store only touches what can be translated and stored.
    pub open spec fn can_store(self, v_address: u64, bytes: Seq<u8>) -> bool {
        if in_one_page(v_address, bytes.len()) {
            self.can_store_together(v_address, bytes.len())
        } else {
            self.can_store_each(v_address, bytes)
        }
    }

    /// Whether one cycle may lead from this state and `mip` to `next` and `next_mip`.
    ///
    /// The CLINT ticks first, then the disk, which may write main memory, then the
    /// UART. Last ticks the PLIC, which is told of the interrupts of the disk and of
    /// the UART, asked for in this order.
    pub open spec fn may_tick_to(self, mip: u64, next: Self, next_mip: u64) -> bool {
        exists|clint_mip: u64, disk: D, uart: U| #[trigger]
            self.ticks_through(mip, clint_mip, disk, uart, next, next_mip)
    }

    /// One cycle in which the CLINT leaves `clint_mip`, and the disk and the UART
    /// reach the given states before they are asked for interrupts.
    pub open spec fn ticks_through(
        self,
        mip: u64,
        clint_mip: u64,
        disk: D,
        uart: U,
        next: Self,
        next_mip: u64,
    ) -> bool {
        let (disk_interrupt, asked_disk) = disk.after_poll();
        let (uart_interrupt, asked_uart) = uart.after_poll();
        &&& self.bus.clint.may_tick_to(mip, next.bus.clint, clint_mip)
        &&& self.bus.disk.may_tick_to(self.bus.memory, disk, next.bus.memory)
        &&& self.bus.uart.may_tick_to(uart)
        &&& self.bus.plic.may_tick_to(
            disk_interrupt,
            uart_interrupt,
            clint_mip,
            next.bus.plic,
            next_mip,
        )
        &&& next == State {
            bus: Bus {
                memory: next.bus.memory,
                dtb: self.bus.dtb,
                clint: next.bus.clint,
                plic: next.bus.plic,
                uart: asked_uart,
                disk: asked_disk,
            },
            clock: self.clock.wrapping_add(1),
            ..self
        }
        &&& next.bus.memory.len() == self.bus.memory.len()
    }
}

impl<C: Clint, P: Plic, U: Uart, D: VirtioBlockDisk> State<C, P, U, D> {
    /// Translations keep what holds at all times, the size of main memory and the
    /// offset in the page.
    pub proof fn lemma_translate(self, v_address: u64, access_type: MemoryAccessType)
        requires
            self.is_well_formed(),
            self.can_translate(v_address, access_type),
        ensures
            ({
                let (result, state) = self.translate(v_address, access_type);
                &&& state.is_well_formed()
                &&& state.bus.memory.len() == self.bus.memory.len()
                &&& result matches Ok(p_address) ==> p_address % PAGE_SIZE == v_address
                    % PAGE_SIZE
            }),
    {
        self.bus.lemma_walk(v_address, 2, self.ppn, access_type);
        self.bus.lemma_walk_offset(v_address, 2, self.ppn, access_type);
    }

    /// What holds of a bytewise load holds of its beginning, and once a byte has
    /// failed nothing more happens.
    pub proof fn lemma_load_each_beginning(
        self,
        access_type: MemoryAccessType,
        v_address: u64,
        width: nat,
        all: nat,
    )
        requires
            width <= all,
        ensures
            self.can_load_each(access_type, v_address, all) ==> self.can_load_each(
                access_type,
                v_address,
                width,
            ),
            self.load_each(access_type, v_address, width).0 is Err ==> self.load_each(
                access_type,
                v_address,
                all,
            ) == self.load_each(access_type, v_address, width),
        decreases all,
    {
        if width < all {
            self.lemma_load_each_beginning(access_type, v_address, width, (all - 1) as nat);
        }
    }

    /// One step of a bytewise load of `all` bytes.
    pub proof fn lemma_load_each_step(
        self,
        access_type: MemoryAccessType,
        v_address: u64,
        i: nat,
        all: nat,
    )
        requires
            i < all,
            self.can_load_each(access_type, v_address, all),
            self.load_each(access_type, v_address, i).0 is Ok,
        ensures
            ({
                let (low, state) = self.load_each(access_type, v_address, i);
                let next = address_after(v_address, i as int);
                let (one, after) = state.load_together(access_type, next, 1);
                &&& state.can_load_together(access_type, next, 1)
                &&& match one {
                    Ok(byte) => self.load_each(access_type, v_address, i + 1) == (
                        Ok::<Seq<u8>, Trap>(low->Ok_0 + byte),
                        after,
                    ),
                    Err(trap) => self.load_each(access_type, v_address, all) == (
                        Err::<Seq<u8>, Trap>(trap),
                        after,
                    ),
                }
            }),
    {
        self.lemma_load_each_beginning(access_type, v_address, i + 1, all);
    }

    /// Stores keep what holds at all times and the size of main memory.
    pub proof fn lemma_store_together(self, v_address: u64, bytes: Seq<u8>)
        requires
            self.is_well_formed(),
            self.can_store_together(v_address, bytes.len()),
        ensures
            self.store_together(v_address, bytes).1.is_well_formed(),
            self.store_together(v_address, bytes).1.bus.memory.len()
                == self.bus.memory.len(),
    {
        self.lemma_translate(v_address, MemoryAccessType::Write);
        let (translation, state) = self.translate(v_address, MemoryAccessType::Write);
        if let Ok(p_address) = translation {
            state.bus.lemma_store_all(p_address, bytes);
        }
    }

    /// Bytewise stores keep what holds at all times and the size of main memory.
    pub proof fn lemma_store_each(self, v_address: u64, bytes: Seq<u8>)
        requires
            self.is_well_formed(),
            self.can_store_each(v_address, bytes),
        ensures
            self.store_each(v_address, bytes).1.is_well_formed(),
            self.store_each(v_address, bytes).1.bus.memory.len() == self.bus.memory.len(),
        decreases bytes.len(),
    {
        if bytes.len() > 0 {
            let low = bytes.drop_last();
            self.lemma_store_each(v_address, low);
            let (result, state) = self.store_each(v_address, low);
            if result is Ok {
                state.lemma_store_together(
                    address_after(v_address, bytes.len() - 1),
                    seq![bytes.last()],
                );
            }
        }
    }

    /// What holds of a bytewise store holds of its beginning, and once a byte has
    /// failed nothing more happens.
    pub proof fn lemma_store_each_beginning(self, v_address: u64, bytes: Seq<u8>, width: nat)
        requires
            width <= bytes.len(),
        ensures
            self.can_store_each(v_address, bytes) ==> self.can_store_each(
                v_address,
                bytes.take(width as int),
            ),
            self.store_each(v_address, bytes.take(width as int)).0 is Err ==> self.store_each(
                v_address,
                bytes,
            ) == self.store_each(v_address, bytes.take(width as int)),
        decreases bytes.len(),
    {
        if width < bytes.len() {
            let low = bytes.drop_last();
            self.lemma_store_each_beginning(v_address, low, width);
            assert(low.take(width as int) =~= bytes.take(width as int));
        } else {
            assert(bytes.take(width as int) =~= bytes);
        }
    }

    /// One step of a bytewise store.
    pub proof fn lemma_store_each_step(self, v_address: u64, bytes: Seq<u8>, i: nat)
        requires
            i < bytes.len(),
            self.can_store_each(v_address, bytes),
            self.store_each(v_address, bytes.take(i as int)).0 is Ok,
        ensures
            ({
                let state = self.store_each(v_address, bytes.take(i as int)).1;
                let next = address_after(v_address, i as int);
                let (one, after) = state.store_together(next, seq![bytes[i as int]]);
                &&& state.can_store_together(next, 1)
                &&& self.store_each(v_address, bytes.take(i as int + 1)) == (one, after)
                &&& one is Err ==> self.store_each(v_address, bytes) == (one, after)
            }),
    {
        self.lemma_store_each_beginning(v_address, bytes, i + 1);
        let upto = bytes.take(i as int + 1);
        assert(upto.drop_last() =~= bytes.take(i as int));
        assert(upto.last() == bytes[i as int]);
        assert(self.store_each(v_address, upto.drop_last()).0 == Ok::<(), Trap>(()));
    }
}

} // verus!
