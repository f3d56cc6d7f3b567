//! What callers get, call by call: how the results of the methods relate to the state
//! before and after, with numbers and bytes written out.
use crate::bus::Bus;
use crate::bus_laws::{law_numbers_are_read_little_endian, law_served_addresses};
use crate::cpu::{get_privilege_mode, PrivilegeMode, Trap};
use crate::cycle_laws::{is_cycle, law_cycles_are_counted, law_interrupts_reach_the_plic};
use crate::device::{Clint, Plic, Uart, VirtioBlockDisk};
use crate::dram::MemoryWrapper;
use crate::endian::{le_bytes, le_value};
use crate::memory::overwrite;
use crate::mmu::{Mmu, _get_addressing_mode_name};
use crate::model::{AddressingMode, State};
use crate::sv39::MemoryAccessType;
use crate::walk_laws::{doubleword_of, lemma_doubleword};
use vstd::prelude::*;

verus! {

/// The number that two bytes stand for.
pub open spec fn halfword_of(bytes: Seq<u8>) -> int {
    bytes[0] + 0x100 * bytes[1]
}

/// The number that four bytes stand for.
pub open spec fn word_of(bytes: Seq<u8>) -> int {
    bytes[0] + 0x100 * bytes[1] + 0x1_0000 * bytes[2] + 0x100_0000 * bytes[3]
}

/// The bytes of a halfword.
pub open spec fn bytes_of_halfword(value: u16) -> Seq<u8> {
    seq![(value % 0x100) as u8, (value / 0x100) as u8]
}

/// The bytes of a word.
pub open spec fn bytes_of_word(value: u32) -> Seq<u8> {
    seq![
        (value % 0x100) as u8,
        (value / 0x100 % 0x100) as u8,
        (value / 0x1_0000 % 0x100) as u8,
        (value / 0x100_0000) as u8,
    ]
}

/// The bytes of a doubleword.
pub open spec fn bytes_of_doubleword(value: u64) -> Seq<u8> {
    seq![
        (value % 0x100) as u8,
        (value / 0x100 % 0x100) as u8,
        (value / 0x1_0000 % 0x100) as u8,
        (value / 0x100_0000 % 0x100) as u8,
        (value / 0x1_0000_0000 % 0x100) as u8,
        (value / 0x100_0000_0000 % 0x100) as u8,
        (value / 0x1_0000_0000_0000 % 0x100) as u8,
        (value / 0x100_0000_0000_0000) as u8,
    ]
}

/// Two and four bytes as a number.
proof fn lemma_numbers(bytes: Seq<u8>)
    ensures
        bytes.len() == 2 ==> le_value(bytes) == halfword_of(bytes),
        bytes.len() == 4 ==> le_value(bytes) == word_of(bytes),
{
    law_numbers_are_read_little_endian(0, Seq::empty());
    let n = bytes.len() as int;
    if n == 2 || n == 4 {
        assert forall|i: int| 0 <= i < n implies le_value(#[trigger] bytes.subrange(i, n))
            == bytes[i] + 256 * le_value(bytes.subrange(i + 1, n)) by {
            law_numbers_are_read_little_endian(bytes[i], bytes.subrange(i + 1, n));
            assert(seq![bytes[i]] + bytes.subrange(i + 1, n) =~= bytes.subrange(i, n));
        }
        assert(bytes.subrange(0, n) =~= bytes);
        assert(bytes.subrange(n, n) =~= Seq::empty());
        assert(le_value(bytes.subrange(n - 1, n)) == bytes[n - 1]);
        if n == 4 {
            assert(le_value(bytes.subrange(2, n)) == bytes[2] + 256 * le_value(
                bytes.subrange(3, n),
            ));
        }
        assert(le_value(bytes.subrange(1, n)) == bytes[1] + 256 * le_value(
            bytes.subrange(2, n),
        ));
    }
}

/// The bytes of a number, written out.
proof fn lemma_bytes(value: u64)
    ensures
        value <= 0xffff ==> le_bytes(value as nat, 2) == bytes_of_halfword(value as u16),
        value <= 0xffff_ffff ==> le_bytes(value as nat, 4) == bytes_of_word(value as u32),
        le_bytes(value as nat, 8) == bytes_of_doubleword(value),
{
    crate::endian::lemma_weights();
    assert(le_bytes(value as nat, 2)[0] == value as nat / 1 % 256);
    if value <= 0xffff {
        assert(le_bytes(value as nat, 2) =~= bytes_of_halfword(value as u16));
    }
    if value <= 0xffff_ffff {
        assert(le_bytes(value as nat, 4) =~= bytes_of_word(value as u32));
    }
    assert(le_bytes(value as nat, 8) =~= bytes_of_doubleword(value));
}

/// Loads return as many bytes as they were asked for.
proof fn lemma_load_length<C: Clint, P: Plic, U: Uart, D: VirtioBlockDisk>(
    state: State<C, P, U, D>,
    access_type: MemoryAccessType,
    v_address: u64,
    width: nat,
)
    ensures
        state.load(access_type, v_address, width).0 matches Ok(bytes) ==> bytes.len() == width,
{
    let (translation, found) = state.translate(v_address, access_type);
    if let Ok(p_address) = translation {
        found.bus.lemma_load_all(p_address, width);
    }
    lemma_load_each_length(state, access_type, v_address, width);
}

proof fn lemma_load_each_length<C: Clint, P: Plic, U: Uart, D: VirtioBlockDisk>(
    state: State<C, P, U, D>,
    access_type: MemoryAccessType,
    v_address: u64,
    width: nat,
)
    ensures
        state.load_each(access_type, v_address, width).0 matches Ok(bytes) ==> bytes.len()
            == width,
    decreases width,
{
    if width > 0 {
        let i = (width - 1) as nat;
        lemma_load_each_length(state, access_type, v_address, i);
        let middle = state.load_each(access_type, v_address, i).1;
        let next = crate::address_map::address_after(v_address, i as int);
        let (translation, found) = middle.translate(next, access_type);
        if let Ok(p_address) = translation {
            found.bus.lemma_load_all(p_address, 1);
        }
    }
}

/// A call of `load` loads one byte.
pub proof fn law_load<C: Clint, P: Plic, U: Uart, D: VirtioBlockDisk>(
    mmu: &mut Mmu<C, P, U, D>,
    v_address: u64,
    result: Result<u8, Trap>,
)
    requires
        call_ensures(Mmu::<C, P, U, D>::load, (mmu, v_address), result),
    ensures
        ({
            let (bytes, after) = old(mmu)@.load(MemoryAccessType::Read, v_address, 1);
            &&& final(mmu)@ == after
            &&& match bytes {
                Ok(bytes) => result == Ok::<u8, Trap>(bytes[0]),
                Err(trap) => result == Err::<u8, Trap>(trap),
            }
        }),
{
}

/// A call of `load_halfword` loads two bytes as one number.
pub proof fn law_load_halfword<C: Clint, P: Plic, U: Uart, D: VirtioBlockDisk>(
    mmu: &mut Mmu<C, P, U, D>,
    v_address: u64,
    result: Result<u16, Trap>,
)
    requires
        call_ensures(Mmu::<C, P, U, D>::load_halfword, (mmu, v_address), result),
    ensures
        ({
            let (bytes, after) = old(mmu)@.load(MemoryAccessType::Read, v_address, 2);
            &&& final(mmu)@ == after
            &&& match bytes {
                Ok(bytes) => result == Ok::<u16, Trap>(halfword_of(bytes) as u16),
                Err(trap) => result == Err::<u16, Trap>(trap),
            }
        }),
{
    lemma_load_length(old(mmu)@, MemoryAccessType::Read, v_address, 2);
    if let Ok(bytes) = old(mmu)@.load(MemoryAccessType::Read, v_address, 2).0 {
        lemma_numbers(bytes);
    }
}

/// A call of `load_word` loads four bytes as one number.
pub proof fn law_load_word<C: Clint, P: Plic, U: Uart, D: VirtioBlockDisk>(
    mmu: &mut Mmu<C, P, U, D>,
    v_address: u64,
    result: Result<u32, Trap>,
)
    requires
        call_ensures(Mmu::<C, P, U, D>::load_word, (mmu, v_address), result),
    ensures
        ({
            let (bytes, after) = old(mmu)@.load(MemoryAccessType::Read, v_address, 4);
            &&& final(mmu)@ == after
            &&& match bytes {
                Ok(bytes) => result == Ok::<u32, Trap>(word_of(bytes) as u32),
                Err(trap) => result == Err::<u32, Trap>(trap),
            }
        }),
{
    lemma_load_length(old(mmu)@, MemoryAccessType::Read, v_address, 4);
    if let Ok(bytes) = old(mmu)@.load(MemoryAccessType::Read, v_address, 4).0 {
        lemma_numbers(bytes);
    }
}

/// A call of `load_doubleword` loads eight bytes as one number.
pub proof fn law_load_doubleword<C: Clint, P: Plic, U: Uart, D: VirtioBlockDisk>(
    mmu: &mut Mmu<C, P, U, D>,
    v_address: u64,
    result: Result<u64, Trap>,
)
    requires
        call_ensures(Mmu::<C, P, U, D>::load_doubleword, (mmu, v_address), result),
    ensures
        ({
            let (bytes, after) = old(mmu)@.load(MemoryAccessType::Read, v_address, 8);
            &&& final(mmu)@ == after
            &&& match bytes {
                Ok(bytes) => result == Ok::<u64, Trap>(doubleword_of(bytes) as u64),
                Err(trap) => result == Err::<u64, Trap>(trap),
            }
        }),
{
    lemma_load_length(old(mmu)@, MemoryAccessType::Read, v_address, 8);
    if let Ok(bytes) = old(mmu)@.load(MemoryAccessType::Read, v_address, 8).0 {
        lemma_doubleword(bytes);
    }
}

/// A call of `fetch_word` fetches four bytes as one number.
pub proof fn law_fetch_word<C: Clint, P: Plic, U: Uart, D: VirtioBlockDisk>(
    mmu: &mut Mmu<C, P, U, D>,
    v_address: u64,
    result: Result<u32, Trap>,
)
    requires
        call_ensures(Mmu::<C, P, U, D>::fetch_word, (mmu, v_address), result),
    ensures
        ({
            let (bytes, after) = old(mmu)@.load(MemoryAccessType::Execute, v_address, 4);
            &&& final(mmu)@ == after
            &&& match bytes {
                Ok(bytes) => result == Ok::<u32, Trap>(word_of(bytes) as u32),
                Err(trap) => result == Err::<u32, Trap>(trap),
            }
        }),
{
    lemma_load_length(old(mmu)@, MemoryAccessType::Execute, v_address, 4);
    if let Ok(bytes) = old(mmu)@.load(MemoryAccessType::Execute, v_address, 4).0 {
        lemma_numbers(bytes);
    }
}

/// A call of `load_word_raw` loads four bytes from the bus as one number.
pub proof fn law_load_word_raw<C: Clint, P: Plic, U: Uart, D: VirtioBlockDisk>(
    mmu: &mut Mmu<C, P, U, D>,
    p_address: u64,
    value: u32,
)
    requires
        call_ensures(Mmu::<C, P, U, D>::load_word_raw, (mmu, p_address), value),
    ensures
        ({
            let (bytes, bus) = old(mmu)@.bus.load_all(p_address, 4);
            &&& value == word_of(bytes)
            &&& final(mmu)@ == State { bus, ..old(mmu)@ }
        }),
{
    old(mmu)@.bus.lemma_load_all(p_address, 4);
    lemma_numbers(old(mmu)@.bus.load_all(p_address, 4).0);
}

/// A call of `store_raw` stores one byte to the bus.
pub proof fn law_store_raw<C: Clint, P: Plic, U: Uart, D: VirtioBlockDisk>(
    mmu: &mut Mmu<C, P, U, D>,
    p_address: u64,
    value: u8,
)
    requires
        call_ensures(Mmu::<C, P, U, D>::store_raw, (mmu, p_address, value), ()),
    ensures
        final(mmu)@ == (State { bus: old(mmu)@.bus.store(p_address, value), ..old(mmu)@ }),
{
}

/// A call of `store` stores one byte.
pub proof fn law_store<C: Clint, P: Plic, U: Uart, D: VirtioBlockDisk>(
    mmu: &mut Mmu<C, P, U, D>,
    v_address: u64,
    value: u8,
    result: Result<(), Trap>,
)
    requires
        call_ensures(Mmu::<C, P, U, D>::store, (mmu, v_address, value), result),
    ensures
        (result, final(mmu)@) == old(mmu)@.store(v_address, seq![value]),
{
}

/// A call of `store_halfword` stores the two bytes of the number.
pub proof fn law_store_halfword<C: Clint, P: Plic, U: Uart, D: VirtioBlockDisk>(
    mmu: &mut Mmu<C, P, U, D>,
    v_address: u64,
    value: u16,
    result: Result<(), Trap>,
)
    requires
        call_ensures(Mmu::<C, P, U, D>::store_halfword, (mmu, v_address, value), result),
    ensures
        (result, final(mmu)@) == old(mmu)@.store(v_address, bytes_of_halfword(value)),
{
    lemma_bytes(value as u64);
}

/// A call of `store_word` stores the four bytes of the number.
pub proof fn law_store_word<C: Clint, P: Plic, U: Uart, D: VirtioBlockDisk>(
    mmu: &mut Mmu<C, P, U, D>,
    v_address: u64,
    value: u32,
    result: Result<(), Trap>,
)
    requires
        call_ensures(Mmu::<C, P, U, D>::store_word, (mmu, v_address, value), result),
    ensures
        (result, final(mmu)@) == old(mmu)@.store(v_address, bytes_of_word(value)),
{
    lemma_bytes(value as u64);
}

/// A call of `store_doubleword` stores the eight bytes of the number.
pub proof fn law_store_doubleword<C: Clint, P: Plic, U: Uart, D: VirtioBlockDisk>(
    mmu: &mut Mmu<C, P, U, D>,
    v_address: u64,
    value: u64,
    result: Result<(), Trap>,
)
    requires
        call_ensures(Mmu::<C, P, U, D>::store_doubleword, (mmu, v_address, value), result),
    ensures
        (result, final(mmu)@) == old(mmu)@.store(v_address, bytes_of_doubleword(value)),
{
    lemma_bytes(value);
}

/// A call of `validate_address` tells whether something answers at the physical address
/// that a translation finds which asks for no permission.
pub proof fn law_validate_address<C: Clint, P: Plic, U: Uart, D: VirtioBlockDisk>(
    mmu: &mut Mmu<C, P, U, D>,
    v_address: u64,
    result: Result<bool, ()>,
)
    requires
        call_ensures(Mmu::<C, P, U, D>::validate_address, (mmu, v_address), result),
    ensures
        ({
            let (translation, after) = old(mmu)@.translate(
                v_address,
                MemoryAccessType::DontCare,
            );
            &&& final(mmu)@ == after
            &&& result is Ok == translation is Ok
            &&& translation matches Ok(p) ==> (result->Ok_0 <==> {
                ||| 0x1020 <= p < 0x2000
                ||| 0x0200_0000 <= p < 0x0201_0000
                ||| 0x0c00_0000 <= p < 0x1000_0100
                ||| 0x1000_1000 <= p < 0x1000_2000
                ||| 0x8000_0000 <= p < 0x8000_0000 + old(mmu)@.bus.memory.len()
            })
        }),
{
    if let Ok(p_address) = old(mmu)@.translate(v_address, MemoryAccessType::DontCare).0 {
        law_served_addresses(old(mmu)@.bus.memory.len(), p_address);
    }
}

/// Each register update sets its register and nothing else. All but that of `mstatus` forget
/// the cached pages.
pub proof fn law_register_updates<C: Clint, P: Plic, U: Uart, D: VirtioBlockDisk>(
    mmu: &mut Mmu<C, P, U, D>,
    ppn: u64,
    addressing_mode: AddressingMode,
    privilege_mode: PrivilegeMode,
    mstatus: u64,
    enabled: bool,
)
    ensures
        ({
            let nothing = Map::<u64, u64>::empty();
            let empty = State {
                fetch_cache: nothing,
                load_cache: nothing,
                store_cache: nothing,
                ..old(mmu)@
            };
            &&& call_ensures(Mmu::<C, P, U, D>::update_ppn, (mmu, ppn), ()) ==> final(mmu)@
                == State { ppn, ..empty }
            &&& call_ensures(
                Mmu::<C, P, U, D>::update_addressing_mode,
                (mmu, addressing_mode),
                (),
            ) ==> final(mmu)@ == State { addressing_mode, ..empty }
            &&& call_ensures(
                Mmu::<C, P, U, D>::update_privilege_mode,
                (mmu, privilege_mode),
                (),
            ) ==> final(mmu)@ == State { privilege_mode, ..empty }
            &&& call_ensures(Mmu::<C, P, U, D>::enable_page_cache, (mmu, enabled), ())
                ==> final(mmu)@ == State { page_cache_enabled: enabled, ..empty }
            &&& call_ensures(Mmu::<C, P, U, D>::update_mstatus, (mmu, mstatus), ())
                ==> final(mmu)@ == State { mstatus, ..old(mmu)@ }
        }),
{
}

/// A well-formed memory management unit can be loaded from, stored to and fetched from
/// wherever the bytes can be translated and served, and asked about every address that can be
/// translated.
pub proof fn law_accesses_are_allowed<C: Clint, P: Plic, U: Uart, D: VirtioBlockDisk>(
    mmu: &mut Mmu<C, P, U, D>,
    v_address: u64,
    byte: u8,
    halfword: u16,
    word: u32,
    doubleword: u64,
)
    requires
        old(mmu)@.is_well_formed(),
    ensures
        ({
            let state = old(mmu)@;
            let read = MemoryAccessType::Read;
            &&& state.can_load(read, v_address, 1) ==> call_requires(
                Mmu::<C, P, U, D>::load,
                (mmu, v_address),
            )
            &&& state.can_load(read, v_address, 2) ==> call_requires(
                Mmu::<C, P, U, D>::load_halfword,
                (mmu, v_address),
            )
            &&& state.can_load(read, v_address, 4) ==> call_requires(
                Mmu::<C, P, U, D>::load_word,
                (mmu, v_address),
            )
            &&& state.can_load(read, v_address, 8) ==> call_requires(
                Mmu::<C, P, U, D>::load_doubleword,
                (mmu, v_address),
            )
            &&& state.can_load(MemoryAccessType::Execute, v_address, 4) ==> call_requires(
                Mmu::<C, P, U, D>::fetch_word,
                (mmu, v_address),
            )
            &&& state.can_store(v_address, seq![byte]) ==> call_requires(
                Mmu::<C, P, U, D>::store,
                (mmu, v_address, byte),
            )
            &&& state.can_store(v_address, bytes_of_halfword(halfword)) ==> call_requires(
                Mmu::<C, P, U, D>::store_halfword,
                (mmu, v_address, halfword),
            )
            &&& state.can_store(v_address, bytes_of_word(word)) ==> call_requires(
                Mmu::<C, P, U, D>::store_word,
                (mmu, v_address, word),
            )
            &&& state.can_store(v_address, bytes_of_doubleword(doubleword)) ==> call_requires(
                Mmu::<C, P, U, D>::store_doubleword,
                (mmu, v_address, doubleword),
            )
            &&& state.can_translate(v_address, MemoryAccessType::DontCare) ==> call_requires(
                Mmu::<C, P, U, D>::validate_address,
                (mmu, v_address),
            )
        }),
{
    lemma_bytes(halfword as u64);
    lemma_bytes(word as u64);
    lemma_bytes(doubleword);
}

/// The registers of a well-formed memory management unit can be updated to any value, it can
/// run a cycle at any time, and its memory, device tree and disk can be set up with anything
/// that fits.
pub proof fn law_updates_are_allowed<C: Clint, P: Plic, U: Uart, D: VirtioBlockDisk>(
    mmu: &mut Mmu<C, P, U, D>,
    number: u64,
    addressing_mode: AddressingMode,
    privilege_mode: PrivilegeMode,
    enabled: bool,
    mip: &mut u64,
    data: &[u8],
)
    requires
        old(mmu)@.is_well_formed(),
    ensures
        call_requires(Mmu::<C, P, U, D>::update_ppn, (mmu, number)),
        call_requires(Mmu::<C, P, U, D>::update_mstatus, (mmu, number)),
        call_requires(Mmu::<C, P, U, D>::update_addressing_mode, (mmu, addressing_mode)),
        call_requires(Mmu::<C, P, U, D>::update_privilege_mode, (mmu, privilege_mode)),
        call_requires(Mmu::<C, P, U, D>::enable_page_cache, (mmu, enabled)),
        call_requires(Mmu::<C, P, U, D>::tick, (mmu, mip)),
        call_requires(Mmu::<C, P, U, D>::init_disk, (mmu, data)),
        data@.len() <= 4064 ==> call_requires(Mmu::<C, P, U, D>::init_dtb, (mmu, data)),
        number <= isize::MAX ==> call_requires(Mmu::<C, P, U, D>::init_memory, (mmu, number)),
{
}

/// A new memory management unit has no main memory, no translation, machine mode, cleared
/// registers, disabled and empty page caches, devices in their initial state, and the given
/// device tree, filled up with zeros.
pub proof fn law_new<C: Clint, P: Plic, U: Uart, D: VirtioBlockDisk>(
    terminal: U::Terminal,
    dtb: &[u8],
    mmu: Mmu<C, P, U, D>,
)
    requires
        dtb@.len() <= 4064,
        call_ensures(Mmu::<C, P, U, D>::new, (terminal, dtb), mmu),
    ensures
        mmu@.bus.memory.len() == 0,
        mmu@.bus.dtb.len() == 4064,
        forall|i: int|
            0 <= i < 4064 ==> #[trigger] mmu@.bus.dtb[i] == (if i < dtb@.len() {
                dtb@[i]
            } else {
                0
            }),
        mmu@.bus.clint.is_initial(),
        mmu@.bus.plic.is_initial(),
        mmu@.bus.uart.is_initial(terminal),
        mmu@.bus.disk.is_initial(),
        mmu@.clock == 0,
        mmu@.ppn == 0,
        mmu@.addressing_mode == AddressingMode::Bare,
        mmu@.privilege_mode == PrivilegeMode::Machine,
        mmu@.mstatus == 0,
        !mmu@.page_cache_enabled,
        mmu@.fetch_cache == Map::<u64, u64>::empty(),
        mmu@.load_cache == Map::<u64, u64>::empty(),
        mmu@.store_cache == Map::<u64, u64>::empty(),
{
}

/// Main memory is made of zeros, the device tree of what is given and zeros behind it, and
/// the disk is told its contents. Nothing else changes.
pub proof fn law_initializations<C: Clint, P: Plic, U: Uart, D: VirtioBlockDisk>(
    mmu: &mut Mmu<C, P, U, D>,
    capacity: u64,
    data: &[u8],
)
    ensures
        call_ensures(Mmu::<C, P, U, D>::init_memory, (mmu, capacity), ()) ==> {
            let memory = final(mmu)@.bus.memory;
            &&& memory.len() == capacity
            &&& forall|i: int| 0 <= i < capacity ==> #[trigger] memory[i] == 0
            &&& final(mmu)@ == State { bus: Bus { memory, ..old(mmu)@.bus }, ..old(mmu)@ }
        },
        call_ensures(Mmu::<C, P, U, D>::init_dtb, (mmu, data), ()) && data@.len() <= 4064 ==> {
            let dtb = final(mmu)@.bus.dtb;
            &&& dtb.len() == 4064
            &&& forall|i: int|
                0 <= i < 4064 ==> #[trigger] dtb[i] == (if i < data@.len() {
                    data@[i]
                } else {
                    0
                })
            &&& final(mmu)@ == State { bus: Bus { dtb, ..old(mmu)@.bus }, ..old(mmu)@ }
        },
        call_ensures(Mmu::<C, P, U, D>::init_disk, (mmu, data), ()) ==> {
            let disk = old(mmu)@.bus.disk.after_init(data@);
            final(mmu)@ == State { bus: Bus { disk, ..old(mmu)@.bus }, ..old(mmu)@ }
        },
{
}

/// In a call of `tick` the CLINT, the disk and the UART each make a step, and the PLIC is told
/// whether the disk and the UART are interrupting after theirs, and nothing else. The clock
/// counts one cycle.
pub proof fn law_tick<C: Clint, P: Plic, U: Uart, D: VirtioBlockDisk>(
    mmu: &mut Mmu<C, P, U, D>,
    mip: &mut u64,
)
    requires
        call_ensures(Mmu::<C, P, U, D>::tick, (mmu, mip), ()),
    ensures
        exists|clint_mip: u64, disk: D, uart: U| #[trigger]
            is_cycle(
                old(mmu)@.bus,
                *old(mip),
                clint_mip,
                disk,
                uart,
                final(mmu)@.bus,
                *final(mip),
            ),
        final(mmu)@ == (State {
            bus: final(mmu)@.bus,
            clock: final(mmu)@.clock,
            ..old(mmu)@
        }),
        final(mmu)@.clock == (if old(mmu)@.clock == u64::MAX {
            0
        } else {
            old(mmu)@.clock + 1
        }),
{
    law_cycles_are_counted(old(mmu)@, *old(mip), final(mmu)@, *final(mip));
    law_interrupts_reach_the_plic(old(mmu)@, *old(mip), final(mmu)@, *final(mip));
}

/// Borrowed devices are the ones on the bus, and what becomes of them there becomes of them.
pub proof fn law_borrowed_devices<C: Clint, P: Plic, U: Uart, D: VirtioBlockDisk>(
    mmu: &mut Mmu<C, P, U, D>,
    clint: &mut C,
    uart: &mut U,
)
    ensures
        call_ensures(Mmu::<C, P, U, D>::get_mut_clint, (mmu,), clint) ==> {
            &&& *old(clint) == old(mmu)@.bus.clint
            &&& final(mmu)@ == State {
                bus: Bus { clint: *final(clint), ..old(mmu)@.bus },
                ..old(mmu)@
            }
        },
        call_ensures(Mmu::<C, P, U, D>::get_mut_uart, (mmu,), uart) ==> {
            &&& *old(uart) == old(mmu)@.bus.uart
            &&& final(mmu)@ == State {
                bus: Bus { uart: *final(uart), ..old(mmu)@.bus },
                ..old(mmu)@
            }
        },
{
}

/// Reading main memory at a physical address gives the bytes there, counted from 2 GiB on,
/// as one number, and changes nothing.
pub proof fn law_memory_reads(
    memory: &mut MemoryWrapper,
    p_address: u64,
    byte: u8,
    halfword: u16,
    word: u32,
    doubleword: u64,
)
    requires
        0x8000_0000 <= p_address,
    ensures
        ({
            let all = old(memory)@;
            let at = p_address - 0x8000_0000;
            &&& call_ensures(MemoryWrapper::read_byte, (memory, p_address), byte) && at + 1
                <= all.len() ==> byte == all[at] && final(memory)@ == all
            &&& call_ensures(MemoryWrapper::read_halfword, (memory, p_address), halfword) && at
                + 2 <= all.len() ==> halfword == halfword_of(all.subrange(at, at + 2))
                && final(memory)@ == all
            &&& call_ensures(MemoryWrapper::read_word, (memory, p_address), word) && at + 4
                <= all.len() ==> word == word_of(all.subrange(at, at + 4)) && final(memory)@
                == all
            &&& call_ensures(MemoryWrapper::read_doubleword, (memory, p_address), doubleword)
                && at + 8 <= all.len() ==> doubleword == doubleword_of(
                all.subrange(at, at + 8),
            ) && final(memory)@ == all
        }),
{
    let all = old(memory)@;
    let at = p_address - 0x8000_0000;
    if at + 2 <= all.len() {
        lemma_numbers(all.subrange(at, at + 2));
    }
    if at + 4 <= all.len() {
        lemma_numbers(all.subrange(at, at + 4));
    }
    if at + 8 <= all.len() {
        lemma_doubleword(all.subrange(at, at + 8));
    }
}

/// Whether `bytes` stand in main memory from a physical address on, and it is the same
/// everywhere else.
pub open spec fn is_written(
    before: Seq<u8>,
    p_address: u64,
    bytes: Seq<u8>,
    after: Seq<u8>,
) -> bool {
    let at = p_address - 0x8000_0000;
    &&& after.len() == before.len()
    &&& after.subrange(at, at + bytes.len()) == bytes
    &&& after.subrange(0, at) == before.subrange(0, at)
    &&& after.subrange(at + bytes.len(), before.len() as int) == before.subrange(
        at + bytes.len(),
        before.len() as int,
    )
}

/// Writing main memory at a physical address replaces the bytes there by those of the number,
/// and no others.
pub proof fn law_memory_writes(
    memory: &mut MemoryWrapper,
    p_address: u64,
    byte: u8,
    halfword: u16,
    word: u32,
    doubleword: u64,
)
    requires
        0x8000_0000 <= p_address,
    ensures
        ({
            let all = old(memory)@;
            let room = all.len() - (p_address - 0x8000_0000);
            &&& call_ensures(MemoryWrapper::write_byte, (memory, p_address, byte), ()) && 1
                <= room ==> is_written(all, p_address, seq![byte], final(memory)@)
            &&& call_ensures(MemoryWrapper::write_halfword, (memory, p_address, halfword), ())
                && 2 <= room ==> is_written(
                all,
                p_address,
                bytes_of_halfword(halfword),
                final(memory)@,
            )
            &&& call_ensures(MemoryWrapper::write_word, (memory, p_address, word), ()) && 4
                <= room ==> is_written(all, p_address, bytes_of_word(word), final(memory)@)
            &&& call_ensures(
                MemoryWrapper::write_doubleword,
                (memory, p_address, doubleword),
                (),
            ) && 8 <= room ==> is_written(
                all,
                p_address,
                bytes_of_doubleword(doubleword),
                final(memory)@,
            )
        }),
{
    let all = old(memory)@;
    let at = p_address - 0x8000_0000;
    lemma_bytes(halfword as u64);
    lemma_bytes(word as u64);
    lemma_bytes(doubleword);
    if at + 1 <= all.len() {
        assert(all.update(at, byte) =~= overwrite(all, at, seq![byte]));
        lemma_written(all, p_address, seq![byte]);
    }
    if at + 2 <= all.len() {
        lemma_written(all, p_address, bytes_of_halfword(halfword));
    }
    if at + 4 <= all.len() {
        lemma_written(all, p_address, bytes_of_word(word));
    }
    if at + 8 <= all.len() {
        lemma_written(all, p_address, bytes_of_doubleword(doubleword));
    }
}

proof fn lemma_written(before: Seq<u8>, p_address: u64, bytes: Seq<u8>)
    requires
        0x8000_0000 <= p_address,
        p_address - 0x8000_0000 + bytes.len() <= before.len(),
    ensures
        is_written(
            before,
            p_address,
            bytes,
            overwrite(before, p_address - 0x8000_0000, bytes),
        ),
{
    let at = p_address - 0x8000_0000;
    let after = overwrite(before, at, bytes);
    assert(after.subrange(at, at + bytes.len()) =~= bytes);
    assert(after.subrange(0, at) =~= before.subrange(0, at));
    assert(after.subrange(at + bytes.len(), before.len() as int) =~= before.subrange(
        at + bytes.len(),
        before.len() as int,
    ));
}

/// Privilege modes are decoded from their numbers.
pub proof fn law_get_privilege_mode(encoding: u64, mode: PrivilegeMode)
    requires
        encoding <= 3,
        call_ensures(get_privilege_mode, (encoding,), mode),
    ensures
        mode == PrivilegeMode::User <==> encoding == 0,
        mode == PrivilegeMode::Supervisor <==> encoding == 1,
        mode == PrivilegeMode::Reserved <==> encoding == 2,
        mode == PrivilegeMode::Machine <==> encoding == 3,
{
}

/// Addressing modes go by their names.
pub proof fn law_addressing_mode_names(mode: &AddressingMode, name: &'static str)
    requires
        call_ensures(_get_addressing_mode_name, (mode,), name),
    ensures
        *mode == AddressingMode::Bare ==> name@ == seq!['N', 'o', 'n', 'e'],
        *mode == AddressingMode::SV39 ==> name@ == seq!['S', 'V', '3', '9'],
        *mode == AddressingMode::SV48 ==> name@ == seq!['S', 'V', '4', '8'],
{
    crate::cycle_laws::law_addressing_modes_have_names();
}

} // verus!
