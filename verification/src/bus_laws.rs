//! What the physical address space is made of: where each part of the machine answers,
//! that accesses reach it at that very address, and how numbers lie in it.
use crate::address_map::{address_after, region, Region};
use crate::bus::{all_loadable, all_storable, loadable, storable, Bus};
use crate::device::{Clint, Plic, Uart, VirtioBlockDisk};
use crate::dram::holds;
use crate::endian::{le_bytes, le_value, lemma_weight_step, lemma_weights, weight};
use crate::memory::overwrite;
use vstd::prelude::*;

verus! {

/// The parts of the machine have fixed and disjoint address ranges: the device tree
/// 0x1020 to 0x1fff, the CLINT 64 KiB from 0x2000000 on, the PLIC 64 MiB from 0xc000000
/// on, the UART 256 bytes from 0x10000000 on, the disk 4 KiB from 0x10001000 on, and main
/// memory everything from 2 GiB on.
pub proof fn law_regions(p_address: u64)
    ensures
        region(p_address) == Region::DeviceTree <==> 0x1020 <= p_address < 0x2000,
        region(p_address) == Region::Clint <==> 0x0200_0000 <= p_address < 0x0201_0000,
        region(p_address) == Region::Plic <==> 0x0c00_0000 <= p_address < 0x1000_0000,
        region(p_address) == Region::Uart <==> 0x1000_0000 <= p_address < 0x1000_0100,
        region(p_address) == Region::Disk <==> 0x1000_1000 <= p_address < 0x1000_2000,
        region(p_address) == Region::Dram <==> 0x8000_0000 <= p_address,
{
}

/// A byte can be loaded wherever a device, the device tree or main memory of `size` bytes
/// answers, and nowhere else. It can be stored there too, except in the device tree. Main
/// memory holds the bytes from 2 GiB on.
pub proof fn law_served_addresses(size: nat, p_address: u64)
    ensures
        storable(size, p_address) <==> {
            ||| 0x0200_0000 <= p_address < 0x0201_0000
            ||| 0x0c00_0000 <= p_address < 0x1000_0100
            ||| 0x1000_1000 <= p_address < 0x1000_2000
            ||| 0x8000_0000 <= p_address < 0x8000_0000 + size
        },
        loadable(size, p_address) <==> {
            ||| 0x1020 <= p_address < 0x2000
            ||| storable(size, p_address)
        },
        forall|width: nat| #[trigger]
            holds(size, p_address, width) <==> 0x8000_0000 <= p_address && p_address + width
                <= 0x8000_0000 + size,
{
}

/// Addresses go up by one, and start over behind the last one.
pub proof fn law_addresses_wrap_around(address: u64, i: int)
    requires
        0 <= i <= u64::MAX,
    ensures
        address_after(address, 0) == address,
        address_after(address, i) as int == (if address + i <= u64::MAX {
            address + i
        } else {
            address + i - u64::MAX - 1
        }),
{
}

/// Bytes can be loaded or stored together exactly if each of them can: one more byte asks
/// for its own address in addition.
pub proof fn law_served_ranges(size: nat, p_address: u64, width: nat)
    requires
        width <= u64::MAX,
    ensures
        all_loadable(size, p_address, 0),
        all_storable(size, p_address, 0),
        ({
            let next = if p_address + width <= u64::MAX {
                (p_address + width) as u64
            } else {
                (p_address + width - u64::MAX - 1) as u64
            };
            &&& all_loadable(size, p_address, width + 1) == (all_loadable(
                size,
                p_address,
                width,
            ) && loadable(size, next))
            &&& all_storable(size, p_address, width + 1) == (all_storable(
                size,
                p_address,
                width,
            ) && storable(size, next))
        }),
{
    law_addresses_wrap_around(p_address, width as int);
}

/// A load at an address of a device is a load from that device at that very address, and
/// changes nothing else. Loads from main memory and from the device tree return the byte
/// there and change nothing.
pub proof fn law_loads_reach<C: Clint, P: Plic, U: Uart, D: VirtioBlockDisk>(
    bus: Bus<C, P, U, D>,
    p_address: u64,
)
    ensures
        0x1020 <= p_address < 0x2000 ==> bus.load(p_address) == (
            bus.dtb[p_address - 0x1020],
            bus,
        ),
        0x0200_0000 <= p_address < 0x0201_0000 ==> bus.load(p_address) == (
            bus.clint.after_load(p_address).0,
            Bus { clint: bus.clint.after_load(p_address).1, ..bus },
        ),
        0x0c00_0000 <= p_address < 0x1000_0000 ==> bus.load(p_address) == (
            bus.plic.after_load(p_address).0,
            Bus { plic: bus.plic.after_load(p_address).1, ..bus },
        ),
        0x1000_0000 <= p_address < 0x1000_0100 ==> bus.load(p_address) == (
            bus.uart.after_load(p_address).0,
            Bus { uart: bus.uart.after_load(p_address).1, ..bus },
        ),
        0x1000_1000 <= p_address < 0x1000_2000 ==> bus.load(p_address) == (
            bus.disk.after_load(p_address).0,
            Bus { disk: bus.disk.after_load(p_address).1, ..bus },
        ),
        0x8000_0000 <= p_address ==> bus.load(p_address) == (
            bus.memory[p_address - 0x8000_0000],
            bus,
        ),
{
}

/// A store at an address of a device is a store to that device at that very address, and
/// changes nothing else. A store to main memory replaces the byte there and no other.
pub proof fn law_stores_reach<C: Clint, P: Plic, U: Uart, D: VirtioBlockDisk>(
    bus: Bus<C, P, U, D>,
    p_address: u64,
    value: u8,
)
    ensures
        0x0200_0000 <= p_address < 0x0201_0000 ==> bus.store(p_address, value) == (Bus {
            clint: bus.clint.after_store(p_address, value),
            ..bus
        }),
        0x0c00_0000 <= p_address < 0x1000_0000 ==> bus.store(p_address, value) == (Bus {
            plic: bus.plic.after_store(p_address, value),
            ..bus
        }),
        0x1000_0000 <= p_address < 0x1000_0100 ==> bus.store(p_address, value) == (Bus {
            uart: bus.uart.after_store(p_address, value),
            ..bus
        }),
        0x1000_1000 <= p_address < 0x1000_2000 ==> bus.store(p_address, value) == (Bus {
            disk: bus.disk.after_store(p_address, value),
            ..bus
        }),
        0x8000_0000 <= p_address < 0x8000_0000 + bus.memory.len() ==> bus.store(p_address, value)
            == (Bus { memory: bus.memory.update(p_address - 0x8000_0000, value), ..bus }),
{
    if 0x8000_0000 <= p_address < 0x8000_0000 + bus.memory.len() {
        assert(bus.store(p_address, value).memory =~= bus.memory.update(
            p_address - 0x8000_0000,
            value,
        ));
    }
}

/// Bytes are loaded and stored from the first address up: one more byte is loaded or
/// stored last, behind the others.
pub proof fn law_bytes_follow_each_other<C: Clint, P: Plic, U: Uart, D: VirtioBlockDisk>(
    bus: Bus<C, P, U, D>,
    p_address: u64,
    bytes: Seq<u8>,
    byte: u8,
)
    requires
        bytes.len() <= u64::MAX,
    ensures
        bus.load_all(p_address, 0) == (Seq::<u8>::empty(), bus),
        bus.store_all(p_address, Seq::<u8>::empty()) == bus,
        ({
            let next = if p_address + bytes.len() <= u64::MAX {
                (p_address + bytes.len()) as u64
            } else {
                (p_address + bytes.len() - u64::MAX - 1) as u64
            };
            let (low, middle) = bus.load_all(p_address, bytes.len());
            &&& bus.load_all(p_address, bytes.len() + 1) == (
                low.push(middle.load(next).0),
                middle.load(next).1,
            )
            &&& bus.store_all(p_address, bytes.push(byte)) == bus.store_all(
                p_address,
                bytes,
            ).store(next, byte)
        }),
{
    law_addresses_wrap_around(p_address, bytes.len() as int);
    assert(bytes.push(byte).drop_last() =~= bytes);
}

/// Writing bytes over others keeps how many there are, puts the new ones in place, and
/// keeps all others.
pub proof fn law_overwriting(contents: Seq<u8>, at: int, bytes: Seq<u8>, i: int)
    requires
        0 <= at,
        at + bytes.len() <= contents.len(),
        0 <= i < contents.len(),
    ensures
        overwrite(contents, at, bytes).len() == contents.len(),
        0 <= i - at < bytes.len() ==> overwrite(contents, at, bytes)[i] == bytes[i - at],
        i < at || at + bytes.len() <= i ==> overwrite(contents, at, bytes)[i] == contents[i],
{
}

/// Numbers lie in memory least significant byte first: the first byte of a number is what
/// is left of it divided by 256, and the bytes after it are the quotient.
pub proof fn law_numbers_are_little_endian(value: nat, width: nat)
    ensures
        le_bytes(value, 0).len() == 0,
        le_bytes(value, width + 1) == seq![(value % 256) as u8] + le_bytes(value / 256, width),
{
    lemma_weights();
    let all = le_bytes(value, width + 1);
    let parts = seq![(value % 256) as u8] + le_bytes(value / 256, width);
    assert forall|i: int| 0 <= i < all.len() implies all[i] == parts[i] by {
        if i > 0 {
            lemma_weight_step(i - 1);
            vstd::arithmetic::div_mod::lemma_div_denominator(
                value as int,
                256,
                weight(i - 1) as int,
            );
        } else {
            assert(value / weight(0) == value / 1);
        }
    }
    assert(all =~= parts);
}

/// A number is read from its bytes least significant byte first: each byte counts 256 times
/// as much as the one before it.
pub proof fn law_numbers_are_read_little_endian(first: u8, rest: Seq<u8>)
    ensures
        le_value(Seq::<u8>::empty()) == 0,
        le_value(seq![first] + rest) == first + 256 * le_value(rest),
    decreases rest.len(),
{
    lemma_weights();
    let all = seq![first] + rest;
    if rest.len() > 0 {
        let low = rest.drop_last();
        law_numbers_are_read_little_endian(first, low);
        assert(all.drop_last() =~= seq![first] + low);
        lemma_weight_step(rest.len() - 1);
        let w = weight(rest.len() - 1);
        let b = rest.last() as nat;
        assert(b * (256 * w) == 256 * (b * w)) by (nonlinear_arith);
    } else {
        reveal_with_fuel(le_value, 2);
        assert(all.drop_last() =~= Seq::empty());
    }
}

} // verus!
