# riscv_mmu

The memory management unit of a 64-bit RISC-V machine, verified with Verus: the
physical address map, Sv39 address translation with its page caches, and loads, stores
and fetches through it.

The devices are the machine's business. `Mmu` is generic over them, and `src/device.rs`
says what a CLINT, a PLIC, a UART and a block disk have to offer. `EmptySlot` stands for
a device that is not fitted. The default content of the device tree is an argument of
`Mmu::new`.

| Module | Contents |
| --- | --- |
| `mmu` | `Mmu`, the executable unit; each method is stated as a step of the model |
| `model` | the state of the unit, and what translations, loads and stores do to it |
| `bus` | the part of the state that has physical addresses, and byte accesses to it |
| `sv39` | page table entries and the walk through page tables |
| `tables` | page tables that lie in main memory or in the device tree |
| `address_map`, `dram`, `memory`, `endian` | regions, main memory, little-endian numbers |
| `cpu`, `device` | privilege modes and traps, device interfaces |
| `page_cache` | the operations on `FnvHashMap`; lookup and insertion are taken on trust |
| `laws`, `access_laws`, `paged_laws` | what holds across calls |

Methods ask for addresses that the machine can serve (`can_load`, `can_store`,
`can_translate`): an access that would leave main memory, or reach a physical address
that nothing answers at, is for the caller to avoid.
