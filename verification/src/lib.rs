//! Memory management unit of a 64-bit RISC-V machine.

pub mod access_laws;
pub mod address_map;
pub mod bus;
pub mod bus_laws;
pub mod call_laws;
pub mod cpu;
pub mod cycle_laws;
pub mod device;
pub mod dram;
pub mod endian;
pub mod laws;
pub mod memory;
pub mod mmu;
pub mod mode_laws;
pub mod model;
mod page_cache;
pub mod paged_laws;
pub mod sv39;
pub mod tables;
pub mod transfer_laws;
pub mod walk_laws;
