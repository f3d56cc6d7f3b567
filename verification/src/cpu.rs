//! What the memory management unit shares with the processor: privilege modes and
//! the traps it raises.
use vstd::prelude::*;

verus! {

/// Privilege modes of the processor.
#[derive(Clone, Copy, Debug, PartialEq, Eq, Structural)]
pub enum PrivilegeMode {
    User,
    Supervisor,
    Reserved,
    Machine,
}

/// The exceptions that an access through the memory management unit can raise.
#[derive(Clone, Copy, Debug, PartialEq, Eq, Structural)]
pub enum TrapType {
    InstructionPageFault,
    LoadPageFault,
    StorePageFault,
}

/// A raised exception. `value` is the virtual address whose access failed.
#[derive(Clone, Copy, Debug, PartialEq, Eq, Structural)]
pub struct Trap {
    pub trap_type: TrapType,
    pub value: u64,
}

/// The privilege mode that a two-bit encoding stands for.
pub open spec fn privilege_of(encoding: u64) -> PrivilegeMode {
    if encoding == 0 {
        PrivilegeMode::User
    } else if encoding == 1 {
        PrivilegeMode::Supervisor
    } else if encoding == 2 {
        PrivilegeMode::Reserved
    } else {
        PrivilegeMode::Machine
    }
}

/// Decodes a two-bit privilege mode, as the `MPP` field of `mstatus` holds it.
pub fn get_privilege_mode(encoding: u64) -> (mode: PrivilegeMode)
    requires
        encoding <= 3,
    ensures
        mode == privilege_of(encoding),
{
    match encoding {
        0 => PrivilegeMode::User,
        1 => PrivilegeMode::Supervisor,
        2 => PrivilegeMode::Reserved,
        _ => PrivilegeMode::Machine,
    }
}

} // verus!
