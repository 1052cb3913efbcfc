//! The control block of the transport on the device.
//!
//! The firmware places the control block at the symbol `_SEGGER_RTT`. A
//! 32-bit flag word at a fixed offset from its start tells the device what
//! to do when the host does not read fast enough.

use vstd::prelude::*;

verus! {

/// The offset of the mode flags from the start of the control block.
pub const MODE_FLAGS_OFFSET: u32 = 44;

/// What the device does when its buffer is full.
#[derive(Clone, Copy, Debug, PartialEq, Eq, Structural)]
pub enum RttMode {
    /// The device drops what does not fit.
    NonBlocking,
    /// The device waits for the host.
    Blocking,
}

/// The flag word that selects `mode`.
pub open spec fn mode_flag(mode: RttMode) -> u32 {
    match mode {
        RttMode::NonBlocking => 1,
        RttMode::Blocking => 2,
    }
}

/// The address of the mode flags of the control block at `rtt_addr`: the low
/// 32 bits of `rtt_addr` plus the offset, where that is an address of 32
/// bits.
pub open spec fn flags_address(rtt_addr: u64) -> Option<u32> {
    if rtt_addr % 0x1_0000_0000 + MODE_FLAGS_OFFSET <= u32::MAX {
        Some((rtt_addr % 0x1_0000_0000 + MODE_FLAGS_OFFSET) as u32)
    } else {
        None
    }
}

impl RttMode {
    /// The flag word that selects the mode.
    pub fn flag(self) -> (word: u32)
        ensures
            word == mode_flag(self),
    {
        match self {
            RttMode::NonBlocking => 1,
            RttMode::Blocking => 2,
        }
    }
}

/// The name of the symbol at which the control block lies.
pub fn control_block_symbol() -> (name: &'static str)
    ensures
        name@ == "_SEGGER_RTT"@,
{
    "_SEGGER_RTT"
}

/// The address of the mode flags of the control block at `rtt_addr`, or
/// `None` where the flags would lie beyond the 32-bit address space.
pub fn mode_flags_address(rtt_addr: u64) -> (address: Option<u32>)
    ensures
        address == flags_address(rtt_addr),
{
    let base: u32 = (rtt_addr % 0x1_0000_0000) as u32;
    if base <= u32::MAX - MODE_FLAGS_OFFSET {
        Some(base + MODE_FLAGS_OFFSET)
    } else {
        None
    }
}

} // verus!
