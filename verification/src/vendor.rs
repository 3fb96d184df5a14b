//! USB vendor ids, as reported by the OS.

use vstd::prelude::*;

verus! {

/// Sony Interactive Entertainment (DualShock, DualSense).
pub const SONY: u16 = 0x054C;

/// Microsoft (Xbox pads).
pub const MICROSOFT: u16 = 0x045E;

/// Nintendo (Switch Pro, Joy-Con).
pub const NINTENDO: u16 = 0x057E;

/// Valve (Steam Controller, Steam Deck).
pub const VALVE: u16 = 0x28DE;

/// 8BitDo.
pub const EIGHT_BITDO: u16 = 0x2DC8;

} // verus!
