//! Bit positions of the entry gates a strategy reports in its analytics:
//! each bit set marks a gate that blocked an entry.

use vstd::prelude::*;

verus! {

pub const PRICE_MIN: u16 = 1 << 0;
pub const PRICE_MAX: u16 = 1 << 1;
pub const SECONDS_LEFT: u16 = 1 << 2;
pub const CONVICTION: u16 = 1 << 3;
pub const OFI_OPPOSE: u16 = 1 << 4;
pub const GROSS_EXPOSURE: u16 = 1 << 5;
pub const EPOCH_LOSS_LIMIT: u16 = 1 << 6;
pub const HAS_TRADED: u16 = 1 << 7;
pub const CIRCUIT_BREAKER: u16 = 1 << 8;
pub const GTC_PENDING: u16 = 1 << 9;
pub const ENTRY_COOLDOWN: u16 = 1 << 10;

} // verus!
