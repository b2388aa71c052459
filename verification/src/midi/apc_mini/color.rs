//! Color codes documented for the APC mini.

use vstd::prelude::*;

verus! {

pub const OFF: u8 = 0;

pub const GREEN: u8 = 1;

pub const GREEN_BLINK: u8 = 2;

pub const RED: u8 = 3;

pub const RED_BLINK: u8 = 4;

pub const YELLOW: u8 = 5;

pub const YELLOW_BLINK: u8 = 6;

} // verus!
