//! Akai APC mini driver.
//!
//! Grid pads are notes 0..=63 (8x8). LED color is set by the velocity of a
//! Note On message:
//!
//! | velocity | color           |
//! |---------:|-----------------|
//! |        0 | off             |
//! |        1 | green           |
//! |        2 | green blink     |
//! |        3 | red             |
//! |        4 | red blink       |
//! |        5 | yellow          |
//! |        6 | yellow blink    |

pub mod color;

use vstd::prelude::*;

use crate::config::ButtonRef;
use crate::midi::device::{self, Device, DeviceModel};
use crate::midi::parse;

verus! {

pub struct ApcMini;

/// A Note On that turns an LED off, for each pad of the grid in turn.
pub open spec fn dark_grid() -> Seq<Seq<u8>> {
    Seq::new(64, |i: int| parse::note_on_bytes(0, i as u8, color::OFF))
}

impl Device for ApcMini {
    open spec fn model(&self) -> DeviceModel {
        DeviceModel {
            name: "APC mini"@,
            grid_note: |note: u8| note < 64,
            grid_cc: |controller: u8| false,
            boot: seq![],
            clear: dark_grid(),
            paint: |btn: ButtonRef, color: u8| device::button_bytes(btn, color),
            flash: color::GREEN,
            idle: color::OFF,
        }
    }

    fn name(&self) -> &str {
        "APC mini"
    }

    fn is_grid_note(&self, note: u8) -> bool {
        note < 64
    }

    fn is_grid_cc(&self, _controller: u8) -> bool {
        false
    }

    fn boot(&self) -> Vec<Vec<u8>> {
        let messages: Vec<Vec<u8>> = Vec::new();
        assert(parse::views(messages@) =~= self.model().boot);
        messages
    }

    fn clear_all(&self) -> Vec<Vec<u8>> {
        let mut messages: Vec<Vec<u8>> = Vec::new();
        assert(parse::views(messages@) =~= dark_grid().take(0));
        for n in 0..64u8
            invariant
                parse::views(messages@) == dark_grid().take(n as int),
        {
            let bytes = device::bytes_of(parse::note_on(0, n, color::OFF));
            let ghost before = messages@;
            messages.push(bytes);
            proof {
                parse::lemma_views_push(before, bytes);
                assert(parse::views(messages@) =~= dark_grid().take(n + 1));
            }
        }
        assert(dark_grid().take(64) =~= dark_grid());
        messages
    }

    fn paint_button(&self, btn: ButtonRef, color: u8) -> Vec<u8> {
        device::button_message(btn, color)
    }

    fn flash_color(&self) -> u8 {
        color::GREEN
    }

    fn idle_color(&self) -> u8 {
        color::OFF
    }
}

} // verus!
