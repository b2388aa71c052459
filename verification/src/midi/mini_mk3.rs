//! Launchpad Mini MK3 driver.
//!
//! Grid pads in programmer mode are notes 11..=88 (8x8 layout, row stride 10).
//! Top row buttons are CCs 91..=98. Side column buttons are CCs 19/29/.../89.

use vstd::prelude::*;

use crate::config::ButtonRef;
use crate::midi::device::{self, Device, DeviceModel};
use crate::midi::parse;
use crate::midi::sysex_lighting::{self, ColorSpec, LedSpec, LightingSysex, MINI_MK3_BYTE};

verus! {

pub struct MiniMk3;

/// Rows and columns 1 to 8 of a layout with ten notes to a row.
pub open spec fn grid_note(note: u8) -> bool {
    1 <= note / 10 <= 8 && 1 <= note % 10 <= 8
}

/// The grid, row by row, every LED off.
pub open spec fn dark_grid() -> Seq<LedSpec> {
    Seq::new(
        64,
        |i: int|
            LedSpec { led_index: (10 * (i / 8 + 1) + i % 8 + 1) as u8, color: ColorSpec::Static(0) },
    )
}

/// The message that selects programmer mode.
pub open spec fn programmer_mode() -> Seq<u8> {
    seq![0xF0u8, 0x00, 0x20, 0x29, 0x02, 0x0D, 0x0E, 0x01, 0xF7]
}

impl Device for MiniMk3 {
    open spec fn model(&self) -> DeviceModel {
        DeviceModel {
            name: "Launchpad Mini MK3"@,
            grid_note: |note: u8| grid_note(note),
            // Top row and side strip CCs are never paged.
            grid_cc: |controller: u8| false,
            boot: seq![programmer_mode()],
            clear: seq![sysex_lighting::lighting_bytes(MINI_MK3_BYTE, dark_grid())],
            paint: |btn: ButtonRef, color: u8| device::button_bytes(btn, color),
            flash: 21,
            idle: 1,
        }
    }

    fn name(&self) -> &str {
        sysex_lighting::mini_mk3().name
    }

    fn is_grid_note(&self, note: u8) -> bool {
        let row = note / 10;
        let col = note % 10;
        1 <= row && row <= 8 && 1 <= col && col <= 8
    }

    fn is_grid_cc(&self, _controller: u8) -> bool {
        false
    }

    fn boot(&self) -> Vec<Vec<u8>> {
        // Switch to Programmer mode so SysEx LED control is live.
        let select: Vec<u8> = vec![0xF0, 0x00, 0x20, 0x29, 0x02, 0x0D, 0x0E, 0x01, 0xF7];
        let messages: Vec<Vec<u8>> = vec![select];
        assert(select@ =~= programmer_mode());
        assert(parse::views(messages@) =~= self.model().boot);
        messages
    }

    fn clear_all(&self) -> Vec<Vec<u8>> {
        // One Lighting SysEx that turns every grid LED off.
        let mut leds: Vec<LedSpec> = Vec::new();
        for i in 0..64u8
            invariant
                leds@ == dark_grid().take(i as int),
        {
            let led = LedSpec {
                led_index: 10 * (i / 8 + 1) + i % 8 + 1,
                color: ColorSpec::Static(0),
            };
            leds.push(led);
            assert(leds@ =~= dark_grid().take(i + 1));
        }
        assert(dark_grid().take(64) =~= dark_grid());
        let lighting = LightingSysex { model: sysex_lighting::mini_mk3(), leds };
        let message = lighting.emit();
        let messages: Vec<Vec<u8>> = vec![message];
        assert(parse::views(messages@) =~= self.model().clear);
        messages
    }

    fn paint_button(&self, btn: ButtonRef, color: u8) -> Vec<u8> {
        device::button_message(btn, color)
    }

    fn flash_color(&self) -> u8 {
        21  // green

    }

    fn idle_color(&self) -> u8 {
        1  // dim white

    }
}

} // verus!
