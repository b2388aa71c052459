//! The device of a driver that is known only at run time.

use vstd::prelude::*;

use crate::config::ButtonRef;
use crate::midi::apc_mini::ApcMini;
use crate::midi::device::{Device, DeviceModel, Driver};
use crate::midi::mini_mk3::{self, MiniMk3};
use crate::midi::sysex_lighting::{self, ColorSpec, LedSpec};
use crate::midi::wire;

verus! {

/// Any of the devices that there is a driver for.
pub enum AnyDevice {
    MiniMk3(MiniMk3),
    ApcMini(ApcMini),
}

impl Device for AnyDevice {
    open spec fn model(&self) -> DeviceModel {
        match self {
            AnyDevice::MiniMk3(device) => device.model(),
            AnyDevice::ApcMini(device) => device.model(),
        }
    }

    fn name(&self) -> &str {
        match self {
            AnyDevice::MiniMk3(device) => device.name(),
            AnyDevice::ApcMini(device) => device.name(),
        }
    }

    fn is_grid_note(&self, note: u8) -> bool {
        match self {
            AnyDevice::MiniMk3(device) => device.is_grid_note(note),
            AnyDevice::ApcMini(device) => device.is_grid_note(note),
        }
    }

    fn is_grid_cc(&self, controller: u8) -> bool {
        match self {
            AnyDevice::MiniMk3(device) => device.is_grid_cc(controller),
            AnyDevice::ApcMini(device) => device.is_grid_cc(controller),
        }
    }

    fn boot(&self) -> Vec<Vec<u8>> {
        match self {
            AnyDevice::MiniMk3(device) => device.boot(),
            AnyDevice::ApcMini(device) => device.boot(),
        }
    }

    fn clear_all(&self) -> Vec<Vec<u8>> {
        match self {
            AnyDevice::MiniMk3(device) => device.clear_all(),
            AnyDevice::ApcMini(device) => device.clear_all(),
        }
    }

    fn paint_button(&self, btn: ButtonRef, color: u8) -> Vec<u8> {
        match self {
            AnyDevice::MiniMk3(device) => device.paint_button(btn, color),
            AnyDevice::ApcMini(device) => device.paint_button(btn, color),
        }
    }

    fn flash_color(&self) -> u8 {
        match self {
            AnyDevice::MiniMk3(device) => device.flash_color(),
            AnyDevice::ApcMini(device) => device.flash_color(),
        }
    }

    fn idle_color(&self) -> u8 {
        match self {
            AnyDevice::MiniMk3(device) => device.idle_color(),
            AnyDevice::ApcMini(device) => device.idle_color(),
        }
    }
}

/// The device that a driver is for.
pub fn make_device(driver: Driver) -> (device: Box<AnyDevice>)
    ensures
        *device == match driver {
            Driver::MiniMk3 => AnyDevice::MiniMk3(MiniMk3),
            Driver::ApcMini => AnyDevice::ApcMini(ApcMini),
        },
{
    match driver {
        Driver::MiniMk3 => Box::new(AnyDevice::MiniMk3(MiniMk3)),
        Driver::ApcMini => Box::new(AnyDevice::ApcMini(ApcMini)),
    }
}

/// The pads of the Mini MK3 are the notes `10 * row + column`, rows and columns from one to
/// eight; those of the APC mini are the notes below 64. No controller is one.
pub proof fn law_pads_of_both_devices(mini: MiniMk3, apc: ApcMini, row: int, column: int, n: u8)
    ensures
        1 <= row <= 8 && 1 <= column <= 8 ==> (mini.model().grid_note)(
            (10 * row + column) as u8,
        ),
        (mini.model().grid_note)(n) ==> exists|r: int, c: int|
            1 <= r <= 8 && 1 <= c <= 8 && n == #[trigger] place(r, c),
        (apc.model().grid_note)(n) <==> n < 64,
        !(mini.model().grid_cc)(n),
        !(apc.model().grid_cc)(n),
{
    if (mini.model().grid_note)(n) {
        let r = (n / 10) as int;
        let c = (n % 10) as int;
        assert(n == place(r, c));
    }
}

/// The note of a place on the grid of the Mini MK3.
pub open spec fn place(row: int, column: int) -> int {
    10 * row + column
}

/// Which colors navigation buttons have without any set: green and dim white on the Mini
/// MK3, green and off on the APC mini; and how the devices are made ready.
pub proof fn law_colors_and_boot_of_both_devices(mini: MiniMk3, apc: ApcMini)
    ensures
        mini.model().flash == 21,
        mini.model().idle == 1,
        apc.model().flash == 1,
        apc.model().idle == 0,
        mini.model().boot == seq![
            seq![0xF0u8, 0x00, 0x20, 0x29, 0x02, 0x0D, 0x0E, 0x01, 0xF7],
        ],
        apc.model().boot == Seq::<Seq<u8>>::empty(),
{
}

/// A driver is for the device of its name.
pub proof fn law_drivers_are_for_their_devices(driver: Driver, device: Box<AnyDevice>)
    requires
        call_ensures(make_device, (driver,), device),
    ensures
        driver == Driver::MiniMk3 <==> *device is MiniMk3,
        driver == Driver::ApcMini <==> *device is ApcMini,
        *device matches AnyDevice::MiniMk3(mini) ==> device.model() == mini.model(),
        *device matches AnyDevice::ApcMini(apc) ==> device.model() == apc.model(),
{
}

/// Clearing the Mini MK3 is one Lighting SysEx that turns each pad off, row by row; clearing
/// the APC mini is a Note On at velocity zero for each pad in turn.
pub proof fn law_clearing_turns_each_pad_off_once(
    mini: MiniMk3,
    apc: ApcMini,
    row: int,
    column: int,
    n: u8,
)
    ensures
        ({
            let clear = mini.model().clear;
            let entries = sysex_lighting::lighting_entries(clear[0], 0x0D);
            &&& clear.len() == 1
            &&& entries is Ok
            &&& entries.unwrap().len() == 64
            &&& 1 <= row <= 8 && 1 <= column <= 8 ==> entries.unwrap()[8 * (row - 1) + column - 1]
                == (LedSpec { led_index: place(row, column) as u8, color: ColorSpec::Static(0) })
        }),
        apc.model().clear.len() == 64,
        n < 64 ==> apc.model().clear[n as int] == seq![0x90u8, n, 0],
{
    let dark = mini_mk3::dark_grid();
    sysex_lighting::law_emitted_lighting_parses_back(0x0D, dark);
    if 1 <= row <= 8 && 1 <= column <= 8 {
        let i = 8 * (row - 1) + column - 1;
        assert(i / 8 == row - 1 && i % 8 == column - 1);
    }
    if n < 64 {
        wire::law_short_messages_on_the_wire(0, n, 0);
        lemma_small(n);
        assert(apc.model().clear[n as int] =~= seq![0x90u8, n, 0]);
    }
}

proof fn lemma_small(n: u8)
    by (bit_vector)
    ensures
        n < 64 ==> n & 0x7F == n,
        0u8 & 0x7F == 0,
        0x90u8 | (0u8 & 0x0F) == 0x90,
{
}

} // verus!
