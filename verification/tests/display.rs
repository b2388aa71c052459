//! What the device shows, told by a model of its LEDs that takes every message
//! the proxy sends.

use std::collections::BTreeMap;

use midi_pages::config::{ButtonRef, ColorConfig, DeviceConfig, Mode, PageButton, PortMatch};
use midi_pages::midi::any_device::{make_device, AnyDevice};
use midi_pages::midi::device::Driver;
use midi_pages::midi::parse::{self, Msg};
use midi_pages::midi::sysex_lighting::{mini_mk3, ColorSpec, LedSpec, LightingSysex};
use midi_pages::proxy::{LedCell, Out, Proxy};

/// The LEDs, by whether a controller addresses them and by their number.
struct Leds(BTreeMap<(bool, u8), LedCell>);

impl Leds {
    fn new() -> Self {
        Leds(BTreeMap::new())
    }

    fn take(&mut self, bytes: &[u8]) {
        match parse::classify(bytes) {
            Msg::NoteOn { channel, note, velocity } => {
                self.0.insert((false, note), LedCell::NoteOn { channel, velocity });
            }
            Msg::NoteOff { channel, note, .. } => {
                self.0.insert((false, note), LedCell::NoteOn { channel, velocity: 0 });
            }
            Msg::Cc { channel, controller, value } => {
                self.0.insert((true, controller), LedCell::Cc { channel, value });
            }
            Msg::SysEx(sysex) => {
                if let Ok(parsed) = LightingSysex::parse(sysex, mini_mk3()) {
                    for led in parsed.leds {
                        self.0.insert((false, led.led_index), LedCell::SysexColor(led.color));
                    }
                }
            }
            Msg::Other(_) => {}
        }
    }

    fn take_all(&mut self, outs: Vec<Out>) {
        for out in outs {
            if let Out::ToDevice(bytes) = out {
                self.take(&bytes);
            }
        }
    }

    fn note(&self, n: u8) -> Option<LedCell> {
        self.0.get(&(false, n)).copied()
    }

    fn cc(&self, c: u8) -> Option<LedCell> {
        self.0.get(&(true, c)).copied()
    }

    fn is_dark(&self, n: u8) -> bool {
        matches!(
            self.note(n),
            Some(LedCell::NoteOn { velocity: 0, .. }) | Some(LedCell::SysexColor(ColorSpec::Static(0)))
        )
    }
}

fn proxy(driver: Driver, mode: Mode, globals: Vec<ButtonRef>) -> Proxy<AnyDevice> {
    let cfg = DeviceConfig {
        name: "Grid".into(),
        port_match: PortMatch::Simple("Grid".into()),
        driver,
        pages: 2,
        mode,
        host_port_in: None,
        host_port_out: None,
        note_offset: Some(64),
        page_port_prefix: None,
        boot_sysex: None,
        next_page_button: Some(ButtonRef::Cc { number: 91 }),
        previous_page_button: Some(ButtonRef::Cc { number: 92 }),
        page_buttons: vec![PageButton {
            button: ButtonRef::Cc { number: 93 },
            page: Some(1),
            hold_to_preview: Some(true),
        }],
        page_buttons_hold_to_preview: false,
        colors: ColorConfig::default(),
        global_buttons: globals,
    };
    Proxy::new(&cfg, make_device(driver))
}

#[test]
fn page_change_shows_exactly_what_the_host_wrote() {
    let mut p = proxy(Driver::MiniMk3, Mode::PerPort, vec![]);
    let mut leds = Leds::new();
    let color = LightingSysex {
        model: mini_mk3(),
        leds: vec![
            LedSpec { led_index: 22, color: ColorSpec::Static(5) },
            LedSpec { led_index: 22, color: ColorSpec::Rgb { r: 1, g: 2, b: 3 } },
        ],
    }
    .emit();
    leds.take_all(p.handle_host_in_per_port(0, &[0x90, 11, 7]));
    leds.take_all(p.handle_host_in_per_port(1, &[0x91, 11, 9]));
    leds.take_all(p.handle_host_in_per_port(1, &color));
    leds.take_all(p.handle_host_in_per_port(1, &[0xB0, 19, 40]));
    leds.take_all(p.handle_host_in_per_port(1, &[0x90, 33, 3]));
    leds.take_all(p.handle_host_in_per_port(1, &[0x80, 33, 0]));

    leds.take_all(p.handle_device_in(&[0xB0, 91, 127]));
    assert_eq!(leds.note(11), Some(LedCell::NoteOn { channel: 1, velocity: 9 }));
    assert_eq!(
        leds.note(22),
        Some(LedCell::SysexColor(ColorSpec::Rgb { r: 1, g: 2, b: 3 }))
    );
    assert_eq!(leds.cc(19), Some(LedCell::Cc { channel: 0, value: 40 }));
    assert_eq!(leds.note(33), Some(LedCell::NoteOn { channel: 0, velocity: 0 }));
    assert!(leds.is_dark(44));

    leds.take_all(p.handle_device_in(&[0xB0, 92, 127]));
    assert_eq!(leds.note(11), Some(LedCell::NoteOn { channel: 0, velocity: 7 }));
    assert!(leds.is_dark(22));
    assert!(leds.is_dark(33));
}

#[test]
fn every_pad_of_both_devices_goes_dark_on_an_empty_page() {
    let mut p = proxy(Driver::MiniMk3, Mode::PerPort, vec![]);
    let mut leds = Leds::new();
    leds.take_all(p.change_page_to(1));
    for row in 1..=8u8 {
        for column in 1..=8u8 {
            assert!(leds.is_dark(10 * row + column));
        }
    }
    let mut p = proxy(Driver::ApcMini, Mode::PerPort, vec![]);
    let mut leds = Leds::new();
    leds.take_all(p.change_page_to(1));
    for pad in 0..64u8 {
        assert!(leds.is_dark(pad));
    }
}

#[test]
fn display_follows_the_host_in_note_offset_mode() {
    let mut p = proxy(Driver::ApcMini, Mode::NoteOffset, vec![]);
    let mut leds = Leds::new();
    leds.take_all(p.change_page_to(1));
    leds.take_all(p.handle_host_in(&[0x90, 64 + 5, 3]));
    leds.take_all(p.handle_host_in(&[0x90, 5, 1]));
    assert_eq!(leds.note(5), Some(LedCell::NoteOn { channel: 0, velocity: 3 }));
    leds.take_all(p.change_page_to(0));
    assert_eq!(leds.note(5), Some(LedCell::NoteOn { channel: 0, velocity: 1 }));
    leds.take_all(p.handle_host_in(&[0x80, 5, 0]));
    assert!(leds.is_dark(5));
}

#[test]
fn global_led_is_shown_on_every_page() {
    let global = ButtonRef::Note { number: 11 };
    let mut p = proxy(Driver::MiniMk3, Mode::PerPort, vec![global]);
    let mut leds = Leds::new();
    leds.take_all(p.handle_host_in_per_port(0, &[0x90, 11, 21]));
    leds.take_all(p.change_page_to(1));
    assert_eq!(leds.note(11), Some(LedCell::NoteOn { channel: 0, velocity: 21 }));
    leds.take_all(p.change_page_to(0));
    assert_eq!(leds.note(11), Some(LedCell::NoteOn { channel: 0, velocity: 21 }));
}

#[test]
fn preview_shows_its_page_and_gives_the_other_back() {
    let mut p = proxy(Driver::MiniMk3, Mode::PerPort, vec![]);
    let mut leds = Leds::new();
    leds.take_all(p.change_page_to(0));
    leds.take_all(p.handle_host_in_per_port(0, &[0x90, 55, 7]));
    leds.take_all(p.handle_host_in_per_port(1, &[0x90, 55, 9]));
    leds.take_all(p.handle_device_in(&[0xB0, 93, 127]));
    assert_eq!(leds.note(55), Some(LedCell::NoteOn { channel: 0, velocity: 9 }));
    leds.take_all(p.handle_device_in(&[0xB0, 93, 0]));
    assert_eq!(leds.note(55), Some(LedCell::NoteOn { channel: 0, velocity: 7 }));
}

#[test]
fn late_end_of_a_flash_lights_no_pad() {
    let mut p = proxy(Driver::ApcMini, Mode::PerPort, vec![]);
    let mut leds = Leds::new();
    let outs = p.handle_device_in(&[0xB0, 91, 127]);
    let late: Vec<Vec<u8>> = outs
        .iter()
        .filter_map(|out| match out {
            Out::DeviceDelayedSend { delay_ms: 200, bytes } => Some(bytes.clone()),
            _ => None,
        })
        .collect();
    leds.take_all(outs);
    assert_eq!(late, vec![vec![0xB0, 91, 0]]);
    leds.take(&late[0]);
    for pad in 0..64u8 {
        assert!(leds.is_dark(pad));
    }
    assert_eq!(leds.cc(91), Some(LedCell::Cc { channel: 0, value: 0 }));
}
