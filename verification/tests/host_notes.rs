//! What the host hears of pads: messages passed on, and no note left open.

use std::collections::BTreeSet;

use midi_pages::config::{ButtonRef, ColorConfig, DeviceConfig, Mode, PageButton, PortMatch};
use midi_pages::midi::apc_mini::ApcMini;
use midi_pages::midi::device::Driver;
use midi_pages::midi::parse::{self, Msg};
use midi_pages::proxy::{Out, Proxy};

fn proxy(mode: Mode, pages: u8) -> Proxy<ApcMini> {
    let cfg = DeviceConfig {
        name: "APC".into(),
        port_match: PortMatch::Simple("APC MINI".into()),
        driver: Driver::ApcMini,
        pages,
        mode,
        host_port_in: None,
        host_port_out: None,
        note_offset: Some(64),
        page_port_prefix: None,
        boot_sysex: None,
        next_page_button: Some(ButtonRef::Note { number: 98 }),
        previous_page_button: Some(ButtonRef::Note { number: 99 }),
        page_buttons: vec![PageButton {
            button: ButtonRef::Cc { number: 1 },
            page: Some(0),
            hold_to_preview: Some(false),
        }],
        page_buttons_hold_to_preview: false,
        colors: ColorConfig::default(),
        global_buttons: vec![],
    };
    Proxy::new(&cfg, Box::new(ApcMini))
}

/// The notes that the host has open, by port, channel and number.
struct Host(BTreeSet<(Option<u8>, u8, u8)>);

impl Host {
    fn hear(&mut self, outs: &[Out]) {
        for out in outs {
            let (port, bytes) = match out {
                Out::ToHost(bytes) => (None, bytes),
                Out::ToHostPage { page, bytes } => (Some(*page), bytes),
                _ => continue,
            };
            match parse::classify(bytes) {
                Msg::NoteOn { channel, note, .. } => {
                    self.0.insert((port, channel, note));
                }
                Msg::NoteOff { channel, note, .. } => {
                    self.0.remove(&(port, channel, note));
                }
                _ => {}
            }
        }
    }

    fn open(&self) -> Vec<(Option<u8>, u8, u8)> {
        self.0.iter().copied().collect()
    }
}

fn to_host(outs: &[Out]) -> Vec<Out> {
    outs.iter()
        .filter(|out| matches!(out, Out::ToHost(_) | Out::ToHostPage { .. }))
        .cloned()
        .collect()
}

#[test]
fn release_as_note_on_at_velocity_zero_is_forwarded_unchanged_per_port() {
    let mut p = proxy(Mode::PerPort, 4);
    p.handle_device_in(&[0x90, 5, 100]);
    assert_eq!(
        p.handle_device_in(&[0x90, 5, 0]),
        vec![Out::ToHostPage { page: 0, bytes: vec![0x90, 5, 0] }]
    );
    assert!(p.held.is_empty());
}

#[test]
fn everything_but_navigation_is_forwarded_unchanged_per_port() {
    let mut p = proxy(Mode::PerPort, 4);
    p.change_page_to(2);
    let messages: [&[u8]; 7] = [
        &[0x93, 5, 100],
        &[0x83, 5, 64],
        &[0x90, 70, 1],
        &[0xB4, 48, 9],
        &[0xF0, 1, 2, 0xF7],
        &[0xE0, 1, 2],
        &[],
    ];
    for bytes in messages {
        assert_eq!(
            p.handle_device_in(bytes),
            vec![Out::ToHostPage { page: 2, bytes: bytes.to_vec() }]
        );
    }
}

#[test]
fn release_as_note_on_is_a_note_off_in_note_offset_mode() {
    let mut p = proxy(Mode::NoteOffset, 2);
    p.change_page_to(1);
    assert_eq!(
        p.handle_device_in(&[0x92, 5, 100]),
        vec![Out::ToHost(vec![0x92, 69, 100])]
    );
    assert_eq!(
        p.handle_device_in(&[0x92, 5, 0]),
        vec![Out::ToHost(vec![0x82, 69, 0])]
    );
}

#[test]
fn held_pad_is_let_go_on_the_channel_of_its_press() {
    let mut p = proxy(Mode::PerPort, 4);
    p.handle_device_in(&[0x93, 5, 100]);
    p.handle_device_in(&[0x90, 6, 100]);
    let outs = p.handle_device_in(&[0x90, 98, 127]);
    assert_eq!(
        to_host(&outs),
        vec![
            Out::ToHostPage { page: 0, bytes: vec![0x83, 5, 0] },
            Out::ToHostPage { page: 0, bytes: vec![0x80, 6, 0] },
        ]
    );
    assert_eq!(p.handle_device_in(&[0x83, 5, 0]), vec![]);
}

#[test]
fn open_notes_are_the_pads_held_on_the_page_shown() {
    for mode in [Mode::PerPort, Mode::NoteOffset] {
        let mut p = proxy(mode, 2);
        let mut host = Host(BTreeSet::new());
        let note = |page: u8, channel: u8, pad: u8| match mode {
            Mode::PerPort => (Some(page), channel, pad),
            Mode::NoteOffset => (None, channel, pad + 64 * page),
        };
        host.hear(&p.handle_device_in(&[0x93, 5, 100]));
        host.hear(&p.handle_device_in(&[0x90, 6, 100]));
        assert_eq!(host.open(), {
            let mut open = vec![note(0, 3, 5), note(0, 0, 6)];
            open.sort();
            open
        });
        // Turning to another page lets both go.
        host.hear(&p.handle_device_in(&[0x90, 98, 127]));
        assert_eq!(host.open(), vec![]);
        // One comes up unheard, and is pressed again on the new page.
        host.hear(&p.handle_device_in(&[0x83, 5, 0]));
        host.hear(&p.handle_device_in(&[0x93, 5, 80]));
        assert_eq!(host.open(), vec![note(1, 3, 5)]);
        // What the host sends changes nothing.
        match mode {
            Mode::PerPort => host.hear(&p.handle_host_in_per_port(1, &[0x90, 7, 1])),
            Mode::NoteOffset => host.hear(&p.handle_host_in(&[0x90, 7, 1])),
        }
        assert_eq!(host.open(), vec![note(1, 3, 5)]);
        // A tap on a page button lets it go.
        host.hear(&p.handle_device_in(&[0xB0, 1, 127]));
        assert_eq!(host.open(), vec![]);
        host.hear(&p.handle_device_in(&[0x80, 6, 0]));
        host.hear(&p.handle_device_in(&[0x83, 5, 0]));
        assert_eq!(host.open(), vec![]);
        assert!(p.held.is_empty());
        assert!(p.suppressed_releases.is_empty());
    }
}

#[test]
fn no_more_pads_are_held_than_the_grid_has() {
    let mut p = proxy(Mode::PerPort, 2);
    for note in 0..128u8 {
        if note != 98 && note != 99 {
            p.handle_device_in(&[0x90, note, 1]);
        }
    }
    assert_eq!(p.held.len(), 64);
}
