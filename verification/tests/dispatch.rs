use midi_pages::config::{ButtonRef, ColorConfig, DeviceConfig, Mode, PortMatch};
use midi_pages::dispatch::{payload, route, startup_messages, Route};
use midi_pages::midi::any_device::make_device;
use midi_pages::midi::device::Driver;
use midi_pages::midi::parse;
use midi_pages::proxy::{Out, Proxy};

fn device(driver: Driver) -> DeviceConfig {
    DeviceConfig {
        name: "test".into(),
        port_match: PortMatch::Simple("x".into()),
        driver,
        pages: 2,
        mode: Mode::PerPort,
        host_port_in: None,
        host_port_out: None,
        note_offset: None,
        page_port_prefix: None,
        boot_sysex: None,
        next_page_button: Some(ButtonRef::Cc { number: 91 }),
        previous_page_button: None,
        page_buttons: vec![],
        page_buttons_hold_to_preview: false,
        colors: ColorConfig::default(),
        global_buttons: vec![],
    }
}

#[test]
fn messages_are_routed_by_mode() {
    let to_host = Out::ToHost(vec![1]);
    let to_page = Out::ToHostPage {
        page: 1,
        bytes: vec![2],
    };
    let to_device = Out::ToDevice(vec![3]);
    let later = Out::DeviceDelayedSend {
        delay_ms: 200,
        bytes: vec![4],
    };
    assert_eq!(route(Mode::NoteOffset, 1, &to_host), Route::Host);
    assert_eq!(route(Mode::PerPort, 2, &to_host), Route::WrongMode);
    assert_eq!(route(Mode::NoteOffset, 1, &to_page), Route::WrongMode);
    assert_eq!(route(Mode::PerPort, 2, &to_page), Route::HostPage(1));
    assert_eq!(route(Mode::PerPort, 1, &to_page), Route::NoPort);
    for mode in [Mode::PerPort, Mode::NoteOffset] {
        assert_eq!(route(mode, 0, &to_device), Route::Device);
        assert_eq!(route(mode, 0, &later), Route::DeviceLater(200));
    }
    assert_eq!(payload(&to_host), &vec![1]);
    assert_eq!(payload(&to_page), &vec![2]);
    assert_eq!(payload(&to_device), &vec![3]);
    assert_eq!(payload(&later), &vec![4]);
}

#[test]
fn every_message_of_a_step_has_a_route() {
    let cfg = device(Driver::ApcMini);
    let mut p = Proxy::new(&cfg, make_device(cfg.driver));
    let mut outs = p.handle_device_in(&parse::note_on(0, 5, 100));
    outs.extend(p.handle_device_in(&parse::cc(0, 91, 127)));
    assert!(outs.len() > 64);
    for out in &outs {
        let way = route(cfg.mode, 2, out);
        assert!(way != Route::WrongMode && way != Route::NoPort);
    }
}

#[test]
fn startup_sends_sysex_then_boot_then_buttons() {
    let mut cfg = device(Driver::MiniMk3);
    cfg.boot_sysex = Some(vec![0xF0, 0x7E, 0xF7]);
    let p = Proxy::new(&cfg, make_device(cfg.driver));
    assert_eq!(
        startup_messages(&cfg, &p),
        vec![
            vec![0xF0, 0x7E, 0xF7],
            vec![0xF0, 0x00, 0x20, 0x29, 0x02, 0x0D, 0x0E, 0x01, 0xF7],
            vec![0xB0, 91, 0],
        ]
    );
}
