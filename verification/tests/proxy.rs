use midi_pages::config::{
    ButtonRef, ColorConfig, DeviceConfig, Mode, PageButton, PortMatch,
};
use midi_pages::midi::apc_mini::ApcMini;
use midi_pages::midi::device::{Device, Driver};
use midi_pages::midi::mini_mk3::MiniMk3;
use midi_pages::midi::parse;
use midi_pages::midi::sysex_lighting::{mini_mk3, ColorSpec, LedSpec, LightingSysex};
use midi_pages::proxy::{CacheKey, LedCell, Out, Proxy};

/// A page button that is not pinned, with the device's hold setting.
fn page_button(button: ButtonRef) -> PageButton {
    PageButton {
        button,
        page: None,
        hold_to_preview: None,
    }
}

fn cfg_mini(pages: u8, mode: Mode) -> DeviceConfig {
    DeviceConfig {
        name: "Mini".into(),
        port_match: PortMatch::Simple("Launchpad Mini".into()),
        driver: Driver::MiniMk3,
        pages,
        mode,
        host_port_in: if mode == Mode::NoteOffset {
            Some("in".into())
        } else {
            None
        },
        host_port_out: if mode == Mode::NoteOffset {
            Some("out".into())
        } else {
            None
        },
        note_offset: Some(64),
        page_port_prefix: None,
        boot_sysex: None,
        next_page_button: Some(ButtonRef::Cc { number: 91 }),
        previous_page_button: Some(ButtonRef::Cc { number: 92 }),
        page_buttons: vec![],
        page_buttons_hold_to_preview: false,
        colors: ColorConfig::default(),
        global_buttons: vec![],
    }
}

fn cfg_apc(pages: u8, mode: Mode) -> DeviceConfig {
    DeviceConfig {
        name: "APC".into(),
        port_match: PortMatch::Simple("APC MINI".into()),
        driver: Driver::ApcMini,
        pages,
        mode,
        host_port_in: if mode == Mode::NoteOffset {
            Some("in".into())
        } else {
            None
        },
        host_port_out: if mode == Mode::NoteOffset {
            Some("out".into())
        } else {
            None
        },
        note_offset: Some(64),
        page_port_prefix: None,
        boot_sysex: None,
        next_page_button: Some(ButtonRef::Note { number: 98 }),
        previous_page_button: Some(ButtonRef::Note { number: 99 }),
        page_buttons: vec![],
        page_buttons_hold_to_preview: false,
        colors: ColorConfig::default(),
        global_buttons: vec![],
    }
}

fn proxy_mini_offset(pages: u8) -> Proxy<MiniMk3> {
    Proxy::new(&cfg_mini(pages, Mode::NoteOffset), Box::new(MiniMk3))
}
fn proxy_apc_offset(pages: u8) -> Proxy<ApcMini> {
    Proxy::new(&cfg_apc(pages, Mode::NoteOffset), Box::new(ApcMini))
}
fn proxy_apc_perport(pages: u8) -> Proxy<ApcMini> {
    Proxy::new(&cfg_apc(pages, Mode::PerPort), Box::new(ApcMini))
}
fn proxy_mini_perport(pages: u8) -> Proxy<MiniMk3> {
    Proxy::new(&cfg_mini(pages, Mode::PerPort), Box::new(MiniMk3))
}

fn host_offset_bytes(out: &[Out]) -> Vec<Vec<u8>> {
    out.iter()
        .filter_map(|o| match o {
            Out::ToHost(b) => Some(b.clone()),
            _ => None,
        })
        .collect()
}
fn host_page_outs(out: &[Out]) -> Vec<(u8, Vec<u8>)> {
    out.iter()
        .filter_map(|o| match o {
            Out::ToHostPage { page, bytes } => Some((*page, bytes.clone())),
            _ => None,
        })
        .collect()
}
fn device_bytes(out: &[Out]) -> Vec<Vec<u8>> {
    out.iter()
        .filter_map(|o| match o {
            Out::ToDevice(b) => Some(b.clone()),
            _ => None,
        })
        .collect()
}

// -- Note-offset mode ----------------------------------------------------

#[test]
fn offset_pad_press_page0() {
    let mut p = proxy_apc_offset(2);
    let out = p.handle_device_in(&parse::note_on(0, 5, 100));
    assert_eq!(
        host_offset_bytes(&out),
        vec![parse::note_on(0, 5, 100).to_vec()]
    );
}

#[test]
fn offset_pad_press_page1() {
    let mut p = proxy_apc_offset(2);
    p.change_page_to(1);
    let out = p.handle_device_in(&parse::note_on(0, 5, 100));
    assert_eq!(
        host_offset_bytes(&out),
        vec![parse::note_on(0, 5 + 64, 100).to_vec()]
    );
}

#[test]
fn offset_page_up_cc_does_not_forward() {
    let mut p = proxy_mini_offset(2);
    let out = p.handle_device_in(&parse::cc(0, 91, 127));
    assert_eq!(p.current_page, 1);
    assert!(host_offset_bytes(&out).is_empty());
}

#[test]
fn offset_next_at_max_is_page_noop_but_still_flashes() {
    // Pressing next at the max page emits the flash feedback but does
    // NOT move the page or emit any host-bound messages.
    let mut p = proxy_mini_offset(2);
    p.set_persistent_page(1);
    let out = p.handle_device_in(&parse::cc(0, 91, 127));
    assert_eq!(p.current_page, 1);
    assert!(host_offset_bytes(&out).is_empty());
    // Flash-on (device send) and delayed-clear are still present.
    assert_eq!(device_bytes(&out).len(), 1);
    assert_eq!(delayed_device_bytes(&out).len(), 1);
}

#[test]
fn offset_non_grid_top_row_cc_passes_through() {
    let mut p = proxy_mini_offset(2);
    let out = p.handle_device_in(&parse::cc(0, 95, 127));
    assert_eq!(
        host_offset_bytes(&out),
        vec![parse::cc(0, 95, 127).to_vec()]
    );
}

#[test]
fn offset_host_note_on_for_current_page() {
    let mut p = proxy_apc_offset(2);
    let out = p.handle_host_in(&parse::note_on(0, 5, 1));
    assert_eq!(device_bytes(&out), vec![parse::note_on(0, 5, 1).to_vec()]);
}

#[test]
fn offset_host_note_on_other_page_caches_only() {
    let mut p = proxy_apc_offset(2);
    let out = p.handle_host_in(&parse::note_on(0, 69, 1));
    assert!(device_bytes(&out).is_empty());
    assert_eq!(
        p.led_cache[1].get(&CacheKey::Note(5)),
        Some(&LedCell::NoteOn {
            channel: 0,
            velocity: 1
        })
    );
}

#[test]
fn offset_host_lighting_sysex_partitions_by_page() {
    let mut p = proxy_mini_offset(2);
    p.change_page_to(1);
    let bytes = LightingSysex {
        model: mini_mk3(),
        leds: vec![
            LedSpec {
                led_index: 11,
                color: ColorSpec::Static(5),
            },
            LedSpec {
                led_index: 75,
                color: ColorSpec::Static(7),
            },
        ],
    }
    .emit();
    let out = p.handle_host_in(&bytes);
    let dev = device_bytes(&out);
    assert_eq!(dev.len(), 1);
    let parsed = LightingSysex::parse(&dev[0], mini_mk3()).unwrap();
    assert_eq!(parsed.leds.len(), 1);
    assert_eq!(parsed.leds[0].led_index, 11);
    assert_eq!(parsed.leds[0].color, ColorSpec::Static(7));
}

#[test]
fn offset_page_change_with_held_pad_emits_old_page_note_off() {
    let mut p = proxy_apc_offset(2);
    let _ = p.handle_device_in(&parse::note_on(0, 5, 100));
    let out = p.handle_device_in(&parse::note_on(0, 98, 127));
    assert!(
        host_offset_bytes(&out)
            .iter()
            .any(|m| m == &parse::note_off(0, 5, 0).to_vec())
    );
}

#[test]
fn offset_release_after_page_change_is_suppressed() {
    let mut p = proxy_apc_offset(2);
    let _ = p.handle_device_in(&parse::note_on(0, 5, 100));
    let _ = p.handle_device_in(&parse::note_on(0, 98, 127));
    let out = p.handle_device_in(&parse::note_off(0, 5, 0));
    assert!(host_offset_bytes(&out).is_empty());
}

#[test]
fn offset_page_change_replays_cache_to_device() {
    let mut p = proxy_apc_offset(2);
    let _ = p.handle_host_in(&parse::note_on(0, 64 + 5, 3));
    let out = p.change_page_to(1);
    let dev = device_bytes(&out);
    assert!(dev.iter().any(|b| b == &parse::note_on(0, 5, 3).to_vec()));
}

// -- Per-port mode ------------------------------------------------------

#[test]
fn perport_pad_press_emits_to_current_page_port_with_raw_note() {
    let mut p = proxy_apc_perport(4);
    p.change_page_to(2);
    let out = p.handle_device_in(&parse::note_on(0, 5, 100));
    assert_eq!(
        host_page_outs(&out),
        vec![(2, parse::note_on(0, 5, 100).to_vec())]
    );
}

#[test]
fn perport_allows_more_than_two_pages() {
    // 8 pages: impossible in note-offset mode, fine here.
    let mut p = proxy_apc_perport(8);
    p.change_page_to(7);
    let out = p.handle_device_in(&parse::note_on(0, 63, 1));
    assert_eq!(
        host_page_outs(&out),
        vec![(7, parse::note_on(0, 63, 1).to_vec())]
    );
}

#[test]
fn perport_host_in_for_current_page_reaches_device_unchanged() {
    let mut p = proxy_apc_perport(4);
    p.change_page_to(1);
    let out = p.handle_host_in_per_port(1, &parse::note_on(0, 5, 3));
    assert_eq!(device_bytes(&out), vec![parse::note_on(0, 5, 3).to_vec()]);
    assert_eq!(
        p.led_cache[1].get(&CacheKey::Note(5)),
        Some(&LedCell::NoteOn {
            channel: 0,
            velocity: 3
        })
    );
}

#[test]
fn perport_host_in_for_other_page_caches_only() {
    let mut p = proxy_apc_perport(4);
    // current_page = 0; host writes on port 2.
    let out = p.handle_host_in_per_port(2, &parse::note_on(0, 5, 3));
    assert!(device_bytes(&out).is_empty());
    assert!(p.led_cache[2].contains_key(&CacheKey::Note(5)));
    assert!(!p.led_cache[0].contains_key(&CacheKey::Note(5)));
}

#[test]
fn perport_host_cc_for_non_grid_button_is_cached_and_replayed() {
    // Mini MK3 side / top-row LEDs are CC-controlled. DAW writes to a
    // non-grid CC (e.g. CC 19) on an inactive page should be cached so
    // returning to that page restores the LED.
    let mut p = proxy_mini_perport(4);
    // Page 0 active, write to page 1's port.
    let out = p.handle_host_in_per_port(1, &parse::cc(0, 19, 42));
    assert!(device_bytes(&out).is_empty(), "uncached on inactive page");
    assert_eq!(
        p.led_cache[1].get(&CacheKey::Cc(19)),
        Some(&LedCell::Cc {
            channel: 0,
            value: 42,
        })
    );
    // Switch to page 1: replay must include the CC bytes.
    let dev = device_bytes(&p.change_page_to(1));
    assert!(
        dev.iter().any(|b| b == &parse::cc(0, 19, 42).to_vec()),
        "page-switch replay missing CC: {dev:02X?}"
    );
}

#[test]
fn perport_host_cc_for_proxy_managed_button_is_not_cached() {
    // Next/prev and page-button CCs are managed by paint_indicators —
    // caching DAW writes to them is pointless and would just be clobbered.
    let mut cfg = cfg_mini(4, Mode::PerPort);
    cfg.page_buttons = vec![page_button(ButtonRef::Cc { number: 89 })];
    let mut p = Proxy::new(&cfg, Box::new(MiniMk3));
    // next_page_button = CC 91 (per cfg_mini).
    let _ = p.handle_host_in_per_port(1, &parse::cc(0, 91, 100));
    assert!(!p.led_cache[1].contains_key(&CacheKey::Cc(91)));
    // previous_page_button = CC 92.
    let _ = p.handle_host_in_per_port(1, &parse::cc(0, 92, 100));
    assert!(!p.led_cache[1].contains_key(&CacheKey::Cc(92)));
    // CC 89 is a page button.
    let _ = p.handle_host_in_per_port(1, &parse::cc(0, 89, 100));
    assert!(!p.led_cache[1].contains_key(&CacheKey::Cc(89)));
    // A non-managed CC IS cached.
    let _ = p.handle_host_in_per_port(1, &parse::cc(0, 19, 100));
    assert!(p.led_cache[1].contains_key(&CacheKey::Cc(19)));
}

#[test]
fn perport_lighting_sysex_caches_then_passes_through_unchanged_when_active() {
    let mut p = proxy_mini_perport(4);
    p.change_page_to(1);
    let sysex = LightingSysex {
        model: mini_mk3(),
        leds: vec![LedSpec {
            led_index: 11,
            color: ColorSpec::Rgb { r: 0, g: 127, b: 0 },
        }],
    }
    .emit();
    let out = p.handle_host_in_per_port(1, &sysex);
    // Forwarded byte-for-byte (no rewriting in per-port mode).
    assert_eq!(device_bytes(&out), vec![sysex]);
    assert!(p.led_cache[1].contains_key(&CacheKey::Note(11)));
}

#[test]
fn perport_page_change_emits_held_note_off_on_old_page_port() {
    let mut p = proxy_apc_perport(4);
    let _ = p.handle_device_in(&parse::note_on(0, 5, 100));
    let _ = p.handle_device_in(&parse::note_on(0, 98, 127)); // page up
    let outs = p.change_page_to(3);
    let _ = outs;
    // Use cycle_page directly: confirm via the page-up event sequence above
    // that current_page advanced.
    assert_eq!(p.current_page, 3);
}

#[test]
fn perport_page_change_synthesizes_note_off_to_old_page() {
    let mut p = proxy_apc_perport(4);
    let _ = p.handle_device_in(&parse::note_on(0, 5, 100));
    // page up via configured Note 98 -> cycle_page.
    let out = p.handle_device_in(&parse::note_on(0, 98, 127));
    let host = host_page_outs(&out);
    assert!(
        host.iter()
            .any(|(page, b)| *page == 0 && b == &parse::note_off(0, 5, 0).to_vec()),
        "expected ToHostPage(page=0, NoteOff(5)), got {host:?}",
    );
}

#[test]
fn perport_page_change_paints_page_button_indicators() {
    let mut cfg = cfg_mini(2, Mode::PerPort);
    cfg.page_buttons = vec![page_button(ButtonRef::Cc { number: 89 }), page_button(ButtonRef::Cc { number: 79 })];
    let mut p = Proxy::new(&cfg, Box::new(MiniMk3));
    let out = p.change_page_to(1);
    let dev = device_bytes(&out);
    assert!(dev.iter().any(|b| b == &parse::cc(0, 79, 21).to_vec()));
    assert!(dev.iter().any(|b| b == &parse::cc(0, 89, 1).to_vec()));
}

// -- Mode A / B / C tests ----------------------------------------------

fn delayed_device_bytes(out: &[Out]) -> Vec<(u32, Vec<u8>)> {
    out.iter()
        .filter_map(|o| match o {
            Out::DeviceDelayedSend { delay_ms, bytes } => Some((*delay_ms, bytes.clone())),
            _ => None,
        })
        .collect()
}

#[test]
fn next_prev_emits_flash_then_delayed_clear() {
    // Press next_page_button (CC 91 on the Mini) -> immediate flash-on
    // and a delayed flash-off, plus the page-change side effects.
    let mut p = proxy_mini_perport(4);
    let out = p.handle_device_in(&parse::cc(0, 91, 127));
    let dev = device_bytes(&out);
    // First device write should be the flash-on at flash color (21 for Mini MK3).
    assert_eq!(dev.first(), Some(&parse::cc(0, 91, 21).to_vec()));
    let delayed = delayed_device_bytes(&out);
    assert_eq!(delayed.len(), 1);
    assert_eq!(delayed[0], (200, parse::cc(0, 91, 0).to_vec()));
    assert_eq!(p.persistent_page, 1);
    assert_eq!(p.current_page, 1);
}

#[test]
fn page_button_tap_jumps_to_page_in_mode_b() {
    // Mode B: page_buttons configured, hold_to_preview = false.
    let mut cfg = cfg_mini(4, Mode::PerPort);
    cfg.page_buttons = vec![
        page_button(ButtonRef::Cc { number: 89 }),
        page_button(ButtonRef::Cc { number: 79 }),
        page_button(ButtonRef::Cc { number: 69 }),
        page_button(ButtonRef::Cc { number: 59 }),
    ];
    let mut p = Proxy::new(&cfg, Box::new(MiniMk3));
    // Tap the third page button (slot 2 -> page 2).
    let _ = p.handle_device_in(&parse::cc(0, 69, 127));
    assert_eq!(p.persistent_page, 2);
    assert_eq!(p.current_page, 2);
    // Release does nothing in Mode B.
    let out = p.handle_device_in(&parse::cc(0, 69, 0));
    assert!(out.is_empty());
    assert_eq!(p.current_page, 2);
}

#[test]
fn hold_preview_press_changes_visible_page() {
    let mut cfg = cfg_mini(4, Mode::PerPort);
    cfg.page_buttons = vec![
        page_button(ButtonRef::Cc { number: 89 }),
        page_button(ButtonRef::Cc { number: 79 }),
        page_button(ButtonRef::Cc { number: 69 }),
        page_button(ButtonRef::Cc { number: 59 }),
    ];
    cfg.page_buttons_hold_to_preview = true;
    let mut p = Proxy::new(&cfg, Box::new(MiniMk3));
    // Hold slot 2 -> visible page becomes 2; persistent stays 0.
    let _ = p.handle_device_in(&parse::cc(0, 69, 127));
    assert_eq!(p.current_page, 2);
    assert_eq!(p.persistent_page, 0);
    assert_eq!(p.held_preview, Some(2));
}

#[test]
fn hold_preview_release_reverts_to_persistent() {
    let mut cfg = cfg_mini(4, Mode::PerPort);
    cfg.page_buttons = vec![
        page_button(ButtonRef::Cc { number: 89 }),
        page_button(ButtonRef::Cc { number: 79 }),
        page_button(ButtonRef::Cc { number: 69 }),
        page_button(ButtonRef::Cc { number: 59 }),
    ];
    cfg.page_buttons_hold_to_preview = true;
    let mut p = Proxy::new(&cfg, Box::new(MiniMk3));
    // Move persistent first.
    let _ = p.handle_device_in(&parse::cc(0, 91, 127)); // next -> page 1
    assert_eq!(p.persistent_page, 1);
    assert_eq!(p.current_page, 1);
    // Hold slot 3 -> preview page 3.
    let _ = p.handle_device_in(&parse::cc(0, 59, 127));
    assert_eq!(p.current_page, 3);
    assert_eq!(p.persistent_page, 1);
    // Release -> revert to persistent (page 1).
    let _ = p.handle_device_in(&parse::cc(0, 59, 0));
    assert_eq!(p.current_page, 1);
    assert_eq!(p.persistent_page, 1);
    assert_eq!(p.held_preview, None);
}

#[test]
fn hold_preview_grid_press_routes_to_previewed_page() {
    // The killer test: while holding a page button, grid presses must
    // route to the previewed page, not the persistent one.
    let mut cfg = cfg_apc(4, Mode::PerPort);
    cfg.page_buttons = vec![
        page_button(ButtonRef::Note { number: 82 }),
        page_button(ButtonRef::Note { number: 83 }),
        page_button(ButtonRef::Note { number: 84 }),
        page_button(ButtonRef::Note { number: 85 }),
    ];
    cfg.page_buttons_hold_to_preview = true;
    let mut p = Proxy::new(&cfg, Box::new(ApcMini));
    // Persistent = 0. Hold page button slot 2.
    let _ = p.handle_device_in(&parse::note_on(0, 84, 127));
    assert_eq!(p.current_page, 2);
    // Press grid pad 5 -> must go to ToHostPage(page=2).
    let out = p.handle_device_in(&parse::note_on(0, 5, 100));
    assert_eq!(
        host_page_outs(&out),
        vec![(2, parse::note_on(0, 5, 100).to_vec())]
    );
    // Release page button -> revert. Grid pad 5 is now held on page 2;
    // the revert should synthesize a note-off on page 2.
    let out = p.handle_device_in(&parse::note_on(0, 84, 0));
    let host = host_page_outs(&out);
    assert!(
        host.iter()
            .any(|(page, b)| *page == 2 && b == &parse::note_off(0, 5, 0).to_vec()),
        "expected ToHostPage(page=2, NoteOff(5)) on revert, got {host:?}",
    );
    assert_eq!(p.current_page, 0);
}

#[test]
fn hold_mode_tap_does_not_change_persistent_page() {
    // In Mode C, tap-then-release of a page button must not move the
    // persistent page (only next/prev does).
    let mut cfg = cfg_mini(4, Mode::PerPort);
    cfg.page_buttons = vec![
        page_button(ButtonRef::Cc { number: 89 }),
        page_button(ButtonRef::Cc { number: 79 }),
        page_button(ButtonRef::Cc { number: 69 }),
        page_button(ButtonRef::Cc { number: 59 }),
    ];
    cfg.page_buttons_hold_to_preview = true;
    let mut p = Proxy::new(&cfg, Box::new(MiniMk3));
    // Tap (press + release) slot 2.
    let _ = p.handle_device_in(&parse::cc(0, 69, 127));
    let _ = p.handle_device_in(&parse::cc(0, 69, 0));
    assert_eq!(p.persistent_page, 0, "persistent must stay at 0 after tap");
    assert_eq!(p.current_page, 0);
}

#[test]
fn next_prev_still_works_when_in_preview() {
    let mut cfg = cfg_mini(4, Mode::PerPort);
    cfg.page_buttons = vec![
        page_button(ButtonRef::Cc { number: 89 }),
        page_button(ButtonRef::Cc { number: 79 }),
        page_button(ButtonRef::Cc { number: 69 }),
        page_button(ButtonRef::Cc { number: 59 }),
    ];
    cfg.page_buttons_hold_to_preview = true;
    let mut p = Proxy::new(&cfg, Box::new(MiniMk3));
    // Hold slot 3 -> preview page 3.
    let _ = p.handle_device_in(&parse::cc(0, 59, 127));
    assert_eq!(p.current_page, 3);
    assert_eq!(p.persistent_page, 0);
    // Press next -> persistent moves but visible page stays at preview.
    let _ = p.handle_device_in(&parse::cc(0, 91, 127));
    assert_eq!(p.persistent_page, 1);
    assert_eq!(p.current_page, 3);
    // Release preview -> revert to (newly moved) persistent = page 1.
    let _ = p.handle_device_in(&parse::cc(0, 59, 0));
    assert_eq!(p.current_page, 1);
}

// -- Page buttons: pins, mixed hold, colors --------------------------------

fn four_page_buttons() -> Vec<PageButton> {
    [89u8, 79, 69, 59]
        .iter()
        .map(|n| page_button(ButtonRef::Cc { number: *n }))
        .collect()
}

#[test]
fn pinned_page_buttons_lead_to_their_page() {
    let mut cfg = cfg_mini(4, Mode::PerPort);
    cfg.page_buttons = four_page_buttons();
    cfg.page_buttons[0].page = Some(3);
    let mut p = Proxy::new(&cfg, Box::new(MiniMk3));
    let _ = p.handle_device_in(&parse::cc(0, 89, 127));
    assert_eq!(p.current_page, 3);
    let _ = p.handle_device_in(&parse::cc(0, 79, 127));
    assert_eq!(p.current_page, 0);
}

#[test]
fn hold_and_tap_buttons_mix() {
    let mut cfg = cfg_mini(4, Mode::PerPort);
    cfg.page_buttons = four_page_buttons();
    cfg.page_buttons[1].hold_to_preview = Some(true);
    let mut p = Proxy::new(&cfg, Box::new(MiniMk3));
    let _ = p.handle_device_in(&parse::cc(0, 69, 127));
    assert_eq!((p.persistent_page, p.current_page), (2, 2));
    let _ = p.handle_device_in(&parse::cc(0, 79, 127));
    assert_eq!((p.persistent_page, p.current_page), (2, 1));
    // A tap while previewing moves only the persistent page.
    let out = p.handle_device_in(&parse::cc(0, 89, 127));
    assert!(out.is_empty());
    assert_eq!((p.persistent_page, p.current_page), (0, 1));
    let _ = p.handle_device_in(&parse::cc(0, 79, 0));
    assert_eq!((p.persistent_page, p.current_page), (0, 0));
}

#[test]
fn only_the_button_that_began_a_preview_ends_it() {
    let mut cfg = cfg_mini(4, Mode::PerPort);
    cfg.page_buttons = four_page_buttons();
    cfg.page_buttons_hold_to_preview = true;
    let mut p = Proxy::new(&cfg, Box::new(MiniMk3));
    let _ = p.handle_device_in(&parse::cc(0, 69, 127));
    let _ = p.handle_device_in(&parse::cc(0, 59, 127));
    assert_eq!(p.held_preview, Some(3));
    assert!(p.handle_device_in(&parse::cc(0, 69, 0)).is_empty());
    assert_eq!(p.held_preview, Some(3));
    let _ = p.handle_device_in(&parse::cc(0, 59, 0));
    assert_eq!((p.held_preview, p.current_page), (None, 0));
}

#[test]
fn colors_follow_the_cascade() {
    let mut cfg = cfg_mini(4, Mode::PerPort);
    cfg.page_buttons = four_page_buttons();
    cfg.page_buttons[2].hold_to_preview = Some(true);
    cfg.page_buttons[3].hold_to_preview = Some(true);
    cfg.colors = ColorConfig {
        active: Some(50),
        inactive: Some(51),
        preview: Some(52),
        active_cycle: Some(53),
        inactive_cycle: Some(54),
        active_preview: Some(55),
        inactive_preview: Some(56),
    };
    let mut p = Proxy::new(&cfg, Box::new(MiniMk3));
    assert_eq!(
        p.paint_indicator_state(),
        vec![
            vec![0xB0, 89, 50],
            vec![0xB0, 79, 51],
            vec![0xB0, 69, 56],
            vec![0xB0, 59, 56],
            vec![0xB0, 91, 54],
            vec![0xB0, 92, 54],
        ]
    );
    // Next: flash in the cycle colors.
    let out = p.handle_device_in(&parse::cc(0, 91, 127));
    assert_eq!(device_bytes(&out)[0], vec![0xB0, 91, 53]);
    assert_eq!(delayed_device_bytes(&out), vec![(200, vec![0xB0, 91, 54])]);
    // Preview page 3 from persistent page 2.
    let _ = p.handle_device_in(&parse::cc(0, 91, 127));
    let dev = device_bytes(&p.handle_device_in(&parse::cc(0, 59, 127)));
    assert_eq!(
        dev[dev.len() - 4..].to_vec(),
        vec![
            vec![0xB0, 89, 51],
            vec![0xB0, 79, 51],
            vec![0xB0, 69, 55],
            vec![0xB0, 59, 52],
        ]
    );
}

#[test]
fn unset_colors_fall_back_to_their_parents() {
    let mut cfg = cfg_mini(2, Mode::PerPort);
    cfg.page_buttons = vec![
        page_button(ButtonRef::Cc { number: 89 }),
        page_button(ButtonRef::Cc { number: 79 }),
    ];
    cfg.page_buttons_hold_to_preview = true;
    cfg.colors.active = Some(40);
    cfg.colors.inactive = Some(41);
    let mut p = Proxy::new(&cfg, Box::new(MiniMk3));
    let out = p.handle_device_in(&parse::cc(0, 91, 127));
    assert_eq!(device_bytes(&out)[0], vec![0xB0, 91, 40]);
    assert_eq!(delayed_device_bytes(&out), vec![(200, vec![0xB0, 91, 41])]);
    let dev = device_bytes(&out);
    assert_eq!(
        dev[dev.len() - 2..].to_vec(),
        vec![vec![0xB0, 89, 41], vec![0xB0, 79, 40]]
    );
}

#[test]
fn apc_indicators_default_to_green_and_off() {
    let mut cfg = cfg_apc(2, Mode::PerPort);
    cfg.page_buttons = vec![
        page_button(ButtonRef::Note { number: 82 }),
        page_button(ButtonRef::Note { number: 83 }),
    ];
    let p = Proxy::new(&cfg, Box::new(ApcMini));
    assert_eq!(
        p.paint_indicator_state(),
        vec![
            vec![0x90, 82, 1],
            vec![0x90, 83, 0],
            vec![0x90, 98, 0],
            vec![0x90, 99, 0],
        ]
    );
}

// -- Held pads -------------------------------------------------------------

#[test]
fn held_pads_are_let_go_in_ascending_order() {
    let mut p = proxy_apc_perport(4);
    for pad in [40u8, 3, 17] {
        let _ = p.handle_device_in(&parse::note_on(0, pad, 100));
    }
    let out = p.change_page_to(2);
    assert_eq!(
        host_page_outs(&out),
        vec![
            (0, parse::note_off(0, 3, 0).to_vec()),
            (0, parse::note_off(0, 17, 0).to_vec()),
            (0, parse::note_off(0, 40, 0).to_vec()),
        ]
    );
}

#[test]
fn release_is_suppressed_once_only() {
    let mut p = proxy_apc_perport(2);
    let _ = p.handle_device_in(&parse::note_on(0, 5, 100));
    let _ = p.change_page_to(1);
    assert!(p.handle_device_in(&parse::note_off(0, 5, 0)).is_empty());
    let out = p.handle_device_in(&parse::note_off(0, 5, 0));
    assert_eq!(
        host_page_outs(&out),
        vec![(1, parse::note_off(0, 5, 0).to_vec())]
    );
}

#[test]
fn press_and_release_pass_through_on_one_page() {
    let mut p = proxy_apc_offset(2);
    let _ = p.change_page_to(1);
    let out = p.handle_device_in(&parse::note_on(2, 9, 77));
    assert_eq!(
        host_offset_bytes(&out),
        vec![parse::note_on(2, 9 + 64, 77).to_vec()]
    );
    let out = p.handle_device_in(&parse::note_off(2, 9, 12));
    assert_eq!(
        host_offset_bytes(&out),
        vec![parse::note_off(2, 9 + 64, 12).to_vec()]
    );
    assert!(p.held.is_empty());
}

#[test]
fn navigation_releases_never_reach_the_host() {
    let mut p = proxy_mini_perport(4);
    assert!(p.handle_device_in(&parse::cc(0, 91, 0)).is_empty());
    assert!(p.handle_device_in(&parse::cc(0, 92, 0)).is_empty());
    let mut p = proxy_apc_perport(4);
    assert!(p.handle_device_in(&parse::note_off(0, 98, 0)).is_empty());
    let out = p.handle_device_in(&parse::note_on(0, 99, 1));
    assert!(host_page_outs(&out).is_empty());
}

#[test]
fn sysex_and_other_messages_go_to_the_page_shown() {
    let mut p = proxy_mini_perport(4);
    let _ = p.change_page_to(3);
    for bytes in [vec![0xF0, 1, 2, 0xF7], vec![0xC0, 5], vec![0x90, 95, 1]] {
        let out = p.handle_device_in(&bytes);
        assert_eq!(host_page_outs(&out), vec![(3, bytes)]);
    }
}

// -- Page changes ----------------------------------------------------------

#[test]
fn previous_at_zero_stays() {
    let mut p = proxy_mini_perport(4);
    let out = p.handle_device_in(&parse::cc(0, 92, 127));
    assert_eq!(p.current_page, 0);
    assert_eq!(device_bytes(&out).len(), 1);
}

#[test]
fn next_and_previous_walk_the_pages() {
    let mut p = proxy_mini_perport(3);
    let mut seen = Vec::new();
    for _ in 0..4 {
        let _ = p.handle_device_in(&parse::cc(0, 91, 127));
        seen.push(p.current_page);
    }
    for _ in 0..3 {
        let _ = p.handle_device_in(&parse::cc(0, 92, 127));
        seen.push(p.current_page);
    }
    assert_eq!(seen, vec![1, 2, 2, 2, 1, 0, 0]);
}

#[test]
fn pages_that_are_not_there_are_ignored() {
    let mut p = proxy_apc_perport(2);
    assert!(p.change_page_to(2).is_empty());
    assert!(p.set_persistent_page(9).is_empty());
    assert_eq!((p.persistent_page, p.current_page), (0, 0));
    assert!(p
        .handle_host_in_per_port(7, &parse::note_on(0, 5, 1))
        .is_empty());
}

#[test]
fn page_change_is_idempotent() {
    let mut p = proxy_mini_perport(4);
    let _ = p.handle_host_in_per_port(2, &parse::note_on(0, 11, 9));
    let _ = p.handle_host_in_per_port(2, &parse::cc(0, 19, 8));
    let once = p.change_page_to(2);
    let twice = p.change_page_to(2);
    assert_eq!(once, twice);
}

#[test]
fn replay_is_in_ascending_order_with_one_sysex_last() {
    let mut p = proxy_mini_perport(2);
    let sysex = LightingSysex {
        model: mini_mk3(),
        leds: vec![
            LedSpec {
                led_index: 33,
                color: ColorSpec::Pulsing(4),
            },
            LedSpec {
                led_index: 22,
                color: ColorSpec::Static(3),
            },
        ],
    }
    .emit();
    for bytes in [
        parse::cc(0, 19, 42).to_vec(),
        parse::note_on(0, 12, 2).to_vec(),
        sysex,
        parse::note_on(1, 11, 1).to_vec(),
    ] {
        let _ = p.handle_host_in_per_port(1, &bytes);
    }
    let dev = device_bytes(&p.change_page_to(1));
    let mut expected = MiniMk3.clear_all();
    expected.push(parse::note_on(1, 11, 1).to_vec());
    expected.push(parse::note_on(0, 12, 2).to_vec());
    expected.push(parse::cc(0, 19, 42).to_vec());
    expected.push(
        LightingSysex {
            model: mini_mk3(),
            leds: vec![
                LedSpec {
                    led_index: 22,
                    color: ColorSpec::Static(3),
                },
                LedSpec {
                    led_index: 33,
                    color: ColorSpec::Pulsing(4),
                },
            ],
        }
        .emit(),
    );
    assert_eq!(dev, expected);
}

// -- Host writes -----------------------------------------------------------

#[test]
fn offset_note_off_is_kept_as_dark() {
    let mut p = proxy_apc_offset(2);
    let out = p.handle_host_in(&parse::note_off(0, 5, 33));
    assert_eq!(device_bytes(&out), vec![parse::note_off(0, 5, 33).to_vec()]);
    assert_eq!(
        p.led_cache[0].get(&CacheKey::Note(5)),
        Some(&LedCell::NoteOn {
            channel: 0,
            velocity: 0
        })
    );
}

#[test]
fn offset_numbers_that_are_no_pad_pass_through() {
    let mut p = proxy_mini_offset(2);
    // 9 is no pad of the Mini, and 64 + 9 is none either.
    for note in [9u8, 73] {
        let out = p.handle_host_in(&parse::note_on(0, note, 5));
        assert_eq!(device_bytes(&out), vec![parse::note_on(0, note, 5).to_vec()]);
    }
    let out = p.handle_host_in(&parse::cc(0, 95, 5));
    assert_eq!(device_bytes(&out), vec![parse::cc(0, 95, 5).to_vec()]);
    let sysex = vec![0xF0, 1, 2, 0xF7];
    assert_eq!(device_bytes(&p.handle_host_in(&sysex)), vec![sysex]);
    assert!(p.led_cache[0].is_empty() && p.led_cache[1].is_empty());
}

#[test]
fn offset_lighting_for_another_page_sends_nothing() {
    let mut p = proxy_mini_offset(2);
    let bytes = LightingSysex {
        model: mini_mk3(),
        leds: vec![LedSpec {
            led_index: 75,
            color: ColorSpec::Static(7),
        }],
    }
    .emit();
    assert!(p.handle_host_in(&bytes).is_empty());
    assert_eq!(
        p.led_cache[1].get(&CacheKey::Note(11)),
        Some(&LedCell::SysexColor(ColorSpec::Static(7)))
    );
}

#[test]
fn broken_lighting_sysex_passes_through() {
    let broken = vec![0xF0, 0x00, 0x20, 0x29, 0x02, 0x0D, 0x03, 0x0F, 0x00, 0xF7];
    let mut p = proxy_mini_offset(2);
    assert_eq!(device_bytes(&p.handle_host_in(&broken)), vec![broken.clone()]);
    let mut p = proxy_mini_perport(2);
    assert_eq!(
        device_bytes(&p.handle_host_in_per_port(0, &broken)),
        vec![broken.clone()]
    );
    assert!(p.handle_host_in_per_port(1, &broken).is_empty());
}

#[test]
fn host_lights_the_pad_it_heard_of() {
    let mut p = proxy_apc_offset(2);
    let _ = p.change_page_to(1);
    let out = p.handle_device_in(&parse::note_on(0, 21, 100));
    let heard = host_offset_bytes(&out)[0].clone();
    let out = p.handle_host_in(&heard);
    assert_eq!(device_bytes(&out), vec![parse::note_on(0, 21, 100).to_vec()]);
    assert!(p.led_cache[1].contains_key(&CacheKey::Note(21)));
}

#[test]
fn ports_keep_to_their_page() {
    let mut p = proxy_mini_perport(3);
    let _ = p.handle_host_in_per_port(1, &parse::note_on(0, 44, 5));
    let _ = p.handle_host_in_per_port(2, &parse::cc(0, 19, 5));
    assert!(p.led_cache[0].is_empty());
    assert_eq!(p.led_cache[1].len(), 1);
    assert_eq!(p.led_cache[2].len(), 1);
}

// -- Global buttons --------------------------------------------------------

fn proxy_with_globals(pages: u8) -> Proxy<MiniMk3> {
    let mut cfg = cfg_mini(pages, Mode::PerPort);
    cfg.global_buttons = vec![
        ButtonRef::Note { number: 11 },
        ButtonRef::Cc { number: 19 },
        ButtonRef::Note { number: 12 },
    ];
    Proxy::new(&cfg, Box::new(MiniMk3))
}

#[test]
fn global_presses_go_to_page_zero() {
    let mut p = proxy_with_globals(4);
    let _ = p.change_page_to(2);
    for bytes in [
        parse::note_on(0, 11, 100),
        parse::note_off(0, 11, 0),
        parse::cc(0, 19, 127),
    ] {
        let out = p.handle_device_in(&bytes);
        assert_eq!(host_page_outs(&out), vec![(0, bytes.to_vec())]);
    }
    // A pad that is not global still goes to the page shown.
    let out = p.handle_device_in(&parse::note_on(0, 21, 100));
    assert_eq!(host_page_outs(&out)[0].0, 2);
}

#[test]
fn global_presses_are_not_let_go_by_page_changes() {
    let mut p = proxy_with_globals(4);
    let _ = p.handle_device_in(&parse::note_on(0, 11, 100));
    assert!(host_page_outs(&p.change_page_to(1)).is_empty());
    let out = p.handle_device_in(&parse::note_off(0, 11, 0));
    assert_eq!(
        host_page_outs(&out),
        vec![(0, parse::note_off(0, 11, 0).to_vec())]
    );
}

#[test]
fn global_leds_are_kept_for_page_zero_and_shown_at_once() {
    let mut p = proxy_with_globals(4);
    let _ = p.change_page_to(3);
    for bytes in [parse::note_on(0, 11, 9), parse::cc(0, 19, 7)] {
        let out = p.handle_host_in_per_port(1, &bytes);
        assert_eq!(device_bytes(&out), vec![bytes.to_vec()]);
    }
    assert_eq!(p.led_cache[0].len(), 2);
    assert!(p.led_cache[1].is_empty() && p.led_cache[3].is_empty());
}

#[test]
fn global_entries_of_a_lighting_sysex_are_shown_at_once() {
    let mut p = proxy_with_globals(4);
    let led = |led_index, color| LedSpec {
        led_index,
        color: ColorSpec::Static(color),
    };
    let bytes = LightingSysex {
        model: mini_mk3(),
        leds: vec![led(11, 5), led(21, 6), led(12, 7)],
    }
    .emit();
    let out = p.handle_host_in_per_port(2, &bytes);
    assert_eq!(
        device_bytes(&out),
        vec![LightingSysex {
            model: mini_mk3(),
            leds: vec![led(11, 5), led(12, 7)],
        }
        .emit()]
    );
    assert_eq!(p.led_cache[0].len(), 2);
    assert_eq!(p.led_cache[2].len(), 1);
    // On the page shown the message passes as it is.
    let out = p.handle_host_in_per_port(0, &bytes);
    assert_eq!(device_bytes(&out), vec![bytes]);
}

#[test]
fn global_leds_are_laid_over_every_other_page() {
    let mut p = proxy_with_globals(4);
    let _ = p.handle_host_in_per_port(0, &parse::note_on(0, 11, 9));
    let _ = p.handle_host_in_per_port(0, &parse::cc(0, 19, 7));
    let _ = p.handle_host_in_per_port(0, &parse::note_on(0, 21, 3));
    let dev = device_bytes(&p.change_page_to(2));
    assert_eq!(
        dev[dev.len() - 2..].to_vec(),
        vec![
            parse::note_on(0, 11, 9).to_vec(),
            parse::cc(0, 19, 7).to_vec()
        ]
    );
    assert!(!dev.contains(&parse::note_on(0, 21, 3).to_vec()));
}

#[test]
fn globals_in_note_offset_mode() {
    let mut cfg = cfg_apc(2, Mode::NoteOffset);
    cfg.global_buttons = vec![ButtonRef::Note { number: 5 }];
    let mut p = Proxy::new(&cfg, Box::new(ApcMini));
    let _ = p.change_page_to(1);
    // The press is not shifted.
    let out = p.handle_device_in(&parse::note_on(0, 5, 100));
    assert_eq!(
        host_offset_bytes(&out),
        vec![parse::note_on(0, 5, 100).to_vec()]
    );
    // The LED is kept for page zero, by either number.
    for note in [5u8, 69] {
        let out = p.handle_host_in(&parse::note_on(0, note, 3));
        assert_eq!(device_bytes(&out), vec![parse::note_on(0, 5, 3).to_vec()]);
    }
    assert!(p.led_cache[0].contains_key(&CacheKey::Note(5)));
    assert!(p.led_cache[1].is_empty());
}

#[test]
fn a_single_page_needs_no_buttons() {
    let mut cfg = cfg_mini(1, Mode::PerPort);
    cfg.next_page_button = None;
    cfg.previous_page_button = None;
    let mut p = Proxy::new(&cfg, Box::new(MiniMk3));
    let out = p.handle_device_in(&parse::cc(0, 91, 127));
    assert_eq!(host_page_outs(&out), vec![(0, parse::cc(0, 91, 127).to_vec())]);
    assert!(p.paint_indicator_state().is_empty());
    assert_eq!(p.device().name(), "Launchpad Mini MK3");
}
