use midi_pages::config::hex::parse_hex;
use midi_pages::config::validate::{ConfigFault, DeviceFault};
use midi_pages::config::{
    slugify, ButtonRef, ColorConfig, Config, ConfigError, DeviceConfig, Mode, PageButton, PortMatch,
};
use midi_pages::midi::device::Driver;

/// A device with every optional setting left out.
fn bare(name: &str, port: &str, pages: u8) -> DeviceConfig {
    DeviceConfig {
        name: name.into(),
        port_match: PortMatch::Simple(port.into()),
        driver: Driver::MiniMk3,
        pages,
        mode: Mode::default(),
        host_port_in: None,
        host_port_out: None,
        note_offset: None,
        page_port_prefix: None,
        boot_sysex: None,
        next_page_button: None,
        previous_page_button: None,
        page_buttons: vec![],
        page_buttons_hold_to_preview: false,
        colors: ColorConfig::default(),
        global_buttons: vec![],
    }
}

fn cc(number: u8) -> ButtonRef {
    ButtonRef::Cc { number }
}

fn note(number: u8) -> ButtonRef {
    ButtonRef::Note { number }
}

fn entry(button: ButtonRef) -> PageButton {
    PageButton {
        button,
        page: None,
        hold_to_preview: None,
    }
}

fn pinned(button: ButtonRef, page: u8) -> PageButton {
    PageButton {
        button,
        page: Some(page),
        hold_to_preview: None,
    }
}

fn valid_note_offset() -> DeviceConfig {
    DeviceConfig {
        mode: Mode::NoteOffset,
        host_port_in: Some("host-in".into()),
        host_port_out: Some("host-out".into()),
        note_offset: Some(64),
        boot_sysex: Some(parse_hex("F0 00 20 29 02 0D 0E 01 F7").unwrap()),
        next_page_button: Some(cc(91)),
        previous_page_button: Some(cc(92)),
        ..bare("Mini", "Launchpad Mini", 2)
    }
}

fn valid_per_port() -> DeviceConfig {
    DeviceConfig {
        next_page_button: Some(cc(91)),
        previous_page_button: Some(cc(92)),
        ..bare("Launchpad Mini MK3", "Launchpad Mini", 4)
    }
}

fn config(device: DeviceConfig) -> Config {
    Config {
        devices: vec![device],
    }
}

/// What is said of a configuration that is rejected.
fn complaint(cfg: &Config) -> String {
    let err = cfg.validate().unwrap_err();
    let ConfigError::Invalid(s) = err else { panic!("wrong err type") };
    s
}

fn with_page_buttons(pages: u8, page_buttons: Vec<PageButton>) -> DeviceConfig {
    DeviceConfig {
        next_page_button: Some(cc(91)),
        page_buttons,
        ..bare("M", "P", pages)
    }
}

#[test]
fn parses_simple_port_match() {
    let cfg = config(valid_per_port());
    cfg.validate().unwrap();
    assert_eq!(
        cfg.devices[0].port_match,
        PortMatch::Simple("Launchpad Mini".into())
    );
    assert_eq!(cfg.devices[0].port_match.input(), "Launchpad Mini");
    assert_eq!(cfg.devices[0].port_match.output(), "Launchpad Mini");
}

#[test]
fn parses_split_port_match() {
    let mut device = bare("Weird", "", 1);
    device.port_match = PortMatch::Split {
        input: "Weird IN".into(),
        output: "Weird OUT".into(),
    };
    let cfg = config(device);
    cfg.validate().unwrap();
    assert_eq!(cfg.devices[0].port_match.input(), "Weird IN");
    assert_eq!(cfg.devices[0].port_match.output(), "Weird OUT");
}

#[test]
fn duplicate_port_match_split_vs_simple_rejected() {
    // Simple "X" and Split { in = "X", out = "Y" } collide on input.
    let a = bare("A", "X", 1);
    let mut b = bare("B", "", 1);
    b.port_match = PortMatch::Split {
        input: "X".into(),
        output: "Y".into(),
    };
    let cfg = Config {
        devices: vec![a, b],
    };
    let s = complaint(&cfg);
    assert!(s.contains("duplicate input"), "{s}");
    assert_eq!(s, "duplicate input port_match `X` between `A` and `B`");
}

#[test]
fn parses_note_offset() {
    let cfg = config(valid_note_offset());
    cfg.validate().unwrap();
    assert_eq!(cfg.devices[0].mode, Mode::NoteOffset);
    assert_eq!(cfg.devices[0].note_offset_value(), 64);
}

#[test]
fn parses_per_port_with_defaults() {
    let cfg = config(valid_per_port());
    cfg.validate().unwrap();
    assert_eq!(cfg.devices[0].mode, Mode::PerPort);
    assert_eq!(cfg.devices[0].pages, 4);

    let names = cfg.devices[0].page_port_names();
    assert_eq!(
        names,
        vec![
            "launchpad-mini-mk3-page1",
            "launchpad-mini-mk3-page2",
            "launchpad-mini-mk3-page3",
            "launchpad-mini-mk3-page4",
        ]
    );
}

#[test]
fn rejects_zero_pages() {
    let mut bad = valid_note_offset();
    bad.pages = 0;
    let cfg = config(bad);
    assert!(matches!(cfg.validate(), Err(ConfigError::Invalid(_))));
    assert_eq!(complaint(&cfg), "Mini: pages must be >= 1");
}

#[test]
fn rejects_same_button_for_next_and_previous() {
    let mut bad = valid_note_offset();
    bad.previous_page_button = Some(cc(91));
    let cfg = config(bad);
    assert!(matches!(cfg.validate(), Err(ConfigError::Invalid(_))));
    assert_eq!(
        complaint(&cfg),
        "Mini: next_page_button and previous_page_button must differ"
    );
}

#[test]
fn rejects_overlapping_port_match() {
    let cfg = Config {
        devices: vec![valid_per_port(), valid_per_port()],
    };
    assert!(matches!(cfg.validate(), Err(ConfigError::Invalid(_))));
}

#[test]
fn rejects_excessive_pages_for_midi_range() {
    // 4 pages * 64 = 256 > 128 in note_offset mode: must be rejected.
    let mut bad = valid_note_offset();
    bad.pages = 4;
    let err = config(bad).validate().unwrap_err();
    match err {
        ConfigError::Invalid(s) => {
            assert!(s.contains("MIDI range"));
            assert!(s.starts_with("Mini: pages*note_offset = 256 exceeds"), "{s}");
        }
        other => panic!("unexpected error: {other:?}"),
    }
}

#[test]
fn per_port_mode_allows_many_pages() {
    // What note_offset rejects, per_port allows.
    let mut many = valid_per_port();
    many.pages = 16;
    let cfg = config(many);
    cfg.validate().unwrap();
    assert_eq!(cfg.devices[0].page_port_names().len(), 16);
}

#[test]
fn rejects_per_port_with_host_port_set() {
    let mut bad = valid_per_port();
    bad.host_port_in = Some("x".into());
    bad.host_port_out = Some("y".into());
    let cfg = config(bad);
    assert!(matches!(cfg.validate(), Err(ConfigError::Invalid(_))));
    assert_eq!(
        complaint(&cfg),
        "Launchpad Mini MK3: mode=per_port does not use host_port_in / host_port_out. \
         Remove them or set mode=note_offset."
    );
}

#[test]
fn rejects_note_offset_without_host_ports() {
    let mut bad = valid_note_offset();
    bad.host_port_in = None;
    bad.host_port_out = None;
    let s = complaint(&config(bad));
    assert!(s.contains("host_port_in"), "{s}");
}

#[test]
fn rejects_page_button_collision_with_next_prev() {
    let mut bad = valid_note_offset();
    bad.page_buttons = vec![entry(cc(91))];
    let cfg = config(bad);
    assert!(matches!(cfg.validate(), Err(ConfigError::Invalid(_))));
    assert_eq!(
        complaint(&cfg),
        "Mini: page_buttons collides with next/previous_page_button"
    );
}

#[test]
fn rejects_hold_to_preview_without_page_buttons() {
    let mut bad = valid_per_port();
    bad.page_buttons_hold_to_preview = true;
    let s = complaint(&config(bad));
    assert!(s.contains("page_buttons_hold_to_preview"), "{s}");
}

#[test]
fn rejects_no_page_navigation_when_pages_gt_1() {
    let s = complaint(&config(bare("Mini", "Launchpad Mini", 4)));
    assert!(s.contains("pages > 1 requires"), "{s}");
    assert_eq!(
        s,
        "Mini: pages > 1 requires at least one of next_page_button, \
         previous_page_button, or page_buttons"
    );
}

#[test]
fn allows_no_navigation_when_pages_eq_1() {
    config(bare("Mini", "Launchpad Mini", 1)).validate().unwrap();
}

#[test]
fn parses_all_three_modes() {
    // Mode A: only next/prev.
    let mut a = bare("Mini", "Launchpad Mini", 4);
    a.next_page_button = Some(cc(91));
    a.previous_page_button = Some(cc(92));
    config(a.clone()).validate().unwrap();

    // Mode B: page_buttons (no hold).
    let buttons = vec![entry(cc(89)), entry(cc(79)), entry(cc(69)), entry(cc(59))];
    let mut b = bare("Mini", "Launchpad Mini", 4);
    b.page_buttons = buttons.clone();
    config(b).validate().unwrap();

    // Mode C: page_buttons + hold + optional next/prev.
    let mut c = a;
    c.page_buttons = buttons;
    c.page_buttons_hold_to_preview = true;
    config(c).validate().unwrap();
}

#[test]
fn parses_optional_colors_block() {
    let mut with = bare("Mini", "Launchpad Mini", 4);
    with.next_page_button = Some(cc(91));
    let without = with.clone();
    with.colors = ColorConfig {
        active: Some(99),
        preview: Some(13),
        ..ColorConfig::default()
    };
    let cfg = config(with);
    cfg.validate().unwrap();
    assert_eq!(cfg.devices[0].colors.active, Some(99));
    assert_eq!(cfg.devices[0].colors.inactive, None);
    assert_eq!(cfg.devices[0].colors.preview, Some(13));

    // Same config without the block: all None.
    let cfg2 = config(without);
    cfg2.validate().unwrap();
    assert_eq!(cfg2.devices[0].colors, ColorConfig::default());
}

#[test]
fn parses_all_new_color_fields() {
    let mut device = bare("Mini", "Launchpad Mini", 4);
    device.next_page_button = Some(cc(91));
    device.colors = ColorConfig {
        active: Some(21),
        inactive: Some(1),
        preview: Some(13),
        active_cycle: Some(30),
        inactive_cycle: Some(31),
        active_preview: Some(45),
        inactive_preview: Some(46),
    };
    let cfg = config(device);
    cfg.validate().unwrap();
    let c = &cfg.devices[0].colors;
    assert_eq!(c.active, Some(21));
    assert_eq!(c.inactive, Some(1));
    assert_eq!(c.preview, Some(13));
    assert_eq!(c.active_cycle, Some(30));
    assert_eq!(c.inactive_cycle, Some(31));
    assert_eq!(c.active_preview, Some(45));
    assert_eq!(c.inactive_preview, Some(46));
}

#[test]
fn parses_global_buttons() {
    let mut device = bare("Mini", "Launchpad Mini", 4);
    device.next_page_button = Some(cc(91));
    device.global_buttons = vec![note(11), note(18)];
    let cfg = config(device);
    cfg.validate().unwrap();
    assert_eq!(cfg.devices[0].global_buttons.len(), 2);
}

#[test]
fn accepts_non_grid_cc_as_global_button() {
    // Top-row arrows on Mini MK3 are CCs that `is_grid_cc` returns false
    // for; they're still legitimate global targets (passthrough to page 0).
    let mut device = bare("Mini", "Launchpad Mini", 2);
    device.next_page_button = Some(cc(91));
    device.global_buttons = vec![cc(19), cc(95)];
    config(device).validate().unwrap();
}

#[test]
fn rejects_duplicate_global_buttons() {
    let mut device = bare("Mini", "Launchpad Mini", 2);
    device.next_page_button = Some(cc(91));
    device.global_buttons = vec![note(11), note(11)];
    let s = complaint(&config(device));
    assert!(s.contains("duplicate global_buttons"), "{s}");
    assert_eq!(
        s,
        format!("Mini: duplicate global_buttons entry {:?}", note(11))
    );
}

#[test]
fn rejects_global_button_collides_with_page_button() {
    let mut device = bare("Mini", "Launchpad Mini", 2);
    device.next_page_button = Some(cc(91));
    device.page_buttons = vec![entry(note(11))];
    device.global_buttons = vec![note(11)];
    let s = complaint(&config(device));
    assert!(s.contains("collides with a page_buttons"), "{s}");
}

#[test]
fn rejects_global_button_outside_note_offset_range() {
    let device = DeviceConfig {
        driver: Driver::ApcMini,
        mode: Mode::NoteOffset,
        host_port_in: Some("in".into()),
        host_port_out: Some("out".into()),
        note_offset: Some(32),
        next_page_button: Some(note(98)),
        global_buttons: vec![note(40)],
        ..bare("APC", "APC MINI", 2)
    };
    let s = complaint(&config(device));
    assert!(s.contains("globals must live in page 0"), "{s}");
    assert_eq!(
        s,
        "APC: in mode=note_offset, global_buttons entry Note { number: 40 } has number 40 \
         >= note_offset 32; globals must live in page 0's range."
    );
}

#[test]
fn rejects_too_many_page_buttons() {
    let mut bad = valid_per_port();
    bad.page_buttons = vec![
        entry(cc(89)),
        entry(cc(79)),
        entry(cc(69)),
        entry(cc(59)),
        entry(cc(49)),
    ];
    let s = complaint(&config(bad));
    assert!(s.contains("entries but pages"), "{s}");
    assert_eq!(
        s,
        "Launchpad Mini MK3: page_buttons has 5 entries but pages = 4. \
         Extras would be unreachable."
    );
}

#[test]
fn parses_page_buttons_with_explicit_page_field() {
    let cfg = config(with_page_buttons(
        4,
        vec![
            pinned(cc(89), 3),
            entry(cc(79)),
            PageButton {
                hold_to_preview: Some(true),
                ..entry(cc(69))
            },
        ],
    ));
    cfg.validate().unwrap();
    let resolved = cfg.devices[0].resolved_page_buttons();
    assert_eq!(resolved.len(), 3);
    assert_eq!(resolved[0].page, 3);
    assert!(!resolved[0].hold);
    assert_eq!(resolved[1].page, 0);
    assert!(!resolved[1].hold);
    assert_eq!(resolved[2].page, 1);
    assert!(resolved[2].hold);
}

#[test]
fn auto_assigns_lowest_free_page_in_declaration_order() {
    // Walk declaration order: entry 0 explicit 2; entry 1 unconstrained
    // claims 0 (lowest not in `used={2}`); entry 2 claims 1; entry 3
    // explicit 0 collides with entry 1's earlier claim. Both buttons
    // end up on page 0. This is allowed per the documented behaviour
    // (auto-then-explicit collisions are intentional).
    let cfg = config(with_page_buttons(
        4,
        vec![
            pinned(cc(89), 2),
            entry(cc(79)),
            entry(cc(69)),
            pinned(cc(59), 0),
        ],
    ));
    cfg.validate().unwrap();
    let resolved = cfg.devices[0].resolved_page_buttons();
    assert_eq!(
        resolved.iter().map(|pb| pb.page).collect::<Vec<_>>(),
        vec![2, 0, 1, 0],
        "declaration-order walk; explicit page = 0 at the end shares page 0 with the first auto-assigned"
    );
}

#[test]
fn auto_then_explicit_can_collide() {
    let cfg = config(with_page_buttons(
        4,
        vec![entry(cc(89)), pinned(cc(79), 0)],
    ));
    cfg.validate().unwrap();
    let resolved = cfg.devices[0].resolved_page_buttons();
    assert_eq!(
        resolved[0].page, 0,
        "unconstrained entry claims page 0 in declaration order"
    );
    assert_eq!(
        resolved[1].page, 0,
        "explicit page = 0 is taken as written; two buttons share page 0"
    );
}

#[test]
fn rejects_duplicate_explicit_pages() {
    let cfg = config(with_page_buttons(
        4,
        vec![pinned(cc(89), 2), pinned(cc(79), 2)],
    ));
    let s = complaint(&cfg);
    assert!(s.contains("pin to page = 2"), "{s}");
}

#[test]
fn rejects_page_out_of_range() {
    let cfg = config(with_page_buttons(2, vec![pinned(cc(89), 5)]));
    let s = complaint(&cfg);
    assert!(s.contains("page = 5"), "{s}");
    assert_eq!(s, "M: page_buttons entry has page = 5 but pages = 2.");
}

#[test]
fn per_button_hold_to_preview_overrides_global() {
    let mut device = with_page_buttons(
        3,
        vec![
            PageButton {
                hold_to_preview: Some(false),
                ..entry(cc(89))
            },
            entry(cc(79)),
        ],
    );
    device.page_buttons_hold_to_preview = true;
    let cfg = config(device);
    cfg.validate().unwrap();
    let resolved = cfg.devices[0].resolved_page_buttons();
    assert!(!resolved[0].hold, "explicit per-button false overrides global true");
    assert!(resolved[1].hold, "missing per-button defaults to global true");
}

#[test]
fn parses_hex_sysex() {
    assert_eq!(
        parse_hex("F0 00 20 29 F7").unwrap(),
        vec![0xF0, 0x00, 0x20, 0x29, 0xF7]
    );
}

#[test]
fn slugify_handles_spaces_and_punctuation() {
    assert_eq!(slugify("Launchpad Mini MK3"), "launchpad-mini-mk3");
    assert_eq!(slugify("APC mini!"), "apc-mini");
    assert_eq!(slugify("multi   spaces"), "multi-spaces");
}

// -- Faults not met above --------------------------------------------------

#[test]
fn rejects_a_config_without_devices() {
    let cfg = Config { devices: vec![] };
    assert_eq!(complaint(&cfg), "no [[device]] sections defined");
    assert_eq!(cfg.find_fault(), Some(ConfigFault::NoDevices));
}

#[test]
fn rejects_duplicate_page_buttons() {
    let cfg = config(with_page_buttons(4, vec![entry(cc(89)), entry(cc(89))]));
    assert_eq!(
        complaint(&cfg),
        "M: page_buttons contains duplicate button entry"
    );
}

#[test]
fn rejects_global_button_that_cycles() {
    let mut device = valid_per_port();
    device.global_buttons = vec![cc(92)];
    assert_eq!(
        complaint(&config(device)),
        "Launchpad Mini MK3: global_buttons entry Cc { number: 92 } collides with \
         next/previous_page_button"
    );
}

#[test]
fn rejects_zero_note_offset() {
    let mut device = valid_note_offset();
    device.note_offset = Some(0);
    assert_eq!(complaint(&config(device)), "Mini: note_offset must be >= 1");
}

#[test]
fn rejects_port_names_that_windows_would_cut() {
    let mut device = valid_per_port();
    device.page_port_prefix = Some("abcdefghijklmnopqrstuvwxy".into());
    config(device.clone()).validate().unwrap();
    device.pages = 10;
    assert_eq!(
        complaint(&config(device)),
        "Launchpad Mini MK3: generated port name `abcdefghijklmnopqrstuvwxy-page10` is 32 chars; \
         Windows truncates MIDI device names at 31 chars. Set a shorter `page_port_prefix` \
         in this device section."
    );
}

#[test]
fn port_name_lengths_count_bytes() {
    let mut device = valid_per_port();
    device.page_port_prefix = Some("\u{e9}".repeat(13));
    assert_eq!(
        device.find_fault(),
        Some(DeviceFault::PortNameTooLong)
    );
    device.page_port_prefix = Some("\u{e9}".repeat(12));
    assert_eq!(device.find_fault(), None);
}

#[test]
fn rejects_a_shared_output() {
    let a = bare("A", "X", 1);
    let mut b = bare("B", "", 1);
    b.port_match = PortMatch::Split {
        input: "Y".into(),
        output: "X".into(),
    };
    let cfg = Config {
        devices: vec![a, b],
    };
    assert_eq!(
        complaint(&cfg),
        "duplicate output port_match `X` between `A` and `B`"
    );
    assert_eq!(
        cfg.find_fault(),
        Some(ConfigFault::DuplicateOutput {
            first: 0,
            second: 1
        })
    );
}

#[test]
fn the_first_fault_is_reported() {
    let mut second = bare("Second", "Y", 0);
    second.page_buttons_hold_to_preview = true;
    let cfg = Config {
        devices: vec![bare("First", "Y", 1), second],
    };
    assert_eq!(
        cfg.find_fault(),
        Some(ConfigFault::Device {
            index: 1,
            fault: DeviceFault::ZeroPages
        })
    );
}

#[test]
fn errors_name_their_cause() {
    assert_eq!(
        ConfigError::Io("gone".into()).message(),
        "read config: gone"
    );
    assert_eq!(
        ConfigError::Parse("odd".into()).message(),
        "parse config: odd"
    );
    assert_eq!(
        ConfigError::Invalid("bad".into()).message(),
        "invalid config: bad"
    );
}

// -- Names -----------------------------------------------------------------

#[test]
fn a_configured_prefix_is_kept_as_it_is() {
    let mut device = bare("Launchpad", "P", 2);
    assert_eq!(device.effective_prefix(), "launchpad");
    device.page_port_prefix = Some("My Pad".into());
    assert_eq!(device.effective_prefix(), "My Pad");
    assert_eq!(
        device.page_port_names(),
        vec!["My Pad-page1", "My Pad-page2"]
    );
}

#[test]
fn slugs_are_plain_and_stay_as_they_are() {
    for text in ["", "---", "A--b", " x ", "\u{c9}t\u{e9} 9", "a-b-c", "Ab9_zZ"] {
        let slug = slugify(text);
        assert_eq!(slugify(&slug), slug);
        assert!(slug
            .chars()
            .all(|c| c == '-' || c.is_ascii_digit() || c.is_ascii_lowercase()));
        assert!(!slug.starts_with('-') && !slug.ends_with('-') && !slug.contains("--"));
    }
    assert_eq!(slugify("\u{c9}t\u{e9} 9"), "t-9");
    assert_eq!(slugify("Ab9_zZ"), "ab9-zz");
}

#[test]
fn port_names_of_a_device_differ() {
    let mut names = bare("x", "P", 255).page_port_names();
    assert_eq!(names[254], "x-page255");
    names.sort();
    names.dedup();
    assert_eq!(names.len(), 255);
}

#[test]
fn port_matches_describe_themselves() {
    assert_eq!(PortMatch::Simple("a \"b\"".into()).describe(), "a \"b\"");
    assert_eq!(
        PortMatch::Split {
            input: "in \"1\"".into(),
            output: "out\n".into()
        }
        .describe(),
        "in=\"in \\\"1\\\"\", out=\"out\\n\""
    );
}

#[test]
fn buttons_have_numbers() {
    assert_eq!(cc(91).number(), 91);
    assert_eq!(note(11).number(), 11);
}

#[test]
fn note_offset_defaults_to_64() {
    assert_eq!(bare("x", "y", 1).note_offset_value(), 64);
    assert_eq!(Mode::default(), Mode::PerPort);
}

// -- Page buttons ----------------------------------------------------------

#[test]
fn every_page_can_be_claimed() {
    let entries: Vec<PageButton> = (0u8..=255).map(|n| entry(cc(n))).collect();
    let resolved = with_page_buttons(255, entries).resolved_page_buttons();
    let pages: Vec<u8> = resolved.iter().map(|pb| pb.page).collect();
    assert_eq!(pages, (0u8..=255).collect::<Vec<u8>>());
}

#[test]
fn pages_without_a_button_are_named() {
    let mut device = with_page_buttons(5, vec![entry(cc(89)), pinned(cc(79), 3)]);
    assert!(device.unreachable_pages().is_empty());
    device.next_page_button = None;
    assert_eq!(device.unreachable_pages(), vec![1, 2, 4]);
    device.previous_page_button = Some(cc(92));
    assert!(device.unreachable_pages().is_empty());
}

// -- Hexadecimal -----------------------------------------------------------

#[test]
fn hex_words_may_carry_marks_and_signs() {
    assert_eq!(
        parse_hex(" 0xF0\t0x0x7e\n+7 00000f\u{a0}a ").unwrap(),
        vec![0xF0, 0x7E, 7, 15, 10]
    );
    assert_eq!(parse_hex("").unwrap(), Vec::<u8>::new());
}

#[test]
fn hex_words_are_read_as_std_reads_them() {
    for word in ["ff", "FF", "100", "0100", "+", "-1", "g", "0x", "1_0", "", "+ff", "++1"] {
        let expected = u8::from_str_radix(word, 16).map_err(|e| e.to_string());
        let found = parse_hex(&format!("01 {word} zz"));
        match expected {
            Ok(_) => assert_eq!(found, u8::from_str_radix("zz", 16).map_err(|e| e.to_string()).map(|b| vec![b])),
            Err(text) => {
                let digits = word.trim_start_matches("0x");
                let text = if word.is_empty() {
                    u8::from_str_radix("zz", 16).unwrap_err().to_string()
                } else if digits != word {
                    u8::from_str_radix(digits, 16).unwrap_err().to_string()
                } else {
                    text
                };
                assert_eq!(found, Err(text), "{word}");
            }
        }
    }
    assert_eq!(parse_hex("01 FF 7f").unwrap(), vec![1, 255, 127]);
}
