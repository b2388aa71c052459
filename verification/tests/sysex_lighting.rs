use midi_pages::midi::sysex_lighting::{
    launchpad_x, mini_mk3, ColorSpec, LedSpec, LightingSysex, SysexError,
};

fn lighting(leds: Vec<LedSpec>) -> Vec<u8> {
    LightingSysex {
        model: mini_mk3(),
        leds,
    }
    .emit()
}

#[test]
fn parse_one_static_led() {
    let bytes = lighting(vec![LedSpec {
        led_index: 11,
        color: ColorSpec::Static(5),
    }]);
    let parsed = LightingSysex::parse(&bytes, mini_mk3()).unwrap();
    assert_eq!(parsed.leds.len(), 1);
    assert_eq!(parsed.leds[0].led_index, 11);
    assert_eq!(parsed.leds[0].color, ColorSpec::Static(5));
}

#[test]
fn parse_64_rgb_leds_in_order() {
    let leds: Vec<_> = (0u8..64)
        .map(|i| LedSpec {
            led_index: i,
            color: ColorSpec::Rgb {
                r: i,
                g: 0,
                b: 127 - i,
            },
        })
        .collect();
    let bytes = lighting(leds.clone());
    let parsed = LightingSysex::parse(&bytes, mini_mk3()).unwrap();
    assert_eq!(parsed.leds, leds);
}

#[test]
fn round_trip_mixed_specs() {
    let leds = vec![
        LedSpec {
            led_index: 1,
            color: ColorSpec::Static(5),
        },
        LedSpec {
            led_index: 2,
            color: ColorSpec::Flashing {
                color_a: 10,
                color_b: 20,
            },
        },
        LedSpec {
            led_index: 3,
            color: ColorSpec::Pulsing(7),
        },
        LedSpec {
            led_index: 4,
            color: ColorSpec::Rgb { r: 1, g: 2, b: 3 },
        },
    ];
    let bytes = lighting(leds.clone());
    let parsed = LightingSysex::parse(&bytes, mini_mk3()).unwrap();
    assert_eq!(parsed.leds, leds);
    assert_eq!(parsed.emit(), bytes);
}

#[test]
fn rejects_wrong_manufacturer() {
    let bytes = [0xF0, 0x7E, 0x00, 0x06, 0x01, 0xF7];
    assert_eq!(
        LightingSysex::parse(&bytes, mini_mk3()),
        Err(SysexError::NotLighting)
    );
}

#[test]
fn rejects_missing_terminator() {
    let mut bytes = lighting(vec![LedSpec {
        led_index: 0,
        color: ColorSpec::Static(1),
    }]);
    bytes.pop();
    assert_eq!(
        LightingSysex::parse(&bytes, mini_mk3()),
        Err(SysexError::NoTerminator)
    );
}

#[test]
fn rejects_unknown_spec() {
    // F0 00 20 29 02 0D 03 0F 00 F7: spec 0x0F is undefined
    let bytes = [0xF0, 0x00, 0x20, 0x29, 0x02, 0x0D, 0x03, 0x0F, 0x00, 0xF7];
    assert!(matches!(
        LightingSysex::parse(&bytes, mini_mk3()),
        Err(SysexError::UnknownSpec(0x0F))
    ));
}

#[test]
fn rejects_truncated_triplet() {
    // valid header, then spec 0x03 (RGB) followed by only 2 bytes of color
    let bytes = [
        0xF0, 0x00, 0x20, 0x29, 0x02, 0x0D, 0x03, 0x03, 11, 1, 2, 0xF7,
    ];
    assert!(matches!(
        LightingSysex::parse(&bytes, mini_mk3()),
        Err(SysexError::Truncated(_))
    ));
}

#[test]
fn looks_like_is_cheap_and_correct() {
    let bytes = lighting(vec![LedSpec {
        led_index: 0,
        color: ColorSpec::Static(1),
    }]);
    assert!(LightingSysex::looks_like(&bytes, mini_mk3()));
    assert!(!LightingSysex::looks_like(&bytes, launchpad_x()));
    assert!(!LightingSysex::looks_like(&[0xF0, 0xF7], mini_mk3()));
}

#[test]
fn programmer_mode_select_is_not_lighting() {
    // Programmer/Live mode select message: F0 00 20 29 02 0D 0E 01 F7
    let bytes = [0xF0, 0x00, 0x20, 0x29, 0x02, 0x0D, 0x0E, 0x01, 0xF7];
    assert!(!LightingSysex::looks_like(&bytes, mini_mk3()));
    assert_eq!(
        LightingSysex::parse(&bytes, mini_mk3()),
        Err(SysexError::NotLighting)
    );
}

#[test]
fn parser_does_not_panic_on_arbitrary_bytes() {
    let mut state: u64 = 0x9E37_79B9_7F4A_7C15;
    for len in 0usize..256 {
        let mut bytes = Vec::new();
        for _ in 0..len {
            state = state.wrapping_mul(6364136223846793005).wrapping_add(1442695040888963407);
            bytes.push((state >> 56) as u8);
        }
        let _ = LightingSysex::parse(&bytes, mini_mk3());
        let mut framed = vec![0xF0, 0x00, 0x20, 0x29, 0x02, 0x0D, 0x03];
        framed.extend_from_slice(&bytes);
        framed.push(0xF7);
        if let Ok(parsed) = LightingSysex::parse(&framed, mini_mk3()) {
            assert_eq!(parsed.emit(), framed);
        }
    }
}

#[test]
fn emits_the_documented_bytes() {
    assert_eq!(
        lighting(vec![LedSpec {
            led_index: 11,
            color: ColorSpec::Rgb { r: 0, g: 127, b: 1 },
        }]),
        vec![0xF0, 0x00, 0x20, 0x29, 0x02, 0x0D, 0x03, 0x03, 11, 0, 127, 1, 0xF7]
    );
    assert_eq!(
        LightingSysex {
            model: launchpad_x(),
            leds: vec![]
        }
        .emit(),
        vec![0xF0, 0x00, 0x20, 0x29, 0x02, 0x0C, 0x03, 0xF7]
    );
}

#[test]
fn rejects_what_is_no_sysex() {
    assert_eq!(
        LightingSysex::parse(&[], mini_mk3()),
        Err(SysexError::NotSysex)
    );
    assert_eq!(
        LightingSysex::parse(&[0x90, 1, 2], mini_mk3()),
        Err(SysexError::NotSysex)
    );
}

#[test]
fn errors_say_what_is_wrong() {
    assert_eq!(
        SysexError::NotSysex.message(),
        "not a sysex (does not start with F0)"
    );
    assert_eq!(SysexError::NoTerminator.message(), "missing F7 terminator");
    assert_eq!(
        SysexError::NotLighting.message(),
        "not a Novation lighting message (manufacturer/model mismatch)"
    );
    assert_eq!(
        SysexError::Truncated(12).message(),
        "payload truncated mid-triplet at byte 12"
    );
    assert_eq!(
        SysexError::UnknownSpec(0xAF).message(),
        "unknown color spec 0xaf"
    );
}

#[test]
fn models_have_their_names() {
    assert_eq!(mini_mk3().name, "Launchpad Mini MK3");
    assert_eq!(mini_mk3().model_byte, 0x0D);
    assert_eq!(launchpad_x().name, "Launchpad X");
    assert_eq!(launchpad_x().model_byte, 0x0C);
}
