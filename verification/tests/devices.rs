use midi_pages::config::ButtonRef;
use midi_pages::midi::any_device::make_device;
use midi_pages::midi::apc_mini::{color, ApcMini};
use midi_pages::midi::device::{Device, Driver};
use midi_pages::midi::mini_mk3::MiniMk3;
use midi_pages::midi::sysex_lighting::{mini_mk3, ColorSpec, LightingSysex};

#[test]
fn velocity_table_exhaustive() {
    // pin all 7 documented codes
    assert_eq!(color::OFF, 0);
    assert_eq!(color::GREEN, 1);
    assert_eq!(color::GREEN_BLINK, 2);
    assert_eq!(color::RED, 3);
    assert_eq!(color::RED_BLINK, 4);
    assert_eq!(color::YELLOW, 5);
    assert_eq!(color::YELLOW_BLINK, 6);
}

#[test]
fn clear_all_sends_64_note_offs() {
    let out = ApcMini.clear_all();
    assert_eq!(out.len(), 64);
    assert!(out.iter().all(|m| m[2] == 0));
    for (i, m) in out.iter().enumerate() {
        assert_eq!(m[1], i as u8);
    }
}

#[test]
fn grid_extends_to_63() {
    assert!(ApcMini.is_grid_note(0));
    assert!(ApcMini.is_grid_note(63));
    assert!(!ApcMini.is_grid_note(64));
}

#[test]
fn mini_grid_has_eight_rows_of_eight() {
    let grid: Vec<u8> = (0u8..=255).filter(|n| MiniMk3.is_grid_note(*n)).collect();
    assert_eq!(grid.len(), 64);
    assert_eq!(grid[0], 11);
    assert_eq!(grid[63], 88);
    assert!(!MiniMk3.is_grid_note(19));
    assert!(!MiniMk3.is_grid_note(90));
    assert!((0u8..=255).all(|c| !MiniMk3.is_grid_cc(c)));
    assert!((0u8..=255).all(|c| !ApcMini.is_grid_cc(c)));
}

#[test]
fn mini_clears_its_grid_in_one_message() {
    let out = MiniMk3.clear_all();
    assert_eq!(out.len(), 1);
    let parsed = LightingSysex::parse(&out[0], mini_mk3()).unwrap();
    let leds: Vec<u8> = parsed.leds.iter().map(|led| led.led_index).collect();
    let grid: Vec<u8> = (0u8..=255).filter(|n| MiniMk3.is_grid_note(*n)).collect();
    assert_eq!(leds, grid);
    assert!(parsed.leds.iter().all(|led| led.color == ColorSpec::Static(0)));
}

#[test]
fn boot_selects_programmer_mode_on_the_mini_only() {
    assert_eq!(
        MiniMk3.boot(),
        vec![vec![0xF0, 0x00, 0x20, 0x29, 0x02, 0x0D, 0x0E, 0x01, 0xF7]]
    );
    assert!(ApcMini.boot().is_empty());
}

#[test]
fn buttons_are_painted_by_their_kind() {
    let note = ButtonRef::Note { number: 82 };
    let cc = ButtonRef::Cc { number: 91 };
    assert_eq!(MiniMk3.paint_button(cc, 21), vec![0xB0, 91, 21]);
    assert_eq!(ApcMini.paint_button(note, 3), vec![0x90, 82, 3]);
    assert_eq!(MiniMk3.clear_button(cc), vec![0xB0, 91, 0]);
    assert_eq!(
        ApcMini.paint_indicators(&[(note, 1), (cc, 0)]),
        vec![vec![0x90, 82, 1], vec![0xB0, 91, 0]]
    );
}

#[test]
fn default_colors_by_device() {
    assert_eq!((MiniMk3.flash_color(), MiniMk3.idle_color()), (21, 1));
    assert_eq!((ApcMini.flash_color(), ApcMini.idle_color()), (1, 0));
}

#[test]
fn drivers_make_their_device() {
    let mini = make_device(Driver::MiniMk3);
    let apc = make_device(Driver::ApcMini);
    assert_eq!(mini.name(), "Launchpad Mini MK3");
    assert_eq!(apc.name(), "APC mini");
    assert_eq!(mini.clear_all(), MiniMk3.clear_all());
    assert_eq!(apc.clear_all(), ApcMini.clear_all());
    assert_eq!(mini.boot(), MiniMk3.boot());
    assert!(apc.boot().is_empty());
    assert!(mini.is_grid_note(88) && !apc.is_grid_note(88));
    assert!(!mini.is_grid_cc(19) && !apc.is_grid_cc(19));
    let button = ButtonRef::Cc { number: 5 };
    assert_eq!(mini.paint_button(button, 9), apc.paint_button(button, 9));
    assert_eq!((mini.flash_color(), mini.idle_color()), (21, 1));
    assert_eq!((apc.flash_color(), apc.idle_color()), (1, 0));
}
