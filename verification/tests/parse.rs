use midi_pages::midi::parse::{cc, classify, note_off, note_on, Msg};

#[test]
fn classifies_note_on() {
    assert_eq!(
        classify(&[0x91, 60, 100]),
        Msg::NoteOn {
            channel: 1,
            note: 60,
            velocity: 100
        }
    );
}

#[test]
fn note_on_velocity_zero_is_note_off() {
    assert_eq!(
        classify(&[0x90, 60, 0]),
        Msg::NoteOff {
            channel: 0,
            note: 60,
            velocity: 0
        }
    );
}

#[test]
fn classifies_cc() {
    assert_eq!(
        classify(&[0xB0, 91, 1]),
        Msg::Cc {
            channel: 0,
            controller: 91,
            value: 1
        }
    );
}

#[test]
fn classifies_sysex() {
    let bytes = [0xF0, 0x00, 0x20, 0x29, 0x02, 0x0D, 0x0E, 0x01, 0xF7];
    match classify(&bytes) {
        Msg::SysEx(s) => assert_eq!(s, &bytes),
        other => panic!("not sysex: {other:?}"),
    }
}

#[test]
fn empty_is_other() {
    assert_eq!(classify(&[]), Msg::Other(&[]));
}

#[test]
fn truncated_note_on_is_other() {
    assert_eq!(classify(&[0x90, 60]), Msg::Other(&[0x90, 60][..]));
}

#[test]
fn classifies_note_off_with_its_velocity() {
    assert_eq!(
        classify(&[0x83, 7, 64]),
        Msg::NoteOff {
            channel: 3,
            note: 7,
            velocity: 64
        }
    );
}

#[test]
fn other_channel_messages_are_other() {
    assert_eq!(classify(&[0xC0, 5, 0]), Msg::Other(&[0xC0, 5, 0][..]));
    assert_eq!(classify(&[0xE0, 1, 2]), Msg::Other(&[0xE0, 1, 2][..]));
    assert_eq!(classify(&[0xF8]), Msg::Other(&[0xF8][..]));
}

#[test]
fn builders_cut_their_fields() {
    assert_eq!(note_on(0x1F, 0xFF, 0x80), [0x9F, 0x7F, 0x00]);
    assert_eq!(note_off(0x20, 130, 127), [0x80, 2, 127]);
    assert_eq!(cc(5, 200, 255), [0xB5, 72, 127]);
}

#[test]
fn built_messages_are_read_back() {
    for channel in 0u8..16 {
        assert_eq!(
            classify(&note_on(channel, 64, 1)),
            Msg::NoteOn {
                channel,
                note: 64,
                velocity: 1
            }
        );
        assert_eq!(
            classify(&note_off(channel, 64, 1)),
            Msg::NoteOff {
                channel,
                note: 64,
                velocity: 1
            }
        );
        assert_eq!(
            classify(&cc(channel, 64, 0)),
            Msg::Cc {
                channel,
                controller: 64,
                value: 0
            }
        );
    }
}
