use midi_pages::text::{
    contains, is_white_space, push_decimal, push_hexadecimal, push_padded_hexadecimal, same_text,
};

#[test]
fn white_space_is_unicode_white_space() {
    for n in 0u32..=0x10FFFF {
        if let Some(c) = char::from_u32(n) {
            assert_eq!(is_white_space(c), c.is_whitespace(), "{n:x}");
        }
    }
}

#[test]
fn numbers_are_written_as_std_writes_them() {
    for n in [0u64, 7, 9, 10, 99, 100, 255, 4096, u64::MAX] {
        let mut text = String::new();
        push_decimal(&mut text, n);
        text.push(' ');
        push_hexadecimal(&mut text, n);
        text.push(' ');
        push_padded_hexadecimal(&mut text, n, 16);
        assert_eq!(text, format!("{n} {n:x} {n:016x}"));
    }
}

#[test]
fn substrings_are_found_as_std_finds_them() {
    let texts = ["", "a", "ab", "aab", "LPMiniMK3 MIDI)", "\u{e9}a\u{e9}"];
    for hay in texts {
        for needle in texts {
            assert_eq!(contains(hay, needle), hay.contains(needle));
            assert_eq!(same_text(hay, needle), hay == needle);
        }
    }
}
