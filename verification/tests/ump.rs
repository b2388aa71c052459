use midi_pages::midi::ump::{encode, split_packets, Decoder};

#[test]
fn note_on_round_trip() {
    let bytes = vec![0x90u8, 60, 100];
    let words = encode(&bytes, 0);
    assert_eq!(words, vec![0x20903C64]);
    let decoded = Decoder::new().feed(&words);
    assert_eq!(decoded, vec![bytes]);
}

#[test]
fn cc_round_trip() {
    let bytes = vec![0xB0u8, 91, 1];
    let words = encode(&bytes, 0);
    assert_eq!(words.len(), 1);
    let decoded = Decoder::new().feed(&words);
    assert_eq!(decoded, vec![bytes]);
}

#[test]
fn sysex_small_round_trip() {
    // F0 00 20 29 02 0D 0E 01 F7 : programmer mode select (8 payload bytes)
    let bytes = vec![0xF0, 0x00, 0x20, 0x29, 0x02, 0x0D, 0x0E, 0x01, 0xF7];
    let words = encode(&bytes, 0);
    // 8 payload bytes => 2 MT3 packets (start with 6 bytes, end with 2 bytes) => 4 words.
    assert_eq!(words.len(), 4);
    let decoded = Decoder::new().feed(&words);
    assert_eq!(decoded, vec![bytes]);
}

#[test]
fn sysex_large_round_trip() {
    // Simulate a 64-LED bulk lighting SysEx (~328 bytes)
    let mut bytes = vec![0xF0, 0x00, 0x20, 0x29, 0x02, 0x0D, 0x03];
    for i in 0u8..64 {
        bytes.extend_from_slice(&[0x03, 11 + i, i, 0, 0]); // RGB spec, led_index, R, G, B
    }
    bytes.push(0xF7);
    let words = encode(&bytes, 0);
    let decoded = Decoder::new().feed(&words);
    assert_eq!(decoded.len(), 1);
    assert_eq!(decoded[0], bytes);
}

#[test]
fn sysex_exact_6_bytes_uses_single_complete() {
    let bytes = vec![0xF0, 1, 2, 3, 4, 5, 6, 0xF7]; // 6 payload bytes
    let words = encode(&bytes, 0);
    assert_eq!(words.len(), 2); // one MT3 single packet = 2 words
    // status nibble in word[0] bits 20-23 should be 0x0 (single complete)
    assert_eq!((words[0] >> 20) & 0xF, 0x0);
    let decoded = Decoder::new().feed(&words);
    assert_eq!(decoded, vec![bytes]);
}

// ---- MT skip table (regression for the phantom-LED bug) ---------------

/// MT0 (Utility): NOOP / JR Clock / JR Timestamp: has no byte-format
/// equivalent. Decoding it must emit nothing, no matter what's in the
/// data bits. Previously we treated MT0 like MT1 and emitted a synthetic
/// 1-byte message; harmless to a Launchpad but conceptually wrong.
#[test]
fn mt0_utility_does_not_emit() {
    // All MT0 words (top nibble = 0). Status sub-field at bits 20-23 ranges
    // over NOOP (0), JR Clock (1), JR Timestamp (2); the rest of the bits
    // are arbitrary timestamp/clock payload. The decoder must consume each
    // word silently: emitting nothing.
    let words = [
        0x00000000_u32,       // NOOP
        0x00112233,           // NOOP with junk in data field
        0x00100000 | 0x1234,  // JR Clock
        0x00200000 | 0xFFFFF, // JR Timestamp (max value)
    ];
    assert!(Decoder::new().feed(&words).is_empty());
}

/// MT 0xF (UMP Stream) is a 128-bit (4-word) packet. WMS commonly emits
/// Stream messages for endpoint discovery / function-block info / stream
/// config: interleaved with channel-voice. The decoder must consume all
/// 4 words atomically; if it only skips 1, the next 3 words get re-read
/// from the top and their bit pattern may look like a channel-voice
/// NoteOn, which would light phantom LEDs.
#[test]
fn mt_stream_consumes_four_words_not_one() {
    // 4 Stream words crafted so each *individual* word's top nibble looks
    // like a different MT (0x2 = channel voice, 0x9 = reserved 128-bit).
    // Followed by a real MT2 NoteOn that must be the ONLY emitted message.
    let stream = [
        0xF0001234_u32, // word 0: MT 0xF, Format 00 (single), status, data
        0x20904160,     // word 1: pre-fix would have decoded this as a
        // channel-voice NoteOn note 0x41 vel 0x60.
        0x29904271, // word 2: top nibble 0x2, status bits 0x90 etc.
        0x00DEADBE, // word 3: looks like MT0 if mis-read
    ];
    let note_on = encode(&[0x90, 60, 100], 0);
    let mut feed_buf = Vec::from(&stream[..]);
    feed_buf.extend_from_slice(&note_on);

    let out = Decoder::new().feed(&feed_buf);
    assert_eq!(out, vec![vec![0x90, 60, 100]]);
}

/// Same coverage for MT 0xD (Flex Data). Different MT, same 4-word size,
/// same misread risk.
#[test]
fn mt_flex_data_consumes_four_words_not_one() {
    let flex = [0xD0001234_u32, 0x20904160, 0x29904271, 0x00112233];
    let note_on = encode(&[0x90, 60, 100], 0);
    let mut buf = Vec::from(&flex[..]);
    buf.extend_from_slice(&note_on);
    assert_eq!(Decoder::new().feed(&buf), vec![vec![0x90, 60, 100]]);
}

/// MT5 (mixed data set, 4 words) was already covered in the implementation
/// but had no test: lock it down.
#[test]
fn mt5_consumes_four_words_not_one() {
    let mds = [0x50001234_u32, 0x20904160, 0x29904271, 0x00112233];
    let note_on = encode(&[0x90, 60, 100], 0);
    let mut buf = Vec::from(&mds[..]);
    buf.extend_from_slice(&note_on);
    assert_eq!(Decoder::new().feed(&buf), vec![vec![0x90, 60, 100]]);
}

#[test]
fn program_change_round_trip() {
    let bytes = vec![0xC4u8, 17];
    let words = encode(&bytes, 3);
    assert_eq!(words, vec![0x23C41100]);
    assert_eq!(Decoder::new().feed(&words), vec![bytes]);
}

#[test]
fn system_messages_round_trip() {
    for bytes in [vec![0xF8u8], vec![0xF1, 5], vec![0xF2, 1, 2], vec![0xF3, 9]] {
        let words = encode(&bytes, 0);
        assert_eq!(words.len(), 1);
        assert_eq!(words[0] >> 28, 1);
        assert_eq!(Decoder::new().feed(&words), vec![bytes]);
    }
}

#[test]
fn empty_input_encodes_to_nothing() {
    assert!(encode(&[], 0).is_empty());
    assert!(split_packets(&[]).is_empty());
}

#[test]
fn empty_sysex_is_one_complete_packet() {
    let bytes = vec![0xF0, 0xF7];
    let words = encode(&bytes, 0);
    assert_eq!(words, vec![0x3000_0000, 0]);
    assert_eq!(Decoder::new().feed(&words), vec![bytes]);
}

#[test]
fn sysex_without_terminator_keeps_its_last_byte() {
    assert_eq!(encode(&[0xF0, 1, 2], 0), vec![0x3002_0102, 0]);
}

#[test]
fn sysex_is_gathered_over_several_feeds() {
    let bytes: Vec<u8> = vec![0xF0, 1, 2, 3, 4, 5, 6, 7, 8, 9, 10, 11, 12, 13, 0xF7];
    let words = encode(&bytes, 0);
    assert_eq!(words.len(), 6);
    let mut decoder = Decoder::new();
    assert!(decoder.feed(&words[..2]).is_empty());
    assert!(decoder.feed(&words[2..4]).is_empty());
    assert_eq!(decoder.feed(&words[4..]), vec![bytes]);
}

#[test]
fn short_messages_pass_between_sysex_packets() {
    let sysex: Vec<u8> = vec![0xF0, 1, 2, 3, 4, 5, 6, 7, 8, 0xF7];
    let words = encode(&sysex, 0);
    let mut stream = words[..2].to_vec();
    stream.extend(encode(&[0x90, 1, 2], 0));
    stream.extend_from_slice(&words[2..]);
    assert_eq!(
        Decoder::new().feed(&stream),
        vec![vec![0x90, 1, 2], sysex]
    );
}

#[test]
fn truncated_sysex_packet_is_dropped() {
    let words = encode(&[0xF0, 1, 2, 0xF7], 0);
    assert!(Decoder::new().feed(&words[..1]).is_empty());
}

#[test]
fn truncated_long_packet_emits_nothing() {
    assert!(Decoder::new().feed(&[0xF000_0000, 0x2090_4160]).is_empty());
    assert!(Decoder::new().feed(&[0x4000_0000]).is_empty());
}

#[test]
fn packets_are_cut_by_their_type() {
    let sysex: Vec<u8> = vec![0xF0, 1, 2, 3, 4, 5, 6, 7, 0xF7];
    let words = encode(&sysex, 0);
    assert_eq!(
        split_packets(&words),
        vec![words[..2].to_vec(), words[2..].to_vec()]
    );
    assert_eq!(
        split_packets(&[0x2090_0102, 0x5000_0000, 1, 2, 3, 0x4000_0000, 7, 0xF000_0000]),
        vec![
            vec![0x2090_0102],
            vec![0x5000_0000, 1, 2, 3],
            vec![0x4000_0000, 7],
            vec![0xF000_0000],
        ]
    );
    assert_eq!(split_packets(&[0x5000_0000, 1]), vec![vec![0x5000_0000, 1]]);
}
