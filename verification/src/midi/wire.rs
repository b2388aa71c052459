//! What messages look like on the wire, byte by byte and bit by bit.

use vstd::prelude::*;

use crate::midi::parse::{self, MsgView};
use crate::midi::sysex_lighting::{self, ColorSpec, LedSpec, ModelHeader, SysexError};
use crate::midi::ump;
use crate::text;

verus! {

// -- Short messages ---------------------------------------------------------

/// A status byte of `8n`, `9n` or `Bn` with two data bytes is a Note Off, a Note On
/// or a Control Change on channel `n`; a Note On at velocity zero is a Note Off.
/// `F0` starts a SysEx. Anything else is neither. Bytes that follow change nothing.
pub proof fn law_status_tells_the_message(status: u8, data1: u8, data2: u8, rest: Seq<u8>)
    ensures
        ({
            let bytes = seq![status, data1, data2] + rest;
            let msg = parse::meaning(bytes);
            &&& 0x80 <= status <= 0x8F ==> msg == (MsgView::NoteOff {
                channel: (status - 0x80) as u8,
                note: data1,
                velocity: data2,
            })
            &&& 0x90 <= status <= 0x9F && data2 > 0 ==> msg == (MsgView::NoteOn {
                channel: (status - 0x90) as u8,
                note: data1,
                velocity: data2,
            })
            &&& 0x90 <= status <= 0x9F && data2 == 0 ==> msg == (MsgView::NoteOff {
                channel: (status - 0x90) as u8,
                note: data1,
                velocity: 0,
            })
            &&& 0xB0 <= status <= 0xBF ==> msg == (MsgView::Cc {
                channel: (status - 0xB0) as u8,
                controller: data1,
                value: data2,
            })
            &&& status == 0xF0 ==> msg == MsgView::SysEx(bytes)
            &&& status < 0x80 || 0xA0 <= status <= 0xAF || 0xC0 <= status <= 0xEF || status > 0xF0
                ==> msg == MsgView::Other(bytes)
        }),
{
}

/// Fewer than three bytes are no channel message.
pub proof fn law_short_bytes_are_no_channel_message(bytes: Seq<u8>)
    requires
        bytes.len() < 3,
    ensures
        bytes.len() > 0 && bytes[0] == 0xF0 ==> parse::meaning(bytes) == MsgView::SysEx(bytes),
        bytes.len() == 0 || bytes[0] != 0xF0 ==> parse::meaning(bytes) == MsgView::Other(bytes),
{
}

proof fn lemma_status_nibbles(channel: u8, data: u8)
    by (bit_vector)
    ensures
        (0x90 | (channel & 0x0F)) & 0xF0 == 0x90u8,
        (0x80 | (channel & 0x0F)) & 0xF0 == 0x80u8,
        (0xB0 | (channel & 0x0F)) & 0xF0 == 0xB0u8,
        (0x90 | (channel & 0x0F)) & 0x0F == channel & 0x0F,
        (0x80 | (channel & 0x0F)) & 0x0F == channel & 0x0F,
        (0xB0 | (channel & 0x0F)) & 0x0F == channel & 0x0F,
        0x90 | (channel & 0x0F) == 0x90 + channel % 16,
        0x80 | (channel & 0x0F) == 0x80 + channel % 16,
        0xB0 | (channel & 0x0F) == 0xB0 + channel % 16,
        data & 0x7F == data % 128,
{
}

/// The three short messages have three bytes: the kind in the high half of the
/// first, the channel in its low half, then the two data bytes without their top
/// bit, in the order given.
pub proof fn law_short_messages_on_the_wire(channel: u8, data1: u8, data2: u8)
    ensures
        ({
            let on = parse::note_on_bytes(channel, data1, data2);
            let off = parse::note_off_bytes(channel, data1, data2);
            let cc = parse::cc_bytes(channel, data1, data2);
            &&& on.len() == 3 && off.len() == 3 && cc.len() == 3
            &&& on[0] & 0xF0 == 0x90 && on[0] & 0x0F == channel & 0x0F
            &&& off[0] & 0xF0 == 0x80 && off[0] & 0x0F == channel & 0x0F
            &&& cc[0] & 0xF0 == 0xB0 && cc[0] & 0x0F == channel & 0x0F
            &&& on[1] == data1 & 0x7F && on[2] == data2 & 0x7F
            &&& off[1] == data1 & 0x7F && off[2] == data2 & 0x7F
            &&& cc[1] == data1 & 0x7F && cc[2] == data2 & 0x7F
        }),
{
    lemma_status_nibbles(channel, data1);
    lemma_status_nibbles(channel, data2);
}

// -- Lighting SysEx ---------------------------------------------------------

/// The entries of a Lighting SysEx on the wire: what stands between its seven
/// header bytes and its terminator.
pub open spec fn entries_on_the_wire(bytes: Seq<u8>) -> Seq<u8> {
    bytes.subrange(7, bytes.len() - 1)
}

/// A Lighting SysEx starts with Novation's manufacturer number, the model and the
/// lighting command, and ends with `F7`; without entries that is all.
pub proof fn law_lighting_is_framed(model_byte: u8, leds: Seq<LedSpec>)
    ensures
        ({
            let bytes = sysex_lighting::lighting_bytes(model_byte, leds);
            &&& bytes.len() >= 8
            &&& bytes[0] == 0xF0 && bytes[1] == 0x00 && bytes[2] == 0x20 && bytes[3] == 0x29
            &&& bytes[4] == 0x02 && bytes[5] == model_byte && bytes[6] == 0x03
            &&& bytes.last() == 0xF7
            &&& leds.len() == 0 ==> bytes.len() == 8
        }),
{
}

/// One entry on the wire: the kind of color, the LED, then the color's bytes in the
/// order red, green, blue, or first and second color.
pub proof fn law_lighting_entries_on_the_wire(model_byte: u8, n: u8, a: u8, b: u8, c: u8)
    ensures
        entries_on_the_wire(
            sysex_lighting::lighting_bytes(
                model_byte,
                seq![LedSpec { led_index: n, color: ColorSpec::Static(a) }],
            ),
        ) == seq![0x00u8, n, a],
        entries_on_the_wire(
            sysex_lighting::lighting_bytes(
                model_byte,
                seq![LedSpec { led_index: n, color: ColorSpec::Flashing { color_a: a, color_b: b } }],
            ),
        ) == seq![0x01u8, n, a, b],
        entries_on_the_wire(
            sysex_lighting::lighting_bytes(
                model_byte,
                seq![LedSpec { led_index: n, color: ColorSpec::Pulsing(a) }],
            ),
        ) == seq![0x02u8, n, a],
        entries_on_the_wire(
            sysex_lighting::lighting_bytes(
                model_byte,
                seq![LedSpec { led_index: n, color: ColorSpec::Rgb { r: a, g: b, b: c } }],
            ),
        ) == seq![0x03u8, n, a, b, c],
{
    let fixed = LedSpec { led_index: n, color: ColorSpec::Static(a) };
    let flashing = LedSpec {
        led_index: n,
        color: ColorSpec::Flashing { color_a: a, color_b: b },
    };
    let pulsing = LedSpec { led_index: n, color: ColorSpec::Pulsing(a) };
    let rgb = LedSpec { led_index: n, color: ColorSpec::Rgb { r: a, g: b, b: c } };
    lemma_body_of_one(fixed);
    lemma_body_of_one(flashing);
    lemma_body_of_one(pulsing);
    lemma_body_of_one(rgb);
    lemma_entries_are_the_body(model_byte, seq![fixed]);
    lemma_entries_are_the_body(model_byte, seq![flashing]);
    lemma_entries_are_the_body(model_byte, seq![pulsing]);
    lemma_entries_are_the_body(model_byte, seq![rgb]);
    assert(sysex_lighting::led_bytes(fixed) =~= seq![0x00u8, n, a]);
    assert(sysex_lighting::led_bytes(flashing) =~= seq![0x01u8, n, a, b]);
    assert(sysex_lighting::led_bytes(pulsing) =~= seq![0x02u8, n, a]);
    assert(sysex_lighting::led_bytes(rgb) =~= seq![0x03u8, n, a, b, c]);
}

proof fn lemma_body_of_one(led: LedSpec)
    ensures
        sysex_lighting::body_bytes(seq![led]) == sysex_lighting::led_bytes(led),
{
    assert(seq![led].drop_last() =~= seq![]);
    assert(sysex_lighting::body_bytes(seq![led].drop_last()) =~= seq![]);
    assert(sysex_lighting::body_bytes(seq![led]) =~= sysex_lighting::led_bytes(led));
}

proof fn lemma_entries_are_the_body(model_byte: u8, leds: Seq<LedSpec>)
    ensures
        entries_on_the_wire(sysex_lighting::lighting_bytes(model_byte, leds))
            == sysex_lighting::body_bytes(leds),
{
    assert(entries_on_the_wire(sysex_lighting::lighting_bytes(model_byte, leds))
        =~= sysex_lighting::body_bytes(leds));
}

proof fn lemma_body_adds_up(a: Seq<LedSpec>, b: Seq<LedSpec>)
    ensures
        sysex_lighting::body_bytes(a + b) == sysex_lighting::body_bytes(a)
            + sysex_lighting::body_bytes(b),
    decreases b.len(),
{
    if b.len() == 0 {
        assert(a + b =~= a);
        assert(sysex_lighting::body_bytes(a) + sysex_lighting::body_bytes(b)
            =~= sysex_lighting::body_bytes(a));
    } else {
        assert((a + b).drop_last() =~= a + b.drop_last());
        assert((a + b).last() == b.last());
        lemma_body_adds_up(a, b.drop_last());
        assert(sysex_lighting::body_bytes(a + b) =~= sysex_lighting::body_bytes(a)
            + sysex_lighting::body_bytes(b));
    }
}

/// The entries of two lists stand one after the other.
pub proof fn law_lighting_entries_follow_each_other(
    model_byte: u8,
    a: Seq<LedSpec>,
    b: Seq<LedSpec>,
)
    ensures
        entries_on_the_wire(sysex_lighting::lighting_bytes(model_byte, a + b))
            == entries_on_the_wire(sysex_lighting::lighting_bytes(model_byte, a))
            + entries_on_the_wire(sysex_lighting::lighting_bytes(model_byte, b)),
{
    lemma_body_adds_up(a, b);
    lemma_entries_are_the_body(model_byte, a);
    lemma_entries_are_the_body(model_byte, b);
    lemma_entries_are_the_body(model_byte, a + b);
}

/// Which error a byte string that is no Lighting SysEx at all has: one that does not
/// start with `F0`, one that does not end with `F7`, one whose header is another.
pub proof fn law_lighting_framing_errors(bytes: Seq<u8>, model_byte: u8)
    ensures
        ({
            let result = sysex_lighting::lighting_entries(bytes, model_byte);
            let starts = bytes.len() > 0 && bytes[0] == 0xF0;
            let ends = bytes.len() > 0 && bytes[bytes.len() - 1] == 0xF7;
            let header = bytes.len() >= 8 && bytes[1] == 0x00 && bytes[2] == 0x20 && bytes[3]
                == 0x29 && bytes[4] == 0x02 && bytes[5] == model_byte && bytes[6] == 0x03;
            &&& !starts <==> result == Err::<Seq<LedSpec>, SysexError>(
                SysexError::NotSysex,
            )
            &&& starts && !ends <==> result == Err::<Seq<LedSpec>, SysexError>(
                SysexError::NoTerminator,
            )
            &&& starts && ends && !header <==> result == Err::<Seq<LedSpec>, SysexError>(
                SysexError::NotLighting,
            )
        }),
{
    let header = sysex_lighting::lighting_header(model_byte);
    sysex_lighting::law_cheap_check_agrees_with_parser(bytes, model_byte);
    if bytes.len() >= 8 {
        if bytes[0] == 0xF0 && bytes[1] == 0x00 && bytes[2] == 0x20 && bytes[3] == 0x29 && bytes[4]
            == 0x02 && bytes[5] == model_byte && bytes[6] == 0x03 {
            assert(bytes.take(7) =~= header);
        } else if bytes.take(7) == header {
            assert forall|i: int| 0 <= i < 7 implies bytes[i] == header[i] by {
                assert(bytes.take(7)[i] == header[i]);
            }
        }
    }
}

proof fn lemma_entries_then(body: Seq<u8>, at: int, leds: Seq<LedSpec>, tail: Seq<u8>)
    requires
        0 <= at <= body.len(),
        body.skip(at) == sysex_lighting::body_bytes(leds) + tail,
    ensures
        ({
            let next = at + sysex_lighting::body_bytes(leds).len();
            sysex_lighting::entries_from(body, at) == match sysex_lighting::entries_from(
                body,
                next,
            ) {
                Ok(rest) => Ok::<Seq<LedSpec>, SysexError>(leds + rest),
                Err(e) => Err(e),
            }
        }),
    decreases leds.len(),
{
    if leds.len() == 0 {
        if let Ok(rest) = sysex_lighting::entries_from(body, at) {
            assert(leds + rest =~= rest);
        }
    } else {
        let first = leds[0];
        let others = leds.drop_first();
        let wire = sysex_lighting::led_bytes(first);
        sysex_lighting::lemma_body_first(leds);
        assert(body.subrange(at, at + wire.len()) =~= body.skip(at).take(wire.len() as int));
        assert(body.skip(at).take(wire.len() as int) =~= wire);
        sysex_lighting::lemma_entry_read_back(body, at, first);
        assert(body.skip(at + wire.len()) =~= body.skip(at).skip(wire.len() as int));
        assert(body.skip(at).skip(wire.len() as int) =~= sysex_lighting::body_bytes(others) + tail);
        lemma_entries_then(body, at + wire.len(), others, tail);
        let next = at + sysex_lighting::body_bytes(leds).len();
        if let Ok(rest) = sysex_lighting::entries_from(body, next) {
            assert(seq![first] + (others + rest) =~= leds + rest);
        }
    }
}

/// Entries that are whole and then one that is not: the error names the place in the
/// payload where a byte is missing, or the kind of color that is not known.
pub proof fn law_broken_lighting_entries(model_byte: u8, leds: Seq<LedSpec>, tail: Seq<u8>)
    requires
        tail.len() > 0,
        tail.len() >= 2 ==> tail[0] > 3 || tail.len() < if tail[0] == 0 || tail[0] == 2 {
            3int
        } else if tail[0] == 1 {
            4
        } else {
            5
        },
    ensures
        ({
            let whole = sysex_lighting::lighting_bytes(model_byte, leds);
            let bytes = whole.drop_last() + tail + seq![0xF7u8];
            let result = sysex_lighting::lighting_entries(bytes, model_byte);
            let at = entries_on_the_wire(whole).len();
            &&& tail.len() == 1 ==> result == Err::<Seq<LedSpec>, SysexError>(
                SysexError::Truncated((at + 1) as usize),
            )
            &&& tail.len() >= 2 && tail[0] > 3 ==> result == Err::<Seq<LedSpec>, SysexError>(
                SysexError::UnknownSpec(tail[0]),
            )
            &&& tail.len() >= 2 && tail[0] <= 3 ==> result == Err::<Seq<LedSpec>, SysexError>(
                SysexError::Truncated((at + 2) as usize),
            )
        }),
{
    let whole = sysex_lighting::lighting_bytes(model_byte, leds);
    let bytes = whole.drop_last() + tail + seq![0xF7u8];
    let body = bytes.subrange(7, bytes.len() - 1);
    let entries = sysex_lighting::body_bytes(leds);
    lemma_entries_are_the_body(model_byte, leds);
    assert(bytes.take(7) =~= sysex_lighting::lighting_header(model_byte));
    assert(bytes[0] == bytes.take(7)[0]);
    assert(body =~= entries + tail);
    assert(body.skip(0) =~= body);
    lemma_entries_then(body, 0, leds, tail);
    let at = entries.len() as int;
    assert(body[at] == tail[0]);
    if tail.len() >= 2 {
        assert(body[at + 1] == tail[1]);
    }
}

// -- Universal MIDI Packets -------------------------------------------------

/// The fields of a word, by shifts and by division.
proof fn lemma_fields(w: u32)
    by (bit_vector)
    ensures
        w >> 28 == w / 0x1000_0000,
        (w >> 24) & 0xF == (w / 0x100_0000) % 16,
        (w >> 20) & 0xF == (w / 0x10_0000) % 16,
        (w >> 16) & 0xF == (w / 0x1_0000) % 16,
        (w >> 24) & 0xFF == (w / 0x100_0000) % 256,
        (w >> 16) & 0xFF == (w / 0x1_0000) % 256,
        (w >> 8) & 0xFF == (w / 0x100) % 256,
        w & 0xFF == w % 256,
        w >> 28 < 16,
{
}

proof fn lemma_short_bits(w: u32, kind: u32, group: u8, status: u8, data1: u8, data2: u8)
    by (bit_vector)
    requires
        kind < 16,
        w == (kind << 28) | (((group as u32) & 0xF) << 24) | ((status as u32) << 16) | ((data1
            as u32) << 8) | (data2 as u32),
    ensures
        w >> 28 == kind,
        (w >> 24) & 0xF == (group & 0xF) as u32,
        (w >> 16) & 0xFF == status as u32,
        (w >> 8) & 0xFF == data1 as u32,
        w & 0xFF == data2 as u32,
{
}

proof fn lemma_packet_bits(
    w1: u32,
    w2: u32,
    group: u8,
    position: u8,
    n: u8,
    p0: u8,
    p1: u8,
    p2: u8,
    p3: u8,
    p4: u8,
    p5: u8,
)
    by (bit_vector)
    requires
        position < 16,
        n < 16,
        w1 == (0x3_u32 << 28) | (((group as u32) & 0xF) << 24) | (((position as u32) & 0xF) << 20)
            | (((n as u32) & 0xF) << 16) | ((p0 as u32) << 8) | (p1 as u32),
        w2 == ((p2 as u32) << 24) | ((p3 as u32) << 16) | ((p4 as u32) << 8) | (p5 as u32),
    ensures
        w1 >> 28 == 3,
        (w1 >> 24) & 0xF == (group & 0xF) as u32,
        (w1 >> 20) & 0xF == position as u32,
        (w1 >> 16) & 0xF == n as u32,
        (w1 >> 8) & 0xFF == p0 as u32,
        w1 & 0xFF == p1 as u32,
        (w2 >> 24) & 0xFF == p2 as u32,
        (w2 >> 16) & 0xFF == p3 as u32,
        (w2 >> 8) & 0xFF == p4 as u32,
        w2 & 0xFF == p5 as u32,
{
}

/// The byte of a message at `i`, zero past its end.
pub open spec fn byte_at(bytes: Seq<u8>, i: int) -> u32 {
    if 0 <= i < bytes.len() {
        bytes[i] as u32
    } else {
        0
    }
}

/// A message that is no SysEx is one word: the packet type in bits 28 to 31 (2 for
/// channel messages, 1 for system messages), the group in bits 24 to 27, then up to
/// three bytes of the message from bit 16 down.
pub proof fn law_short_packets_on_the_wire(bytes: Seq<u8>, group: u8)
    requires
        bytes.len() > 0,
        bytes[0] != 0xF0,
    ensures
        ({
            let words = ump::encoded(bytes, group);
            let w = words[0];
            &&& words.len() == 1
            &&& 0x80 <= bytes[0] < 0xF0 ==> w >> 28 == 2
            &&& bytes[0] < 0x80 || bytes[0] > 0xF0 ==> w >> 28 == 1
            &&& (w >> 24) & 0xF == group & 0xF
            &&& (w >> 16) & 0xFF == byte_at(bytes, 0)
            &&& (w >> 8) & 0xFF == byte_at(bytes, 1)
            &&& w & 0xFF == byte_at(bytes, 2)
        }),
{
    let w = ump::encoded(bytes, group)[0];
    let kind: u32 = if 0x80 <= bytes[0] < 0xF0 {
        2
    } else {
        1
    };
    let (status, data1, data2) = (
        bytes[0],
        byte_at(bytes, 1) as u8,
        byte_at(bytes, 2) as u8,
    );
    ump::lemma_short_word(group, status, data1, data2);
    lemma_short_bits(w, kind, group, status, data1, data2);
}

/// The payload of a SysEx message: without `F0`, and without `F7` if it ends so.
pub open spec fn payload_of(bytes: Seq<u8>) -> Seq<u8> {
    if bytes[bytes.len() - 1] == 0xF7 {
        bytes.skip(1).drop_last()
    } else {
        bytes.skip(1)
    }
}

/// The fields of the packet that carries the payload bytes from `6 * k` on: the type
/// in bits 28 to 31, the group in bits 24 to 27, the position in bits 20 to 23, the
/// count in bits 16 to 19, then the bytes in order, two in the first word and four in
/// the second, each in eight bits from the top down.
pub open spec fn carries(w1: u32, w2: u32, group: u8, position: u32, payload: Seq<u8>, k: int) -> bool {
    &&& w1 >> 28 == 3
    &&& (w1 >> 24) & 0xF == group & 0xF
    &&& (w1 >> 20) & 0xF == position
    &&& (w1 >> 16) & 0xF == if payload.len() - 6 * k < 6 {
        payload.len() - 6 * k
    } else {
        6
    }
    &&& (w1 >> 8) & 0xFF == byte_at(payload, 6 * k)
    &&& w1 & 0xFF == byte_at(payload, 6 * k + 1)
    &&& (w2 >> 24) & 0xFF == byte_at(payload, 6 * k + 2)
    &&& (w2 >> 16) & 0xFF == byte_at(payload, 6 * k + 3)
    &&& (w2 >> 8) & 0xFF == byte_at(payload, 6 * k + 4)
    &&& w2 & 0xFF == byte_at(payload, 6 * k + 5)
}

proof fn lemma_packet_carries(group: u8, position: int, payload: Seq<u8>)
    requires
        0 <= position < 4,
        payload.len() <= 6,
    ensures
        ({
            let words = ump::sysex_packet(group, position, payload);
            carries(words[0], words[1], group, position as u32, payload, 0)
        }),
{
    let words = ump::sysex_packet(group, position, payload);
    let n = payload.len() as u8;
    let (p0, p1, p2) = (
        byte_at(payload, 0) as u8,
        byte_at(payload, 1) as u8,
        byte_at(payload, 2) as u8,
    );
    let (p3, p4, p5) = (
        byte_at(payload, 3) as u8,
        byte_at(payload, 4) as u8,
        byte_at(payload, 5) as u8,
    );
    ump::lemma_sysex_packet(group, position as u8, n, p0, p1, p2, p3, p4, p5);
    lemma_packet_bits(words[0], words[1], group, position as u8, n, p0, p1, p2, p3, p4, p5);
}

proof fn lemma_packets_carry(group: u8, payload: Seq<u8>, first: bool, k: int)
    requires
        0 <= k,
        6 * k < payload.len() || k == 0,
    ensures
        ({
            let words = ump::sysex_words(group, payload, first);
            let position: u32 = if 6 * (k + 1) >= payload.len() {
                if k == 0 && first {
                    0
                } else {
                    3
                }
            } else {
                if k == 0 && first {
                    1
                } else {
                    2
                }
            };
            &&& words.len() == if payload.len() == 0 {
                2
            } else {
                2 * ((payload.len() + 5) / 6)
            }
            &&& 2 * k + 1 < words.len()
            &&& carries(words[2 * k], words[2 * k + 1], group, position, payload, k)
        }),
    decreases payload.len(),
{
    let words = ump::sysex_words(group, payload, first);
    if payload.len() <= 6 {
        lemma_packet_carries(group, if first { 0 } else { 3 }, payload);
    } else {
        let head = payload.take(6);
        let rest = payload.skip(6);
        let tail = ump::sysex_words(group, rest, false);
        if k == 0 {
            lemma_packet_carries(group, if first { 1 } else { 2 }, head);
            lemma_packets_carry(group, rest, false, 0);
        } else {
            lemma_packets_carry(group, rest, false, k - 1);
            assert(words[2 * k] == tail[2 * (k - 1)]);
            assert(words[2 * k + 1] == tail[2 * (k - 1) + 1]);
        }
    }
}

/// A SysEx message is packets of two words and up to six payload bytes each, in order:
/// one marked complete (0), or a start (1), continuations (2) and an end (3).
pub proof fn law_sysex_packets_on_the_wire(bytes: Seq<u8>, group: u8, k: int)
    requires
        bytes.len() > 0,
        bytes[0] == 0xF0,
        0 <= k,
        6 * k < payload_of(bytes).len() || k == 0,
    ensures
        ({
            let words = ump::encoded(bytes, group);
            let payload = payload_of(bytes);
            let last = 6 * (k + 1) >= payload.len();
            let position: u32 = if last && k == 0 {
                0
            } else if last {
                3
            } else if k == 0 {
                1
            } else {
                2
            };
            &&& words.len() == if payload.len() == 0 {
                2
            } else {
                2 * ((payload.len() + 5) / 6)
            }
            &&& carries(words[2 * k], words[2 * k + 1], group, position, payload, k)
        }),
{
    assert(ump::sysex_payload(bytes) =~= payload_of(bytes));
    lemma_packets_carry(group, payload_of(bytes), true, k);
}

/// A one-word packet of type 1 or 2 is read as the message of its status byte, with
/// as many of its data bytes as such a message has: two for notes, controllers,
/// pressure on a key, pitch bend and song position, one for programs, channel
/// pressure, time code and song select, none otherwise.
pub proof fn law_short_packets_are_read(buffer: Seq<u8>, w: u32, rest: Seq<u32>)
    requires
        w >> 28 == 1 || w >> 28 == 2,
    ensures
        ({
            let (end, messages) = ump::decoded(buffer, seq![w] + rest);
            let status = ((w >> 16) & 0xFF) as u8;
            let data1 = ((w >> 8) & 0xFF) as u8;
            let data2 = (w & 0xFF) as u8;
            let message = messages[0];
            let two = 0x80 <= status < 0xC0 || 0xE0 <= status < 0xF0 || status == 0xF2;
            let one = 0xC0 <= status < 0xE0 || status == 0xF1 || status == 0xF3;
            &&& messages.len() > 0
            &&& two ==> message == seq![status, data1, data2]
            &&& one ==> message == seq![status, data1]
            &&& !two && !one ==> message == seq![status]
            &&& (end, messages.skip(1)) == ump::decoded(buffer, rest)
        }),
{
    let words = seq![w] + rest;
    lemma_fields(w);
    assert(words.skip(1) =~= rest);
    let messages = ump::decoded(buffer, words).1;
    let status = ((w / 0x1_0000) % 256) as u8;
    let data1 = ((w / 0x100) % 256) as u8;
    let data2 = (w % 256) as u8;
    let three = seq![status, data1, data2];
    assert(three.take(3) =~= three);
    assert(three.take(2) =~= seq![status, data1]);
    assert(three.take(1) =~= seq![status]);
    assert(messages.skip(1) =~= ump::decoded(buffer, rest).1);
}

/// The payload bytes of a SysEx packet in order, as many as its count says and six at
/// most.
pub open spec fn bytes_of_packet(w1: u32, w2: u32) -> Seq<u8> {
    let n = (w1 >> 16) & 0xF;
    Seq::new(
        if n > 6 {
            6
        } else {
            n as nat
        },
        |i: int|
            if i == 0 {
                ((w1 >> 8) & 0xFF) as u8
            } else if i == 1 {
                (w1 & 0xFF) as u8
            } else if i == 2 {
                ((w2 >> 24) & 0xFF) as u8
            } else if i == 3 {
                ((w2 >> 16) & 0xFF) as u8
            } else if i == 4 {
                ((w2 >> 8) & 0xFF) as u8
            } else {
                (w2 & 0xFF) as u8
            },
    )
}

/// What each packet of a SysEx message does: a complete one gives its message and
/// leaves what is gathered, a start begins anew, a continuation adds, an end adds and
/// gives the message. Any other position does nothing.
pub proof fn law_sysex_packets_are_read(buffer: Seq<u8>, w1: u32, w2: u32, rest: Seq<u32>)
    requires
        w1 >> 28 == 3,
    ensures
        ({
            let payload = bytes_of_packet(w1, w2);
            let position = (w1 >> 20) & 0xF;
            let (end, messages) = ump::decoded(buffer, seq![w1, w2] + rest);
            &&& position == 0 ==> end == ump::decoded(buffer, rest).0 && messages == seq![
                seq![0xF0u8] + payload + seq![0xF7u8],
            ] + ump::decoded(buffer, rest).1
            &&& position == 1 ==> (end, messages) == ump::decoded(seq![0xF0u8] + payload, rest)
            &&& position == 2 ==> (end, messages) == ump::decoded(buffer + payload, rest)
            &&& position == 3 ==> end == ump::decoded(seq![], rest).0 && messages == seq![
                buffer + payload + seq![0xF7u8],
            ] + ump::decoded(seq![], rest).1
            &&& position > 3 ==> (end, messages) == ump::decoded(buffer, rest)
        }),
{
    let words = seq![w1, w2] + rest;
    lemma_fields(w1);
    lemma_fields(w2);
    assert(words.skip(2) =~= rest);
    assert(ump::packet_payload(w1, w2) =~= bytes_of_packet(w1, w2));
    let (next, done) = ump::gathered(buffer, w1, w2);
    let more = ump::decoded(next, rest).1;
    assert(Seq::<Seq<u8>>::empty() + more =~= more);
}

/// Packets of the other types are passed over whole: one word for type 0, two for
/// type 4, four for all from 5 on. A packet that is cut off gives nothing.
pub proof fn law_other_packets_are_passed_over(buffer: Seq<u8>, packet: Seq<u32>, rest: Seq<u32>)
    requires
        packet.len() > 0,
    ensures
        packet[0] >> 28 == 0 && packet.len() == 1 ==> ump::decoded(buffer, packet + rest)
            == ump::decoded(buffer, rest),
        packet[0] >> 28 == 4 && packet.len() == 2 ==> ump::decoded(buffer, packet + rest)
            == ump::decoded(buffer, rest),
        packet[0] >> 28 >= 5 && packet.len() == 4 ==> ump::decoded(buffer, packet + rest)
            == ump::decoded(buffer, rest),
        (packet[0] >> 28 == 3 && packet.len() == 1) || (packet[0] >> 28 == 4 && packet.len() < 2)
            || (packet[0] >> 28 >= 5 && packet.len() < 4) ==> ump::decoded(buffer, packet) == (
            buffer,
            Seq::<Seq<u8>>::empty(),
        ),
{
    lemma_fields(packet[0]);
    let kind = ump::message_type(packet[0]);
    if kind == 0 || kind >= 4 {
        if packet.len() == ump::packet_len(kind) {
            ump::law_other_packets_decode_to_nothing(buffer, packet, rest);
        }
    }
}

/// Nothing decodes to nothing, and is encoded as nothing.
pub proof fn law_no_words_no_messages(buffer: Seq<u8>, group: u8)
    ensures
        ump::encoded(seq![], group) == Seq::<u32>::empty(),
        ump::packets(seq![]) == Seq::<Seq<u32>>::empty(),
        ump::decoded(buffer, seq![]) == (buffer, Seq::<Seq<u8>>::empty()),
{
}

/// Packets go out one at a time: two words for types 3 and 4, four for type 5, one for
/// every other, and at the end of the words as many as are left.
pub proof fn law_packets_are_cut_by_their_type(words: Seq<u32>)
    requires
        words.len() > 0,
    ensures
        ({
            let kind = words[0] >> 28;
            let size: int = if kind == 3 || kind == 4 {
                2
            } else if kind == 5 {
                4
            } else {
                1
            };
            let taken = if words.len() < size {
                words.len() as int
            } else {
                size
            };
            &&& ump::packets(words).len() > 0
            &&& ump::packets(words)[0] == words.take(taken)
            &&& ump::packets(words).skip(1) == ump::packets(words.skip(taken))
        }),
{
    lemma_fields(words[0]);
    let size = ump::sent_packet_len(ump::message_type(words[0]));
    if words.len() <= size {
        assert(words.take(words.len() as int) =~= words);
        assert(ump::packets(words).skip(1) =~= Seq::<Seq<u32>>::empty());
        assert(ump::packets(words.skip(words.len() as int)) =~= Seq::<Seq<u32>>::empty());
    } else {
        assert(ump::packets(words).skip(1) =~= ump::packets(words.skip(size)));
    }
}

/// What is said of bytes that are no Lighting SysEx: the place in decimal, the unknown kind
/// of color in hexadecimal.
pub proof fn law_lighting_errors_are_spelled(at: usize, kind: u8)
    ensures
        SysexError::NotSysex.message_text() == "not a sysex (does not start with F0)"@,
        SysexError::NoTerminator.message_text() == "missing F7 terminator"@,
        SysexError::NotLighting.message_text()
            == "not a Novation lighting message (manufacturer/model mismatch)"@,
        SysexError::Truncated(at).message_text() == "payload truncated mid-triplet at byte "@
            + text::decimal(at as nat),
        SysexError::UnknownSpec(kind).message_text() == "unknown color spec 0x"@
            + text::hexadecimal(kind as nat),
{
}

/// The two models, by the byte that their messages have.
pub proof fn law_models_have_their_bytes(mini: ModelHeader, x: ModelHeader)
    requires
        call_ensures(sysex_lighting::mini_mk3, (), mini),
        call_ensures(sysex_lighting::launchpad_x, (), x),
    ensures
        mini.model_byte == 0x0D,
        x.model_byte == 0x0C,
        mini.name@ == "Launchpad Mini MK3"@,
        x.name@ == "Launchpad X"@,
{
}

} // verus!
