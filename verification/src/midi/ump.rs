//! Minimal MIDI 1.0 byte stream <-> UMP (Universal MIDI Packet) transcoder for
//! the Windows MIDI Services Virtual Device transport. Handles channel voice and
//! system messages (one-word packets) and SysEx (two-word data packets). The
//! MIDI 2.0 packet types are skipped whole: the virtual endpoints declare that
//! they do not speak MIDI 2.0, so peers send MIDI-1.0-byte-format UMP only.

use vstd::prelude::*;

use crate::midi::parse;

verus! {

/// The message type of a packet: the top four bits of its first word.
pub open spec fn message_type(word: u32) -> int {
    (word / 0x1000_0000) as int
}

/// A one-word packet that carries up to three bytes.
pub open spec fn short_word(message_type: int, group: u8, status: u8, data1: u8, data2: u8) -> u32 {
    (message_type * 0x1000_0000 + (group % 16) * 0x100_0000 + status * 0x1_0000 + data1 * 0x100
        + data2) as u32
}

/// The byte at `i`, or zero past the end.
pub open spec fn byte_or_zero(bytes: Seq<u8>, i: int) -> u8 {
    if 0 <= i < bytes.len() {
        bytes[i]
    } else {
        0
    }
}

/// A SysEx packet: where it stands in its message, and up to six payload bytes.
pub open spec fn sysex_packet(group: u8, position: int, payload: Seq<u8>) -> Seq<u32> {
    seq![
        (3 * 0x1000_0000 + (group % 16) * 0x100_0000 + position * 0x10_0000 + payload.len()
            * 0x1_0000 + byte_or_zero(payload, 0) * 0x100 + byte_or_zero(payload, 1)) as u32,
        (byte_or_zero(payload, 2) * 0x100_0000 + byte_or_zero(payload, 3) * 0x1_0000 + byte_or_zero(
            payload,
            4,
        ) * 0x100 + byte_or_zero(payload, 5)) as u32,
    ]
}

/// The packets of a SysEx payload, six bytes to a packet. Position 0 marks a
/// message complete in one packet, 1 the start, 2 a continuation and 3 the end.
pub open spec fn sysex_words(group: u8, payload: Seq<u8>, first: bool) -> Seq<u32>
    decreases payload.len(),
{
    if payload.len() <= 6 {
        sysex_packet(
            group,
            if first {
                0
            } else {
                3
            },
            payload,
        )
    } else {
        sysex_packet(
            group,
            if first {
                1
            } else {
                2
            },
            payload.take(6),
        ) + sysex_words(group, payload.skip(6), false)
    }
}

/// The bytes of a SysEx message between its `F0` and its `F7`, if it has one.
pub open spec fn sysex_payload(bytes: Seq<u8>) -> Seq<u8> {
    if bytes.last() == 0xF7 {
        bytes.subrange(1, bytes.len() - 1)
    } else {
        bytes.skip(1)
    }
}

/// The packets of one complete MIDI 1.0 message.
pub open spec fn encoded(bytes: Seq<u8>, group: u8) -> Seq<u32> {
    if bytes.len() == 0 {
        seq![]
    } else if bytes[0] == 0xF0 {
        sysex_words(group, sysex_payload(bytes), true)
    } else {
        let kind = if 0x80 <= bytes[0] < 0xF0 {
            2int
        } else {
            1
        };
        seq![short_word(kind, group, bytes[0], byte_or_zero(bytes, 1), byte_or_zero(bytes, 2))]
    }
}

/// Encode a MIDI 1.0 byte stream as a sequence of UMP 32-bit words. The input
/// must be ONE complete MIDI message (Note On / Note Off / CC / SysEx, etc.),
/// not a stream with interleaved messages.
pub fn encode(bytes: &[u8], group: u8) -> (words: Vec<u32>)
    ensures
        words@ == encoded(bytes@, group),
{
    let mut words: Vec<u32> = Vec::new();
    if bytes.is_empty() {
        return words;
    }
    let status = bytes[0];
    if status == 0xF0 {
        return encode_sysex(bytes, group);
    }
    let data1 = if bytes.len() > 1 {
        bytes[1]
    } else {
        0
    };
    let data2 = if bytes.len() > 2 {
        bytes[2]
    } else {
        0
    };
    if 0x80 <= status && status < 0xF0 {
        // Channel voice: three bytes, or two (Program Change, Channel Pressure).
        words.push(mt2_word(group, status, data1, data2));
    } else {
        // System common / real-time, so that any message a host sends passes.
        words.push(mt1_word(group, status, data1, data2));
    }
    assert(words@ =~= encoded(bytes@, group));
    words
}

/// The fields of a one-word packet do not overlap.
pub proof fn lemma_short_word(group: u8, status: u8, data1: u8, data2: u8)
    by (bit_vector)
    ensures
        (0x2_u32 << 28) | (((group as u32) & 0xF) << 24) | ((status as u32) << 16) | ((data1
            as u32) << 8) | (data2 as u32) == 2 * 0x1000_0000 + (group % 16) * 0x100_0000 + status
            * 0x1_0000 + data1 * 0x100 + data2,
        (0x1_u32 << 28) | (((group as u32) & 0xF) << 24) | ((status as u32) << 16) | ((data1
            as u32) << 8) | (data2 as u32) == 1 * 0x1000_0000 + (group % 16) * 0x100_0000 + status
            * 0x1_0000 + data1 * 0x100 + data2,
{
}

fn mt2_word(group: u8, status: u8, data1: u8, data2: u8) -> (word: u32)
    ensures
        word == short_word(2, group, status, data1, data2),
{
    proof {
        lemma_short_word(group, status, data1, data2);
    }
    (0x2_u32 << 28) | ((group as u32 & 0xF) << 24) | ((status as u32) << 16) | ((data1 as u32) << 8)
        | (data2 as u32)
}

fn mt1_word(group: u8, status: u8, data1: u8, data2: u8) -> (word: u32)
    ensures
        word == short_word(1, group, status, data1, data2),
{
    proof {
        lemma_short_word(group, status, data1, data2);
    }
    (0x1_u32 << 28) | ((group as u32 & 0xF) << 24) | ((status as u32) << 16) | ((data1 as u32) << 8)
        | (data2 as u32)
}

fn encode_sysex(bytes: &[u8], group: u8) -> (words: Vec<u32>)
    requires
        bytes@.len() > 0,
        bytes@[0] == 0xF0,
    ensures
        words@ == sysex_words(group, sysex_payload(bytes@), true),
{
    // UMP data packets have their own framing: F0 and F7 stay out.
    let end: usize = if bytes[bytes.len() - 1] == 0xF7 {
        bytes.len() - 1
    } else {
        bytes.len()
    };
    let payload = vstd::slice::slice_subrange(bytes, 1, end);
    assert(payload@ =~= sysex_payload(bytes@));
    let mut words: Vec<u32> = Vec::new();
    let mut i: usize = 0;
    assert(payload@.skip(0) =~= payload@);
    while payload.len() - i > 6
        invariant
            i <= payload@.len(),
            payload@ == sysex_payload(bytes@),
            words@ + sysex_words(group, payload@.skip(i as int), i == 0) == sysex_words(
                group,
                payload@,
                true,
            ),
        decreases payload@.len() - i,
    {
        let chunk = vstd::slice::slice_subrange(payload, i, i + 6);
        let position: u8 = if i == 0 {
            1
        } else {
            2
        };
        let packet = mt3_packet(group, position, chunk);
        let ghost before = words@;
        words.push(packet[0]);
        words.push(packet[1]);
        proof {
            let rest = payload@.skip(i as int);
            assert(chunk@ =~= rest.take(6));
            assert(rest.skip(6) =~= payload@.skip(i + 6));
            assert(words@ =~= before + packet@);
            assert(words@ + sysex_words(group, payload@.skip(i + 6), false) =~= before
                + sysex_words(group, rest, i == 0));
        }
        i = i + 6;
    }
    let chunk = vstd::slice::slice_subrange(payload, i, payload.len());
    let position: u8 = if i == 0 {
        0
    } else {
        3
    };
    let packet = mt3_packet(group, position, chunk);
    let ghost before = words@;
    words.push(packet[0]);
    words.push(packet[1]);
    proof {
        assert(chunk@ =~= payload@.skip(i as int));
        assert(words@ =~= before + packet@);
    }
    words
}

fn mt3_packet(group: u8, status_nibble: u8, payload: &[u8]) -> (packet: [u32; 2])
    requires
        payload@.len() <= 6,
        status_nibble < 16,
    ensures
        packet@ == sysex_packet(group, status_nibble as int, payload@),
{
    let n = payload.len() as u8;
    let p0 = byte_at(payload, 0);
    let p1 = byte_at(payload, 1);
    let p2 = byte_at(payload, 2);
    let p3 = byte_at(payload, 3);
    let p4 = byte_at(payload, 4);
    let p5 = byte_at(payload, 5);
    let word1: u32 = (0x3_u32 << 28) | ((group as u32 & 0xF) << 24) | ((status_nibble as u32 & 0xF)
        << 20) | ((n as u32 & 0xF) << 16) | ((p0 as u32) << 8) | (p1 as u32);
    let word2: u32 = ((p2 as u32) << 24) | ((p3 as u32) << 16) | ((p4 as u32) << 8) | (p5 as u32);
    proof {
        lemma_sysex_packet(group, status_nibble, n, p0, p1, p2, p3, p4, p5);
    }
    let packet = [word1, word2];
    assert(packet@ =~= sysex_packet(group, status_nibble as int, payload@));
    packet
}

fn byte_at(bytes: &[u8], i: usize) -> (byte: u8)
    ensures
        byte == byte_or_zero(bytes@, i as int),
{
    if i < bytes.len() {
        bytes[i]
    } else {
        0
    }
}

/// The fields of a SysEx packet do not overlap.
pub proof fn lemma_sysex_packet(
    group: u8,
    position: u8,
    n: u8,
    p0: u8,
    p1: u8,
    p2: u8,
    p3: u8,
    p4: u8,
    p5: u8,
)
    by (bit_vector)
    requires
        position < 16,
        n < 16,
    ensures
        (0x3_u32 << 28) | (((group as u32) & 0xF) << 24) | (((position as u32) & 0xF) << 20) | (((n
            as u32) & 0xF) << 16) | ((p0 as u32) << 8) | (p1 as u32) == 3 * 0x1000_0000 + (group
            % 16) * 0x100_0000 + position * 0x10_0000 + n * 0x1_0000 + p0 * 0x100 + p1,
        ((p2 as u32) << 24) | ((p3 as u32) << 16) | ((p4 as u32) << 8) | (p5 as u32) == p2
            * 0x100_0000 + p3 * 0x1_0000 + p4 * 0x100 + p5,
{
}

/// How many bytes a MIDI 1.0 message with this status byte has.
pub open spec fn message_len(status: u8) -> int {
    let kind = status / 16;
    if kind == 0xC || kind == 0xD || status == 0xF1 || status == 0xF3 {
        2
    } else if 0x8 <= kind <= 0xE || status == 0xF2 {
        3
    } else {
        1
    }
}

/// The message that a one-word packet carries.
pub open spec fn short_message(word: u32) -> Seq<u8> {
    let status = ((word / 0x1_0000) % 256) as u8;
    seq![status, ((word / 0x100) % 256) as u8, (word % 256) as u8].take(message_len(status))
}

/// The payload bytes of a SysEx packet. A count above six means six.
pub open spec fn packet_payload(word1: u32, word2: u32) -> Seq<u8> {
    let n = ((word1 / 0x1_0000) % 16) as int;
    seq![
        ((word1 / 0x100) % 256) as u8,
        (word1 % 256) as u8,
        ((word2 / 0x100_0000) % 256) as u8,
        ((word2 / 0x1_0000) % 256) as u8,
        ((word2 / 0x100) % 256) as u8,
        (word2 % 256) as u8,
    ].take(if n < 6 { n } else { 6 })
}

/// What a SysEx packet does to the bytes gathered so far, and the message that
/// it completes, if it completes one.
pub open spec fn gathered(buffer: Seq<u8>, word1: u32, word2: u32) -> (Seq<u8>, Seq<Seq<u8>>) {
    let position = (word1 / 0x10_0000) % 16;
    let payload = packet_payload(word1, word2);
    if position == 0 {
        (buffer, seq![seq![0xF0u8] + payload + seq![0xF7u8]])
    } else if position == 1 {
        (seq![0xF0u8] + payload, seq![])
    } else if position == 2 {
        (buffer + payload, seq![])
    } else if position == 3 {
        (seq![], seq![buffer + payload + seq![0xF7u8]])
    } else {
        (buffer, seq![])
    }
}

/// How many words a packet of this type has.
pub open spec fn packet_len(message_type: int) -> int {
    if message_type <= 2 {
        1
    } else if message_type <= 4 {
        2
    } else {
        4
    }
}

/// What a stream of words decodes to, given the SysEx bytes gathered before it:
/// the bytes gathered after it, and the messages completed on the way. A SysEx
/// packet cut off after its first word is dropped; packets that have no MIDI 1.0
/// form are passed over whole.
pub open spec fn decoded(buffer: Seq<u8>, words: Seq<u32>) -> (Seq<u8>, Seq<Seq<u8>>)
    decreases words.len(),
{
    if words.len() == 0 {
        (buffer, seq![])
    } else {
        let kind = message_type(words[0]);
        if kind == 1 || kind == 2 {
            let (end, messages) = decoded(buffer, words.skip(1));
            (end, seq![short_message(words[0])] + messages)
        } else if kind == 3 {
            if words.len() == 1 {
                (buffer, seq![])
            } else {
                let (next, done) = gathered(buffer, words[0], words[1]);
                let (end, messages) = decoded(next, words.skip(2));
                (end, done + messages)
            }
        } else if words.len() <= packet_len(kind) {
            (buffer, seq![])
        } else {
            decoded(buffer, words.skip(packet_len(kind)))
        }
    }
}

/// State machine for decoding UMP word stream back into MIDI 1.0 byte messages.
/// Each call to `feed` may emit zero or more complete byte-format MIDI messages.
#[derive(Debug)]
pub struct Decoder {
    sysex_buf: Vec<u8>,
}

impl Default for Decoder {
    fn default() -> (decoder: Self)
        ensures
            decoder@ == Seq::<u8>::empty(),
    {
        Decoder { sysex_buf: Vec::new() }
    }
}

/// A decoder stands for the bytes of the SysEx message that it is gathering.
impl View for Decoder {
    type V = Seq<u8>;

    closed spec fn view(&self) -> Seq<u8> {
        self.sysex_buf@
    }
}

impl Decoder {
    pub fn new() -> (decoder: Self)
        ensures
            decoder@ == Seq::<u8>::empty(),
    {
        Self::default()
    }

    /// Feed UMP words; returns complete MIDI 1.0 byte messages assembled so far.
    pub fn feed(&mut self, words: &[u32]) -> (messages: Vec<Vec<u8>>)
        ensures
            (final(self)@, parse::views(messages@)) == decoded(old(self)@, words@),
    {
        let mut out: Vec<Vec<u8>> = Vec::new();
        let mut i: usize = 0;
        assert(words@.skip(0) =~= words@);
        assert(parse::views(out@) + decoded(self@, words@).1 =~= decoded(self@, words@).1);
        while i < words.len()
            invariant
                i <= words@.len(),
                ({
                    let rest = decoded(self@, words@.skip(i as int));
                    decoded(old(self)@, words@) == (rest.0, parse::views(out@) + rest.1)
                }),
            decreases words@.len() - i,
        {
            let w = words[i];
            let mt = (w >> 28) & 0xF;
            let ghost rest = words@.skip(i as int);
            let ghost before = parse::views(out@);
            proof {
                lemma_word_fields(w);
                assert(rest[0] == w);
            }
            if mt == 0x1 || mt == 0x2 {
                // System and MIDI 1.0 channel voice messages: one word, with the
                // byte-format message in its low three bytes.
                let bytes = short_bytes(w);
                out.push(bytes);
                proof {
                    assert(rest.skip(1) =~= words@.skip(i + 1));
                    parse::lemma_views_push(out@.drop_last(), bytes);
                    assert(out@.drop_last().push(bytes) =~= out@);
                    assert(parse::views(out@.drop_last()) =~= before);
                    assert(parse::views(out@) + decoded(self@, rest.skip(1)).1 =~= before
                        + decoded(self@, rest).1);
                }
                i = i + 1;
            } else if mt == 0x3 {
                // SysEx data: two words per packet.
                if words.len() - i < 2 {
                    assert(decoded(self@, rest) == (self@, Seq::<Seq<u8>>::empty()));
                    assert(before + Seq::<Seq<u8>>::empty() =~= before);
                    return out;
                }
                let ghost buffer = self@;
                let done = self.gather(w, words[i + 1]);
                proof {
                    assert(rest[1] == words@[i + 1]);
                    assert(rest.skip(2) =~= words@.skip(i + 2));
                }
                match done {
                    Some(message) => {
                        out.push(message);
                        proof {
                            parse::lemma_views_push(out@.drop_last(), message);
                            assert(out@.drop_last().push(message) =~= out@);
                            assert(parse::views(out@.drop_last()) =~= before);
                            assert(parse::views(out@) + decoded(self@, rest.skip(2)).1 =~= before
                                + decoded(buffer, rest).1);
                        }
                    },
                    None => {
                        proof {
                            assert(before + decoded(self@, rest.skip(2)).1 =~= before + decoded(
                                buffer,
                                rest,
                            ).1);
                        }
                    },
                }
                i = i + 2;
            } else {
                // Utility words, MIDI 2.0 channel voice and the 128-bit packets
                // have no byte-format equivalent. Skip them as a whole: trailing
                // words read on their own would give phantom messages.
                let size: usize = if mt == 0x0 {
                    1
                } else if mt == 0x4 {
                    2
                } else {
                    4
                };
                if words.len() - i <= size {
                    assert(decoded(self@, rest) == (self@, Seq::<Seq<u8>>::empty()));
                    assert(before + Seq::<Seq<u8>>::empty() =~= before);
                    return out;
                }
                assert(rest.skip(size as int) =~= words@.skip(i + size));
                i = i + size;
            }
        }
        assert(words@.skip(i as int).len() == 0);
        assert(parse::views(out@) + Seq::<Seq<u8>>::empty() =~= parse::views(out@));
        out
    }

    /// Takes in one SysEx packet; returns the message that it completes.
    fn gather(&mut self, word1: u32, word2: u32) -> (done: Option<Vec<u8>>)
        ensures
            gathered(old(self)@, word1, word2) == (
                final(self)@,
                match done {
                    Some(message) => seq![message@],
                    None => seq![],
                },
            ),
    {
        let status = ((word1 >> 20) & 0xF) as u8;
        let n = ((word1 >> 16) & 0xF) as usize;
        proof {
            lemma_word_fields(word1);
        }
        let mut bytes = mt3_extract(word1, word2, n);
        if status == 0x0 {
            let mut full: Vec<u8> = Vec::new();
            full.push(0xF0);
            full.append(&mut bytes);
            full.push(0xF7);
            assert(full@ =~= seq![0xF0u8] + packet_payload(word1, word2) + seq![0xF7u8]);
            Some(full)
        } else if status == 0x1 {
            self.sysex_buf.clear();
            self.sysex_buf.push(0xF0);
            self.sysex_buf.append(&mut bytes);
            assert(self@ =~= seq![0xF0u8] + packet_payload(word1, word2));
            None
        } else if status == 0x2 {
            self.sysex_buf.append(&mut bytes);
            None
        } else if status == 0x3 {
            let mut full: Vec<u8> = Vec::new();
            full.append(&mut self.sysex_buf);
            full.append(&mut bytes);
            full.push(0xF7);
            assert(full@ =~= old(self)@ + packet_payload(word1, word2) + seq![0xF7u8]);
            Some(full)
        } else {
            None
        }
    }
}

/// Shifts and masks read the fields of a word.
proof fn lemma_word_fields(w: u32)
    by (bit_vector)
    ensures
        (w >> 28) & 0xF == w / 0x1000_0000,
        (w >> 20) & 0xF == (w / 0x10_0000) % 16,
        (w >> 16) & 0xF == (w / 0x1_0000) % 16,
        (w >> 24) & 0xFF == (w / 0x100_0000) % 256,
        (w >> 16) & 0xFF == (w / 0x1_0000) % 256,
        (w >> 8) & 0xFF == (w / 0x100) % 256,
        w & 0xFF == w % 256,
{
}

fn short_bytes(w: u32) -> (bytes: Vec<u8>)
    ensures
        bytes@ == short_message(w),
{
    proof {
        lemma_word_fields(w);
    }
    let status = ((w >> 16) & 0xFF) as u8;
    let data1 = ((w >> 8) & 0xFF) as u8;
    let data2 = (w & 0xFF) as u8;
    let len = byte_format_len(status);
    let mut bytes: Vec<u8> = Vec::new();
    bytes.push(status);
    if len >= 2 {
        bytes.push(data1);
    }
    if len >= 3 {
        bytes.push(data2);
    }
    assert(bytes@ =~= short_message(w));
    bytes
}

fn mt3_extract(w0: u32, w1: u32, n: usize) -> (bytes: Vec<u8>)
    requires
        n == (w0 / 0x1_0000) % 16,
    ensures
        bytes@ == packet_payload(w0, w1),
{
    proof {
        lemma_word_fields(w0);
        lemma_word_fields(w1);
    }
    let mut bytes: Vec<u8> = Vec::new();
    if n >= 1 {
        bytes.push(((w0 >> 8) & 0xFF) as u8);
    }
    if n >= 2 {
        bytes.push((w0 & 0xFF) as u8);
    }
    if n >= 3 {
        bytes.push(((w1 >> 24) & 0xFF) as u8);
    }
    if n >= 4 {
        bytes.push(((w1 >> 16) & 0xFF) as u8);
    }
    if n >= 5 {
        bytes.push(((w1 >> 8) & 0xFF) as u8);
    }
    if n >= 6 {
        bytes.push((w1 & 0xFF) as u8);
    }
    assert(bytes@ =~= packet_payload(w0, w1));
    bytes
}

fn byte_format_len(status: u8) -> (len: usize)
    ensures
        len == message_len(status),
{
    let kind = status & 0xF0;
    assert(kind == (status / 16) * 16) by (bit_vector)
        requires
            kind == status & 0xF0,
    ;
    if kind == 0x80 || kind == 0x90 || kind == 0xA0 || kind == 0xB0 || kind == 0xE0 {
        3
    } else if kind == 0xC0 || kind == 0xD0 {
        2
    } else if kind == 0xF0 {
        if status == 0xF1 || status == 0xF3 {
            2
        } else if status == 0xF2 {
            3
        } else {
            1
        }
    } else {
        1
    }
}

/// The words of a stream, one packet after the other. A packet cut off at the
/// end of the stream keeps the words that are there.
pub open spec fn packets(words: Seq<u32>) -> Seq<Seq<u32>>
    decreases words.len(),
{
    if words.len() == 0 {
        seq![]
    } else {
        let size = sent_packet_len(message_type(words[0]));
        if words.len() <= size {
            seq![words]
        } else {
            seq![words.take(size)] + packets(words.skip(size))
        }
    }
}

/// How many words of a packet of this type are sent at once. The types above
/// five are never encoded; their words go out one by one.
pub open spec fn sent_packet_len(message_type: int) -> int {
    if message_type == 3 || message_type == 4 {
        2
    } else if message_type == 5 {
        4
    } else {
        1
    }
}

/// The values of a list of packets.
pub open spec fn packet_views(list: Seq<Vec<u32>>) -> Seq<Seq<u32>> {
    list.map_values(|words: Vec<u32>| words@)
}

/// Cuts a stream of words into the packets to be sent one at a time.
pub fn split_packets(words: &[u32]) -> (list: Vec<Vec<u32>>)
    ensures
        packet_views(list@) == packets(words@),
{
    let mut list: Vec<Vec<u32>> = Vec::new();
    let mut i: usize = 0;
    assert(words@.skip(0) =~= words@);
    assert(packet_views(list@) + packets(words@) =~= packets(words@));
    while i < words.len()
        invariant
            i <= words@.len(),
            packet_views(list@) + packets(words@.skip(i as int)) == packets(words@),
        decreases words@.len() - i,
    {
        let mt = (words[i] >> 28) & 0xF;
        proof {
            lemma_word_fields(words@[i as int]);
        }
        let size: usize = if mt == 0x3 || mt == 0x4 {
            2
        } else if mt == 0x5 {
            4
        } else {
            1
        };
        let taken: usize = if words.len() - i < size {
            words.len() - i
        } else {
            size
        };
        let packet = vstd::slice::slice_to_vec(vstd::slice::slice_subrange(words, i, i + taken));
        let ghost rest = words@.skip(i as int);
        let ghost before = packet_views(list@);
        list.push(packet);
        proof {
            assert(packet@ =~= rest.take(taken as int));
            assert(rest.skip(taken as int) =~= words@.skip(i + taken));
            assert(packet_views(list@) =~= before.push(packet@));
            if taken == rest.len() {
                assert(rest.take(taken as int) =~= rest);
                assert(packets(rest.skip(taken as int)) =~= Seq::<Seq<u32>>::empty());
            }
            assert(packet_views(list@) + packets(rest.skip(taken as int)) =~= before + packets(
                rest,
            ));
        }
        i = i + taken;
    }
    assert(packet_views(list@) + packets(words@.skip(i as int)) =~= packet_views(list@));
    list
}

/// A one-word packet gives back the bytes that went into it.
proof fn lemma_short_word_fields(w: u32, kind: u32, group: u8, status: u8, data1: u8, data2: u8)
    by (bit_vector)
    requires
        kind < 16,
        w == (kind << 28) | (((group as u32) & 0xF) << 24) | ((status as u32) << 16) | ((data1
            as u32) << 8) | (data2 as u32),
    ensures
        w / 0x1000_0000 == kind,
        (w / 0x1_0000) % 256 == status as u32,
        (w / 0x100) % 256 == data1 as u32,
        w % 256 == data2 as u32,
{
}

/// A SysEx packet gives back the fields that went into it.
proof fn lemma_sysex_packet_fields(
    w1: u32,
    w2: u32,
    group: u8,
    position: u8,
    n: u8,
    p0: u8,
    p1: u8,
    p2: u8,
    p3: u8,
    p4: u8,
    p5: u8,
)
    by (bit_vector)
    requires
        position < 16,
        n < 16,
        w1 == (0x3_u32 << 28) | (((group as u32) & 0xF) << 24) | (((position as u32) & 0xF) << 20)
            | (((n as u32) & 0xF) << 16) | ((p0 as u32) << 8) | (p1 as u32),
        w2 == ((p2 as u32) << 24) | ((p3 as u32) << 16) | ((p4 as u32) << 8) | (p5 as u32),
    ensures
        w1 / 0x1000_0000 == 3,
        (w1 / 0x10_0000) % 16 == position as u32,
        (w1 / 0x1_0000) % 16 == n as u32,
        (w1 / 0x100) % 256 == p0 as u32,
        w1 % 256 == p1 as u32,
        (w2 / 0x100_0000) % 256 == p2 as u32,
        (w2 / 0x1_0000) % 256 == p3 as u32,
        (w2 / 0x100) % 256 == p4 as u32,
        w2 % 256 == p5 as u32,
{
}

/// A SysEx packet is read back with its position and its payload.
proof fn lemma_sysex_packet_read_back(group: u8, position: int, payload: Seq<u8>)
    requires
        0 <= position < 16,
        payload.len() <= 6,
    ensures
        ({
            let words = sysex_packet(group, position, payload);
            &&& message_type(words[0]) == 3
            &&& (words[0] / 0x10_0000) % 16 == position
            &&& packet_payload(words[0], words[1]) == payload
        }),
{
    let words = sysex_packet(group, position, payload);
    lemma_sysex_packet(
        group,
        position as u8,
        payload.len() as u8,
        byte_or_zero(payload, 0),
        byte_or_zero(payload, 1),
        byte_or_zero(payload, 2),
        byte_or_zero(payload, 3),
        byte_or_zero(payload, 4),
        byte_or_zero(payload, 5),
    );
    lemma_sysex_packet_fields(
        words[0],
        words[1],
        group,
        position as u8,
        payload.len() as u8,
        byte_or_zero(payload, 0),
        byte_or_zero(payload, 1),
        byte_or_zero(payload, 2),
        byte_or_zero(payload, 3),
        byte_or_zero(payload, 4),
        byte_or_zero(payload, 5),
    );
    assert(packet_payload(words[0], words[1]) =~= payload);
}

/// One SysEx packet at the head of a stream.
proof fn lemma_sysex_packet_decoded(
    buffer: Seq<u8>,
    group: u8,
    position: int,
    payload: Seq<u8>,
    rest: Seq<u32>,
)
    requires
        0 <= position <= 3,
        payload.len() <= 6,
    ensures
        ({
            let words = sysex_packet(group, position, payload);
            let (next, done) = gathered(buffer, words[0], words[1]);
            let (end, messages) = decoded(next, rest);
            decoded(buffer, words + rest) == (end, done + messages)
        }),
{
    lemma_sysex_packet_read_back(group, position, payload);
    let words = sysex_packet(group, position, payload) + rest;
    assert(words.skip(2) =~= rest);
}

/// The packets of a SysEx message under way complete it.
proof fn lemma_sysex_tail_decoded(buffer: Seq<u8>, group: u8, payload: Seq<u8>, rest: Seq<u32>)
    ensures
        ({
            let (end, messages) = decoded(seq![], rest);
            decoded(buffer, sysex_words(group, payload, false) + rest) == (
                end,
                seq![buffer + payload + seq![0xF7u8]] + messages,
            )
        }),
    decreases payload.len(),
{
    if payload.len() <= 6 {
        lemma_sysex_packet_read_back(group, 3, payload);
        lemma_sysex_packet_decoded(buffer, group, 3, payload, rest);
    } else {
        let head = payload.take(6);
        let tail = sysex_words(group, payload.skip(6), false);
        lemma_sysex_packet_read_back(group, 2, head);
        lemma_sysex_packet_decoded(buffer, group, 2, head, tail + rest);
        lemma_sysex_tail_decoded(buffer + head, group, payload.skip(6), rest);
        assert(sysex_words(group, payload, false) + rest =~= sysex_packet(group, 2, head) + (tail
            + rest));
        assert(buffer + head + payload.skip(6) =~= buffer + payload);
        let messages = decoded(buffer + head, tail + rest).1;
        assert(Seq::<Seq<u8>>::empty() + messages =~= messages);
    }
}

/// A channel or system message that is encoded and decoded again, at any place
/// in a stream, comes out as it went in.
pub proof fn law_short_message_round_trip(
    buffer: Seq<u8>,
    bytes: Seq<u8>,
    group: u8,
    rest: Seq<u32>,
)
    requires
        bytes.len() > 0,
        bytes[0] != 0xF0,
        bytes.len() == message_len(bytes[0]),
    ensures
        decoded(buffer, encoded(bytes, group) + rest) == (
            decoded(buffer, rest).0,
            seq![bytes] + decoded(buffer, rest).1,
        ),
{
    let kind: int = if 0x80 <= bytes[0] < 0xF0 {
        2
    } else {
        1
    };
    let w = short_word(kind, group, bytes[0], byte_or_zero(bytes, 1), byte_or_zero(bytes, 2));
    lemma_short_word(group, bytes[0], byte_or_zero(bytes, 1), byte_or_zero(bytes, 2));
    lemma_short_word_fields(
        w,
        kind as u32,
        group,
        bytes[0],
        byte_or_zero(bytes, 1),
        byte_or_zero(bytes, 2),
    );
    let words = encoded(bytes, group) + rest;
    assert(words[0] == w);
    assert(words.skip(1) =~= rest);
    assert(short_message(w) =~= bytes);
}

/// A SysEx message that is encoded and decoded again, at any place in a stream,
/// comes out as it went in. One that fits a single packet leaves a message
/// under way as it is; a longer one takes its place.
pub proof fn law_sysex_round_trip(buffer: Seq<u8>, bytes: Seq<u8>, group: u8, rest: Seq<u32>)
    requires
        bytes.len() >= 2,
        bytes[0] == 0xF0,
        bytes.last() == 0xF7,
    ensures
        ({
            let (end, messages) = decoded(
                if bytes.len() <= 8 {
                    buffer
                } else {
                    seq![]
                },
                rest,
            );
            decoded(buffer, encoded(bytes, group) + rest) == (end, seq![bytes] + messages)
        }),
{
    let payload = sysex_payload(bytes);
    if payload.len() <= 6 {
        lemma_sysex_packet_read_back(group, 0, payload);
        lemma_sysex_packet_decoded(buffer, group, 0, payload, rest);
        assert(seq![0xF0u8] + payload + seq![0xF7u8] =~= bytes);
    } else {
        let head = payload.take(6);
        let tail = sysex_words(group, payload.skip(6), false);
        lemma_sysex_packet_read_back(group, 1, head);
        lemma_sysex_packet_decoded(buffer, group, 1, head, tail + rest);
        lemma_sysex_tail_decoded(seq![0xF0u8] + head, group, payload.skip(6), rest);
        assert(encoded(bytes, group) + rest =~= sysex_packet(group, 1, head) + (tail + rest));
        assert(seq![0xF0u8] + head + payload.skip(6) + seq![0xF7u8] =~= bytes);
        let messages = decoded(seq![0xF0u8] + head, tail + rest).1;
        assert(Seq::<Seq<u8>>::empty() + messages =~= messages);
    }
}

/// A packet that has no MIDI 1.0 form is passed over as a whole, whatever its
/// words hold.
pub proof fn law_other_packets_decode_to_nothing(
    buffer: Seq<u8>,
    packet: Seq<u32>,
    rest: Seq<u32>,
)
    requires
        packet.len() > 0,
        packet.len() == packet_len(message_type(packet[0])),
        message_type(packet[0]) == 0 || message_type(packet[0]) >= 4,
    ensures
        decoded(buffer, packet + rest) == decoded(buffer, rest),
{
    let words = packet + rest;
    assert(words[0] == packet[0]);
    assert(words.skip(packet.len() as int) =~= rest);
    if rest.len() == 0 {
        assert(decoded(buffer, words) == decoded(buffer, rest));
    }
}

/// Whether a stream ends at the end of a packet.
pub open spec fn whole_packets(words: Seq<u32>) -> bool
    decreases words.len(),
{
    words.len() > 0 ==> {
        let size = packet_len(message_type(words[0]));
        size <= words.len() && whole_packets(words.skip(size))
    }
}

/// A stream that is fed piece by piece decodes as if it had come at once, as
/// long as it is cut between packets.
pub proof fn law_decoding_in_pieces(buffer: Seq<u8>, first: Seq<u32>, second: Seq<u32>)
    requires
        whole_packets(first),
    ensures
        ({
            let (between, messages) = decoded(buffer, first);
            let (end, more) = decoded(between, second);
            decoded(buffer, first + second) == (end, messages + more)
        }),
    decreases first.len(),
{
    let (between, messages) = decoded(buffer, first);
    let more = decoded(between, second).1;
    if first.len() == 0 {
        assert(first + second =~= second);
        assert(messages + more =~= more);
    } else {
        let size = packet_len(message_type(first[0]));
        let next = if message_type(first[0]) == 3 {
            gathered(buffer, first[0], first[1]).0
        } else {
            buffer
        };
        law_decoding_in_pieces(next, first.skip(size), second);
        assert((first + second).skip(size) =~= first.skip(size) + second);
        assert((first + second)[0] == first[0]);
        if first.len() == size && message_type(first[0]) != 1 && message_type(first[0]) != 2
            && message_type(first[0]) != 3 {
            assert(first.skip(size).len() == 0);
            assert(decoded(buffer, first.skip(size)) == (buffer, Seq::<Seq<u8>>::empty()));
            if second.len() == 0 {
                assert(first + second =~= first);
                assert(messages + more =~= messages);
            } else {
                assert(messages + more =~= more);
                assert(first.skip(size) + second =~= second);
            }
        } else if message_type(first[0]) == 3 {
            let done = gathered(buffer, first[0], first[1]).1;
            let later = decoded(next, first.skip(size)).1;
            assert(done + (later + more) =~= done + later + more);
        } else if message_type(first[0]) == 1 || message_type(first[0]) == 2 {
            let done = seq![short_message(first[0])];
            let later = decoded(next, first.skip(size)).1;
            assert(done + (later + more) =~= done + later + more);
        }
    }
}

/// The packets of a stream, laid end to end.
pub open spec fn laid_out(list: Seq<Seq<u32>>) -> Seq<u32>
    decreases list.len(),
{
    if list.len() == 0 {
        seq![]
    } else {
        list[0] + laid_out(list.skip(1))
    }
}

/// Cutting a stream into packets loses nothing, and no packet is empty.
pub proof fn law_packets_make_up_the_stream(words: Seq<u32>)
    ensures
        laid_out(packets(words)) == words,
        forall|i: int| 0 <= i < packets(words).len() ==> (#[trigger] packets(words)[i]).len() > 0,
    decreases words.len(),
{
    if words.len() > 0 {
        let size = sent_packet_len(message_type(words[0]));
        if words.len() <= size {
            assert(laid_out(packets(words).skip(1)) =~= Seq::<u32>::empty());
            assert(laid_out(packets(words)) =~= words);
        } else {
            law_packets_make_up_the_stream(words.skip(size));
            assert(packets(words).skip(1) =~= packets(words.skip(size)));
            assert(laid_out(packets(words)) =~= words);
            assert forall|i: int| 0 <= i < packets(words).len() implies (#[trigger] packets(
                words,
            )[i]).len() > 0 by {
                if i > 0 {
                    assert(packets(words)[i] == packets(words.skip(size))[i - 1]);
                }
            }
        }
    }
}

/// What the encoder makes of a message ends at the end of a packet.
pub proof fn law_encoded_messages_are_whole_packets(bytes: Seq<u8>, group: u8)
    ensures
        whole_packets(encoded(bytes, group)),
{
    if bytes.len() > 0 {
        if bytes[0] == 0xF0 {
            lemma_sysex_words_are_whole(group, sysex_payload(bytes), true);
        } else {
            let kind: int = if 0x80 <= bytes[0] < 0xF0 {
                2
            } else {
                1
            };
            lemma_short_word(group, bytes[0], byte_or_zero(bytes, 1), byte_or_zero(bytes, 2));
            lemma_short_word_fields(
                short_word(
                    kind,
                    group,
                    bytes[0],
                    byte_or_zero(bytes, 1),
                    byte_or_zero(bytes, 2),
                ),
                kind as u32,
                group,
                bytes[0],
                byte_or_zero(bytes, 1),
                byte_or_zero(bytes, 2),
            );
            assert(whole_packets(encoded(bytes, group).skip(1)));
        }
    }
}

proof fn lemma_sysex_words_are_whole(group: u8, payload: Seq<u8>, first: bool)
    ensures
        whole_packets(sysex_words(group, payload, first)),
    decreases payload.len(),
{
    let words = sysex_words(group, payload, first);
    if payload.len() <= 6 {
        lemma_sysex_packet_read_back(
            group,
            if first {
                0
            } else {
                3
            },
            payload,
        );
        assert(whole_packets(words.skip(2)));
    } else {
        lemma_sysex_words_are_whole(group, payload.skip(6), false);
        lemma_sysex_packet_read_back(
            group,
            if first {
                1
            } else {
                2
            },
            payload.take(6),
        );
        assert(words.skip(2) =~= sysex_words(group, payload.skip(6), false));
    }
}

} // verus!
