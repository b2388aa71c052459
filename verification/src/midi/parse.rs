//! Lightweight tagging of inbound MIDI bytes into the variants the proxy cares about.
//!
//! This is not a full MIDI parser. The proxy only needs to tell apart: Note On,
//! Note Off, Control Change, SysEx, "everything else". Running status is
//! unsupported (USB MIDI never uses it).

use vstd::prelude::*;

verus! {

/// One MIDI message, tagged.
#[derive(Debug, Clone, PartialEq, Eq)]
pub enum Msg<'a> {
    NoteOn { channel: u8, note: u8, velocity: u8 },
    NoteOff { channel: u8, note: u8, velocity: u8 },
    Cc { channel: u8, controller: u8, value: u8 },
    SysEx(&'a [u8]),
    Other(&'a [u8]),
}

/// The value a [`Msg`] stands for, with byte slices as sequences.
pub enum MsgView {
    NoteOn { channel: u8, note: u8, velocity: u8 },
    NoteOff { channel: u8, note: u8, velocity: u8 },
    Cc { channel: u8, controller: u8, value: u8 },
    SysEx(Seq<u8>),
    Other(Seq<u8>),
}

impl<'a> View for Msg<'a> {
    type V = MsgView;

    open spec fn view(&self) -> MsgView {
        match *self {
            Msg::NoteOn { channel, note, velocity } => MsgView::NoteOn { channel, note, velocity },
            Msg::NoteOff { channel, note, velocity } => MsgView::NoteOff {
                channel,
                note,
                velocity,
            },
            Msg::Cc { channel, controller, value } => MsgView::Cc { channel, controller, value },
            Msg::SysEx(bytes) => MsgView::SysEx(bytes@),
            Msg::Other(bytes) => MsgView::Other(bytes@),
        }
    }
}

/// The values of a list of byte strings.
pub open spec fn views(list: Seq<Vec<u8>>) -> Seq<Seq<u8>> {
    list.map_values(|bytes: Vec<u8>| bytes@)
}

/// Adding a byte string to a list adds its value to the list's value.
pub proof fn lemma_views_push(list: Seq<Vec<u8>>, bytes: Vec<u8>)
    ensures
        views(list.push(bytes)) == views(list).push(bytes@),
{
    assert(views(list.push(bytes)) =~= views(list).push(bytes@));
}

/// What a byte string means. The high nibble of the first byte selects the kind
/// of a channel message and the low nibble its channel; a channel message needs
/// two data bytes. A Note On at velocity zero is a Note Off.
pub open spec fn meaning(bytes: Seq<u8>) -> MsgView {
    if bytes.len() >= 3 && bytes[0] / 16 == 8 {
        MsgView::NoteOff { channel: bytes[0] % 16, note: bytes[1], velocity: bytes[2] }
    } else if bytes.len() >= 3 && bytes[0] / 16 == 9 && bytes[2] == 0 {
        MsgView::NoteOff { channel: bytes[0] % 16, note: bytes[1], velocity: 0 }
    } else if bytes.len() >= 3 && bytes[0] / 16 == 9 {
        MsgView::NoteOn { channel: bytes[0] % 16, note: bytes[1], velocity: bytes[2] }
    } else if bytes.len() >= 3 && bytes[0] / 16 == 11 {
        MsgView::Cc { channel: bytes[0] % 16, controller: bytes[1], value: bytes[2] }
    } else if bytes.len() >= 1 && bytes[0] == 0xF0 {
        MsgView::SysEx(bytes)
    } else {
        MsgView::Other(bytes)
    }
}

/// The bytes of a Note On: channel in four bits, note and velocity in seven.
pub open spec fn note_on_bytes(channel: u8, note: u8, velocity: u8) -> Seq<u8> {
    seq![(0x90 + channel % 16) as u8, note % 128, velocity % 128]
}

/// The bytes of a Note Off, cut to their fields like those of a Note On.
pub open spec fn note_off_bytes(channel: u8, note: u8, velocity: u8) -> Seq<u8> {
    seq![(0x80 + channel % 16) as u8, note % 128, velocity % 128]
}

/// The bytes of a Control Change, cut to their fields like those of a Note On.
pub open spec fn cc_bytes(channel: u8, controller: u8, value: u8) -> Seq<u8> {
    seq![(0xB0 + channel % 16) as u8, controller % 128, value % 128]
}

/// Tags a complete MIDI message.
pub fn classify(bytes: &[u8]) -> (msg: Msg<'_>)
    ensures
        msg@ == meaning(bytes@),
{
    if bytes.is_empty() {
        return Msg::Other(bytes);
    }
    let status = bytes[0];
    let kind = status & 0xF0;
    let channel = status & 0x0F;
    assert(kind == (status / 16) * 16 && channel == status % 16) by (bit_vector)
        requires
            kind == status & 0xF0,
            channel == status & 0x0F,
    ;
    if kind == 0x80 && bytes.len() >= 3 {
        Msg::NoteOff { channel, note: bytes[1], velocity: bytes[2] }
    } else if kind == 0x90 && bytes.len() >= 3 {
        if bytes[2] == 0 {
            Msg::NoteOff { channel, note: bytes[1], velocity: 0 }
        } else {
            Msg::NoteOn { channel, note: bytes[1], velocity: bytes[2] }
        }
    } else if kind == 0xB0 && bytes.len() >= 3 {
        Msg::Cc { channel, controller: bytes[1], value: bytes[2] }
    } else if status == 0xF0 {
        Msg::SysEx(bytes)
    } else {
        Msg::Other(bytes)
    }
}

/// The masks that cut a channel to four bits and a data byte to seven.
proof fn lemma_masks(channel: u8, data: u8)
    by (bit_vector)
    ensures
        0x90 | (channel & 0x0F) == 0x90 + channel % 16,
        0x80 | (channel & 0x0F) == 0x80 + channel % 16,
        0xB0 | (channel & 0x0F) == 0xB0 + channel % 16,
        data & 0x7F == data % 128,
{
}

#[inline]
pub fn note_on(channel: u8, note: u8, velocity: u8) -> (bytes: [u8; 3])
    ensures
        bytes@ == note_on_bytes(channel, note, velocity),
{
    proof {
        lemma_masks(channel, note);
        lemma_masks(channel, velocity);
    }
    [0x90 | (channel & 0x0F), note & 0x7F, velocity & 0x7F]
}

#[inline]
pub fn note_off(channel: u8, note: u8, velocity: u8) -> (bytes: [u8; 3])
    ensures
        bytes@ == note_off_bytes(channel, note, velocity),
{
    proof {
        lemma_masks(channel, note);
        lemma_masks(channel, velocity);
    }
    [0x80 | (channel & 0x0F), note & 0x7F, velocity & 0x7F]
}

#[inline]
pub fn cc(channel: u8, controller: u8, value: u8) -> (bytes: [u8; 3])
    ensures
        bytes@ == cc_bytes(channel, controller, value),
{
    proof {
        lemma_masks(channel, controller);
        lemma_masks(channel, value);
    }
    [0xB0 | (channel & 0x0F), controller & 0x7F, value & 0x7F]
}

/// The three builders and the tagger agree: whatever is built is read back with
/// its fields cut to MIDI's widths, a Note On at velocity zero as a Note Off.
pub proof fn law_built_messages_are_read_back(channel: u8, data1: u8, data2: u8)
    ensures
        data2 % 128 != 0 ==> meaning(note_on_bytes(channel, data1, data2)) == (MsgView::NoteOn {
            channel: channel % 16,
            note: data1 % 128,
            velocity: data2 % 128,
        }),
        data2 % 128 == 0 ==> meaning(note_on_bytes(channel, data1, data2)) == (MsgView::NoteOff {
            channel: channel % 16,
            note: data1 % 128,
            velocity: 0,
        }),
        meaning(note_off_bytes(channel, data1, data2)) == (MsgView::NoteOff {
            channel: channel % 16,
            note: data1 % 128,
            velocity: data2 % 128,
        }),
        meaning(cc_bytes(channel, data1, data2)) == (MsgView::Cc {
            channel: channel % 16,
            controller: data1 % 128,
            value: data2 % 128,
        }),
{
}

} // verus!
