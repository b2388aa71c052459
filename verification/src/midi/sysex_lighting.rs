//! Parser/emitter for the Novation Launchpad **Lighting SysEx** message.
//!
//! Format (Mini MK3 / Launchpad X):
//!
//! ```text
//! F0 00 20 29 02 <model> 03  ( <spec> <led_index> <color...> )*  F7
//! ```
//!
//! `<spec>` selects the color encoding of the entry:
//! - `0x00`: static palette (1 color byte)
//! - `0x01`: flashing palette (2 color bytes: color A, color B)
//! - `0x02`: pulsing palette (1 color byte)
//! - `0x03`: RGB (3 bytes, each 0..127)
//!
//! See: Launchpad Mini MK3 / Launchpad X Programmer's Reference Manuals.
//!
//! The proxy walks and rewrites entries; color bytes are carried through as they
//! are, and truncated payloads are rejected with a typed error.

use vstd::prelude::*;
use vstd::string::StringExecFns;

use crate::text;

verus! {

/// Why a byte string is no Lighting SysEx.
#[derive(Debug, Clone, Copy, PartialEq, Eq, Structural)]
pub enum SysexError {
    /// Does not start with `F0`.
    NotSysex,
    /// Missing `F7` terminator.
    NoTerminator,
    /// Not a Novation lighting message (manufacturer/model mismatch).
    NotLighting,
    /// Payload truncated mid-entry, at this byte of the payload.
    Truncated(usize),
    /// Unknown color spec.
    UnknownSpec(u8),
}

impl SysexError {
    /// What is said of the error.
    pub open spec fn message_text(self) -> Seq<char> {
        match self {
            SysexError::NotSysex => "not a sysex (does not start with F0)"@,
            SysexError::NoTerminator => "missing F7 terminator"@,
            SysexError::NotLighting =>
                "not a Novation lighting message (manufacturer/model mismatch)"@,
            SysexError::Truncated(at) => "payload truncated mid-triplet at byte "@ + text::decimal(
                at as nat,
            ),
            SysexError::UnknownSpec(spec) => "unknown color spec 0x"@ + text::hexadecimal(
                spec as nat,
            ),
        }
    }

    pub fn message(&self) -> (message: String)
        ensures
            message@ == self.message_text(),
    {
        match self {
            SysexError::NotSysex => "not a sysex (does not start with F0)".to_owned(),
            SysexError::NoTerminator => "missing F7 terminator".to_owned(),
            SysexError::NotLighting =>
                "not a Novation lighting message (manufacturer/model mismatch)".to_owned(),
            SysexError::Truncated(at) => {
                let mut message = "payload truncated mid-triplet at byte ".to_owned();
                text::push_decimal(&mut message, *at as u64);
                message
            },
            SysexError::UnknownSpec(spec) => {
                let mut message = "unknown color spec 0x".to_owned();
                text::push_hexadecimal(&mut message, *spec as u64);
                message
            },
        }
    }
}

/// Manufacturer header bytes shared by all Novation SysEx.
pub const NOVATION_HEADER: [u8; 3] = [0x00, 0x20, 0x29];

/// Model byte of the Launchpad Mini MK3.
pub const MINI_MK3_BYTE: u8 = 0x0D;

/// Model byte of the Launchpad X.
pub const LAUNCHPAD_X_BYTE: u8 = 0x0C;

/// Per-model SysEx header (after `F0 00 20 29 02`).
#[derive(Debug, Clone, Copy, PartialEq, Eq)]
pub struct ModelHeader {
    pub model_byte: u8,
    pub name: &'static str,
}

/// The Launchpad Mini MK3.
pub fn mini_mk3() -> (model: ModelHeader)
    ensures
        model.model_byte == MINI_MK3_BYTE,
        model.name@ == "Launchpad Mini MK3"@,
{
    ModelHeader { model_byte: MINI_MK3_BYTE, name: "Launchpad Mini MK3" }
}

/// The Launchpad X.
pub fn launchpad_x() -> (model: ModelHeader)
    ensures
        model.model_byte == LAUNCHPAD_X_BYTE,
        model.name@ == "Launchpad X"@,
{
    ModelHeader { model_byte: LAUNCHPAD_X_BYTE, name: "Launchpad X" }
}

/// One entry of a Lighting SysEx: which LED, and how to light it.
#[derive(Debug, Clone, Copy, PartialEq, Eq, Structural)]
pub struct LedSpec {
    pub led_index: u8,
    pub color: ColorSpec,
}

/// How to light an LED.
#[derive(Debug, Clone, Copy, PartialEq, Eq, Structural)]
pub enum ColorSpec {
    Static(u8),
    Flashing { color_a: u8, color_b: u8 },
    Pulsing(u8),
    Rgb { r: u8, g: u8, b: u8 },
}

impl ColorSpec {
    /// The byte that announces this encoding.
    pub open spec fn tag(self) -> u8 {
        match self {
            ColorSpec::Static(_) => 0x00,
            ColorSpec::Flashing { .. } => 0x01,
            ColorSpec::Pulsing(_) => 0x02,
            ColorSpec::Rgb { .. } => 0x03,
        }
    }

    /// The color bytes of this encoding.
    pub open spec fn payload(self) -> Seq<u8> {
        match self {
            ColorSpec::Static(c) => seq![c],
            ColorSpec::Flashing { color_a, color_b } => seq![color_a, color_b],
            ColorSpec::Pulsing(c) => seq![c],
            ColorSpec::Rgb { r, g, b } => seq![r, g, b],
        }
    }

    fn spec_byte(&self) -> (byte: u8)
        ensures
            byte == self.tag(),
    {
        match self {
            ColorSpec::Static(_) => 0x00,
            ColorSpec::Flashing { .. } => 0x01,
            ColorSpec::Pulsing(_) => 0x02,
            ColorSpec::Rgb { .. } => 0x03,
        }
    }

    fn write(&self, out: &mut Vec<u8>)
        ensures
            final(out)@ == old(out)@ + self.payload(),
    {
        match self {
            ColorSpec::Static(c) => out.push(*c),
            ColorSpec::Flashing { color_a, color_b } => {
                out.push(*color_a);
                out.push(*color_b);
            },
            ColorSpec::Pulsing(c) => out.push(*c),
            ColorSpec::Rgb { r, g, b } => {
                out.push(*r);
                out.push(*g);
                out.push(*b);
            },
        }
        assert(out@ =~= old(out)@ + self.payload());
    }
}

/// A Lighting SysEx, taken apart.
#[derive(Debug, Clone, PartialEq, Eq)]
pub struct LightingSysex {
    pub model: ModelHeader,
    pub leds: Vec<LedSpec>,
}

/// The bytes of one entry.
pub open spec fn led_bytes(led: LedSpec) -> Seq<u8> {
    seq![led.color.tag(), led.led_index] + led.color.payload()
}

/// The bytes of a list of entries, one after the other.
pub open spec fn body_bytes(leds: Seq<LedSpec>) -> Seq<u8>
    decreases leds.len(),
{
    if leds.len() == 0 {
        seq![]
    } else {
        body_bytes(leds.drop_last()) + led_bytes(leds.last())
    }
}

/// The fixed bytes before the entries.
pub open spec fn lighting_header(model_byte: u8) -> Seq<u8> {
    seq![0xF0u8, 0x00, 0x20, 0x29, 0x02, model_byte, 0x03]
}

/// A whole Lighting SysEx on the wire.
pub open spec fn lighting_bytes(model_byte: u8, leds: Seq<LedSpec>) -> Seq<u8> {
    lighting_header(model_byte) + body_bytes(leds) + seq![0xF7u8]
}

/// True of the byte strings framed as a Lighting SysEx of the given model.
pub open spec fn framed(bytes: Seq<u8>, model_byte: u8) -> bool {
    &&& bytes.len() >= 8
    &&& bytes.take(7) == lighting_header(model_byte)
    &&& bytes.last() == 0xF7
}

/// The entries in the rest of a payload, from byte `at` on, or the fault that
/// the first entry that cannot be read has.
pub open spec fn entries_from(body: Seq<u8>, at: int) -> Result<Seq<LedSpec>, SysexError>
    decreases body.len() - at,
{
    if at >= body.len() {
        Ok(seq![])
    } else if at + 1 >= body.len() {
        Err(SysexError::Truncated((at + 1) as usize))
    } else {
        match entry_at(body, at) {
            Err(e) => Err(e),
            Ok((led, next)) => match entries_from(body, next) {
                Err(e) => Err(e),
                Ok(leds) => Ok(seq![led] + leds),
            },
        }
    }
}

/// The entry whose spec byte and LED index stand at `at` and `at + 1`, with the
/// place where the next entry starts.
pub open spec fn entry_at(body: Seq<u8>, at: int) -> Result<(LedSpec, int), SysexError> {
    let spec = body[at];
    let led_index = body[at + 1];
    let from = at + 2;
    if spec > 3 {
        Err(SysexError::UnknownSpec(spec))
    } else if from + color_len(spec) > body.len() {
        Err(SysexError::Truncated(from as usize))
    } else {
        let color = if spec == 0 {
            ColorSpec::Static(body[from])
        } else if spec == 1 {
            ColorSpec::Flashing { color_a: body[from], color_b: body[from + 1] }
        } else if spec == 2 {
            ColorSpec::Pulsing(body[from])
        } else {
            ColorSpec::Rgb { r: body[from], g: body[from + 1], b: body[from + 2] }
        };
        Ok((LedSpec { led_index, color }, from + color_len(spec)))
    }
}

/// How many color bytes follow a known spec byte.
pub open spec fn color_len(spec: u8) -> int {
    if spec == 1 {
        2
    } else if spec == 3 {
        3
    } else {
        1
    }
}

/// What a byte string holds when read as a Lighting SysEx of the given model.
pub open spec fn lighting_entries(bytes: Seq<u8>, model_byte: u8) -> Result<
    Seq<LedSpec>,
    SysexError,
> {
    if bytes.len() == 0 || bytes[0] != 0xF0 {
        Err(SysexError::NotSysex)
    } else if bytes.last() != 0xF7 {
        Err(SysexError::NoTerminator)
    } else if !framed(bytes, model_byte) {
        Err(SysexError::NotLighting)
    } else {
        entries_from(bytes.subrange(7, bytes.len() - 1), 0)
    }
}

impl LightingSysex {
    /// Parse raw SysEx bytes (including F0/F7 framing).
    pub fn parse(bytes: &[u8], model: ModelHeader) -> (result: Result<Self, SysexError>)
        ensures
            match (result, lighting_entries(bytes@, model.model_byte)) {
                (Ok(parsed), Ok(leds)) => parsed.model == model && parsed.leds@ == leds,
                (Err(fault), Err(expected)) => fault == expected,
                _ => false,
            },
    {
        if bytes.len() == 0 || bytes[0] != 0xF0 {
            return Err(SysexError::NotSysex);
        }
        if bytes[bytes.len() - 1] != 0xF7 {
            return Err(SysexError::NoTerminator);
        }
        if !Self::looks_like(bytes, model) {
            return Err(SysexError::NotLighting);
        }
        let body = vstd::slice::slice_subrange(bytes, 7, bytes.len() - 1);
        let mut leds: Vec<LedSpec> = Vec::new();
        let mut i: usize = 0;
        assert(leds@ + entries_from(body@, 0)->Ok_0 =~= entries_from(body@, 0)->Ok_0);
        while i < body.len()
            invariant
                i <= body@.len(),
                body@.len() + 8 == bytes@.len(),
                lighting_entries(bytes@, model.model_byte) == entries_from(body@, 0),
                match entries_from(body@, i as int) {
                    Ok(rest) => entries_from(body@, 0) == Ok::<Seq<LedSpec>, SysexError>(
                        leds@ + rest,
                    ),
                    Err(e) => entries_from(body@, 0) == Err::<Seq<LedSpec>, SysexError>(e),
                },
            decreases body@.len() - i,
        {
            let ghost start = i as int;
            let ghost before = leds@;
            let spec = body[i];
            i = i + 1;
            if i >= body.len() {
                return Err(SysexError::Truncated(i));
            }
            let led_index = body[i];
            i = i + 1;
            let color = if spec == 0x00 {
                if i >= body.len() {
                    return Err(SysexError::Truncated(i));
                }
                let c = body[i];
                i = i + 1;
                ColorSpec::Static(c)
            } else if spec == 0x01 {
                if body.len() - i < 2 {
                    return Err(SysexError::Truncated(i));
                }
                let a = body[i];
                let b = body[i + 1];
                i = i + 2;
                ColorSpec::Flashing { color_a: a, color_b: b }
            } else if spec == 0x02 {
                if i >= body.len() {
                    return Err(SysexError::Truncated(i));
                }
                let c = body[i];
                i = i + 1;
                ColorSpec::Pulsing(c)
            } else if spec == 0x03 {
                if body.len() - i < 3 {
                    return Err(SysexError::Truncated(i));
                }
                let r = body[i];
                let g = body[i + 1];
                let b = body[i + 2];
                i = i + 3;
                ColorSpec::Rgb { r, g, b }
            } else {
                return Err(SysexError::UnknownSpec(spec));
            };
            leds.push(LedSpec { led_index, color });
            proof {
                assert(entry_at(body@, start) == Ok::<(LedSpec, int), SysexError>(
                    (LedSpec { led_index, color }, i as int),
                ));
                if let Ok(rest) = entries_from(body@, i as int) {
                    assert(leds@ + rest =~= before + (seq![LedSpec { led_index, color }] + rest));
                }
            }
        }
        assert(entries_from(body@, i as int) == Ok::<Seq<LedSpec>, SysexError>(seq![]));
        assert(leds@ + seq![] =~= leds@);
        Ok(LightingSysex { model, leds })
    }

    /// Serialise back to raw SysEx bytes, including F0/F7 framing.
    pub fn emit(&self) -> (bytes: Vec<u8>)
        ensures
            bytes@ == lighting_bytes(self.model.model_byte, self.leds@),
    {
        let mut out: Vec<u8> = Vec::new();
        out.push(0xF0);
        out.push(NOVATION_HEADER[0]);
        out.push(NOVATION_HEADER[1]);
        out.push(NOVATION_HEADER[2]);
        out.push(0x02);
        out.push(self.model.model_byte);
        out.push(0x03);
        assert(out@ =~= lighting_header(self.model.model_byte) + body_bytes(self.leds@.take(0)));
        for i in 0..self.leds.len()
            invariant
                out@ == lighting_header(self.model.model_byte) + body_bytes(self.leds@.take(i as int)),
        {
            let led = self.leds[i];
            out.push(led.color.spec_byte());
            out.push(led.led_index);
            led.color.write(&mut out);
            proof {
                let done = self.leds@.take(i + 1);
                assert(done.drop_last() =~= self.leds@.take(i as int));
                assert(out@ =~= lighting_header(self.model.model_byte) + body_bytes(done));
            }
        }
        assert(self.leds@.take(self.leds@.len() as int) =~= self.leds@);
        out.push(0xF7);
        assert(out@ =~= lighting_bytes(self.model.model_byte, self.leds@));
        out
    }

    /// Returns true if this looks like a Lighting SysEx for the given model
    /// (cheap check for the dispatch path; does not parse the body).
    pub fn looks_like(bytes: &[u8], model: ModelHeader) -> (yes: bool)
        ensures
            yes == framed(bytes@, model.model_byte),
    {
        let yes = bytes.len() >= 8 && bytes[0] == 0xF0 && bytes[1] == NOVATION_HEADER[0] && bytes[2]
            == NOVATION_HEADER[1] && bytes[3] == NOVATION_HEADER[2] && bytes[4] == 0x02 && bytes[5]
            == model.model_byte && bytes[6] == 0x03 && bytes[bytes.len() - 1] == 0xF7;
        proof {
            let header = lighting_header(model.model_byte);
            if yes {
                assert(bytes@.take(7) =~= header);
            } else if bytes@.len() >= 8 && bytes@.take(7) == header {
                assert forall|i: int| 0 <= i < 7 implies bytes@[i] == header[i] by {
                    assert(bytes@.take(7)[i] == header[i]);
                }
            }
        }
        yes
    }
}

/// Reading one entry off the front of what [`led_bytes`] wrote gives the entry back.
pub proof fn lemma_entry_read_back(body: Seq<u8>, at: int, led: LedSpec)
    requires
        0 <= at,
        at + led_bytes(led).len() <= body.len(),
        body.subrange(at, at + led_bytes(led).len()) == led_bytes(led),
    ensures
        at + 1 < body.len(),
        entry_at(body, at) == Ok::<(LedSpec, int), SysexError>((led, at + led_bytes(led).len())),
{
    let wire = led_bytes(led);
    assert forall|i: int| 0 <= i < wire.len() implies body[at + i] == wire[i] by {
        assert(body.subrange(at, at + wire.len())[i] == wire[i]);
    }
    assert(body[at] == wire[0]);
    assert(body[at + 1] == wire[1]);
    assert(body[at + 2] == wire[2]);
    match led.color {
        ColorSpec::Flashing { .. } => {
            assert(body[at + 3] == wire[3]);
        },
        ColorSpec::Rgb { .. } => {
            assert(body[at + 3] == wire[3]);
            assert(body[at + 4] == wire[4]);
        },
        _ => {},
    }
}

/// Entries written from `at` on are all read back.
proof fn lemma_entries_read_back(body: Seq<u8>, at: int, leds: Seq<LedSpec>)
    requires
        0 <= at <= body.len(),
        body.skip(at) == body_bytes(leds),
    ensures
        entries_from(body, at) == Ok::<Seq<LedSpec>, SysexError>(leds),
    decreases leds.len(),
{
    if leds.len() == 0 {
        assert(body.skip(at).len() == 0);
        assert(leds =~= seq![]);
    } else {
        let first = leds[0];
        let rest = leds.drop_first();
        let wire = led_bytes(first);
        lemma_body_first(leds);
        assert(body.subrange(at, at + wire.len()) =~= body.skip(at).take(
            wire.len() as int,
        ));
        assert(body.skip(at).take(wire.len() as int) =~= wire);
        lemma_entry_read_back(body, at, first);
        assert(body.skip(at + wire.len()) =~= body.skip(at).skip(
            wire.len() as int,
        ));
        assert(body.skip(at).skip(wire.len() as int) =~= body_bytes(rest));
        lemma_entries_read_back(body, at + wire.len(), rest);
        assert(seq![first] + rest =~= leds);
    }
}

/// The bytes of a list start with the bytes of its first entry.
pub proof fn lemma_body_first(leds: Seq<LedSpec>)
    requires
        leds.len() > 0,
    ensures
        body_bytes(leds) == led_bytes(leds[0]) + body_bytes(leds.drop_first()),
    decreases leds.len(),
{
    if leds.len() == 1 {
        assert(leds.drop_last() =~= seq![]);
        assert(leds.drop_first() =~= seq![]);
        assert(body_bytes(leds) =~= led_bytes(leds[0]) + body_bytes(leds.drop_first()));
    } else {
        lemma_body_first(leds.drop_last());
        assert(leds.drop_first().drop_last() =~= leds.drop_last().drop_first());
        assert(body_bytes(leds) =~= led_bytes(leds[0]) + body_bytes(leds.drop_first()));
    }
}

/// An entry that was read is written back as the bytes it was read from.
proof fn lemma_entry_written_back(body: Seq<u8>, at: int)
    requires
        0 <= at,
        at + 1 < body.len(),
        entry_at(body, at) is Ok,
    ensures
        ({
            let (led, next) = entry_at(body, at)->Ok_0;
            &&& at + led_bytes(led).len() == next
            &&& next <= body.len()
            &&& body.subrange(at, next) == led_bytes(led)
        }),
{
    let (led, next) = entry_at(body, at)->Ok_0;
    assert(body.subrange(at, next) =~= led_bytes(led));
}

/// Entries that were read are written back as the bytes they were read from.
proof fn lemma_entries_written_back(body: Seq<u8>, at: int)
    requires
        0 <= at <= body.len(),
        entries_from(body, at) is Ok,
    ensures
        body_bytes(entries_from(body, at)->Ok_0) == body.skip(at),
    decreases body.len() - at,
{
    if at == body.len() {
        assert(body.skip(at) =~= seq![]);
    } else {
        lemma_entry_written_back(body, at);
        let (led, next) = entry_at(body, at)->Ok_0;
        lemma_entries_written_back(body, next);
        let rest = entries_from(body, next)->Ok_0;
        let all = seq![led] + rest;
        assert(all.drop_first() =~= rest);
        lemma_body_first(all);
        assert(body.skip(at) =~= body.subrange(at, next) + body.skip(
            next,
        ));
    }
}

/// Whatever is emitted parses back to the same entries, for every list of
/// entries and every model.
pub proof fn law_emitted_lighting_parses_back(model_byte: u8, leds: Seq<LedSpec>)
    ensures
        lighting_entries(lighting_bytes(model_byte, leds), model_byte) == Ok::<
            Seq<LedSpec>,
            SysexError,
        >(leds),
{
    let bytes = lighting_bytes(model_byte, leds);
    let body = bytes.subrange(7, bytes.len() - 1);
    assert(body =~= body_bytes(leds));
    assert(body.skip(0) =~= body);
    assert(bytes.take(7) =~= lighting_header(model_byte));
    assert(bytes[0] == lighting_header(model_byte)[0]);
    lemma_entries_read_back(body, 0, leds);
}

/// Whatever parses is emitted again byte for byte.
pub proof fn law_parsed_lighting_emits_back(bytes: Seq<u8>, model_byte: u8)
    requires
        lighting_entries(bytes, model_byte) is Ok,
    ensures
        lighting_bytes(model_byte, lighting_entries(bytes, model_byte)->Ok_0) == bytes,
{
    let body = bytes.subrange(7, bytes.len() - 1);
    lemma_entries_written_back(body, 0);
    assert(body.skip(0) =~= body);
    assert(bytes =~= bytes.take(7) + body + seq![0xF7u8]);
}

/// The cheap check and the parser agree on the framing: a message passes the
/// check exactly when the parser gets as far as its entries.
pub proof fn law_cheap_check_agrees_with_parser(bytes: Seq<u8>, model_byte: u8)
    ensures
        framed(bytes, model_byte) <==> !(lighting_entries(bytes, model_byte) matches Err(e) && (e
            is NotSysex || e is NoTerminator || e is NotLighting)),
{
    if framed(bytes, model_byte) {
        assert(bytes.take(7)[0] == lighting_header(model_byte)[0]);
        lemma_entry_faults(bytes.subrange(7, bytes.len() - 1), 0);
    }
}

/// Reading entries fails only on a truncated or an unknown entry.
proof fn lemma_entry_faults(body: Seq<u8>, at: int)
    ensures
        entries_from(body, at) matches Err(e) ==> e is Truncated || e is UnknownSpec,
    decreases body.len() - at,
{
    if at + 1 < body.len() {
        if let Ok((_, next)) = entry_at(body, at) {
            lemma_entry_faults(body, next);
        }
    }
}

} // verus!
