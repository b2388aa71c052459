//! Device-specific behaviour (Mini MK3 vs APC mini).

use vstd::prelude::*;

use crate::config::ButtonRef;
use crate::midi::parse;

verus! {

/// What there is to know of a device.
pub struct DeviceModel {
    pub name: Seq<char>,
    /// The notes and controllers of the pads that are paged.
    pub grid_note: spec_fn(u8) -> bool,
    pub grid_cc: spec_fn(u8) -> bool,
    /// The messages that make it ready, and those that turn the grid dark.
    pub boot: Seq<Seq<u8>>,
    pub clear: Seq<Seq<u8>>,
    /// The message that gives a button a color.
    pub paint: spec_fn(ButtonRef, u8) -> Seq<u8>,
    /// The colors of a lit and of an idle navigation button.
    pub flash: u8,
    pub idle: u8,
}

/// One message per indicator, in its color.
pub open spec fn painted(model: DeviceModel, indicators: Seq<(ButtonRef, u8)>) -> Seq<Seq<u8>> {
    Seq::new(
        indicators.len(),
        |i: int| (model.paint)(indicators[i].0, indicators[i].1),
    )
}

/// Per-device behaviour the proxy needs in order to remain device-agnostic.
pub trait Device: Send + Sync {
    /// What the methods return, as one value.
    spec fn model(&self) -> DeviceModel;

    fn name(&self) -> (name: &str)
        ensures
            name@ == self.model().name,
    ;

    /// True if this physical note is part of the 8x8 grid we want to page.
    /// (Top-row arrows, side buttons, and the shift/logo are *not* grid notes.)
    fn is_grid_note(&self, note: u8) -> (yes: bool)
        ensures
            yes == (self.model().grid_note)(note),
    ;

    /// Same for CC controllers: side-strip CCs that should never be paged.
    fn is_grid_cc(&self, controller: u8) -> (yes: bool)
        ensures
            yes == (self.model().grid_cc)(controller),
    ;

    /// Boot bytes (e.g. switch to programmer mode). Run once on startup.
    fn boot(&self) -> (messages: Vec<Vec<u8>>)
        ensures
            parse::views(messages@) == self.model().boot,
    ;

    /// Bytes that wipe all grid LEDs to off. Called before replaying a page.
    fn clear_all(&self) -> (messages: Vec<Vec<u8>>)
        ensures
            parse::views(messages@) == self.model().clear,
    ;

    /// Paint a single button (next/prev or a page button) at the given color.
    /// Color semantics are device-specific; `0` always means off. Returns one
    /// MIDI message (CC or Note On as per the ButtonRef variant).
    fn paint_button(&self, btn: ButtonRef, color: u8) -> (bytes: Vec<u8>)
        ensures
            bytes@ == (self.model().paint)(btn, color),
    ;

    /// Convenience: same as `paint_button(btn, 0)`.
    fn clear_button(&self, btn: ButtonRef) -> (bytes: Vec<u8>)
        ensures
            bytes@ == (self.model().paint)(btn, 0),
    {
        self.paint_button(btn, 0)
    }

    /// The color of a navigation button that is lit: pressed, or on its page.
    fn flash_color(&self) -> (color: u8)
        ensures
            color == self.model().flash,
    ;

    /// The color of a page button while another page is shown.
    fn idle_color(&self) -> (color: u8)
        ensures
            color == self.model().idle,
    ;

    /// Paint each indicator in the color beside it, one message per indicator.
    fn paint_indicators(&self, indicators: &[(ButtonRef, u8)]) -> (messages: Vec<Vec<u8>>)
        ensures
            parse::views(messages@) == painted(self.model(), indicators@),
    {
        let mut messages: Vec<Vec<u8>> = Vec::new();
        assert(parse::views(messages@) =~= painted(self.model(), indicators@.take(0)));
        for i in 0..indicators.len()
            invariant
                parse::views(messages@) == painted(self.model(), indicators@.take(i as int)),
        {
            let (button, color) = indicators[i];
            let bytes = self.paint_button(button, color);
            let ghost before = messages@;
            messages.push(bytes);
            proof {
                parse::lemma_views_push(before, bytes);
                assert(parse::views(messages@) =~= painted(
                    self.model(),
                    indicators@.take(i + 1),
                ));
            }
        }
        assert(indicators@.take(indicators@.len() as int) =~= indicators@);
        messages
    }
}

/// Drivers known by name in the configuration.
#[derive(Debug, Clone, Copy, PartialEq, Eq, Structural)]
pub enum Driver {
    MiniMk3,
    ApcMini,
}

/// A Control Change or a Note On, by the kind of the button, on the first
/// channel: both devices are lit this way.
pub open spec fn button_bytes(btn: ButtonRef, color: u8) -> Seq<u8> {
    match btn {
        ButtonRef::Cc { number } => parse::cc_bytes(0, number, color),
        ButtonRef::Note { number } => parse::note_on_bytes(0, number, color),
    }
}

pub(crate) fn button_message(btn: ButtonRef, color: u8) -> (bytes: Vec<u8>)
    ensures
        bytes@ == button_bytes(btn, color),
{
    match btn {
        ButtonRef::Cc { number } => bytes_of(parse::cc(0, number, color)),
        ButtonRef::Note { number } => bytes_of(parse::note_on(0, number, color)),
    }
}

/// A short message as a byte string of its own.
pub(crate) fn bytes_of(message: [u8; 3]) -> (bytes: Vec<u8>)
    ensures
        bytes@ == message@,
{
    let mut bytes: Vec<u8> = Vec::new();
    bytes.push(message[0]);
    bytes.push(message[1]);
    bytes.push(message[2]);
    assert(bytes@ =~= message@);
    bytes
}

} // verus!
