//! Configuration schema and validation.

pub mod faults;
pub mod hex;
pub mod laws;
pub mod names;
pub mod page_buttons;
pub mod validate;

use vstd::prelude::*;
use vstd::string::StringExecFns;

use crate::midi::device::Driver;
pub use crate::config::hex::parse_hex;
pub use crate::config::names::slugify;

verus! {

/// Everything that the proxy is told at startup.
#[derive(Debug, Clone, PartialEq, Eq)]
pub struct Config {
    pub devices: Vec<DeviceConfig>,
}

/// Two ways the proxy can present pages to the host.
///
/// - `NoteOffset`: one virtual port pair; pages encoded by adding `note_offset`
///   to the note number. Capped by MIDI's 7-bit range (`pages * note_offset <= 128`).
/// - `PerPort`: N virtual port pairs, one per page. Each page presents an identical
///   layout. No note math, no SysEx rewriting, no MIDI-range ceiling.
#[derive(Debug, Clone, Copy, PartialEq, Eq, Structural)]
pub enum Mode {
    PerPort,
    NoteOffset,
}

impl Default for Mode {
    fn default() -> (mode: Self)
        ensures
            mode == Mode::PerPort,
    {
        Mode::PerPort
    }
}

/// How to identify the physical device by its WinMM / CoreMIDI / ALSA port
/// name. Two shapes:
///
/// - `Simple(String)`: a substring that matches both the input and output
///   port name. Used when the device exposes both directions with names
///   that share a common substring.
/// - `Split { input, output }`: separate substrings for input and output
///   when the device names them completely differently.
#[derive(Debug, Clone, PartialEq, Eq)]
pub enum PortMatch {
    Simple(String),
    Split { input: String, output: String },
}

#[derive(Debug, Clone, PartialEq, Eq)]
pub struct DeviceConfig {
    pub name: String,
    pub port_match: PortMatch,
    pub driver: Driver,
    pub pages: u8,
    pub mode: Mode,
    /// Used in note-offset mode: the single host port the proxy reads from.
    pub host_port_in: Option<String>,
    /// Used in note-offset mode: the single host port the proxy writes to.
    pub host_port_out: Option<String>,
    /// Used in note-offset mode: per-page note shift.
    pub note_offset: Option<u8>,
    /// Used in per-port mode: prefix for auto-generated port names.
    /// Defaults to a slug of `name`. The proxy creates ports named
    /// `<prefix>-page<N>` for N in 1..=pages.
    pub page_port_prefix: Option<String>,
    pub boot_sysex: Option<Vec<u8>>,
    /// Optional: physical button that advances to the next page when pressed.
    /// On press the LED briefly flashes (~200 ms) for visual feedback.
    pub next_page_button: Option<ButtonRef>,
    /// Optional: physical button that returns to the previous page.
    pub previous_page_button: Option<ButtonRef>,
    /// Optional: one button per page. Each entry can:
    /// - Specify the physical button via its kind and number (required).
    /// - Optionally pin to a specific `page` index; entries without
    ///   `page` auto-assign in declaration order to the lowest free slot.
    /// - Optionally override `hold_to_preview` per-button; falls back to
    ///   `page_buttons_hold_to_preview` if unset.
    ///
    /// May be shorter than `pages`; extra entries (longer than `pages`)
    /// are rejected.
    pub page_buttons: Vec<PageButton>,
    /// Mode C: when true, page_buttons act as hold-to-preview switches:
    /// the persistent page is changed only via next/prev. When false (or
    /// page_buttons is empty), tapping a page button jumps persistently to
    /// that page (Mode B). Requires `page_buttons` to be non-empty.
    pub page_buttons_hold_to_preview: bool,
    /// Per-device page-button / next-prev LED colors. Every field is
    /// optional; missing values fall back to a generic active/inactive
    /// (lit/off) pair, with finer-grained fields cascading from those.
    pub colors: ColorConfig,
    /// Buttons pinned to page 0 regardless of the current page or any active
    /// preview. Pressing one always fires on page 0 (the "real" page from the
    /// host's perspective); LED writes the host sends to page 0 for these
    /// buttons always reach the device. Useful for a transport row, master
    /// mute, etc.
    pub global_buttons: Vec<ButtonRef>,
}

#[derive(Debug, Clone, Copy, PartialEq, Eq, Structural)]
pub struct ColorConfig {
    /// Tap page button on its persistent (active) page. Default fallback for
    /// `preview`, `active_cycle`, and `active_preview` when those are unset.
    pub active: Option<u8>,
    /// Tap page button on any other page. Default fallback for
    /// `inactive_cycle` and `inactive_preview`.
    pub inactive: Option<u8>,
    /// Page button currently held showing preview (Mode C). Defaults to `active`.
    pub preview: Option<u8>,
    /// next/previous_page_button while held. Defaults to `active`.
    pub active_cycle: Option<u8>,
    /// next/previous_page_button when idle. Defaults to `inactive`.
    pub inactive_cycle: Option<u8>,
    /// Hold-to-preview page button whose page is the persistent page (and the
    /// button is NOT currently held). Defaults to `active`.
    pub active_preview: Option<u8>,
    /// Hold-to-preview page button on any other page (not currently held).
    /// Defaults to `inactive`.
    pub inactive_preview: Option<u8>,
}

impl Default for ColorConfig {
    fn default() -> (colors: Self)
        ensures
            colors == (ColorConfig {
                active: None,
                inactive: None,
                preview: None,
                active_cycle: None,
                inactive_cycle: None,
                active_preview: None,
                inactive_preview: None,
            }),
    {
        ColorConfig {
            active: None,
            inactive: None,
            preview: None,
            active_cycle: None,
            inactive_cycle: None,
            active_preview: None,
            inactive_preview: None,
        }
    }
}

/// A physical button, by the message that it sends.
#[derive(Debug, Clone, Copy, PartialEq, Eq, Hash, Structural)]
pub enum ButtonRef {
    Note { number: u8 },
    Cc { number: u8 },
}

impl ButtonRef {
    /// The note or controller number.
    pub open spec fn spec_number(self) -> u8 {
        match self {
            ButtonRef::Note { number } => number,
            ButtonRef::Cc { number } => number,
        }
    }

    pub fn number(self) -> (number: u8)
        ensures
            number == self.spec_number(),
    {
        match self {
            ButtonRef::Note { number } => number,
            ButtonRef::Cc { number } => number,
        }
    }
}

/// A page-button entry of a device. Wraps a `ButtonRef` with optional
/// per-button page assignment and hold-mode override.
#[derive(Debug, Clone, Copy, PartialEq, Eq, Structural)]
pub struct PageButton {
    pub button: ButtonRef,
    /// Pin this button to a specific page index. Auto-assigned to the
    /// lowest free index in declaration order when unset.
    pub page: Option<u8>,
    /// Override `page_buttons_hold_to_preview` for this button only.
    /// When unset, the device-level default applies.
    pub hold_to_preview: Option<bool>,
}

/// Page button after auto-assignment and `hold_to_preview` resolution.
/// Produced by `DeviceConfig::resolved_page_buttons` and stored on the
/// `Proxy` so the dispatch path doesn't re-resolve on every press.
#[derive(Debug, Clone, Copy, PartialEq, Eq, Structural)]
pub struct ResolvedPageButton {
    pub button: ButtonRef,
    pub page: u8,
    pub hold: bool,
}

/// Why there is no configuration to work with. What the file system and the
/// parser say is carried as text.
#[derive(Debug)]
pub enum ConfigError {
    Io(String),
    Parse(String),
    Invalid(String),
}

impl ConfigError {
    /// What is said of the error.
    pub open spec fn message_text(self) -> Seq<char> {
        match self {
            ConfigError::Io(cause) => "read config: "@ + cause@,
            ConfigError::Parse(cause) => "parse config: "@ + cause@,
            ConfigError::Invalid(cause) => "invalid config: "@ + cause@,
        }
    }

    pub fn message(&self) -> (message: String)
        ensures
            message@ == self.message_text(),
    {
        match self {
            ConfigError::Io(cause) => "read config: ".to_owned().concat(cause.as_str()),
            ConfigError::Parse(cause) => "parse config: ".to_owned().concat(cause.as_str()),
            ConfigError::Invalid(cause) => "invalid config: ".to_owned().concat(cause.as_str()),
        }
    }
}

/// The note shift of a device.
pub open spec fn note_offset_of(note_offset: Option<u8>) -> u8 {
    match note_offset {
        Some(offset) => offset,
        None => 64,
    }
}

impl DeviceConfig {
    pub fn note_offset_value(&self) -> (offset: u8)
        ensures
            offset == note_offset_of(self.note_offset),
    {
        match self.note_offset {
            Some(offset) => offset,
            None => 64,
        }
    }
}

} // verus!
