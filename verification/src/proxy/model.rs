//! What the proxy does, as functions from one state to the next.
//!
//! Every operation takes the state before it, and gives the state after it
//! together with the messages that it sends, in order.

use vstd::prelude::*;

use crate::config::{ButtonRef, ColorConfig, Mode, ResolvedPageButton};
use crate::midi::device::{self, DeviceModel};
use crate::midi::parse::{self, MsgView};
use crate::midi::sysex_lighting::{self, LedSpec, MINI_MK3_BYTE};
use crate::proxy::led_cache::{self, CacheKey, LedCell};

verus! {

/// A message on its way, with its bytes as a sequence.
pub enum Sent {
    ToHost(Seq<u8>),
    ToHostPage { page: u8, bytes: Seq<u8> },
    ToDevice(Seq<u8>),
    DeviceDelayedSend { delay_ms: u32, bytes: Seq<u8> },
}

/// LED states by key.
pub type Cells = Map<CacheKey, LedCell>;

/// Everything that the proxy knows.
#[verifier::ext_equal]
pub struct ProxyState {
    pub mode: Mode,
    pub persistent_page: u8,
    pub held_preview: Option<u8>,
    pub held_preview_button: Option<ButtonRef>,
    pub current_page: u8,
    pub pages: u8,
    pub note_offset: u8,
    pub next_page_button: Option<ButtonRef>,
    pub previous_page_button: Option<ButtonRef>,
    pub page_buttons: Seq<ResolvedPageButton>,
    pub global_buttons: Seq<ButtonRef>,
    pub colors: ColorConfig,
    pub led_cache: Seq<Cells>,
    /// The pads that are held down, each with the channel of its press.
    pub held: Map<u8, u8>,
    pub suppressed: Set<u8>,
    pub device: DeviceModel,
}

/// The state after a step, and what the step sends.
pub type Step = (ProxyState, Seq<Sent>);

// -- Validity ---------------------------------------------------------------

/// Notes hold a Note On or a SysEx color, controllers a Control Change.
pub open spec fn paired(key: CacheKey, cell: LedCell) -> bool {
    match key {
        CacheKey::Note(_) => cell is NoteOn || cell is SysexColor,
        CacheKey::Cc(_) => cell is Cc,
    }
}

/// Whether a page is there. Without pages, page zero is shown all the same.
pub open spec fn on_a_page(pages: u8, page: u8) -> bool {
    page < pages || (pages == 0 && page == 0)
}

/// What holds of the proxy before and after every operation.
pub open spec fn valid(s: ProxyState) -> bool {
    &&& s.led_cache.len() == s.pages
    &&& on_a_page(s.pages, s.current_page)
    &&& on_a_page(s.pages, s.persistent_page)
    &&& cells_are_paired(s)
    &&& forall|n: u8| #[trigger] s.held.contains_key(n) ==> is_pad(s, n) && s.held[n] < 16
    &&& s.suppressed.subset_of(s.held.dom())
    &&& preview_is_held(s)
}

/// Every cell of every page is of the kind that its key asks for.
pub open spec fn cells_are_paired(s: ProxyState) -> bool {
    forall|page: int, key: CacheKey|
        0 <= page < s.led_cache.len() && #[trigger] s.led_cache[page].contains_key(key) ==> paired(
            key,
            s.led_cache[page][key],
        )
}

/// A preview shows a page that is there, for a hold-to-preview button of that
/// page; without a preview no button is remembered.
pub open spec fn preview_is_held(s: ProxyState) -> bool {
    match (s.held_preview, s.held_preview_button) {
        (Some(page), Some(button)) => {
            &&& page < s.pages
            &&& !is_cycle_button(s, button)
            &&& page_button(s, button) matches Some(pb) && pb.hold && pb.page == page
        },
        (None, None) => true,
        _ => false,
    }
}

/// A note of the grid that belongs to the page shown: neither a navigation
/// button nor a global one.
pub open spec fn is_pad(s: ProxyState, note: u8) -> bool {
    let button = ButtonRef::Note { number: note };
    (s.device.grid_note)(note) && !is_navigation(s, button) && !is_global(s, button)
}

/// Whether a pad's number on a page is a number of eight bits.
pub open spec fn number_fits(s: ProxyState, number: u8, page: u8) -> bool {
    s.mode == Mode::NoteOffset ==> number + page * s.note_offset <= 255
}

/// Whether the pads that are held have numbers on the page shown.
pub open spec fn held_fit(s: ProxyState) -> bool {
    forall|n: u8| #[trigger] s.held.contains_key(n) ==> number_fits(s, n, s.current_page)
}

/// Whether the numbers that a page change asks for are there.
pub open spec fn page_change_fits(s: ProxyState, page: u8) -> bool {
    page < s.pages ==> held_fit(s)
}

/// Whether the numbers that a move of the persistent page asks for are there.
pub open spec fn setting_page_fits(s: ProxyState, page: u8) -> bool {
    s.held_preview is None ==> page_change_fits(s, page)
}

/// Whether the numbers that a press of a navigation button asks for are there.
pub open spec fn press_fits(s: ProxyState, button: ButtonRef) -> bool {
    if s.next_page_button == Some(button) {
        cycling_fits(s, true)
    } else if s.previous_page_button == Some(button) {
        cycling_fits(s, false)
    } else {
        match page_button(s, button) {
            Some(pb) => page_button_fits(s, pb),
            None => true,
        }
    }
}

pub open spec fn cycling_fits(s: ProxyState, forward: bool) -> bool {
    neighbour(s, forward) != s.persistent_page ==> setting_page_fits(s, neighbour(s, forward))
}

pub open spec fn page_button_fits(s: ProxyState, pb: ResolvedPageButton) -> bool {
    if pb.hold {
        s.held_preview != Some(pb.page) ==> page_change_fits(s, pb.page)
    } else {
        setting_page_fits(s, pb.page)
    }
}

/// Whether the numbers that a release of a navigation button asks for are there.
pub open spec fn release_fits(s: ProxyState, button: ButtonRef) -> bool {
    s.held_preview_button == Some(button) && s.held_preview is Some ==> page_change_fits(
        s,
        s.persistent_page,
    )
}

/// Whether the numbers that a message from the device asks for are there.
pub open spec fn device_in_fits(s: ProxyState, bytes: Seq<u8>) -> bool {
    match parse::meaning(bytes) {
        MsgView::NoteOn { note, .. } => {
            let button = ButtonRef::Note { number: note };
            if is_navigation(s, button) {
                press_fits(s, button)
            } else {
                is_pad(s, note) ==> number_fits(s, note, s.current_page)
            }
        },
        MsgView::NoteOff { note, .. } => {
            let button = ButtonRef::Note { number: note };
            if is_navigation(s, button) {
                release_fits(s, button)
            } else {
                is_pad(s, note) && !s.suppressed.contains(note) ==> number_fits(
                    s,
                    note,
                    s.current_page,
                )
            }
        },
        MsgView::Cc { controller, value, .. } => {
            let button = ButtonRef::Cc { number: controller };
            if is_navigation(s, button) {
                if value > 0 {
                    press_fits(s, button)
                } else {
                    release_fits(s, button)
                }
            } else {
                (s.device.grid_cc)(controller) && !is_global(s, button) ==> number_fits(
                    s,
                    controller,
                    s.current_page,
                )
            }
        },
        _ => true,
    }
}

/// Whether a message from the host is taken apart by page and pad, so that the
/// offset between pages has to be there.
pub open spec fn needs_offset(s: ProxyState, bytes: Seq<u8>) -> bool {
    if sysex_lighting::framed(bytes, MINI_MK3_BYTE) {
        sysex_lighting::lighting_entries(bytes, MINI_MK3_BYTE) matches Ok(leds) && leds.len() > 0
    } else {
        match parse::meaning(bytes) {
            MsgView::NoteOn { .. } => true,
            MsgView::NoteOff { .. } => true,
            MsgView::Cc { controller, .. } => (s.device.grid_cc)(controller),
            _ => false,
        }
    }
}

/// Whether every pad has a number on every page, in note-offset mode. Then so
/// does everything that any message asks for.
pub open spec fn numbers_fit(s: ProxyState) -> bool {
    s.mode == Mode::NoteOffset ==> {
        &&& s.note_offset >= 1
        &&& forall|n: u8|
            (#[trigger] (s.device.grid_note)(n)) ==> n + (s.pages - 1) * s.note_offset <= 255
        &&& forall|c: u8|
            (#[trigger] (s.device.grid_cc)(c)) ==> c + (s.pages - 1) * s.note_offset <= 255
    }
}

/// The page shown is the page previewed, or the persistent page without one.
pub open spec fn in_sync(s: ProxyState) -> bool {
    s.current_page == match s.held_preview {
        Some(page) => page,
        None => s.persistent_page,
    }
}

// -- Buttons ----------------------------------------------------------------

/// The next-page or the previous-page button.
pub open spec fn is_cycle_button(s: ProxyState, button: ButtonRef) -> bool {
    s.next_page_button == Some(button) || s.previous_page_button == Some(button)
}

/// The first entry for a button, from the given index on.
pub open spec fn slot_from(
    entries: Seq<ResolvedPageButton>,
    button: ButtonRef,
    i: int,
) -> Option<ResolvedPageButton>
    decreases entries.len() - i,
{
    if i < 0 || i >= entries.len() {
        None
    } else if entries[i].button == button {
        Some(entries[i])
    } else {
        slot_from(entries, button, i + 1)
    }
}

/// The page button that a button is, if it is one.
pub open spec fn page_button(s: ProxyState, button: ButtonRef) -> Option<ResolvedPageButton> {
    slot_from(s.page_buttons, button, 0)
}

/// Buttons that the proxy keeps to itself.
pub open spec fn is_navigation(s: ProxyState, button: ButtonRef) -> bool {
    is_cycle_button(s, button) || page_button(s, button) is Some
}

/// Buttons that belong to page zero whatever page is shown.
pub open spec fn is_global(s: ProxyState, button: ButtonRef) -> bool {
    s.global_buttons.contains(button)
}

// -- Colors -----------------------------------------------------------------

/// The first of two colors that is set.
pub open spec fn either(first: Option<u8>, second: Option<u8>) -> Option<u8> {
    match first {
        Some(color) => Some(color),
        None => second,
    }
}

/// The color that is set, or the fallback.
pub open spec fn color_or(color: Option<u8>, fallback: u8) -> u8 {
    match color {
        Some(color) => color,
        None => fallback,
    }
}

/// A next/previous button while it flashes.
pub open spec fn cycle_flash_color(s: ProxyState) -> u8 {
    color_or(either(s.colors.active_cycle, s.colors.active), s.device.flash)
}

/// A next/previous button at rest.
pub open spec fn cycle_idle_color(s: ProxyState) -> u8 {
    color_or(either(s.colors.inactive_cycle, s.colors.inactive), 0)
}

/// The page that the page buttons show as active: while a page is previewed,
/// the one that a release goes back to.
pub open spec fn base_page(s: ProxyState) -> u8 {
    if s.held_preview is Some {
        s.persistent_page
    } else {
        s.current_page
    }
}

/// A page button: previewed, on the active page, or on any other page.
pub open spec fn page_button_color(s: ProxyState, pb: ResolvedPageButton) -> u8 {
    if s.held_preview == Some(pb.page) {
        color_or(either(s.colors.preview, s.colors.active), s.device.flash)
    } else if pb.page == base_page(s) {
        color_or(
            if pb.hold {
                either(s.colors.active_preview, s.colors.active)
            } else {
                s.colors.active
            },
            s.device.flash,
        )
    } else {
        color_or(
            if pb.hold {
                either(s.colors.inactive_preview, s.colors.inactive)
            } else {
                s.colors.inactive
            },
            s.device.idle,
        )
    }
}

/// The page buttons with their colors.
pub open spec fn indicators(s: ProxyState) -> Seq<(ButtonRef, u8)> {
    Seq::new(
        s.page_buttons.len(),
        |i: int| (s.page_buttons[i].button, page_button_color(s, s.page_buttons[i])),
    )
}

/// A next/previous button at rest, where there is one.
pub open spec fn idle_cycle_button(s: ProxyState, button: Option<ButtonRef>) -> Seq<Seq<u8>> {
    match button {
        Some(button) => seq![(s.device.paint)(button, cycle_idle_color(s))],
        None => seq![],
    }
}

/// What lights every navigation button at startup.
pub open spec fn indicator_state(s: ProxyState) -> Seq<Seq<u8>> {
    device::painted(s.device, indicators(s)) + idle_cycle_button(s, s.next_page_button)
        + idle_cycle_button(s, s.previous_page_button)
}

// -- Replaying LEDs ---------------------------------------------------------

/// The short message that restores an LED, if a short message does.
pub open spec fn cell_message(key: CacheKey, cell: LedCell) -> Seq<Seq<u8>> {
    match (key, cell) {
        (CacheKey::Note(n), LedCell::NoteOn { channel, velocity }) => seq![
            parse::note_on_bytes(channel, n, velocity),
        ],
        (CacheKey::Cc(c), LedCell::Cc { channel, value }) => seq![
            parse::cc_bytes(channel, c, value),
        ],
        _ => seq![],
    }
}

/// The Lighting SysEx entry that restores an LED, if one does.
pub open spec fn cell_led(key: CacheKey, cell: LedCell) -> Seq<LedSpec> {
    match (key, cell) {
        (CacheKey::Note(n), LedCell::SysexColor(color)) => seq![LedSpec { led_index: n, color }],
        _ => seq![],
    }
}

/// The short messages for the keys that have a cell, in the order of the keys.
pub open spec fn messages_of(cells: Cells, keys: Seq<CacheKey>) -> Seq<Seq<u8>>
    decreases keys.len(),
{
    if keys.len() == 0 {
        seq![]
    } else {
        let before = messages_of(cells, keys.drop_last());
        let key = keys.last();
        if cells.contains_key(key) {
            before + cell_message(key, cells[key])
        } else {
            before
        }
    }
}

/// The Lighting SysEx entries for the keys that have a cell, in the order of
/// the keys.
pub open spec fn leds_of(cells: Cells, keys: Seq<CacheKey>) -> Seq<LedSpec>
    decreases keys.len(),
{
    if keys.len() == 0 {
        seq![]
    } else {
        let before = leds_of(cells, keys.drop_last());
        let key = keys.last();
        if cells.contains_key(key) {
            before + cell_led(key, cells[key])
        } else {
            before
        }
    }
}

/// A Lighting SysEx of the given entries, unless there are none.
pub open spec fn lighting(leds: Seq<LedSpec>) -> Seq<Seq<u8>> {
    if leds.len() == 0 {
        seq![]
    } else {
        seq![sysex_lighting::lighting_bytes(MINI_MK3_BYTE, leds)]
    }
}

/// What restores the LEDs of the given keys: the short messages, then one
/// Lighting SysEx for the colors that need one.
pub open spec fn replayed(cells: Cells, keys: Seq<CacheKey>) -> Seq<Seq<u8>> {
    messages_of(cells, keys) + lighting(leds_of(cells, keys))
}

/// Every key there is, notes before controllers, each in ascending order.
pub open spec fn all_keys() -> Seq<CacheKey> {
    Seq::new(
        512,
        |i: int|
            if i < 256 {
                CacheKey::Note(i as u8)
            } else {
                CacheKey::Cc((i - 256) as u8)
            },
    )
}

/// The keys of the global buttons, in the order of the configuration.
pub open spec fn global_keys(s: ProxyState) -> Seq<CacheKey> {
    s.global_buttons.map_values(|button: ButtonRef| led_cache::key_of(button))
}

/// The messages, each on its way to the device.
pub open spec fn to_device(messages: Seq<Seq<u8>>) -> Seq<Sent> {
    messages.map_values(|bytes: Seq<u8>| Sent::ToDevice(bytes))
}

// -- Device to host ---------------------------------------------------------

/// The number under which the host knows a pad on a page.
pub open spec fn number_on_page(s: ProxyState, number: u8, page: u8) -> u8 {
    match s.mode {
        Mode::NoteOffset => (number + page * s.note_offset) as u8,
        Mode::PerPort => number,
    }
}

/// A message for the host about the given page.
pub open spec fn to_host(s: ProxyState, page: u8, bytes: Seq<u8>) -> Sent {
    match s.mode {
        Mode::NoteOffset => Sent::ToHost(bytes),
        Mode::PerPort => Sent::ToHostPage { page, bytes },
    }
}

/// A message from the device: a press, a release, or anything else.
pub open spec fn device_in(s: ProxyState, bytes: Seq<u8>) -> Step {
    match parse::meaning(bytes) {
        MsgView::NoteOn { channel, note, velocity } => {
            let button = ButtonRef::Note { number: note };
            if is_navigation(s, button) {
                press(s, button)
            } else if is_global(s, button) {
                (s, seq![to_host(s, 0, bytes)])
            } else if !(s.device.grid_note)(note) {
                (s, seq![to_host(s, s.current_page, bytes)])
            } else {
                pad_pressed(s, channel, note, velocity, bytes)
            }
        },
        MsgView::NoteOff { channel, note, velocity } => {
            let button = ButtonRef::Note { number: note };
            if is_navigation(s, button) {
                release(s, button)
            } else if is_global(s, button) {
                (s, seq![to_host(s, 0, bytes)])
            } else if !(s.device.grid_note)(note) {
                (s, seq![to_host(s, s.current_page, bytes)])
            } else {
                pad_released(s, channel, note, velocity, bytes)
            }
        },
        MsgView::Cc { channel, controller, value } => {
            let button = ButtonRef::Cc { number: controller };
            if is_navigation(s, button) {
                if value > 0 {
                    press(s, button)
                } else {
                    release(s, button)
                }
            } else if is_global(s, button) {
                (s, seq![to_host(s, 0, bytes)])
            } else if !(s.device.grid_cc)(controller) {
                (s, seq![to_host(s, s.current_page, bytes)])
            } else {
                let number = number_on_page(s, controller, s.current_page);
                (s, seq![passed_on(s, bytes, parse::cc_bytes(channel, number, value))])
            }
        },
        MsgView::SysEx(_) => (s, seq![to_host(s, s.current_page, bytes)]),
        MsgView::Other(_) => (s, seq![to_host(s, s.current_page, bytes)]),
    }
}

/// What the host hears of a pad, on the page shown: the message as it came in
/// per-port mode, rebuilt with the pad's number on the page in note-offset mode.
pub open spec fn passed_on(s: ProxyState, bytes: Seq<u8>, rebuilt: Seq<u8>) -> Sent {
    match s.mode {
        Mode::PerPort => to_host(s, s.current_page, bytes),
        Mode::NoteOffset => to_host(s, s.current_page, rebuilt),
    }
}

/// A pad goes down: the host hears of it on the page shown.
pub open spec fn pad_pressed(
    s: ProxyState,
    channel: u8,
    note: u8,
    velocity: u8,
    bytes: Seq<u8>,
) -> Step {
    let number = number_on_page(s, note, s.current_page);
    (
        ProxyState { held: s.held.insert(note, channel), ..s },
        seq![passed_on(s, bytes, parse::note_on_bytes(channel, number, velocity))],
    )
}

/// A pad comes up: the host hears of it, unless it was told already.
pub open spec fn pad_released(
    s: ProxyState,
    channel: u8,
    note: u8,
    velocity: u8,
    bytes: Seq<u8>,
) -> Step {
    let number = number_on_page(s, note, s.current_page);
    (
        ProxyState { held: s.held.remove(note), suppressed: s.suppressed.remove(note), ..s },
        if s.suppressed.contains(note) {
            seq![]
        } else {
            seq![passed_on(s, bytes, parse::note_off_bytes(channel, number, velocity))]
        },
    )
}

// -- Navigation -------------------------------------------------------------

/// A navigation button goes down.
pub open spec fn press(s: ProxyState, button: ButtonRef) -> Step {
    if s.next_page_button == Some(button) {
        after_flash(s, button, cycled(s, true))
    } else if s.previous_page_button == Some(button) {
        after_flash(s, button, cycled(s, false))
    } else {
        match page_button(s, button) {
            Some(pb) => page_button_pressed(s, pb),
            None => (s, seq![]),
        }
    }
}

/// A navigation button comes up.
pub open spec fn release(s: ProxyState, button: ButtonRef) -> Step {
    match page_button(s, button) {
        Some(pb) if !is_cycle_button(s, button) && pb.hold && s.held_preview_button == Some(
            button,
        ) => preview_left(s),
        _ => (s, seq![]),
    }
}

/// The light-on of a next/previous button, and the light-off that follows.
pub open spec fn flash(s: ProxyState, button: ButtonRef) -> Seq<Sent> {
    seq![
        Sent::ToDevice((s.device.paint)(button, cycle_flash_color(s))),
        Sent::DeviceDelayedSend {
            delay_ms: 200,
            bytes: (s.device.paint)(button, cycle_idle_color(s)),
        },
    ]
}

/// The flash of a button goes out before what its press does.
pub open spec fn after_flash(s: ProxyState, button: ButtonRef, step: Step) -> Step {
    (step.0, flash(s, button) + step.1)
}

/// A page button goes down: a preview, or a jump.
pub open spec fn page_button_pressed(s: ProxyState, pb: ResolvedPageButton) -> Step {
    if pb.page >= s.pages {
        (s, seq![])
    } else if pb.hold {
        preview_entered(s, pb.page, pb.button)
    } else {
        persistent_page_set(s, pb.page)
    }
}

/// One page forward or backward, within the pages there are.
pub open spec fn neighbour(s: ProxyState, forward: bool) -> u8 {
    if forward {
        if s.persistent_page + 1 < s.pages {
            (s.persistent_page + 1) as u8
        } else if s.pages > 0 {
            (s.pages - 1) as u8
        } else {
            0
        }
    } else {
        if s.persistent_page > 0 {
            (s.persistent_page - 1) as u8
        } else {
            0
        }
    }
}

/// The persistent page moves by one.
pub open spec fn cycled(s: ProxyState, forward: bool) -> Step {
    let page = neighbour(s, forward);
    if page == s.persistent_page {
        (s, seq![])
    } else {
        persistent_page_set(s, page)
    }
}

/// The persistent page is another one. While a page is previewed nothing shows.
pub open spec fn persistent_page_set(s: ProxyState, page: u8) -> Step {
    let moved = ProxyState { persistent_page: page, ..s };
    if page >= s.pages {
        (s, seq![])
    } else if s.held_preview is Some {
        (moved, seq![])
    } else {
        page_changed(moved, page)
    }
}

/// A page is previewed for as long as the button is held.
pub open spec fn preview_entered(s: ProxyState, page: u8, button: ButtonRef) -> Step {
    if page >= s.pages || s.held_preview == Some(page) {
        (s, seq![])
    } else {
        page_changed(
            ProxyState { held_preview: Some(page), held_preview_button: Some(button), ..s },
            page,
        )
    }
}

/// The preview ends, and the persistent page is shown again.
pub open spec fn preview_left(s: ProxyState) -> Step {
    if s.held_preview is None {
        (s, seq![])
    } else {
        page_changed(
            ProxyState { held_preview: None, held_preview_button: None, ..s },
            s.persistent_page,
        )
    }
}

/// The Note Offs of the pads below `n` that are held, on the page shown and on
/// the channel of the press.
pub open spec fn note_offs(s: ProxyState, n: int) -> Seq<Sent>
    decreases n,
{
    if n <= 0 {
        seq![]
    } else {
        let before = note_offs(s, n - 1);
        let pad = (n - 1) as u8;
        if s.held.contains_key(pad) {
            let number = number_on_page(s, pad, s.current_page);
            before.push(
                to_host(s, s.current_page, parse::note_off_bytes(s.held[pad], number, 0)),
            )
        } else {
            before
        }
    }
}

/// The state once another page is shown. The pads that are held have had their
/// Note Off, so that the release itself is not passed on.
pub open spec fn turned_to(s: ProxyState, page: u8) -> ProxyState {
    ProxyState { current_page: page, suppressed: s.suppressed.union(s.held.dom()), ..s }
}

/// What brings the device up to the page: dark, then the LEDs of the page, then
/// the page buttons, then the global buttons as page zero has them.
pub open spec fn redraw(s: ProxyState) -> Seq<Seq<u8>> {
    s.device.clear + replayed(s.led_cache[s.current_page as int], all_keys()) + device::painted(
        s.device,
        indicators(s),
    ) + (if s.current_page != 0 {
        replayed(s.led_cache[0], global_keys(s))
    } else {
        seq![]
    })
}

/// Another page is shown: held pads are let go on the old page, then the device
/// is redrawn.
pub open spec fn page_changed(s: ProxyState, page: u8) -> Step {
    if page >= s.pages {
        (s, seq![])
    } else {
        let turned = turned_to(s, page);
        (turned, note_offs(s, 256) + to_device(redraw(turned)))
    }
}

// -- Host to device ---------------------------------------------------------

/// The state with one LED of one page known anew. A page that is not there
/// keeps nothing.
pub open spec fn cached(s: ProxyState, page: int, key: CacheKey, cell: LedCell) -> ProxyState {
    if 0 <= page < s.led_cache.len() {
        ProxyState {
            led_cache: s.led_cache.update(page, s.led_cache[page].insert(key, cell)),
            ..s
        }
    } else {
        s
    }
}

/// A Note On or a Note Off.
pub open spec fn note_bytes(channel: u8, note: u8, velocity: u8, is_on: bool) -> Seq<u8> {
    if is_on {
        parse::note_on_bytes(channel, note, velocity)
    } else {
        parse::note_off_bytes(channel, note, velocity)
    }
}

/// The LED state that a Note On or a Note Off asks for.
pub open spec fn note_cell(channel: u8, velocity: u8, is_on: bool) -> LedCell {
    LedCell::NoteOn {
        channel,
        velocity: if is_on {
            velocity
        } else {
            0
        },
    }
}

/// Whether a note number means a pad of some page, in note-offset mode.
pub open spec fn is_paged_number(s: ProxyState, note: u8) -> bool {
    note / s.note_offset < s.led_cache.len() && (s.device.grid_note)(note % s.note_offset)
}

/// A message from the host, in note-offset mode.
pub open spec fn host_in(s: ProxyState, bytes: Seq<u8>) -> Step {
    if sysex_lighting::framed(bytes, MINI_MK3_BYTE) {
        match sysex_lighting::lighting_entries(bytes, MINI_MK3_BYTE) {
            Ok(leds) => host_leds(s, leds),
            Err(_) => (s, to_device(seq![bytes])),
        }
    } else {
        match parse::meaning(bytes) {
            MsgView::NoteOn { channel, note, velocity } => host_note(
                s,
                channel,
                note,
                velocity,
                true,
            ),
            MsgView::NoteOff { channel, note, velocity } => host_note(
                s,
                channel,
                note,
                velocity,
                false,
            ),
            MsgView::Cc { channel, controller, value } => host_cc(
                s,
                channel,
                controller,
                value,
                bytes,
            ),
            MsgView::SysEx(_) => (s, to_device(seq![bytes])),
            MsgView::Other(_) => (s, to_device(seq![bytes])),
        }
    }
}

/// A note from the host: kept for its page, and shown if that page is shown. A
/// global button is kept for page zero and always shown; a note that is no pad
/// goes to the device as it is.
pub open spec fn host_note(
    s: ProxyState,
    channel: u8,
    note: u8,
    velocity: u8,
    is_on: bool,
) -> Step {
    let paged = is_paged_number(s, note);
    let page = note / s.note_offset;
    let number = if paged {
        note % s.note_offset
    } else {
        note
    };
    let key = CacheKey::Note(number);
    let cell = note_cell(channel, velocity, is_on);
    let shown = to_device(seq![note_bytes(channel, number, velocity, is_on)]);
    if is_global(s, ButtonRef::Note { number }) {
        (cached(s, 0, key, cell), shown)
    } else if !paged {
        (s, shown)
    } else {
        (
            cached(s, page as int, key, cell),
            if page == s.current_page {
                shown
            } else {
                seq![]
            },
        )
    }
}

/// A Control Change from the host, treated like a note. One that is no pad is
/// kept only if it is a global button.
pub open spec fn host_cc(
    s: ProxyState,
    channel: u8,
    controller: u8,
    value: u8,
    bytes: Seq<u8>,
) -> Step {
    let cell = LedCell::Cc { channel, value };
    if !(s.device.grid_cc)(controller) {
        if is_global(s, ButtonRef::Cc { number: controller }) {
            (cached(s, 0, CacheKey::Cc(controller), cell), to_device(seq![bytes]))
        } else {
            (s, to_device(seq![bytes]))
        }
    } else {
        let page = controller / s.note_offset;
        let number = controller % s.note_offset;
        let shown = to_device(seq![parse::cc_bytes(channel, number, value)]);
        if is_global(s, ButtonRef::Cc { number }) {
            (cached(s, 0, CacheKey::Cc(number), cell), shown)
        } else {
            (
                cached(s, page as int, CacheKey::Cc(number), cell),
                if page == s.current_page {
                    shown
                } else {
                    seq![]
                },
            )
        }
    }
}

/// Where an entry of a Lighting SysEx belongs, in note-offset mode: a global
/// button to page zero, any other LED to the page of its number.
pub open spec fn led_page(s: ProxyState, led: LedSpec) -> int {
    if is_global(s, ButtonRef::Note { number: led.led_index % s.note_offset }) {
        0
    } else {
        (led.led_index / s.note_offset) as int
    }
}

/// Whether an entry of a Lighting SysEx is shown at once, in note-offset mode.
pub open spec fn led_shows(s: ProxyState, led: LedSpec) -> bool {
    is_global(s, ButtonRef::Note { number: led.led_index % s.note_offset }) || led.led_index
        / s.note_offset == s.current_page
}

/// The state once the entries of a Lighting SysEx are kept, each for its page.
pub open spec fn leds_cached(s: ProxyState, leds: Seq<LedSpec>) -> ProxyState
    decreases leds.len(),
{
    if leds.len() == 0 {
        s
    } else {
        let led = leds.last();
        cached(
            leds_cached(s, leds.drop_last()),
            led_page(s, led),
            CacheKey::Note(led.led_index % s.note_offset),
            LedCell::SysexColor(led.color),
        )
    }
}

/// The entries of a Lighting SysEx that are shown at once, by their place on
/// the grid.
pub open spec fn leds_shown(s: ProxyState, leds: Seq<LedSpec>) -> Seq<LedSpec>
    decreases leds.len(),
{
    if leds.len() == 0 {
        seq![]
    } else {
        let before = leds_shown(s, leds.drop_last());
        let led = leds.last();
        if led_shows(s, led) {
            before.push(LedSpec { led_index: led.led_index % s.note_offset, color: led.color })
        } else {
            before
        }
    }
}

/// A Lighting SysEx from the host, in note-offset mode.
pub open spec fn host_leds(s: ProxyState, leds: Seq<LedSpec>) -> Step {
    (leds_cached(s, leds), to_device(lighting(leds_shown(s, leds))))
}

/// A message that arrives on the port of a page: passed on as it is if that
/// page is shown.
pub open spec fn if_shown(s: ProxyState, page: u8, bytes: Seq<u8>) -> Seq<Sent> {
    if page == s.current_page {
        to_device(seq![bytes])
    } else {
        seq![]
    }
}

/// A message from the host on the port of a page, in per-port mode.
pub open spec fn host_in_per_port(s: ProxyState, page: u8, bytes: Seq<u8>) -> Step {
    if page >= s.led_cache.len() {
        (s, seq![])
    } else {
        match parse::meaning(bytes) {
            MsgView::NoteOn { channel, note, velocity } => port_note(
                s,
                page,
                note,
                note_cell(channel, velocity, true),
                bytes,
            ),
            MsgView::NoteOff { channel, note, velocity } => port_note(
                s,
                page,
                note,
                note_cell(channel, velocity, false),
                bytes,
            ),
            MsgView::Cc { channel, controller, value } => port_cc(
                s,
                page,
                controller,
                LedCell::Cc { channel, value },
                bytes,
            ),
            MsgView::SysEx(_) => port_sysex(s, page, bytes),
            MsgView::Other(_) => (s, if_shown(s, page, bytes)),
        }
    }
}

/// A note on the port of a page: kept for page zero and always passed on if it
/// is a global button, kept for its page if it is a pad.
pub open spec fn port_note(
    s: ProxyState,
    page: u8,
    note: u8,
    cell: LedCell,
    bytes: Seq<u8>,
) -> Step {
    if is_global(s, ButtonRef::Note { number: note }) {
        (cached(s, 0, CacheKey::Note(note), cell), to_device(seq![bytes]))
    } else if (s.device.grid_note)(note) {
        (cached(s, page as int, CacheKey::Note(note), cell), if_shown(s, page, bytes))
    } else {
        (s, if_shown(s, page, bytes))
    }
}

/// A Control Change on the port of a page: kept, unless the proxy lights that
/// button itself.
pub open spec fn port_cc(
    s: ProxyState,
    page: u8,
    controller: u8,
    cell: LedCell,
    bytes: Seq<u8>,
) -> Step {
    let button = ButtonRef::Cc { number: controller };
    if is_global(s, button) {
        (cached(s, 0, CacheKey::Cc(controller), cell), to_device(seq![bytes]))
    } else if !is_navigation(s, button) {
        (cached(s, page as int, CacheKey::Cc(controller), cell), if_shown(s, page, bytes))
    } else {
        (s, if_shown(s, page, bytes))
    }
}

/// The state once the entries of a Lighting SysEx are kept for the page of the
/// port, and those of global buttons for page zero.
pub open spec fn port_leds_cached(s: ProxyState, page: u8, leds: Seq<LedSpec>) -> ProxyState
    decreases leds.len(),
{
    if leds.len() == 0 {
        s
    } else {
        let led = leds.last();
        cached(
            port_leds_cached(s, page, leds.drop_last()),
            if is_global(s, ButtonRef::Note { number: led.led_index }) {
                0
            } else {
                page as int
            },
            CacheKey::Note(led.led_index),
            LedCell::SysexColor(led.color),
        )
    }
}

/// The entries of a Lighting SysEx that are for global buttons.
pub open spec fn global_leds(s: ProxyState, leds: Seq<LedSpec>) -> Seq<LedSpec>
    decreases leds.len(),
{
    if leds.len() == 0 {
        seq![]
    } else {
        let before = global_leds(s, leds.drop_last());
        if is_global(s, ButtonRef::Note { number: leds.last().led_index }) {
            before.push(leds.last())
        } else {
            before
        }
    }
}

/// A SysEx on the port of a page. A Lighting SysEx is kept LED by LED; while
/// another page is shown, only its global buttons go to the device.
pub open spec fn port_sysex(s: ProxyState, page: u8, bytes: Seq<u8>) -> Step {
    match sysex_lighting::lighting_entries(bytes, MINI_MK3_BYTE) {
        Ok(leds) => (
            port_leds_cached(s, page, leds),
            if page == s.current_page {
                to_device(seq![bytes])
            } else {
                to_device(lighting(global_leds(s, leds)))
            },
        ),
        Err(_) => (s, if_shown(s, page, bytes)),
    }
}

} // verus!
