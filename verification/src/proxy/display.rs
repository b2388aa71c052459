//! What the device shows, as the messages that it gets have lit it, and that
//! this is always what the host has written to the page shown.

use vstd::prelude::*;

use crate::config::{ButtonRef, Mode};
use crate::midi::any_device::AnyDevice;
use crate::midi::apc_mini::{self, ApcMini};
use crate::midi::device::{self, Device, DeviceModel};
use crate::midi::mini_mk3::{self, MiniMk3};
use crate::midi::parse::{self, MsgView};
use crate::midi::sysex_lighting::{self, ColorSpec, LedSpec, MINI_MK3_BYTE};
use crate::proxy::laws;
use crate::proxy::led_cache::{self, CacheKey, LedCell};
use crate::proxy::model::{self, Cells, ProxyState, Sent};

verus! {

// -- The device's LEDs ------------------------------------------------------

/// The LEDs once the entries of a Lighting SysEx are lit, one after the other.
pub open spec fn leds_lit(display: Cells, leds: Seq<LedSpec>) -> Cells
    decreases leds.len(),
{
    if leds.len() == 0 {
        display
    } else {
        let led = leds.last();
        leds_lit(display, leds.drop_last()).insert(
            CacheKey::Note(led.led_index),
            LedCell::SysexColor(led.color),
        )
    }
}

/// The LEDs after one message.
pub open spec fn lit_by(display: Cells, bytes: Seq<u8>) -> Cells {
    match parse::meaning(bytes) {
        MsgView::NoteOn { channel, note, velocity } => display.insert(
            CacheKey::Note(note),
            LedCell::NoteOn { channel, velocity },
        ),
        MsgView::NoteOff { channel, note, .. } => display.insert(
            CacheKey::Note(note),
            LedCell::NoteOn { channel, velocity: 0 },
        ),
        MsgView::Cc { channel, controller, value } => display.insert(
            CacheKey::Cc(controller),
            LedCell::Cc { channel, value },
        ),
        MsgView::SysEx(_) => match sysex_lighting::lighting_entries(bytes, MINI_MK3_BYTE) {
            Ok(leds) => leds_lit(display, leds),
            Err(_) => display,
        },
        MsgView::Other(_) => display,
    }
}

/// The LEDs after a list of messages.
pub open spec fn lit_by_all(display: Cells, messages: Seq<Seq<u8>>) -> Cells
    decreases messages.len(),
{
    if messages.len() == 0 {
        display
    } else {
        lit_by(lit_by_all(display, messages.drop_last()), messages.last())
    }
}

/// The LEDs after what the proxy sends at once.
pub open spec fn lit_by_sent(display: Cells, sent: Seq<Sent>) -> Cells
    decreases sent.len(),
{
    if sent.len() == 0 {
        display
    } else {
        let before = lit_by_sent(display, sent.drop_last());
        match sent.last() {
            Sent::ToDevice(bytes) => lit_by(before, bytes),
            _ => before,
        }
    }
}

/// The state of an LED, if a message has set it.
pub open spec fn at(display: Cells, key: CacheKey) -> Option<LedCell> {
    if display.contains_key(key) {
        Some(display[key])
    } else {
        None
    }
}

/// An LED that is off, by either kind of message.
pub open spec fn is_dark(cell: Option<LedCell>) -> bool {
    match cell {
        Some(LedCell::NoteOn { velocity, .. }) => velocity == 0,
        Some(LedCell::SysexColor(color)) => color == ColorSpec::Static(0),
        _ => false,
    }
}

// -- Numbers in MIDI's range ------------------------------------------------

/// Whether a cell can be sent as it is: what goes out as a short message has a
/// channel of four bits and data of seven.
pub open spec fn is_midi_cell(key: CacheKey, cell: LedCell) -> bool {
    match (key, cell) {
        (CacheKey::Note(n), LedCell::NoteOn { channel, velocity }) => n < 128 && channel < 16
            && velocity < 128,
        (CacheKey::Cc(c), LedCell::Cc { channel, value }) => c < 128 && channel < 16 && value
            < 128,
        (CacheKey::Note(_), LedCell::SysexColor(_)) => true,
        _ => false,
    }
}

/// Whether all that is kept for a page can be sent as it is.
pub open spec fn is_midi_page(cells: Cells) -> bool {
    forall|key: CacheKey| #[trigger]
        cells.contains_key(key) ==> is_midi_cell(key, cells[key])
}

/// Whether all that the proxy keeps, and every navigation button, is in MIDI's
/// range.
pub open spec fn is_midi_state(s: ProxyState) -> bool {
    &&& forall|page: int| 0 <= page < s.led_cache.len() ==> is_midi_page(#[trigger] s.led_cache[page])
    &&& forall|button: ButtonRef| #[trigger]
        model::is_navigation(s, button) ==> button.spec_number() < 128
}

/// Whether the data of a message is in MIDI's range, if it is a short one.
pub open spec fn is_midi_message(bytes: Seq<u8>) -> bool {
    match parse::meaning(bytes) {
        MsgView::NoteOn { note, velocity, .. } => note < 128 && velocity < 128,
        MsgView::NoteOff { note, velocity, .. } => note < 128 && velocity < 128,
        MsgView::Cc { controller, value, .. } => controller < 128 && value < 128,
        _ => true,
    }
}

// -- Devices ----------------------------------------------------------------

/// A device whose grid goes dark when it is cleared, and whose buttons are each
/// painted by a message of their own.
pub open spec fn is_plain_device(device: DeviceModel) -> bool {
    &&& forall|display: Cells, n: u8|
        (device.grid_note)(n) ==> is_dark(
            #[trigger] at(lit_by_all(display, device.clear), CacheKey::Note(n)),
        )
    &&& forall|display: Cells, c: u8|
        #[trigger] at(lit_by_all(display, device.clear), CacheKey::Cc(c)) == at(
            display,
            CacheKey::Cc(c),
        )
    &&& forall|button: ButtonRef, color: u8| #[trigger]
        (device.paint)(button, color) == plain_paint(button, color)
}

/// A Control Change for a controller, a Note On for a note, on the first channel and
/// with the color as its value.
pub open spec fn plain_paint(button: ButtonRef, color: u8) -> Seq<u8> {
    match button {
        ButtonRef::Cc { number } => seq![0xB0u8, number % 128, color % 128],
        ButtonRef::Note { number } => seq![0x90u8, number % 128, color % 128],
    }
}

// -- What the display shows -------------------------------------------------

/// An LED that every page has its own state of: a pad, or a controller that is
/// neither a navigation button nor a global one. In note-offset mode the host
/// can name only the numbers below the offset.
pub open spec fn is_paged_led(s: ProxyState, key: CacheKey) -> bool {
    match key {
        CacheKey::Note(n) => model::is_pad(s, n) && (s.mode == Mode::NoteOffset ==> n
            < s.note_offset),
        CacheKey::Cc(c) => {
            let button = ButtonRef::Cc { number: c };
            &&& !model::is_navigation(s, button)
            &&& !model::is_global(s, button)
            &&& s.mode == Mode::NoteOffset ==> (s.device.grid_cc)(c)
        },
    }
}

/// Whether one LED shows what the host has written to it on the page shown; a
/// pad that the host has not written to is dark.
pub open spec fn shows(s: ProxyState, display: Cells, key: CacheKey) -> bool {
    let page = s.led_cache[s.current_page as int];
    if page.contains_key(key) {
        at(display, key) == Some(page[key])
    } else {
        key is Note ==> is_dark(at(display, key))
    }
}

/// Whether the device shows the page: every LED that the page has a state of.
pub open spec fn shows_the_page(s: ProxyState, display: Cells) -> bool {
    forall|key: CacheKey| #[trigger] is_paged_led(s, key) ==> shows(s, display, key)
}

// -- Lists of messages ------------------------------------------------------

pub proof fn lemma_lit_in_turn(display: Cells, a: Seq<Seq<u8>>, b: Seq<Seq<u8>>)
    ensures
        lit_by_all(display, a + b) == lit_by_all(lit_by_all(display, a), b),
    decreases b.len(),
{
    if b.len() == 0 {
        assert(a + b =~= a);
    } else {
        assert((a + b).drop_last() =~= a + b.drop_last());
        assert((a + b).last() == b.last());
        lemma_lit_in_turn(display, a, b.drop_last());
    }
}

pub proof fn lemma_sent_in_turn(display: Cells, a: Seq<Sent>, b: Seq<Sent>)
    ensures
        lit_by_sent(display, a + b) == lit_by_sent(lit_by_sent(display, a), b),
    decreases b.len(),
{
    if b.len() == 0 {
        assert(a + b =~= a);
    } else {
        assert((a + b).drop_last() =~= a + b.drop_last());
        assert((a + b).last() == b.last());
        lemma_sent_in_turn(display, a, b.drop_last());
    }
}

pub proof fn lemma_sent_to_device(display: Cells, messages: Seq<Seq<u8>>)
    ensures
        lit_by_sent(display, model::to_device(messages)) == lit_by_all(display, messages),
    decreases messages.len(),
{
    if messages.len() > 0 {
        let sent = model::to_device(messages);
        assert(sent.drop_last() =~= model::to_device(messages.drop_last()));
        assert(sent.last() == Sent::ToDevice(messages.last()));
        lemma_sent_to_device(display, messages.drop_last());
    }
}

pub proof fn lemma_one_to_device(display: Cells, bytes: Seq<u8>)
    ensures
        lit_by_sent(display, model::to_device(seq![bytes])) == lit_by(display, bytes),
{
    lemma_sent_to_device(display, seq![bytes]);
    assert(seq![bytes].drop_last() =~= seq![]);
    assert(lit_by_all(display, seq![bytes].drop_last()) == display);
}

/// What goes to the host lights nothing.
pub proof fn lemma_note_offs_light_nothing(display: Cells, s: ProxyState, n: int)
    ensures
        lit_by_sent(display, model::note_offs(s, n)) == display,
    decreases n,
{
    if n > 0 {
        lemma_note_offs_light_nothing(display, s, n - 1);
        let before = model::note_offs(s, n - 1);
        let sent = model::note_offs(s, n);
        if sent.len() > before.len() {
            assert(sent.drop_last() =~= before);
        }
    }
}

// -- Replaying a page -------------------------------------------------------

/// The message of a cell sets that cell.
proof fn lemma_message_sets_the_cell(display: Cells, key: CacheKey, cell: LedCell)
    requires
        is_midi_cell(key, cell),
        cell !is SysexColor,
    ensures
        model::cell_message(key, cell).len() == 1,
        lit_by(display, model::cell_message(key, cell)[0]) == display.insert(key, cell),
{
    match (key, cell) {
        (CacheKey::Note(n), LedCell::NoteOn { channel, velocity }) => {
            parse::law_built_messages_are_read_back(channel, n, velocity);
        },
        (CacheKey::Cc(c), LedCell::Cc { channel, value }) => {
            parse::law_built_messages_are_read_back(channel, c, value);
        },
        _ => {},
    }
}

proof fn lemma_messages_set_the_cells(
    display: Cells,
    cells: Cells,
    keys: Seq<CacheKey>,
    key: CacheKey,
)
    requires
        is_midi_page(cells),
    ensures
        at(lit_by_all(display, model::messages_of(cells, keys)), key) == if keys.contains(key)
            && cells.contains_key(key) && cells[key] !is SysexColor {
            Some(cells[key])
        } else {
            at(display, key)
        },
    decreases keys.len(),
{
    if keys.len() > 0 {
        let rest = keys.drop_last();
        let last = keys.last();
        lemma_messages_set_the_cells(display, cells, rest, key);
        assert(keys.contains(key) <==> rest.contains(key) || key == last) by {
            assert(keys =~= rest.push(last));
            if rest.contains(key) {
                let i = choose|i: int| 0 <= i < rest.len() && rest[i] == key;
                assert(keys[i] == key);
            }
            assert(keys[keys.len() - 1] == last);
        }
        if cells.contains_key(last) {
            let before = model::messages_of(cells, rest);
            let message = model::cell_message(last, cells[last]);
            lemma_lit_in_turn(display, before, message);
            let lit = lit_by_all(display, before);
            if cells[last] !is SysexColor {
                lemma_message_sets_the_cell(lit, last, cells[last]);
                assert(message.drop_last() =~= seq![]);
                assert(lit_by_all(lit, message.drop_last()) == lit);
                assert(lit_by_all(lit, message) == lit.insert(last, cells[last]));
            } else {
                assert(message.len() == 0);
            }
        }
    }
}

proof fn lemma_leds_set_the_cells(
    display: Cells,
    cells: Cells,
    keys: Seq<CacheKey>,
    key: CacheKey,
)
    requires
        is_midi_page(cells),
    ensures
        at(leds_lit(display, model::leds_of(cells, keys)), key) == if keys.contains(key)
            && cells.contains_key(key) && cells[key] is SysexColor {
            Some(cells[key])
        } else {
            at(display, key)
        },
    decreases keys.len(),
{
    if keys.len() > 0 {
        let rest = keys.drop_last();
        let last = keys.last();
        lemma_leds_set_the_cells(display, cells, rest, key);
        assert(keys.contains(key) <==> rest.contains(key) || key == last) by {
            assert(keys =~= rest.push(last));
            if rest.contains(key) {
                let i = choose|i: int| 0 <= i < rest.len() && rest[i] == key;
                assert(keys[i] == key);
            }
            assert(keys[keys.len() - 1] == last);
        }
        if cells.contains_key(last) {
            let before = model::leds_of(cells, rest);
            let led = model::cell_led(last, cells[last]);
            assert(is_midi_cell(last, cells[last]));
            if cells[last] is SysexColor {
                assert((before + led).drop_last() =~= before);
                assert((before + led).last() == led[0]);
            } else {
                assert(before + led =~= before);
            }
        }
    }
}

pub proof fn lemma_lighting_lights(display: Cells, leds: Seq<LedSpec>)
    ensures
        lit_by_all(display, model::lighting(leds)) == leds_lit(display, leds),
{
    let messages = model::lighting(leds);
    if leds.len() > 0 {
        let bytes = sysex_lighting::lighting_bytes(MINI_MK3_BYTE, leds);
        sysex_lighting::law_emitted_lighting_parses_back(MINI_MK3_BYTE, leds);
        assert(bytes[0] == 0xF0);
        assert(parse::meaning(bytes) is SysEx);
        assert(messages.drop_last() =~= seq![]);
        assert(lit_by_all(display, messages.drop_last()) == display);
    }
}

/// Replaying sets every cell that it is given, and nothing else.
pub proof fn lemma_replay_sets_the_cells(
    display: Cells,
    cells: Cells,
    keys: Seq<CacheKey>,
    key: CacheKey,
)
    requires
        is_midi_page(cells),
    ensures
        at(lit_by_all(display, model::replayed(cells, keys)), key) == if keys.contains(key)
            && cells.contains_key(key) {
            Some(cells[key])
        } else {
            at(display, key)
        },
{
    let messages = model::messages_of(cells, keys);
    let leds = model::leds_of(cells, keys);
    let between = lit_by_all(display, messages);
    lemma_lit_in_turn(display, messages, model::lighting(leds));
    lemma_lighting_lights(between, leds);
    lemma_messages_set_the_cells(display, cells, keys, key);
    lemma_leds_set_the_cells(between, cells, keys, key);
}

/// Painting a button sets that button alone.
pub proof fn lemma_painting_sets_the_button(
    display: Cells,
    device: DeviceModel,
    button: ButtonRef,
    color: u8,
    key: CacheKey,
)
    requires
        is_plain_device(device),
        button.spec_number() < 128,
        key != led_cache::key_of(button),
    ensures
        at(lit_by(display, (device.paint)(button, color)), key) == at(display, key),
{
    parse::law_built_messages_are_read_back(0, button.spec_number(), color);
}

pub proof fn lemma_painting_sets_the_buttons(
    display: Cells,
    device: DeviceModel,
    indicators: Seq<(ButtonRef, u8)>,
    key: CacheKey,
)
    requires
        is_plain_device(device),
        forall|i: int|
            0 <= i < indicators.len() ==> (#[trigger] indicators[i]).0.spec_number() < 128 && key
                != led_cache::key_of(indicators[i].0),
    ensures
        at(lit_by_all(display, device::painted(device, indicators)), key) == at(display, key),
    decreases indicators.len(),
{
    if indicators.len() > 0 {
        let rest = indicators.drop_last();
        let painted = device::painted(device, indicators);
        lemma_painting_sets_the_buttons(display, device, rest, key);
        assert(painted.drop_last() =~= device::painted(device, rest));
        let (button, color) = indicators.last();
        assert(indicators[indicators.len() - 1] == (button, color));
        lemma_painting_sets_the_button(
            lit_by_all(display, painted.drop_last()),
            device,
            button,
            color,
            key,
        );
    }
}

// -- Clearing the grid ------------------------------------------------------

/// Entries that are all off leave every LED that they name dark, and every
/// controller as it was.
proof fn lemma_dark_leds(display: Cells, leds: Seq<LedSpec>, key: CacheKey)
    requires
        forall|i: int|
            0 <= i < leds.len() ==> (#[trigger] leds[i]).color == ColorSpec::Static(0),
    ensures
        (exists|i: int|
            0 <= i < leds.len() && key == CacheKey::Note((#[trigger] leds[i]).led_index))
            ==> is_dark(at(leds_lit(display, leds), key)),
        key is Cc ==> at(leds_lit(display, leds), key) == at(display, key),
    decreases leds.len(),
{
    if leds.len() > 0 {
        let rest = leds.drop_last();
        assert forall|i: int| 0 <= i < rest.len() implies (#[trigger] rest[i]).color
            == ColorSpec::Static(0) by {
            assert(leds[i].color == ColorSpec::Static(0));
        }
        lemma_dark_leds(display, rest, key);
        assert(leds[leds.len() - 1].color == ColorSpec::Static(0));
        if exists|i: int|
            0 <= i < leds.len() && key == CacheKey::Note((#[trigger] leds[i]).led_index) {
            let i = choose|i: int|
                0 <= i < leds.len() && key == CacheKey::Note((#[trigger] leds[i]).led_index);
            if i < rest.len() {
                assert(key == CacheKey::Note(rest[i].led_index));
            }
        }
    }
}

proof fn lemma_mini_goes_dark(display: Cells, key: CacheKey)
    ensures
        (key matches CacheKey::Note(n) && mini_mk3::grid_note(n)) ==> is_dark(
            at(leds_lit(display, mini_mk3::dark_grid()), key),
        ),
        key is Cc ==> at(leds_lit(display, mini_mk3::dark_grid()), key) == at(display, key),
{
    let leds = mini_mk3::dark_grid();
    lemma_dark_leds(display, leds, key);
    if let CacheKey::Note(n) = key {
        if mini_mk3::grid_note(n) {
            let i = 8 * (n / 10 - 1) + n % 10 - 1;
            assert(i / 8 == n / 10 - 1 && i % 8 == n % 10 - 1);
            assert(leds[i].led_index == n);
        }
    }
}

proof fn lemma_apc_goes_dark(display: Cells, k: int, key: CacheKey)
    requires
        0 <= k <= 64,
    ensures
        (key matches CacheKey::Note(n) && n < k) ==> is_dark(
            at(lit_by_all(display, apc_mini::dark_grid().take(k)), key),
        ),
        key is Cc ==> at(lit_by_all(display, apc_mini::dark_grid().take(k)), key) == at(
            display,
            key,
        ),
    decreases k,
{
    let messages = apc_mini::dark_grid().take(k);
    if k > 0 {
        lemma_apc_goes_dark(display, k - 1, key);
        assert(messages.drop_last() =~= apc_mini::dark_grid().take(k - 1));
        let pad = (k - 1) as u8;
        assert(messages.last() == parse::note_on_bytes(0, pad, 0));
        parse::law_built_messages_are_read_back(0, pad, 0);
    }
}

/// Both devices go dark when they are cleared, and have each button painted by a
/// message of its own.
pub proof fn law_both_devices_are_plain(mini: MiniMk3, apc: ApcMini, any: AnyDevice)
    ensures
        is_plain_device(mini.model()),
        is_plain_device(apc.model()),
        is_plain_device(any.model()),
{
    let dark = mini_mk3::dark_grid();
    assert(mini.model().clear =~= model::lighting(dark));
    assert forall|display: Cells, n: u8| (mini.model().grid_note)(n) implies is_dark(
        #[trigger] at(lit_by_all(display, mini.model().clear), CacheKey::Note(n)),
    ) by {
        lemma_lighting_lights(display, dark);
        lemma_mini_goes_dark(display, CacheKey::Note(n));
    }
    assert forall|display: Cells, c: u8| #[trigger]
        at(lit_by_all(display, mini.model().clear), CacheKey::Cc(c)) == at(
            display,
            CacheKey::Cc(c),
        ) by {
        lemma_lighting_lights(display, dark);
        lemma_mini_goes_dark(display, CacheKey::Cc(c));
    }
    assert(apc_mini::dark_grid().take(64) =~= apc.model().clear);
    assert forall|display: Cells, n: u8| (apc.model().grid_note)(n) implies is_dark(
        #[trigger] at(lit_by_all(display, apc.model().clear), CacheKey::Note(n)),
    ) by {
        lemma_apc_goes_dark(display, 64, CacheKey::Note(n));
    }
    assert forall|display: Cells, c: u8| #[trigger]
        at(lit_by_all(display, apc.model().clear), CacheKey::Cc(c)) == at(
            display,
            CacheKey::Cc(c),
        ) by {
        lemma_apc_goes_dark(display, 64, CacheKey::Cc(c));
    }
}

// -- Page changes -----------------------------------------------------------

/// Redrawing sets every LED of the page.
proof fn lemma_redraw_shows(s: ProxyState, display: Cells, key: CacheKey)
    requires
        model::valid(s),
        s.current_page < s.pages,
        is_midi_state(s),
        is_plain_device(s.device),
        is_paged_led(s, key),
    ensures
        shows(s, lit_by_all(display, model::redraw(s)), key),
{
    let page = s.led_cache[s.current_page as int];
    let replayed = model::replayed(page, model::all_keys());
    let indicators = model::indicators(s);
    let painted = device::painted(s.device, indicators);
    let overlay = if s.current_page != 0 {
        model::replayed(s.led_cache[0], model::global_keys(s))
    } else {
        seq![]
    };
    let clear = s.device.clear;
    let cleared = lit_by_all(display, clear);
    let restored = lit_by_all(cleared, replayed);
    let indicated = lit_by_all(restored, painted);
    lemma_lit_in_turn(display, clear, replayed);
    lemma_lit_in_turn(display, clear + replayed, painted);
    lemma_lit_in_turn(display, clear + replayed + painted, overlay);
    assert(model::redraw(s) =~= clear + replayed + painted + overlay);
    laws::lemma_every_key_is_there(key);
    lemma_replay_sets_the_cells(cleared, page, model::all_keys(), key);
    assert forall|i: int| 0 <= i < indicators.len() implies (#[trigger] indicators[i]).0.spec_number()
        < 128 && key != led_cache::key_of(indicators[i].0) by {
        let button = s.page_buttons[i].button;
        lemma_entries_are_slots(s.page_buttons, i, 0);
        assert(model::is_navigation(s, button));
    }
    lemma_painting_sets_the_buttons(restored, s.device, indicators, key);
    if s.current_page != 0 {
        let keys = model::global_keys(s);
        lemma_replay_sets_the_cells(indicated, s.led_cache[0], keys, key);
        if keys.contains(key) {
            let i = choose|i: int| 0 <= i < keys.len() && keys[i] == key;
            assert(s.global_buttons.contains(s.global_buttons[i]));
        }
    }
}

/// Every page button is found.
pub proof fn lemma_entries_are_slots(
    entries: Seq<crate::config::ResolvedPageButton>,
    i: int,
    from: int,
)
    requires
        0 <= from <= i < entries.len(),
    ensures
        model::slot_from(entries, entries[i].button, from) is Some,
    decreases entries.len() - from,
{
    if from < i {
        lemma_entries_are_slots(entries, i, from + 1);
    }
}

/// Whatever the device showed before, once a page is turned to it shows what the
/// host has written to that page, and every other pad is dark. The host sends
/// nothing for it.
pub proof fn law_page_change_shows_the_page(s: ProxyState, page: u8, display: Cells)
    requires
        model::valid(s),
        page < s.pages,
        is_midi_state(s),
        is_plain_device(s.device),
    ensures
        shows_the_page(
            model::page_changed(s, page).0,
            lit_by_sent(display, model::page_changed(s, page).1),
        ),
{
    let (turned, sent) = model::page_changed(s, page);
    laws::law_page_change_keeps_the_proxy_valid(s, page);
    lemma_same_navigation(s, turned);
    lemma_sent_in_turn(
        display,
        model::note_offs(s, 256),
        model::to_device(model::redraw(turned)),
    );
    lemma_note_offs_light_nothing(display, s, 256);
    lemma_sent_to_device(display, model::redraw(turned));
    assert forall|key: CacheKey| #[trigger] is_paged_led(turned, key) implies shows(
        turned,
        lit_by_sent(display, sent),
        key,
    ) by {
        lemma_redraw_shows(turned, display, key);
    }
}

/// Proxies that are set up alike have the same buttons and the same pads.
pub proof fn lemma_same_navigation(a: ProxyState, b: ProxyState)
    requires
        laws::same_setup(a, b),
    ensures
        forall|button: ButtonRef| #[trigger]
            model::is_navigation(b, button) == model::is_navigation(a, button),
        forall|button: ButtonRef| #[trigger]
            model::is_global(b, button) == model::is_global(a, button),
        forall|key: CacheKey| #[trigger] is_paged_led(b, key) == is_paged_led(a, key),
{
}

/// Once a page is turned to, a global button shows what the host has written to
/// it on page zero.
pub proof fn law_page_change_shows_global_leds(
    s: ProxyState,
    page: u8,
    display: Cells,
    button: ButtonRef,
)
    requires
        model::valid(s),
        page < s.pages,
        is_midi_state(s),
        is_plain_device(s.device),
        model::is_global(s, button),
        !model::is_navigation(s, button),
        s.led_cache[0].contains_key(led_cache::key_of(button)),
    ensures
        at(
            lit_by_sent(display, model::page_changed(s, page).1),
            led_cache::key_of(button),
        ) == Some(s.led_cache[0][led_cache::key_of(button)]),
{
    let key = led_cache::key_of(button);
    let turned = model::page_changed(s, page).0;
    let replayed = model::replayed(s.led_cache[page as int], model::all_keys());
    let indicators = model::indicators(turned);
    let painted = device::painted(s.device, indicators);
    let clear = s.device.clear;
    laws::law_page_change_keeps_the_proxy_valid(s, page);
    lemma_same_navigation(s, turned);
    lemma_sent_in_turn(
        display,
        model::note_offs(s, 256),
        model::to_device(model::redraw(turned)),
    );
    lemma_note_offs_light_nothing(display, s, 256);
    lemma_sent_to_device(display, model::redraw(turned));
    if page != 0 {
        let keys = model::global_keys(s);
        let overlay = model::replayed(s.led_cache[0], keys);
        lemma_lit_in_turn(display, clear + replayed + painted, overlay);
        let i = choose|i: int| 0 <= i < s.global_buttons.len() && s.global_buttons[i] == button;
        assert(keys[i] == key);
        lemma_replay_sets_the_cells(
            lit_by_all(display, clear + replayed + painted),
            s.led_cache[0],
            keys,
            key,
        );
    } else {
        let cleared = lit_by_all(display, clear);
        assert(model::redraw(turned) =~= clear + replayed + painted);
        lemma_lit_in_turn(display, clear, replayed);
        lemma_lit_in_turn(display, clear + replayed, painted);
        laws::lemma_every_key_is_there(key);
        lemma_replay_sets_the_cells(cleared, s.led_cache[0], model::all_keys(), key);
        assert forall|i: int| 0 <= i < indicators.len() implies (#[trigger] indicators[i]).0.spec_number()
            < 128 && key != led_cache::key_of(indicators[i].0) by {
            lemma_entries_are_slots(turned.page_buttons, i, 0);
            assert(model::is_navigation(turned, turned.page_buttons[i].button));
        }
        lemma_painting_sets_the_buttons(
            lit_by_all(cleared, replayed),
            s.device,
            indicators,
            key,
        );
    }
}

// -- Writes of the host -----------------------------------------------------

/// An LED and what is kept of it change together, or neither does.
pub open spec fn change_together(
    kept_before: Option<LedCell>,
    shown_before: Option<LedCell>,
    kept: Option<LedCell>,
    shown: Option<LedCell>,
) -> bool {
    ||| kept == kept_before && shown == shown_before
    ||| kept is Some && shown == kept
}

/// What is kept of an LED on the page shown.
pub open spec fn kept_at(s: ProxyState, key: CacheKey) -> Option<LedCell> {
    at(s.led_cache[s.current_page as int], key)
}

/// An LED that shows its page goes on doing so while the two change together.
proof fn lemma_shows_on(s: ProxyState, t: ProxyState, before: Cells, after: Cells, key: CacheKey)
    requires
        shows(s, before, key),
        change_together(kept_at(s, key), at(before, key), kept_at(t, key), at(after, key)),
    ensures
        shows(t, after, key),
{
}

proof fn lemma_port_leds_change_together(
    s: ProxyState,
    page: u8,
    leds: Seq<LedSpec>,
    display: Cells,
    key: CacheKey,
)
    requires
        model::valid(s),
        s.current_page < s.pages,
        is_paged_led(s, key),
    ensures
        ({
            let kept = model::port_leds_cached(s, page, leds);
            let shown = if page == s.current_page {
                leds_lit(display, leds)
            } else {
                leds_lit(display, model::global_leds(s, leds))
            };
            &&& laws::same_setup(s, kept)
            &&& kept.current_page == s.current_page
            &&& change_together(kept_at(s, key), at(display, key), kept_at(kept, key), at(shown, key))
        }),
    decreases leds.len(),
{
    if leds.len() > 0 {
        let rest = leds.drop_last();
        let led = leds.last();
        lemma_port_leds_change_together(s, page, rest, display, key);
        let globals = model::global_leds(s, rest);
        if model::is_global(s, ButtonRef::Note { number: led.led_index }) {
            assert(globals.push(led).drop_last() =~= globals);
            assert(key != CacheKey::Note(led.led_index));
        }
    }
}

/// While the device shows a page, whatever the host sends on the port of any page
/// leaves it showing that page.
pub proof fn law_port_writes_keep_the_display(
    s: ProxyState,
    page: u8,
    bytes: Seq<u8>,
    display: Cells,
)
    requires
        model::valid(s),
        s.pages > 0,
        s.mode == Mode::PerPort,
        shows_the_page(s, display),
    ensures
        shows_the_page(
            model::host_in_per_port(s, page, bytes).0,
            lit_by_sent(display, model::host_in_per_port(s, page, bytes).1),
        ),
{
    let (after, sent) = model::host_in_per_port(s, page, bytes);
    laws::law_port_input_keeps_the_proxy_valid(s, page, bytes);
    lemma_same_navigation(s, after);
    lemma_one_to_device(display, bytes);
    let entries = sysex_lighting::lighting_entries(bytes, MINI_MK3_BYTE);
    assert forall|key: CacheKey| #[trigger] is_paged_led(after, key) implies shows(
        after,
        lit_by_sent(display, sent),
        key,
    ) by {
        assert(is_paged_led(s, key));
        if page < s.pages && parse::meaning(bytes) is SysEx && entries is Ok {
            let leds = entries->Ok_0;
            let globals = model::global_leds(s, leds);
            lemma_port_leds_change_together(s, page, leds, display, key);
            lemma_lighting_lights(display, globals);
            lemma_sent_to_device(display, model::lighting(globals));
        }
        lemma_shows_on(s, after, display, lit_by_sent(display, sent), key);
    }
}

proof fn lemma_leds_change_together(
    s: ProxyState,
    leds: Seq<LedSpec>,
    display: Cells,
    key: CacheKey,
)
    requires
        model::valid(s),
        s.current_page < s.pages,
        s.note_offset >= 1,
        is_paged_led(s, key),
    ensures
        ({
            let kept = model::leds_cached(s, leds);
            let shown = leds_lit(display, model::leds_shown(s, leds));
            &&& laws::same_setup(s, kept)
            &&& kept.current_page == s.current_page
            &&& change_together(kept_at(s, key), at(display, key), kept_at(kept, key), at(shown, key))
        }),
    decreases leds.len(),
{
    if leds.len() > 0 {
        let rest = leds.drop_last();
        let led = leds.last();
        lemma_leds_change_together(s, rest, display, key);
        let shown = model::leds_shown(s, rest);
        let number = led.led_index % s.note_offset;
        if model::led_shows(s, led) {
            let entry = LedSpec { led_index: number, color: led.color };
            assert(shown.push(entry).drop_last() =~= shown);
            assert(shown.push(entry).last() == entry);
        }
        if model::is_global(s, ButtonRef::Note { number }) {
            assert(key != CacheKey::Note(number));
        }
    }
}

/// A number below the offset is one of page zero.
proof fn lemma_first_page_number(s: ProxyState, n: u8)
    requires
        n < s.note_offset,
    ensures
        n / s.note_offset == 0,
        n % s.note_offset == n,
{
    vstd::arithmetic::div_mod::lemma_small_mod(n as nat, s.note_offset as nat);
    vstd::arithmetic::div_mod::lemma_basic_div(n as int, s.note_offset as int);
}

/// A remainder is no larger than what it is a remainder of.
proof fn lemma_number_is_smaller(s: ProxyState, n: u8)
    requires
        s.note_offset >= 1,
    ensures
        n % s.note_offset <= n,
{
    vstd::arithmetic::div_mod::lemma_mod_decreases(n as nat, s.note_offset as nat);
}

proof fn lemma_host_note_keeps_the_display(
    s: ProxyState,
    channel: u8,
    note: u8,
    velocity: u8,
    is_on: bool,
    display: Cells,
    key: CacheKey,
)
    requires
        model::valid(s),
        s.current_page < s.pages,
        s.mode == Mode::NoteOffset,
        s.note_offset >= 1,
        channel < 16,
        note < 128,
        velocity < 128,
        is_on ==> velocity > 0,
        is_paged_led(s, key),
    ensures
        ({
            let (after, sent) = model::host_note(s, channel, note, velocity, is_on);
            change_together(
                kept_at(s, key),
                at(display, key),
                kept_at(after, key),
                at(lit_by_sent(display, sent), key),
            )
        }),
{
    let paged = model::is_paged_number(s, note);
    let number = if paged {
        note % s.note_offset
    } else {
        note
    };
    lemma_number_is_smaller(s, note);
    parse::law_built_messages_are_read_back(channel, number, velocity);
    lemma_one_to_device(display, model::note_bytes(channel, number, velocity, is_on));
    if key == CacheKey::Note(note) {
        lemma_first_page_number(s, note);
    }
}

proof fn lemma_host_cc_keeps_the_display(
    s: ProxyState,
    bytes: Seq<u8>,
    display: Cells,
    key: CacheKey,
)
    requires
        model::valid(s),
        s.current_page < s.pages,
        s.mode == Mode::NoteOffset,
        s.note_offset >= 1,
        parse::meaning(bytes) matches MsgView::Cc { controller, value, .. } && controller < 128
            && value < 128,
        is_paged_led(s, key),
    ensures
        ({
            let (after, sent) = model::host_in(s, bytes);
            change_together(
                kept_at(s, key),
                at(display, key),
                kept_at(after, key),
                at(lit_by_sent(display, sent), key),
            )
        }),
{
    if let MsgView::Cc { channel, controller, value } = parse::meaning(bytes) {
        let number = controller % s.note_offset;
        lemma_no_lighting(bytes);
        lemma_number_is_smaller(s, controller);
        parse::law_built_messages_are_read_back(channel, number, value);
        lemma_one_to_device(display, bytes);
        lemma_one_to_device(display, parse::cc_bytes(channel, number, value));
    }
}

/// What is framed as a Lighting SysEx is a SysEx.
proof fn lemma_no_lighting(bytes: Seq<u8>)
    ensures
        parse::meaning(bytes) !is SysEx ==> !sysex_lighting::framed(bytes, MINI_MK3_BYTE),
{
    if sysex_lighting::framed(bytes, MINI_MK3_BYTE) {
        assert(bytes.take(7)[0] == 0xF0);
        assert(bytes[0] == 0xF0);
    }
}

/// While the device shows a page, whatever the host sends in note-offset mode
/// leaves it showing that page.
pub proof fn law_host_writes_keep_the_display(s: ProxyState, bytes: Seq<u8>, display: Cells)
    requires
        model::valid(s),
        s.pages > 0,
        s.mode == Mode::NoteOffset,
        s.note_offset >= 1,
        is_midi_message(bytes),
        shows_the_page(s, display),
    ensures
        shows_the_page(
            model::host_in(s, bytes).0,
            lit_by_sent(display, model::host_in(s, bytes).1),
        ),
{
    let (after, sent) = model::host_in(s, bytes);
    laws::law_host_input_keeps_the_proxy_valid(s, bytes);
    lemma_same_navigation(s, after);
    lemma_one_to_device(display, bytes);
    lemma_no_lighting(bytes);
    assert forall|key: CacheKey| #[trigger] is_paged_led(after, key) implies shows(
        after,
        lit_by_sent(display, sent),
        key,
    ) by {
        assert(is_paged_led(s, key));
        match parse::meaning(bytes) {
            MsgView::NoteOn { channel, note, velocity } => {
                lemma_host_note_keeps_the_display(
                    s,
                    channel,
                    note,
                    velocity,
                    true,
                    display,
                    key,
                );
            },
            MsgView::NoteOff { channel, note, velocity } => {
                lemma_host_note_keeps_the_display(
                    s,
                    channel,
                    note,
                    velocity,
                    false,
                    display,
                    key,
                );
            },
            MsgView::Cc { .. } => {
                lemma_host_cc_keeps_the_display(s, bytes, display, key);
            },
            MsgView::SysEx(_) => {
                if let Ok(leds) = sysex_lighting::lighting_entries(bytes, MINI_MK3_BYTE) {
                    let shown = model::leds_shown(s, leds);
                    lemma_leds_change_together(s, leds, display, key);
                    lemma_lighting_lights(display, shown);
                    lemma_sent_to_device(display, model::lighting(shown));
                }
            },
            MsgView::Other(_) => {},
        }
        lemma_shows_on(s, after, display, lit_by_sent(display, sent), key);
    }
}

// -- Input of the device ----------------------------------------------------

/// The light-on of a next/previous button lights no LED of a page.
proof fn lemma_flash_keeps_the_display(s: ProxyState, display: Cells, button: ButtonRef)
    requires
        is_midi_state(s),
        is_plain_device(s.device),
        model::is_navigation(s, button),
    ensures
        forall|key: CacheKey| #[trigger]
            is_paged_led(s, key) ==> at(lit_by_sent(display, model::flash(s, button)), key) == at(
                display,
                key,
            ),
{
    let flash = model::flash(s, button);
    let on = (s.device.paint)(button, model::cycle_flash_color(s));
    assert(flash.drop_last().drop_last() =~= seq![]);
    assert(flash.drop_last().last() == Sent::ToDevice(on));
    assert(lit_by_sent(display, flash.drop_last().drop_last()) == display);
    assert(lit_by_sent(display, flash.drop_last()) == lit_by(display, on));
    assert(lit_by_sent(display, flash) == lit_by(display, on));
    assert forall|key: CacheKey| #[trigger] is_paged_led(s, key) implies at(
        lit_by_sent(display, flash),
        key,
    ) == at(display, key) by {
        lemma_painting_sets_the_button(
            display,
            s.device,
            button,
            model::cycle_flash_color(s),
            key,
        );
    }
}

/// A state that differs in the pages that are persistent and previewed shows the
/// page all the same.
proof fn lemma_moved_shows(s: ProxyState, moved: ProxyState, before: Cells, after: Cells)
    requires
        laws::same_setup(s, moved),
        s.led_cache == moved.led_cache,
        s.current_page == moved.current_page,
        shows_the_page(s, before),
        forall|key: CacheKey| #[trigger]
            is_paged_led(s, key) ==> at(after, key) == at(before, key),
    ensures
        shows_the_page(moved, after),
{
    lemma_same_navigation(s, moved);
    assert forall|key: CacheKey| #[trigger] is_paged_led(moved, key) implies shows(
        moved,
        after,
        key,
    ) by {
        assert(is_paged_led(s, key));
        assert(shows(s, before, key));
    }
}

proof fn lemma_moving_shows(s: ProxyState, moved: ProxyState, page: u8, display: Cells)
    requires
        model::valid(moved),
        laws::same_setup(s, moved),
        s.led_cache == moved.led_cache,
        is_midi_state(s),
        is_plain_device(s.device),
        page < s.pages,
    ensures
        shows_the_page(
            model::page_changed(moved, page).0,
            lit_by_sent(display, model::page_changed(moved, page).1),
        ),
{
    lemma_same_navigation(s, moved);
    law_page_change_shows_the_page(moved, page, display);
}

proof fn lemma_setting_the_page_shows(s: ProxyState, page: u8, display: Cells)
    requires
        model::valid(s),
        is_midi_state(s),
        is_plain_device(s.device),
        shows_the_page(s, display),
    ensures
        shows_the_page(
            model::persistent_page_set(s, page).0,
            lit_by_sent(display, model::persistent_page_set(s, page).1),
        ),
{
    if page < s.pages {
        let moved = ProxyState { persistent_page: page, ..s };
        if s.held_preview is Some {
            lemma_moved_shows(s, moved, display, display);
        } else {
            lemma_moving_shows(s, moved, page, display);
        }
    }
}

proof fn lemma_press_shows(s: ProxyState, button: ButtonRef, display: Cells)
    requires
        model::valid(s),
        is_midi_state(s),
        is_plain_device(s.device),
        model::is_navigation(s, button),
        shows_the_page(s, display),
    ensures
        shows_the_page(
            model::press(s, button).0,
            lit_by_sent(display, model::press(s, button).1),
        ),
{
    if model::is_cycle_button(s, button) {
        let forward = s.next_page_button == Some(button);
        let flash = model::flash(s, button);
        let flashed = lit_by_sent(display, flash);
        lemma_flash_keeps_the_display(s, display, button);
        lemma_moved_shows(s, s, display, flashed);
        lemma_sent_in_turn(display, flash, model::cycled(s, forward).1);
        lemma_setting_the_page_shows(s, model::neighbour(s, forward), flashed);
    } else if let Some(pb) = model::page_button(s, button) {
        laws::lemma_slot_is_for_the_button(s.page_buttons, button, 0);
        if pb.page < s.pages {
            if pb.hold {
                let entered = ProxyState {
                    held_preview: Some(pb.page),
                    held_preview_button: Some(pb.button),
                    ..s
                };
                lemma_moving_shows(s, entered, pb.page, display);
            } else {
                lemma_setting_the_page_shows(s, pb.page, display);
            }
        }
    }
}

proof fn lemma_release_shows(s: ProxyState, button: ButtonRef, display: Cells)
    requires
        model::valid(s),
        s.pages > 0,
        is_midi_state(s),
        is_plain_device(s.device),
        shows_the_page(s, display),
    ensures
        shows_the_page(
            model::release(s, button).0,
            lit_by_sent(display, model::release(s, button).1),
        ),
{
    let left = ProxyState { held_preview: None, held_preview_button: None, ..s };
    lemma_moving_shows(s, left, s.persistent_page, display);
}

/// While the device shows a page, whatever it sends leaves it showing the page
/// that is then shown.
pub proof fn law_device_input_keeps_the_display(s: ProxyState, bytes: Seq<u8>, display: Cells)
    requires
        model::valid(s),
        s.pages > 0,
        is_midi_state(s),
        is_plain_device(s.device),
        shows_the_page(s, display),
    ensures
        shows_the_page(
            model::device_in(s, bytes).0,
            lit_by_sent(display, model::device_in(s, bytes).1),
        ),
{
    let (after, sent) = model::device_in(s, bytes);
    if laws::button_of(bytes) matches Some(button) && model::is_navigation(s, button) {
        let button = laws::button_of(bytes).unwrap();
        lemma_press_shows(s, button, display);
        lemma_release_shows(s, button, display);
    } else {
        lemma_to_host_lights_nothing(s, bytes, display);
        lemma_moved_shows(s, after, display, display);
    }
}

proof fn lemma_to_host_lights_nothing(s: ProxyState, bytes: Seq<u8>, display: Cells)
    requires
        !(laws::button_of(bytes) matches Some(button) && model::is_navigation(s, button)),
    ensures
        lit_by_sent(display, model::device_in(s, bytes).1) == display,
{
    let sent = model::device_in(s, bytes).1;
    if sent.len() > 0 {
        assert(sent.len() == 1);
        assert(sent.drop_last() =~= seq![]);
        assert(lit_by_sent(display, sent.drop_last()) == display);
        assert(laws::is_for_host(sent.last()));
    }
}

/// The light-off of a next/previous button, which goes out late, lights no LED of
/// a page, whatever has happened since.
pub proof fn law_flash_leaves_no_trace(
    s: ProxyState,
    bytes: Seq<u8>,
    i: int,
    now: ProxyState,
    display: Cells,
)
    requires
        model::valid(s),
        is_midi_state(s),
        is_plain_device(s.device),
        0 <= i < model::device_in(s, bytes).1.len(),
        model::device_in(s, bytes).1[i] is DeviceDelayedSend,
        laws::same_setup(s, now),
        shows_the_page(now, display),
    ensures
        shows_the_page(
            now,
            lit_by(display, model::device_in(s, bytes).1[i]->DeviceDelayedSend_bytes),
        ),
{
    let sent = model::device_in(s, bytes).1;
    let late = sent[i]->DeviceDelayedSend_bytes;
    assert(laws::button_of(bytes) matches Some(button) && model::is_navigation(s, button)) by {
        if !(laws::button_of(bytes) matches Some(button) && model::is_navigation(s, button)) {
            assert(laws::is_for_host(sent[0]));
            assert(sent.len() == 1);
        }
    }
    let button = laws::button_of(bytes).unwrap();
    let flash = model::flash(s, button);
    lemma_only_flashes_are_late(s, button);
    let pressed = model::press(s, button).1;
    assert(sent == pressed || sent == model::release(s, button).1);
    assert(sent == pressed && model::is_cycle_button(s, button));
    if i >= 2 {
        assert(pressed.skip(2)[i - 2] == sent[i]);
    } else {
        assert(pressed.take(2)[i] == sent[i]);
    }
    assert(sent[i] == flash[1]);
    lemma_same_navigation(s, now);
    assert forall|key: CacheKey| #[trigger] is_paged_led(now, key) implies at(
        lit_by(display, late),
        key,
    ) == at(display, key) by {
        lemma_painting_sets_the_button(
            display,
            s.device,
            button,
            model::cycle_idle_color(s),
            key,
        );
    }
    lemma_moved_shows(now, now, display, lit_by(display, late));
}

/// Whether everything of a step goes out at once.
pub open spec fn nothing_late(sent: Seq<Sent>) -> bool {
    forall|i: int| 0 <= i < sent.len() ==> (#[trigger] sent[i]) !is DeviceDelayedSend
}

proof fn lemma_page_change_is_not_late(s: ProxyState, page: u8)
    ensures
        nothing_late(model::page_changed(s, page).1),
{
    let sent = model::page_changed(s, page).1;
    let offs = model::note_offs(s, 256);
    laws::lemma_note_offs_are_for_held_pads(s, 256);
    assert forall|i: int| 0 <= i < sent.len() implies (#[trigger] sent[i])
        !is DeviceDelayedSend by {
        if i < offs.len() {
            assert(laws::is_held_note_off(s, offs[i]));
        }
    }
}

/// Of what a navigation button sends, only the end of a flash is late.
proof fn lemma_only_flashes_are_late(s: ProxyState, button: ButtonRef)
    ensures
        nothing_late(model::release(s, button).1),
        !model::is_cycle_button(s, button) ==> nothing_late(model::press(s, button).1),
        model::is_cycle_button(s, button) ==> {
            let sent = model::press(s, button).1;
            &&& sent.take(2) == model::flash(s, button)
            &&& nothing_late(sent.skip(2))
        },
{
    let left = ProxyState { held_preview: None, held_preview_button: None, ..s };
    lemma_page_change_is_not_late(left, s.persistent_page);
    let forward = s.next_page_button == Some(button);
    let cycled = model::cycled(s, forward).1;
    let neighbour = model::neighbour(s, forward);
    lemma_page_change_is_not_late(
        ProxyState { persistent_page: neighbour, ..s },
        neighbour,
    );
    if model::is_cycle_button(s, button) {
        let sent = model::press(s, button).1;
        assert(sent.take(2) =~= model::flash(s, button));
        assert(sent.skip(2) =~= cycled);
    } else if let Some(pb) = model::page_button(s, button) {
        lemma_page_change_is_not_late(
            ProxyState { held_preview: Some(pb.page), held_preview_button: Some(pb.button), ..s },
            pb.page,
        );
        lemma_page_change_is_not_late(ProxyState { persistent_page: pb.page, ..s }, pb.page);
    }
}

// -- MIDI in, MIDI kept -----------------------------------------------------

proof fn lemma_cached_stays_midi(s: ProxyState, page: int, key: CacheKey, cell: LedCell)
    requires
        is_midi_state(s),
        is_midi_cell(key, cell),
    ensures
        is_midi_state(model::cached(s, page, key, cell)),
{
    let after = model::cached(s, page, key, cell);
    assert(after.led_cache.len() == s.led_cache.len());
    assert forall|p: int| 0 <= p < after.led_cache.len() implies is_midi_page(
        #[trigger] after.led_cache[p],
    ) by {
        assert(is_midi_page(s.led_cache[p]));
    }
    assert forall|button: ButtonRef| #[trigger] model::is_navigation(after, button) implies button.spec_number()
        < 128 by {
        assert(model::is_navigation(s, button));
    }
}

proof fn lemma_leds_stay_midi(s: ProxyState, page: u8, leds: Seq<LedSpec>)
    requires
        is_midi_state(s),
    ensures
        is_midi_state(model::leds_cached(s, leds)),
        is_midi_state(model::port_leds_cached(s, page, leds)),
    decreases leds.len(),
{
    if leds.len() > 0 {
        let led = leds.last();
        let cell = LedCell::SysexColor(led.color);
        lemma_leds_stay_midi(s, page, leds.drop_last());
        lemma_cached_stays_midi(
            model::leds_cached(s, leds.drop_last()),
            model::led_page(s, led),
            CacheKey::Note(led.led_index % s.note_offset),
            cell,
        );
        let kept = model::port_leds_cached(s, page, leds.drop_last());
        lemma_cached_stays_midi(kept, 0, CacheKey::Note(led.led_index), cell);
        lemma_cached_stays_midi(kept, page as int, CacheKey::Note(led.led_index), cell);
    }
}

/// As long as the host sends data in MIDI's range, all that is kept of it can be
/// sent again as it is.
pub proof fn law_midi_is_kept_as_midi(s: ProxyState, page: u8, bytes: Seq<u8>)
    requires
        is_midi_state(s),
        is_midi_message(bytes),
        s.note_offset >= 1,
    ensures
        is_midi_state(model::host_in(s, bytes).0),
        is_midi_state(model::host_in_per_port(s, page, bytes).0),
{
    if let Ok(leds) = sysex_lighting::lighting_entries(bytes, MINI_MK3_BYTE) {
        lemma_leds_stay_midi(s, page, leds);
    }
    match parse::meaning(bytes) {
        MsgView::NoteOn { channel, note, velocity } => {
            lemma_note_stays_midi(s, page, note, model::note_cell(channel, velocity, true));
        },
        MsgView::NoteOff { channel, note, velocity } => {
            lemma_note_stays_midi(s, page, note, model::note_cell(channel, velocity, false));
        },
        MsgView::Cc { channel, controller, value } => {
            let cell = LedCell::Cc { channel, value };
            let number = controller % s.note_offset;
            lemma_number_is_smaller(s, controller);
            lemma_cached_stays_midi(s, 0, CacheKey::Cc(controller), cell);
            lemma_cached_stays_midi(s, page as int, CacheKey::Cc(controller), cell);
            lemma_cached_stays_midi(s, 0, CacheKey::Cc(number), cell);
            lemma_cached_stays_midi(
                s,
                (controller / s.note_offset) as int,
                CacheKey::Cc(number),
                cell,
            );
        },
        _ => {},
    }
}

/// What the device sends changes nothing of what is kept of the host's writes.
pub proof fn law_device_input_keeps_the_leds(s: ProxyState, bytes: Seq<u8>)
    ensures
        model::device_in(s, bytes).0.led_cache == s.led_cache,
{
}

proof fn lemma_note_stays_midi(s: ProxyState, page: u8, note: u8, cell: LedCell)
    requires
        is_midi_state(s),
        s.note_offset >= 1,
        note < 128,
        is_midi_cell(CacheKey::Note(note), cell),
        cell is NoteOn,
    ensures
        is_midi_state(model::cached(s, 0, CacheKey::Note(note), cell)),
        is_midi_state(model::cached(s, page as int, CacheKey::Note(note), cell)),
        is_midi_state(model::cached(s, 0, CacheKey::Note(note % s.note_offset), cell)),
        is_midi_state(
            model::cached(
                s,
                (note / s.note_offset) as int,
                CacheKey::Note(note % s.note_offset),
                cell,
            ),
        ),
{
    let number = note % s.note_offset;
    lemma_number_is_smaller(s, note);
    lemma_cached_stays_midi(s, 0, CacheKey::Note(note), cell);
    lemma_cached_stays_midi(s, page as int, CacheKey::Note(note), cell);
    lemma_cached_stays_midi(s, 0, CacheKey::Note(number), cell);
    lemma_cached_stays_midi(s, (note / s.note_offset) as int, CacheKey::Note(number), cell);
}

} // verus!
