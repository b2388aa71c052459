//! What holds of the proxy as a whole.

use vstd::prelude::*;

use crate::config::{self, ButtonRef, DeviceConfig, Mode, ResolvedPageButton};
use crate::midi::any_device::AnyDevice;
use crate::midi::apc_mini::ApcMini;
use crate::midi::device::Device;
use crate::midi::mini_mk3::{self, MiniMk3};
use crate::midi::parse::{self, MsgView};
use crate::midi::sysex_lighting::{self, LedSpec, MINI_MK3_BYTE};
use crate::proxy::led_cache::{CacheKey, LedCell};
use crate::proxy::model::{self, ProxyState, Sent};
use crate::proxy;

verus! {

// -- The state stays valid --------------------------------------------------

/// What is set up once: everything but pages shown, pads held and LEDs known.
pub open spec fn same_setup(a: ProxyState, b: ProxyState) -> bool {
    &&& a.mode == b.mode
    &&& a.pages == b.pages
    &&& a.note_offset == b.note_offset
    &&& a.next_page_button == b.next_page_button
    &&& a.previous_page_button == b.previous_page_button
    &&& a.page_buttons == b.page_buttons
    &&& a.global_buttons == b.global_buttons
    &&& a.colors == b.colors
    &&& a.device == b.device
    &&& a.led_cache.len() == b.led_cache.len()
}

/// A step that leaves the state valid, the setup as it was, and the page shown
/// in step with the preview.
pub open spec fn keeps_valid(s: ProxyState, after: ProxyState) -> bool {
    &&& model::valid(after)
    &&& same_setup(s, after)
    &&& model::numbers_fit(s) ==> model::numbers_fit(after)
    &&& model::in_sync(s) ==> model::in_sync(after)
}

/// The entry that is found for a button is for that button.
pub proof fn lemma_slot_is_for_the_button(
    entries: Seq<ResolvedPageButton>,
    button: ButtonRef,
    i: int,
)
    ensures
        model::slot_from(entries, button, i) matches Some(pb) ==> pb.button == button,
    decreases entries.len() - i,
{
    if 0 <= i < entries.len() {
        lemma_slot_is_for_the_button(entries, button, i + 1);
    }
}

/// Showing another page keeps the proxy valid.
pub proof fn law_page_change_keeps_the_proxy_valid(s: ProxyState, page: u8)
    requires
        model::valid(s),
    ensures
        model::valid(model::page_changed(s, page).0),
        same_setup(s, model::page_changed(s, page).0),
        model::numbers_fit(s) ==> model::numbers_fit(model::page_changed(s, page).0),
{
}

/// Moving the persistent page keeps the proxy valid, and the page shown in step.
pub proof fn law_setting_the_page_keeps_the_proxy_valid(s: ProxyState, page: u8)
    requires
        model::valid(s),
    ensures
        keeps_valid(s, model::persistent_page_set(s, page).0),
{
    if page < s.pages {
        let moved = ProxyState { persistent_page: page, ..s };
        assert(model::valid(moved));
        law_page_change_keeps_the_proxy_valid(moved, page);
    }
}

proof fn lemma_press_keeps_valid(s: ProxyState, button: ButtonRef)
    requires
        model::valid(s),
    ensures
        keeps_valid(s, model::press(s, button).0),
{
    if model::is_cycle_button(s, button) {
        law_setting_the_page_keeps_the_proxy_valid(s, model::neighbour(s, true));
        law_setting_the_page_keeps_the_proxy_valid(s, model::neighbour(s, false));
    } else if let Some(pb) = model::page_button(s, button) {
        lemma_slot_is_for_the_button(s.page_buttons, button, 0);
        law_setting_the_page_keeps_the_proxy_valid(s, pb.page);
        if pb.hold && pb.page < s.pages {
            let entered = ProxyState {
                held_preview: Some(pb.page),
                held_preview_button: Some(pb.button),
                ..s
            };
            assert(model::valid(entered));
            law_page_change_keeps_the_proxy_valid(entered, pb.page);
        }
    }
}

proof fn lemma_release_keeps_valid(s: ProxyState, button: ButtonRef)
    requires
        model::valid(s),
    ensures
        keeps_valid(s, model::release(s, button).0),
{
    let left = ProxyState { held_preview: None, held_preview_button: None, ..s };
    assert(model::valid(left));
    law_page_change_keeps_the_proxy_valid(left, s.persistent_page);
}

/// Where every pad has a number on every page, every message of the device and
/// every page change finds the numbers that it asks for.
pub proof fn law_fitting_numbers_suffice(s: ProxyState, bytes: Seq<u8>, page: u8)
    requires
        model::valid(s),
        model::numbers_fit(s),
    ensures
        model::device_in_fits(s, bytes),
        model::page_change_fits(s, page),
        model::setting_page_fits(s, page),
        s.mode == Mode::NoteOffset ==> s.note_offset >= 1,
{
    assert forall|n: u8|
        (s.device.grid_note)(n) || (s.device.grid_cc)(n) implies #[trigger] model::number_fits(
        s,
        n,
        s.current_page,
    ) by {
        if s.mode == Mode::NoteOffset {
            let shown = s.current_page as int;
            let last = s.pages - 1;
            let offset = s.note_offset as int;
            if s.pages > 0 {
                assert(shown * offset <= last * offset) by (nonlinear_arith)
                    requires
                        shown <= last,
                        offset >= 0,
                ;
            } else {
                assert(shown * offset == 0) by (nonlinear_arith)
                    requires
                        shown == 0,
                ;
            }
        }
    }
    assert(model::held_fit(s)) by {
        assert forall|n: u8| #[trigger] s.held.contains_key(n) implies model::number_fits(
            s,
            n,
            s.current_page,
        ) by {
            assert(model::is_pad(s, n));
        }
    }
}

/// Whatever the device sends, the proxy stays valid and its setup as it was, and
/// the page shown stays the one previewed or else the persistent one.
pub proof fn law_device_input_keeps_the_proxy_valid(s: ProxyState, bytes: Seq<u8>)
    requires
        model::valid(s),
    ensures
        keeps_valid(s, model::device_in(s, bytes).0),
{
    match parse::meaning(bytes) {
        MsgView::NoteOn { channel, note, velocity } => {
            let button = ButtonRef::Note { number: note };
            lemma_press_keeps_valid(s, button);
        },
        MsgView::NoteOff { channel, note, velocity } => {
            let button = ButtonRef::Note { number: note };
            lemma_release_keeps_valid(s, button);
        },
        MsgView::Cc { channel, controller, value } => {
            let button = ButtonRef::Cc { number: controller };
            lemma_press_keeps_valid(s, button);
            lemma_release_keeps_valid(s, button);
        },
        _ => {},
    }
}

/// Keeping a cell of the right kind keeps the proxy valid, and changes nothing
/// but that cell.
proof fn lemma_cached_keeps_valid(s: ProxyState, page: int, key: CacheKey, cell: LedCell)
    requires
        model::valid(s),
        model::paired(key, cell),
    ensures
        keeps_valid(s, model::cached(s, page, key, cell)),
        model::cached(s, page, key, cell).current_page == s.current_page,
{
    let after = model::cached(s, page, key, cell);
    assert forall|p: int, k: CacheKey|
        0 <= p < after.led_cache.len()
            && #[trigger] after.led_cache[p].contains_key(k) implies model::paired(
        k,
        after.led_cache[p][k],
    ) by {
        if !(p == page && k == key) {
            assert(s.led_cache[p].contains_key(k));
        }
    }
}

proof fn lemma_leds_cached_keeps_valid(s: ProxyState, leds: Seq<LedSpec>)
    requires
        model::valid(s),
    ensures
        keeps_valid(s, model::leds_cached(s, leds)),
    decreases leds.len(),
{
    if leds.len() > 0 {
        let led = leds.last();
        lemma_leds_cached_keeps_valid(s, leds.drop_last());
        lemma_cached_keeps_valid(
            model::leds_cached(s, leds.drop_last()),
            model::led_page(s, led),
            CacheKey::Note(led.led_index % s.note_offset),
            LedCell::SysexColor(led.color),
        );
    }
}

proof fn lemma_port_leds_cached_keeps_valid(s: ProxyState, page: u8, leds: Seq<LedSpec>)
    requires
        model::valid(s),
    ensures
        keeps_valid(s, model::port_leds_cached(s, page, leds)),
    decreases leds.len(),
{
    if leds.len() > 0 {
        let led = leds.last();
        lemma_port_leds_cached_keeps_valid(s, page, leds.drop_last());
        lemma_cached_keeps_valid(
            model::port_leds_cached(s, page, leds.drop_last()),
            if model::is_global(s, ButtonRef::Note { number: led.led_index }) {
                0
            } else {
                page as int
            },
            CacheKey::Note(led.led_index),
            LedCell::SysexColor(led.color),
        );
    }
}

/// Whatever the host sends in note-offset mode, the proxy stays valid and its
/// setup as it was.
pub proof fn law_host_input_keeps_the_proxy_valid(s: ProxyState, bytes: Seq<u8>)
    requires
        model::valid(s),
    ensures
        keeps_valid(s, model::host_in(s, bytes).0),
{
    if sysex_lighting::framed(bytes, MINI_MK3_BYTE) {
        if let Ok(leds) = sysex_lighting::lighting_entries(bytes, MINI_MK3_BYTE) {
            lemma_leds_cached_keeps_valid(s, leds);
        }
    } else {
        match parse::meaning(bytes) {
            MsgView::NoteOn { channel, note, velocity } => {
                lemma_host_note_keeps_valid(s, channel, note, velocity, true);
            },
            MsgView::NoteOff { channel, note, velocity } => {
                lemma_host_note_keeps_valid(s, channel, note, velocity, false);
            },
            MsgView::Cc { channel, controller, value } => {
                let cell = LedCell::Cc { channel, value };
                let number = controller % s.note_offset;
                lemma_cached_keeps_valid(s, 0, CacheKey::Cc(controller), cell);
                lemma_cached_keeps_valid(s, 0, CacheKey::Cc(number), cell);
                lemma_cached_keeps_valid(
                    s,
                    (controller / s.note_offset) as int,
                    CacheKey::Cc(number),
                    cell,
                );
            },
            _ => {},
        }
    }
}

proof fn lemma_host_note_keeps_valid(
    s: ProxyState,
    channel: u8,
    note: u8,
    velocity: u8,
    is_on: bool,
)
    requires
        model::valid(s),
    ensures
        keeps_valid(s, model::host_note(s, channel, note, velocity, is_on).0),
{
    let cell = model::note_cell(channel, velocity, is_on);
    lemma_cached_keeps_valid(s, 0, CacheKey::Note(note), cell);
    lemma_cached_keeps_valid(s, 0, CacheKey::Note(note % s.note_offset), cell);
    lemma_cached_keeps_valid(
        s,
        (note / s.note_offset) as int,
        CacheKey::Note(note % s.note_offset),
        cell,
    );
}

/// Whatever the host sends on the port of a page, the proxy stays valid and its
/// setup as it was.
pub proof fn law_port_input_keeps_the_proxy_valid(s: ProxyState, page: u8, bytes: Seq<u8>)
    requires
        model::valid(s),
    ensures
        keeps_valid(s, model::host_in_per_port(s, page, bytes).0),
{
    match parse::meaning(bytes) {
        MsgView::NoteOn { channel, note, velocity } => {
            let cell = model::note_cell(channel, velocity, true);
            lemma_cached_keeps_valid(s, 0, CacheKey::Note(note), cell);
            lemma_cached_keeps_valid(s, page as int, CacheKey::Note(note), cell);
        },
        MsgView::NoteOff { channel, note, velocity } => {
            let cell = model::note_cell(channel, velocity, false);
            lemma_cached_keeps_valid(s, 0, CacheKey::Note(note), cell);
            lemma_cached_keeps_valid(s, page as int, CacheKey::Note(note), cell);
        },
        MsgView::Cc { channel, controller, value } => {
            let cell = LedCell::Cc { channel, value };
            lemma_cached_keeps_valid(s, 0, CacheKey::Cc(controller), cell);
            lemma_cached_keeps_valid(s, page as int, CacheKey::Cc(controller), cell);
        },
        MsgView::SysEx(_) => {
            if let Ok(leds) = sysex_lighting::lighting_entries(bytes, MINI_MK3_BYTE) {
                lemma_port_leds_cached_keeps_valid(s, page, leds);
            }
        },
        _ => {},
    }
}

// -- LEDs come back ---------------------------------------------------------

/// What is in one of two lists is in both together.
pub proof fn lemma_in_either<A>(a: Seq<A>, b: Seq<A>, x: A)
    requires
        a.contains(x) || b.contains(x),
    ensures
        (a + b).contains(x),
{
    if a.contains(x) {
        let i = choose|i: int| 0 <= i < a.len() && a[i] == x;
        assert((a + b)[i] == x);
    } else {
        let i = choose|i: int| 0 <= i < b.len() && b[i] == x;
        assert((a + b)[a.len() + i] == x);
    }
}

proof fn lemma_message_is_replayed(cells: model::Cells, keys: Seq<CacheKey>, key: CacheKey)
    requires
        keys.contains(key),
        cells.contains_key(key),
        model::cell_message(key, cells[key]).len() > 0,
    ensures
        model::messages_of(cells, keys).contains(model::cell_message(key, cells[key])[0]),
    decreases keys.len(),
{
    let message = model::cell_message(key, cells[key]);
    let before = model::messages_of(cells, keys.drop_last());
    if keys.last() == key {
        assert(message.contains(message[0]));
        lemma_in_either(before, message, message[0]);
    } else {
        let i = choose|i: int| 0 <= i < keys.len() && keys[i] == key;
        assert(keys.drop_last()[i] == key);
        lemma_message_is_replayed(cells, keys.drop_last(), key);
        if cells.contains_key(keys.last()) {
            lemma_in_either(
                before,
                model::cell_message(keys.last(), cells[keys.last()]),
                message[0],
            );
        }
    }
}

proof fn lemma_led_is_replayed(cells: model::Cells, keys: Seq<CacheKey>, key: CacheKey)
    requires
        keys.contains(key),
        cells.contains_key(key),
        model::cell_led(key, cells[key]).len() > 0,
    ensures
        model::leds_of(cells, keys).contains(model::cell_led(key, cells[key])[0]),
    decreases keys.len(),
{
    let led = model::cell_led(key, cells[key]);
    let before = model::leds_of(cells, keys.drop_last());
    if keys.last() == key {
        assert(led.contains(led[0]));
        lemma_in_either(before, led, led[0]);
    } else {
        let i = choose|i: int| 0 <= i < keys.len() && keys[i] == key;
        assert(keys.drop_last()[i] == key);
        lemma_led_is_replayed(cells, keys.drop_last(), key);
        if cells.contains_key(keys.last()) {
            lemma_in_either(before, model::cell_led(keys.last(), cells[keys.last()]), led[0]);
        }
    }
}

pub proof fn lemma_every_key_is_there(key: CacheKey)
    ensures
        model::all_keys().contains(key),
{
    match key {
        CacheKey::Note(n) => {
            assert(model::all_keys()[n as int] == key);
        },
        CacheKey::Cc(c) => {
            assert(model::all_keys()[256 + c as int] == key);
        },
    }
}

proof fn lemma_sent_to_device(messages: Seq<Seq<u8>>, message: Seq<u8>)
    requires
        messages.contains(message),
    ensures
        model::to_device(messages).contains(Sent::ToDevice(message)),
{
    let i = choose|i: int| 0 <= i < messages.len() && messages[i] == message;
    assert(model::to_device(messages)[i] == Sent::ToDevice(message));
}

/// Whether a list of messages restores an LED: it holds the message of its own,
/// or one Lighting SysEx that has its entry.
pub open spec fn restores(messages: Seq<Seq<u8>>, key: CacheKey, cell: LedCell) -> bool {
    ||| model::cell_message(key, cell).len() == 1 && messages.contains(
        model::cell_message(key, cell)[0],
    )
    ||| model::cell_led(key, cell).len() == 1 && exists|leds: Seq<LedSpec>|
        leds.contains(model::cell_led(key, cell)[0]) && messages.contains(
            #[trigger] sysex_lighting::lighting_bytes(MINI_MK3_BYTE, leds),
        )
}

proof fn lemma_replay_restores(cells: model::Cells, keys: Seq<CacheKey>, key: CacheKey)
    requires
        keys.contains(key),
        cells.contains_key(key),
        model::paired(key, cells[key]),
    ensures
        restores(model::replayed(cells, keys), key, cells[key]),
{
    let messages = model::messages_of(cells, keys);
    let leds = model::leds_of(cells, keys);
    if model::cell_message(key, cells[key]).len() > 0 {
        lemma_message_is_replayed(cells, keys, key);
        lemma_in_either(
            messages,
            model::lighting(leds),
            model::cell_message(key, cells[key])[0],
        );
    } else {
        lemma_led_is_replayed(cells, keys, key);
        let bytes = sysex_lighting::lighting_bytes(MINI_MK3_BYTE, leds);
        assert(leds.len() > 0);
        assert(model::lighting(leds)[0] == bytes);
        assert(model::lighting(leds).contains(bytes));
        lemma_in_either(messages, model::lighting(leds), bytes);
    }
}

proof fn lemma_restores_among_more(
    a: Seq<Seq<u8>>,
    b: Seq<Seq<u8>>,
    key: CacheKey,
    cell: LedCell,
)
    requires
        restores(a, key, cell) || restores(b, key, cell),
    ensures
        restores(a + b, key, cell),
{
    let part = if restores(a, key, cell) {
        a
    } else {
        b
    };
    if model::cell_message(key, cell).len() == 1 && part.contains(
        model::cell_message(key, cell)[0],
    ) {
        lemma_in_either(a, b, model::cell_message(key, cell)[0]);
    } else {
        let leds = choose|leds: Seq<LedSpec>|
            leds.contains(model::cell_led(key, cell)[0]) && part.contains(
                #[trigger] sysex_lighting::lighting_bytes(MINI_MK3_BYTE, leds),
            );
        lemma_in_either(a, b, sysex_lighting::lighting_bytes(MINI_MK3_BYTE, leds));
    }
}

/// Turning to a page restores every LED that the host has written there, without
/// the host sending anything.
pub proof fn law_page_change_restores_every_led(s: ProxyState, page: u8, key: CacheKey)
    requires
        model::valid(s),
        page < s.pages,
        s.led_cache[page as int].contains_key(key),
    ensures
        ({
            let after = model::page_changed(s, page);
            &&& after.1 == model::note_offs(s, 256) + model::to_device(model::redraw(after.0))
            &&& restores(model::redraw(after.0), key, s.led_cache[page as int][key])
        }),
{
    let after = model::page_changed(s, page).0;
    let cells = s.led_cache[page as int];
    let replayed = model::replayed(cells, model::all_keys());
    let painted = crate::midi::device::painted(after.device, model::indicators(after));
    let overlay = if page != 0 {
        model::replayed(s.led_cache[0], model::global_keys(s))
    } else {
        seq![]
    };
    lemma_every_key_is_there(key);
    lemma_replay_restores(cells, model::all_keys(), key);
    lemma_restores_among_more(after.device.clear, replayed, key, cells[key]);
    lemma_restores_among_more(after.device.clear + replayed, painted, key, cells[key]);
    lemma_restores_among_more(after.device.clear + replayed + painted, overlay, key, cells[key]);
}

/// Turning to the page that is shown changes nothing in the proxy, and brings
/// the device to the same LEDs once more.
pub proof fn law_page_change_is_idempotent(s: ProxyState, page: u8)
    requires
        model::valid(s),
        page < s.pages,
    ensures
        ({
            let once = model::page_changed(s, page);
            let twice = model::page_changed(once.0, page);
            &&& twice.0 == once.0
            &&& once.1 == model::note_offs(s, 256) + model::to_device(model::redraw(once.0))
            &&& twice.1 == model::note_offs(once.0, 256) + model::to_device(model::redraw(once.0))
        }),
{
    let once = model::page_changed(s, page).0;
    assert(model::turned_to(once, page).suppressed =~= once.suppressed);
    assert(model::turned_to(once, page) =~= once);
}

/// A global button's LED is as page zero has it on every page: the last messages
/// of a page change to another page restore it.
pub proof fn law_global_leds_survive_page_changes(s: ProxyState, page: u8, button: ButtonRef)
    requires
        model::valid(s),
        0 < page < s.pages,
        model::is_global(s, button),
        s.led_cache[0].contains_key(crate::proxy::led_cache::key_of(button)),
    ensures
        ({
            let key = crate::proxy::led_cache::key_of(button);
            let redraw = model::redraw(model::page_changed(s, page).0);
            let overlay = model::replayed(s.led_cache[0], model::global_keys(s));
            &&& overlay.len() <= redraw.len()
            &&& redraw.skip(redraw.len() - overlay.len()) == overlay
            &&& restores(overlay, key, s.led_cache[0][key])
        }),
{
    let key = crate::proxy::led_cache::key_of(button);
    let redraw = model::redraw(model::page_changed(s, page).0);
    let overlay = model::replayed(s.led_cache[0], model::global_keys(s));
    assert(redraw.skip(redraw.len() - overlay.len()) =~= overlay);
    let i = choose|i: int| 0 <= i < s.global_buttons.len() && s.global_buttons[i] == button;
    assert(model::global_keys(s)[i] == key);
    lemma_replay_restores(s.led_cache[0], model::global_keys(s), key);
}

// -- Writes of the host -----------------------------------------------------

/// A note that the host writes on the port of a page, shown or not, is on the
/// device once that page is turned to.
pub proof fn law_port_note_is_shown_on_its_page(
    s: ProxyState,
    page: u8,
    channel: u8,
    note: u8,
    velocity: u8,
)
    requires
        model::valid(s),
        page < s.pages,
        model::is_pad(s, note),
        channel < 16,
        note < 128,
        0 < velocity < 128,
    ensures
        ({
            let bytes = parse::note_on_bytes(channel, note, velocity);
            let written = model::host_in_per_port(s, page, bytes).0;
            model::page_changed(written, page).1.contains(Sent::ToDevice(bytes))
        }),
{
    let bytes = parse::note_on_bytes(channel, note, velocity);
    let written = model::host_in_per_port(s, page, bytes).0;
    let key = CacheKey::Note(note);
    let cell = LedCell::NoteOn { channel, velocity };
    assert(parse::meaning(bytes) == MsgView::NoteOn { channel, note, velocity });
    law_port_input_keeps_the_proxy_valid(s, page, bytes);
    assert(written.led_cache[page as int][key] == cell);
    law_page_change_restores_every_led(written, page, key);
    let after = model::page_changed(written, page);
    assert(model::cell_message(key, cell)[0] == bytes);
    assert(model::cell_led(key, cell).len() == 0);
    lemma_sent_to_device(model::redraw(after.0), bytes);
    lemma_in_either(
        model::note_offs(written, 256),
        model::to_device(model::redraw(after.0)),
        Sent::ToDevice(bytes),
    );
}

/// A Control Change that the host writes on the port of a page, shown or not,
/// is on the device once that page is turned to, unless it is for a button that
/// the proxy lights itself.
pub proof fn law_port_cc_is_shown_on_its_page(
    s: ProxyState,
    page: u8,
    channel: u8,
    controller: u8,
    value: u8,
)
    requires
        model::valid(s),
        page < s.pages,
        !model::is_navigation(s, ButtonRef::Cc { number: controller }),
        !model::is_global(s, ButtonRef::Cc { number: controller }),
        channel < 16,
        controller < 128,
        value < 128,
    ensures
        ({
            let bytes = parse::cc_bytes(channel, controller, value);
            let written = model::host_in_per_port(s, page, bytes).0;
            model::page_changed(written, page).1.contains(Sent::ToDevice(bytes))
        }),
{
    let bytes = parse::cc_bytes(channel, controller, value);
    let written = model::host_in_per_port(s, page, bytes).0;
    let key = CacheKey::Cc(controller);
    let cell = LedCell::Cc { channel, value };
    assert(parse::meaning(bytes) == MsgView::Cc { channel, controller, value });
    law_port_input_keeps_the_proxy_valid(s, page, bytes);
    assert(written.led_cache[page as int][key] == cell);
    law_page_change_restores_every_led(written, page, key);
    let after = model::page_changed(written, page);
    assert(model::cell_message(key, cell)[0] == bytes);
    assert(model::cell_led(key, cell).len() == 0);
    lemma_sent_to_device(model::redraw(after.0), bytes);
    lemma_in_either(
        model::note_offs(written, 256),
        model::to_device(model::redraw(after.0)),
        Sent::ToDevice(bytes),
    );
}

/// An entry of a Lighting SysEx that no later entry of it overrides.
pub open spec fn is_last_word(leds: Seq<LedSpec>, i: int) -> bool {
    &&& 0 <= i < leds.len()
    &&& forall|j: int|
        i < j < leds.len() ==> (#[trigger] leds[j]).led_index != leds[i].led_index
}

proof fn lemma_port_led_is_kept(s: ProxyState, page: u8, leds: Seq<LedSpec>, i: int)
    requires
        page < s.led_cache.len(),
        is_last_word(leds, i),
        !model::is_global(s, ButtonRef::Note { number: leds[i].led_index }),
    ensures
        ({
            let kept = model::port_leds_cached(s, page, leds).led_cache;
            let key = CacheKey::Note(leds[i].led_index);
            &&& kept.len() == s.led_cache.len()
            &&& kept[page as int].contains_key(key)
            &&& kept[page as int][key] == LedCell::SysexColor(leds[i].color)
        }),
    decreases leds.len(),
{
    let before = leds.drop_last();
    if i == before.len() {
        lemma_port_leds_keep_the_pages(s, page, before);
    } else {
        assert forall|j: int| i < j < before.len() implies (#[trigger] before[j]).led_index
            != before[i].led_index by {
            assert(leds[j].led_index != leds[i].led_index);
        }
        lemma_port_led_is_kept(s, page, before, i);
        assert(leds[before.len() as int].led_index != leds[i].led_index);
    }
}

proof fn lemma_port_leds_keep_the_pages(s: ProxyState, page: u8, leds: Seq<LedSpec>)
    ensures
        model::port_leds_cached(s, page, leds).led_cache.len() == s.led_cache.len(),
    decreases leds.len(),
{
    if leds.len() > 0 {
        lemma_port_leds_keep_the_pages(s, page, leds.drop_last());
    }
}

/// What a Lighting SysEx on the port of a page, shown or not, says of an LED is
/// restored once that page is turned to.
pub proof fn law_port_lighting_is_shown_on_its_page(
    s: ProxyState,
    page: u8,
    bytes: Seq<u8>,
    leds: Seq<LedSpec>,
    i: int,
)
    requires
        model::valid(s),
        page < s.pages,
        sysex_lighting::lighting_entries(bytes, MINI_MK3_BYTE) == Ok::<
            Seq<LedSpec>,
            sysex_lighting::SysexError,
        >(leds),
        is_last_word(leds, i),
        !model::is_global(s, ButtonRef::Note { number: leds[i].led_index }),
    ensures
        ({
            let written = model::host_in_per_port(s, page, bytes).0;
            restores(
                model::redraw(model::page_changed(written, page).0),
                CacheKey::Note(leds[i].led_index),
                LedCell::SysexColor(leds[i].color),
            )
        }),
{
    assert(bytes[0] == 0xF0);
    assert(parse::meaning(bytes) is SysEx);
    let written = model::host_in_per_port(s, page, bytes).0;
    assert(written == model::port_leds_cached(s, page, leds));
    lemma_port_led_is_kept(s, page, leds, i);
    law_port_input_keeps_the_proxy_valid(s, page, bytes);
    law_page_change_restores_every_led(written, page, CacheKey::Note(leds[i].led_index));
}

pub proof fn lemma_leds_keep_the_pages(s: ProxyState, leds: Seq<LedSpec>)
    ensures
        model::leds_cached(s, leds).led_cache.len() == s.led_cache.len(),
    decreases leds.len(),
{
    if leds.len() > 0 {
        lemma_leds_keep_the_pages(s, leds.drop_last());
        let before = model::leds_cached(s, leds.drop_last());
        let led = leds.last();
        let key = CacheKey::Note(led.led_index % s.note_offset);
        let cell = LedCell::SysexColor(led.color);
        lemma_cached_keeps_the_pages(before, model::led_page(s, led), key, cell);
    }
}

proof fn lemma_cached_keeps_the_pages(s: ProxyState, page: int, key: CacheKey, cell: LedCell)
    ensures
        model::cached(s, page, key, cell).led_cache.len() == s.led_cache.len(),
{
}

/// In note-offset mode an entry of a Lighting SysEx is kept for the page and the
/// pad that its number tells, unless a later entry overrides it.
pub proof fn law_lighting_is_kept_by_page(s: ProxyState, leds: Seq<LedSpec>, i: int)
    requires
        s.note_offset >= 1,
        is_last_word(leds, i),
        leds[i].led_index / s.note_offset < s.led_cache.len(),
        !model::is_global(s, ButtonRef::Note { number: leds[i].led_index % s.note_offset }),
    ensures
        ({
            let page = (leds[i].led_index / s.note_offset) as int;
            let key = CacheKey::Note(leds[i].led_index % s.note_offset);
            let kept = model::host_leds(s, leds).0.led_cache;
            kept[page].contains_key(key) && kept[page][key] == LedCell::SysexColor(leds[i].color)
        }),
    decreases leds.len(),
{
    let before = leds.drop_last();
    lemma_leds_keep_the_pages(s, before);
    if i < before.len() {
        assert forall|j: int| i < j < before.len() implies (#[trigger] before[j]).led_index
            != before[i].led_index by {
            assert(leds[j].led_index != leds[i].led_index);
        }
        law_lighting_is_kept_by_page(s, before, i);
        let last = leds.last();
        assert(leds[before.len() as int].led_index != leds[i].led_index);
        let offset = s.note_offset as int;
        if last.led_index % s.note_offset == leds[i].led_index % s.note_offset && last.led_index
            / s.note_offset == leds[i].led_index / s.note_offset {
            vstd::arithmetic::div_mod::lemma_fundamental_div_mod(last.led_index as int, offset);
            vstd::arithmetic::div_mod::lemma_fundamental_div_mod(leds[i].led_index as int, offset);
        }
    }
}

/// What arrives on the port of the page shown goes to the device byte for byte.
pub proof fn law_shown_port_is_transparent(s: ProxyState, page: u8, bytes: Seq<u8>)
    requires
        model::valid(s),
        page < s.pages,
        page == s.current_page,
    ensures
        model::host_in_per_port(s, page, bytes).1 == seq![Sent::ToDevice(bytes)],
{
    assert(model::to_device(seq![bytes]) =~= seq![Sent::ToDevice(bytes)]);
}

/// In per-port mode what the device sends goes to the port of the page shown byte
/// for byte, but for navigation and global buttons, and for the release of a pad
/// that was let go already.
pub proof fn law_device_is_transparent_per_port(s: ProxyState, bytes: Seq<u8>)
    requires
        model::valid(s),
        s.mode == Mode::PerPort,
        button_of(bytes) matches Some(button) ==> !model::is_navigation(s, button)
            && !model::is_global(s, button),
        !(parse::meaning(bytes) matches MsgView::NoteOff { note, .. } && s.suppressed.contains(
            note,
        )),
    ensures
        model::device_in(s, bytes).1 == seq![
            Sent::ToHostPage { page: s.current_page, bytes },
        ],
{
}

/// What arrives on the port of any other page sends nothing, but for the global
/// buttons.
pub proof fn law_other_ports_are_silent(s: ProxyState, page: u8, bytes: Seq<u8>)
    requires
        model::valid(s),
        page != s.current_page,
        s.global_buttons.len() == 0,
    ensures
        model::host_in_per_port(s, page, bytes).1 == Seq::<Sent>::empty(),
{
    if let Ok(leds) = sysex_lighting::lighting_entries(bytes, MINI_MK3_BYTE) {
        lemma_no_global_leds(s, leds);
        assert(model::to_device(model::lighting(seq![])) =~= Seq::<Sent>::empty());
    }
}

proof fn lemma_no_global_leds(s: ProxyState, leds: Seq<LedSpec>)
    requires
        s.global_buttons.len() == 0,
    ensures
        model::global_leds(s, leds) == Seq::<LedSpec>::empty(),
    decreases leds.len(),
{
    if leds.len() > 0 {
        lemma_no_global_leds(s, leds.drop_last());
    }
}

/// What arrives on the port of a page leaves the LEDs of other pages as they
/// are; those of page zero may change by a global button.
pub proof fn law_ports_keep_to_their_page(s: ProxyState, page: u8, bytes: Seq<u8>, other: int)
    requires
        model::valid(s),
        0 <= other < s.pages,
        other != page,
        other != 0 || s.global_buttons.len() == 0,
    ensures
        model::host_in_per_port(s, page, bytes).0.led_cache[other] == s.led_cache[other],
{
    if let Ok(leds) = sysex_lighting::lighting_entries(bytes, MINI_MK3_BYTE) {
        lemma_port_leds_keep_to_their_page(s, page, leds, other);
    }
}

proof fn lemma_port_leds_keep_to_their_page(
    s: ProxyState,
    page: u8,
    leds: Seq<LedSpec>,
    other: int,
)
    requires
        0 <= other < s.led_cache.len(),
        other != page,
        other != 0 || s.global_buttons.len() == 0,
    ensures
        model::port_leds_cached(s, page, leds).led_cache.len() == s.led_cache.len(),
        model::port_leds_cached(s, page, leds).led_cache[other] == s.led_cache[other],
    decreases leds.len(),
{
    if leds.len() > 0 {
        lemma_port_leds_keep_to_their_page(s, page, leds.drop_last(), other);
    }
}

/// In note-offset mode a pad's number on a page gives back the page and the pad.
pub proof fn law_number_on_page_tells_page_and_pad(s: ProxyState, pad: u8, page: u8)
    requires
        s.mode == Mode::NoteOffset,
        pad < s.note_offset,
        pad + page * s.note_offset <= 255,
    ensures
        model::number_on_page(s, pad, page) / s.note_offset == page,
        model::number_on_page(s, pad, page) % s.note_offset == pad,
{
    let number = pad + page * s.note_offset;
    let offset = s.note_offset as int;
    vstd::arithmetic::div_mod::lemma_fundamental_div_mod_converse(
        number,
        offset,
        page as int,
        pad as int,
    );
}

/// In note-offset mode the host lights a pad by the number under which it heard
/// of it: the LED is kept for that page and that pad, and shown if the page is.
pub proof fn law_host_lights_the_pad_it_heard_of(
    s: ProxyState,
    page: u8,
    pad: u8,
    channel: u8,
    velocity: u8,
)
    requires
        model::valid(s),
        s.mode == Mode::NoteOffset,
        page < s.pages,
        model::is_pad(s, pad),
        pad < s.note_offset,
        pad + page * s.note_offset < 128,
        channel < 16,
        0 < velocity < 128,
    ensures
        ({
            let number = model::number_on_page(s, pad, page);
            let bytes = parse::note_on_bytes(channel, number, velocity);
            let key = CacheKey::Note(pad);
            let cell = LedCell::NoteOn { channel, velocity };
            model::host_in(s, bytes) == (
                model::cached(s, page as int, key, cell),
                if page == s.current_page {
                    seq![Sent::ToDevice(parse::note_on_bytes(channel, pad, velocity))]
                } else {
                    seq![]
                },
            )
        }),
{
    let number = model::number_on_page(s, pad, page);
    let bytes = parse::note_on_bytes(channel, number, velocity);
    law_number_on_page_tells_page_and_pad(s, pad, page);
    assert(parse::meaning(bytes) == MsgView::NoteOn { channel, note: number, velocity });
    assert(!sysex_lighting::framed(bytes, MINI_MK3_BYTE));
    let shown = seq![parse::note_on_bytes(channel, pad, velocity)];
    assert(model::to_device(shown) =~= seq![
        Sent::ToDevice(parse::note_on_bytes(channel, pad, velocity)),
    ]);
}

// -- Pads -------------------------------------------------------------------

pub proof fn lemma_note_off_is_sent(s: ProxyState, pad: u8, n: int)
    requires
        s.held.contains_key(pad),
        pad < n <= 256,
    ensures
        model::note_offs(s, n).contains(
            model::to_host(
                s,
                s.current_page,
                parse::note_off_bytes(s.held[pad], model::number_on_page(s, pad, s.current_page), 0),
            ),
        ),
    decreases n,
{
    let before = model::note_offs(s, n - 1);
    let message = model::to_host(
        s,
        s.current_page,
        parse::note_off_bytes(s.held[pad], model::number_on_page(s, pad, s.current_page), 0),
    );
    if pad == n - 1 {
        assert(before.push(message)[before.len() as int] == message);
    } else {
        lemma_note_off_is_sent(s, pad, n - 1);
        let i = choose|i: int| 0 <= i < before.len() && before[i] == message;
        assert(model::note_offs(s, n)[i] == message);
    }
}

/// A pad that is held through a page change is let go on the page where it was
/// pressed, on the channel of the press, and its release is not passed on: the
/// host sees no stuck note, and no second Note Off on the new page.
pub proof fn law_held_pads_are_let_go_on_the_old_page(
    s: ProxyState,
    page: u8,
    pad: u8,
    channel: u8,
    velocity: u8,
)
    requires
        model::valid(s),
        page < s.pages,
        s.held.contains_key(pad),
        !s.suppressed.contains(pad),
        pad < 128,
        channel < 16,
        velocity < 128,
    ensures
        ({
            let turned = model::page_changed(s, page);
            let number = model::number_on_page(s, pad, s.current_page);
            let released = model::device_in(
                turned.0,
                parse::note_off_bytes(channel, pad, velocity),
            );
            &&& turned.1.contains(
                model::to_host(s, s.current_page, parse::note_off_bytes(s.held[pad], number, 0)),
            )
            &&& released.1 == Seq::<Sent>::empty()
            &&& !released.0.held.contains_key(pad)
            &&& !released.0.suppressed.contains(pad)
        }),
{
    let turned = model::page_changed(s, page);
    let number = model::number_on_page(s, pad, s.current_page);
    let bytes = parse::note_off_bytes(channel, pad, velocity);
    lemma_note_off_is_sent(s, pad, 256);
    lemma_in_either(
        model::note_offs(s, 256),
        model::to_device(model::redraw(turned.0)),
        model::to_host(s, s.current_page, parse::note_off_bytes(s.held[pad], number, 0)),
    );
    assert(parse::meaning(bytes) == MsgView::NoteOff { channel, note: pad, velocity });
    assert(model::is_pad(s, pad));
}

/// After a page change every pad that is held counts as let go.
pub proof fn law_page_change_lets_every_pad_go(s: ProxyState, page: u8)
    requires
        model::valid(s),
        page < s.pages,
    ensures
        model::page_changed(s, page).0.suppressed == s.held.dom(),
        model::page_changed(s, page).0.held == s.held,
{
    assert(s.suppressed.union(s.held.dom()) =~= s.held.dom());
}

/// A press and release of a pad with no page change between them are passed on,
/// both on the page shown, and leave nothing behind.
pub proof fn law_press_and_release_match(
    s: ProxyState,
    pad: u8,
    channel: u8,
    velocity: u8,
    release_velocity: u8,
)
    requires
        model::valid(s),
        model::is_pad(s, pad),
        !s.held.contains_key(pad),
        pad < 128,
        channel < 16,
        0 < velocity < 128,
        release_velocity < 128,
    ensures
        ({
            let number = model::number_on_page(s, pad, s.current_page);
            let pressed = model::device_in(s, parse::note_on_bytes(channel, pad, velocity));
            let released = model::device_in(
                pressed.0,
                parse::note_off_bytes(channel, pad, release_velocity),
            );
            &&& pressed.1 == seq![
                model::to_host(
                    s,
                    s.current_page,
                    parse::note_on_bytes(channel, number, velocity),
                ),
            ]
            &&& released.1 == seq![
                model::to_host(
                    s,
                    s.current_page,
                    parse::note_off_bytes(channel, number, release_velocity),
                ),
            ]
            &&& released.0 == s
        }),
{
    let on = parse::note_on_bytes(channel, pad, velocity);
    let off = parse::note_off_bytes(channel, pad, release_velocity);
    assert(parse::meaning(on) == MsgView::NoteOn { channel, note: pad, velocity });
    assert(parse::meaning(off) == MsgView::NoteOff {
        channel,
        note: pad,
        velocity: release_velocity,
    });
    let pressed = model::device_in(s, on).0;
    let released = model::device_in(pressed, off).0;
    assert(released.held =~= s.held);
    assert(released.suppressed =~= s.suppressed);
}

// -- Navigation -------------------------------------------------------------

/// The message is for the host.
pub open spec fn is_for_host(message: Sent) -> bool {
    message is ToHost || message is ToHostPage
}

/// The button that a message from the device is about.
pub open spec fn button_of(bytes: Seq<u8>) -> Option<ButtonRef> {
    match parse::meaning(bytes) {
        MsgView::NoteOn { note, .. } => Some(ButtonRef::Note { number: note }),
        MsgView::NoteOff { note, .. } => Some(ButtonRef::Note { number: note }),
        MsgView::Cc { controller, .. } => Some(ButtonRef::Cc { number: controller }),
        _ => None,
    }
}

/// The Note Off of a held pad, on the page shown.
pub open spec fn is_held_note_off(s: ProxyState, message: Sent) -> bool {
    exists|pad: u8| #[trigger]
        s.held.contains_key(pad) && message == model::to_host(
            s,
            s.current_page,
            parse::note_off_bytes(s.held[pad], model::number_on_page(s, pad, s.current_page), 0),
        )
}

pub proof fn lemma_note_offs_are_for_held_pads(s: ProxyState, n: int)
    requires
        0 <= n <= 256,
    ensures
        forall|i: int|
            0 <= i < model::note_offs(s, n).len() ==> is_held_note_off(
                s,
                #[trigger] model::note_offs(s, n)[i],
            ),
    decreases n,
{
    if n > 0 {
        lemma_note_offs_are_for_held_pads(s, n - 1);
        let before = model::note_offs(s, n - 1);
        assert forall|i: int| 0 <= i < model::note_offs(s, n).len() implies is_held_note_off(
            s,
            #[trigger] model::note_offs(s, n)[i],
        ) by {
            if i < before.len() {
                assert(model::note_offs(s, n)[i] == before[i]);
            } else {
                assert(s.held.contains_key((n - 1) as u8));
            }
        }
    }
}

/// Every message of the step for the host is the Note Off of a held pad.
pub open spec fn only_lets_go(s: ProxyState, messages: Seq<Sent>) -> bool {
    forall|i: int|
        0 <= i < messages.len() && is_for_host(#[trigger] messages[i]) ==> is_held_note_off(
            s,
            messages[i],
        )
}

proof fn lemma_page_change_only_lets_go(s: ProxyState, before: ProxyState, page: u8)
    requires
        same_setup(s, before),
        s.held == before.held,
        s.current_page == before.current_page,
    ensures
        only_lets_go(s, model::page_changed(before, page).1),
{
    lemma_note_offs_are_for_held_pads(before, 256);
    let messages = model::page_changed(before, page).1;
    let offs = model::note_offs(before, 256);
    assert forall|i: int|
        0 <= i < messages.len() && is_for_host(#[trigger] messages[i]) implies is_held_note_off(
        s,
        messages[i],
    ) by {
        assert(i < offs.len());
        assert(messages[i] == offs[i]);
        let pad = choose|pad: u8| #[trigger]
            before.held.contains_key(pad) && messages[i] == model::to_host(
                before,
                before.current_page,
                parse::note_off_bytes(
                    before.held[pad],
                    model::number_on_page(before, pad, before.current_page),
                    0,
                ),
            );
        assert(s.held.contains_key(pad));
    }
}

/// Navigation buttons are never passed on: what a message about one sends to the
/// host is a Note Off for each pad that is held, and nothing else.
pub proof fn law_navigation_never_reaches_the_host(s: ProxyState, bytes: Seq<u8>)
    requires
        model::valid(s),
        button_of(bytes) matches Some(button) && model::is_navigation(s, button),
    ensures
        only_lets_go(s, model::device_in(s, bytes).1),
        model::device_in(s, bytes).0.held == s.held,
{
    let button = button_of(bytes).unwrap();
    let step = model::device_in(s, bytes);
    assert forall|page: u8, moved: ProxyState|
        same_setup(s, moved) && moved.held == s.held && moved.current_page
            == s.current_page implies only_lets_go(
        s,
        #[trigger] model::page_changed(moved, page).1,
    ) by {
        lemma_page_change_only_lets_go(s, moved, page);
    }
    if step == model::press(s, button) && model::is_cycle_button(s, button) {
        let forward = s.next_page_button == Some(button);
        let cycled = model::cycled(s, forward).1;
        let flash = model::flash(s, button);
        assert(only_lets_go(s, cycled));
        assert forall|i: int|
            0 <= i < step.1.len() && is_for_host(#[trigger] step.1[i]) implies is_held_note_off(
            s,
            step.1[i],
        ) by {
            if i < flash.len() {
                assert(step.1[i] == flash[i]);
            } else {
                assert(step.1[i] == cycled[i - flash.len()]);
            }
        }
    }
}

/// In each mode the host is reached in one way only: by the single port, or by
/// the port of a page that is there.
pub open spec fn fits_the_mode(s: ProxyState, messages: Seq<Sent>) -> bool {
    forall|i: int|
        0 <= i < messages.len() ==> match #[trigger] messages[i] {
            Sent::ToHost(_) => s.mode == Mode::NoteOffset,
            Sent::ToHostPage { page, .. } => s.mode == Mode::PerPort && model::on_a_page(
                s.pages,
                page,
            ),
            _ => true,
        }
}

/// What the device sends reaches the host only by the ports of the mode.
pub proof fn law_device_messages_fit_the_mode(s: ProxyState, bytes: Seq<u8>)
    requires
        model::valid(s),
    ensures
        fits_the_mode(s, model::device_in(s, bytes).1),
{
    if button_of(bytes) matches Some(button) && model::is_navigation(s, button) {
        law_navigation_never_reaches_the_host(s, bytes);
        let messages = model::device_in(s, bytes).1;
        assert forall|i: int| 0 <= i < messages.len() implies match #[trigger] messages[i] {
            Sent::ToHost(_) => s.mode == Mode::NoteOffset,
            Sent::ToHostPage { page, .. } => s.mode == Mode::PerPort && model::on_a_page(
                s.pages,
                page,
            ),
            _ => true,
        } by {
            if is_for_host(messages[i]) {
                assert(is_held_note_off(s, messages[i]));
            }
        }
    }
}

/// What the host sends never goes back to the host.
pub proof fn law_host_messages_go_to_the_device(s: ProxyState, page: u8, bytes: Seq<u8>, i: int)
    ensures
        0 <= i < model::host_in(s, bytes).1.len() ==> model::host_in(s, bytes).1[i] is ToDevice,
        0 <= i < model::host_in_per_port(s, page, bytes).1.len() ==> model::host_in_per_port(
            s,
            page,
            bytes,
        ).1[i] is ToDevice,
{
}

/// Holding a page button in hold-to-preview mode shows its page and leaves the
/// persistent page alone; letting go shows the persistent page again.
pub proof fn law_preview_ends_where_it_began(s: ProxyState, button: ButtonRef)
    requires
        model::valid(s),
        s.held_preview is None,
        !model::is_cycle_button(s, button),
        model::page_button(s, button) matches Some(pb) && pb.hold && pb.page < s.pages,
    ensures
        ({
            let page = model::page_button(s, button).unwrap().page;
            let pressed = model::press(s, button).0;
            let released = model::release(pressed, button).0;
            &&& pressed.current_page == page
            &&& pressed.held_preview == Some(page)
            &&& pressed.persistent_page == s.persistent_page
            &&& released.current_page == s.persistent_page
            &&& released.held_preview is None
            &&& released.persistent_page == s.persistent_page
        }),
{
    lemma_slot_is_for_the_button(s.page_buttons, button, 0);
}

/// A tap on any other page button jumps to its page for good; letting go does
/// nothing.
pub proof fn law_tap_jumps_for_good(s: ProxyState, button: ButtonRef)
    requires
        model::valid(s),
        s.held_preview is None,
        !model::is_cycle_button(s, button),
        model::page_button(s, button) matches Some(pb) && !pb.hold && pb.page < s.pages,
    ensures
        ({
            let page = model::page_button(s, button).unwrap().page;
            let pressed = model::press(s, button).0;
            &&& pressed.current_page == page
            &&& pressed.persistent_page == page
            &&& model::release(pressed, button) == (pressed, Seq::<Sent>::empty())
        }),
{
}

/// Next and previous move the persistent page by one, stop at the ends, and
/// show the page that they move to unless another page is previewed: then only
/// the button itself flashes.
pub proof fn law_cycle_buttons_move_by_one(s: ProxyState, button: ButtonRef)
    requires
        model::valid(s),
        s.pages > 0,
        model::is_cycle_button(s, button),
    ensures
        ({
            let forward = s.next_page_button == Some(button);
            let after = model::press(s, button);
            let page = s.persistent_page as int;
            &&& after.0.persistent_page == if forward {
                if page + 1 < s.pages {
                    page + 1
                } else {
                    page
                }
            } else {
                if page > 0 {
                    page - 1
                } else {
                    0
                }
            }
            &&& after.1.take(2) == model::flash(s, button)
            &&& s.held_preview is Some ==> after.1 == model::flash(s, button)
                && after.0.current_page == s.current_page
            &&& s.held_preview is None && model::in_sync(s) ==> after.0.current_page
                == after.0.persistent_page
        }),
{
    let forward = s.next_page_button == Some(button);
    let after = model::press(s, button);
    let flash = model::flash(s, button);
    assert(after.1 == flash + model::cycled(s, forward).1);
    assert(after.1.take(2) =~= flash);
    if s.held_preview is Some {
        assert(after.1 =~= flash);
    }
}

// -- Global buttons ---------------------------------------------------------

/// A message about a global button goes to page zero as it is, whatever page is
/// shown, and leaves no trace in the proxy.
pub proof fn law_global_buttons_belong_to_page_zero(s: ProxyState, bytes: Seq<u8>)
    requires
        button_of(bytes) matches Some(button) && model::is_global(s, button)
            && !model::is_navigation(s, button),
    ensures
        model::device_in(s, bytes) == (s, seq![model::to_host(s, 0, bytes)]),
{
}

/// A global button that the host lights, on the port of any page, is kept for
/// page zero and goes to the device at once.
pub proof fn law_global_leds_are_always_shown(s: ProxyState, page: u8, bytes: Seq<u8>)
    requires
        model::valid(s),
        page < s.pages,
        button_of(bytes) matches Some(button) && model::is_global(s, button),
    ensures
        ({
            let button = button_of(bytes).unwrap();
            let after = model::host_in_per_port(s, page, bytes);
            &&& after.1 == seq![Sent::ToDevice(bytes)]
            &&& after.0.led_cache[0].contains_key(crate::proxy::led_cache::key_of(button))
            &&& forall|other: int|
                0 < other < s.pages ==> after.0.led_cache[other] == #[trigger] s.led_cache[other]
        }),
{
    assert(model::to_device(seq![bytes]) =~= seq![Sent::ToDevice(bytes)]);
}

// -- Accepted configurations ------------------------------------------------

/// A proxy for an accepted configuration has a number for every pad on every
/// page, whichever device it drives.
pub proof fn law_accepted_numbers_fit(
    cfg: DeviceConfig,
    mini: MiniMk3,
    apc: ApcMini,
    any: AnyDevice,
)
    requires
        config::laws::acceptable(cfg),
    ensures
        model::numbers_fit(proxy::fresh(cfg, mini)),
        model::numbers_fit(proxy::fresh(cfg, apc)),
        model::numbers_fit(proxy::fresh(cfg, any)),
{
    if cfg.mode == Mode::NoteOffset {
        let offset = config::note_offset_of(cfg.note_offset) as int;
        let pages = cfg.pages as int;
        assert((pages - 1) * offset == pages * offset - offset) by (nonlinear_arith);
        assert forall|n: u8| mini_mk3::grid_note(n) implies n <= 88 by {
            assert(n / 10 <= 8 && n % 10 <= 8);
        }
        assert forall|n: u8| #[trigger]
            (proxy::fresh(cfg, mini).device.grid_note)(n) implies n + (pages - 1) * offset
            <= 255 by {
            assert(mini_mk3::grid_note(n));
        }
    }
}

proof fn lemma_slots_are_entries(entries: Seq<ResolvedPageButton>, button: ButtonRef, i: int)
    requires
        0 <= i,
    ensures
        model::slot_from(entries, button, i) is Some ==> exists|k: int|
            0 <= k < entries.len() && (#[trigger] entries[k]).button == button,
    decreases entries.len() - i,
{
    if i < entries.len() {
        lemma_slots_are_entries(entries, button, i + 1);
        if entries[i].button == button {
            assert(entries[i].button == button);
        }
    }
}

/// In a proxy for an accepted configuration no global button navigates, and no
/// page button cycles.
pub proof fn law_accepted_buttons_have_one_role<D: Device>(
    cfg: DeviceConfig,
    device: D,
    button: ButtonRef,
)
    requires
        config::laws::acceptable(cfg),
    ensures
        ({
            let s = proxy::fresh(cfg, device);
            &&& !(model::is_global(s, button) && model::is_navigation(s, button))
            &&& !(model::is_cycle_button(s, button) && model::page_button(s, button) is Some)
        }),
{
    let s = proxy::fresh(cfg, device);
    let entries = cfg.page_buttons@;
    lemma_slots_are_entries(s.page_buttons, button, 0);
    if model::page_button(s, button) is Some {
        let k = choose|k: int|
            0 <= k < s.page_buttons.len() && (#[trigger] s.page_buttons[k]).button == button;
        assert(entries[k].button == button);
        assert(config::validate::is_page_button(entries, button));
        assert(!config::validate::is_cycle(cfg, entries[k].button));
    }
    if model::is_global(s, button) {
        let g = choose|g: int| 0 <= g < s.global_buttons.len() && s.global_buttons[g] == button;
        assert(cfg.global_buttons@[g] == button);
    }
}

} // verus!
