//! What a page change sends to the device, message by message.

use vstd::prelude::*;

use crate::config::{self, DeviceConfig};
use crate::midi::device::{self, Device};
use crate::midi::sysex_lighting;
use crate::midi::wire;
use crate::proxy::effects;
use crate::proxy::led_cache::{CacheKey, LedCell};
use crate::proxy::model::{self, Cells, ProxyState, Sent};
use crate::proxy::moves;
use crate::proxy::{display, fresh};

verus! {

// -- Replaying --------------------------------------------------------------

/// An LED that was set by a short message.
pub open spec fn is_short(cells: Cells, key: CacheKey) -> bool {
    match (key, display::at(cells, key)) {
        (CacheKey::Note(_), Some(LedCell::NoteOn { .. })) => true,
        (CacheKey::Cc(_), Some(LedCell::Cc { .. })) => true,
        _ => false,
    }
}

/// An LED that was set by a Lighting SysEx.
pub open spec fn is_colored(cells: Cells, key: CacheKey) -> bool {
    key is Note && display::at(cells, key) is Some && display::at(cells, key).unwrap() is SysexColor
}

/// The short message that sets an LED again.
pub open spec fn restores(cells: Cells, key: CacheKey, bytes: Seq<u8>) -> bool {
    match (key, display::at(cells, key)) {
        (CacheKey::Note(n), Some(LedCell::NoteOn { channel, velocity })) => bytes
            == effects::short(0x90 + channel % 16, (n % 128) as int, (velocity % 128) as int),
        (CacheKey::Cc(c), Some(LedCell::Cc { channel, value })) => bytes == effects::short(
            0xB0 + channel % 16,
            (c % 128) as int,
            (value % 128) as int,
        ),
        _ => false,
    }
}

/// The places of the keys that a test picks out, in ascending order.
pub open spec fn are_places(
    places: Seq<int>,
    keys: Seq<CacheKey>,
    picked: spec_fn(CacheKey) -> bool,
) -> bool {
    &&& forall|i: int, j: int| 0 <= i < j < places.len() ==> #[trigger] places[i] < #[trigger] places[j]
    &&& forall|i: int|
        0 <= i < places.len() ==> 0 <= #[trigger] places[i] < keys.len() && picked(keys[places[i]])
    &&& forall|k: int| 0 <= k < keys.len() && picked(#[trigger] keys[k]) ==> places.contains(k)
}

proof fn lemma_places_grow(
    places: Seq<int>,
    keys: Seq<CacheKey>,
    picked: spec_fn(CacheKey) -> bool,
) -> (grown: Seq<int>)
    requires
        keys.len() > 0,
        are_places(places, keys.drop_last(), picked),
    ensures
        are_places(grown, keys, picked),
        grown == if picked(keys.last()) {
            places.push(keys.len() - 1)
        } else {
            places
        },
{
    let rest = keys.drop_last();
    let last = keys.len() - 1;
    let grown = if picked(keys.last()) {
        places.push(last)
    } else {
        places
    };
    assert forall|i: int| 0 <= i < grown.len() implies 0 <= #[trigger] grown[i] < keys.len()
        && picked(keys[grown[i]]) by {
        if i < places.len() {
            assert(0 <= places[i] < rest.len() && picked(rest[places[i]]));
            assert(keys[places[i]] == rest[places[i]]);
        }
    }
    assert forall|i: int, j: int| 0 <= i < j < grown.len() implies #[trigger] grown[i]
        < #[trigger] grown[j] by {
        assert(places[i] < rest.len());
        if j < places.len() {
            assert(places[i] < places[j]);
        }
    }
    assert forall|k: int| 0 <= k < keys.len() && picked(#[trigger] keys[k]) implies grown.contains(
        k,
    ) by {
        if k < last {
            assert(picked(rest[k]));
            let i = choose|i: int| 0 <= i < places.len() && places[i] == k;
            assert(grown[i] == k);
        } else {
            assert(grown[places.len() as int] == k);
        }
    }
    grown
}

/// Replaying sends one short message for each LED that was set by one, in the order of the
/// keys.
pub proof fn law_each_short_led_is_sent_once(cells: Cells, keys: Seq<CacheKey>) -> (places: Seq<
    int,
>)
    ensures
        are_places(places, keys, |key: CacheKey| is_short(cells, key)),
        model::messages_of(cells, keys).len() == places.len(),
        forall|i: int|
            0 <= i < places.len() ==> restores(
                cells,
                keys[#[trigger] places[i]],
                model::messages_of(cells, keys)[i],
            ),
    decreases keys.len(),
{
    let picked = |key: CacheKey| is_short(cells, key);
    if keys.len() == 0 {
        let places = Seq::<int>::empty();
        assert(are_places(places, keys, picked));
        places
    } else {
        let rest = keys.drop_last();
        let places = law_each_short_led_is_sent_once(cells, rest);
        let grown = lemma_places_grow(places, keys, picked);
        let key = keys.last();
        let before = model::messages_of(cells, rest);
        let messages = model::messages_of(cells, keys);
        if is_short(cells, key) {
            lemma_restores(cells, key);
            assert(messages =~= before.push(model::cell_message(key, cells[key])[0]));
        } else {
            assert(messages =~= before);
        }
        assert forall|i: int| 0 <= i < grown.len() implies restores(
            cells,
            keys[#[trigger] grown[i]],
            messages[i],
        ) by {
            if i < places.len() {
                assert(restores(cells, rest[places[i]], before[i]));
                assert(0 <= places[i] < rest.len());
            }
        }
        grown
    }
}

proof fn lemma_restores(cells: Cells, key: CacheKey)
    requires
        is_short(cells, key),
    ensures
        model::cell_message(key, cells[key]).len() == 1,
        restores(cells, key, model::cell_message(key, cells[key])[0]),
{
    match (key, cells[key]) {
        (CacheKey::Note(n), LedCell::NoteOn { channel, velocity }) => {
            wire::law_short_messages_on_the_wire(channel, n, velocity);
        },
        (CacheKey::Cc(c), LedCell::Cc { channel, value }) => {
            wire::law_short_messages_on_the_wire(channel, c, value);
        },
        _ => {},
    }
}

/// Replaying sends one Lighting SysEx after the short messages, if some LED was set by one:
/// with one entry for each of them, in the order of the keys.
pub proof fn law_each_colored_led_is_sent_once(cells: Cells, keys: Seq<CacheKey>) -> (places: Seq<
    int,
>)
    ensures
        are_places(places, keys, |key: CacheKey| is_colored(cells, key)),
        model::leds_of(cells, keys).len() == places.len(),
        forall|i: int|
            0 <= i < places.len() ==> {
                let led = model::leds_of(cells, keys)[i];
                let key = keys[#[trigger] places[i]];
                key == CacheKey::Note(led.led_index) && cells[key] == LedCell::SysexColor(led.color)
            },
        places.len() == 0 ==> model::replayed(cells, keys) == model::messages_of(cells, keys),
        places.len() > 0 ==> model::replayed(cells, keys) == model::messages_of(cells, keys).push(
            sysex_lighting::lighting_bytes(0x0D, model::leds_of(cells, keys)),
        ),
    decreases keys.len(),
{
    let picked = |key: CacheKey| is_colored(cells, key);
    let leds = model::leds_of(cells, keys);
    let messages = model::messages_of(cells, keys);
    if leds.len() == 0 {
        assert(model::replayed(cells, keys) =~= messages);
    } else {
        assert(model::replayed(cells, keys) =~= messages.push(
            sysex_lighting::lighting_bytes(0x0D, leds),
        ));
    }
    if keys.len() == 0 {
        let places = Seq::<int>::empty();
        assert(are_places(places, keys, picked));
        places
    } else {
        let rest = keys.drop_last();
        let places = law_each_colored_led_is_sent_once(cells, rest);
        let grown = lemma_places_grow(places, keys, picked);
        let key = keys.last();
        let before = model::leds_of(cells, rest);
        if is_colored(cells, key) {
            assert(leds =~= before.push(model::cell_led(key, cells[key])[0]));
        } else {
            assert(leds =~= before);
        }
        assert forall|i: int| 0 <= i < grown.len() implies ({
            let led = leds[i];
            let key = keys[#[trigger] grown[i]];
            key == CacheKey::Note(led.led_index) && cells[key] == LedCell::SysexColor(led.color)
        }) by {
            if i < places.len() {
                assert(rest[places[i]] == CacheKey::Note(before[i].led_index));
                assert(0 <= places[i] < rest.len());
            }
        }
        grown
    }
}

/// All that a page keeps is replayed: the notes in ascending order, then the controllers.
/// Of page zero the global buttons are, in the order of the configuration.
pub proof fn law_what_is_replayed(s: ProxyState, i: int)
    ensures
        model::all_keys().len() == 512,
        0 <= i < 256 ==> model::all_keys()[i] == CacheKey::Note(i as u8),
        0 <= i < 256 ==> model::all_keys()[256 + i] == CacheKey::Cc(i as u8),
        model::global_keys(s).len() == s.global_buttons.len(),
        0 <= i < s.global_buttons.len() ==> model::global_keys(s)[i] == moves::led_of(
            s.global_buttons[i],
        ),
{
}

/// A page change sends the device what clears it, then what the page keeps, then one message
/// for each page button, and then, unless it is page zero, what that keeps of the global
/// buttons. Nothing else follows the Note Offs.
pub proof fn law_page_change_sends_in_this_order(s: ProxyState, page: u8, i: int)
    requires
        page < s.pages,
    ensures
        ({
            let (t, sent) = model::page_changed(s, page);
            let offs = model::note_offs(s, 256);
            let replay = model::replayed(s.led_cache[page as int], model::all_keys());
            let lights = device::painted(s.device, model::indicators(t));
            let globals = model::replayed(s.led_cache[0], model::global_keys(s));
            &&& page != 0 ==> sent == offs + model::to_device(
                s.device.clear + replay + lights + globals,
            )
            &&& page == 0 ==> sent == offs + model::to_device(s.device.clear + replay + lights)
            &&& lights.len() == s.page_buttons.len()
            &&& 0 <= i < s.page_buttons.len() ==> exists|color: u8|
                lights[i] == #[trigger] (s.device.paint)(s.page_buttons[i].button, color)
        }),
{
    let (t, sent) = model::page_changed(s, page);
    let replay = model::replayed(s.led_cache[page as int], model::all_keys());
    let lights = device::painted(s.device, model::indicators(t));
    if page == 0 {
        let all = s.device.clear + replay + lights;
        assert(all + Seq::<Seq<u8>>::empty() =~= all);
    }
    if 0 <= i < s.page_buttons.len() {
        let color = model::indicators(t)[i].1;
        assert(lights[i] == (s.device.paint)(s.page_buttons[i].button, color));
    }
}

/// At startup one message goes out for each page button, and one for each of the next-page
/// and previous-page buttons that there is.
pub proof fn law_startup_lights_each_button_once(s: ProxyState)
    ensures
        model::indicator_state(s).len() == s.page_buttons.len() + (if s.next_page_button is Some {
            1int
        } else {
            0
        }) + (if s.previous_page_button is Some {
            1int
        } else {
            0
        }),
{
}

/// Messages for the device are sent in their order, each once.
pub proof fn law_messages_are_sent_in_order(messages: Seq<Seq<u8>>, i: int)
    ensures
        model::to_device(messages).len() == messages.len(),
        0 <= i < messages.len() ==> model::to_device(messages)[i] == Sent::ToDevice(messages[i]),
{
}

// -- A new proxy ------------------------------------------------------------

/// A new proxy shows page zero, which is also the persistent one. Nothing is previewed, held
/// or kept, and the rest is as configured.
pub proof fn law_new_proxies_show_page_zero<D: Device>(cfg: DeviceConfig, device: D, page: int)
    ensures
        ({
            let s = fresh(cfg, device);
            &&& s.current_page == 0
            &&& s.persistent_page == 0
            &&& s.held_preview is None
            &&& s.held_preview_button is None
            &&& forall|pad: u8| !(#[trigger] s.held.contains_key(pad))
            &&& forall|pad: u8| !(#[trigger] s.suppressed.contains(pad))
            &&& s.led_cache.len() == cfg.pages
            &&& 0 <= page < cfg.pages ==> s.led_cache[page] == Map::<CacheKey, LedCell>::empty()
            &&& s.mode == cfg.mode
            &&& s.pages == cfg.pages
            &&& cfg.note_offset matches Some(offset) ==> s.note_offset == offset
            &&& cfg.note_offset is None ==> s.note_offset == 64
            &&& s.next_page_button == cfg.next_page_button
            &&& s.previous_page_button == cfg.previous_page_button
            &&& s.global_buttons == cfg.global_buttons@
            &&& s.colors == cfg.colors
            &&& s.device == device.model()
            &&& s.page_buttons == config::page_buttons::resolved_entries(
                cfg.page_buttons@,
                cfg.page_buttons_hold_to_preview,
            )
        }),
{
}

} // verus!
