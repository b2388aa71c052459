//! What each message comes to: what is kept of it, and what is sent for it.

use vstd::prelude::*;

use crate::config::{ButtonRef, Mode, ResolvedPageButton};
use crate::midi::parse::{self, MsgView};
use crate::midi::sysex_lighting::{self, LedSpec, SysexError};
use crate::midi::wire;
use crate::proxy::display;
use crate::proxy::laws;
use crate::proxy::led_cache::{CacheKey, LedCell};
use crate::proxy::model::{self, Cells, ProxyState, Sent};

verus! {

// -- Roles of buttons -------------------------------------------------------

/// A next-page, previous-page or page button.
pub open spec fn navigates(s: ProxyState, button: ButtonRef) -> bool {
    ||| s.next_page_button == Some(button)
    ||| s.previous_page_button == Some(button)
    ||| exists|i: int| 0 <= i < s.page_buttons.len() && (#[trigger] s.page_buttons[i]).button == button
}

/// A button of the list of global ones.
pub open spec fn everywhere(s: ProxyState, button: ButtonRef) -> bool {
    exists|i: int| 0 <= i < s.global_buttons.len() && #[trigger] s.global_buttons[i] == button
}

/// The first page button with that button is entry `i`.
pub open spec fn is_entry(s: ProxyState, button: ButtonRef, i: int) -> bool {
    &&& 0 <= i < s.page_buttons.len()
    &&& s.page_buttons[i].button == button
    &&& forall|j: int| 0 <= j < i ==> (#[trigger] s.page_buttons[j]).button != button
}

proof fn lemma_slot_from(entries: Seq<ResolvedPageButton>, button: ButtonRef, from: int)
    requires
        0 <= from <= entries.len(),
    ensures
        model::slot_from(entries, button, from) is Some <==> exists|i: int|
            from <= i < entries.len() && (#[trigger] entries[i]).button == button,
        forall|i: int|
            from <= i < entries.len() && (#[trigger] entries[i]).button == button && (forall|j: int|
                from <= j < i ==> (#[trigger] entries[j]).button != button)
                ==> model::slot_from(entries, button, from) == Some(entries[i]),
    decreases entries.len() - from,
{
    if from < entries.len() {
        lemma_slot_from(entries, button, from + 1);
        if entries[from].button == button {
            assert forall|i: int|
                from <= i < entries.len() && (#[trigger] entries[i]).button == button && (forall|
                    j: int,
                |
                    from <= j < i ==> (#[trigger] entries[j]).button
                        != button) implies model::slot_from(entries, button, from) == Some(
                entries[i],
            ) by {
                if i > from {
                    assert(entries[from].button != button);
                }
            }
        }
    }
}

/// Which buttons the proxy keeps to itself, which belong to page zero, and which page
/// button a button is: the first of the list.
pub proof fn law_roles_of_buttons(s: ProxyState, button: ButtonRef, i: int)
    ensures
        model::is_navigation(s, button) == navigates(s, button),
        model::is_global(s, button) == everywhere(s, button),
        is_entry(s, button, i) ==> model::page_button(s, button) == Some(s.page_buttons[i]),
        model::page_button(s, button) is None <==> !(exists|j: int|
            0 <= j < s.page_buttons.len() && (#[trigger] s.page_buttons[j]).button == button),
{
    lemma_slot_from(s.page_buttons, button, 0);
    if everywhere(s, button) {
        let k = choose|k: int|
            0 <= k < s.global_buttons.len() && #[trigger] s.global_buttons[k] == button;
        assert(s.global_buttons.contains(button));
    }
    if s.global_buttons.contains(button) {
        let k = choose|k: int| 0 <= k < s.global_buttons.len() && s.global_buttons[k] == button;
        assert(s.global_buttons[k] == button);
    }
}

/// A pad: a note of the grid that neither navigates nor belongs to page zero.
pub open spec fn is_free_pad(s: ProxyState, note: u8) -> bool {
    let button = ButtonRef::Note { number: note };
    (s.device.grid_note)(note) && !navigates(s, button) && !everywhere(s, button)
}

proof fn lemma_free_pad(s: ProxyState, note: u8)
    ensures
        model::is_pad(s, note) == is_free_pad(s, note),
{
    law_roles_of_buttons(s, ButtonRef::Note { number: note }, 0);
}

// -- Writing one LED --------------------------------------------------------

/// One LED of one page has a new state, and nothing else has changed.
pub open spec fn writes(
    s: ProxyState,
    t: ProxyState,
    page: int,
    key: CacheKey,
    cell: LedCell,
) -> bool {
    &&& t == ProxyState { led_cache: t.led_cache, ..s }
    &&& t.led_cache.len() == s.led_cache.len()
    &&& forall|p: int, k: CacheKey|
        #![trigger display::at(t.led_cache[p], k)]
        0 <= p < s.led_cache.len() ==> display::at(t.led_cache[p], k) == if p == page && k == key {
            Some(cell)
        } else {
            display::at(s.led_cache[p], k)
        }
}

proof fn lemma_cached_writes(s: ProxyState, page: int, key: CacheKey, cell: LedCell)
    requires
        0 <= page < s.led_cache.len(),
    ensures
        writes(s, model::cached(s, page, key, cell), page, key, cell),
{
    let t = model::cached(s, page, key, cell);
    assert(t =~= ProxyState { led_cache: t.led_cache, ..s });
}

/// The state of an LED that a note asks for: its velocity, none for a Note Off.
pub open spec fn led_of_note(channel: u8, velocity: u8) -> LedCell {
    LedCell::NoteOn { channel, velocity }
}

/// What the device gets: one message, or nothing.
pub open spec fn to_device_if(shown: bool, bytes: Seq<u8>) -> Seq<Sent> {
    if shown {
        seq![Sent::ToDevice(bytes)]
    } else {
        seq![]
    }
}

proof fn lemma_one(bytes: Seq<u8>)
    ensures
        model::to_device(seq![bytes]) == seq![Sent::ToDevice(bytes)],
{
    assert(model::to_device(seq![bytes]) =~= seq![Sent::ToDevice(bytes)]);
}

// -- The host in note-offset mode -------------------------------------------

pub proof fn lemma_split_number(s: ProxyState, pad: u8, page: u8)
    requires
        pad < s.note_offset,
        pad + page * s.note_offset <= 127,
    ensures
        ({
            let number = (pad + page * s.note_offset) as u8;
            &&& number == pad + page * s.note_offset
            &&& number / s.note_offset == page
            &&& number % s.note_offset == pad
        }),
{
    assert(0 <= page * s.note_offset) by (nonlinear_arith)
        requires
            0 <= page,
            0 <= s.note_offset,
    ;
    vstd::arithmetic::div_mod::lemma_fundamental_div_mod_converse(
        pad + page * s.note_offset,
        s.note_offset as int,
        page as int,
        pad as int,
    );
}

/// The three bytes of a short message.
pub open spec fn short(status: int, data1: int, data2: int) -> Seq<u8> {
    seq![status as u8, data1 as u8, data2 as u8]
}

/// In note-offset mode a note for `pad + page * offset` sets the LED of that pad on
/// that page, shown or not: a Note On to its velocity, a Note Off, or a Note On at
/// velocity zero, to off. The device gets it, as a note for the pad, if the page is
/// the one shown.
pub proof fn law_host_note_sets_its_pad(
    s: ProxyState,
    pad: u8,
    page: u8,
    channel: u8,
    velocity: u8,
)
    requires
        pad < s.note_offset,
        page < s.led_cache.len(),
        pad + page * s.note_offset <= 127,
        (s.device.grid_note)(pad),
        !everywhere(s, ButtonRef::Note { number: pad }),
        channel < 16,
        velocity < 128,
    ensures
        ({
            let number = pad + page * s.note_offset;
            let on = model::host_in(s, short(0x90 + channel, number, velocity as int));
            let off = model::host_in(s, short(0x80 + channel, number, velocity as int));
            let zero = model::host_in(s, short(0x90 + channel, number, 0));
            let key = CacheKey::Note(pad);
            let shown = page == s.current_page;
            &&& velocity > 0 ==> writes(s, on.0, page as int, key, led_of_note(channel, velocity))
            &&& velocity > 0 ==> on.1 == to_device_if(
                shown,
                short(0x90 + channel, pad as int, velocity as int),
            )
            &&& writes(s, off.0, page as int, key, led_of_note(channel, 0))
            &&& off.1 == to_device_if(shown, short(0x80 + channel, pad as int, velocity as int))
            &&& writes(s, zero.0, page as int, key, led_of_note(channel, 0))
            &&& zero.1 == to_device_if(shown, short(0x80 + channel, pad as int, 0))
        }),
{
    let number = (pad + page * s.note_offset) as u8;
    lemma_split_number(s, pad, page);
    law_roles_of_buttons(s, ButtonRef::Note { number: pad }, 0);
    lemma_note_is_no_lighting(channel, number, velocity);
    lemma_note_is_no_lighting(channel, number, 0);
    lemma_cached_writes(s, page as int, CacheKey::Note(pad), led_of_note(channel, velocity));
    lemma_cached_writes(s, page as int, CacheKey::Note(pad), led_of_note(channel, 0));
    lemma_built(channel, pad, velocity);
    lemma_built(channel, pad, 0);
    lemma_one(short(0x90 + channel, pad as int, velocity as int));
    lemma_one(short(0x80 + channel, pad as int, velocity as int));
    lemma_one(short(0x80 + channel, pad as int, 0));
}

pub proof fn lemma_built(channel: u8, data1: u8, data2: u8)
    requires
        channel < 16,
        data1 < 128,
        data2 < 128,
    ensures
        parse::note_on_bytes(channel, data1, data2) == short(
            0x90 + channel,
            data1 as int,
            data2 as int,
        ),
        parse::note_off_bytes(channel, data1, data2) == short(
            0x80 + channel,
            data1 as int,
            data2 as int,
        ),
        parse::cc_bytes(channel, data1, data2) == short(
            0xB0 + channel,
            data1 as int,
            data2 as int,
        ),
{
    assert(parse::note_on_bytes(channel, data1, data2) =~= short(
        0x90 + channel,
        data1 as int,
        data2 as int,
    ));
    assert(parse::note_off_bytes(channel, data1, data2) =~= short(
        0x80 + channel,
        data1 as int,
        data2 as int,
    ));
    assert(parse::cc_bytes(channel, data1, data2) =~= short(
        0xB0 + channel,
        data1 as int,
        data2 as int,
    ));
}

/// Short messages are tagged as they read, and none is framed as a Lighting SysEx.
pub proof fn lemma_note_is_no_lighting(channel: u8, data1: u8, data2: u8)
    requires
        channel < 16,
    ensures
        ({
            let on = short(0x90 + channel, data1 as int, data2 as int);
            let off = short(0x80 + channel, data1 as int, data2 as int);
            let cc = short(0xB0 + channel, data1 as int, data2 as int);
            &&& data2 > 0 ==> parse::meaning(on) == (MsgView::NoteOn {
                channel,
                note: data1,
                velocity: data2,
            })
            &&& data2 == 0 ==> parse::meaning(on) == (MsgView::NoteOff {
                channel,
                note: data1,
                velocity: 0,
            })
            &&& parse::meaning(off) == (MsgView::NoteOff {
                channel,
                note: data1,
                velocity: data2,
            })
            &&& parse::meaning(cc) == (MsgView::Cc { channel, controller: data1, value: data2 })
            &&& !sysex_lighting::framed(on, sysex_lighting::MINI_MK3_BYTE)
            &&& !sysex_lighting::framed(off, sysex_lighting::MINI_MK3_BYTE)
            &&& !sysex_lighting::framed(cc, sysex_lighting::MINI_MK3_BYTE)
        }),
{
    let on = short(0x90 + channel, data1 as int, data2 as int);
    let off = short(0x80 + channel, data1 as int, data2 as int);
    let cc = short(0xB0 + channel, data1 as int, data2 as int);
    wire::law_status_tells_the_message((0x90 + channel) as u8, data1, data2, seq![]);
    wire::law_status_tells_the_message((0x80 + channel) as u8, data1, data2, seq![]);
    wire::law_status_tells_the_message((0xB0 + channel) as u8, data1, data2, seq![]);
    assert(on + seq![] =~= on);
    assert(off + seq![] =~= off);
    assert(cc + seq![] =~= cc);
}

/// In note-offset mode a note for a global button, by its own number or, if it is a
/// pad, by its number on any page, sets the LED that page zero keeps of it to the
/// latest write and goes to the device, whatever page is shown.
pub proof fn law_host_note_sets_global_button(
    s: ProxyState,
    button: u8,
    page: u8,
    channel: u8,
    velocity: u8,
)
    requires
        button < s.note_offset,
        page < s.led_cache.len(),
        page > 0 ==> (s.device.grid_note)(button),
        button + page * s.note_offset <= 127,
        everywhere(s, ButtonRef::Note { number: button }),
        channel < 16,
        velocity < 128,
    ensures
        ({
            let number = button + page * s.note_offset;
            let on = model::host_in(s, short(0x90 + channel, number, velocity as int));
            let off = model::host_in(s, short(0x80 + channel, number, velocity as int));
            let key = CacheKey::Note(button);
            &&& velocity > 0 ==> writes(s, on.0, 0, key, led_of_note(channel, velocity))
            &&& velocity > 0 ==> on.1 == seq![
                Sent::ToDevice(short(0x90 + channel, button as int, velocity as int)),
            ]
            &&& writes(s, off.0, 0, key, led_of_note(channel, 0))
            &&& off.1 == seq![
                Sent::ToDevice(short(0x80 + channel, button as int, velocity as int)),
            ]
        }),
{
    let number = (button + page * s.note_offset) as u8;
    lemma_split_number(s, button, page);
    law_roles_of_buttons(s, ButtonRef::Note { number: button }, 0);
    lemma_note_is_no_lighting(channel, number, velocity);
    lemma_cached_writes(s, 0, CacheKey::Note(button), led_of_note(channel, velocity));
    lemma_cached_writes(s, 0, CacheKey::Note(button), led_of_note(channel, 0));
    lemma_built(channel, button, velocity);
    lemma_one(short(0x90 + channel, button as int, velocity as int));
    lemma_one(short(0x80 + channel, button as int, velocity as int));
}

/// In note-offset mode a note that is neither a pad of some page nor a global button
/// goes to the device as it is, and nothing is kept of it.
pub proof fn law_host_note_of_no_pad_is_passed_on(
    s: ProxyState,
    note: u8,
    channel: u8,
    velocity: u8,
)
    requires
        s.note_offset >= 1,
        note < 128,
        note / s.note_offset >= s.led_cache.len() || !(s.device.grid_note)(note % s.note_offset),
        !everywhere(s, ButtonRef::Note { number: note }),
        channel < 16,
        velocity < 128,
    ensures
        velocity > 0 ==> model::host_in(
            s,
            short(0x90 + channel, note as int, velocity as int),
        ) == (
            s,
            seq![Sent::ToDevice(short(0x90 + channel, note as int, velocity as int))],
        ),
        model::host_in(s, short(0x80 + channel, note as int, velocity as int)) == (
            s,
            seq![Sent::ToDevice(short(0x80 + channel, note as int, velocity as int))],
        ),
{
    law_roles_of_buttons(s, ButtonRef::Note { number: note }, 0);
    lemma_note_is_no_lighting(channel, note, velocity);
    lemma_built(channel, note, velocity);
    lemma_one(short(0x90 + channel, note as int, velocity as int));
    lemma_one(short(0x80 + channel, note as int, velocity as int));
}

/// In note-offset mode a note for a global button that is a pad of no page is kept for page
/// zero under its own number, and goes to the device as it is.
pub proof fn law_host_note_of_global_button_off_the_pads(
    s: ProxyState,
    note: u8,
    channel: u8,
    velocity: u8,
)
    requires
        s.note_offset >= 1,
        s.led_cache.len() > 0,
        note < 128,
        note / s.note_offset >= s.led_cache.len() || !(s.device.grid_note)(note % s.note_offset),
        everywhere(s, ButtonRef::Note { number: note }),
        channel < 16,
        velocity < 128,
    ensures
        ({
            let on_bytes = short(0x90 + channel, note as int, velocity as int);
            let off_bytes = short(0x80 + channel, note as int, velocity as int);
            let on = model::host_in(s, on_bytes);
            let off = model::host_in(s, off_bytes);
            let key = CacheKey::Note(note);
            &&& velocity > 0 ==> writes(s, on.0, 0, key, led_of_note(channel, velocity))
            &&& velocity > 0 ==> on.1 == seq![Sent::ToDevice(on_bytes)]
            &&& writes(s, off.0, 0, key, led_of_note(channel, 0))
            &&& off.1 == seq![Sent::ToDevice(off_bytes)]
        }),
{
    law_roles_of_buttons(s, ButtonRef::Note { number: note }, 0);
    lemma_note_is_no_lighting(channel, note, velocity);
    lemma_cached_writes(s, 0, CacheKey::Note(note), led_of_note(channel, velocity));
    lemma_cached_writes(s, 0, CacheKey::Note(note), led_of_note(channel, 0));
    lemma_built(channel, note, velocity);
    lemma_one(short(0x90 + channel, note as int, velocity as int));
    lemma_one(short(0x80 + channel, note as int, velocity as int));
}

/// In note-offset mode a Control Change for a controller outside the grid goes to the
/// device as it is. Only of a global button is anything kept: its value, for page zero.
pub proof fn law_host_cc_outside_the_grid(s: ProxyState, bytes: Seq<u8>)
    requires
        parse::meaning(bytes) matches MsgView::Cc { controller, .. } && !(s.device.grid_cc)(
            controller,
        ),
        s.led_cache.len() > 0,
    ensures
        parse::meaning(bytes) matches MsgView::Cc { channel, controller, value } && ({
            let after = model::host_in(s, bytes);
            let button = ButtonRef::Cc { number: controller };
            &&& after.1 == seq![Sent::ToDevice(bytes)]
            &&& !everywhere(s, button) ==> after.0 == s
            &&& everywhere(s, button) ==> writes(
                s,
                after.0,
                0,
                CacheKey::Cc(controller),
                LedCell::Cc { channel, value },
            )
        }),
{
    if let MsgView::Cc { channel, controller, value } = parse::meaning(bytes) {
        law_roles_of_buttons(s, ButtonRef::Cc { number: controller }, 0);
        lemma_cached_writes(s, 0, CacheKey::Cc(controller), LedCell::Cc { channel, value });
        lemma_one(bytes);
        lemma_framed_is_sysex(bytes);
    }
}

/// In note-offset mode a Control Change for `pad + page * offset` of a grid of
/// controllers sets the LED of that controller on that page, or of a global button for
/// page zero, and goes to the device as one for the controller if it is to be seen.
pub proof fn law_host_cc_sets_its_pad(
    s: ProxyState,
    pad: u8,
    page: u8,
    channel: u8,
    value: u8,
)
    requires
        pad < s.note_offset,
        page < s.led_cache.len(),
        pad + page * s.note_offset <= 127,
        (s.device.grid_cc)((pad + page * s.note_offset) as u8),
        channel < 16,
        value < 128,
    ensures
        ({
            let number = pad + page * s.note_offset;
            let after = model::host_in(s, short(0xB0 + channel, number, value as int));
            let key = CacheKey::Cc(pad);
            let cell = LedCell::Cc { channel, value };
            let global = everywhere(s, ButtonRef::Cc { number: pad });
            &&& !global ==> writes(s, after.0, page as int, key, cell)
            &&& global ==> writes(s, after.0, 0, key, cell)
            &&& after.1 == to_device_if(
                global || page == s.current_page,
                short(0xB0 + channel, pad as int, value as int),
            )
        }),
{
    let number = (pad + page * s.note_offset) as u8;
    lemma_split_number(s, pad, page);
    law_roles_of_buttons(s, ButtonRef::Cc { number: pad }, 0);
    lemma_note_is_no_lighting(channel, number, value);
    lemma_cached_writes(s, page as int, CacheKey::Cc(pad), LedCell::Cc { channel, value });
    lemma_cached_writes(s, 0, CacheKey::Cc(pad), LedCell::Cc { channel, value });
    lemma_built(channel, pad, value);
    lemma_one(short(0xB0 + channel, pad as int, value as int));
}

proof fn lemma_framed_is_sysex(bytes: Seq<u8>)
    ensures
        sysex_lighting::framed(bytes, 0x0D) ==> parse::meaning(bytes) is SysEx,
{
    if sysex_lighting::framed(bytes, 0x0D) {
        assert(bytes.take(7)[0] == 0xF0);
        assert(bytes[0] == 0xF0);
    }
}

/// In note-offset mode anything that is no note, no Control Change and no Lighting
/// SysEx of the Mini MK3 goes to the device as it is.
pub proof fn law_host_other_messages_are_passed_on(s: ProxyState, bytes: Seq<u8>)
    requires
        parse::meaning(bytes) is SysEx || parse::meaning(bytes) is Other,
        sysex_lighting::lighting_entries(bytes, 0x0D) is Err,
    ensures
        model::host_in(s, bytes) == (s, seq![Sent::ToDevice(bytes)]),
{
    lemma_one(bytes);
}

// -- Lighting SysEx ---------------------------------------------------------

/// An entry that is for an LED number, and the last one for it.
pub open spec fn last_for(leds: Seq<LedSpec>, number: int, i: int) -> bool {
    &&& 0 <= i < leds.len()
    &&& leds[i].led_index == number
    &&& forall|j: int| i < j < leds.len() ==> (#[trigger] leds[j]).led_index != number
}

/// No entry is for the LED number.
pub open spec fn none_for(leds: Seq<LedSpec>, number: int) -> bool {
    forall|j: int| 0 <= j < leds.len() ==> (#[trigger] leds[j]).led_index != number
}

proof fn lemma_last_for(leds: Seq<LedSpec>, number: int, i: int)
    requires
        leds.len() > 0,
    ensures
        last_for(leds, number, i) && i < leds.len() - 1 ==> last_for(leds.drop_last(), number, i)
            && leds.last().led_index != number,
        last_for(leds, number, i) && i == leds.len() - 1 ==> leds.last().led_index == number,
        none_for(leds, number) ==> none_for(leds.drop_last(), number) && leds.last().led_index
            != number,
{
    let rest = leds.drop_last();
    if last_for(leds, number, i) && i < leds.len() - 1 {
        assert forall|j: int| i < j < rest.len() implies (#[trigger] rest[j]).led_index
            != number by {
            assert(leds[j].led_index != number);
        }
        assert(leds[leds.len() - 1].led_index != number);
    }
    if none_for(leds, number) {
        assert forall|j: int| 0 <= j < rest.len() implies (#[trigger] rest[j]).led_index
            != number by {
            assert(leds[j].led_index != number);
        }
        assert(leds[leds.len() - 1].led_index != number);
    }
}

proof fn lemma_leds_cached_at(
    s: ProxyState,
    leds: Seq<LedSpec>,
    pad: u8,
    page: int,
    i: int,
    k: CacheKey,
)
    requires
        s.note_offset >= 1,
        pad < s.note_offset,
        0 <= page < s.led_cache.len(),
        !everywhere(s, ButtonRef::Note { number: pad }),
    ensures
        ({
            let t = model::leds_cached(s, leds);
            let number = pad + page * s.note_offset;
            let key = CacheKey::Note(pad);
            &&& t == ProxyState { led_cache: t.led_cache, ..s }
            &&& t.led_cache.len() == s.led_cache.len()
            &&& last_for(leds, number, i) ==> display::at(t.led_cache[page], key) == Some(
                LedCell::SysexColor(leds[i].color),
            )
            &&& none_for(leds, number) ==> display::at(t.led_cache[page], key) == display::at(
                s.led_cache[page],
                key,
            )
            &&& k is Cc ==> display::at(t.led_cache[page], k) == display::at(s.led_cache[page], k)
        }),
    decreases leds.len(),
{
    if leds.len() > 0 {
        let number = pad + page * s.note_offset;
        let led = leds.last();
        let physical = led.led_index % s.note_offset;
        let target = led.led_index / s.note_offset;
        lemma_leds_cached_at(s, leds.drop_last(), pad, page, i, k);
        lemma_last_for(leds, number, i);
        law_roles_of_buttons(s, ButtonRef::Note { number: physical }, 0);
        law_roles_of_buttons(s, ButtonRef::Note { number: pad }, 0);
        vstd::arithmetic::div_mod::lemma_fundamental_div_mod(
            led.led_index as int,
            s.note_offset as int,
        );
        assert(s.note_offset * target == target * s.note_offset) by (nonlinear_arith);
        if led.led_index == number {
            vstd::arithmetic::div_mod::lemma_fundamental_div_mod_converse(
                number,
                s.note_offset as int,
                page,
                pad as int,
            );
        }
        let before = model::leds_cached(s, leds.drop_last());
        let t = model::leds_cached(s, leds);
        assert(t =~= ProxyState { led_cache: t.led_cache, ..s });
    }
}

proof fn lemma_leds_shown_at(
    s: ProxyState,
    leds: Seq<LedSpec>,
    display: Cells,
    pad: u8,
    i: int,
)
    requires
        s.note_offset >= 1,
        pad < s.note_offset,
        !everywhere(s, ButtonRef::Note { number: pad }),
    ensures
        ({
            let shown = display::leds_lit(display, model::leds_shown(s, leds));
            let number = pad + s.current_page * s.note_offset;
            let key = CacheKey::Note(pad);
            &&& last_for(leds, number, i) ==> display::at(shown, key) == Some(
                LedCell::SysexColor(leds[i].color),
            )
            &&& none_for(leds, number) ==> display::at(shown, key) == display::at(display, key)
        }),
    decreases leds.len(),
{
    if leds.len() > 0 {
        let page = s.current_page;
        let number = pad + page * s.note_offset;
        let led = leds.last();
        let physical = led.led_index % s.note_offset;
        let target = led.led_index / s.note_offset;
        let rest = model::leds_shown(s, leds.drop_last());
        lemma_leds_shown_at(s, leds.drop_last(), display, pad, i);
        lemma_last_for(leds, number, i);
        law_roles_of_buttons(s, ButtonRef::Note { number: physical }, 0);
        vstd::arithmetic::div_mod::lemma_fundamental_div_mod(
            led.led_index as int,
            s.note_offset as int,
        );
        assert(s.note_offset * target == target * s.note_offset) by (nonlinear_arith);
        if led.led_index == number {
            assert(0 <= page * s.note_offset) by (nonlinear_arith)
                requires
                    0 <= page,
                    0 <= s.note_offset,
            ;
            vstd::arithmetic::div_mod::lemma_fundamental_div_mod_converse(
                number,
                s.note_offset as int,
                page as int,
                pad as int,
            );
        }
        if model::led_shows(s, led) {
            let entry = LedSpec { led_index: physical, color: led.color };
            assert(rest.push(entry).drop_last() =~= rest);
            assert(rest.push(entry).last() == entry);
        }
    }
}

/// In note-offset mode a Lighting SysEx sets the LED of `pad` on `page` to the color of
/// its last entry for `pad + page * offset`, shown or not, and leaves it without one.
/// What the device shows of the pad follows the entries for the page shown, and those
/// alone.
pub proof fn law_host_lighting_sets_its_pads(
    s: ProxyState,
    bytes: Seq<u8>,
    leds: Seq<LedSpec>,
    pad: u8,
    page: int,
    i: int,
    display: Cells,
)
    requires
        sysex_lighting::lighting_entries(bytes, 0x0D) == Ok::<Seq<LedSpec>, SysexError>(leds),
        s.note_offset >= 1,
        pad < s.note_offset,
        0 <= page < s.led_cache.len(),
        !everywhere(s, ButtonRef::Note { number: pad }),
    ensures
        ({
            let (t, sent) = model::host_in(s, bytes);
            let number = pad + page * s.note_offset;
            let shown = pad + s.current_page * s.note_offset;
            let key = CacheKey::Note(pad);
            let after = display::lit_by_sent(display, sent);
            &&& t == ProxyState { led_cache: t.led_cache, ..s }
            &&& t.led_cache.len() == s.led_cache.len()
            &&& last_for(leds, number, i) ==> display::at(t.led_cache[page], key) == Some(
                LedCell::SysexColor(leds[i].color),
            )
            &&& none_for(leds, number) ==> display::at(t.led_cache[page], key) == display::at(
                s.led_cache[page],
                key,
            )
            &&& last_for(leds, shown, i) ==> display::at(after, key) == Some(
                LedCell::SysexColor(leds[i].color),
            )
            &&& none_for(leds, shown) ==> display::at(after, key) == display::at(display, key)
            &&& sent.len() <= 1
        }),
{
    lemma_entries_are_framed(bytes);
    lemma_leds_cached_at(s, leds, pad, page, i, CacheKey::Note(pad));
    lemma_leds_shown_at(s, leds, display, pad, i);
    display::lemma_lighting_lights(display, model::leds_shown(s, leds));
    display::lemma_sent_to_device(display, model::lighting(model::leds_shown(s, leds)));
}

proof fn lemma_entries_are_framed(bytes: Seq<u8>)
    ensures
        sysex_lighting::lighting_entries(bytes, 0x0D) is Ok ==> sysex_lighting::framed(
            bytes,
            0x0D,
        ) && parse::meaning(bytes) == MsgView::SysEx(bytes),
{
    if sysex_lighting::lighting_entries(bytes, 0x0D) is Ok {
        assert(bytes[0] == 0xF0);
    }
}

/// An entry that is for a pad on whatever page, and the last one for it.
pub open spec fn last_on_any_page(leds: Seq<LedSpec>, offset: u8, pad: u8, i: int) -> bool {
    &&& 0 <= i < leds.len()
    &&& leds[i].led_index % offset == pad
    &&& forall|j: int| i < j < leds.len() ==> (#[trigger] leds[j]).led_index % offset != pad
}

proof fn lemma_global_leds_cached_at(
    s: ProxyState,
    leds: Seq<LedSpec>,
    display: Cells,
    pad: u8,
    i: int,
)
    requires
        s.note_offset >= 1,
        s.led_cache.len() > 0,
        everywhere(s, ButtonRef::Note { number: pad }),
        last_on_any_page(leds, s.note_offset, pad, i),
    ensures
        ({
            let t = model::leds_cached(s, leds);
            let shown = display::leds_lit(display, model::leds_shown(s, leds));
            let key = CacheKey::Note(pad);
            &&& t.led_cache.len() == s.led_cache.len()
            &&& display::at(t.led_cache[0], key) == Some(LedCell::SysexColor(leds[i].color))
            &&& display::at(shown, key) == Some(LedCell::SysexColor(leds[i].color))
        }),
    decreases leds.len(),
{
    let rest = leds.drop_last();
    let led = leds.last();
    let physical = led.led_index % s.note_offset;
    let entry = LedSpec { led_index: physical, color: led.color };
    let shown = model::leds_shown(s, rest);
    law_roles_of_buttons(s, ButtonRef::Note { number: physical }, 0);
    if model::led_shows(s, led) {
        assert(shown.push(entry).drop_last() =~= shown);
        assert(shown.push(entry).last() == entry);
    }
    laws::lemma_leds_keep_the_pages(s, rest);
    if i < rest.len() {
        assert forall|j: int| i < j < rest.len() implies (#[trigger] rest[j]).led_index
            % s.note_offset != pad by {
            assert(leds[j].led_index % s.note_offset != pad);
        }
        assert(leds[leds.len() - 1].led_index % s.note_offset != pad);
        lemma_global_leds_cached_at(s, rest, display, pad, i);
    }
}

/// In note-offset mode a Lighting SysEx sets the LED that page zero keeps of a global
/// button to the color of the last entry for it on any page, and the device shows it.
pub proof fn law_host_lighting_sets_global_buttons(
    s: ProxyState,
    bytes: Seq<u8>,
    leds: Seq<LedSpec>,
    pad: u8,
    i: int,
    display: Cells,
)
    requires
        sysex_lighting::lighting_entries(bytes, 0x0D) == Ok::<Seq<LedSpec>, SysexError>(leds),
        s.note_offset >= 1,
        s.led_cache.len() > 0,
        everywhere(s, ButtonRef::Note { number: pad }),
        last_on_any_page(leds, s.note_offset, pad, i),
    ensures
        ({
            let (t, sent) = model::host_in(s, bytes);
            let key = CacheKey::Note(pad);
            let color = LedCell::SysexColor(leds[i].color);
            &&& display::at(t.led_cache[0], key) == Some(color)
            &&& display::at(display::lit_by_sent(display, sent), key) == Some(color)
        }),
{
    lemma_entries_are_framed(bytes);
    lemma_global_leds_cached_at(s, leds, display, pad, i);
    display::lemma_lighting_lights(display, model::leds_shown(s, leds));
    display::lemma_sent_to_device(display, model::lighting(model::leds_shown(s, leds)));
}

/// An entry is for an LED of a page: by the remainder of its number and, unless it is a
/// global button, by the quotient; global buttons are of page zero.
pub open spec fn is_for(s: ProxyState, led: LedSpec, page: int, key: CacheKey) -> bool {
    let pad = led.led_index % s.note_offset;
    &&& key == CacheKey::Note(pad)
    &&& page == if everywhere(s, ButtonRef::Note { number: pad }) {
        0int
    } else {
        (led.led_index / s.note_offset) as int
    }
}

/// An entry is for an LED that is seen: of the page shown, or of a global button.
pub open spec fn is_seen_at(s: ProxyState, led: LedSpec, key: CacheKey) -> bool {
    let pad = led.led_index % s.note_offset;
    &&& key == CacheKey::Note(pad)
    &&& everywhere(s, ButtonRef::Note { number: pad }) || led.led_index / s.note_offset
        == s.current_page
}

/// In note-offset mode a Lighting SysEx leaves alone every LED of every page that no entry
/// is for, and the device every LED that no entry is seen at.
pub proof fn law_host_lighting_leaves_the_rest(
    s: ProxyState,
    bytes: Seq<u8>,
    leds: Seq<LedSpec>,
    page: int,
    key: CacheKey,
    display: Cells,
)
    requires
        sysex_lighting::lighting_entries(bytes, 0x0D) == Ok::<Seq<LedSpec>, SysexError>(leds),
        s.note_offset >= 1,
        0 <= page < s.led_cache.len(),
    ensures
        ({
            let (t, sent) = model::host_in(s, bytes);
            &&& t == ProxyState { led_cache: t.led_cache, ..s }
            &&& (forall|j: int| 0 <= j < leds.len() ==> !is_for(s, #[trigger] leds[j], page, key))
                ==> display::at(t.led_cache[page], key) == display::at(s.led_cache[page], key)
            &&& (forall|j: int| 0 <= j < leds.len() ==> !is_seen_at(s, #[trigger] leds[j], key))
                ==> display::at(display::lit_by_sent(display, sent), key) == display::at(
                display,
                key,
            )
            &&& (forall|j: int, k: CacheKey|
                0 <= j < leds.len() ==> !#[trigger] is_seen_at(s, leds[j], k)) ==> sent.len() == 0
        }),
{
    lemma_entries_are_framed(bytes);
    lemma_lighting_leaves(s, leds, page, key, display);
    display::lemma_lighting_lights(display, model::leds_shown(s, leds));
    display::lemma_sent_to_device(display, model::lighting(model::leds_shown(s, leds)));
}

proof fn lemma_lighting_leaves(
    s: ProxyState,
    leds: Seq<LedSpec>,
    page: int,
    key: CacheKey,
    display: Cells,
)
    requires
        s.note_offset >= 1,
        0 <= page < s.led_cache.len(),
    ensures
        ({
            let t = model::leds_cached(s, leds);
            let shown = model::leds_shown(s, leds);
            &&& t == ProxyState { led_cache: t.led_cache, ..s }
            &&& t.led_cache.len() == s.led_cache.len()
            &&& (forall|j: int| 0 <= j < leds.len() ==> !is_for(s, #[trigger] leds[j], page, key))
                ==> display::at(t.led_cache[page], key) == display::at(s.led_cache[page], key)
            &&& (forall|j: int| 0 <= j < leds.len() ==> !is_seen_at(s, #[trigger] leds[j], key))
                ==> display::at(display::leds_lit(display, shown), key) == display::at(
                display,
                key,
            )
            &&& (forall|j: int, k: CacheKey|
                0 <= j < leds.len() ==> !#[trigger] is_seen_at(s, leds[j], k)) ==> shown.len() == 0
        }),
    decreases leds.len(),
{
    if leds.len() > 0 {
        let led = leds.last();
        let rest = leds.drop_last();
        let pad = led.led_index % s.note_offset;
        let t = model::leds_cached(s, leds);
        lemma_lighting_leaves(s, rest, page, key, display);
        law_roles_of_buttons(s, ButtonRef::Note { number: pad }, 0);
        assert(leds[leds.len() - 1] == led);
        assert(forall|j: int| 0 <= j < rest.len() ==> rest[j] == leds[j]);
        assert(t =~= ProxyState { led_cache: t.led_cache, ..s });
        let shown = model::leds_shown(s, rest);
        if model::led_shows(s, led) {
            let entry = LedSpec { led_index: pad, color: led.color };
            assert(shown.push(entry).drop_last() =~= shown);
            assert(shown.push(entry).last() == entry);
            assert(is_seen_at(s, leds[leds.len() - 1], CacheKey::Note(pad)));
        }
        if forall|j: int| 0 <= j < leds.len() ==> !is_for(s, #[trigger] leds[j], page, key) {
            assert forall|j: int| 0 <= j < rest.len() implies !is_for(
                s,
                #[trigger] rest[j],
                page,
                key,
            ) by {
                assert(!is_for(s, leds[j], page, key));
            }
        }
        if forall|j: int| 0 <= j < leds.len() ==> !is_seen_at(s, #[trigger] leds[j], key) {
            assert forall|j: int| 0 <= j < rest.len() implies !is_seen_at(
                s,
                #[trigger] rest[j],
                key,
            ) by {
                assert(!is_seen_at(s, leds[j], key));
            }
        }
        if forall|j: int, k: CacheKey|
            0 <= j < leds.len() ==> !#[trigger] is_seen_at(s, leds[j], k) {
            assert forall|j: int, k: CacheKey| 0 <= j < rest.len() implies !#[trigger] is_seen_at(
                s,
                rest[j],
                k,
            ) by {
                assert(!is_seen_at(s, leds[j], k));
            }
        }
    }
}

// -- The host on the port of a page -----------------------------------------

/// On the port of a page a note for a pad sets the LED of that pad on that page: a Note
/// On to its velocity, a Note Off to off. The bytes go to the device as they are if the
/// page is the one shown.
pub proof fn law_port_note_sets_its_pad(s: ProxyState, page: u8, bytes: Seq<u8>)
    requires
        page < s.led_cache.len(),
    ensures
        ({
            let after = model::host_in_per_port(s, page, bytes);
            let shown = to_device_if(page == s.current_page, bytes);
            &&& parse::meaning(bytes) matches MsgView::NoteOn { channel, note, velocity } ==> {
                let global = everywhere(s, ButtonRef::Note { number: note });
                &&& !global && (s.device.grid_note)(note) ==> after.1 == shown && writes(
                    s,
                    after.0,
                    page as int,
                    CacheKey::Note(note),
                    led_of_note(channel, velocity),
                )
                &&& !global && !(s.device.grid_note)(note) ==> after == (s, shown)
            }
            &&& parse::meaning(bytes) matches MsgView::NoteOff { channel, note, .. } ==> {
                let global = everywhere(s, ButtonRef::Note { number: note });
                &&& !global && (s.device.grid_note)(note) ==> after.1 == shown && writes(
                    s,
                    after.0,
                    page as int,
                    CacheKey::Note(note),
                    led_of_note(channel, 0),
                )
                &&& !global && !(s.device.grid_note)(note) ==> after == (s, shown)
            }
        }),
{
    lemma_one(bytes);
    match parse::meaning(bytes) {
        MsgView::NoteOn { channel, note, velocity } => {
            law_roles_of_buttons(s, ButtonRef::Note { number: note }, 0);
            lemma_cached_writes(
                s,
                page as int,
                CacheKey::Note(note),
                led_of_note(channel, velocity),
            );
        },
        MsgView::NoteOff { channel, note, .. } => {
            law_roles_of_buttons(s, ButtonRef::Note { number: note }, 0);
            lemma_cached_writes(s, page as int, CacheKey::Note(note), led_of_note(channel, 0));
        },
        _ => {},
    }
}

/// On the port of any page a message for a global button sets the LED that page zero
/// keeps of it to what it says, whatever was there before, and goes to the device.
pub proof fn law_port_message_sets_global_button(s: ProxyState, page: u8, bytes: Seq<u8>)
    requires
        page < s.led_cache.len(),
    ensures
        ({
            let after = model::host_in_per_port(s, page, bytes);
            &&& parse::meaning(bytes) matches MsgView::NoteOn { channel, note, velocity } ==> everywhere(
                s,
                ButtonRef::Note { number: note },
            ) ==> after.1 == seq![Sent::ToDevice(bytes)] && writes(
                s,
                after.0,
                0,
                CacheKey::Note(note),
                led_of_note(channel, velocity),
            )
            &&& parse::meaning(bytes) matches MsgView::NoteOff { channel, note, .. } ==> everywhere(
                s,
                ButtonRef::Note { number: note },
            ) ==> after.1 == seq![Sent::ToDevice(bytes)] && writes(
                s,
                after.0,
                0,
                CacheKey::Note(note),
                led_of_note(channel, 0),
            )
            &&& parse::meaning(bytes) matches MsgView::Cc { channel, controller, value } ==> everywhere(
                s,
                ButtonRef::Cc { number: controller },
            ) ==> after.1 == seq![Sent::ToDevice(bytes)] && writes(
                s,
                after.0,
                0,
                CacheKey::Cc(controller),
                LedCell::Cc { channel, value },
            )
        }),
{
    lemma_one(bytes);
    match parse::meaning(bytes) {
        MsgView::NoteOn { channel, note, velocity } => {
            law_roles_of_buttons(s, ButtonRef::Note { number: note }, 0);
            lemma_cached_writes(s, 0, CacheKey::Note(note), led_of_note(channel, velocity));
        },
        MsgView::NoteOff { channel, note, .. } => {
            law_roles_of_buttons(s, ButtonRef::Note { number: note }, 0);
            lemma_cached_writes(s, 0, CacheKey::Note(note), led_of_note(channel, 0));
        },
        MsgView::Cc { channel, controller, value } => {
            law_roles_of_buttons(s, ButtonRef::Cc { number: controller }, 0);
            lemma_cached_writes(s, 0, CacheKey::Cc(controller), LedCell::Cc { channel, value });
        },
        _ => {},
    }
}

/// On the port of a page a Control Change sets the LED of its controller on that page,
/// unless the controller navigates: then nothing is kept. The bytes go to the device as
/// they are if the page is the one shown.
pub proof fn law_port_cc_sets_its_controller(s: ProxyState, page: u8, bytes: Seq<u8>)
    requires
        page < s.led_cache.len(),
        parse::meaning(bytes) matches MsgView::Cc { controller, .. } && !everywhere(
            s,
            ButtonRef::Cc { number: controller },
        ),
    ensures
        parse::meaning(bytes) matches MsgView::Cc { channel, controller, value } && ({
            let after = model::host_in_per_port(s, page, bytes);
            &&& after.1 == to_device_if(page == s.current_page, bytes)
            &&& navigates(s, ButtonRef::Cc { number: controller }) ==> after.0 == s
            &&& !navigates(s, ButtonRef::Cc { number: controller }) ==> writes(
                s,
                after.0,
                page as int,
                CacheKey::Cc(controller),
                LedCell::Cc { channel, value },
            )
        }),
{
    lemma_one(bytes);
    if let MsgView::Cc { channel, controller, value } = parse::meaning(bytes) {
        law_roles_of_buttons(s, ButtonRef::Cc { number: controller }, 0);
        lemma_cached_writes(
            s,
            page as int,
            CacheKey::Cc(controller),
            LedCell::Cc { channel, value },
        );
    }
}

proof fn lemma_port_leds_cached_at(
    s: ProxyState,
    page: u8,
    leds: Seq<LedSpec>,
    n: u8,
    other: int,
    i: int,
)
    requires
        page < s.led_cache.len(),
        0 <= other < s.led_cache.len(),
    ensures
        ({
            let t = model::port_leds_cached(s, page, leds);
            let target = if everywhere(s, ButtonRef::Note { number: n }) {
                0
            } else {
                page as int
            };
            let key = CacheKey::Note(n);
            &&& t == ProxyState { led_cache: t.led_cache, ..s }
            &&& t.led_cache.len() == s.led_cache.len()
            &&& last_for(leds, n as int, i) ==> display::at(t.led_cache[target], key) == Some(
                LedCell::SysexColor(leds[i].color),
            )
            &&& none_for(leds, n as int) || other != target ==> display::at(t.led_cache[other], key) == display::at(
                s.led_cache[other],
                key,
            )
            &&& display::at(t.led_cache[other], CacheKey::Cc(n)) == display::at(
                s.led_cache[other],
                CacheKey::Cc(n),
            )
        }),
    decreases leds.len(),
{
    if leds.len() > 0 {
        let led = leds.last();
        lemma_port_leds_cached_at(s, page, leds.drop_last(), n, other, i);
        lemma_last_for(leds, n as int, i);
        law_roles_of_buttons(s, ButtonRef::Note { number: led.led_index }, 0);
        let t = model::port_leds_cached(s, page, leds);
        assert(t =~= ProxyState { led_cache: t.led_cache, ..s });
    }
}

proof fn lemma_global_leds_at(s: ProxyState, leds: Seq<LedSpec>, display: Cells, n: u8, i: int)
    ensures
        ({
            let shown = display::leds_lit(display, model::global_leds(s, leds));
            let key = CacheKey::Note(n);
            let global = everywhere(s, ButtonRef::Note { number: n });
            &&& global && last_for(leds, n as int, i) ==> display::at(shown, key) == Some(
                LedCell::SysexColor(leds[i].color),
            )
            &&& !global || none_for(leds, n as int) ==> display::at(shown, key) == display::at(display, key)
        }),
    decreases leds.len(),
{
    if leds.len() > 0 {
        let led = leds.last();
        let rest = model::global_leds(s, leds.drop_last());
        lemma_global_leds_at(s, leds.drop_last(), display, n, i);
        lemma_last_for(leds, n as int, i);
        law_roles_of_buttons(s, ButtonRef::Note { number: led.led_index }, 0);
        assert(rest.push(led).drop_last() =~= rest);
        assert(rest.push(led).last() == led);
    }
}

/// On the port of a page a Lighting SysEx sets each LED that it names to the color of
/// its last entry for it: on that page, or for page zero if it is a global button, and
/// no other LED. It goes to the device as it is if the page is the one shown; if not,
/// the device shows its global buttons and no other.
pub proof fn law_port_lighting_sets_its_leds(
    s: ProxyState,
    page: u8,
    bytes: Seq<u8>,
    leds: Seq<LedSpec>,
    n: u8,
    other: int,
    i: int,
    display: Cells,
)
    requires
        sysex_lighting::lighting_entries(bytes, 0x0D) == Ok::<Seq<LedSpec>, SysexError>(leds),
        page < s.led_cache.len(),
        0 <= other < s.led_cache.len(),
    ensures
        ({
            let (t, sent) = model::host_in_per_port(s, page, bytes);
            let global = everywhere(s, ButtonRef::Note { number: n });
            let target = if global {
                0
            } else {
                page as int
            };
            let key = CacheKey::Note(n);
            let after = display::lit_by_sent(display, sent);
            &&& t == ProxyState { led_cache: t.led_cache, ..s }
            &&& t.led_cache.len() == s.led_cache.len()
            &&& last_for(leds, n as int, i) ==> display::at(t.led_cache[target], key) == Some(
                LedCell::SysexColor(leds[i].color),
            )
            &&& none_for(leds, n as int) || other != target ==> display::at(t.led_cache[other], key) == display::at(
                s.led_cache[other],
                key,
            )
            &&& display::at(t.led_cache[other], CacheKey::Cc(n)) == display::at(
                s.led_cache[other],
                CacheKey::Cc(n),
            )
            &&& page == s.current_page ==> sent == seq![Sent::ToDevice(bytes)]
            &&& page != s.current_page && global && last_for(leds, n as int, i) ==> display::at(after, key)
                == Some(LedCell::SysexColor(leds[i].color))
            &&& page != s.current_page && (!global || none_for(leds, n as int)) ==> display::at(after, key)
                == display::at(display, key)
            &&& sent.len() <= 1
        }),
{
    lemma_entries_are_framed(bytes);
    lemma_port_leds_cached_at(s, page, leds, n, other, i);
    lemma_global_leds_at(s, leds, display, n, i);
    lemma_one(bytes);
    display::lemma_lighting_lights(display, model::global_leds(s, leds));
    display::lemma_sent_to_device(display, model::lighting(model::global_leds(s, leds)));
}

/// On the port of a page anything else is kept nowhere, and goes to the device as it is
/// if the page is the one shown. A page that is not there has no port to hear.
pub proof fn law_port_other_messages(s: ProxyState, page: u8, bytes: Seq<u8>)
    ensures
        page >= s.led_cache.len() ==> model::host_in_per_port(s, page, bytes) == (
            s,
            Seq::<Sent>::empty(),
        ),
        page < s.led_cache.len() && (parse::meaning(bytes) is Other || (parse::meaning(
            bytes,
        ) is SysEx && sysex_lighting::lighting_entries(bytes, 0x0D) is Err))
            ==> model::host_in_per_port(s, page, bytes) == (
            s,
            to_device_if(page == s.current_page, bytes),
        ),
{
    lemma_one(bytes);
}

// -- The device -------------------------------------------------------------

/// What the host gets: on its single port in note-offset mode, on the port of the page
/// in per-port mode.
pub open spec fn to_host_on(s: ProxyState, page: u8, bytes: Seq<u8>) -> Sent {
    if s.mode == Mode::NoteOffset {
        Sent::ToHost(bytes)
    } else {
        Sent::ToHostPage { page, bytes }
    }
}

/// A press of a pad goes to the host on the page shown, in note-offset mode with the
/// number `pad + page * offset`, and the pad counts as held on its channel. A release
/// does too, but for a pad that was let go already, and the pad counts as up.
/// Nothing else changes.
pub proof fn law_pad_is_passed_on(s: ProxyState, bytes: Seq<u8>)
    requires
        s.mode == Mode::NoteOffset ==> display::is_midi_message(bytes),
    ensures
        parse::meaning(bytes) matches MsgView::NoteOn { channel, note, velocity } ==> is_free_pad(
            s,
            note,
        ) && (s.mode == Mode::NoteOffset ==> note + s.current_page * s.note_offset <= 127) ==> {
            let after = model::device_in(s, bytes);
            &&& after.0 == ProxyState { held: s.held.insert(note, channel), ..s }
            &&& s.mode == Mode::PerPort ==> after.1 == seq![
                Sent::ToHostPage { page: s.current_page, bytes },
            ]
            &&& s.mode == Mode::NoteOffset ==> after.1 == seq![
                Sent::ToHost(
                    short(0x90 + channel, note + s.current_page * s.note_offset, velocity as int),
                ),
            ]
        },
        parse::meaning(bytes) matches MsgView::NoteOff { channel, note, velocity } ==> is_free_pad(
            s,
            note,
        ) && (s.mode == Mode::NoteOffset ==> note + s.current_page * s.note_offset <= 127) ==> {
            let after = model::device_in(s, bytes);
            &&& after.0 == ProxyState {
                held: s.held.remove(note),
                suppressed: s.suppressed.remove(note),
                ..s
            }
            &&& s.suppressed.contains(note) ==> after.1 == Seq::<Sent>::empty()
            &&& !s.suppressed.contains(note) && s.mode == Mode::PerPort ==> after.1 == seq![
                Sent::ToHostPage { page: s.current_page, bytes },
            ]
            &&& !s.suppressed.contains(note) && s.mode == Mode::NoteOffset ==> after.1 == seq![
                Sent::ToHost(
                    short(0x80 + channel, note + s.current_page * s.note_offset, velocity as int),
                ),
            ]
        },
{
    assert(0 <= s.current_page * s.note_offset) by (nonlinear_arith)
        requires
            0 <= s.current_page,
            0 <= s.note_offset,
    ;
    match parse::meaning(bytes) {
        MsgView::NoteOn { channel, note, velocity } => {
            lemma_free_pad(s, note);
            let number = note + s.current_page * s.note_offset;
            if s.mode == Mode::NoteOffset && number <= 127 {
                lemma_built(channel, number as u8, velocity);
            }
        },
        MsgView::NoteOff { channel, note, velocity } => {
            lemma_free_pad(s, note);
            let number = note + s.current_page * s.note_offset;
            if s.mode == Mode::NoteOffset && number <= 127 {
                lemma_built(channel, number as u8, velocity);
            }
        },
        _ => {},
    }
}

/// A controller of the grid goes to the host on the page shown, in note-offset mode with
/// its number on that page. Nothing changes.
pub proof fn law_grid_controller_is_passed_on(s: ProxyState, bytes: Seq<u8>)
    requires
        s.mode == Mode::NoteOffset ==> display::is_midi_message(bytes),
        parse::meaning(bytes) matches MsgView::Cc { controller, .. } && (s.device.grid_cc)(
            controller,
        ) && !navigates(s, ButtonRef::Cc { number: controller }) && !everywhere(
            s,
            ButtonRef::Cc { number: controller },
        ) && (s.mode == Mode::NoteOffset ==> controller + s.current_page * s.note_offset <= 127),
    ensures
        parse::meaning(bytes) matches MsgView::Cc { channel, controller, value } && ({
            let after = model::device_in(s, bytes);
            &&& after.0 == s
            &&& s.mode == Mode::PerPort ==> after.1 == seq![
                Sent::ToHostPage { page: s.current_page, bytes },
            ]
            &&& s.mode == Mode::NoteOffset ==> after.1 == seq![
                Sent::ToHost(
                    short(
                        0xB0 + channel,
                        controller + s.current_page * s.note_offset,
                        value as int,
                    ),
                ),
            ]
        }),
{
    if let MsgView::Cc { channel, controller, value } = parse::meaning(bytes) {
        law_roles_of_buttons(s, ButtonRef::Cc { number: controller }, 0);
        assert(0 <= s.current_page * s.note_offset) by (nonlinear_arith)
            requires
                0 <= s.current_page,
                0 <= s.note_offset,
        ;
        let number = controller + s.current_page * s.note_offset;
        if s.mode == Mode::NoteOffset {
            lemma_built(channel, number as u8, value);
        }
    }
}

/// A global button goes to the host on page zero as it is. A button outside the grid, a
/// SysEx and anything else go to it on the page shown as they are. Nothing changes.
pub proof fn law_other_buttons_are_passed_on(s: ProxyState, bytes: Seq<u8>)
    ensures
        ({
            let after = model::device_in(s, bytes);
            let shown = (s, seq![to_host_on(s, s.current_page, bytes)]);
            let zero = (s, seq![to_host_on(s, 0, bytes)]);
            &&& parse::meaning(bytes) matches MsgView::NoteOn { note, .. } ==> !navigates(
                s,
                ButtonRef::Note { number: note },
            ) ==> {
                &&& everywhere(s, ButtonRef::Note { number: note }) ==> after == zero
                &&& !everywhere(s, ButtonRef::Note { number: note }) && !(s.device.grid_note)(note)
                    ==> after == shown
            }
            &&& parse::meaning(bytes) matches MsgView::NoteOff { note, .. } ==> !navigates(
                s,
                ButtonRef::Note { number: note },
            ) ==> {
                &&& everywhere(s, ButtonRef::Note { number: note }) ==> after == zero
                &&& !everywhere(s, ButtonRef::Note { number: note }) && !(s.device.grid_note)(note)
                    ==> after == shown
            }
            &&& parse::meaning(bytes) matches MsgView::Cc { controller, .. } ==> !navigates(
                s,
                ButtonRef::Cc { number: controller },
            ) ==> {
                &&& everywhere(s, ButtonRef::Cc { number: controller }) ==> after == zero
                &&& !everywhere(s, ButtonRef::Cc { number: controller }) && !(s.device.grid_cc)(
                    controller,
                ) ==> after == shown
            }
            &&& parse::meaning(bytes) is SysEx || parse::meaning(bytes) is Other ==> after == shown
        }),
{
    match parse::meaning(bytes) {
        MsgView::NoteOn { note, .. } => {
            law_roles_of_buttons(s, ButtonRef::Note { number: note }, 0)
        },
        MsgView::NoteOff { note, .. } => {
            law_roles_of_buttons(s, ButtonRef::Note { number: note }, 0)
        },
        MsgView::Cc { controller, .. } => {
            law_roles_of_buttons(s, ButtonRef::Cc { number: controller }, 0)
        },
        _ => {},
    }
}

} // verus!
