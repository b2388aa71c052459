//! What the navigation buttons do: which page they move to, and how they are lit.

use vstd::prelude::*;

use crate::config::{ButtonRef, Mode};
use crate::midi::device::{self, DeviceModel};
use crate::midi::parse::{self, MsgView};
use crate::proxy::display;
use crate::proxy::effects;
use crate::proxy::laws;
use crate::proxy::led_cache::{self, CacheKey, LedCell};
use crate::proxy::model::{self, Cells, ProxyState, Sent};

verus! {

// -- Presses and releases ---------------------------------------------------

/// A message that presses a button: a Note On, or a Control Change with a value.
pub open spec fn presses(bytes: Seq<u8>, button: ButtonRef) -> bool {
    match parse::meaning(bytes) {
        MsgView::NoteOn { note, .. } => button == (ButtonRef::Note { number: note }),
        MsgView::Cc { controller, value, .. } => value > 0 && button == (ButtonRef::Cc {
            number: controller,
        }),
        _ => false,
    }
}

/// A message that releases a button: a Note Off, or a Control Change to zero.
pub open spec fn releases(bytes: Seq<u8>, button: ButtonRef) -> bool {
    match parse::meaning(bytes) {
        MsgView::NoteOff { note, .. } => button == (ButtonRef::Note { number: note }),
        MsgView::Cc { controller, value, .. } => value == 0 && button == (ButtonRef::Cc {
            number: controller,
        }),
        _ => false,
    }
}

/// The next-page or the previous-page button.
pub open spec fn cycles(s: ProxyState, button: ButtonRef) -> bool {
    s.next_page_button == Some(button) || s.previous_page_button == Some(button)
}

/// A press of a page button without hold turns to its page for good. While another
/// page is previewed it is not seen yet. A page that is not there changes nothing.
pub proof fn law_tap_of_a_page_button(s: ProxyState, bytes: Seq<u8>, button: ButtonRef, i: int)
    requires
        presses(bytes, button),
        !cycles(s, button),
        effects::is_entry(s, button, i),
        !s.page_buttons[i].hold,
    ensures
        ({
            let page = s.page_buttons[i].page;
            let moved = ProxyState { persistent_page: page, ..s };
            let after = model::device_in(s, bytes);
            &&& page >= s.pages ==> after == (s, Seq::<Sent>::empty())
            &&& page < s.pages && s.held_preview is Some ==> after == (moved, Seq::<Sent>::empty())
            &&& page < s.pages && s.held_preview is None ==> after == model::page_changed(
                moved,
                page,
            )
        }),
{
    effects::law_roles_of_buttons(s, button, i);
}

/// A press of a page button with hold shows its page until that button is released,
/// and leaves the persistent page alone. Nothing happens if it is previewed already,
/// or not there.
pub proof fn law_hold_of_a_page_button(s: ProxyState, bytes: Seq<u8>, button: ButtonRef, i: int)
    requires
        presses(bytes, button),
        !cycles(s, button),
        effects::is_entry(s, button, i),
        s.page_buttons[i].hold,
    ensures
        ({
            let page = s.page_buttons[i].page;
            let after = model::device_in(s, bytes);
            &&& page >= s.pages || s.held_preview == Some(page) ==> after == (
                s,
                Seq::<Sent>::empty(),
            )
            &&& page < s.pages && s.held_preview != Some(page) ==> after == model::page_changed(
                ProxyState { held_preview: Some(page), held_preview_button: Some(button), ..s },
                page,
            )
        }),
{
    effects::law_roles_of_buttons(s, button, i);
}

/// A release of the button that holds the preview goes back to the persistent page. A
/// release of any other navigation button does nothing.
pub proof fn law_release_of_a_navigation_button(
    s: ProxyState,
    bytes: Seq<u8>,
    button: ButtonRef,
    i: int,
)
    requires
        releases(bytes, button),
        effects::navigates(s, button),
    ensures
        ({
            let after = model::device_in(s, bytes);
            let ends = !cycles(s, button) && effects::is_entry(s, button, i) && s.page_buttons[i].hold
                && s.held_preview is Some && s.held_preview_button == Some(button);
            &&& ends ==> after == model::page_changed(
                ProxyState { held_preview: None, held_preview_button: None, ..s },
                s.persistent_page,
            )
            &&& cycles(s, button) || s.held_preview_button != Some(button) || s.held_preview is None
                ==> after == (s, Seq::<Sent>::empty())
            &&& effects::is_entry(s, button, i) && !s.page_buttons[i].hold ==> after == (
                s,
                Seq::<Sent>::empty(),
            )
        }),
{
    effects::law_roles_of_buttons(s, button, i);
}

/// A press of the next-page button flashes it and turns to the page after the
/// persistent one; on the last page it only flashes. The previous-page button does the
/// same the other way. A button that is both is the next-page button.
pub proof fn law_press_of_a_cycle_button(s: ProxyState, bytes: Seq<u8>, button: ButtonRef)
    requires
        presses(bytes, button),
        cycles(s, button),
        s.persistent_page < s.pages,
    ensures
        ({
            let (t, sent) = model::device_in(s, bytes);
            let page = if s.next_page_button == Some(button) {
                s.persistent_page + 1
            } else {
                s.persistent_page - 1
            };
            let moved = ProxyState { persistent_page: page as u8, ..s };
            &&& sent.len() >= 2
            &&& !(0 <= page < s.pages) ==> t == s && sent.skip(2) == Seq::<Sent>::empty()
            &&& 0 <= page < s.pages && s.held_preview is Some ==> t == moved && sent.skip(2)
                == Seq::<Sent>::empty()
            &&& 0 <= page < s.pages && s.held_preview is None ==> (t, sent.skip(2))
                == model::page_changed(moved, page as u8)
        }),
{
    effects::law_roles_of_buttons(s, button, 0);
    let forward = s.next_page_button == Some(button);
    let sent = model::device_in(s, bytes).1;
    assert(sent.skip(2) =~= model::cycled(s, forward).1);
}

/// Setting the persistent page turns to it, unless another page is previewed.
pub proof fn law_setting_the_page(s: ProxyState, page: u8)
    ensures
        ({
            let after = model::persistent_page_set(s, page);
            let moved = ProxyState { persistent_page: page, ..s };
            &&& page >= s.pages ==> after == (s, Seq::<Sent>::empty())
            &&& page < s.pages && s.held_preview is Some ==> after == (moved, Seq::<Sent>::empty())
            &&& page < s.pages && s.held_preview is None ==> after == model::page_changed(
                moved,
                page,
            )
        }),
{
}

// -- A page change ----------------------------------------------------------

/// A page change sets the page shown, remembers every held pad as let go, and changes
/// nothing else. A page that is not there changes nothing at all.
pub proof fn law_page_change_changes_only_the_page(s: ProxyState, page: u8)
    ensures
        page >= s.pages ==> model::page_changed(s, page) == (s, Seq::<Sent>::empty()),
        page < s.pages ==> ({
            let t = model::page_changed(s, page).0;
            &&& t == ProxyState { current_page: page, suppressed: t.suppressed, ..s }
            &&& forall|n: u8| #[trigger]
                t.suppressed.contains(n) <==> s.suppressed.contains(n) || s.held.contains_key(n)
        }),
{
}

/// The Note Off that lets a held pad go on the page shown.
pub open spec fn lets_go(s: ProxyState, pad: u8, message: Sent) -> bool {
    match s.mode {
        Mode::PerPort => message == (Sent::ToHostPage {
            page: s.current_page,
            bytes: effects::short(0x80 + s.held[pad], pad as int, 0),
        }),
        Mode::NoteOffset => message == Sent::ToHost(
            effects::short(0x80 + s.held[pad], pad + s.current_page * s.note_offset, 0),
        ),
    }
}

/// The messages begin with one Note Off for each held pad, in ascending order, and all
/// that follow are for the device.
pub open spec fn lets_all_go_first(s: ProxyState, pads: Seq<u8>, sent: Seq<Sent>) -> bool {
    &&& pads.len() <= sent.len()
    &&& forall|n: u8| #[trigger] pads.contains(n) <==> s.held.contains_key(n)
    &&& forall|i: int, j: int| 0 <= i < j < pads.len() ==> #[trigger] pads[i] < #[trigger] pads[j]
    &&& forall|i: int| 0 <= i < pads.len() ==> lets_go(s, #[trigger] pads[i], sent[i])
    &&& forall|i: int| pads.len() <= i < sent.len() ==> (#[trigger] sent[i]) is ToDevice
}

spec fn held_below(s: ProxyState, n: int) -> Seq<u8>
    decreases n,
{
    if n <= 0 {
        seq![]
    } else if s.held.contains_key((n - 1) as u8) {
        held_below(s, n - 1).push((n - 1) as u8)
    } else {
        held_below(s, n - 1)
    }
}

proof fn lemma_held_below(s: ProxyState, n: int)
    requires
        0 <= n <= 256,
        forall|pad: u8| #[trigger]
            s.held.contains_key(pad) ==> pad < 128 && s.held[pad] < 16 && (s.mode
                == Mode::NoteOffset ==> pad + s.current_page * s.note_offset <= 127),
    ensures
        ({
            let pads = held_below(s, n);
            let offs = model::note_offs(s, n);
            &&& pads.len() == offs.len()
            &&& forall|i: int| 0 <= i < pads.len() ==> #[trigger] pads[i] < n
            &&& forall|pad: u8| #[trigger]
                pads.contains(pad) <==> s.held.contains_key(pad) && pad < n
            &&& forall|i: int, j: int|
                0 <= i < j < pads.len() ==> #[trigger] pads[i] < #[trigger] pads[j]
            &&& forall|i: int| 0 <= i < pads.len() ==> lets_go(s, #[trigger] pads[i], offs[i])
        }),
    decreases n,
{
    if n > 0 {
        lemma_held_below(s, n - 1);
        let rest = held_below(s, n - 1);
        let pads = held_below(s, n);
        let offs = model::note_offs(s, n);
        let pad = (n - 1) as u8;
        if s.held.contains_key(pad) {
            assert(0 <= s.current_page * s.note_offset) by (nonlinear_arith)
                requires
                    0 <= s.current_page,
                    0 <= s.note_offset,
            ;
            effects::lemma_built(s.held[pad], pad, 0);
            if s.mode == Mode::NoteOffset {
                let number = pad + s.current_page * s.note_offset;
                effects::lemma_built(s.held[pad], number as u8, 0);
            }
            assert forall|k: u8| #[trigger] pads.contains(k) <==> s.held.contains_key(k) && k
                < n by {
                assert(pads[pads.len() - 1] == pad);
                if pads.contains(k) && k != pad {
                    let i = choose|i: int| 0 <= i < pads.len() && pads[i] == k;
                    assert(rest[i] == k);
                    assert(rest.contains(k));
                }
                if rest.contains(k) {
                    let i = choose|i: int| 0 <= i < rest.len() && rest[i] == k;
                    assert(pads[i] == k);
                }
            }
            assert forall|i: int| 0 <= i < pads.len() implies lets_go(
                s,
                #[trigger] pads[i],
                offs[i],
            ) by {
                if i < rest.len() {
                    assert(lets_go(s, rest[i], model::note_offs(s, n - 1)[i]));
                }
            }
            assert forall|i: int, j: int| 0 <= i < j < pads.len() implies #[trigger] pads[i]
                < #[trigger] pads[j] by {
                assert(rest[i] < n - 1);
                if j < rest.len() {
                    assert(rest[i] < rest[j]);
                }
            }
        } else {
            assert forall|k: u8| #[trigger] pads.contains(k) <==> s.held.contains_key(k) && k
                < n by {
                assert(rest.contains(k) <==> s.held.contains_key(k) && k < n - 1);
            }
        }
    }
}

/// A page change first lets every held pad go, once, on the old page and on the channel
/// of its press, and then talks to the device alone.
pub proof fn law_page_change_lets_each_pad_go_once(s: ProxyState, page: u8) -> (pads: Seq<u8>)
    requires
        page < s.pages,
        forall|pad: u8| #[trigger]
            s.held.contains_key(pad) ==> pad < 128 && s.held[pad] < 16 && (s.mode
                == Mode::NoteOffset ==> pad + s.current_page * s.note_offset <= 127),
    ensures
        lets_all_go_first(s, pads, model::page_changed(s, page).1),
{
    lemma_held_below(s, 256);
    let pads = held_below(s, 256);
    let sent = model::page_changed(s, page).1;
    let offs = model::note_offs(s, 256);
    assert forall|i: int| 0 <= i < pads.len() implies lets_go(s, #[trigger] pads[i], sent[i]) by {
        assert(sent[i] == offs[i]);
    }
    assert forall|i: int| pads.len() <= i < sent.len() implies (#[trigger] sent[i])
        is ToDevice by {}
    pads
}

// -- How the buttons are lit ------------------------------------------------

/// The LED of a button.
pub open spec fn led_of(button: ButtonRef) -> CacheKey {
    match button {
        ButtonRef::Note { number } => CacheKey::Note(number),
        ButtonRef::Cc { number } => CacheKey::Cc(number),
    }
}

/// A button is lit in a color, on the first channel.
pub open spec fn is_lit(display: Cells, button: ButtonRef, color: u8) -> bool {
    display::at(display, led_of(button)) == match button {
        ButtonRef::Note { .. } => Some(LedCell::NoteOn { channel: 0, velocity: color % 128 }),
        ButtonRef::Cc { .. } => Some(LedCell::Cc { channel: 0, value: color % 128 }),
    }
}

/// A button is lit in the first color that is set, or else in the last.
pub open spec fn is_lit_in_first_of(
    display: Cells,
    button: ButtonRef,
    first: Option<u8>,
    second: Option<u8>,
    last: u8,
) -> bool {
    &&& forall|color: u8| first == Some(color) ==> #[trigger] is_lit(display, button, color)
    &&& forall|color: u8|
        first is None && second == Some(color) ==> #[trigger] is_lit(display, button, color)
    &&& first is None && second is None ==> is_lit(display, button, last)
}

/// How the button of a page is lit. The page previewed has the color of a preview; the
/// page that is there for good the color of an active page; any other page that of an
/// inactive one. Of a button with hold these colors are its own, if they are set.
pub open spec fn is_lit_for_its_page(
    s: ProxyState,
    display: Cells,
    button: ButtonRef,
    page: u8,
    hold: bool,
    there_for_good: u8,
) -> bool {
    let previewed = s.held_preview == Some(page);
    let active = !previewed && page == there_for_good;
    let other = !previewed && page != there_for_good;
    &&& previewed ==> is_lit_in_first_of(
        display,
        button,
        s.colors.preview,
        s.colors.active,
        s.device.flash,
    )
    &&& active && hold ==> is_lit_in_first_of(
        display,
        button,
        s.colors.active_preview,
        s.colors.active,
        s.device.flash,
    )
    &&& active && !hold ==> is_lit_in_first_of(
        display,
        button,
        s.colors.active,
        None,
        s.device.flash,
    )
    &&& other && hold ==> is_lit_in_first_of(
        display,
        button,
        s.colors.inactive_preview,
        s.colors.inactive,
        s.device.idle,
    )
    &&& other && !hold ==> is_lit_in_first_of(
        display,
        button,
        s.colors.inactive,
        None,
        s.device.idle,
    )
}

proof fn lemma_painting_lights(
    display: Cells,
    device: DeviceModel,
    button: ButtonRef,
    color: u8,
)
    requires
        display::is_plain_device(device),
        button.spec_number() < 128,
    ensures
        is_lit(display::lit_by(display, (device.paint)(button, color)), button, color),
{
    assert((device.paint)(button, color) == display::plain_paint(button, color));
    let bytes = display::plain_paint(button, color);
    match button {
        ButtonRef::Note { number } => {
            effects::lemma_note_is_no_lighting(0, number, color % 128);
            assert(bytes =~= effects::short(0x90, number as int, (color % 128) as int));
        },
        ButtonRef::Cc { number } => {
            effects::lemma_note_is_no_lighting(0, number, color % 128);
            assert(bytes =~= effects::short(0xB0, number as int, (color % 128) as int));
        },
    }
}

/// The last of a list of indicators for a button lights it.
proof fn lemma_painting_lights_the_last(
    display: Cells,
    device: DeviceModel,
    indicators: Seq<(ButtonRef, u8)>,
    i: int,
)
    requires
        display::is_plain_device(device),
        0 <= i < indicators.len(),
        forall|j: int| 0 <= j < indicators.len() ==> (#[trigger] indicators[j]).0.spec_number() < 128,
        forall|j: int| i < j < indicators.len() ==> (#[trigger] indicators[j]).0 != indicators[i].0,
    ensures
        is_lit(
            display::lit_by_all(display, device::painted(device, indicators)),
            indicators[i].0,
            indicators[i].1,
        ),
    decreases indicators.len(),
{
    let rest = indicators.drop_last();
    let painted = device::painted(device, indicators);
    assert(painted.drop_last() =~= device::painted(device, rest));
    let (button, color) = indicators.last();
    let before = display::lit_by_all(display, painted.drop_last());
    assert(indicators[indicators.len() - 1] == (button, color));
    if i < rest.len() {
        lemma_painting_lights_the_last(display, device, rest, i);
        display::lemma_painting_sets_the_button(
            before,
            device,
            button,
            color,
            led_of(indicators[i].0),
        );
    } else {
        lemma_painting_lights(before, device, button, color);
    }
}

/// No two page buttons are the same button.
pub open spec fn page_buttons_differ(s: ProxyState) -> bool {
    forall|i: int, j: int|
        0 <= i < j < s.page_buttons.len() ==> (#[trigger] s.page_buttons[i]).button != (
        #[trigger] s.page_buttons[j]).button
}

proof fn lemma_indicators_light(s: ProxyState, display: Cells, i: int)
    requires
        display::is_midi_state(s),
        display::is_plain_device(s.device),
        page_buttons_differ(s),
        0 <= i < s.page_buttons.len(),
    ensures
        is_lit_for_its_page(
            s,
            display::lit_by_all(display, device::painted(s.device, model::indicators(s))),
            s.page_buttons[i].button,
            s.page_buttons[i].page,
            s.page_buttons[i].hold,
            if s.held_preview is Some {
                s.persistent_page
            } else {
                s.current_page
            },
        ),
{
    let indicators = model::indicators(s);
    assert forall|j: int| 0 <= j < indicators.len() implies (#[trigger] indicators[j]).0.spec_number()
        < 128 by {
        display::lemma_entries_are_slots(s.page_buttons, j, 0);
        assert(model::is_navigation(s, s.page_buttons[j].button));
    }
    assert forall|j: int| i < j < indicators.len() implies (#[trigger] indicators[j]).0
        != indicators[i].0 by {
        assert(s.page_buttons[i].button != s.page_buttons[j].button);
    }
    lemma_painting_lights_the_last(display, s.device, indicators, i);
}

/// After a page change the button of the page previewed has the color of a preview, or
/// else of an active page, or else the device's lit color. The button of the page that
/// is there for good (while one is previewed, the persistent one; else the one shown) is
/// lit as active, and any other as inactive. Without any color set these are the
/// device's lit and idle colors.
pub proof fn law_page_change_lights_the_page_buttons(
    s: ProxyState,
    page: u8,
    display: Cells,
    i: int,
)
    requires
        model::valid(s),
        page < s.pages,
        display::is_midi_state(s),
        display::is_plain_device(s.device),
        page_buttons_differ(s),
        0 <= i < s.page_buttons.len(),
        !effects::everywhere(s, s.page_buttons[i].button),
    ensures
        is_lit_for_its_page(
            s,
            display::lit_by_sent(display, model::page_changed(s, page).1),
            s.page_buttons[i].button,
            s.page_buttons[i].page,
            s.page_buttons[i].hold,
            if s.held_preview is Some {
                s.persistent_page
            } else {
                page
            },
        ),
{
    let button = s.page_buttons[i].button;
    let key = led_of(button);
    let turned = model::page_changed(s, page).0;
    let replayed = model::replayed(s.led_cache[page as int], model::all_keys());
    let painted = device::painted(s.device, model::indicators(turned));
    let clear = s.device.clear;
    let overlay = if page != 0 {
        model::replayed(s.led_cache[0], model::global_keys(s))
    } else {
        seq![]
    };
    laws::law_page_change_keeps_the_proxy_valid(s, page);
    display::lemma_same_navigation(s, turned);
    display::lemma_sent_in_turn(
        display,
        model::note_offs(s, 256),
        model::to_device(model::redraw(turned)),
    );
    display::lemma_note_offs_light_nothing(display, s, 256);
    display::lemma_sent_to_device(display, model::redraw(turned));
    assert(model::redraw(turned) =~= clear + replayed + painted + overlay);
    display::lemma_lit_in_turn(display, clear + replayed, painted);
    display::lemma_lit_in_turn(display, clear + replayed + painted, overlay);
    lemma_indicators_light(turned, display::lit_by_all(display, clear + replayed), i);
    let before = display::lit_by_all(display, clear + replayed + painted);
    if page != 0 {
        let keys = model::global_keys(s);
        display::lemma_replay_sets_the_cells(before, s.led_cache[0], keys, key);
        if keys.contains(key) {
            let k = choose|k: int| 0 <= k < keys.len() && keys[k] == key;
            assert(s.global_buttons[k] == button);
        }
    }
    let after = display::lit_by_sent(display, model::page_changed(s, page).1);
    assert(display::at(after, key) == display::at(before, key));
    assert(forall|color: u8| is_lit(after, button, color) == is_lit(before, button, color));
}

/// A page change leaves alone the LED of a controller that the page has no state of and
/// that is neither a page button nor global. So the next-page and previous-page buttons
/// keep their light.
pub proof fn law_page_change_leaves_other_controllers(
    s: ProxyState,
    page: u8,
    display: Cells,
    controller: u8,
)
    requires
        model::valid(s),
        page < s.pages,
        display::is_midi_state(s),
        display::is_plain_device(s.device),
        !s.led_cache[page as int].contains_key(CacheKey::Cc(controller)),
        !effects::everywhere(s, ButtonRef::Cc { number: controller }),
        forall|i: int|
            0 <= i < s.page_buttons.len() ==> (#[trigger] s.page_buttons[i]).button
                != (ButtonRef::Cc { number: controller }),
    ensures
        display::at(display::lit_by_sent(display, model::page_changed(s, page).1), CacheKey::Cc(controller)) == display::at(
            display,
            CacheKey::Cc(controller),
        ),
{
    let key = CacheKey::Cc(controller);
    let turned = model::page_changed(s, page).0;
    let replayed = model::replayed(s.led_cache[page as int], model::all_keys());
    let indicators = model::indicators(turned);
    let painted = device::painted(s.device, indicators);
    let clear = s.device.clear;
    let overlay = if page != 0 {
        model::replayed(s.led_cache[0], model::global_keys(s))
    } else {
        seq![]
    };
    laws::law_page_change_keeps_the_proxy_valid(s, page);
    display::lemma_same_navigation(s, turned);
    display::lemma_sent_in_turn(
        display,
        model::note_offs(s, 256),
        model::to_device(model::redraw(turned)),
    );
    display::lemma_note_offs_light_nothing(display, s, 256);
    display::lemma_sent_to_device(display, model::redraw(turned));
    assert(model::redraw(turned) =~= clear + replayed + painted + overlay);
    display::lemma_lit_in_turn(display, clear, replayed);
    display::lemma_lit_in_turn(display, clear + replayed, painted);
    display::lemma_lit_in_turn(display, clear + replayed + painted, overlay);
    display::lemma_replay_sets_the_cells(
        display::lit_by_all(display, clear),
        s.led_cache[page as int],
        model::all_keys(),
        key,
    );
    assert forall|j: int| 0 <= j < indicators.len() implies (#[trigger] indicators[j]).0.spec_number()
        < 128 && key != led_cache::key_of(indicators[j].0) by {
        display::lemma_entries_are_slots(s.page_buttons, j, 0);
        assert(model::is_navigation(s, s.page_buttons[j].button));
        assert(s.page_buttons[j].button != (ButtonRef::Cc { number: controller }));
    }
    display::lemma_painting_sets_the_buttons(
        display::lit_by_all(display, clear + replayed),
        s.device,
        indicators,
        key,
    );
    if page != 0 {
        let keys = model::global_keys(s);
        display::lemma_replay_sets_the_cells(
            display::lit_by_all(display, clear + replayed + painted),
            s.led_cache[0],
            keys,
            key,
        );
        if keys.contains(key) {
            let k = choose|k: int| 0 <= k < keys.len() && keys[k] == key;
            assert(s.global_buttons[k] == (ButtonRef::Cc { number: controller }));
        }
    }
}

/// At startup every page button is lit for its page, and the next-page and
/// previous-page buttons are lit as they are at rest: in the inactive color of their
/// own, or else of all, or else not at all.
pub proof fn law_startup_lights_the_navigation_buttons(
    s: ProxyState,
    display: Cells,
    i: int,
    button: ButtonRef,
)
    requires
        display::is_midi_state(s),
        display::is_plain_device(s.device),
        page_buttons_differ(s),
    ensures
        ({
            let after = display::lit_by_all(display, model::indicator_state(s));
            &&& 0 <= i < s.page_buttons.len() && !cycles(s, s.page_buttons[i].button)
                ==> is_lit_for_its_page(
                s,
                after,
                s.page_buttons[i].button,
                s.page_buttons[i].page,
                s.page_buttons[i].hold,
                if s.held_preview is Some {
                    s.persistent_page
                } else {
                    s.current_page
                },
            )
            &&& cycles(s, button) ==> is_lit_in_first_of(
                after,
                button,
                s.colors.inactive_cycle,
                s.colors.inactive,
                0,
            )
        }),
{
    let painted = device::painted(s.device, model::indicators(s));
    let next = model::idle_cycle_button(s, s.next_page_button);
    let previous = model::idle_cycle_button(s, s.previous_page_button);
    let color = model::cycle_idle_color(s);
    let indicated = display::lit_by_all(display, painted);
    let nexted = display::lit_by_all(indicated, next);
    let after = display::lit_by_all(display, model::indicator_state(s));
    display::lemma_lit_in_turn(display, painted, next);
    display::lemma_lit_in_turn(display, painted + next, previous);
    lemma_idle_cycle_button(s, indicated, s.next_page_button);
    lemma_idle_cycle_button(s, nexted, s.previous_page_button);
    if 0 <= i < s.page_buttons.len() && !cycles(s, s.page_buttons[i].button) {
        let page_button = s.page_buttons[i].button;
        lemma_indicators_light(s, display, i);
        assert(display::at(after, led_of(page_button)) == display::at(indicated, led_of(page_button)));
        assert(forall|c: u8| is_lit(after, page_button, c) == is_lit(indicated, page_button, c));
    }
}

proof fn lemma_idle_cycle_button(s: ProxyState, display: Cells, cycle_button: Option<ButtonRef>)
    requires
        display::is_midi_state(s),
        display::is_plain_device(s.device),
        cycle_button == s.next_page_button || cycle_button == s.previous_page_button,
    ensures
        ({
            let after = display::lit_by_all(display, model::idle_cycle_button(s, cycle_button));
            &&& cycle_button matches Some(button) ==> is_lit(
                after,
                button,
                model::cycle_idle_color(s),
            )
            &&& forall|other: ButtonRef|
                cycle_button != Some(other) ==> #[trigger] display::at(after, led_of(other)) == display::at(
                    display,
                    led_of(other),
                )
        }),
{
    let messages = model::idle_cycle_button(s, cycle_button);
    if let Some(button) = cycle_button {
        let color = model::cycle_idle_color(s);
        assert(model::is_navigation(s, button));
        assert(messages.drop_last() =~= seq![]);
        assert(display::lit_by_all(display, messages.drop_last()) == display);
        lemma_painting_lights(display, s.device, button, color);
        assert forall|other: ButtonRef| cycle_button != Some(other) implies #[trigger] display::at(
            display::lit_by_all(display, messages),
            led_of(other),
        ) == display::at(display, led_of(other)) by {
            display::lemma_painting_sets_the_button(
                display,
                s.device,
                button,
                color,
                led_of(other),
            );
        }
    }
}

/// A press of the next-page or previous-page button lights it at once, in the active
/// color of such buttons, or else of all, or else the device's lit color, and 200
/// milliseconds later as it is at rest.
pub proof fn law_cycle_buttons_flash(
    s: ProxyState,
    bytes: Seq<u8>,
    button: ButtonRef,
    display: Cells,
)
    requires
        presses(bytes, button),
        cycles(s, button),
        display::is_midi_state(s),
        display::is_plain_device(s.device),
    ensures
        ({
            let sent = model::device_in(s, bytes).1;
            &&& sent.len() >= 2
            &&& sent[0] is ToDevice
            &&& is_lit_in_first_of(
                display::lit_by(display, sent[0]->ToDevice_0),
                button,
                s.colors.active_cycle,
                s.colors.active,
                s.device.flash,
            )
            &&& sent[1] is DeviceDelayedSend
            &&& sent[1]->delay_ms == 200
            &&& is_lit_in_first_of(
                display::lit_by(display, sent[1]->DeviceDelayedSend_bytes),
                button,
                s.colors.inactive_cycle,
                s.colors.inactive,
                0,
            )
        }),
{
    effects::law_roles_of_buttons(s, button, 0);
    assert(model::is_navigation(s, button));
    let sent = model::device_in(s, bytes).1;
    let flash = model::flash(s, button);
    assert(sent[0] == flash[0] && sent[1] == flash[1]);
    lemma_painting_lights(display, s.device, button, model::cycle_flash_color(s));
    lemma_painting_lights(display, s.device, button, model::cycle_idle_color(s));
}

// -- A write, and then a page change ----------------------------------------

/// In note-offset mode a note for a pad of any page is what the pad shows when that page
/// is turned to: dark after a Note Off, also if the page was not shown.
pub proof fn law_host_note_is_shown_when_its_page_is(
    s: ProxyState,
    pad: u8,
    page: u8,
    channel: u8,
    velocity: u8,
    display: Cells,
)
    requires
        model::valid(s),
        page < s.pages,
        s.mode == Mode::NoteOffset,
        pad < s.note_offset,
        pad + page * s.note_offset <= 127,
        effects::is_free_pad(s, pad),
        channel < 16,
        velocity < 128,
        display::is_midi_state(s),
        display::is_plain_device(s.device),
    ensures
        ({
            let number = pad + page * s.note_offset;
            let on = model::host_in(s, effects::short(0x90 + channel, number, velocity as int)).0;
            let off = model::host_in(s, effects::short(0x80 + channel, number, velocity as int)).0;
            let key = CacheKey::Note(pad);
            &&& velocity > 0 ==> display::at(display::lit_by_sent(display, model::page_changed(on, page).1), key)
                == Some(LedCell::NoteOn { channel, velocity })
            &&& display::at(display::lit_by_sent(display, model::page_changed(off, page).1), key) == Some(
                LedCell::NoteOn { channel, velocity: 0 },
            )
        }),
{
    let number = (pad + page * s.note_offset) as u8;
    effects::lemma_split_number(s, pad, page);
    effects::law_host_note_sets_its_pad(s, pad, page, channel, velocity);
    effects::lemma_note_is_no_lighting(channel, number, velocity);
    lemma_written_pad_is_shown(
        s,
        effects::short(0x90 + channel, number as int, velocity as int),
        page,
        pad,
        display,
    );
    lemma_written_pad_is_shown(
        s,
        effects::short(0x80 + channel, number as int, velocity as int),
        page,
        pad,
        display,
    );
}

proof fn lemma_written_pad_is_shown(
    s: ProxyState,
    bytes: Seq<u8>,
    page: u8,
    pad: u8,
    display: Cells,
)
    requires
        model::valid(s),
        page < s.pages,
        s.mode == Mode::NoteOffset,
        pad < s.note_offset,
        effects::is_free_pad(s, pad),
        display::is_midi_state(s),
        display::is_midi_message(bytes),
        display::is_plain_device(s.device),
    ensures
        ({
            let t = model::host_in(s, bytes).0;
            let key = CacheKey::Note(pad);
            t.led_cache[page as int].contains_key(key) ==> display::at(
                display::lit_by_sent(display, model::page_changed(t, page).1),
                key,
            ) == display::at(t.led_cache[page as int], key)
        }),
{
    let t = model::host_in(s, bytes).0;
    let key = CacheKey::Note(pad);
    laws::law_host_input_keeps_the_proxy_valid(s, bytes);
    display::law_midi_is_kept_as_midi(s, page, bytes);
    display::law_page_change_shows_the_page(t, page, display);
    effects::law_roles_of_buttons(s, ButtonRef::Note { number: pad }, 0);
    let turned = model::page_changed(t, page).0;
    display::lemma_same_navigation(s, t);
    display::lemma_same_navigation(t, turned);
    assert(display::is_paged_led(s, key));
    assert(display::is_paged_led(turned, key));
}

/// A note or a Control Change for a global button on the port of any page is what the
/// button shows when any page is turned to: the latest write, whatever was there before.
pub proof fn law_port_write_to_global_button_is_shown(
    s: ProxyState,
    port: u8,
    bytes: Seq<u8>,
    page: u8,
    display: Cells,
)
    requires
        model::valid(s),
        s.note_offset >= 1,
        port < s.pages,
        page < s.pages,
        display::is_midi_state(s),
        display::is_midi_message(bytes),
        display::is_plain_device(s.device),
    ensures
        ({
            let t = model::host_in_per_port(s, port, bytes).0;
            let after = display::lit_by_sent(display, model::page_changed(t, page).1);
            &&& parse::meaning(bytes) matches MsgView::NoteOn { channel, note, velocity }
                ==> effects::everywhere(s, ButtonRef::Note { number: note }) && !effects::navigates(
                s,
                ButtonRef::Note { number: note },
            ) ==> display::at(after, CacheKey::Note(note)) == Some(LedCell::NoteOn { channel, velocity })
            &&& parse::meaning(bytes) matches MsgView::NoteOff { channel, note, .. }
                ==> effects::everywhere(s, ButtonRef::Note { number: note }) && !effects::navigates(
                s,
                ButtonRef::Note { number: note },
            ) ==> display::at(after, CacheKey::Note(note)) == Some(LedCell::NoteOn { channel, velocity: 0 })
            &&& parse::meaning(bytes) matches MsgView::Cc { channel, controller, value }
                ==> effects::everywhere(s, ButtonRef::Cc { number: controller }) && !effects::navigates(
                s,
                ButtonRef::Cc { number: controller },
            ) ==> display::at(after, CacheKey::Cc(controller)) == Some(LedCell::Cc { channel, value })
        }),
{
    let t = model::host_in_per_port(s, port, bytes).0;
    laws::law_port_input_keeps_the_proxy_valid(s, port, bytes);
    display::law_midi_is_kept_as_midi(s, port, bytes);
    display::lemma_same_navigation(s, t);
    effects::law_port_message_sets_global_button(s, port, bytes);
    let button = match parse::meaning(bytes) {
        MsgView::NoteOn { note, .. } => ButtonRef::Note { number: note },
        MsgView::NoteOff { note, .. } => ButtonRef::Note { number: note },
        MsgView::Cc { controller, .. } => ButtonRef::Cc { number: controller },
        _ => ButtonRef::Note { number: 0 },
    };
    effects::law_roles_of_buttons(s, button, 0);
    if (parse::meaning(bytes) is NoteOn || parse::meaning(bytes) is NoteOff || parse::meaning(
        bytes,
    ) is Cc) && effects::everywhere(s, button) && !effects::navigates(s, button) {
        assert(display::at(t.led_cache[0], led_of(button)) is Some);
        assert(t.led_cache[0].contains_key(led_cache::key_of(button)));
        display::law_page_change_shows_global_leds(t, page, display, button);
    }
}

} // verus!
