//! Page changes: the navigation buttons, and what redraws the device.

use std::collections::{HashMap, HashSet};
use vstd::prelude::*;

use crate::config::{ButtonRef, ResolvedPageButton};
use crate::midi::device::{self, Device};
use crate::midi::parse;
use crate::midi::sysex_lighting::{self, LedSpec, LightingSysex};
use crate::proxy::led_cache::{self, CacheKey, LedCache, LedCell};
use crate::proxy::model;
use crate::proxy::{Out, Proxy};

verus! {

/// The first of two colors that is set, or the fallback.
fn first_color(first: Option<u8>, second: Option<u8>, fallback: u8) -> (color: u8)
    ensures
        color == model::color_or(model::either(first, second), fallback),
{
    match first {
        Some(color) => color,
        None => match second {
            Some(color) => color,
            None => fallback,
        },
    }
}

/// Every key there is, notes before controllers.
fn every_key() -> (keys: Vec<CacheKey>)
    ensures
        keys@ == model::all_keys(),
{
    let mut keys: Vec<CacheKey> = Vec::new();
    for i in 0..512u16
        invariant
            keys@ == model::all_keys().take(i as int),
    {
        let key = if i < 256 {
            CacheKey::Note(i as u8)
        } else {
            CacheKey::Cc((i - 256) as u8)
        };
        keys.push(key);
        assert(keys@ =~= model::all_keys().take(i + 1));
    }
    assert(model::all_keys().take(512) =~= model::all_keys());
    keys
}

/// What restores the LEDs of the given keys.
fn replay(cells: &LedCache, keys: &Vec<CacheKey>) -> (messages: Vec<Vec<u8>>)
    ensures
        parse::views(messages@) == model::replayed(cells@, keys@),
{
    let mut messages: Vec<Vec<u8>> = Vec::new();
    let mut leds: Vec<LedSpec> = Vec::new();
    assert(parse::views(messages@) =~= model::messages_of(cells@, keys@.take(0)));
    for i in 0..keys.len()
        invariant
            parse::views(messages@) == model::messages_of(cells@, keys@.take(i as int)),
            leds@ == model::leds_of(cells@, keys@.take(i as int)),
    {
        let key = keys[i];
        let ghost before = messages@;
        let ghost leds_before = leds@;
        proof {
            assert(keys@.take(i + 1).drop_last() =~= keys@.take(i as int));
            assert(keys@.take(i + 1).last() == key);
        }
        match cells.get(&key) {
            Some(cell) => {
                match (key, *cell) {
                    (CacheKey::Note(n), LedCell::NoteOn { channel, velocity }) => {
                        messages.push(device::bytes_of(parse::note_on(channel, n, velocity)));
                    },
                    (CacheKey::Cc(c), LedCell::Cc { channel, value }) => {
                        messages.push(device::bytes_of(parse::cc(channel, c, value)));
                    },
                    (CacheKey::Note(n), LedCell::SysexColor(color)) => {
                        leds.push(LedSpec { led_index: n, color });
                    },
                    // The paths that write pair notes with Note On and SysEx
                    // colors, and controllers with Control Changes.
                    _ => {},
                }
                proof {
                    assert(parse::views(messages@) =~= parse::views(before) + model::cell_message(
                        key,
                        *cell,
                    ));
                    assert(leds@ =~= leds_before + model::cell_led(key, *cell));
                }
            },
            None => {},
        }
    }
    assert(keys@.take(keys@.len() as int) =~= keys@);
    let ghost before = messages@;
    if leds.len() > 0 {
        let lighting = LightingSysex { model: sysex_lighting::mini_mk3(), leds };
        messages.push(lighting.emit());
    }
    assert(parse::views(messages@) =~= model::replayed(cells@, keys@));
    messages
}

/// Remembers that the pads that are held have had their Note Off.
fn suppress_held(held: &HashMap<u8, u8>, suppressed: &mut HashSet<u8>)
    ensures
        final(suppressed)@ == old(suppressed)@.union(held@.dom()),
{
    broadcast use vstd::std_specs::hash::group_hash_axioms;

    let ghost before = suppressed@;
    let mut n: u16 = 0;
    while n < 256
        invariant
            n <= 256,
            forall|k: u8|
                #![trigger suppressed@.contains(k)]
                #![trigger before.contains(k)]
                #![trigger held@.contains_key(k)]
                suppressed@.contains(k) == (before.contains(k) || (held@.contains_key(k) && k < n)),
        decreases 256 - n,
    {
        broadcast use vstd::std_specs::hash::group_hash_axioms;

        let pad = n as u8;
        if held.contains_key(&pad) {
            suppressed.insert(pad);
        }
        n = n + 1;
    }
    assert(suppressed@ =~= before.union(held@.dom()));
}

impl<D: Device> Proxy<D> {
    /// A navigation button goes down.
    pub(crate) fn handle_press(&mut self, button: ButtonRef) -> (outs: Vec<Out>)
        requires
            old(self).wf(),
            model::press_fits(old(self)@, button),
        ensures
            (final(self)@, super::sent(outs@)) == model::press(old(self)@, button),
            final(self).device == old(self).device,
            final(self).driver == old(self).driver,
    {
        if super::is_button(self.next_page_button, button) {
            self.handle_next_press(button)
        } else if super::is_button(self.previous_page_button, button) {
            self.handle_previous_press(button)
        } else {
            match self.page_button_slot(button) {
                Some(pb) => self.handle_page_button_press(pb),
                None => super::nothing(),
            }
        }
    }

    /// A navigation button comes up. Only the end of a preview does anything.
    pub(crate) fn handle_release(&mut self, button: ButtonRef) -> (outs: Vec<Out>)
        requires
            old(self).wf(),
            model::release_fits(old(self)@, button),
        ensures
            (final(self)@, super::sent(outs@)) == model::release(old(self)@, button),
            final(self).device == old(self).device,
            final(self).driver == old(self).driver,
    {
        if super::is_button(self.next_page_button, button) || super::is_button(
            self.previous_page_button,
            button,
        ) {
            return super::nothing();
        }
        match self.page_button_slot(button) {
            Some(pb) => self.handle_page_button_release(pb, button),
            None => super::nothing(),
        }
    }

    fn handle_next_press(&mut self, button: ButtonRef) -> (outs: Vec<Out>)
        requires
            old(self).wf(),
            model::cycling_fits(old(self)@, true),
        ensures
            (final(self)@, super::sent(outs@)) == model::after_flash(
                old(self)@,
                button,
                model::cycled(old(self)@, true),
            ),
            final(self).device == old(self).device,
            final(self).driver == old(self).driver,
    {
        let mut outs = self.flash_pulse(button);
        let more = self.cycle_persistent(true);
        super::push_outs(&mut outs, more);
        outs
    }

    fn handle_previous_press(&mut self, button: ButtonRef) -> (outs: Vec<Out>)
        requires
            old(self).wf(),
            model::cycling_fits(old(self)@, false),
        ensures
            (final(self)@, super::sent(outs@)) == model::after_flash(
                old(self)@,
                button,
                model::cycled(old(self)@, false),
            ),
            final(self).device == old(self).device,
            final(self).driver == old(self).driver,
    {
        let mut outs = self.flash_pulse(button);
        let more = self.cycle_persistent(false);
        super::push_outs(&mut outs, more);
        outs
    }

    /// The light-on of a next/previous button, and the light-off that follows.
    fn flash_pulse(&self, button: ButtonRef) -> (outs: Vec<Out>)
        ensures
            super::sent(outs@) == model::flash(self@, button),
    {
        let flash = first_color(
            self.colors.active_cycle,
            self.colors.active,
            self.device.flash_color(),
        );
        let on = self.device.paint_button(button, flash);
        let off = self.device.paint_button(button, self.cycle_idle_color());
        let mut outs: Vec<Out> = Vec::new();
        outs.push(Out::ToDevice(on));
        outs.push(Out::DeviceDelayedSend { delay_ms: 200, bytes: off });
        assert(super::sent(outs@) =~= model::flash(self@, button));
        outs
    }

    fn cycle_idle_color(&self) -> (color: u8)
        ensures
            color == model::cycle_idle_color(self@),
    {
        first_color(self.colors.inactive_cycle, self.colors.inactive, 0)
    }

    fn handle_page_button_press(&mut self, pb: ResolvedPageButton) -> (outs: Vec<Out>)
        requires
            old(self).wf(),
            model::page_button_fits(old(self)@, pb),
        ensures
            (final(self)@, super::sent(outs@)) == model::page_button_pressed(old(self)@, pb),
            final(self).device == old(self).device,
            final(self).driver == old(self).driver,
    {
        if pb.page >= self.pages {
            return super::nothing();
        }
        if pb.hold {
            self.enter_preview(pb.page, pb.button)
        } else {
            self.set_page(pb.page)
        }
    }

    fn handle_page_button_release(&mut self, pb: ResolvedPageButton, button: ButtonRef) -> (outs:
        Vec<Out>)
        requires
            old(self).wf(),
            model::release_fits(old(self)@, button),
        ensures
            (final(self)@, super::sent(outs@)) == if pb.hold && old(self)@.held_preview_button
                == Some(button) {
                model::preview_left(old(self)@)
            } else {
                (old(self)@, seq![])
            },
            final(self).device == old(self).device,
            final(self).driver == old(self).driver,
    {
        if pb.hold && super::is_button(self.held_preview_button, button) {
            self.exit_preview()
        } else {
            super::nothing()
        }
    }

    /// Move the persistent page forward/backward by one and update the
    /// visible page if no preview is active. Used by next/prev buttons.
    fn cycle_persistent(&mut self, forward: bool) -> (outs: Vec<Out>)
        requires
            old(self).wf(),
            model::cycling_fits(old(self)@, forward),
        ensures
            (final(self)@, super::sent(outs@)) == model::cycled(old(self)@, forward),
            final(self).device == old(self).device,
            final(self).driver == old(self).driver,
    {
        let page: u8 = if forward {
            let last: u8 = if self.pages > 0 {
                self.pages - 1
            } else {
                0
            };
            if self.persistent_page < last {
                self.persistent_page + 1
            } else {
                last
            }
        } else if self.persistent_page > 0 {
            self.persistent_page - 1
        } else {
            0
        };
        if page == self.persistent_page {
            return super::nothing();
        }
        self.set_page(page)
    }

    pub(crate) fn set_page(&mut self, page: u8) -> (outs: Vec<Out>)
        requires
            old(self).wf(),
            model::setting_page_fits(old(self)@, page),
        ensures
            (final(self)@, super::sent(outs@)) == model::persistent_page_set(old(self)@, page),
            final(self).device == old(self).device,
            final(self).driver == old(self).driver,
    {
        if page >= self.pages {
            return super::nothing();
        }
        self.persistent_page = page;
        if self.held_preview.is_some() {
            // The visible page is the preview; the persistent move is silent.
            return super::nothing();
        }
        self.turn_to(page)
    }

    /// Mode C: enter preview of `page` while `button` is held. The visible page
    /// becomes `page` until release.
    fn enter_preview(&mut self, page: u8, button: ButtonRef) -> (outs: Vec<Out>)
        requires
            old(self).wf(),
            old(self)@.held_preview != Some(page) ==> model::page_change_fits(old(self)@, page),
        ensures
            (final(self)@, super::sent(outs@)) == model::preview_entered(old(self)@, page, button),
            final(self).device == old(self).device,
            final(self).driver == old(self).driver,
    {
        if page >= self.pages {
            return super::nothing();
        }
        if let Some(previewed) = self.held_preview {
            if previewed == page {
                return super::nothing();
            }
        }
        self.held_preview = Some(page);
        self.held_preview_button = Some(button);
        self.turn_to(page)
    }

    /// Mode C: end preview, revert visible page to the persistent one.
    fn exit_preview(&mut self) -> (outs: Vec<Out>)
        requires
            old(self).wf(),
            old(self)@.held_preview is Some ==> model::page_change_fits(
                old(self)@,
                old(self)@.persistent_page,
            ),
        ensures
            (final(self)@, super::sent(outs@)) == model::preview_left(old(self)@),
            final(self).device == old(self).device,
            final(self).driver == old(self).driver,
    {
        if self.held_preview.is_none() {
            return super::nothing();
        }
        self.held_preview = None;
        self.held_preview_button = None;
        let page = self.persistent_page;
        assert(self@.device == old(self)@.device);
        self.turn_to(page)
    }

    /// Internal page swap: synthesize note-offs for held pads on the OLD
    /// visible page, swap, clear the device, replay the cache, repaint the
    /// indicators, and overlay the global buttons.
    pub(crate) fn turn_to(&mut self, page: u8) -> (outs: Vec<Out>)
        requires
            old(self)@.led_cache.len() == old(self)@.pages,
            model::page_change_fits(old(self)@, page),
        ensures
            (final(self)@, super::sent(outs@)) == model::page_changed(old(self)@, page),
            final(self).device == old(self).device,
            final(self).driver == old(self).driver,
    {
        if page >= self.pages {
            return super::nothing();
        }
        let mut outs = self.held_note_offs();
        suppress_held(&self.held, &mut self.suppressed_releases);
        self.current_page = page;
        assert(self@ == model::turned_to(old(self)@, page));
        let messages = self.redraw_messages();
        super::push_to_device(&mut outs, messages);
        outs
    }

    /// A Note Off for each held pad on the page shown, so that the host doesn't
    /// see stuck notes.
    fn held_note_offs(&self) -> (outs: Vec<Out>)
        requires
            model::held_fit(self@),
        ensures
            super::sent(outs@) == model::note_offs(self@, 256),
    {
        let mut outs: Vec<Out> = Vec::new();
        assert(super::sent(outs@) =~= model::note_offs(self@, 0));
        for n in 0..256u16
            invariant
                model::held_fit(self@),
                super::sent(outs@) == model::note_offs(self@, n as int),
        {
            broadcast use vstd::std_specs::hash::group_hash_axioms;

            let pad = n as u8;
            let ghost before = outs@;
            if let Some(channel) = self.held.get(&pad) {
                assert(self@.held.contains_key(pad));
                let number = self.number_on_current_page(pad);
                let bytes = device::bytes_of(parse::note_off(*channel, number, 0));
                outs.push(self.to_host_current(bytes));
                assert(super::sent(outs@) =~= super::sent(before).push(outs@.last()@));
            }
        }
        outs
    }

    /// The number under which the host knows a pad on the page shown.
    pub(crate) fn number_on_current_page(&self, number: u8) -> (logical: u8)
        requires
            model::number_fits(self@, number, self@.current_page),
        ensures
            logical == model::number_on_page(self@, number, self@.current_page),
    {
        match self.mode {
            crate::config::Mode::NoteOffset => {
                assert(0 <= self.current_page * self.note_offset <= 255 * 255) by (nonlinear_arith)
                    requires
                        0 <= self.current_page <= 255,
                        0 <= self.note_offset <= 255,
                ;
                let shift = self.current_page as u32 * self.note_offset as u32;
                (number as u32 + shift) as u8
            },
            crate::config::Mode::PerPort => number,
        }
    }

    /// What brings the device up to the page shown.
    fn redraw_messages(&self) -> (messages: Vec<Vec<u8>>)
        requires
            self@.led_cache.len() == self@.pages,
            self@.current_page < self@.pages,
        ensures
            parse::views(messages@) == model::redraw(self@),
    {
        // 1. Clear physical LEDs.
        let mut messages = self.device.clear_all();
        // 2. Replay cache for the page.
        let mut replayed = self.replay_page_to_device();
        // 3. Update indicator LEDs.
        let mut painted = self.paint_page_buttons();
        // 4. Keep the global buttons as page zero has them.
        let mut overlay = if self.current_page != 0 {
            self.replay_globals_from_page0()
        } else {
            Vec::new()
        };
        let ghost parts = (messages@, replayed@, painted@, overlay@);
        messages.append(&mut replayed);
        messages.append(&mut painted);
        messages.append(&mut overlay);
        assert(parse::views(messages@) =~= parse::views(parts.0) + parse::views(parts.1)
            + parse::views(parts.2) + parse::views(parts.3));
        assert(self@.current_page == 0 ==> parse::views(parts.3) =~= Seq::<Seq<u8>>::empty());
        messages
    }

    fn replay_page_to_device(&self) -> (messages: Vec<Vec<u8>>)
        requires
            self@.current_page < self@.led_cache.len(),
        ensures
            parse::views(messages@) == model::replayed(
                self@.led_cache[self@.current_page as int],
                model::all_keys(),
            ),
    {
        replay(&self.led_cache[self.current_page as usize], &every_key())
    }

    /// What lays the global buttons' page-zero state over another page.
    fn replay_globals_from_page0(&self) -> (messages: Vec<Vec<u8>>)
        requires
            self@.led_cache.len() > 0,
        ensures
            parse::views(messages@) == model::replayed(
                self@.led_cache[0],
                model::global_keys(self@),
            ),
    {
        let mut keys: Vec<CacheKey> = Vec::new();
        for i in 0..self.global_buttons.len()
            invariant
                keys@ == model::global_keys(self@).take(i as int),
        {
            keys.push(led_cache::key_for(self.global_buttons[i]));
            assert(keys@ =~= model::global_keys(self@).take(i + 1));
        }
        assert(keys@ =~= model::global_keys(self@));
        replay(&self.led_cache[0], &keys)
    }

    /// Paints the page buttons as the page shown asks for.
    fn paint_page_buttons(&self) -> (messages: Vec<Vec<u8>>)
        ensures
            parse::views(messages@) == device::painted(self@.device, model::indicators(self@)),
    {
        let mut indicators: Vec<(ButtonRef, u8)> = Vec::new();
        for i in 0..self.page_buttons.len()
            invariant
                indicators@ == model::indicators(self@).take(i as int),
        {
            let pb = self.page_buttons[i];
            indicators.push((pb.button, self.page_button_color(pb)));
            assert(indicators@ =~= model::indicators(self@).take(i + 1));
        }
        assert(indicators@ =~= model::indicators(self@));
        self.device.paint_indicators(indicators.as_slice())
    }

    fn page_button_color(&self, pb: ResolvedPageButton) -> (color: u8)
        ensures
            color == model::page_button_color(self@, pb),
    {
        let base = if self.held_preview.is_some() {
            self.persistent_page
        } else {
            self.current_page
        };
        let previewed = match self.held_preview {
            Some(page) => page == pb.page,
            None => false,
        };
        if previewed {
            first_color(self.colors.preview, self.colors.active, self.device.flash_color())
        } else if pb.page == base {
            if pb.hold {
                first_color(
                    self.colors.active_preview,
                    self.colors.active,
                    self.device.flash_color(),
                )
            } else {
                first_color(self.colors.active, None, self.device.flash_color())
            }
        } else if pb.hold {
            first_color(
                self.colors.inactive_preview,
                self.colors.inactive,
                self.device.idle_color(),
            )
        } else {
            first_color(self.colors.inactive, None, self.device.idle_color())
        }
    }

    /// What lights every navigation button: the page buttons, then the
    /// next/previous buttons at rest. Sent once at startup.
    pub fn paint_indicator_state(&self) -> (messages: Vec<Vec<u8>>)
        ensures
            parse::views(messages@) == model::indicator_state(self@),
    {
        let mut messages = self.paint_page_buttons();
        let ghost painted = parse::views(messages@);
        if let Some(button) = self.next_page_button {
            messages.push(self.device.paint_button(button, self.cycle_idle_color()));
        }
        assert(parse::views(messages@) =~= painted + model::idle_cycle_button(
            self@,
            self@.next_page_button,
        ));
        let ghost painted = parse::views(messages@);
        if let Some(button) = self.previous_page_button {
            messages.push(self.device.paint_button(button, self.cycle_idle_color()));
        }
        assert(parse::views(messages@) =~= painted + model::idle_cycle_button(
            self@,
            self@.previous_page_button,
        ));
        messages
    }
}

} // verus!
