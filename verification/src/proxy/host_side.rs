//! Host to device: LED writes, kept for their page and shown if it is shown.

use vstd::prelude::*;

use crate::config::{ButtonRef, Mode};
use crate::midi::device::{self, Device};
use crate::midi::parse::{self, Msg};
use crate::midi::sysex_lighting::{self, LedSpec, LightingSysex};
use crate::proxy::led_cache::{CacheKey, LedCell};
use crate::proxy::model;
use crate::proxy::{laws, Out, Proxy};

verus! {

fn bytes_for_note(channel: u8, note: u8, velocity: u8, is_on: bool) -> (bytes: Vec<u8>)
    ensures
        bytes@ == model::note_bytes(channel, note, velocity, is_on),
{
    if is_on {
        device::bytes_of(parse::note_on(channel, note, velocity))
    } else {
        device::bytes_of(parse::note_off(channel, note, velocity))
    }
}

fn cell_for_note(channel: u8, velocity: u8, is_on: bool) -> (cell: LedCell)
    ensures
        cell == model::note_cell(channel, velocity, is_on),
{
    LedCell::NoteOn {
        channel,
        velocity: if is_on {
            velocity
        } else {
            0
        },
    }
}

/// One message to the device.
fn show(bytes: Vec<u8>) -> (outs: Vec<Out>)
    ensures
        super::sent(outs@) == model::to_device(seq![bytes@]),
{
    let outs = super::just(Out::ToDevice(bytes));
    assert(model::to_device(seq![bytes@]) =~= super::sent(outs@));
    outs
}

/// One message to the device that lights the given LEDs, if there are any.
fn show_leds(leds: Vec<LedSpec>) -> (outs: Vec<Out>)
    ensures
        super::sent(outs@) == model::to_device(model::lighting(leds@)),
{
    if leds.len() == 0 {
        let outs = super::nothing();
        assert(model::to_device(model::lighting(leds@)) =~= super::sent(outs@));
        outs
    } else {
        let lighting = LightingSysex { model: sysex_lighting::mini_mk3(), leds };
        show(lighting.emit())
    }
}

impl<D: Device> Proxy<D> {
    /// Keeps the state of one LED of one page. A page that is not there keeps
    /// nothing.
    fn cache_led(&mut self, page: u8, key: CacheKey, cell: LedCell)
        ensures
            final(self)@ == model::cached(old(self)@, page as int, key, cell),
            final(self).device == old(self).device,
            final(self).driver == old(self).driver,
    {
        let i = page as usize;
        if i < self.led_cache.len() {
            self.led_cache[i].insert(key, cell);
            proof {
                assert(self@.led_cache =~= old(self)@.led_cache.update(
                    i as int,
                    old(self)@.led_cache[i as int].insert(key, cell),
                ));
            }
        }
        assert(self@ =~= model::cached(old(self)@, page as int, key, cell));
    }

    /// Note-offset mode entry point. The host writes to a single virtual port
    /// and the proxy infers the target page from the note number.
    pub fn handle_host_in(&mut self, bytes: &[u8]) -> (outs: Vec<Out>)
        requires
            old(self).wf(),
            old(self).mode == Mode::NoteOffset,
            model::needs_offset(old(self)@, bytes@) ==> old(self)@.note_offset >= 1,
        ensures
            (final(self)@, super::sent(outs@)) == model::host_in(old(self)@, bytes@),
            final(self).wf(),
            model::numbers_fit(old(self)@) ==> model::numbers_fit(final(self)@),
            model::in_sync(old(self)@) ==> model::in_sync(final(self)@),
            final(self).device == old(self).device,
            final(self).driver == old(self).driver,
    {
        proof {
            laws::law_host_input_keeps_the_proxy_valid(self@, bytes@);
        }
        if LightingSysex::looks_like(bytes, sysex_lighting::mini_mk3()) {
            return self.handle_host_lighting_sysex(bytes);
        }
        match parse::classify(bytes) {
            Msg::NoteOn { channel, note, velocity } => {
                self.handle_host_note_offset(channel, note, velocity, true)
            },
            Msg::NoteOff { channel, note, velocity } => {
                self.handle_host_note_offset(channel, note, velocity, false)
            },
            Msg::Cc { channel, controller, value } => {
                self.handle_host_cc(channel, controller, value, bytes)
            },
            Msg::SysEx(_) | Msg::Other(_) => show(super::copied(bytes)),
        }
    }

    fn is_paged_logical_note(&self, note: u8) -> (yes: bool)
        requires
            self@.note_offset >= 1,
        ensures
            yes == model::is_paged_number(self@, note),
    {
        let page = note / self.note_offset;
        let physical = note % self.note_offset;
        (page as usize) < self.led_cache.len() && self.device.is_grid_note(physical)
    }

    fn handle_host_note_offset(
        &mut self,
        channel: u8,
        note: u8,
        velocity: u8,
        is_on: bool,
    ) -> (outs: Vec<Out>)
        requires
            old(self)@.note_offset >= 1,
        ensures
            (final(self)@, super::sent(outs@)) == model::host_note(
                old(self)@,
                channel,
                note,
                velocity,
                is_on,
            ),
            final(self).device == old(self).device,
            final(self).driver == old(self).driver,
    {
        let paged = self.is_paged_logical_note(note);
        let page = note / self.note_offset;
        let number = if paged {
            note % self.note_offset
        } else {
            note
        };
        let cell = cell_for_note(channel, velocity, is_on);
        if self.is_global(ButtonRef::Note { number }) {
            self.cache_led(0, CacheKey::Note(number), cell);
            return show(bytes_for_note(channel, number, velocity, is_on));
        }
        if !paged {
            return show(bytes_for_note(channel, note, velocity, is_on));
        }
        self.cache_led(page, CacheKey::Note(number), cell);
        if page == self.current_page {
            show(bytes_for_note(channel, number, velocity, is_on))
        } else {
            super::nothing()
        }
    }

    fn handle_host_cc(&mut self, channel: u8, controller: u8, value: u8, bytes: &[u8]) -> (outs:
        Vec<Out>)
        requires
            (old(self)@.device.grid_cc)(controller) ==> old(self)@.note_offset >= 1,
        ensures
            (final(self)@, super::sent(outs@)) == model::host_cc(
                old(self)@,
                channel,
                controller,
                value,
                bytes@,
            ),
            final(self).device == old(self).device,
            final(self).driver == old(self).driver,
    {
        let cell = LedCell::Cc { channel, value };
        if !self.device.is_grid_cc(controller) {
            if self.is_global(ButtonRef::Cc { number: controller }) {
                self.cache_led(0, CacheKey::Cc(controller), cell);
            }
            return show(super::copied(bytes));
        }
        let page = controller / self.note_offset;
        let number = controller % self.note_offset;
        if self.is_global(ButtonRef::Cc { number }) {
            self.cache_led(0, CacheKey::Cc(number), cell);
            return show(device::bytes_of(parse::cc(channel, number, value)));
        }
        self.cache_led(page, CacheKey::Cc(number), cell);
        if page == self.current_page {
            show(device::bytes_of(parse::cc(channel, number, value)))
        } else {
            super::nothing()
        }
    }

    fn handle_host_lighting_sysex(&mut self, bytes: &[u8]) -> (outs: Vec<Out>)
        requires
            sysex_lighting::framed(bytes@, sysex_lighting::MINI_MK3_BYTE),
            model::needs_offset(old(self)@, bytes@) ==> old(self)@.note_offset >= 1,
        ensures
            (final(self)@, super::sent(outs@)) == match sysex_lighting::lighting_entries(
                bytes@,
                sysex_lighting::MINI_MK3_BYTE,
            ) {
                Ok(leds) => model::host_leds(old(self)@, leds),
                Err(_) => (old(self)@, model::to_device(seq![bytes@])),
            },
            final(self).device == old(self).device,
            final(self).driver == old(self).driver,
    {
        let parsed = match LightingSysex::parse(bytes, sysex_lighting::mini_mk3()) {
            Ok(parsed) => parsed,
            Err(_) => {
                return show(super::copied(bytes));
            },
        };
        let mut shown: Vec<LedSpec> = Vec::new();
        let ghost leds = parsed.leds@;
        for i in 0..parsed.leds.len()
            invariant
                leds == parsed.leds@,
                leds.len() > 0 ==> old(self)@.note_offset >= 1,
                self@ == model::leds_cached(old(self)@, leds.take(i as int)),
                laws::same_setup(old(self)@, self@),
                self@.current_page == old(self)@.current_page,
                self.device == old(self).device,
                self.driver == old(self).driver,
                shown@ == model::leds_shown(old(self)@, leds.take(i as int)),
        {
            let led = parsed.leds[i];
            let page = led.led_index / self.note_offset;
            let number = led.led_index % self.note_offset;
            let cell = LedCell::SysexColor(led.color);
            let global = self.is_global(ButtonRef::Note { number });
            proof {
                assert(leds.take(i + 1).drop_last() =~= leds.take(i as int));
                assert(leds.take(i + 1).last() == led);
            }
            if global {
                self.cache_led(0, CacheKey::Note(number), cell);
            } else {
                self.cache_led(page, CacheKey::Note(number), cell);
            }
            if global || page == self.current_page {
                shown.push(LedSpec { led_index: number, color: led.color });
            }
        }
        assert(leds.take(leds.len() as int) =~= leds);
        show_leds(shown)
    }

    /// Per-port mode entry point. The proxy is told which page's virtual port
    /// the message arrived on and stores it accordingly.
    pub fn handle_host_in_per_port(&mut self, page: u8, bytes: &[u8]) -> (outs: Vec<Out>)
        requires
            old(self).wf(),
            old(self).mode == Mode::PerPort,
        ensures
            (final(self)@, super::sent(outs@)) == model::host_in_per_port(
                old(self)@,
                page,
                bytes@,
            ),
            final(self).wf(),
            model::in_sync(old(self)@) ==> model::in_sync(final(self)@),
            final(self).device == old(self).device,
            final(self).driver == old(self).driver,
    {
        proof {
            laws::law_port_input_keeps_the_proxy_valid(self@, page, bytes@);
        }
        if (page as usize) >= self.led_cache.len() {
            return super::nothing();
        }
        // Cache LED state per page so we can replay on switch. The bytes target
        // physical pads directly (no offset/rewriting), so we just record by
        // type and decide whether to forward to the device.
        match parse::classify(bytes) {
            Msg::NoteOn { channel, note, velocity } => {
                self.handle_port_note(page, note, cell_for_note(channel, velocity, true), bytes)
            },
            Msg::NoteOff { channel, note, velocity } => {
                self.handle_port_note(page, note, cell_for_note(channel, velocity, false), bytes)
            },
            Msg::Cc { channel, controller, value } => {
                self.handle_port_cc(page, controller, LedCell::Cc { channel, value }, bytes)
            },
            Msg::SysEx(_) => self.handle_port_sysex(page, bytes),
            Msg::Other(_) => self.forward_if_shown(page, bytes),
        }
    }

    /// A message on the port of a page, passed on as it is if that page is shown.
    fn forward_if_shown(&self, page: u8, bytes: &[u8]) -> (outs: Vec<Out>)
        ensures
            super::sent(outs@) == model::if_shown(self@, page, bytes@),
    {
        if page == self.current_page {
            show(super::copied(bytes))
        } else {
            super::nothing()
        }
    }

    fn handle_port_note(&mut self, page: u8, note: u8, cell: LedCell, bytes: &[u8]) -> (outs: Vec<
        Out,
    >)
        ensures
            (final(self)@, super::sent(outs@)) == model::port_note(
                old(self)@,
                page,
                note,
                cell,
                bytes@,
            ),
            final(self).device == old(self).device,
            final(self).driver == old(self).driver,
    {
        if self.is_global(ButtonRef::Note { number: note }) {
            self.cache_led(0, CacheKey::Note(note), cell);
            return show(super::copied(bytes));
        }
        if self.device.is_grid_note(note) {
            self.cache_led(page, CacheKey::Note(note), cell);
        }
        self.forward_if_shown(page, bytes)
    }

    fn handle_port_cc(&mut self, page: u8, controller: u8, cell: LedCell, bytes: &[u8]) -> (outs:
        Vec<Out>)
        ensures
            (final(self)@, super::sent(outs@)) == model::port_cc(
                old(self)@,
                page,
                controller,
                cell,
                bytes@,
            ),
            final(self).device == old(self).device,
            final(self).driver == old(self).driver,
    {
        if self.is_global(ButtonRef::Cc { number: controller }) {
            self.cache_led(0, CacheKey::Cc(controller), cell);
            return show(super::copied(bytes));
        }
        // Mini MK3 side / top-row LEDs are CC-addressed. Cache them so a page
        // switch and return restores them. Page-cycle and indicator CCs are
        // excluded because the proxy itself manages those: caching DAW writes
        // to them would just be clobbered by `paint_indicators` on every page
        // change.
        if !self.is_proxy_managed_cc(controller) {
            self.cache_led(page, CacheKey::Cc(controller), cell);
        }
        self.forward_if_shown(page, bytes)
    }

    fn handle_port_sysex(&mut self, page: u8, bytes: &[u8]) -> (outs: Vec<Out>)
        ensures
            (final(self)@, super::sent(outs@)) == model::port_sysex(old(self)@, page, bytes@),
            final(self).device == old(self).device,
            final(self).driver == old(self).driver,
    {
        let parsed = match LightingSysex::parse(bytes, sysex_lighting::mini_mk3()) {
            Ok(parsed) => parsed,
            Err(_) => {
                return self.forward_if_shown(page, bytes);
            },
        };
        let mut globals: Vec<LedSpec> = Vec::new();
        let ghost leds = parsed.leds@;
        for i in 0..parsed.leds.len()
            invariant
                leds == parsed.leds@,
                self@ == model::port_leds_cached(old(self)@, page, leds.take(i as int)),
                laws::same_setup(old(self)@, self@),
                self@.current_page == old(self)@.current_page,
                self.device == old(self).device,
                self.driver == old(self).driver,
                globals@ == model::global_leds(old(self)@, leds.take(i as int)),
        {
            let led = parsed.leds[i];
            let cell = LedCell::SysexColor(led.color);
            proof {
                assert(leds.take(i + 1).drop_last() =~= leds.take(i as int));
                assert(leds.take(i + 1).last() == led);
            }
            if self.is_global(ButtonRef::Note { number: led.led_index }) {
                self.cache_led(0, CacheKey::Note(led.led_index), cell);
                globals.push(led);
            } else {
                self.cache_led(page, CacheKey::Note(led.led_index), cell);
            }
        }
        assert(leds.take(leds.len() as int) =~= leds);
        if page == self.current_page {
            show(super::copied(bytes))
        } else {
            show_leds(globals)
        }
    }
}

} // verus!
