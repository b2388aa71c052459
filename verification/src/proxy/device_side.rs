//! Device to host: pads, navigation buttons and everything else.

use vstd::prelude::*;

use crate::config::{ButtonRef, Mode};
use crate::midi::device::{self, Device};
use crate::midi::parse::{self, Msg};
use crate::proxy::{laws, model, Out, Proxy};

verus! {

impl<D: Device> Proxy<D> {
    /// Handle a message arriving from the device (a pad press, a release, etc.).
    pub fn handle_device_in(&mut self, bytes: &[u8]) -> (outs: Vec<Out>)
        requires
            old(self).wf(),
            model::device_in_fits(old(self)@, bytes@),
        ensures
            (final(self)@, super::sent(outs@)) == model::device_in(old(self)@, bytes@),
            final(self).wf(),
            model::numbers_fit(old(self)@) ==> model::numbers_fit(final(self)@),
            model::in_sync(old(self)@) ==> model::in_sync(final(self)@),
            final(self).device == old(self).device,
            final(self).driver == old(self).driver,
    {
        proof {
            laws::law_device_input_keeps_the_proxy_valid(self@, bytes@);
        }
        match parse::classify(bytes) {
            Msg::NoteOn { channel, note, velocity } => {
                let button = ButtonRef::Note { number: note };
                if self.is_navigation(button) {
                    return self.handle_press(button);
                }
                if self.is_global(button) {
                    return super::just(self.to_host(0, super::copied(bytes)));
                }
                if !self.device.is_grid_note(note) {
                    return super::just(self.to_host_current(super::copied(bytes)));
                }
                self.pad_pressed(channel, note, velocity, bytes)
            },
            Msg::NoteOff { channel, note, velocity } => {
                let button = ButtonRef::Note { number: note };
                if self.is_navigation(button) {
                    return self.handle_release(button);
                }
                if self.is_global(button) {
                    return super::just(self.to_host(0, super::copied(bytes)));
                }
                if !self.device.is_grid_note(note) {
                    return super::just(self.to_host_current(super::copied(bytes)));
                }
                self.pad_released(channel, note, velocity, bytes)
            },
            Msg::Cc { channel, controller, value } => {
                let button = ButtonRef::Cc { number: controller };
                if self.is_navigation(button) {
                    return if value > 0 {
                        self.handle_press(button)
                    } else {
                        self.handle_release(button)
                    };
                }
                if self.is_global(button) {
                    return super::just(self.to_host(0, super::copied(bytes)));
                }
                if !self.device.is_grid_cc(controller) {
                    return super::just(self.to_host_current(super::copied(bytes)));
                }
                let message = match self.mode {
                    Mode::PerPort => super::copied(bytes),
                    Mode::NoteOffset => {
                        let number = self.number_on_current_page(controller);
                        device::bytes_of(parse::cc(channel, number, value))
                    },
                };
                super::just(self.to_host_current(message))
            },
            Msg::SysEx(_) | Msg::Other(_) => super::just(
                self.to_host_current(super::copied(bytes)),
            ),
        }
    }

    /// A pad goes down: the host hears of it on the page shown.
    fn pad_pressed(&mut self, channel: u8, note: u8, velocity: u8, bytes: &[u8]) -> (outs: Vec<
        Out,
    >)
        requires
            model::number_fits(old(self)@, note, old(self)@.current_page),
        ensures
            (final(self)@, super::sent(outs@)) == model::pad_pressed(
                old(self)@,
                channel,
                note,
                velocity,
                bytes@,
            ),
            final(self).device == old(self).device,
            final(self).driver == old(self).driver,
    {
        broadcast use vstd::std_specs::hash::group_hash_axioms;

        let message = match self.mode {
            Mode::PerPort => super::copied(bytes),
            Mode::NoteOffset => {
                let number = self.number_on_current_page(note);
                device::bytes_of(parse::note_on(channel, number, velocity))
            },
        };
        let out = self.to_host_current(message);
        self.held.insert(note, channel);
        super::just(out)
    }

    /// A pad comes up: the host hears of it, unless it was told already.
    fn pad_released(&mut self, channel: u8, note: u8, velocity: u8, bytes: &[u8]) -> (outs: Vec<
        Out,
    >)
        requires
            !old(self)@.suppressed.contains(note) ==> model::number_fits(
                old(self)@,
                note,
                old(self)@.current_page,
            ),
        ensures
            (final(self)@, super::sent(outs@)) == model::pad_released(
                old(self)@,
                channel,
                note,
                velocity,
                bytes@,
            ),
            final(self).device == old(self).device,
            final(self).driver == old(self).driver,
    {
        broadcast use vstd::std_specs::hash::group_hash_axioms;

        self.held.remove(&note);
        let suppressed = self.suppressed_releases.remove(&note);
        assert(self@.held =~= old(self)@.held.remove(note));
        assert(self@.suppressed =~= old(self)@.suppressed.remove(note));
        if suppressed {
            return super::nothing();
        }
        let message = match self.mode {
            Mode::PerPort => super::copied(bytes),
            Mode::NoteOffset => {
                let number = self.number_on_current_page(note);
                device::bytes_of(parse::note_off(channel, number, velocity))
            },
        };
        super::just(self.to_host_current(message))
    }

    /// Set the persistent page to `page`. If a preview is active, only the
    /// stored persistent_page is updated (no visible change); otherwise
    /// the grid is repainted to show the new page.
    pub fn set_persistent_page(&mut self, page: u8) -> (outs: Vec<Out>)
        requires
            old(self).wf(),
            model::setting_page_fits(old(self)@, page),
        ensures
            (final(self)@, super::sent(outs@)) == model::persistent_page_set(old(self)@, page),
            final(self).wf(),
            model::numbers_fit(old(self)@) ==> model::numbers_fit(final(self)@),
            model::in_sync(old(self)@) ==> model::in_sync(final(self)@),
            final(self).device == old(self).device,
            final(self).driver == old(self).driver,
    {
        proof {
            laws::law_setting_the_page_keeps_the_proxy_valid(self@, page);
        }
        self.set_page(page)
    }

    /// Page swap: synthesize note-offs for held pads on the OLD visible page,
    /// swap, clear the device, replay cache, repaint indicators. Public for
    /// callers that want to drive a specific page without going through
    /// next/prev or page buttons.
    pub fn change_page_to(&mut self, page: u8) -> (outs: Vec<Out>)
        requires
            old(self).wf(),
            model::page_change_fits(old(self)@, page),
        ensures
            (final(self)@, super::sent(outs@)) == model::page_changed(old(self)@, page),
            final(self).wf(),
            model::numbers_fit(old(self)@) ==> model::numbers_fit(final(self)@),
            final(self).device == old(self).device,
            final(self).driver == old(self).driver,
    {
        proof {
            laws::law_page_change_keeps_the_proxy_valid(self@, page);
        }
        self.turn_to(page)
    }
}

} // verus!
