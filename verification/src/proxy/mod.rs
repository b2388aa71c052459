//! Stateful paging proxy: rewrites MIDI in both directions and maintains a
//! per-page LED cache.

pub mod device_side;
pub mod display;
pub mod effects;
pub mod host_notes;
pub mod host_side;
pub mod laws;
pub mod led_cache;
pub mod model;
pub mod moves;
pub mod navigation;
pub mod redraw;

use std::collections::{HashMap, HashSet};
use vstd::prelude::*;

use crate::config::{self, ButtonRef, ColorConfig, DeviceConfig, Mode, ResolvedPageButton};
use crate::midi::device::{Device, Driver};
use crate::midi::parse;
use crate::proxy::model::{ProxyState, Sent};
pub use crate::proxy::led_cache::{CacheKey, LedCache, LedCell};

verus! {

/// One MIDI write the proxy wants to perform.
#[derive(Debug, Clone, PartialEq, Eq)]
pub enum Out {
    /// Send these bytes to the host on the single host port.
    /// Used in `Mode::NoteOffset`.
    ToHost(Vec<u8>),
    /// Send these bytes to the host on the virtual port for `page`.
    /// Used in `Mode::PerPort`.
    ToHostPage { page: u8, bytes: Vec<u8> },
    /// Send these bytes to the device (real USB-MIDI side).
    ToDevice(Vec<u8>),
    /// Send these bytes to the device after a delay. Used for the
    /// press-feedback flash on next/previous page buttons (light-on goes
    /// out as a regular ToDevice; this variant carries the matching
    /// light-off, scheduled `delay_ms` later).
    DeviceDelayedSend { delay_ms: u32, bytes: Vec<u8> },
}

impl View for Out {
    type V = Sent;

    open spec fn view(&self) -> Sent {
        match *self {
            Out::ToHost(bytes) => Sent::ToHost(bytes@),
            Out::ToHostPage { page, bytes } => Sent::ToHostPage { page, bytes: bytes@ },
            Out::ToDevice(bytes) => Sent::ToDevice(bytes@),
            Out::DeviceDelayedSend { delay_ms, bytes } => Sent::DeviceDelayedSend {
                delay_ms,
                bytes: bytes@,
            },
        }
    }
}

/// The values of a list of writes.
pub open spec fn sent(outs: Seq<Out>) -> Seq<Sent> {
    outs.map_values(|out: Out| out@)
}

/// The values of a list of caches.
pub open spec fn cells(caches: Seq<LedCache>) -> Seq<model::Cells> {
    caches.map_values(|cache: LedCache| cache@)
}

/// Proxy state and the two rewrite paths.
pub struct Proxy<D: Device> {
    pub mode: Mode,
    /// Page the user "lives on": moved by next/prev or by tapping a page
    /// button in Mode B. Persists across hold-preview windows.
    pub persistent_page: u8,
    /// `Some(p)` while a page button is held in Mode C; the grid is
    /// temporarily showing page `p`. `None` otherwise.
    pub held_preview: Option<u8>,
    /// Which page button started the current preview (so we know which
    /// release event ends it). `None` when not previewing.
    pub held_preview_button: Option<ButtonRef>,
    /// Cached visible page = `held_preview.unwrap_or(persistent_page)`.
    /// Updated by `set_persistent_page` / `enter_preview` / `exit_preview`.
    pub current_page: u8,
    pub pages: u8,
    pub note_offset: u8,
    pub next_page_button: Option<ButtonRef>,
    pub previous_page_button: Option<ButtonRef>,
    pub page_buttons: Vec<ResolvedPageButton>,
    pub global_buttons: Vec<ButtonRef>,
    pub colors: ColorConfig,
    pub driver: Driver,
    /// `led_cache[page]` holds the last LED state of each button on that page.
    pub led_cache: Vec<LedCache>,
    /// Physical pads currently held down, each with the channel of its press.
    /// Lets us synthesize Note Off on page change.
    pub held: HashMap<u8, u8>,
    /// Physical pads whose Note Off we already synthesized: suppress the next real one.
    pub suppressed_releases: HashSet<u8>,
    pub device: Box<D>,
}

impl<D: Device> View for Proxy<D> {
    type V = ProxyState;

    open spec fn view(&self) -> ProxyState {
        ProxyState {
            mode: self.mode,
            persistent_page: self.persistent_page,
            held_preview: self.held_preview,
            held_preview_button: self.held_preview_button,
            current_page: self.current_page,
            pages: self.pages,
            note_offset: self.note_offset,
            next_page_button: self.next_page_button,
            previous_page_button: self.previous_page_button,
            page_buttons: self.page_buttons@,
            global_buttons: self.global_buttons@,
            colors: self.colors,
            led_cache: cells(self.led_cache@),
            held: self.held@,
            suppressed: self.suppressed_releases@,
            device: self.device.model(),
        }
    }
}

/// The state of a proxy that has seen no message yet.
pub open spec fn fresh<D: Device>(cfg: DeviceConfig, device: D) -> ProxyState {
    ProxyState {
        mode: cfg.mode,
        persistent_page: 0,
        held_preview: None,
        held_preview_button: None,
        current_page: 0,
        pages: cfg.pages,
        note_offset: config::note_offset_of(cfg.note_offset),
        next_page_button: cfg.next_page_button,
        previous_page_button: cfg.previous_page_button,
        page_buttons: config::page_buttons::resolved_entries(
            cfg.page_buttons@,
            cfg.page_buttons_hold_to_preview,
        ),
        global_buttons: cfg.global_buttons@,
        colors: cfg.colors,
        led_cache: Seq::new(cfg.pages as nat, |page: int| Map::<CacheKey, LedCell>::empty()),
        held: Map::empty(),
        suppressed: Set::empty(),
        device: device.model(),
    }
}

impl<D: Device> Proxy<D> {
    /// What every operation asks for and keeps.
    pub open spec fn wf(&self) -> bool {
        model::valid(self@)
    }

    pub fn new(cfg: &DeviceConfig, device: Box<D>) -> (proxy: Self)
        requires
            config::page_buttons::resolvable(cfg.page_buttons@),
        ensures
            proxy@ == fresh(*cfg, *device),
            proxy.driver == cfg.driver,
            *proxy.device == *device,
            proxy.wf(),
            model::in_sync(proxy@),
    {
        let page_buttons = cfg.resolved_page_buttons();
        let mut led_cache: Vec<LedCache> = Vec::new();
        for page in 0..cfg.pages
            invariant
                led_cache@.len() == page,
                forall|i: int|
                    0 <= i < page ==> (#[trigger] led_cache@[i])@ == Map::<
                        CacheKey,
                        LedCell,
                    >::empty(),
        {
            led_cache.push(LedCache::new());
        }
        let mut global_buttons: Vec<ButtonRef> = Vec::new();
        for i in 0..cfg.global_buttons.len()
            invariant
                global_buttons@ == cfg.global_buttons@.take(i as int),
        {
            global_buttons.push(cfg.global_buttons[i]);
            assert(global_buttons@ =~= cfg.global_buttons@.take(i + 1));
        }
        assert(cfg.global_buttons@.take(cfg.global_buttons@.len() as int) =~= cfg.global_buttons@);
        let proxy = Proxy {
            mode: cfg.mode,
            persistent_page: 0,
            held_preview: None,
            held_preview_button: None,
            current_page: 0,
            pages: cfg.pages,
            note_offset: cfg.note_offset_value(),
            next_page_button: cfg.next_page_button,
            previous_page_button: cfg.previous_page_button,
            page_buttons,
            global_buttons,
            colors: cfg.colors,
            driver: cfg.driver,
            led_cache,
            held: HashMap::new(),
            suppressed_releases: HashSet::new(),
            device,
        };
        assert(proxy@ =~= fresh(*cfg, *device));
        proxy
    }

    pub fn device(&self) -> (device: &D)
        ensures
            *device == *self.device,
    {
        &*self.device
    }

    /// A message for the host about the given page.
    fn to_host(&self, page: u8, bytes: Vec<u8>) -> (out: Out)
        ensures
            out@ == model::to_host(self@, page, bytes@),
    {
        match self.mode {
            Mode::NoteOffset => Out::ToHost(bytes),
            Mode::PerPort => Out::ToHostPage { page, bytes },
        }
    }

    fn to_host_current(&self, bytes: Vec<u8>) -> (out: Out)
        ensures
            out@ == model::to_host(self@, self@.current_page, bytes@),
    {
        self.to_host(self.current_page, bytes)
    }

    fn is_global(&self, button: ButtonRef) -> (yes: bool)
        ensures
            yes == model::is_global(self@, button),
    {
        for i in 0..self.global_buttons.len()
            invariant
                forall|k: int| 0 <= k < i ==> self.global_buttons@[k] != button,
        {
            if self.global_buttons[i] == button {
                assert(self.global_buttons@.contains(self.global_buttons@[i as int]));
                return true;
            }
        }
        false
    }

    /// The page button that a button is, if it is one.
    fn page_button_slot(&self, button: ButtonRef) -> (slot: Option<ResolvedPageButton>)
        ensures
            slot == model::page_button(self@, button),
    {
        let mut i: usize = 0;
        while i < self.page_buttons.len()
            invariant
                i <= self.page_buttons@.len(),
                model::slot_from(self.page_buttons@, button, i as int) == model::page_button(
                    self@,
                    button,
                ),
            decreases self.page_buttons@.len() - i,
        {
            if self.page_buttons[i].button == button {
                return Some(self.page_buttons[i]);
            }
            i = i + 1;
        }
        None
    }

    /// True if `controller` is one of the CCs the proxy itself manages
    /// (next/previous page, or any page button). DAW writes to these are
    /// fine to forward but caching them is pointless because
    /// `paint_indicators` will overwrite them on every page change anyway.
    fn is_proxy_managed_cc(&self, controller: u8) -> (yes: bool)
        ensures
            yes == model::is_navigation(self@, ButtonRef::Cc { number: controller }),
    {
        self.is_navigation(ButtonRef::Cc { number: controller })
    }

    fn is_navigation(&self, button: ButtonRef) -> (yes: bool)
        ensures
            yes == model::is_navigation(self@, button),
    {
        is_button(self.next_page_button, button) || is_button(self.previous_page_button, button)
            || self.page_button_slot(button).is_some()
    }
}

/// Whether an optional button is the given one.
fn is_button(configured: Option<ButtonRef>, button: ButtonRef) -> (same: bool)
    ensures
        same == (configured == Some(button)),
{
    match configured {
        Some(other) => other == button,
        None => false,
    }
}

/// A byte string of its own with the same bytes.
fn copied(bytes: &[u8]) -> (copy: Vec<u8>)
    ensures
        copy@ == bytes@,
{
    vstd::slice::slice_to_vec(bytes)
}

/// A list of one write.
fn just(out: Out) -> (outs: Vec<Out>)
    ensures
        sent(outs@) == seq![out@],
{
    let mut outs: Vec<Out> = Vec::new();
    outs.push(out);
    assert(sent(outs@) =~= seq![out@]);
    outs
}

/// An empty list of writes.
fn nothing() -> (outs: Vec<Out>)
    ensures
        sent(outs@) == Seq::<Sent>::empty(),
{
    let outs: Vec<Out> = Vec::new();
    assert(sent(outs@) =~= Seq::<Sent>::empty());
    outs
}

/// Sends the messages to the device, after what is sent already.
fn push_to_device(outs: &mut Vec<Out>, messages: Vec<Vec<u8>>)
    ensures
        sent(final(outs)@) == sent(old(outs)@) + model::to_device(parse::views(messages@)),
{
    let ghost before = sent(outs@);
    let ghost all = messages@;
    assert(before =~= before + model::to_device(parse::views(all.take(0))));
    for bytes in it: messages
        invariant
            it.seq() == all,
            sent(outs@) == before + model::to_device(parse::views(all.take(it.index()))),
    {
        let ghost i = it.index();
        let ghost sent_before = sent(outs@);
        outs.push(Out::ToDevice(bytes));
        proof {
            assert(all.take(i + 1) =~= all.take(i).push(bytes));
            parse::lemma_views_push(all.take(i), bytes);
            assert(sent(outs@) =~= sent_before.push(Sent::ToDevice(bytes@)));
            assert(sent(outs@) =~= before + model::to_device(parse::views(all.take(i + 1))));
        }
    }
    assert(all.take(all.len() as int) =~= all);
}

/// Appends one list of writes to another.
fn push_outs(outs: &mut Vec<Out>, more: Vec<Out>)
    ensures
        sent(final(outs)@) == sent(old(outs)@) + sent(more@),
{
    let mut more = more;
    let ghost added = more@;
    outs.append(&mut more);
    assert(sent(outs@) =~= sent(old(outs)@) + sent(added));
}

} // verus!
