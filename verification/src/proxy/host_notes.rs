//! What the host has heard: which notes are open to it, and that these are always
//! the pads that are held on the page shown.

use vstd::prelude::*;

use crate::config::{self, ButtonRef, DeviceConfig, Mode};
use crate::midi::any_device::AnyDevice;
use crate::midi::apc_mini::ApcMini;
use crate::midi::device::{Device, DeviceModel};
use crate::midi::mini_mk3::{self, MiniMk3};
use crate::midi::parse::{self, MsgView};
use crate::midi::sysex_lighting::{self, LedSpec, MINI_MK3_BYTE};
use crate::proxy;
use crate::proxy::laws;
use crate::proxy::model::{self, ProxyState, Sent};

verus! {

// -- Notes that the host has open -------------------------------------------

/// A note as the host tells it from others: the port of a page, or the single
/// port, with the channel and the number.
pub struct HostNote {
    pub port: Option<u8>,
    pub channel: u8,
    pub number: u8,
}

/// The open notes after a message on a port. A Note On opens a note, a Note Off
/// closes it.
pub open spec fn after_bytes(
    open: Set<HostNote>,
    port: Option<u8>,
    bytes: Seq<u8>,
) -> Set<HostNote> {
    match parse::meaning(bytes) {
        MsgView::NoteOn { channel, note, .. } => open.insert(
            HostNote { port, channel, number: note },
        ),
        MsgView::NoteOff { channel, note, .. } => open.remove(
            HostNote { port, channel, number: note },
        ),
        _ => open,
    }
}

/// The open notes after one message of the proxy.
pub open spec fn heard(open: Set<HostNote>, message: Sent) -> Set<HostNote> {
    match message {
        Sent::ToHost(bytes) => after_bytes(open, None, bytes),
        Sent::ToHostPage { page, bytes } => after_bytes(open, Some(page), bytes),
        _ => open,
    }
}

/// The open notes after a list of messages.
pub open spec fn heard_all(open: Set<HostNote>, sent: Seq<Sent>) -> Set<HostNote>
    decreases sent.len(),
{
    if sent.len() == 0 {
        open
    } else {
        heard(heard_all(open, sent.drop_last()), sent.last())
    }
}

/// Whether a message opens the note.
pub open spec fn opens(message: Sent, note: HostNote) -> bool {
    let bytes = match message {
        Sent::ToHost(bytes) => bytes,
        Sent::ToHostPage { bytes, .. } => bytes,
        _ => seq![],
    };
    &&& laws::is_for_host(message)
    &&& note.port == port_of(message)
    &&& parse::meaning(bytes) matches MsgView::NoteOn { channel, note: number, .. } && channel
        == note.channel && number == note.number
}

/// Whether a message closes the note.
pub open spec fn closes(message: Sent, note: HostNote) -> bool {
    let bytes = match message {
        Sent::ToHost(bytes) => bytes,
        Sent::ToHostPage { bytes, .. } => bytes,
        _ => seq![],
    };
    &&& laws::is_for_host(message)
    &&& note.port == port_of(message)
    &&& parse::meaning(bytes) matches MsgView::NoteOff { channel, note: number, .. } && channel
        == note.channel && number == note.number
}

/// The page of the port that a message for the host goes to, in per-port mode.
pub open spec fn port_of(message: Sent) -> Option<u8> {
    match message {
        Sent::ToHostPage { page, .. } => Some(page),
        _ => None,
    }
}

// -- The notes of pads ------------------------------------------------------

/// The note of a pad on a page.
pub open spec fn note_of(s: ProxyState, pad: u8, channel: u8, page: u8) -> HostNote {
    HostNote {
        port: match s.mode {
            Mode::NoteOffset => None,
            Mode::PerPort => Some(page),
        },
        channel,
        number: model::number_on_page(s, pad, page) % 128,
    }
}

/// Whether a note is the note of some pad on some page.
pub open spec fn is_pad_note(s: ProxyState, note: HostNote) -> bool {
    exists|pad: u8, page: u8|
        model::is_pad(s, pad) && page < s.pages && note == #[trigger] note_of(
            s,
            pad,
            note.channel,
            page,
        )
}

/// Whether a note is that of a pad that is held, and was not let go since its
/// press, on the page shown.
pub open spec fn is_held_note(s: ProxyState, note: HostNote) -> bool {
    exists|pad: u8| #[trigger]
        s.held.contains_key(pad) && !s.suppressed.contains(pad) && note == note_of(
            s,
            pad,
            s.held[pad],
            s.current_page,
        )
}

/// Whether the notes of pads that the host has open are those of the pads that
/// are held on the page shown.
pub open spec fn notes_match(s: ProxyState, open: Set<HostNote>) -> bool {
    forall|note: HostNote| #[trigger]
        is_pad_note(s, note) ==> open.contains(note) == is_held_note(s, note)
}

/// A device whose pads have numbers in MIDI's range.
pub open spec fn pads_are_midi(device: DeviceModel) -> bool {
    forall|n: u8| #[trigger] (device.grid_note)(n) ==> n < 128
}

// -- Calls ------------------------------------------------------------------

/// One call of the proxy.
pub enum Event {
    FromDevice(Seq<u8>),
    FromHost(Seq<u8>),
    FromPort { page: u8, bytes: Seq<u8> },
    SetPage(u8),
    ShowPage(u8),
}

/// What a call does.
pub open spec fn step(s: ProxyState, event: Event) -> model::Step {
    match event {
        Event::FromDevice(bytes) => model::device_in(s, bytes),
        Event::FromHost(bytes) => model::host_in(s, bytes),
        Event::FromPort { page, bytes } => model::host_in_per_port(s, page, bytes),
        Event::SetPage(page) => model::persistent_page_set(s, page),
        Event::ShowPage(page) => model::page_changed(s, page),
    }
}

/// What a list of calls does: the state in the end, and everything sent.
pub open spec fn run(s: ProxyState, events: Seq<Event>) -> model::Step
    decreases events.len(),
{
    if events.len() == 0 {
        (s, seq![])
    } else {
        let before = run(s, events.drop_last());
        let last = step(before.0, events.last());
        (last.0, before.1 + last.1)
    }
}

/// Whether a message of the device is one of a pad that is pressed and released
/// in turn: a press of a pad that is up, or a release on the channel of the
/// press. In note-offset mode data is in MIDI's range, and a button that is no
/// pad does not share its number with a pad on a page.
pub open spec fn in_turn(s: ProxyState, bytes: Seq<u8>) -> bool {
    match parse::meaning(bytes) {
        MsgView::NoteOn { channel, note, velocity } => {
            if model::is_navigation(s, ButtonRef::Note { number: note }) {
                true
            } else if model::is_pad(s, note) {
                !s.held.contains_key(note) && (s.mode == Mode::NoteOffset ==> velocity < 128)
            } else {
                stands_alone(s, channel, note)
            }
        },
        MsgView::NoteOff { channel, note, .. } => {
            if model::is_navigation(s, ButtonRef::Note { number: note }) {
                true
            } else if model::is_pad(s, note) {
                s.held.contains_key(note) ==> s.held[note] == channel
            } else {
                stands_alone(s, channel, note)
            }
        },
        _ => true,
    }
}

/// Whether a note that is passed on as it is, is not the note of a pad in
/// note-offset mode.
pub open spec fn stands_alone(s: ProxyState, channel: u8, note: u8) -> bool {
    s.mode == Mode::NoteOffset ==> !is_pad_note(s, HostNote { port: None, channel, number: note })
}

pub open spec fn event_in_turn(s: ProxyState, event: Event) -> bool {
    match event {
        Event::FromDevice(bytes) => in_turn(s, bytes),
        _ => true,
    }
}

/// Whether in a list of calls every pad is pressed and released in turn.
pub open spec fn all_in_turn(s: ProxyState, events: Seq<Event>) -> bool
    decreases events.len(),
{
    events.len() > 0 ==> all_in_turn(s, events.drop_last()) && event_in_turn(
        run(s, events.drop_last()).0,
        events.last(),
    )
}

/// What the laws ask of a proxy: a valid state with a page to show, numbers for
/// all pads on all pages, and pads in MIDI's range.
pub open spec fn is_playable(s: ProxyState) -> bool {
    &&& model::valid(s)
    &&& s.pages > 0
    &&& model::numbers_fit(s)
    &&& pads_are_midi(s.device)
}

// -- Hearing lists of messages ----------------------------------------------

proof fn lemma_heard_in_turn(open: Set<HostNote>, a: Seq<Sent>, b: Seq<Sent>)
    ensures
        heard_all(open, a + b) == heard_all(heard_all(open, a), b),
    decreases b.len(),
{
    if b.len() == 0 {
        assert(a + b =~= a);
    } else {
        assert((a + b).drop_last() =~= a + b.drop_last());
        assert((a + b).last() == b.last());
        lemma_heard_in_turn(open, a, b.drop_last());
    }
}

/// The host hears nothing of what goes to the device.
proof fn lemma_device_messages_are_not_heard(open: Set<HostNote>, sent: Seq<Sent>)
    requires
        forall|i: int| 0 <= i < sent.len() ==> !laws::is_for_host(#[trigger] sent[i]),
    ensures
        heard_all(open, sent) == open,
    decreases sent.len(),
{
    if sent.len() > 0 {
        let rest = sent.drop_last();
        assert forall|i: int| 0 <= i < rest.len() implies !laws::is_for_host(
            #[trigger] rest[i],
        ) by {
            assert(!laws::is_for_host(sent[i]));
        }
        lemma_device_messages_are_not_heard(open, rest);
        assert(!laws::is_for_host(sent[sent.len() - 1]));
    }
}

proof fn lemma_one_is_heard(open: Set<HostNote>, message: Sent)
    ensures
        heard_all(open, seq![message]) == heard(open, message),
{
    assert(seq![message].drop_last() =~= seq![]);
    assert(heard_all(open, seq![message].drop_last()) == open);
}

/// The pads below `n` that are held are let go, each by the note of its press.
proof fn lemma_note_offs_close(s: ProxyState, open: Set<HostNote>, n: int, note: HostNote)
    requires
        model::valid(s),
        0 <= n <= 256,
    ensures
        heard_all(open, model::note_offs(s, n)).contains(note) == (open.contains(note) && !(
        exists|pad: u8| #[trigger]
            s.held.contains_key(pad) && pad < n && note == note_of(
                s,
                pad,
                s.held[pad],
                s.current_page,
            ))),
    decreases n,
{
    if n > 0 {
        lemma_note_offs_close(s, open, n - 1, note);
        let before = model::note_offs(s, n - 1);
        let sent = model::note_offs(s, n);
        let last = (n - 1) as u8;
        if s.held.contains_key(last) {
            let number = model::number_on_page(s, last, s.current_page);
            assert(sent.drop_last() =~= before);
            parse::law_built_messages_are_read_back(s.held[last], number, 0);
            let closed = note_of(s, last, s.held[last], s.current_page);
            assert(heard_all(open, sent) == heard_all(open, before).remove(closed));
        }
        assert((exists|pad: u8| #[trigger]
            s.held.contains_key(pad) && pad < n && note == note_of(
                s,
                pad,
                s.held[pad],
                s.current_page,
            )) <==> ((exists|pad: u8| #[trigger]
            s.held.contains_key(pad) && pad < n - 1 && note == note_of(
                s,
                pad,
                s.held[pad],
                s.current_page,
            )) || (s.held.contains_key(last) && note == note_of(
            s,
            last,
            s.held[last],
            s.current_page,
        ))));
    }
}

/// No two pads have the same note on a page.
proof fn lemma_notes_differ(s: ProxyState, a: u8, b: u8, channel_a: u8, channel_b: u8)
    requires
        is_playable(s),
        model::is_pad(s, a),
        model::is_pad(s, b),
        note_of(s, a, channel_a, s.current_page) == note_of(s, b, channel_b, s.current_page),
    ensures
        a == b,
        channel_a == channel_b,
{
    lemma_pad_number_fits(s, a);
    lemma_pad_number_fits(s, b);
}

proof fn lemma_pad_number_fits(s: ProxyState, pad: u8)
    requires
        is_playable(s),
        model::is_pad(s, pad),
    ensures
        model::number_fits(s, pad, s.current_page),
        pad < 128,
{
    if s.mode == Mode::NoteOffset {
        let shown = s.current_page as int;
        let last = s.pages - 1;
        let offset = s.note_offset as int;
        assert(shown * offset <= last * offset) by (nonlinear_arith)
            requires
                shown <= last,
                offset >= 0,
        ;
    }
}

// -- One call ---------------------------------------------------------------

/// States with the same setup, pads and page shown have the same notes.
proof fn lemma_same_notes(a: ProxyState, b: ProxyState, open: Set<HostNote>)
    requires
        laws::same_setup(a, b),
        a.held == b.held,
        a.suppressed == b.suppressed,
        a.current_page == b.current_page,
        notes_match(a, open),
    ensures
        notes_match(b, open),
{
    assert forall|note: HostNote| #[trigger] is_pad_note(b, note) implies open.contains(note)
        == is_held_note(b, note) by {
        lemma_same_pad_notes(a, b, note);
        assert(is_pad_note(a, note));
        if is_held_note(a, note) {
            let pad = choose|pad: u8| #[trigger]
                a.held.contains_key(pad) && !a.suppressed.contains(pad) && note == note_of(
                    a,
                    pad,
                    a.held[pad],
                    a.current_page,
                );
            assert(b.held.contains_key(pad));
        }
        if is_held_note(b, note) {
            let pad = choose|pad: u8| #[trigger]
                b.held.contains_key(pad) && !b.suppressed.contains(pad) && note == note_of(
                    b,
                    pad,
                    b.held[pad],
                    b.current_page,
                );
            assert(a.held.contains_key(pad));
        }
    }
}

proof fn lemma_same_pad_notes(a: ProxyState, b: ProxyState, note: HostNote)
    requires
        laws::same_setup(a, b),
    ensures
        is_pad_note(a, note) == is_pad_note(b, note),
{
    if is_pad_note(a, note) {
        let (pad, page) = choose|pad: u8, page: u8|
            model::is_pad(a, pad) && page < a.pages && note == #[trigger] note_of(
                a,
                pad,
                note.channel,
                page,
            );
        assert(model::is_pad(b, pad) && note == note_of(b, pad, note.channel, page));
    }
    if is_pad_note(b, note) {
        let (pad, page) = choose|pad: u8, page: u8|
            model::is_pad(b, pad) && page < b.pages && note == #[trigger] note_of(
                b,
                pad,
                note.channel,
                page,
            );
        assert(model::is_pad(a, pad) && note == note_of(a, pad, note.channel, page));
    }
}

/// Once a page is turned to, the host has no note of a pad open.
pub proof fn law_page_change_leaves_no_note_open(
    s: ProxyState,
    page: u8,
    open: Set<HostNote>,
    note: HostNote,
)
    requires
        model::valid(s),
        page < s.pages,
        notes_match(s, open),
        is_pad_note(s, note),
    ensures
        !heard_all(open, model::page_changed(s, page).1).contains(note),
{
    let (turned, sent) = model::page_changed(s, page);
    let offs = model::note_offs(s, 256);
    let redraw = model::to_device(model::redraw(turned));
    lemma_heard_in_turn(open, offs, redraw);
    lemma_device_messages_are_not_heard(heard_all(open, offs), redraw);
    lemma_note_offs_close(s, open, 256, note);
    if open.contains(note) {
        assert(is_held_note(s, note));
        let pad = choose|pad: u8| #[trigger]
            s.held.contains_key(pad) && !s.suppressed.contains(pad) && note == note_of(
                s,
                pad,
                s.held[pad],
                s.current_page,
            );
        assert(s.held.contains_key(pad) && pad < 256);
    }
}

proof fn lemma_page_change_matches(s: ProxyState, page: u8, open: Set<HostNote>)
    requires
        model::valid(s),
        notes_match(s, open),
    ensures
        notes_match(
            model::page_changed(s, page).0,
            heard_all(open, model::page_changed(s, page).1),
        ),
{
    if page < s.pages {
        let (turned, sent) = model::page_changed(s, page);
        assert forall|note: HostNote| #[trigger] is_pad_note(turned, note) implies heard_all(
            open,
            sent,
        ).contains(note) == is_held_note(turned, note) by {
            lemma_same_pad_notes(s, turned, note);
            law_page_change_leaves_no_note_open(s, page, open, note);
            if is_held_note(turned, note) {
                let pad = choose|pad: u8| #[trigger]
                    turned.held.contains_key(pad) && !turned.suppressed.contains(pad) && note
                        == note_of(turned, pad, turned.held[pad], turned.current_page);
                assert(s.held.dom().contains(pad));
            }
        }
    }
}

proof fn lemma_setting_the_page_matches(s: ProxyState, page: u8, open: Set<HostNote>)
    requires
        model::valid(s),
        notes_match(s, open),
    ensures
        notes_match(
            model::persistent_page_set(s, page).0,
            heard_all(open, model::persistent_page_set(s, page).1),
        ),
{
    if page < s.pages {
        let moved = ProxyState { persistent_page: page, ..s };
        lemma_same_notes(s, moved, open);
        assert(model::valid(moved));
        lemma_page_change_matches(moved, page, open);
    }
}

proof fn lemma_press_matches(s: ProxyState, button: ButtonRef, open: Set<HostNote>)
    requires
        model::valid(s),
        notes_match(s, open),
    ensures
        notes_match(model::press(s, button).0, heard_all(open, model::press(s, button).1)),
{
    if model::is_cycle_button(s, button) {
        let forward = s.next_page_button == Some(button);
        let flash = model::flash(s, button);
        lemma_heard_in_turn(open, flash, model::cycled(s, forward).1);
        lemma_device_messages_are_not_heard(open, flash);
        lemma_setting_the_page_matches(s, model::neighbour(s, forward), open);
    } else if let Some(pb) = model::page_button(s, button) {
        laws::lemma_slot_is_for_the_button(s.page_buttons, button, 0);
        lemma_setting_the_page_matches(s, pb.page, open);
        if pb.hold && pb.page < s.pages {
            let entered = ProxyState {
                held_preview: Some(pb.page),
                held_preview_button: Some(pb.button),
                ..s
            };
            lemma_same_notes(s, entered, open);
            assert(model::valid(entered));
            lemma_page_change_matches(entered, pb.page, open);
        }
    }
}

proof fn lemma_release_matches(s: ProxyState, button: ButtonRef, open: Set<HostNote>)
    requires
        model::valid(s),
        notes_match(s, open),
    ensures
        notes_match(model::release(s, button).0, heard_all(open, model::release(s, button).1)),
{
    let left = ProxyState { held_preview: None, held_preview_button: None, ..s };
    lemma_same_notes(s, left, open);
    assert(model::valid(left));
    lemma_page_change_matches(left, s.persistent_page, open);
}

/// The note that the host hears of a pad that is pressed.
proof fn lemma_press_is_heard(s: ProxyState, bytes: Seq<u8>)
    requires
        is_playable(s),
        parse::meaning(bytes) matches MsgView::NoteOn { note, .. } && model::is_pad(s, note)
            && in_turn(s, bytes),
    ensures
        parse::meaning(bytes) matches MsgView::NoteOn { channel, note, .. } && ({
            let (after, sent) = model::device_in(s, bytes);
            &&& after == ProxyState { held: s.held.insert(note, channel), ..s }
            &&& sent.len() == 1
            &&& opens(sent[0], note_of(s, note, channel, s.current_page))
        }),
{
    if let MsgView::NoteOn { channel, note, velocity } = parse::meaning(bytes) {
        lemma_pad_number_fits(s, note);
        let number = model::number_on_page(s, note, s.current_page);
        parse::law_built_messages_are_read_back(channel, number, velocity);
    }
}

/// The note that the host hears of a pad that is released, if it hears of it.
proof fn lemma_release_is_heard(s: ProxyState, bytes: Seq<u8>)
    requires
        is_playable(s),
        parse::meaning(bytes) matches MsgView::NoteOff { note, .. } && model::is_pad(s, note),
    ensures
        parse::meaning(bytes) matches MsgView::NoteOff { channel, note, .. } && ({
            let (after, sent) = model::device_in(s, bytes);
            &&& after == ProxyState {
                held: s.held.remove(note),
                suppressed: s.suppressed.remove(note),
                ..s
            }
            &&& s.suppressed.contains(note) ==> sent.len() == 0
            &&& !s.suppressed.contains(note) ==> sent.len() == 1 && closes(
                sent[0],
                note_of(s, note, channel, s.current_page),
            )
        }),
{
    if let MsgView::NoteOff { channel, note, velocity } = parse::meaning(bytes) {
        lemma_pad_number_fits(s, note);
        let number = model::number_on_page(s, note, s.current_page);
        parse::law_built_messages_are_read_back(channel, number, velocity);
    }
}

proof fn lemma_pad_press_matches(s: ProxyState, bytes: Seq<u8>, open: Set<HostNote>)
    requires
        is_playable(s),
        notes_match(s, open),
        in_turn(s, bytes),
        parse::meaning(bytes) matches MsgView::NoteOn { note, .. } && model::is_pad(s, note),
    ensures
        notes_match(model::device_in(s, bytes).0, heard_all(open, model::device_in(s, bytes).1)),
{
    if let MsgView::NoteOn { channel, note: pad, velocity } = parse::meaning(bytes) {
        let (after, sent) = model::device_in(s, bytes);
        lemma_press_is_heard(s, bytes);
        lemma_one_is_heard(open, sent[0]);
        assert(sent =~= seq![sent[0]]);
        let opened = note_of(s, pad, channel, s.current_page);
        assert(heard_all(open, sent) == open.insert(opened));
        assert forall|note: HostNote| #[trigger] is_pad_note(after, note) implies heard_all(
            open,
            sent,
        ).contains(note) == is_held_note(after, note) by {
            lemma_same_pad_notes(s, after, note);
            if note == opened {
                assert(after.held.contains_key(pad) && !after.suppressed.contains(pad));
            }
            if is_held_note(s, note) {
                let held = choose|held: u8| #[trigger]
                    s.held.contains_key(held) && !s.suppressed.contains(held) && note == note_of(
                        s,
                        held,
                        s.held[held],
                        s.current_page,
                    );
                assert(after.held.contains_key(held));
            }
            if is_held_note(after, note) && note != opened {
                let held = choose|held: u8| #[trigger]
                    after.held.contains_key(held) && !after.suppressed.contains(held) && note
                        == note_of(after, held, after.held[held], after.current_page);
                assert(s.held.contains_key(held));
            }
        }
    }
}

proof fn lemma_pad_release_matches(s: ProxyState, bytes: Seq<u8>, open: Set<HostNote>)
    requires
        is_playable(s),
        notes_match(s, open),
        in_turn(s, bytes),
        parse::meaning(bytes) matches MsgView::NoteOff { note, .. } && model::is_pad(s, note),
    ensures
        notes_match(model::device_in(s, bytes).0, heard_all(open, model::device_in(s, bytes).1)),
{
    if let MsgView::NoteOff { channel, note: pad, velocity } = parse::meaning(bytes) {
        let (after, sent) = model::device_in(s, bytes);
        lemma_release_is_heard(s, bytes);
        let closed = note_of(s, pad, channel, s.current_page);
        let heard = if s.suppressed.contains(pad) {
            open
        } else {
            lemma_one_is_heard(open, sent[0]);
            assert(sent =~= seq![sent[0]]);
            open.remove(closed)
        };
        assert(heard_all(open, sent) == heard);
        assert forall|note: HostNote| #[trigger] is_pad_note(after, note) implies heard.contains(
            note,
        ) == is_held_note(after, note) by {
            lemma_same_pad_notes(s, after, note);
            if is_held_note(s, note) {
                let held = choose|held: u8| #[trigger]
                    s.held.contains_key(held) && !s.suppressed.contains(held) && note == note_of(
                        s,
                        held,
                        s.held[held],
                        s.current_page,
                    );
                if held != pad {
                    assert(after.held.contains_key(held));
                    if note == closed {
                        lemma_notes_differ(s, held, pad, s.held[held], channel);
                    }
                }
            }
            if is_held_note(after, note) {
                let held = choose|held: u8| #[trigger]
                    after.held.contains_key(held) && !after.suppressed.contains(held) && note
                        == note_of(after, held, after.held[held], after.current_page);
                assert(s.held.contains_key(held));
                if note == closed {
                    lemma_notes_differ(s, held, pad, s.held[held], channel);
                }
            }
        }
    }
}

/// What is passed on of anything but a pad or a navigation button opens and
/// closes no note of a pad.
proof fn lemma_others_match(s: ProxyState, bytes: Seq<u8>, open: Set<HostNote>)
    requires
        is_playable(s),
        notes_match(s, open),
        in_turn(s, bytes),
        laws::button_of(bytes) matches Some(button) ==> !model::is_navigation(s, button),
        parse::meaning(bytes) matches MsgView::NoteOn { note, .. } ==> !model::is_pad(s, note),
        parse::meaning(bytes) matches MsgView::NoteOff { note, .. } ==> !model::is_pad(s, note),
    ensures
        model::device_in(s, bytes).0 == s,
        notes_match(s, heard_all(open, model::device_in(s, bytes).1)),
{
    let sent = model::device_in(s, bytes).1;
    assert(sent.len() == 1);
    assert(sent =~= seq![sent[0]]);
    lemma_one_is_heard(open, sent[0]);
    let heard = heard(open, sent[0]);
    if let MsgView::Cc { channel, controller, value } = parse::meaning(bytes) {
        let number = model::number_on_page(s, controller, s.current_page);
        parse::law_built_messages_are_read_back(channel, number, value);
    }
    assert forall|note: HostNote| #[trigger] is_pad_note(s, note) implies heard.contains(note)
        == open.contains(note) by {
        let (pad, page) = choose|pad: u8, page: u8|
            model::is_pad(s, pad) && page < s.pages && note == #[trigger] note_of(
                s,
                pad,
                note.channel,
                page,
            );
        assert((s.device.grid_note)(pad));
    }
}

proof fn lemma_leds_keep_the_pads(s: ProxyState, page: u8, leds: Seq<LedSpec>)
    ensures
        model::leds_cached(s, leds).held == s.held,
        model::leds_cached(s, leds).suppressed == s.suppressed,
        model::leds_cached(s, leds).current_page == s.current_page,
        model::port_leds_cached(s, page, leds).held == s.held,
        model::port_leds_cached(s, page, leds).suppressed == s.suppressed,
        model::port_leds_cached(s, page, leds).current_page == s.current_page,
    decreases leds.len(),
{
    if leds.len() > 0 {
        lemma_leds_keep_the_pads(s, page, leds.drop_last());
    }
}

/// What the host sends changes neither the pads that are held nor the page.
proof fn lemma_host_keeps_the_pads(s: ProxyState, page: u8, bytes: Seq<u8>)
    ensures
        model::host_in(s, bytes).0.held == s.held,
        model::host_in(s, bytes).0.suppressed == s.suppressed,
        model::host_in(s, bytes).0.current_page == s.current_page,
        model::host_in_per_port(s, page, bytes).0.held == s.held,
        model::host_in_per_port(s, page, bytes).0.suppressed == s.suppressed,
        model::host_in_per_port(s, page, bytes).0.current_page == s.current_page,
{
    if let Ok(leds) = sysex_lighting::lighting_entries(bytes, MINI_MK3_BYTE) {
        lemma_leds_keep_the_pads(s, page, leds);
    }
}

/// A call leaves the proxy playable.
proof fn lemma_step_stays_playable(s: ProxyState, event: Event)
    requires
        is_playable(s),
    ensures
        is_playable(step(s, event).0),
        laws::same_setup(s, step(s, event).0),
{
    match event {
        Event::FromDevice(bytes) => laws::law_device_input_keeps_the_proxy_valid(s, bytes),
        Event::FromHost(bytes) => laws::law_host_input_keeps_the_proxy_valid(s, bytes),
        Event::FromPort { page, bytes } => {
            laws::law_port_input_keeps_the_proxy_valid(s, page, bytes)
        },
        Event::SetPage(page) => laws::law_setting_the_page_keeps_the_proxy_valid(s, page),
        Event::ShowPage(page) => laws::law_page_change_keeps_the_proxy_valid(s, page),
    }
}

/// Every call keeps the notes that the host has open the same as the pads that
/// are held on the page shown, as long as each pad is pressed and released in
/// turn.
pub proof fn law_every_call_keeps_notes_matched(s: ProxyState, event: Event, open: Set<HostNote>)
    requires
        is_playable(s),
        notes_match(s, open),
        event_in_turn(s, event),
    ensures
        notes_match(step(s, event).0, heard_all(open, step(s, event).1)),
        is_playable(step(s, event).0),
{
    let (after, sent) = step(s, event);
    lemma_step_stays_playable(s, event);
    match event {
        Event::FromDevice(bytes) => {
            if laws::button_of(bytes) matches Some(button) && model::is_navigation(s, button) {
                let button = laws::button_of(bytes).unwrap();
                lemma_press_matches(s, button, open);
                lemma_release_matches(s, button, open);
            } else {
                match parse::meaning(bytes) {
                    MsgView::NoteOn { note, .. } if model::is_pad(s, note) => {
                        lemma_pad_press_matches(s, bytes, open);
                    },
                    MsgView::NoteOff { note, .. } if model::is_pad(s, note) => {
                        lemma_pad_release_matches(s, bytes, open);
                    },
                    _ => {
                        lemma_others_match(s, bytes, open);
                    },
                }
            }
        },
        Event::FromHost(bytes) => {
            lemma_host_keeps_the_pads(s, 0, bytes);
            lemma_host_is_not_answered(s, 0, bytes);
            lemma_device_messages_are_not_heard(open, sent);
            lemma_same_notes(s, after, open);
        },
        Event::FromPort { page, bytes } => {
            lemma_host_keeps_the_pads(s, page, bytes);
            lemma_host_is_not_answered(s, page, bytes);
            lemma_device_messages_are_not_heard(open, sent);
            lemma_same_notes(s, after, open);
        },
        Event::SetPage(page) => {
            lemma_setting_the_page_matches(s, page, open);
        },
        Event::ShowPage(page) => {
            lemma_page_change_matches(s, page, open);
        },
    }
}

proof fn lemma_host_is_not_answered(s: ProxyState, page: u8, bytes: Seq<u8>)
    ensures
        forall|i: int|
            0 <= i < model::host_in(s, bytes).1.len() ==> !laws::is_for_host(
                #[trigger] model::host_in(s, bytes).1[i],
            ),
        forall|i: int|
            0 <= i < model::host_in_per_port(s, page, bytes).1.len() ==> !laws::is_for_host(
                #[trigger] model::host_in_per_port(s, page, bytes).1[i],
            ),
{
    assert forall|i: int| 0 <= i < model::host_in(s, bytes).1.len() implies !laws::is_for_host(
        #[trigger] model::host_in(s, bytes).1[i],
    ) by {
        laws::law_host_messages_go_to_the_device(s, page, bytes, i);
    }
    assert forall|i: int|
        0 <= i < model::host_in_per_port(s, page, bytes).1.len() implies !laws::is_for_host(
        #[trigger] model::host_in_per_port(s, page, bytes).1[i],
    ) by {
        laws::law_host_messages_go_to_the_device(s, page, bytes, i);
    }
}

// -- Any number of calls ----------------------------------------------------

/// After any calls, the notes of pads that the host has open are those of the
/// pads that are held on the page shown, as long as each pad is pressed and
/// released in turn.
pub proof fn law_notes_stay_matched(s: ProxyState, events: Seq<Event>, open: Set<HostNote>)
    requires
        is_playable(s),
        notes_match(s, open),
        all_in_turn(s, events),
    ensures
        notes_match(run(s, events).0, heard_all(open, run(s, events).1)),
        is_playable(run(s, events).0),
    decreases events.len(),
{
    if events.len() > 0 {
        let before = run(s, events.drop_last());
        let last = step(before.0, events.last());
        law_notes_stay_matched(s, events.drop_last(), open);
        law_every_call_keeps_notes_matched(
            before.0,
            events.last(),
            heard_all(open, before.1),
        );
        lemma_heard_in_turn(open, before.1, last.1);
    }
}

/// Both devices have their pads in MIDI's range.
pub proof fn law_pads_of_both_devices_are_midi(mini: MiniMk3, apc: ApcMini, any: AnyDevice)
    ensures
        pads_are_midi(mini.model()),
        pads_are_midi(apc.model()),
        pads_are_midi(any.model()),
{
    assert forall|n: u8| #[trigger] (mini.model().grid_note)(n) implies n < 128 by {
        assert(mini_mk3::grid_note(n));
        assert(n / 10 <= 8);
    }
}

/// No more pads can be held than the grid of either device has: 64.
pub proof fn law_held_pads_are_few(s: ProxyState, any: AnyDevice)
    requires
        model::valid(s),
        s.device == any.model(),
    ensures
        s.held.dom().finite(),
        s.held.dom().len() <= 64,
{
    let places = Set::<u8>::range_inclusive(0, 63);
    let place_of = |i: u8|
        match any {
            AnyDevice::MiniMk3(_) => (10 * (i / 8 + 1) + i % 8 + 1) as u8,
            AnyDevice::ApcMini(_) => i,
        };
    let pads = places.map(place_of);
    vstd::set_lib::range_set_properties::<u8>(0, 63);
    assert(places.len() == 64);
    places.lemma_map_finite(place_of);
    vstd::set_lib::lemma_map_size_bound(places, pads, place_of);
    assert forall|n: u8| s.held.dom().contains(n) implies pads.contains(n) by {
        assert(s.held.contains_key(n));
        assert((s.device.grid_note)(n));
        match any {
            AnyDevice::MiniMk3(_) => {
                let i = (8 * (n / 10 - 1) + n % 10 - 1) as u8;
                assert(mini_mk3::grid_note(n));
                assert(i / 8 == n / 10 - 1 && i % 8 == n % 10 - 1);
                assert(places.contains(i) && place_of(i) == n);
            },
            AnyDevice::ApcMini(_) => {
                assert(places.contains(n) && place_of(n) == n);
            },
        }
    }
    assert(s.held.dom().subset_of(pads));
    vstd::set_lib::lemma_set_subset_finite(pads, s.held.dom());
    vstd::set_lib::lemma_len_subset(s.held.dom(), pads);
}

/// With a new proxy the host has heard nothing, which matches: no pad is held.
/// From there on [`law_notes_stay_matched`] holds, whatever is called.
pub proof fn law_new_proxies_are_matched<D: Device>(cfg: DeviceConfig, device: D)
    requires
        cfg.pages > 0,
        model::numbers_fit(proxy::fresh(cfg, device)),
        pads_are_midi(device.model()),
    ensures
        is_playable(proxy::fresh(cfg, device)),
        notes_match(proxy::fresh(cfg, device), Set::empty()),
{
    let s = proxy::fresh(cfg, device);
    assert forall|note: HostNote| #[trigger] is_pad_note(s, note) implies !is_held_note(
        s,
        note,
    ) by {}
}

/// A new proxy for an accepted configuration meets what these laws ask for,
/// whichever device it drives.
pub proof fn law_accepted_proxies_are_playable(
    cfg: DeviceConfig,
    mini: MiniMk3,
    apc: ApcMini,
    any: AnyDevice,
)
    requires
        config::laws::acceptable(cfg),
    ensures
        is_playable(proxy::fresh(cfg, mini)),
        is_playable(proxy::fresh(cfg, apc)),
        is_playable(proxy::fresh(cfg, any)),
{
    laws::law_accepted_numbers_fit(cfg, mini, apc, any);
    law_pads_of_both_devices_are_midi(mini, apc, any);
    law_new_proxies_are_matched(cfg, mini);
    law_new_proxies_are_matched(cfg, apc);
    law_new_proxies_are_matched(cfg, any);
}

/// Whether a pad is down since a press on a channel, and was not let go, on the
/// page where it was pressed.
pub open spec fn still_down(s: ProxyState, pad: u8, channel: u8, page: u8) -> bool {
    &&& s.current_page == page
    &&& s.held.contains_key(pad)
    &&& s.held[pad] == channel
    &&& !s.suppressed.contains(pad)
}

/// Whether some message of a list closes the note.
pub open spec fn some_closes(sent: Seq<Sent>, note: HostNote) -> bool {
    exists|i: int| 0 <= i < sent.len() && closes(#[trigger] sent[i], note)
}

proof fn lemma_closes_among_more(a: Seq<Sent>, b: Seq<Sent>, note: HostNote)
    requires
        some_closes(a, note) || some_closes(b, note),
    ensures
        some_closes(a + b, note),
{
    if some_closes(a, note) {
        let i = choose|i: int| 0 <= i < a.len() && closes(#[trigger] a[i], note);
        assert(closes((a + b)[i], note));
    } else {
        let i = choose|i: int| 0 <= i < b.len() && closes(#[trigger] b[i], note);
        assert(closes((a + b)[a.len() + i], note));
    }
}

/// Turning to a page closes the note of every pad that is held.
proof fn lemma_page_change_closes(s: ProxyState, page: u8, pad: u8)
    requires
        model::valid(s),
        page < s.pages,
        s.held.contains_key(pad),
    ensures
        some_closes(
            model::page_changed(s, page).1,
            note_of(s, pad, s.held[pad], s.current_page),
        ),
{
    let offs = model::note_offs(s, 256);
    let redraw = model::to_device(model::redraw(model::page_changed(s, page).0));
    let number = model::number_on_page(s, pad, s.current_page);
    let off = model::to_host(
        s,
        s.current_page,
        parse::note_off_bytes(s.held[pad], number, 0),
    );
    let note = note_of(s, pad, s.held[pad], s.current_page);
    laws::lemma_note_off_is_sent(s, pad, 256);
    parse::law_built_messages_are_read_back(s.held[pad], number, 0);
    assert(closes(off, note));
    let i = choose|i: int| 0 <= i < offs.len() && offs[i] == off;
    assert(closes(offs[i], note));
    lemma_closes_among_more(offs, redraw, note);
}

/// What a navigation button does leaves a pad down, or closes its note.
proof fn lemma_navigation_closes(s: ProxyState, button: ButtonRef, pad: u8)
    requires
        model::valid(s),
        s.pages > 0,
        s.held.contains_key(pad),
        !s.suppressed.contains(pad),
    ensures
        ({
            let note = note_of(s, pad, s.held[pad], s.current_page);
            let pressed = model::press(s, button);
            let released = model::release(s, button);
            &&& still_down(pressed.0, pad, s.held[pad], s.current_page) || some_closes(
                pressed.1,
                note,
            )
            &&& still_down(released.0, pad, s.held[pad], s.current_page) || some_closes(
                released.1,
                note,
            )
        }),
{
    let note = note_of(s, pad, s.held[pad], s.current_page);
    let left = ProxyState { held_preview: None, held_preview_button: None, ..s };
    assert(model::valid(left));
    lemma_page_change_closes(left, s.persistent_page, pad);
    assert(note_of(left, pad, s.held[pad], s.current_page) == note);
    if model::is_cycle_button(s, button) {
        let forward = s.next_page_button == Some(button);
        let page = model::neighbour(s, forward);
        let cycled = model::cycled(s, forward);
        lemma_setting_the_page_closes(s, page, pad);
        if some_closes(cycled.1, note) {
            lemma_closes_among_more(model::flash(s, button), cycled.1, note);
        }
    } else if let Some(pb) = model::page_button(s, button) {
        laws::lemma_slot_is_for_the_button(s.page_buttons, button, 0);
        lemma_setting_the_page_closes(s, pb.page, pad);
        if pb.hold && pb.page < s.pages {
            let entered = ProxyState {
                held_preview: Some(pb.page),
                held_preview_button: Some(pb.button),
                ..s
            };
            assert(model::valid(entered));
            lemma_page_change_closes(entered, pb.page, pad);
            assert(note_of(entered, pad, s.held[pad], s.current_page) == note);
        }
    }
}

proof fn lemma_setting_the_page_closes(s: ProxyState, page: u8, pad: u8)
    requires
        model::valid(s),
        s.held.contains_key(pad),
        !s.suppressed.contains(pad),
    ensures
        ({
            let set = model::persistent_page_set(s, page);
            still_down(set.0, pad, s.held[pad], s.current_page) || some_closes(
                set.1,
                note_of(s, pad, s.held[pad], s.current_page),
            )
        }),
{
    if page < s.pages {
        let moved = ProxyState { persistent_page: page, ..s };
        assert(model::valid(moved));
        lemma_page_change_closes(moved, page, pad);
        assert(note_of(moved, pad, s.held[pad], s.current_page) == note_of(
            s,
            pad,
            s.held[pad],
            s.current_page,
        ));
    }
}

/// A call leaves a pad down on its page, or sends the Note Off that its press
/// asks for.
proof fn lemma_call_closes(s: ProxyState, event: Event, pad: u8)
    requires
        is_playable(s),
        event_in_turn(s, event),
        s.held.contains_key(pad),
        !s.suppressed.contains(pad),
    ensures
        still_down(step(s, event).0, pad, s.held[pad], s.current_page) || some_closes(
            step(s, event).1,
            note_of(s, pad, s.held[pad], s.current_page),
        ),
{
    let channel = s.held[pad];
    let note = note_of(s, pad, channel, s.current_page);
    let (after, sent) = step(s, event);
    match event {
        Event::FromDevice(bytes) => {
            if laws::button_of(bytes) matches Some(button) && model::is_navigation(s, button) {
                lemma_navigation_closes(s, laws::button_of(bytes).unwrap(), pad);
            } else if let MsgView::NoteOff { note: released, .. } = parse::meaning(bytes) {
                if model::is_pad(s, released) {
                    lemma_release_is_heard(s, bytes);
                    if released == pad {
                        assert(closes(sent[0], note));
                    }
                }
            } else if let MsgView::NoteOn { note: pressed, .. } = parse::meaning(bytes) {
                if model::is_pad(s, pressed) {
                    lemma_press_is_heard(s, bytes);
                }
            }
        },
        Event::FromHost(bytes) => lemma_host_keeps_the_pads(s, 0, bytes),
        Event::FromPort { page, bytes } => lemma_host_keeps_the_pads(s, page, bytes),
        Event::SetPage(page) => lemma_setting_the_page_closes(s, page, pad),
        Event::ShowPage(page) => {
            if page < s.pages {
                lemma_page_change_closes(s, page, pad);
            }
        },
    }
}

proof fn lemma_calls_close(s: ProxyState, events: Seq<Event>, pad: u8)
    requires
        is_playable(s),
        all_in_turn(s, events),
        s.held.contains_key(pad),
        !s.suppressed.contains(pad),
    ensures
        is_playable(run(s, events).0),
        laws::same_setup(s, run(s, events).0),
        still_down(run(s, events).0, pad, s.held[pad], s.current_page) || some_closes(
            run(s, events).1,
            note_of(s, pad, s.held[pad], s.current_page),
        ),
    decreases events.len(),
{
    if events.len() > 0 {
        let note = note_of(s, pad, s.held[pad], s.current_page);
        let before = run(s, events.drop_last());
        let last = step(before.0, events.last());
        lemma_calls_close(s, events.drop_last(), pad);
        lemma_step_stays_playable(before.0, events.last());
        if some_closes(before.1, note) {
            lemma_closes_among_more(before.1, last.1, note);
        } else {
            lemma_call_closes(before.0, events.last(), pad);
            if some_closes(last.1, note) {
                lemma_closes_among_more(before.1, last.1, note);
            }
        }
    }
}

/// The host never sees an unmatched Note On: a press of a pad opens its note on
/// the page shown, and whatever is called then, once the pad is up or another
/// page is shown, the Note Off for that note has been sent, on the same port and
/// channel and with the same number.
pub proof fn law_no_note_on_stays_unmatched(
    s: ProxyState,
    press: Seq<u8>,
    pad: u8,
    channel: u8,
    events: Seq<Event>,
)
    requires
        is_playable(s),
        model::is_pad(s, pad),
        parse::meaning(press) matches MsgView::NoteOn { channel: c, note: n, .. } && c == channel
            && n == pad,
        in_turn(s, press),
        all_in_turn(model::device_in(s, press).0, events),
        ({
            let end = run(model::device_in(s, press).0, events).0;
            !end.held.contains_key(pad) || end.current_page != s.current_page
        }),
    ensures
        ({
            let note = note_of(s, pad, channel, s.current_page);
            let (pressed, sent) = model::device_in(s, press);
            &&& sent.len() == 1
            &&& opens(sent[0], note)
            &&& some_closes(run(pressed, events).1, note)
        }),
{
    let pressed = model::device_in(s, press).0;
    lemma_press_is_heard(s, press);
    lemma_step_stays_playable(s, Event::FromDevice(press));
    lemma_calls_close(pressed, events, pad);
    assert(note_of(pressed, pad, channel, s.current_page) == note_of(
        s,
        pad,
        channel,
        s.current_page,
    ));
}

/// Where a pad is down and was not let go, a call after which it is up or another
/// page is shown sends the Note Off for its note on the page shown before.
pub proof fn law_the_end_of_a_press_is_matched(s: ProxyState, event: Event, pad: u8)
    requires
        is_playable(s),
        event_in_turn(s, event),
        s.held.contains_key(pad),
        !s.suppressed.contains(pad),
        !step(s, event).0.held.contains_key(pad) || step(s, event).0.current_page
            != s.current_page,
    ensures
        some_closes(step(s, event).1, note_of(s, pad, s.held[pad], s.current_page)),
{
    lemma_call_closes(s, event, pad);
}

/// The first call after a press that lets the pad up or shows another page sends
/// the matching Note Off itself, on the page of the press, unless an earlier call
/// has sent it by turning to the same page once more.
pub proof fn law_the_first_call_that_ends_a_press_matches_it(
    s: ProxyState,
    press: Seq<u8>,
    pad: u8,
    channel: u8,
    between: Seq<Event>,
    event: Event,
)
    requires
        is_playable(s),
        model::is_pad(s, pad),
        parse::meaning(press) matches MsgView::NoteOn { channel: c, note: n, .. } && c == channel
            && n == pad,
        in_turn(s, press),
        all_in_turn(model::device_in(s, press).0, between),
        ({
            let note = note_of(s, pad, channel, s.current_page);
            let (middle, sent) = run(model::device_in(s, press).0, between);
            let end = step(middle, event).0;
            &&& event_in_turn(middle, event)
            &&& !some_closes(sent, note)
            &&& !end.held.contains_key(pad) || end.current_page != s.current_page
        }),
    ensures
        some_closes(
            step(run(model::device_in(s, press).0, between).0, event).1,
            note_of(s, pad, channel, s.current_page),
        ),
{
    let pressed = model::device_in(s, press).0;
    let middle = run(pressed, between).0;
    lemma_press_is_heard(s, press);
    lemma_step_stays_playable(s, Event::FromDevice(press));
    lemma_calls_close(pressed, between, pad);
    assert(note_of(pressed, pad, channel, s.current_page) == note_of(
        s,
        pad,
        channel,
        s.current_page,
    ));
    lemma_call_closes(middle, event, pad);
    assert(note_of(middle, pad, channel, s.current_page) == note_of(
        s,
        pad,
        channel,
        s.current_page,
    ));
}

} // verus!
