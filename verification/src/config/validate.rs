//! What is wrong with a configuration.

use std::collections::HashSet;
use vstd::prelude::*;
use vstd::string::StringExecFns;

use crate::config::{names, ButtonRef, Config, ConfigError, DeviceConfig, Mode, PageButton};
use crate::text;

verus! {

/// What can be wrong with one device.
#[derive(Debug, Clone, Copy, PartialEq, Eq, Structural)]
pub enum DeviceFault {
    ZeroPages,
    NoNavigation,
    SameCycleButtons,
    HoldWithoutPageButtons,
    TooManyPageButtons,
    DuplicatePageButton,
    PageButtonIsCycleButton,
    PageOutOfRange { page: u8 },
    PagePinnedTwice { page: u8 },
    DuplicateGlobal { button: ButtonRef },
    GlobalIsCycleButton { button: ButtonRef },
    GlobalIsPageButton { button: ButtonRef },
    MissingHostPorts,
    ZeroNoteOffset,
    GlobalOutOfRange { button: ButtonRef },
    RangeExceeded,
    UnusedHostPorts,
    PortNameTooLong,
}

/// What can be wrong with a configuration. Devices are told by their places.
#[derive(Debug, Clone, Copy, PartialEq, Eq, Structural)]
pub enum ConfigFault {
    NoDevices,
    Device { index: usize, fault: DeviceFault },
    DuplicateInput { first: usize, second: usize },
    DuplicateOutput { first: usize, second: usize },
}

// -- Faults of a device -----------------------------------------------------

/// Whether a button is the next-page or the previous-page button.
pub open spec fn is_cycle(d: DeviceConfig, button: ButtonRef) -> bool {
    d.next_page_button == Some(button) || d.previous_page_button == Some(button)
}

/// Whether an entry before `n` pins the page.
pub open spec fn pinned_before(entries: Seq<PageButton>, n: int, page: u8) -> bool {
    exists|k: int| 0 <= k < n && (#[trigger] entries[k]).page == Some(page)
}

/// Whether some entry is for the button.
pub open spec fn is_page_button(entries: Seq<PageButton>, button: ButtonRef) -> bool {
    exists|k: int| 0 <= k < entries.len() && (#[trigger] entries[k]).button == button
}

/// The first page button, from `i` on, that comes again later or is a cycle
/// button.
pub open spec fn page_button_fault(d: DeviceConfig, i: int) -> Option<DeviceFault>
    decreases d.page_buttons@.len() - i,
{
    let entries = d.page_buttons@;
    if i < 0 || i >= entries.len() {
        None
    } else if exists|j: int| i < j < entries.len() && (#[trigger] entries[j]).button
        == entries[i].button {
        Some(DeviceFault::DuplicatePageButton)
    } else if is_cycle(d, entries[i].button) {
        Some(DeviceFault::PageButtonIsCycleButton)
    } else {
        page_button_fault(d, i + 1)
    }
}

/// The first pinned page, from entry `i` on, that is not there or is pinned by
/// an earlier entry.
pub open spec fn pin_fault(d: DeviceConfig, i: int) -> Option<DeviceFault>
    decreases d.page_buttons@.len() - i,
{
    let entries = d.page_buttons@;
    if i < 0 || i >= entries.len() {
        None
    } else {
        match entries[i].page {
            Some(page) if page >= d.pages => Some(DeviceFault::PageOutOfRange { page }),
            Some(page) if pinned_before(entries, i, page) => Some(
                DeviceFault::PagePinnedTwice { page },
            ),
            _ => pin_fault(d, i + 1),
        }
    }
}

/// The first global button, from `i` on, that comes again later or navigates.
pub open spec fn global_fault(d: DeviceConfig, i: int) -> Option<DeviceFault>
    decreases d.global_buttons@.len() - i,
{
    let globals = d.global_buttons@;
    if i < 0 || i >= globals.len() {
        None
    } else {
        let button = globals[i];
        if exists|j: int| i < j < globals.len() && #[trigger] globals[j] == button {
            Some(DeviceFault::DuplicateGlobal { button })
        } else if is_cycle(d, button) {
            Some(DeviceFault::GlobalIsCycleButton { button })
        } else if is_page_button(d.page_buttons@, button) {
            Some(DeviceFault::GlobalIsPageButton { button })
        } else {
            global_fault(d, i + 1)
        }
    }
}

/// The first global button, from `i` on, that is not in the range of page zero.
pub open spec fn global_range_fault(d: DeviceConfig, i: int) -> Option<DeviceFault>
    decreases d.global_buttons@.len() - i,
{
    let globals = d.global_buttons@;
    if i < 0 || i >= globals.len() {
        None
    } else if globals[i].spec_number() >= super::note_offset_of(d.note_offset) {
        Some(DeviceFault::GlobalOutOfRange { button: globals[i] })
    } else {
        global_range_fault(d, i + 1)
    }
}

/// The name of the last page's port, the longest one.
pub open spec fn longest_port_name(d: DeviceConfig) -> Seq<char> {
    names::page_port_name(names::prefix_of(d), d.pages as nat)
}

/// What is wrong with the settings of the mode.
pub open spec fn mode_fault(d: DeviceConfig) -> Option<DeviceFault> {
    let offset = super::note_offset_of(d.note_offset);
    match d.mode {
        Mode::NoteOffset => {
            if d.host_port_in is None || d.host_port_out is None {
                Some(DeviceFault::MissingHostPorts)
            } else if offset == 0 {
                Some(DeviceFault::ZeroNoteOffset)
            } else if global_range_fault(d, 0) is Some {
                global_range_fault(d, 0)
            } else if d.pages * offset > 128 {
                Some(DeviceFault::RangeExceeded)
            } else {
                None
            }
        },
        Mode::PerPort => {
            if d.host_port_in is Some || d.host_port_out is Some {
                Some(DeviceFault::UnusedHostPorts)
            } else if names::byte_len(longest_port_name(d)) > 31 {
                Some(DeviceFault::PortNameTooLong)
            } else {
                None
            }
        },
    }
}

/// The first thing that is wrong with a device.
pub open spec fn device_fault(d: DeviceConfig) -> Option<DeviceFault> {
    if d.pages == 0 {
        Some(DeviceFault::ZeroPages)
    } else if d.pages > 1 && d.next_page_button is None && d.previous_page_button is None
        && d.page_buttons@.len() == 0 {
        Some(DeviceFault::NoNavigation)
    } else if d.next_page_button is Some && d.next_page_button == d.previous_page_button {
        Some(DeviceFault::SameCycleButtons)
    } else if d.page_buttons_hold_to_preview && d.page_buttons@.len() == 0 {
        Some(DeviceFault::HoldWithoutPageButtons)
    } else if d.page_buttons@.len() > d.pages {
        Some(DeviceFault::TooManyPageButtons)
    } else if page_button_fault(d, 0) is Some {
        page_button_fault(d, 0)
    } else if pin_fault(d, 0) is Some {
        pin_fault(d, 0)
    } else if global_fault(d, 0) is Some {
        global_fault(d, 0)
    } else {
        mode_fault(d)
    }
}

fn is_button(configured: Option<ButtonRef>, button: ButtonRef) -> (same: bool)
    ensures
        same == (configured == Some(button)),
{
    match configured {
        Some(other) => other == button,
        None => false,
    }
}

impl DeviceConfig {
    fn is_cycle_button(&self, button: ButtonRef) -> (yes: bool)
        ensures
            yes == is_cycle(*self, button),
    {
        is_button(self.next_page_button, button) || is_button(self.previous_page_button, button)
    }

    fn find_page_button_fault(&self) -> (fault: Option<DeviceFault>)
        ensures
            fault == page_button_fault(*self, 0),
    {
        let ghost entries = self.page_buttons@;
        let mut i: usize = 0;
        while i < self.page_buttons.len()
            invariant
                entries == self.page_buttons@,
                i <= entries.len(),
                page_button_fault(*self, i as int) == page_button_fault(*self, 0),
            decreases entries.len() - i,
        {
            let button = self.page_buttons[i].button;
            for j in i + 1..self.page_buttons.len()
                invariant
                    entries == self.page_buttons@,
                    i < entries.len(),
                    button == entries[i as int].button,
                    page_button_fault(*self, i as int) == page_button_fault(*self, 0),
                    forall|k: int| i < k < j ==> (#[trigger] entries[k]).button != button,
            {
                if self.page_buttons[j].button == button {
                    assert(entries[j as int].button == entries[i as int].button);
                    return Some(DeviceFault::DuplicatePageButton);
                }
            }
            if self.is_cycle_button(button) {
                return Some(DeviceFault::PageButtonIsCycleButton);
            }
            i = i + 1;
        }
        None
    }

    fn find_pin_fault(&self) -> (fault: Option<DeviceFault>)
        ensures
            fault == pin_fault(*self, 0),
    {
        broadcast use vstd::std_specs::hash::group_hash_axioms;

        let ghost entries = self.page_buttons@;
        let mut pinned: HashSet<u8> = HashSet::new();
        let mut i: usize = 0;
        while i < self.page_buttons.len()
            invariant
                entries == self.page_buttons@,
                i <= entries.len(),
                pin_fault(*self, i as int) == pin_fault(*self, 0),
                forall|page: u8|
                    #![trigger pinned@.contains(page)]
                    #![trigger pinned_before(entries, i as int, page)]
                    pinned@.contains(page) == pinned_before(entries, i as int, page),
            decreases entries.len() - i,
        {
            broadcast use vstd::std_specs::hash::group_hash_axioms;

            let ghost before = pinned@;
            let ghost entry = entries[i as int];
            match self.page_buttons[i].page {
                Some(page) => {
                    assert(entry.page == Some(page));
                    if page >= self.pages {
                        return Some(DeviceFault::PageOutOfRange { page });
                    }
                    if !pinned.insert(page) {
                        assert(before.contains(page));
                        return Some(DeviceFault::PagePinnedTwice { page });
                    }
                    assert(!before.contains(page));
                },
                None => {},
            }
            proof {
                assert forall|page: u8| pinned@.contains(page) == pinned_before(
                    entries,
                    i + 1,
                    page,
                ) by {
                    if pinned_before(entries, i as int, page) {
                        let k = choose|k: int|
                            0 <= k < i && (#[trigger] entries[k]).page == Some(page);
                        assert(entries[k].page == Some(page));
                    }
                    if pinned_before(entries, i + 1, page) && entry.page != Some(page) {
                        let k = choose|k: int|
                            0 <= k < i + 1 && (#[trigger] entries[k]).page == Some(page);
                        assert(k < i);
                        assert(pinned_before(entries, i as int, page));
                    }
                    assert(before.contains(page) == pinned_before(entries, i as int, page));
                }
            }
            i = i + 1;
        }
        None
    }

    fn find_global_fault(&self) -> (fault: Option<DeviceFault>)
        ensures
            fault == global_fault(*self, 0),
    {
        let ghost globals = self.global_buttons@;
        let mut i: usize = 0;
        while i < self.global_buttons.len()
            invariant
                globals == self.global_buttons@,
                i <= globals.len(),
                global_fault(*self, i as int) == global_fault(*self, 0),
            decreases globals.len() - i,
        {
            let button = self.global_buttons[i];
            for j in i + 1..self.global_buttons.len()
                invariant
                    globals == self.global_buttons@,
                    i < globals.len(),
                    button == globals[i as int],
                    global_fault(*self, i as int) == global_fault(*self, 0),
                    forall|k: int| i < k < j ==> #[trigger] globals[k] != button,
            {
                if self.global_buttons[j] == button {
                    assert(globals[j as int] == globals[i as int]);
                    return Some(DeviceFault::DuplicateGlobal { button });
                }
            }
            if self.is_cycle_button(button) {
                return Some(DeviceFault::GlobalIsCycleButton { button });
            }
            if self.has_page_button(button) {
                return Some(DeviceFault::GlobalIsPageButton { button });
            }
            i = i + 1;
        }
        None
    }

    fn has_page_button(&self, button: ButtonRef) -> (yes: bool)
        ensures
            yes == is_page_button(self.page_buttons@, button),
    {
        let ghost entries = self.page_buttons@;
        for k in 0..self.page_buttons.len()
            invariant
                entries == self.page_buttons@,
                forall|j: int| 0 <= j < k ==> (#[trigger] entries[j]).button != button,
        {
            if self.page_buttons[k].button == button {
                assert(entries[k as int].button == button);
                return true;
            }
        }
        false
    }

    fn find_global_range_fault(&self) -> (fault: Option<DeviceFault>)
        ensures
            fault == global_range_fault(*self, 0),
    {
        let ghost globals = self.global_buttons@;
        let offset = self.note_offset_value();
        let mut i: usize = 0;
        while i < self.global_buttons.len()
            invariant
                globals == self.global_buttons@,
                offset == super::note_offset_of(self.note_offset),
                i <= globals.len(),
                global_range_fault(*self, i as int) == global_range_fault(*self, 0),
            decreases globals.len() - i,
        {
            let button = self.global_buttons[i];
            if button.number() >= offset {
                return Some(DeviceFault::GlobalOutOfRange { button });
            }
            i = i + 1;
        }
        None
    }

    fn find_mode_fault(&self) -> (fault: Option<DeviceFault>)
        ensures
            fault == mode_fault(*self),
    {
        match self.mode {
            Mode::NoteOffset => {
                if self.host_port_in.is_none() || self.host_port_out.is_none() {
                    return Some(DeviceFault::MissingHostPorts);
                }
                let offset = self.note_offset_value();
                if offset == 0 {
                    return Some(DeviceFault::ZeroNoteOffset);
                }
                let range_fault = self.find_global_range_fault();
                if range_fault.is_some() {
                    return range_fault;
                }
                if self.range_span() > 128 {
                    return Some(DeviceFault::RangeExceeded);
                }
                None
            },
            Mode::PerPort => {
                if self.host_port_in.is_some() || self.host_port_out.is_some() {
                    return Some(DeviceFault::UnusedHostPorts);
                }
                // WinMM caps MIDI device names at 31 chars (MIDIINCAPSW.szPname[32]).
                // Anything longer gets truncated and becomes unfindable on Windows.
                if names::byte_count(self.longest_name().as_str()) > 31 {
                    return Some(DeviceFault::PortNameTooLong);
                }
                None
            },
        }
    }

    /// How many note numbers the pages take up in note-offset mode.
    fn range_span(&self) -> (span: u16)
        ensures
            span == self.pages * super::note_offset_of(self.note_offset),
    {
        let offset = self.note_offset_value();
        assert(0 <= self.pages * offset <= 255 * 255) by (nonlinear_arith)
            requires
                0 <= self.pages <= 255,
                0 <= offset <= 255,
        ;
        self.pages as u16 * offset as u16
    }

    /// The longest name of a page port: that of the last page.
    fn longest_name(&self) -> (name: String)
        ensures
            name@ == longest_port_name(*self),
    {
        names::port_name_of_page(self.effective_prefix().as_str(), self.pages)
    }

    /// The first thing that is wrong with the device.
    pub fn find_fault(&self) -> (fault: Option<DeviceFault>)
        ensures
            fault == device_fault(*self),
    {
        if self.pages == 0 {
            return Some(DeviceFault::ZeroPages);
        }
        // More than one page needs *some* navigation method.
        if self.pages > 1 && self.next_page_button.is_none() && self.previous_page_button.is_none()
            && self.page_buttons.is_empty() {
            return Some(DeviceFault::NoNavigation);
        }
        if let Some(next) = self.next_page_button {
            if is_button(self.previous_page_button, next) {
                return Some(DeviceFault::SameCycleButtons);
            }
        }
        if self.page_buttons_hold_to_preview && self.page_buttons.is_empty() {
            return Some(DeviceFault::HoldWithoutPageButtons);
        }
        if self.page_buttons.len() > self.pages as usize {
            return Some(DeviceFault::TooManyPageButtons);
        }
        let fault = self.find_page_button_fault();
        if fault.is_some() {
            return fault;
        }
        let fault = self.find_pin_fault();
        if fault.is_some() {
            return fault;
        }
        let fault = self.find_global_fault();
        if fault.is_some() {
            return fault;
        }
        self.find_mode_fault()
    }
}

// -- Faults of a configuration ----------------------------------------------

/// The first device, from `i` on, that has a fault.
pub open spec fn first_device_fault(devices: Seq<DeviceConfig>, i: int) -> Option<ConfigFault>
    decreases devices.len() - i,
{
    if i < 0 || i >= devices.len() {
        None
    } else {
        match device_fault(devices[i]) {
            Some(fault) => Some(ConfigFault::Device { index: i as usize, fault }),
            None => first_device_fault(devices, i + 1),
        }
    }
}

/// Whether two devices are told from each other by their ports.
pub open spec fn pair_fault(devices: Seq<DeviceConfig>, i: int, j: int) -> Option<ConfigFault> {
    let a = devices[i].port_match;
    let b = devices[j].port_match;
    if a.input_text() == b.input_text() {
        Some(ConfigFault::DuplicateInput { first: i as usize, second: j as usize })
    } else if a.output_text() == b.output_text() {
        Some(ConfigFault::DuplicateOutput { first: i as usize, second: j as usize })
    } else {
        None
    }
}

/// The first device, from `j` on, that shares a port with device `i`.
pub open spec fn row_fault(devices: Seq<DeviceConfig>, i: int, j: int) -> Option<ConfigFault>
    decreases devices.len() - j,
{
    if j < 0 || j >= devices.len() {
        None
    } else if pair_fault(devices, i, j) is Some {
        pair_fault(devices, i, j)
    } else {
        row_fault(devices, i, j + 1)
    }
}

/// The first two devices, from device `i` on, that share a port.
pub open spec fn first_pair_fault(devices: Seq<DeviceConfig>, i: int) -> Option<ConfigFault>
    decreases devices.len() - i,
{
    if i < 0 || i >= devices.len() {
        None
    } else if row_fault(devices, i, i + 1) is Some {
        row_fault(devices, i, i + 1)
    } else {
        first_pair_fault(devices, i + 1)
    }
}

/// The first thing that is wrong with a configuration.
pub open spec fn config_fault(devices: Seq<DeviceConfig>) -> Option<ConfigFault> {
    if devices.len() == 0 {
        Some(ConfigFault::NoDevices)
    } else if first_device_fault(devices, 0) is Some {
        first_device_fault(devices, 0)
    } else {
        first_pair_fault(devices, 0)
    }
}

// -- What is said of them ---------------------------------------------------

/// A button as messages have it.
pub open spec fn button_text(button: ButtonRef) -> Seq<char> {
    match button {
        ButtonRef::Note { number } => "Note { number: "@ + text::decimal(number as nat) + " }"@,
        ButtonRef::Cc { number } => "Cc { number: "@ + text::decimal(number as nat) + " }"@,
    }
}

/// What is said of a device's fault, after the device's name.
pub open spec fn device_fault_text(d: DeviceConfig, fault: DeviceFault) -> Seq<char> {
    let offset = super::note_offset_of(d.note_offset);
    match fault {
        DeviceFault::ZeroPages => ": pages must be >= 1"@,
        DeviceFault::NoNavigation =>
            ": pages > 1 requires at least one of next_page_button, previous_page_button, or page_buttons"@,
        DeviceFault::SameCycleButtons =>
            ": next_page_button and previous_page_button must differ"@,
        DeviceFault::HoldWithoutPageButtons =>
            ": page_buttons_hold_to_preview requires page_buttons to be non-empty"@,
        DeviceFault::TooManyPageButtons => ": page_buttons has "@ + text::decimal(
            d.page_buttons@.len(),
        ) + " entries but pages = "@ + text::decimal(d.pages as nat)
            + ". Extras would be unreachable."@,
        DeviceFault::DuplicatePageButton => ": page_buttons contains duplicate button entry"@,
        DeviceFault::PageButtonIsCycleButton =>
            ": page_buttons collides with next/previous_page_button"@,
        DeviceFault::PageOutOfRange { page } => ": page_buttons entry has page = "@ + text::decimal(
            page as nat,
        ) + " but pages = "@ + text::decimal(d.pages as nat) + "."@,
        DeviceFault::PagePinnedTwice { page } => ": two page_buttons entries pin to page = "@
            + text::decimal(page as nat) + "."@,
        DeviceFault::DuplicateGlobal { button } => ": duplicate global_buttons entry "@
            + button_text(button),
        DeviceFault::GlobalIsCycleButton { button } => ": global_buttons entry "@ + button_text(
            button,
        ) + " collides with next/previous_page_button"@,
        DeviceFault::GlobalIsPageButton { button } => ": global_buttons entry "@ + button_text(
            button,
        ) + " collides with a page_buttons entry"@,
        DeviceFault::MissingHostPorts =>
            ": mode=note_offset requires host_port_in and host_port_out"@,
        DeviceFault::ZeroNoteOffset => ": note_offset must be >= 1"@,
        DeviceFault::GlobalOutOfRange { button } =>
            ": in mode=note_offset, global_buttons entry "@ + button_text(button) + " has number "@
            + text::decimal(button.spec_number() as nat) + " >= note_offset "@ + text::decimal(
            offset as nat,
        ) + "; globals must live in page 0's range."@,
        DeviceFault::RangeExceeded => ": pages*note_offset = "@ + text::decimal(
            (d.pages * offset) as nat,
        )
            + " exceeds the 128-value MIDI range. Reduce pages or note_offset, or switch to mode=per_port. See docs/adr/0003-note-offset-paging.md."@,
        DeviceFault::UnusedHostPorts =>
            ": mode=per_port does not use host_port_in / host_port_out. Remove them or set mode=note_offset."@,
        DeviceFault::PortNameTooLong => ": generated port name `"@ + longest_port_name(d) + "` is "@
            + text::decimal(names::byte_len(longest_port_name(d)))
            + " chars; Windows truncates MIDI device names at 31 chars. Set a shorter `page_port_prefix` in this device section."@,
    }
}

/// What is said of a port that two devices share.
pub open spec fn shared_port_text(
    start: Seq<char>,
    port: Seq<char>,
    first: Seq<char>,
    second: Seq<char>,
) -> Seq<char> {
    start + port + "` between `"@ + first + "` and `"@ + second + "`"@
}

/// What is said of a configuration's fault.
pub open spec fn config_fault_text(devices: Seq<DeviceConfig>, fault: ConfigFault) -> Seq<char> {
    match fault {
        ConfigFault::NoDevices => "no [[device]] sections defined"@,
        ConfigFault::Device { index, fault } => {
            let d = devices[index as int];
            d.name@ + device_fault_text(d, fault)
        },
        ConfigFault::DuplicateInput { first, second } => shared_port_text(
            "duplicate input port_match `"@,
            devices[first as int].port_match.input_text(),
            devices[first as int].name@,
            devices[second as int].name@,
        ),
        ConfigFault::DuplicateOutput { first, second } => shared_port_text(
            "duplicate output port_match `"@,
            devices[first as int].port_match.output_text(),
            devices[first as int].name@,
            devices[second as int].name@,
        ),
    }
}

/// Writes a button as messages have it.
fn push_button(out: &mut String, button: ButtonRef)
    ensures
        final(out)@ == old(out)@ + button_text(button),
{
    match button {
        ButtonRef::Note { number } => {
            out.append("Note { number: ");
            text::push_decimal(out, number as u64);
        },
        ButtonRef::Cc { number } => {
            out.append("Cc { number: ");
            text::push_decimal(out, number as u64);
        },
    }
    out.append(" }");
    assert(out@ =~= old(out)@ + button_text(button));
}

/// Writes a sentence around a button.
fn push_about_button(out: &mut String, start: &str, button: ButtonRef, end: &str)
    ensures
        final(out)@ == old(out)@ + (start@ + button_text(button) + end@),
{
    out.append(start);
    push_button(out, button);
    out.append(end);
    assert(out@ =~= old(out)@ + (start@ + button_text(button) + end@));
}

/// Writes a sentence around a number.
fn push_about_number(out: &mut String, start: &str, number: u64, end: &str)
    ensures
        final(out)@ == old(out)@ + (start@ + text::decimal(number as nat) + end@),
{
    out.append(start);
    text::push_decimal(out, number);
    out.append(end);
    assert(out@ =~= old(out)@ + (start@ + text::decimal(number as nat) + end@));
}

/// Writes a sentence around two numbers.
fn push_about_numbers(
    out: &mut String,
    start: &str,
    first: u64,
    middle: &str,
    second: u64,
    end: &str,
)
    ensures
        final(out)@ == old(out)@ + (start@ + text::decimal(first as nat) + middle@ + text::decimal(
            second as nat,
        ) + end@),
{
    out.append(start);
    text::push_decimal(out, first);
    out.append(middle);
    text::push_decimal(out, second);
    out.append(end);
    assert(out@ =~= old(out)@ + (start@ + text::decimal(first as nat) + middle@ + text::decimal(
        second as nat,
    ) + end@));
}

impl DeviceConfig {
    /// Writes what is said of a fault of the device.
    fn push_fault(&self, out: &mut String, fault: DeviceFault)
        ensures
            final(out)@ == old(out)@ + device_fault_text(*self, fault),
    {
        match fault {
            DeviceFault::ZeroPages => out.append(": pages must be >= 1"),
            DeviceFault::NoNavigation => out.append(
                ": pages > 1 requires at least one of next_page_button, previous_page_button, or page_buttons",
            ),
            DeviceFault::SameCycleButtons => out.append(
                ": next_page_button and previous_page_button must differ",
            ),
            DeviceFault::HoldWithoutPageButtons => out.append(
                ": page_buttons_hold_to_preview requires page_buttons to be non-empty",
            ),
            DeviceFault::TooManyPageButtons => push_about_numbers(
                out,
                ": page_buttons has ",
                self.page_buttons.len() as u64,
                " entries but pages = ",
                self.pages as u64,
                ". Extras would be unreachable.",
            ),
            DeviceFault::DuplicatePageButton => out.append(
                ": page_buttons contains duplicate button entry",
            ),
            DeviceFault::PageButtonIsCycleButton => out.append(
                ": page_buttons collides with next/previous_page_button",
            ),
            DeviceFault::PageOutOfRange { page } => push_about_numbers(
                out,
                ": page_buttons entry has page = ",
                page as u64,
                " but pages = ",
                self.pages as u64,
                ".",
            ),
            DeviceFault::PagePinnedTwice { page } => push_about_number(
                out,
                ": two page_buttons entries pin to page = ",
                page as u64,
                ".",
            ),
            DeviceFault::DuplicateGlobal { button } => {
                out.append(": duplicate global_buttons entry ");
                push_button(out, button);
                assert(out@ =~= old(out)@ + device_fault_text(*self, fault));
            },
            DeviceFault::GlobalIsCycleButton { button } => push_about_button(
                out,
                ": global_buttons entry ",
                button,
                " collides with next/previous_page_button",
            ),
            DeviceFault::GlobalIsPageButton { button } => push_about_button(
                out,
                ": global_buttons entry ",
                button,
                " collides with a page_buttons entry",
            ),
            DeviceFault::MissingHostPorts => out.append(
                ": mode=note_offset requires host_port_in and host_port_out",
            ),
            DeviceFault::ZeroNoteOffset => out.append(": note_offset must be >= 1"),
            DeviceFault::GlobalOutOfRange { button } => {
                push_about_button(
                    out,
                    ": in mode=note_offset, global_buttons entry ",
                    button,
                    " has number ",
                );
                text::push_decimal(out, button.number() as u64);
                out.append(" >= note_offset ");
                text::push_decimal(out, self.note_offset_value() as u64);
                out.append("; globals must live in page 0's range.");
                assert(out@ =~= old(out)@ + device_fault_text(*self, fault));
            },
            DeviceFault::RangeExceeded => push_about_number(
                out,
                ": pages*note_offset = ",
                self.range_span() as u64,
                " exceeds the 128-value MIDI range. Reduce pages or note_offset, or switch to mode=per_port. See docs/adr/0003-note-offset-paging.md.",
            ),
            DeviceFault::UnusedHostPorts => out.append(
                ": mode=per_port does not use host_port_in / host_port_out. Remove them or set mode=note_offset.",
            ),
            DeviceFault::PortNameTooLong => {
                let name = self.longest_name();
                out.append(": generated port name `");
                out.append(name.as_str());
                push_about_number(
                    out,
                    "` is ",
                    names::byte_count(name.as_str()) as u64,
                    " chars; Windows truncates MIDI device names at 31 chars. Set a shorter `page_port_prefix` in this device section.",
                );
                assert(out@ =~= old(out)@ + device_fault_text(*self, fault));
            },
        }
    }
}

/// Writes what is said of a port that two devices share.
fn shared_port_message(start: &str, port: &str, first: &str, second: &str) -> (message: String)
    ensures
        message@ == shared_port_text(start@, port@, first@, second@),
{
    let mut message = start.to_owned();
    message.append(port);
    message.append("` between `");
    message.append(first);
    message.append("` and `");
    message.append(second);
    message.append("`");
    message
}

impl Config {
    /// The first device that has a fault.
    fn find_device_fault(&self) -> (fault: Option<ConfigFault>)
        ensures
            fault == first_device_fault(self.devices@, 0),
    {
        let mut i: usize = 0;
        while i < self.devices.len()
            invariant
                i <= self.devices@.len(),
                first_device_fault(self.devices@, i as int) == first_device_fault(
                    self.devices@,
                    0,
                ),
            decreases self.devices@.len() - i,
        {
            if let Some(fault) = self.devices[i].find_fault() {
                return Some(ConfigFault::Device { index: i, fault });
            }
            i = i + 1;
        }
        None
    }

    /// The first two devices that share a port.
    fn find_pair_fault(&self) -> (fault: Option<ConfigFault>)
        ensures
            fault == first_pair_fault(self.devices@, 0),
    {
        let mut i: usize = 0;
        while i < self.devices.len()
            invariant
                i <= self.devices@.len(),
                first_pair_fault(self.devices@, i as int) == first_pair_fault(self.devices@, 0),
            decreases self.devices@.len() - i,
        {
            let fault = self.find_row_fault(i);
            if fault.is_some() {
                return fault;
            }
            i = i + 1;
        }
        None
    }

    /// The first device after the given one that shares a port with it.
    fn find_row_fault(&self, i: usize) -> (fault: Option<ConfigFault>)
        requires
            i < self.devices@.len(),
        ensures
            fault == row_fault(self.devices@, i as int, i + 1),
    {
        let a = &self.devices[i].port_match;
        assert(self.devices@.len() == self.devices.len());
        let mut j: usize = i + 1;
        while j < self.devices.len()
            invariant
                i < j <= self.devices@.len(),
                *a == self.devices@[i as int].port_match,
                row_fault(self.devices@, i as int, j as int) == row_fault(
                    self.devices@,
                    i as int,
                    i + 1,
                ),
            decreases self.devices@.len() - j,
        {
            let b = &self.devices[j].port_match;
            if text::same_text(a.input(), b.input()) {
                return Some(ConfigFault::DuplicateInput { first: i, second: j });
            }
            if text::same_text(a.output(), b.output()) {
                return Some(ConfigFault::DuplicateOutput { first: i, second: j });
            }
            j = j + 1;
        }
        None
    }

    /// The first thing that is wrong with the configuration.
    pub fn find_fault(&self) -> (fault: Option<ConfigFault>)
        ensures
            fault == config_fault(self.devices@),
    {
        if self.devices.is_empty() {
            return Some(ConfigFault::NoDevices);
        }
        let fault = self.find_device_fault();
        if fault.is_some() {
            return fault;
        }
        self.find_pair_fault()
    }

    /// What is said of a fault of this configuration.
    fn fault_message(&self, fault: ConfigFault) -> (message: String)
        requires
            match fault {
                ConfigFault::NoDevices => true,
                ConfigFault::Device { index, .. } => index < self.devices@.len(),
                ConfigFault::DuplicateInput { first, second } => first < self.devices@.len()
                    && second < self.devices@.len(),
                ConfigFault::DuplicateOutput { first, second } => first < self.devices@.len()
                    && second < self.devices@.len(),
            },
        ensures
            message@ == config_fault_text(self.devices@, fault),
    {
        match fault {
            ConfigFault::NoDevices => "no [[device]] sections defined".to_owned(),
            ConfigFault::Device { index, fault } => {
                let device = &self.devices[index];
                let mut message = device.name.clone();
                device.push_fault(&mut message, fault);
                message
            },
            ConfigFault::DuplicateInput { first, second } => shared_port_message(
                "duplicate input port_match `",
                self.devices[first].port_match.input(),
                self.devices[first].name.as_str(),
                self.devices[second].name.as_str(),
            ),
            ConfigFault::DuplicateOutput { first, second } => shared_port_message(
                "duplicate output port_match `",
                self.devices[first].port_match.output(),
                self.devices[first].name.as_str(),
                self.devices[second].name.as_str(),
            ),
        }
    }

    /// Rejects a configuration that the proxy cannot work with, and says what is
    /// wrong with it first.
    pub fn validate(&self) -> (result: Result<(), ConfigError>)
        ensures
            match config_fault(self.devices@) {
                None => result is Ok,
                Some(fault) => result matches Err(ConfigError::Invalid(message)) && message@
                    == config_fault_text(self.devices@, fault),
            },
    {
        match self.find_fault() {
            None => Ok(()),
            Some(fault) => {
                proof {
                    assert(self.devices@.len() == self.devices.len());
                    lemma_faults_name_devices(self.devices@);
                }
                Err(ConfigError::Invalid(self.fault_message(fault)))
            },
        }
    }
}

/// The places that a fault names are there.
proof fn lemma_faults_name_devices(devices: Seq<DeviceConfig>)
    requires
        devices.len() <= usize::MAX,
    ensures
        match config_fault(devices) {
            Some(ConfigFault::Device { index, .. }) => index < devices.len(),
            Some(ConfigFault::DuplicateInput { first, second }) => first < devices.len() && second
                < devices.len(),
            Some(ConfigFault::DuplicateOutput { first, second }) => first < devices.len() && second
                < devices.len(),
            _ => true,
        },
{
    lemma_device_fault_place(devices, 0);
    lemma_pair_fault_place(devices, 0);
}

proof fn lemma_device_fault_place(devices: Seq<DeviceConfig>, i: int)
    requires
        devices.len() <= usize::MAX,
    ensures
        match first_device_fault(devices, i) {
            Some(ConfigFault::Device { index, .. }) => index < devices.len(),
            None => true,
            _ => false,
        },
    decreases devices.len() - i,
{
    if 0 <= i < devices.len() {
        lemma_device_fault_place(devices, i + 1);
    }
}

proof fn lemma_row_fault_place(devices: Seq<DeviceConfig>, i: int, j: int)
    requires
        devices.len() <= usize::MAX,
        0 <= i < devices.len(),
    ensures
        match row_fault(devices, i, j) {
            Some(ConfigFault::DuplicateInput { first, second }) => first < devices.len() && second
                < devices.len(),
            Some(ConfigFault::DuplicateOutput { first, second }) => first < devices.len() && second
                < devices.len(),
            None => true,
            _ => false,
        },
    decreases devices.len() - j,
{
    if 0 <= j < devices.len() {
        lemma_row_fault_place(devices, i, j + 1);
    }
}

proof fn lemma_pair_fault_place(devices: Seq<DeviceConfig>, i: int)
    requires
        devices.len() <= usize::MAX,
    ensures
        match first_pair_fault(devices, i) {
            Some(ConfigFault::DuplicateInput { first, second }) => first < devices.len() && second
                < devices.len(),
            Some(ConfigFault::DuplicateOutput { first, second }) => first < devices.len() && second
                < devices.len(),
            None => true,
            _ => false,
        },
    decreases devices.len() - i,
{
    if 0 <= i < devices.len() {
        lemma_row_fault_place(devices, i, i + 1);
        lemma_pair_fault_place(devices, i + 1);
    }
}

} // verus!
