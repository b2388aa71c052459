//! Which fault of a configuration is reported.

use vstd::prelude::*;
use vstd::utf8;

use crate::config::validate::{self, ConfigFault, DeviceFault};
use crate::config::{laws, names, ButtonRef, Config, ConfigError, DeviceConfig, Mode};
use crate::text;

verus! {

// -- One device -------------------------------------------------------------

/// The next-page or the previous-page button.
pub open spec fn cycles(d: DeviceConfig, button: ButtonRef) -> bool {
    d.next_page_button == Some(button) || d.previous_page_button == Some(button)
}

/// The offset between two pages: 64, unless it is set.
pub open spec fn offset(d: DeviceConfig) -> int {
    match d.note_offset {
        Some(offset) => offset as int,
        None => 64,
    }
}

/// What is wrong with one of the page buttons, as a button.
pub open spec fn page_button_is(d: DeviceConfig, i: int, fault: DeviceFault) -> bool {
    let entries = d.page_buttons@;
    &&& 0 <= i < entries.len()
    &&& match fault {
        DeviceFault::DuplicatePageButton => exists|j: int|
            i < j < entries.len() && (#[trigger] entries[j]).button == entries[i].button,
        DeviceFault::PageButtonIsCycleButton => cycles(d, entries[i].button),
        _ => false,
    }
}

/// What is wrong with the page that one of the page buttons is pinned to.
pub open spec fn pin_is(d: DeviceConfig, i: int, fault: DeviceFault) -> bool {
    let entries = d.page_buttons@;
    &&& 0 <= i < entries.len()
    &&& match fault {
        DeviceFault::PageOutOfRange { page } => entries[i].page == Some(page) && page >= d.pages,
        DeviceFault::PagePinnedTwice { page } => entries[i].page == Some(page) && exists|j: int|
            0 <= j < i && (#[trigger] entries[j]).page == Some(page),
        _ => false,
    }
}

/// What is wrong with one of the global buttons, in any mode.
pub open spec fn global_is(d: DeviceConfig, i: int, fault: DeviceFault) -> bool {
    let globals = d.global_buttons@;
    let entries = d.page_buttons@;
    &&& 0 <= i < globals.len()
    &&& match fault {
        DeviceFault::DuplicateGlobal { button } => button == globals[i] && exists|j: int|
            i < j < globals.len() && #[trigger] globals[j] == button,
        DeviceFault::GlobalIsCycleButton { button } => button == globals[i] && cycles(d, button),
        DeviceFault::GlobalIsPageButton { button } => button == globals[i] && exists|j: int|
            0 <= j < entries.len() && (#[trigger] entries[j]).button == button,
        _ => false,
    }
}

/// What is wrong with one of the global buttons, in note-offset mode.
pub open spec fn global_range_is(d: DeviceConfig, i: int, fault: DeviceFault) -> bool {
    let globals = d.global_buttons@;
    &&& 0 <= i < globals.len()
    &&& d.mode == Mode::NoteOffset
    &&& fault == (DeviceFault::GlobalOutOfRange { button: globals[i] })
    &&& match globals[i] {
        ButtonRef::Note { number } => number >= offset(d),
        ButtonRef::Cc { number } => number >= offset(d),
    }
}

/// How long the name of a page's port is, in bytes.
pub open spec fn port_name_len(d: DeviceConfig, page: nat) -> nat {
    let prefix = match d.page_port_prefix {
        Some(prefix) => prefix@,
        None => names::slug(d.name@),
    };
    utf8::encode_utf8(prefix + seq!['-', 'p', 'a', 'g', 'e'] + text::decimal(page)).len()
}

/// Whether a device has a fault.
pub open spec fn has(d: DeviceConfig, fault: DeviceFault) -> bool {
    match fault {
        DeviceFault::ZeroPages => d.pages == 0,
        DeviceFault::NoNavigation => d.pages > 1 && d.next_page_button is None
            && d.previous_page_button is None && d.page_buttons@.len() == 0,
        DeviceFault::SameCycleButtons => exists|button: ButtonRef|
            d.next_page_button == Some(button) && #[trigger] cycles(d, button)
                && d.previous_page_button == Some(button),
        DeviceFault::HoldWithoutPageButtons => d.page_buttons_hold_to_preview
            && d.page_buttons@.len() == 0,
        DeviceFault::TooManyPageButtons => d.page_buttons@.len() > d.pages,
        DeviceFault::DuplicatePageButton => exists|i: int| page_button_is(d, i, fault),
        DeviceFault::PageButtonIsCycleButton => exists|i: int| page_button_is(d, i, fault),
        DeviceFault::PageOutOfRange { .. } => exists|i: int| pin_is(d, i, fault),
        DeviceFault::PagePinnedTwice { .. } => exists|i: int| pin_is(d, i, fault),
        DeviceFault::DuplicateGlobal { .. } => exists|i: int| global_is(d, i, fault),
        DeviceFault::GlobalIsCycleButton { .. } => exists|i: int| global_is(d, i, fault),
        DeviceFault::GlobalIsPageButton { .. } => exists|i: int| global_is(d, i, fault),
        DeviceFault::MissingHostPorts => d.mode == Mode::NoteOffset && (d.host_port_in is None
            || d.host_port_out is None),
        DeviceFault::ZeroNoteOffset => d.mode == Mode::NoteOffset && offset(d) == 0,
        DeviceFault::GlobalOutOfRange { .. } => exists|i: int| global_range_is(d, i, fault),
        DeviceFault::RangeExceeded => d.mode == Mode::NoteOffset && d.pages * offset(d) > 128,
        DeviceFault::UnusedHostPorts => d.mode == Mode::PerPort && (d.host_port_in is Some
            || d.host_port_out is Some),
        DeviceFault::PortNameTooLong => d.mode == Mode::PerPort && port_name_len(
            d,
            d.pages as nat,
        ) > 31,
    }
}

/// The order in which faults are looked for.
pub open spec fn stage(fault: DeviceFault) -> int {
    match fault {
        DeviceFault::ZeroPages => 0,
        DeviceFault::NoNavigation => 1,
        DeviceFault::SameCycleButtons => 2,
        DeviceFault::HoldWithoutPageButtons => 3,
        DeviceFault::TooManyPageButtons => 4,
        DeviceFault::DuplicatePageButton => 5,
        DeviceFault::PageButtonIsCycleButton => 5,
        DeviceFault::PageOutOfRange { .. } => 6,
        DeviceFault::PagePinnedTwice { .. } => 6,
        DeviceFault::DuplicateGlobal { .. } => 7,
        DeviceFault::GlobalIsCycleButton { .. } => 7,
        DeviceFault::GlobalIsPageButton { .. } => 7,
        DeviceFault::MissingHostPorts => 8,
        DeviceFault::UnusedHostPorts => 8,
        DeviceFault::ZeroNoteOffset => 9,
        DeviceFault::GlobalOutOfRange { .. } => 10,
        DeviceFault::RangeExceeded => 11,
        DeviceFault::PortNameTooLong => 11,
    }
}

proof fn lemma_page_button_fault(d: DeviceConfig, from: int) -> (at: int)
    requires
        0 <= from,
    ensures
        validate::page_button_fault(d, from) is None ==> forall|i: int, f: DeviceFault|
            from <= i ==> !page_button_is(d, i, f),
        validate::page_button_fault(d, from) matches Some(fault) ==> {
            &&& from <= at
            &&& page_button_is(d, at, fault)
            &&& forall|i: int, f: DeviceFault| from <= i < at ==> !page_button_is(d, i, f)
            &&& page_button_is(d, at, DeviceFault::DuplicatePageButton) ==> fault
                == DeviceFault::DuplicatePageButton
        },
    decreases d.page_buttons@.len() - from,
{
    let entries = d.page_buttons@;
    if from >= entries.len() {
        from
    } else if page_button_is(d, from, DeviceFault::DuplicatePageButton) {
        from
    } else if cycles(d, entries[from].button) {
        from
    } else {
        lemma_page_button_fault(d, from + 1)
    }
}

proof fn lemma_pin_fault(d: DeviceConfig, from: int) -> (at: int)
    requires
        0 <= from,
    ensures
        validate::pin_fault(d, from) is None ==> forall|i: int, f: DeviceFault|
            from <= i ==> !pin_is(d, i, f),
        validate::pin_fault(d, from) matches Some(fault) ==> {
            &&& from <= at
            &&& pin_is(d, at, fault)
            &&& forall|i: int, f: DeviceFault| from <= i < at ==> !pin_is(d, i, f)
            &&& fault is PagePinnedTwice ==> d.page_buttons@[at].page.unwrap() < d.pages
        },
    decreases d.page_buttons@.len() - from,
{
    let entries = d.page_buttons@;
    if from >= entries.len() {
        from
    } else {
        let rest = lemma_pin_fault(d, from + 1);
        match entries[from].page {
            Some(page) => {
                if page >= d.pages || validate::pinned_before(entries, from, page) {
                    from
                } else {
                    assert(forall|f: DeviceFault| !pin_is(d, from, f));
                    rest
                }
            },
            None => rest,
        }
    }
}

proof fn lemma_global_fault(d: DeviceConfig, from: int) -> (at: int)
    requires
        0 <= from,
    ensures
        validate::global_fault(d, from) is None ==> forall|i: int, f: DeviceFault|
            from <= i ==> !global_is(d, i, f),
        validate::global_fault(d, from) matches Some(fault) ==> {
            &&& from <= at
            &&& global_is(d, at, fault)
            &&& forall|i: int, f: DeviceFault| from <= i < at ==> !global_is(d, i, f)
            &&& global_is(d, at, DeviceFault::DuplicateGlobal { button: d.global_buttons@[at] })
                ==> fault is DuplicateGlobal
            &&& fault is GlobalIsPageButton ==> !cycles(d, d.global_buttons@[at])
        },
    decreases d.global_buttons@.len() - from,
{
    let globals = d.global_buttons@;
    if from >= globals.len() {
        from
    } else {
        let rest = lemma_global_fault(d, from + 1);
        let button = globals[from];
        if global_is(d, from, DeviceFault::DuplicateGlobal { button }) {
            from
        } else if cycles(d, button) {
            from
        } else if validate::is_page_button(d.page_buttons@, button) {
            from
        } else {
            assert(forall|f: DeviceFault| !global_is(d, from, f));
            rest
        }
    }
}

proof fn lemma_global_range_fault(d: DeviceConfig, from: int) -> (at: int)
    requires
        0 <= from,
        d.mode == Mode::NoteOffset,
    ensures
        validate::global_range_fault(d, from) is None ==> forall|i: int, f: DeviceFault|
            from <= i ==> !global_range_is(d, i, f),
        validate::global_range_fault(d, from) matches Some(fault) ==> {
            &&& from <= at
            &&& global_range_is(d, at, fault)
            &&& forall|i: int, f: DeviceFault| from <= i < at ==> !global_range_is(d, i, f)
        },
    decreases d.global_buttons@.len() - from,
{
    if from >= d.global_buttons@.len() {
        from
    } else {
        let rest = lemma_global_range_fault(d, from + 1);
        if d.global_buttons@[from].spec_number() >= super::note_offset_of(d.note_offset) {
            from
        } else {
            rest
        }
    }
}

proof fn lemma_longest_name(d: DeviceConfig)
    ensures
        names::byte_len(validate::longest_port_name(d)) == port_name_len(d, d.pages as nat),
{
    reveal_strlit("-page");
    assert("-page"@ =~= seq!['-', 'p', 'a', 'g', 'e']);
}

/// The fault that is reported is one that the device has, and no fault of an earlier
/// stage is there. A device with any fault is reported.
#[verifier::rlimit(50)]
pub proof fn law_the_fault_reported_is_there_and_comes_first(d: DeviceConfig, other: DeviceFault)
    ensures
        validate::device_fault(d) matches Some(fault) ==> has(d, fault),
        has(d, other) ==> (validate::device_fault(d) matches Some(fault) && stage(fault) <= stage(
            other,
        )),
{
    let at = lemma_page_button_fault(d, 0);
    let pin = lemma_pin_fault(d, 0);
    let global = lemma_global_fault(d, 0);
    lemma_longest_name(d);
    if d.mode == Mode::NoteOffset {
        let range = lemma_global_range_fault(d, 0);
    }
    if let Some(button) = d.next_page_button {
        assert(cycles(d, button));
    }
}

/// Of the page buttons, pins and global buttons the first at fault is reported, and of
/// its faults the first of: it comes again, it cycles, it is a page button; its page is
/// not there, it is pinned already.
pub proof fn law_the_first_entry_at_fault_is_reported(d: DeviceConfig) -> (at: int)
    ensures
        validate::device_fault(d) matches Some(fault) ==> {
            &&& stage(fault) == 5 ==> {
                &&& page_button_is(d, at, fault)
                &&& forall|i: int, f: DeviceFault| i < at ==> !page_button_is(d, i, f)
                &&& page_button_is(d, at, DeviceFault::DuplicatePageButton) ==> fault
                    == DeviceFault::DuplicatePageButton
            }
            &&& stage(fault) == 6 ==> {
                &&& pin_is(d, at, fault)
                &&& forall|i: int, f: DeviceFault| i < at ==> !pin_is(d, i, f)
                &&& fault is PagePinnedTwice ==> d.page_buttons@[at].page.unwrap() < d.pages
            }
            &&& stage(fault) == 7 ==> {
                &&& global_is(d, at, fault)
                &&& forall|i: int, f: DeviceFault| i < at ==> !global_is(d, i, f)
                &&& global_is(
                    d,
                    at,
                    DeviceFault::DuplicateGlobal { button: d.global_buttons@[at] },
                ) ==> fault is DuplicateGlobal
                &&& fault is GlobalIsPageButton ==> !cycles(d, d.global_buttons@[at])
            }
            &&& stage(fault) == 10 ==> {
                &&& global_range_is(d, at, fault)
                &&& forall|i: int, f: DeviceFault| i < at ==> !global_range_is(d, i, f)
            }
        },
{
    let button = lemma_page_button_fault(d, 0);
    let pin = lemma_pin_fault(d, 0);
    let global = lemma_global_fault(d, 0);
    let range = if d.mode == Mode::NoteOffset {
        lemma_global_range_fault(d, 0)
    } else {
        0
    };
    match validate::device_fault(d) {
        Some(fault) => {
            law_the_fault_reported_is_there_and_comes_first(d, fault);
            if stage(fault) == 5 {
                button
            } else if stage(fault) == 6 {
                pin
            } else if stage(fault) == 7 {
                global
            } else {
                range
            }
        },
        None => 0,
    }
}

// -- A configuration --------------------------------------------------------

/// What a port is told by: one text for both directions, or one for each.
pub proof fn law_ports_are_told_by_their_texts(d: DeviceConfig)
    ensures
        d.port_match matches super::PortMatch::Simple(text) ==> d.port_match.input_text() == text@
            && d.port_match.output_text() == text@,
        d.port_match matches super::PortMatch::Split { input, output }
            ==> d.port_match.input_text() == input@ && d.port_match.output_text() == output@,
{
}

/// Two devices that share an input or an output port.
pub open spec fn share_a_port(devices: Seq<DeviceConfig>, i: int, j: int) -> bool {
    devices[i].port_match.input_text() == devices[j].port_match.input_text()
        || devices[i].port_match.output_text() == devices[j].port_match.output_text()
}

/// A fault of two devices is about a port that they share, the input port if both are
/// shared.
pub open spec fn is_about(devices: Seq<DeviceConfig>, i: int, j: int, fault: ConfigFault) -> bool {
    let inputs = devices[i].port_match.input_text() == devices[j].port_match.input_text();
    let outputs = devices[i].port_match.output_text() == devices[j].port_match.output_text();
    match fault {
        ConfigFault::DuplicateInput { first, second } => inputs && first == i && second == j,
        ConfigFault::DuplicateOutput { first, second } => outputs && !inputs && first == i
            && second == j,
        _ => false,
    }
}

proof fn lemma_first_device_fault(devices: Seq<DeviceConfig>, from: int) -> (at: int)
    requires
        0 <= from,
        devices.len() <= usize::MAX,
    ensures
        validate::first_device_fault(devices, from) is None ==> forall|i: int|
            from <= i < devices.len() ==> validate::device_fault(#[trigger] devices[i]) is None,
        validate::first_device_fault(devices, from) matches Some(fault) ==> {
            &&& from <= at < devices.len()
            &&& fault == (ConfigFault::Device {
                index: at as usize,
                fault: validate::device_fault(devices[at]).unwrap(),
            })
            &&& validate::device_fault(devices[at]) is Some
            &&& forall|i: int|
                from <= i < at ==> validate::device_fault(#[trigger] devices[i]) is None
        },
    decreases devices.len() - from,
{
    if from >= devices.len() {
        from
    } else if validate::device_fault(devices[from]) is Some {
        from
    } else {
        lemma_first_device_fault(devices, from + 1)
    }
}

proof fn lemma_row_fault(devices: Seq<DeviceConfig>, i: int, from: int) -> (at: int)
    requires
        0 <= i < from,
        devices.len() <= usize::MAX,
    ensures
        validate::row_fault(devices, i, from) is None ==> forall|j: int|
            from <= j < devices.len() ==> !#[trigger] share_a_port(devices, i, j),
        validate::row_fault(devices, i, from) matches Some(fault) ==> {
            &&& from <= at < devices.len()
            &&& is_about(devices, i, at, fault)
            &&& forall|j: int| from <= j < at ==> !#[trigger] share_a_port(devices, i, j)
        },
    decreases devices.len() - from,
{
    if from >= devices.len() {
        from
    } else if share_a_port(devices, i, from) {
        from
    } else {
        lemma_row_fault(devices, i, from + 1)
    }
}

proof fn lemma_first_pair_fault(devices: Seq<DeviceConfig>, from: int) -> (at: (int, int))
    requires
        0 <= from,
        devices.len() <= usize::MAX,
    ensures
        validate::first_pair_fault(devices, from) is None ==> forall|i: int, j: int|
            from <= i < j < devices.len() ==> !#[trigger] share_a_port(devices, i, j),
        validate::first_pair_fault(devices, from) matches Some(fault) ==> {
            &&& from <= at.0 < at.1 < devices.len()
            &&& is_about(devices, at.0, at.1, fault)
            &&& forall|i: int, j: int|
                from <= i < j < devices.len() && (i < at.0 || (i == at.0 && j < at.1))
                    ==> !#[trigger] share_a_port(devices, i, j)
        },
    decreases devices.len() - from,
{
    if from >= devices.len() {
        (from, from)
    } else {
        let j = lemma_row_fault(devices, from, from + 1);
        if validate::row_fault(devices, from, from + 1) is Some {
            (from, j)
        } else {
            lemma_first_pair_fault(devices, from + 1)
        }
    }
}

/// Without devices that is the fault. Else the first device at fault is reported, with
/// its fault; and only if no device is at fault the first two that share a port, with
/// the port that they share.
pub proof fn law_the_first_device_at_fault_is_reported(devices: Seq<DeviceConfig>) -> (at: (
    int,
    int,
))
    requires
        devices.len() <= usize::MAX,
    ensures
        devices.len() == 0 <==> validate::config_fault(devices) == Some(ConfigFault::NoDevices),
        validate::config_fault(devices) matches Some(ConfigFault::Device { index, fault }) ==> {
            &&& index < devices.len()
            &&& validate::device_fault(devices[index as int]) == Some(fault)
            &&& forall|i: int|
                0 <= i < index ==> validate::device_fault(#[trigger] devices[i]) is None
        },
        validate::config_fault(devices) is Some && !(validate::config_fault(devices).unwrap()
            is NoDevices) && !(validate::config_fault(devices).unwrap() is Device) ==> {
            &&& 0 <= at.0 < at.1 < devices.len()
            &&& is_about(devices, at.0, at.1, validate::config_fault(devices).unwrap())
            &&& forall|i: int|
                0 <= i < devices.len() ==> validate::device_fault(#[trigger] devices[i]) is None
            &&& forall|i: int, j: int|
                0 <= i < j < devices.len() && (i < at.0 || (i == at.0 && j < at.1))
                    ==> !#[trigger] share_a_port(devices, i, j)
        },
{
    let device = lemma_first_device_fault(devices, 0);
    lemma_first_pair_fault(devices, 0)
}

// -- What is said -----------------------------------------------------------

/// A button as messages have it: its kind and its number.
pub proof fn law_buttons_are_spelled(number: u8)
    ensures
        validate::button_text(ButtonRef::Note { number }) == "Note { number: "@ + text::decimal(
            number as nat,
        ) + " }"@,
        validate::button_text(ButtonRef::Cc { number }) == "Cc { number: "@ + text::decimal(
            number as nat,
        ) + " }"@,
{
}

/// What is said of a configuration names the device at fault, or the port and both
/// devices that share it, first the earlier one.
pub proof fn law_messages_name_the_devices(
    devices: Seq<DeviceConfig>,
    index: usize,
    first: usize,
    second: usize,
    fault: DeviceFault,
)
    ensures
        validate::config_fault_text(devices, ConfigFault::NoDevices)
            == "no [[device]] sections defined"@,
        validate::config_fault_text(devices, ConfigFault::Device { index, fault })
            == devices[index as int].name@ + validate::device_fault_text(
            devices[index as int],
            fault,
        ),
        validate::config_fault_text(devices, ConfigFault::DuplicateInput { first, second })
            == "duplicate input port_match `"@ + devices[first as int].port_match.input_text()
            + "` between `"@ + devices[first as int].name@ + "` and `"@
            + devices[second as int].name@ + "`"@,
        validate::config_fault_text(devices, ConfigFault::DuplicateOutput { first, second })
            == "duplicate output port_match `"@ + devices[first as int].port_match.output_text()
            + "` between `"@ + devices[first as int].name@ + "` and `"@
            + devices[second as int].name@ + "`"@,
{
}

/// What is said of a device holds the numbers and buttons at fault.
pub proof fn law_messages_hold_what_is_at_fault(d: DeviceConfig, page: u8, button: ButtonRef)
    ensures
        validate::device_fault_text(d, DeviceFault::TooManyPageButtons) == ": page_buttons has "@
            + text::decimal(d.page_buttons@.len()) + " entries but pages = "@ + text::decimal(
            d.pages as nat,
        ) + ". Extras would be unreachable."@,
        validate::device_fault_text(d, DeviceFault::PageOutOfRange { page })
            == ": page_buttons entry has page = "@ + text::decimal(page as nat) + " but pages = "@
            + text::decimal(d.pages as nat) + "."@,
        validate::device_fault_text(d, DeviceFault::PagePinnedTwice { page })
            == ": two page_buttons entries pin to page = "@ + text::decimal(page as nat) + "."@,
        validate::device_fault_text(d, DeviceFault::DuplicateGlobal { button })
            == ": duplicate global_buttons entry "@ + validate::button_text(button),
        validate::device_fault_text(d, DeviceFault::GlobalIsCycleButton { button })
            == ": global_buttons entry "@ + validate::button_text(button)
            + " collides with next/previous_page_button"@,
        validate::device_fault_text(d, DeviceFault::GlobalIsPageButton { button })
            == ": global_buttons entry "@ + validate::button_text(button)
            + " collides with a page_buttons entry"@,
        validate::device_fault_text(d, DeviceFault::GlobalOutOfRange { button })
            == ": in mode=note_offset, global_buttons entry "@ + validate::button_text(button)
            + " has number "@ + text::decimal(
            match button {
                ButtonRef::Note { number } => number as nat,
                ButtonRef::Cc { number } => number as nat,
            },
        ) + " >= note_offset "@ + text::decimal(offset(d) as nat)
            + "; globals must live in page 0's range."@,
        validate::device_fault_text(d, DeviceFault::RangeExceeded) == ": pages*note_offset = "@
            + text::decimal((d.pages * offset(d)) as nat)
            + " exceeds the 128-value MIDI range. Reduce pages or note_offset, or switch to mode=per_port. See docs/adr/0003-note-offset-paging.md."@,
{
}

/// What is said of an error of the configuration says what was done, and why it failed.
pub proof fn law_errors_say_what_was_done(error: ConfigError)
    ensures
        error matches ConfigError::Io(cause) ==> error.message_text() == "read config: "@ + cause@,
        error matches ConfigError::Parse(cause) ==> error.message_text() == "parse config: "@
            + cause@,
        error matches ConfigError::Invalid(cause) ==> error.message_text() == "invalid config: "@
            + cause@,
{
}

/// A configuration is accepted exactly if it has no fault, and refused with what is said of
/// its first one.
pub proof fn law_only_faultless_configs_are_accepted(config: &Config, result: Result<(), ConfigError>)
    requires
        call_ensures(Config::validate, (config,), result),
    ensures
        result is Ok <==> laws::acceptable_config(config.devices@),
        result matches Err(error) ==> validate::config_fault(config.devices@) is Some && (error
            matches ConfigError::Invalid(message) && message@ == validate::config_fault_text(
            config.devices@,
            validate::config_fault(config.devices@).unwrap(),
        )),
{
    laws::law_faultless_configs_are_acceptable(config.devices@);
}

} // verus!
