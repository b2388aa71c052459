//! What an accepted configuration is.

use vstd::prelude::*;

use crate::config::{
    names, page_buttons, validate, DeviceConfig, Mode, PageButton, ResolvedPageButton,
};

verus! {

// -- What is accepted -------------------------------------------------------

/// Page buttons: no two alike, none that cycles.
pub open spec fn page_buttons_are_apart(d: DeviceConfig) -> bool {
    let entries = d.page_buttons@;
    &&& forall|i: int, j: int|
        #![trigger entries[i], entries[j]]
        0 <= i < j < entries.len() ==> entries[i].button != entries[j].button
    &&& forall|i: int|
        0 <= i < entries.len() ==> !validate::is_cycle(d, (#[trigger] entries[i]).button)
}

/// Pinned pages: all there, no two alike.
pub open spec fn pins_are_apart(d: DeviceConfig) -> bool {
    let entries = d.page_buttons@;
    &&& forall|i: int|
        0 <= i < entries.len() ==> ((#[trigger] entries[i]).page matches Some(page) ==> page
            < d.pages)
    &&& forall|i: int, j: int|
        #![trigger entries[i], entries[j]]
        0 <= i < j < entries.len() && entries[i].page is Some ==> entries[i].page
            != entries[j].page
}

/// Global buttons: no two alike, none that navigates.
pub open spec fn globals_are_apart(d: DeviceConfig) -> bool {
    let globals = d.global_buttons@;
    &&& forall|i: int, j: int|
        #![trigger globals[i], globals[j]]
        0 <= i < j < globals.len() ==> globals[i] != globals[j]
    &&& forall|i: int|
        0 <= i < globals.len() ==> !validate::is_cycle(d, #[trigger] globals[i])
            && !validate::is_page_button(d.page_buttons@, globals[i])
}

/// The settings of the mode: in note-offset mode both host ports, global buttons
/// in the range of page zero, and pages that fit the numbers of MIDI; in
/// per-port mode no host ports, and port names that Windows keeps whole.
pub open spec fn mode_is_set_up(d: DeviceConfig) -> bool {
    let offset = super::note_offset_of(d.note_offset);
    let globals = d.global_buttons@;
    match d.mode {
        Mode::NoteOffset => {
            &&& d.host_port_in is Some
            &&& d.host_port_out is Some
            &&& offset >= 1
            &&& forall|i: int|
                0 <= i < globals.len() ==> (#[trigger] globals[i]).spec_number() < offset
            &&& d.pages * offset <= 128
        },
        Mode::PerPort => {
            &&& d.host_port_in is None
            &&& d.host_port_out is None
            &&& forall|page: int|
                1 <= page <= d.pages ==> names::byte_len(
                    #[trigger] names::page_port_name(names::prefix_of(d), page as nat),
                ) <= 31
        },
    }
}

/// A device that the proxy can work with.
pub open spec fn acceptable(d: DeviceConfig) -> bool {
    &&& d.pages >= 1
    &&& d.pages > 1 ==> d.next_page_button is Some || d.previous_page_button is Some
        || d.page_buttons@.len() > 0
    &&& d.next_page_button is Some ==> d.next_page_button != d.previous_page_button
    &&& d.page_buttons_hold_to_preview ==> d.page_buttons@.len() > 0
    &&& d.page_buttons@.len() <= d.pages
    &&& page_buttons_are_apart(d)
    &&& pins_are_apart(d)
    &&& globals_are_apart(d)
    &&& mode_is_set_up(d)
}

/// A configuration that the proxy can work with: at least one device, every one
/// acceptable, and no two that share a port.
pub open spec fn acceptable_config(devices: Seq<DeviceConfig>) -> bool {
    &&& devices.len() > 0
    &&& forall|i: int| 0 <= i < devices.len() ==> acceptable(#[trigger] devices[i])
    &&& forall|i: int, j: int|
        #![trigger devices[i], devices[j]]
        0 <= i < j < devices.len() ==> devices[i].port_match.input_text()
            != devices[j].port_match.input_text() && devices[i].port_match.output_text()
            != devices[j].port_match.output_text()
}

proof fn lemma_page_button_fault(d: DeviceConfig, i: int)
    requires
        0 <= i,
    ensures
        validate::page_button_fault(d, i) is None <==> ({
            let entries = d.page_buttons@;
            &&& forall|k: int, j: int|
                #![trigger entries[k], entries[j]]
                i <= k < j < entries.len() ==> entries[k].button != entries[j].button
            &&& forall|k: int|
                i <= k < entries.len() ==> !validate::is_cycle(d, (#[trigger] entries[k]).button)
        }),
    decreases d.page_buttons@.len() - i,
{
    if i < d.page_buttons@.len() {
        lemma_page_button_fault(d, i + 1);
        let entries = d.page_buttons@;
        if validate::page_button_fault(d, i) is None {
            assert forall|k: int, j: int|
                #![trigger entries[k], entries[j]]
                i <= k < j < entries.len() implies entries[k].button != entries[j].button by {
                if k == i {
                    assert(entries[j].button != entries[i].button);
                }
            }
        } else if exists|j: int| i < j < entries.len() && (#[trigger] entries[j]).button
            == entries[i].button {
            let j = choose|j: int| i < j < entries.len() && (#[trigger] entries[j]).button
                == entries[i].button;
            assert(entries[i].button == entries[j].button);
        } else if validate::is_cycle(d, entries[i].button) {
        } else {
            assert(validate::page_button_fault(d, i + 1) is Some);
        }
    }
}

proof fn lemma_pin_fault(d: DeviceConfig, i: int)
    requires
        0 <= i,
    ensures
        validate::pin_fault(d, i) is None <==> ({
            let entries = d.page_buttons@;
            &&& forall|k: int|
                i <= k < entries.len() ==> ((#[trigger] entries[k]).page matches Some(page)
                    ==> page < d.pages)
            &&& forall|h: int, k: int|
                #![trigger entries[h], entries[k]]
                0 <= h < k < entries.len() && i <= k && entries[h].page is Some
                    ==> entries[h].page != entries[k].page
        }),
    decreases d.page_buttons@.len() - i,
{
    let entries = d.page_buttons@;
    if i < entries.len() {
        lemma_pin_fault(d, i + 1);
        if let Some(page) = entries[i].page {
            if validate::pinned_before(entries, i, page) {
                let h = choose|h: int| 0 <= h < i && (#[trigger] entries[h]).page == Some(page);
                assert(entries[h].page == entries[i].page);
            }
        }
        if validate::pin_fault(d, i) is None {
            assert(validate::pin_fault(d, i + 1) is None);
            assert forall|h: int, k: int|
                #![trigger entries[h], entries[k]]
                0 <= h < k < entries.len() && i <= k && entries[h].page is Some implies entries[h].page
                != entries[k].page by {
                if k == i && entries[h].page == entries[k].page {
                    assert(validate::pinned_before(entries, i, entries[h].page.unwrap()));
                }
            }
        }
    }
}

proof fn lemma_global_fault(d: DeviceConfig, i: int)
    requires
        0 <= i,
    ensures
        validate::global_fault(d, i) is None <==> ({
            let globals = d.global_buttons@;
            &&& forall|k: int, j: int|
                #![trigger globals[k], globals[j]]
                i <= k < j < globals.len() ==> globals[k] != globals[j]
            &&& forall|k: int|
                i <= k < globals.len() ==> !validate::is_cycle(d, #[trigger] globals[k])
                    && !validate::is_page_button(d.page_buttons@, globals[k])
        }),
    decreases d.global_buttons@.len() - i,
{
    let globals = d.global_buttons@;
    if i < globals.len() {
        lemma_global_fault(d, i + 1);
        if validate::global_fault(d, i) is None {
            assert forall|k: int, j: int|
                #![trigger globals[k], globals[j]]
                i <= k < j < globals.len() implies globals[k] != globals[j] by {
                if k == i {
                    assert(globals[j] != globals[i]);
                }
            }
        } else if exists|j: int| i < j < globals.len() && #[trigger] globals[j] == globals[i] {
            let j = choose|j: int| i < j < globals.len() && #[trigger] globals[j] == globals[i];
            assert(globals[i] == globals[j]);
        }
    }
}

proof fn lemma_global_range_fault(d: DeviceConfig, i: int)
    requires
        0 <= i,
    ensures
        validate::global_range_fault(d, i) is None <==> ({
            let globals = d.global_buttons@;
            forall|k: int|
                i <= k < globals.len() ==> (#[trigger] globals[k]).spec_number()
                    < super::note_offset_of(d.note_offset)
        }),
    decreases d.global_buttons@.len() - i,
{
    if i < d.global_buttons@.len() {
        lemma_global_range_fault(d, i + 1);
    }
}

/// A device passes exactly if it is acceptable.
pub proof fn law_faultless_devices_are_acceptable(d: DeviceConfig)
    ensures
        validate::device_fault(d) is None <==> acceptable(d),
{
    lemma_page_button_fault(d, 0);
    lemma_pin_fault(d, 0);
    lemma_global_fault(d, 0);
    lemma_global_range_fault(d, 0);
    let prefix = names::prefix_of(d);
    if d.mode == Mode::PerPort && d.pages >= 1 {
        if names::byte_len(validate::longest_port_name(d)) <= 31 {
            assert forall|page: int| 1 <= page <= d.pages implies names::byte_len(
                #[trigger] names::page_port_name(prefix, page as nat),
            ) <= 31 by {
                names::law_last_page_port_is_longest(prefix, page as nat, d.pages as nat);
            }
        } else {
            let last = d.pages as int;
            assert(names::byte_len(names::page_port_name(prefix, last as nat)) > 31);
        }
    }
}

proof fn lemma_first_device_fault(devices: Seq<DeviceConfig>, i: int)
    requires
        0 <= i,
    ensures
        validate::first_device_fault(devices, i) is None <==> forall|k: int|
            i <= k < devices.len() ==> acceptable(#[trigger] devices[k]),
    decreases devices.len() - i,
{
    if i < devices.len() {
        law_faultless_devices_are_acceptable(devices[i]);
        lemma_first_device_fault(devices, i + 1);
    }
}

/// Two devices that the ports tell apart.
pub open spec fn ports_differ(devices: Seq<DeviceConfig>, i: int, j: int) -> bool {
    &&& devices[i].port_match.input_text() != devices[j].port_match.input_text()
    &&& devices[i].port_match.output_text() != devices[j].port_match.output_text()
}

proof fn lemma_row_fault(devices: Seq<DeviceConfig>, i: int, j: int)
    requires
        0 <= i < j,
    ensures
        validate::row_fault(devices, i, j) is None <==> forall|k: int|
            j <= k < devices.len() ==> #[trigger] ports_differ(devices, i, k),
    decreases devices.len() - j,
{
    if j < devices.len() {
        lemma_row_fault(devices, i, j + 1);
        assert(validate::pair_fault(devices, i, j) is None <==> ports_differ(devices, i, j));
    }
}

proof fn lemma_first_pair_fault(devices: Seq<DeviceConfig>, i: int)
    requires
        0 <= i,
    ensures
        validate::first_pair_fault(devices, i) is None <==> forall|h: int, k: int|
            i <= h < k < devices.len() ==> #[trigger] ports_differ(devices, h, k),
    decreases devices.len() - i,
{
    if i < devices.len() {
        lemma_row_fault(devices, i, i + 1);
        lemma_first_pair_fault(devices, i + 1);
    }
}

/// A configuration passes exactly if it is acceptable.
pub proof fn law_faultless_configs_are_acceptable(devices: Seq<DeviceConfig>)
    ensures
        validate::config_fault(devices) is None <==> acceptable_config(devices),
{
    lemma_first_device_fault(devices, 0);
    lemma_first_pair_fault(devices, 0);
    if validate::config_fault(devices) is None {
        assert forall|i: int, j: int|
            #![trigger devices[i], devices[j]]
            0 <= i < j < devices.len() implies devices[i].port_match.input_text()
            != devices[j].port_match.input_text() && devices[i].port_match.output_text()
            != devices[j].port_match.output_text() by {
            assert(ports_differ(devices, i, j));
        }
    }
    if acceptable_config(devices) {
        assert forall|h: int, k: int| 0 <= h < k < devices.len() implies #[trigger] ports_differ(
            devices,
            h,
            k,
        ) by {
            assert(devices[h].port_match.input_text() != devices[k].port_match.input_text());
        }
    }
}

// -- What the page buttons come to ------------------------------------------

/// A list cannot hold more numbers than it has places.
proof fn lemma_some_number_is_missing(taken: Seq<u8>, n: int)
    requires
        taken.len() < n <= 256,
    ensures
        exists|page: u8| page < n && !taken.contains(page),
{
    if forall|page: u8| page < n ==> taken.contains(page) {
        let numbers = vstd::set_lib::set_int_range(0, n);
        let held = taken.to_set().map(|page: u8| page as int);
        vstd::set_lib::lemma_int_range(0, n);
        taken.lemma_cardinality_of_set();
        taken.to_set().lemma_map_finite(|page: u8| page as int);
        vstd::set_lib::lemma_map_size_bound(taken.to_set(), held, |page: u8| page as int);
        assert forall|k: int| numbers.contains(k) implies held.contains(k) by {
            let page = k as u8;
            assert(taken.contains(page));
            assert(taken.to_set().contains(page));
        }
        vstd::set_lib::lemma_len_subset(numbers, held);
        assert(false);
    }
}

/// There is a page for every page button of a list of up to 256.
pub proof fn law_short_lists_resolve(entries: Seq<PageButton>)
    requires
        entries.len() <= 256,
    ensures
        page_buttons::resolvable(entries),
{
    assert forall|i: int|
        0 <= i < entries.len() && (#[trigger] entries[i]).page is None implies exists|page: u8|
        !page_buttons::resolved_pages(entries.take(i)).contains(page) by {
        page_buttons::lemma_resolved_pages_len(entries.take(i));
        lemma_some_number_is_missing(page_buttons::resolved_pages(entries.take(i)), 256);
    }
}

/// A page button that is not pinned has the lowest page that no page button
/// before it has; a pinned one has its page.
pub proof fn law_page_buttons_take_the_lowest_free_page(entries: Seq<PageButton>, i: int)
    requires
        page_buttons::resolvable(entries),
        0 <= i < entries.len(),
    ensures
        page_buttons::resolved_pages(entries).len() == entries.len(),
        match entries[i].page {
            Some(page) => page_buttons::resolved_pages(entries)[i] == page,
            None => page_buttons::is_lowest_free(
                page_buttons::resolved_pages(entries)[i],
                page_buttons::resolved_pages(entries).take(i),
            ),
        },
{
    let pages = page_buttons::resolved_pages(entries);
    page_buttons::lemma_resolved_pages_len(entries);
    page_buttons::lemma_resolved_pages_len(entries.take(i));
    page_buttons::lemma_resolved_pages_prefix(entries, i);
    page_buttons::lemma_resolved_pages_prefix(entries, i + 1);
    assert(entries.take(i + 1).drop_last() =~= entries.take(i));
    assert(pages.take(i + 1)[i] == pages[i]);
    if entries[i].page is None {
        let taken = page_buttons::resolved_pages(entries.take(i));
        let free = choose|page: u8| !taken.contains(page);
        page_buttons::lemma_lowest_free(taken, free);
    }
}

/// The page buttons of an accepted device come to pages that are there.
pub proof fn law_accepted_page_buttons_resolve(d: DeviceConfig)
    requires
        acceptable(d),
    ensures
        page_buttons::resolvable(d.page_buttons@),
        forall|i: int|
            0 <= i < d.page_buttons@.len() ==> #[trigger] page_buttons::resolved_pages(
                d.page_buttons@,
            )[i] < d.pages,
{
    let entries = d.page_buttons@;
    let pages = page_buttons::resolved_pages(entries);
    law_short_lists_resolve(entries);
    assert forall|i: int| 0 <= i < entries.len() implies #[trigger] pages[i] < d.pages by {
        law_page_buttons_take_the_lowest_free_page(entries, i);
        if entries[i].page is None {
            let taken = pages.take(i);
            lemma_some_number_is_missing(taken, i + 1);
            let missing = choose|page: u8| page < i + 1 && !taken.contains(page);
            assert(pages[i] <= missing);
        }
    }
}

/// What each page button comes to: its button, its own hold flag or else the device's,
/// and its own page or else the lowest that no page button before it has.
pub proof fn law_page_buttons_resolve_entry_by_entry(
    entries: Seq<PageButton>,
    hold_by_default: bool,
    i: int,
)
    requires
        page_buttons::resolvable(entries),
        0 <= i < entries.len(),
    ensures
        ({
            let resolved = page_buttons::resolved_entries(entries, hold_by_default);
            &&& resolved.len() == entries.len()
            &&& resolved[i].button == entries[i].button
            &&& entries[i].hold_to_preview matches Some(hold) ==> resolved[i].hold == hold
            &&& entries[i].hold_to_preview is None ==> resolved[i].hold == hold_by_default
            &&& entries[i].page matches Some(page) ==> resolved[i].page == page
            &&& entries[i].page is None ==> {
                &&& forall|k: int| 0 <= k < i ==> (#[trigger] resolved[k]).page != resolved[i].page
                &&& forall|page: u8|
                    page < resolved[i].page ==> #[trigger] leads_before(resolved, i, page)
            }
        }),
{
    let resolved = page_buttons::resolved_entries(entries, hold_by_default);
    let pages = page_buttons::resolved_pages(entries);
    law_page_buttons_take_the_lowest_free_page(entries, i);
    if entries[i].page is None {
        let taken = pages.take(i);
        assert forall|k: int| 0 <= k < i implies (#[trigger] resolved[k]).page
            != resolved[i].page by {
            assert(taken[k] == resolved[k].page);
            assert(taken.contains(taken[k]));
        }
        assert forall|page: u8| page < resolved[i].page implies #[trigger] leads_before(
            resolved,
            i,
            page,
        ) by {
            assert(taken.contains(page));
            let k = choose|k: int| 0 <= k < taken.len() && taken[k] == page;
            assert(resolved[k].page == page);
        }
    }
}

/// A page button before the given one leads to the page.
pub open spec fn leads_before(resolved: Seq<ResolvedPageButton>, i: int, page: u8) -> bool {
    exists|k: int| 0 <= k < i && (#[trigger] resolved[k]).page == page
}

proof fn lemma_pages_without_button(pages: Seq<u8>, n: int, page: u8)
    requires
        0 <= n <= 256,
    ensures
        ({
            let list = page_buttons::pages_without_button(pages, n);
            &&& list.contains(page) <==> 1 <= page < n && !pages.contains(page)
            &&& forall|i: int| 0 <= i < list.len() ==> #[trigger] list[i] < n
            &&& forall|i: int, j: int|
                0 <= i < j < list.len() ==> #[trigger] list[i] < #[trigger] list[j]
        }),
    decreases n,
{
    let list = page_buttons::pages_without_button(pages, n);
    if n > 1 {
        let last = (n - 1) as u8;
        let rest = page_buttons::pages_without_button(pages, n - 1);
        lemma_pages_without_button(pages, n - 1, page);
        if !pages.contains(last) {
            assert(list == rest.push(last));
            assert(list[list.len() - 1] == last);
            if rest.contains(page) {
                let k = choose|k: int| 0 <= k < rest.len() && rest[k] == page;
                assert(list[k] == page);
            }
            if list.contains(page) && page != last {
                let k = choose|k: int| 0 <= k < list.len() && list[k] == page;
                assert(rest[k] == page);
            }
            assert forall|i: int, j: int| 0 <= i < j < list.len() implies #[trigger] list[i]
                < #[trigger] list[j] by {
                assert(rest[i] < n - 1);
                if j < rest.len() {
                    assert(rest[i] < rest[j]);
                }
            }
            assert forall|i: int| 0 <= i < list.len() implies #[trigger] list[i] < n by {
                if i < rest.len() {
                    assert(rest[i] < n - 1);
                }
            }
        } else {
            assert(list == rest);
            assert forall|i: int| 0 <= i < list.len() implies #[trigger] list[i] < n by {
                assert(rest[i] < n - 1);
            }
        }
    }
}

/// The pages that nothing leads to: with a next or previous button none; else every page
/// but the first that no page button comes to, in ascending order.
pub proof fn law_unreachable_pages_are_those_without_a_button(d: DeviceConfig, page: u8)
    ensures
        ({
            let list = page_buttons::unreachable(d);
            let resolved = page_buttons::resolved_entries(
                d.page_buttons@,
                d.page_buttons_hold_to_preview,
            );
            &&& list.contains(page) <==> d.next_page_button is None && d.previous_page_button is None
                && 1 <= page < d.pages && !leads_before(resolved, resolved.len() as int, page)
            &&& forall|i: int, j: int|
                0 <= i < j < list.len() ==> #[trigger] list[i] < #[trigger] list[j]
        }),
{
    let pages = page_buttons::resolved_pages(d.page_buttons@);
    let resolved = page_buttons::resolved_entries(
        d.page_buttons@,
        d.page_buttons_hold_to_preview,
    );
    page_buttons::lemma_resolved_pages_len(d.page_buttons@);
    lemma_pages_without_button(pages, d.pages as int, page);
    if pages.contains(page) {
        let k = choose|k: int| 0 <= k < pages.len() && pages[k] == page;
        assert(resolved[k].page == page);
    }
    if leads_before(resolved, resolved.len() as int, page) {
        let k = choose|k: int| 0 <= k < resolved.len() && (#[trigger] resolved[k]).page == page;
        assert(pages[k] == page);
    }
}

/// The offset between pages is the one that is set, or else 64.
pub proof fn law_offset_is_64_unless_set(note_offset: Option<u8>)
    ensures
        note_offset is None ==> super::note_offset_of(note_offset) == 64,
        note_offset matches Some(offset) ==> super::note_offset_of(note_offset) == offset,
{
}

} // verus!
