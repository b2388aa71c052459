//! Where the proxy's messages go.

use vstd::prelude::*;

use crate::config::{DeviceConfig, Mode};
use crate::midi::device::Device;
use crate::midi::parse;
use crate::proxy::model::{self, Sent};
use crate::proxy::{laws, Out, Proxy};

verus! {

/// Where one message goes.
#[derive(Debug, Clone, Copy, PartialEq, Eq, Structural)]
pub enum Route {
    /// To the single host port.
    Host,
    /// To the host port at this place.
    HostPage(usize),
    /// To the device.
    Device,
    /// To the device, after so many milliseconds.
    DeviceLater(u32),
    /// Nowhere: the page has no port.
    NoPort,
    /// Nowhere: the message is for the other mode. Worth a warning.
    WrongMode,
}

/// Where a message goes, in a mode with so many host ports.
pub open spec fn route_of(mode: Mode, host_ports: int, message: Sent) -> Route {
    match message {
        Sent::ToHost(_) => if mode == Mode::NoteOffset {
            Route::Host
        } else {
            Route::WrongMode
        },
        Sent::ToHostPage { page, .. } => if mode == Mode::NoteOffset {
            Route::WrongMode
        } else if page < host_ports {
            Route::HostPage(page as usize)
        } else {
            Route::NoPort
        },
        Sent::ToDevice(_) => Route::Device,
        Sent::DeviceDelayedSend { delay_ms, .. } => Route::DeviceLater(delay_ms),
    }
}

/// Where a message goes, in a mode with so many host ports.
pub fn route(mode: Mode, host_ports: usize, out: &Out) -> (route: Route)
    ensures
        route == route_of(mode, host_ports as int, out@),
{
    match out {
        Out::ToHost(_) => match mode {
            Mode::NoteOffset => Route::Host,
            Mode::PerPort => Route::WrongMode,
        },
        Out::ToHostPage { page, .. } => match mode {
            Mode::NoteOffset => Route::WrongMode,
            Mode::PerPort => {
                let place = *page as usize;
                if place < host_ports {
                    Route::HostPage(place)
                } else {
                    Route::NoPort
                }
            },
        },
        Out::ToDevice(_) => Route::Device,
        Out::DeviceDelayedSend { delay_ms, .. } => Route::DeviceLater(*delay_ms),
    }
}

/// The bytes of a message.
pub fn payload(out: &Out) -> (bytes: &Vec<u8>)
    ensures
        bytes@ == match out@ {
            Sent::ToHost(bytes) => bytes,
            Sent::ToHostPage { bytes, .. } => bytes,
            Sent::ToDevice(bytes) => bytes,
            Sent::DeviceDelayedSend { bytes, .. } => bytes,
        },
{
    match out {
        Out::ToHost(bytes) => bytes,
        Out::ToHostPage { bytes, .. } => bytes,
        Out::ToDevice(bytes) => bytes,
        Out::DeviceDelayedSend { bytes, .. } => bytes,
    }
}

/// What is sent to a device at startup: the configured SysEx, then what the
/// driver needs, then the navigation buttons.
pub fn startup_messages<D: Device>(cfg: &DeviceConfig, proxy: &Proxy<D>) -> (messages: Vec<Vec<u8>>)
    ensures
        parse::views(messages@) == (match cfg.boot_sysex {
            Some(sysex) => seq![sysex@],
            None => seq![],
        }) + proxy@.device.boot + model::indicator_state(proxy@),
{
    let mut messages: Vec<Vec<u8>> = Vec::new();
    if let Some(sysex) = &cfg.boot_sysex {
        messages.push(vstd::slice::slice_to_vec(sysex.as_slice()));
    }
    let ghost configured = parse::views(messages@);
    assert(configured =~= match cfg.boot_sysex {
        Some(sysex) => seq![sysex@],
        None => seq![],
    });
    let mut boot = proxy.device.boot();
    let mut indicators = proxy.paint_indicator_state();
    let ghost parts = (parse::views(boot@), parse::views(indicators@));
    messages.append(&mut boot);
    messages.append(&mut indicators);
    assert(parse::views(messages@) =~= configured + parts.0 + parts.1);
    messages
}

/// With a host port for every page no message of the proxy is lost: none is for
/// the other mode, and none for a page without a port.
pub proof fn law_device_messages_have_a_route(
    s: model::ProxyState,
    bytes: Seq<u8>,
    host_ports: int,
    i: int,
)
    requires
        model::valid(s),
        s.pages > 0,
        host_ports >= s.pages,
        0 <= i < model::device_in(s, bytes).1.len(),
    ensures
        ({
            let route = route_of(s.mode, host_ports, model::device_in(s, bytes).1[i]);
            route != Route::WrongMode && route != Route::NoPort
        }),
{
    laws::law_device_messages_fit_the_mode(s, bytes);
}

/// What the host sends goes to the device, whatever the mode.
pub proof fn law_host_messages_have_a_route(
    s: model::ProxyState,
    page: u8,
    bytes: Seq<u8>,
    mode: Mode,
    host_ports: int,
    i: int,
)
    ensures
        0 <= i < model::host_in(s, bytes).1.len() ==> route_of(
            mode,
            host_ports,
            model::host_in(s, bytes).1[i],
        ) == Route::Device,
        0 <= i < model::host_in_per_port(s, page, bytes).1.len() ==> route_of(
            mode,
            host_ports,
            model::host_in_per_port(s, page, bytes).1[i],
        ) == Route::Device,
{
    laws::law_host_messages_go_to_the_device(s, page, bytes, i);
}

/// In note-offset mode what is for the host goes to its port; in per-port mode to the port
/// at the place of the page, if there is one. What is for the device goes there, at once or
/// after its delay. A message for the other mode goes nowhere.
pub proof fn law_messages_go_where_they_are_for(
    host_ports: int,
    page: u8,
    delay_ms: u32,
    bytes: Seq<u8>,
    mode: Mode,
)
    ensures
        route_of(Mode::NoteOffset, host_ports, Sent::ToHost(bytes)) == Route::Host,
        route_of(Mode::PerPort, host_ports, Sent::ToHost(bytes)) == Route::WrongMode,
        route_of(Mode::NoteOffset, host_ports, Sent::ToHostPage { page, bytes })
            == Route::WrongMode,
        page < host_ports ==> route_of(
            Mode::PerPort,
            host_ports,
            Sent::ToHostPage { page, bytes },
        ) == Route::HostPage(page as usize),
        page >= host_ports ==> route_of(
            Mode::PerPort,
            host_ports,
            Sent::ToHostPage { page, bytes },
        ) == Route::NoPort,
        route_of(mode, host_ports, Sent::ToDevice(bytes)) == Route::Device,
        route_of(mode, host_ports, Sent::DeviceDelayedSend { delay_ms, bytes })
            == Route::DeviceLater(delay_ms),
{
}

/// A message is sent with its bytes as they are, on the route that it is for.
pub proof fn law_bytes_are_sent_as_they_are(
    mode: Mode,
    host_ports: usize,
    out: &Out,
    bytes: &Vec<u8>,
    way: Route,
)
    requires
        call_ensures(payload, (out,), bytes),
        call_ensures(route, (mode, host_ports, out), way),
    ensures
        way == Route::Host ==> out@ == Sent::ToHost(bytes@),
        way matches Route::HostPage(place) ==> place < host_ports && out@ == (Sent::ToHostPage {
            page: place as u8,
            bytes: bytes@,
        }),
        way == Route::Device ==> out@ == Sent::ToDevice(bytes@),
        way matches Route::DeviceLater(delay_ms) ==> out@ == (Sent::DeviceDelayedSend {
            delay_ms,
            bytes: bytes@,
        }),
{
}

/// At startup the configured SysEx, if there is one, goes out before anything else, and the
/// navigation buttons are lit last.
pub proof fn law_startup_begins_with_the_configured_sysex<D: Device>(
    cfg: &DeviceConfig,
    proxy: &Proxy<D>,
    messages: Vec<Vec<u8>>,
)
    requires
        call_ensures(startup_messages::<D>, (cfg, proxy), messages),
    ensures
        ({
            let all = parse::views(messages@);
            let boot = proxy@.device.boot;
            let lights = model::indicator_state(proxy@);
            &&& cfg.boot_sysex matches Some(sysex) ==> all == seq![sysex@] + boot + lights
            &&& cfg.boot_sysex is None ==> all == boot + lights
        }),
{
    if cfg.boot_sysex is None {
        assert(Seq::<Seq<u8>>::empty() + proxy@.device.boot =~= proxy@.device.boot);
    }
}

} // verus!
