# midi-pages

A virtual MIDI paging proxy for grid controllers (Novation Launchpad Mini MK3,
Akai APC mini), written in Rust and verified with Verus. It sits between a host
and a controller and presents several pages of pads to the host. LED state is
kept per page, so that turning to a page redraws its LEDs without the host
sending anything again.

## Layout

- `src/` is the verified library: everything that computes or decides.
  - `config/`: the configuration, what is wrong with it and what is accepted.
  - `midi/`: short messages, Lighting SysEx, Universal MIDI Packets, the two
    devices.
  - `proxy/`: the paging proxy. `model.rs` says what each operation does, as a
    function from one state to the next and the messages sent; `laws.rs`,
    `display.rs` and `host_notes.rs` say what holds of the proxy as a whole.
  - `ports.rs`, `dispatch.rs`, `shutdown.rs`, `stop.rs`: which port is meant,
    where messages go, and how a running proxy is stopped.
  - `text.rs`: numbers and strings.
- `app/` is the program around it: command line, configuration file, MIDI ports,
  threads, Win32 and WinRT calls. It is ordinary Rust and not verified. A Windows
  build needs bindings that are generated first: see `app/wms_bindings.rs`.
- `tests/` runs the library on concrete values.

## Reading the contracts

Contracts state results exactly. A proxy's view is a `ProxyState`, and
`handle_device_in`, for one, ensures

```text
(final(self)@, sent(outs@)) == model::device_in(old(self)@, bytes@)
```

The functions named `law_...` state what follows from these contracts: that after
a page change every pad, and every controller that the page has a state of, shows
what the host wrote to the page, that no Note On stays unmatched as long as pads
are pressed and released in turn, that emitted messages parse back, that an
accepted configuration meets what the proxy asks for.

Three facts about the standard library are taken on trust, each in a place of
its own: what `String::push` does (`text.rs`), what `u8::from_str_radix` accepts
(`config/hex.rs`), and that the `Debug` form of a string is a function of the
string (`config/names.rs`).
