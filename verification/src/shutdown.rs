//! Named-event IPC for headless shutdown of a running proxy.
//!
//! The proxy creates a Win32 auto-reset event named
//! `<namespace>\midi-pages-shutdown-<pid>` at startup. A watcher thread
//! blocks on `WaitForSingleObject` and runs the shutdown path when the
//! event is signalled. `midi-pages --stop` opens the event by name and
//! calls `SetEvent`. No console-signal handling involved.
//!
//! Namespace fallback:
//!
//! - Try `Global\` first with a permissive (NULL) DACL so any user in
//!   any session can open and signal. Interactive logons have
//!   `SeCreateGlobalPrivilege` by default, as do `LocalSystem` and
//!   service accounts, so this usually succeeds.
//! - Fall back to `Local\` (per-session, default DACL) if Global fails.
//!
//! The `--stop` helper mirrors: try Global then Local on Open. Auto-
//! detects which one the proxy used without explicit configuration.

use vstd::prelude::*;
use vstd::string::StringExecFns;

use crate::text;

verus! {

/// Win32 `HANDLE`. We store as `isize` to match `windows-sys`'s convention
/// and the underlying C `HANDLE` typedef.
pub type EventHandle = isize;

/// `WaitForSingleObject` wait-forever sentinel.
pub const INFINITE: u32 = 0xFFFFFFFF;

pub const WAIT_OBJECT_0: u32 = 0;

#[derive(Debug, Clone, Copy, PartialEq, Eq, Structural)]
pub enum Namespace {
    Global,
    Local,
}

impl Namespace {
    /// The name of the namespace.
    pub open spec fn prefix_text(self) -> Seq<char> {
        match self {
            Namespace::Global => "Global"@,
            Namespace::Local => "Local"@,
        }
    }

    pub fn prefix(self) -> (prefix: &'static str)
        ensures
            prefix@ == self.prefix_text(),
    {
        match self {
            Namespace::Global => "Global",
            Namespace::Local => "Local",
        }
    }
}

/// The name of the shutdown event of a process.
pub open spec fn event_name_text(namespace: Namespace, pid: u32) -> Seq<char> {
    namespace.prefix_text() + "\\midi-pages-shutdown-"@ + text::decimal(pid as nat)
}

/// Canonical name of the proxy's shutdown event for a given PID in a
/// given namespace.
pub fn event_name(namespace: Namespace, pid: u32) -> (name: String)
    ensures
        name@ == event_name_text(namespace, pid),
{
    let mut name = namespace.prefix().to_owned();
    name.append("\\midi-pages-shutdown-");
    text::push_decimal(&mut name, pid as u64);
    name
}

/// Result of an event-creation attempt at proxy startup.
#[derive(Debug, Clone, Copy, PartialEq, Eq, Structural)]
pub struct CreatedEvent {
    pub handle: EventHandle,
    pub namespace: Namespace,
}

/// Whether a call on the name of the shutdown event in a namespace can have
/// given the result.
pub open spec fn attempted<F: Fn(&str) -> Option<EventHandle>>(
    attempt: F,
    namespace: Namespace,
    pid: u32,
    result: Option<EventHandle>,
) -> bool {
    exists|name: &str|
        name@ == event_name_text(namespace, pid) && #[trigger] call_ensures(
            attempt,
            (name,),
            result,
        )
}

/// Try to create the shutdown event in `Global\` (NULL DACL, anyone can
/// signal) first. If that fails, try `Local\` (default DACL, same-session
/// only). Returns `None` only if both fail.
///
/// The two calls create an event of the name that they are given: the first
/// with a NULL DACL, the second with the default one. The second is made only
/// once the first has failed.
pub fn create_shutdown_event<G, L>(pid: u32, create_global: G, create_local: L) -> (created: Option<
    CreatedEvent,
>) where G: Fn(&str) -> Option<EventHandle>, L: Fn(&str) -> Option<EventHandle>
    requires
        forall|name: &str|
            name@ == event_name_text(Namespace::Global, pid) ==> #[trigger] call_requires(
                create_global,
                (name,),
            ),
        forall|name: &str|
            name@ == event_name_text(Namespace::Local, pid) && attempted(
                create_global,
                Namespace::Global,
                pid,
                None,
            ) ==> #[trigger] call_requires(create_local, (name,)),
    ensures
        match created {
            Some(event) => match event.namespace {
                Namespace::Global => attempted(
                    create_global,
                    Namespace::Global,
                    pid,
                    Some(event.handle),
                ),
                Namespace::Local => attempted(create_global, Namespace::Global, pid, None)
                    && attempted(create_local, Namespace::Local, pid, Some(event.handle)),
            },
            None => attempted(create_global, Namespace::Global, pid, None) && attempted(
                create_local,
                Namespace::Local,
                pid,
                None,
            ),
        },
{
    let name = event_name(Namespace::Global, pid);
    if let Some(handle) = create_global(name.as_str()) {
        return Some(CreatedEvent { handle, namespace: Namespace::Global });
    }
    let name = event_name(Namespace::Local, pid);
    if let Some(handle) = create_local(name.as_str()) {
        return Some(CreatedEvent { handle, namespace: Namespace::Local });
    }
    None
}

/// What comes of opening the event in `Global\`, and only if that fails in
/// `Local\`.
pub open spec fn opened_in_turn<F: Fn(&str) -> Option<EventHandle>>(
    open_event: F,
    pid: u32,
    opened: Option<(EventHandle, Namespace)>,
) -> bool {
    match opened {
        Some((handle, Namespace::Global)) => attempted(
            open_event,
            Namespace::Global,
            pid,
            Some(handle),
        ),
        Some((handle, Namespace::Local)) => attempted(open_event, Namespace::Global, pid, None)
            && attempted(open_event, Namespace::Local, pid, Some(handle)),
        None => attempted(open_event, Namespace::Global, pid, None) && attempted(
            open_event,
            Namespace::Local,
            pid,
            None,
        ),
    }
}

/// Open the shutdown event for a given PID. Tries `Global\` first, then
/// `Local\`. Returns the namespace the open succeeded in.
///
/// The call opens the event of the name that it is given. It is made for `Local\`
/// only once it has failed for `Global\`.
pub fn open_shutdown_event<F>(pid: u32, open_event: F) -> (opened: Option<
    (EventHandle, Namespace),
>) where F: Fn(&str) -> Option<EventHandle>
    requires
        forall|name: &str|
            name@ == event_name_text(Namespace::Global, pid) ==> #[trigger] call_requires(
                open_event,
                (name,),
            ),
        forall|name: &str|
            name@ == event_name_text(Namespace::Local, pid) && attempted(
                open_event,
                Namespace::Global,
                pid,
                None,
            ) ==> #[trigger] call_requires(open_event, (name,)),
    ensures
        opened_in_turn(open_event, pid, opened),
{
    let name = event_name(Namespace::Global, pid);
    if let Some(handle) = open_event(name.as_str()) {
        return Some((handle, Namespace::Global));
    }
    let name = event_name(Namespace::Local, pid);
    if let Some(handle) = open_event(name.as_str()) {
        return Some((handle, Namespace::Local));
    }
    None
}

// -- Wide strings -----------------------------------------------------------

/// A character in UTF-16: one unit, or a surrogate pair.
pub open spec fn utf16_units(c: char) -> Seq<u16> {
    let n = c as int;
    if n < 0x1_0000 {
        seq![n as u16]
    } else {
        seq![
            (0xD800 + (n - 0x1_0000) / 0x400) as u16,
            (0xDC00 + (n - 0x1_0000) % 0x400) as u16,
        ]
    }
}

/// A text in UTF-16.
pub open spec fn utf16(text: Seq<char>) -> Seq<u16>
    decreases text.len(),
{
    if text.len() == 0 {
        seq![]
    } else {
        utf16(text.drop_last()) + utf16_units(text.last())
    }
}

/// Writes a character in UTF-16.
fn push_utf16(units: &mut Vec<u16>, c: char)
    ensures
        final(units)@ == old(units)@ + utf16_units(c),
{
    let n = c as u32;
    if n < 0x1_0000 {
        units.push(n as u16);
    } else {
        let above = n - 0x1_0000;
        units.push((0xD800 + above / 0x400) as u16);
        units.push((0xDC00 + above % 0x400) as u16);
    }
    assert(units@ =~= old(units)@ + utf16_units(c));
}

/// A text as Win32 wants it: in UTF-16, with a zero at the end.
pub fn wide(s: &str) -> (units: Vec<u16>)
    ensures
        units@ == utf16(s@).push(0),
{
    let chars = text::chars_of(s);
    let mut units: Vec<u16> = Vec::new();
    for i in 0..chars.len()
        invariant
            chars@ == s@,
            units@ == utf16(s@.take(i as int)),
    {
        push_utf16(&mut units, chars[i]);
        assert(s@.take(i + 1).drop_last() =~= s@.take(i as int));
    }
    assert(s@.take(s@.len() as int) =~= s@);
    units.push(0);
    units
}

/// The events of two processes, or of two namespaces, have different names.
pub proof fn law_event_names_are_distinct(a: Namespace, pid_a: u32, b: Namespace, pid_b: u32)
    requires
        a != b || pid_a != pid_b,
    ensures
        event_name_text(a, pid_a) != event_name_text(b, pid_b),
{
    reveal_strlit("Global");
    reveal_strlit("Local");
    if event_name_text(a, pid_a) == event_name_text(b, pid_b) {
        assert(event_name_text(a, pid_a)[0] == a.prefix_text()[0]);
        assert(event_name_text(b, pid_b)[0] == b.prefix_text()[0]);
        assert(a == b);
        let start = a.prefix_text() + "\\midi-pages-shutdown-"@;
        assert(event_name_text(a, pid_a).skip(start.len() as int) =~= text::decimal(pid_a as nat));
        assert(event_name_text(b, pid_b).skip(start.len() as int) =~= text::decimal(pid_b as nat));
        text::lemma_decimal_is_injective(pid_a as nat, pid_b as nat);
    }
}

/// Whether a call opens the event of a process in one namespace and nothing else.
pub open spec fn opens_only<F: Fn(&str) -> Option<EventHandle>>(
    open_event: F,
    pid: u32,
    namespace: Namespace,
) -> bool {
    forall|name: &str, result: Option<EventHandle>| #[trigger]
        call_ensures(open_event, (name,), result) ==> (result is Some <==> name@
            == event_name_text(namespace, pid))
}

/// The namespace in which a process has made its event is found without being
/// told.
pub proof fn law_the_namespace_is_found<F: Fn(&str) -> Option<EventHandle>>(
    open_event: F,
    pid: u32,
    namespace: Namespace,
    opened: Option<(EventHandle, Namespace)>,
)
    requires
        opens_only(open_event, pid, namespace),
        opened_in_turn(open_event, pid, opened),
    ensures
        opened matches Some((_, found)) && found == namespace,
{
    law_event_names_are_distinct(Namespace::Global, pid, Namespace::Local, pid);
}

/// A character below 65536 is one unit; any other is a high and a low surrogate, which give
/// the character back.
pub proof fn law_units_give_the_character_back(c: char)
    ensures
        ({
            let units = utf16_units(c);
            let n = c as int;
            &&& n < 65536 ==> units.len() == 1 && units[0] == n
            &&& n >= 65536 ==> {
                &&& units.len() == 2
                &&& 0xD800 <= units[0] <= 0xDBFF
                &&& 0xDC00 <= units[1] <= 0xDFFF
                &&& n == 65536 + (units[0] - 0xD800) * 1024 + (units[1] - 0xDC00)
            }
        }),
{
}

/// The units of two texts, one after the other, are those of both together.
pub proof fn law_units_follow_each_other(a: Seq<char>, b: Seq<char>)
    ensures
        utf16(a + b) == utf16(a) + utf16(b),
        utf16(seq![]) == Seq::<u16>::empty(),
        a.len() == 1 ==> utf16(a) == utf16_units(a[0]),
    decreases b.len(),
{
    if b.len() == 0 {
        assert(a + b =~= a);
        assert(utf16(a) + utf16(b) =~= utf16(a));
    } else {
        law_units_follow_each_other(a, b.drop_last());
        assert((a + b).drop_last() =~= a + b.drop_last());
        assert((a + b).last() == b.last());
        assert(utf16(a + b) =~= utf16(a) + utf16(b));
    }
    if a.len() == 1 {
        assert(a.drop_last() =~= Seq::<char>::empty());
        assert(utf16(a.drop_last()) =~= Seq::<u16>::empty());
        assert(utf16(a) =~= utf16_units(a[0]));
    }
}

/// The event of a process is named by the namespace, a backslash, what it is for and the
/// process, in decimal.
pub proof fn law_events_are_named_by_process(pid: u32)
    ensures
        event_name_text(Namespace::Global, pid) == "Global\\midi-pages-shutdown-"@ + text::decimal(
            pid as nat,
        ),
        event_name_text(Namespace::Local, pid) == "Local\\midi-pages-shutdown-"@ + text::decimal(
            pid as nat,
        ),
{
    reveal_strlit("Global");
    reveal_strlit("Local");
    reveal_strlit("\\midi-pages-shutdown-");
    reveal_strlit("Global\\midi-pages-shutdown-");
    reveal_strlit("Local\\midi-pages-shutdown-");
    assert("Global"@ + "\\midi-pages-shutdown-"@ =~= "Global\\midi-pages-shutdown-"@);
    assert("Local"@ + "\\midi-pages-shutdown-"@ =~= "Local\\midi-pages-shutdown-"@);
}

/// A wide string is the units of the text and a zero at the end.
pub proof fn law_wide_strings_end_in_zero(s: &str, units: Vec<u16>)
    requires
        call_ensures(wide, (s,), units),
    ensures
        units@.last() == 0,
        units@.drop_last() == utf16(s@),
{
}

} // verus!
