use std::cell::RefCell;

use midi_pages::shutdown::{
    create_shutdown_event, event_name, open_shutdown_event, wide, CreatedEvent, Namespace,
    INFINITE, WAIT_OBJECT_0,
};

#[test]
fn event_name_format_for_pid() {
    assert_eq!(
        event_name(Namespace::Global, 1234),
        "Global\\midi-pages-shutdown-1234"
    );
    assert_eq!(
        event_name(Namespace::Local, 1234),
        "Local\\midi-pages-shutdown-1234"
    );
}

#[test]
fn the_global_namespace_comes_first() {
    let names = RefCell::new(Vec::new());
    let created = create_shutdown_event(
        7,
        |name: &str| {
            names.borrow_mut().push(name.to_string());
            Some(42)
        },
        |_: &str| -> Option<isize> { panic!("not to be called") },
    );
    assert_eq!(
        created,
        Some(CreatedEvent {
            handle: 42,
            namespace: Namespace::Global
        })
    );
    assert_eq!(names.into_inner(), vec!["Global\\midi-pages-shutdown-7"]);
}

#[test]
fn the_local_namespace_is_the_fallback() {
    let created = create_shutdown_event(
        7,
        |_: &str| None,
        |name: &str| {
            assert_eq!(name, "Local\\midi-pages-shutdown-7");
            Some(43)
        },
    );
    assert_eq!(
        created,
        Some(CreatedEvent {
            handle: 43,
            namespace: Namespace::Local
        })
    );
    assert_eq!(create_shutdown_event(7, |_: &str| None, |_: &str| None), None);
}

#[test]
fn opening_tries_both_namespaces_in_order() {
    assert_eq!(
        open_shutdown_event(9, |name: &str| if name.starts_with("Local") {
            Some(5)
        } else {
            None
        }),
        Some((5, Namespace::Local))
    );
    assert_eq!(
        open_shutdown_event(9, |_: &str| Some(6)),
        Some((6, Namespace::Global))
    );
    assert_eq!(open_shutdown_event(9, |_: &str| None), None);
}

#[test]
fn opening_goes_no_further_than_it_must() {
    let names = RefCell::new(Vec::new());
    let opened = open_shutdown_event(9, |name: &str| {
        names.borrow_mut().push(name.to_string());
        Some(6)
    });
    assert_eq!(opened, Some((6, Namespace::Global)));
    assert_eq!(names.take(), vec!["Global\\midi-pages-shutdown-9"]);

    let opened = open_shutdown_event(9, |name: &str| {
        names.borrow_mut().push(name.to_string());
        None
    });
    assert_eq!(opened, None);
    assert_eq!(
        names.take(),
        vec!["Global\\midi-pages-shutdown-9", "Local\\midi-pages-shutdown-9"]
    );
}

#[test]
fn wide_strings_are_utf16_with_a_zero() {
    for text in ["", "abc", "Global\\x", "h\u{e9}\u{20ac}", "\u{1F600}z\u{10FFFF}\u{FFFF}"] {
        let expected: Vec<u16> = text.encode_utf16().chain(std::iter::once(0)).collect();
        assert_eq!(wide(text), expected);
    }
}

#[test]
fn event_names_differ_by_process_and_namespace() {
    let mut names = Vec::new();
    for pid in [0u32, 1, 10, 11, 110, u32::MAX] {
        names.push(event_name(Namespace::Global, pid));
        names.push(event_name(Namespace::Local, pid));
    }
    let count = names.len();
    names.sort();
    names.dedup();
    assert_eq!(names.len(), count);
}

#[test]
fn win32_constants() {
    assert_eq!(INFINITE, u32::MAX);
    assert_eq!(WAIT_OBJECT_0, 0);
    assert_eq!(Namespace::Global.prefix(), "Global");
    assert_eq!(Namespace::Local.prefix(), "Local");
}
