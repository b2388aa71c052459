use midi_pages::ports::{
    appear_step, begin_wait, connect_plan, disappear_step, find_port, fnv1a64, list_lines,
    plugin_id, product_instance_id, unique_id_for, ConnectPlan, WaitStep,
};

fn names(list: &[&str]) -> Vec<String> {
    list.iter().map(|s| s.to_string()).collect()
}

#[test]
fn the_first_port_with_the_needle_is_found() {
    let ports = names(&[
        "LPMiniMK3 MIDI",
        "MIDIIN2 (LPMiniMK3 MIDI)",
        "APC MINI",
    ]);
    assert_eq!(find_port(&ports, "LPMiniMK3"), Some(0));
    assert_eq!(find_port(&ports, "LPMiniMK3 MIDI)"), Some(1));
    assert_eq!(find_port(&ports, "APC"), Some(2));
    assert_eq!(find_port(&ports, ""), Some(0));
    assert_eq!(find_port(&ports, "apc"), None);
    assert_eq!(find_port(&[].to_vec(), ""), None);
}

#[test]
fn ports_are_used_made_or_missed() {
    let ports = names(&["a", "b"]);
    assert_eq!(connect_plan(&ports, "b", true), ConnectPlan::Existing(1));
    assert_eq!(connect_plan(&ports, "b", false), ConnectPlan::Existing(1));
    assert_eq!(connect_plan(&ports, "c", true), ConnectPlan::Virtual);
    assert_eq!(connect_plan(&ports, "c", false), ConnectPlan::Missing);
}

#[test]
fn ports_are_listed_inputs_first() {
    assert_eq!(
        list_lines(&names(&["x", "y"]), &names(&["z"])),
        vec!["[in]  x", "[in]  y", "[out] z"]
    );
}

#[test]
fn no_names_need_no_waiting() {
    assert!(matches!(begin_wait(&Vec::new()), WaitStep::Done));
}

#[test]
fn names_are_waited_for_once_each_and_in_order() {
    match begin_wait(&names(&["page2", "page1", "page10", "page2"])) {
        WaitStep::Again(waiting) => assert_eq!(waiting, vec!["page1", "page10", "page2"]),
        other => panic!("unexpected {other:?}"),
    }
}

#[test]
fn a_port_that_was_seen_is_waited_for_no_longer() {
    let waiting = names(&["a", "b", "c"]);
    let waiting = match appear_step(waiting, &names(&["b", "x"]), false) {
        WaitStep::Again(waiting) => waiting,
        other => panic!("unexpected {other:?}"),
    };
    assert_eq!(waiting, vec!["a", "c"]);
    let waiting = match appear_step(waiting, &names(&["a"]), false) {
        WaitStep::Again(waiting) => waiting,
        other => panic!("unexpected {other:?}"),
    };
    assert_eq!(waiting, vec!["c"]);
    assert!(matches!(
        appear_step(waiting, &names(&["c"]), true),
        WaitStep::Done
    ));
}

#[test]
fn missing_ports_are_reported_when_time_is_up() {
    match appear_step(names(&["a", "b"]), &names(&[]), true) {
        WaitStep::TimedOut(missing) => assert_eq!(missing, vec!["a", "b"]),
        other => panic!("unexpected {other:?}"),
    }
}

#[test]
fn ports_that_linger_are_looked_for_again() {
    let waiting = match disappear_step(names(&["a", "b"]), &names(&["b"]), false) {
        WaitStep::Again(waiting) => waiting,
        other => panic!("unexpected {other:?}"),
    };
    assert_eq!(waiting, vec!["a", "b"]);
    match disappear_step(waiting, &names(&["b", "a", "z"]), true) {
        WaitStep::TimedOut(present) => assert_eq!(present, vec!["a", "b"]),
        other => panic!("unexpected {other:?}"),
    }
    assert!(matches!(
        disappear_step(names(&["a"]), &names(&["z"]), true),
        WaitStep::Done
    ));
}

#[test]
fn names_sort_as_strings_do() {
    let list = names(&["b", "a", "\u{e9}", "B", "", "aa", "\u{1F600}", "\u{FFFF}", "a"]);
    let mut expected = list.clone();
    expected.sort();
    expected.dedup();
    match begin_wait(&list) {
        WaitStep::Again(waiting) => assert_eq!(waiting, expected),
        other => panic!("unexpected {other:?}"),
    }
}

#[test]
fn fnv1a_reference_values() {
    assert_eq!(fnv1a64(b""), 0xcbf29ce484222325);
    assert_eq!(fnv1a64(b"a"), 0xaf63dc4c8601ec8c);
    assert_eq!(fnv1a64(b"foobar"), 0x85944171f73967e8);
}

#[test]
fn identifiers_hold_the_hash_of_the_name() {
    assert_eq!(unique_id_for("a"), "af63dc4c8601ec8c");
    assert_eq!(unique_id_for(""), "cbf29ce484222325");
    assert_eq!(
        product_instance_id("a", 4711),
        "midi-pages.af63dc4c8601ec8c.4711"
    );
    assert_eq!(
        plugin_id("a"),
        0xb1d10001_0000_4000_8000_000000000000 ^ u128::from(0xaf63dc4c8601ec8cu64)
    );
    let id = unique_id_for("launchpad-mini-mk3-page1");
    assert_eq!(
        id,
        format!("{:016x}", fnv1a64("launchpad-mini-mk3-page1".as_bytes()))
    );
}
