use midi_pages::stop::{choose_process, is_shutdown_event, pids_except, stop_target, StopChoice};

#[test]
fn zero_names_no_process() {
    assert_eq!(stop_target(0), None);
    assert_eq!(stop_target(77), Some(77));
}

#[test]
fn a_task_list_gives_its_processes() {
    let listing = "\"midi-pages.exe\",\"1234\",\"Console\",\"1\",\"18,044 K\"\r\n\
                   \"midi-pages.exe\",\"99\",\"Console\",\"1\",\"18,044 K\"\r\n\
                   \r\n\
                   \"midi-pages.exe\", \"+7\" ,\"Console\"\r\n";
    assert_eq!(pids_except(listing, 99), vec![1234, 7]);
    assert_eq!(pids_except(listing, 0), vec![1234, 99, 7]);
}

#[test]
fn rows_without_a_number_are_passed_over() {
    assert!(pids_except("INFO: No tasks are running which match.\r\n", 1).is_empty());
    assert!(pids_except("", 1).is_empty());
    assert!(pids_except("a,\"\",c\na,\"12x\",c\na,\"-3\",c\na,\"4294967296\",c", 1).is_empty());
    assert_eq!(pids_except("a,\"4294967295\",c\na,007", 1), vec![4294967295, 7]);
}

#[test]
fn numbers_are_read_as_std_reads_them() {
    for field in ["0", "+0", "+", "", "00012", "4294967295", "4294967296", "1 2", "x", "-1", "+1+"] {
        let expected: Vec<u32> = field.parse::<u32>().ok().into_iter().collect();
        assert_eq!(pids_except(&format!("a,{field}"), 5), expected, "{field}");
    }
}

#[test]
fn the_only_process_is_chosen() {
    assert_eq!(choose_process(&vec![]), StopChoice::Nothing);
    assert_eq!(choose_process(&vec![5]), StopChoice::Process(5));
    assert_eq!(choose_process(&vec![5, 6]), StopChoice::Ambiguous);
}

#[test]
fn console_events_that_end_the_proxy() {
    let ending: Vec<u32> = (0u32..10).filter(|e| is_shutdown_event(*e)).collect();
    assert_eq!(ending, vec![0, 1, 2, 5, 6]);
}
