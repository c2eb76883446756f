use deet::procinfo::{fds_from_names, Process};

#[test]
fn process_record_holds_its_fields() {
    let p = Process::new(42, 1, "sleep".to_string());
    assert_eq!(p.pid, 42);
    assert_eq!(p.ppid, 1);
    assert_eq!(p.command, "sleep");
}

#[test]
fn descriptor_names_parse_to_numbers() {
    let names: Vec<String> = ["0", "1", "2", "4", "5"].iter().map(|s| s.to_string()).collect();
    assert_eq!(fds_from_names(&names), Some(vec![0, 1, 2, 4, 5]));
}

#[test]
fn a_malformed_name_or_an_empty_directory_yields_nothing() {
    let bad: Vec<String> = ["0", "x"].iter().map(|s| s.to_string()).collect();
    assert_eq!(fds_from_names(&bad), None);
    assert_eq!(fds_from_names(&Vec::new()), None);
}
