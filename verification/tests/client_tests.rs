use deet::client::{available_calc, Client, ClientTable};

#[test]
fn no_limit_always_allows() {
    let mut c = Client { ip: "1.2.3.4".to_string(), times: 99, last_modify_time: 50 };
    assert!(available_calc(&mut c, 0, 100));
    assert_eq!(c.times, 99);
    assert_eq!(c.last_modify_time, 50);
}

#[test]
fn stale_window_restarts_the_count() {
    let mut c = Client { ip: "1.2.3.4".to_string(), times: 7, last_modify_time: 0 };
    assert!(available_calc(&mut c, 5, 61));
    assert_eq!(c.times, 1);
    assert_eq!(c.last_modify_time, 61);
}

#[test]
fn window_fills_up_then_refuses() {
    let mut c = Client { ip: "1.2.3.4".to_string(), times: 1, last_modify_time: 100 };
    assert!(available_calc(&mut c, 3, 130));
    assert_eq!(c.times, 2);
    assert!(available_calc(&mut c, 3, 130));
    assert_eq!(c.times, 3);
    assert!(!available_calc(&mut c, 3, 130));
    assert_eq!(c.times, 3);
    assert_eq!(c.last_modify_time, 100);
}

#[test]
fn table_tracks_clients_independently() {
    let mut table = ClientTable::new();
    let a = "1.1.1.1".to_string();
    let b = "2.2.2.2".to_string();
    // max two requests per minute
    assert!(table.note_request(&a, 10, 2));
    assert!(table.note_request(&a, 11, 2));
    assert!(!table.note_request(&a, 12, 2));
    // another client is unaffected
    assert!(table.note_request(&b, 12, 2));
    // a minute later the first client's window restarts
    assert!(table.note_request(&a, 80, 2));
}
