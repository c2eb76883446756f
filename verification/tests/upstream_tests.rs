use deet::upstream::{UpstreamStatus, UpstreamUnit};

fn status(addrs: &[&str]) -> UpstreamStatus {
    let ua: Vec<String> = addrs.iter().map(|s| s.to_string()).collect();
    let us: Vec<UpstreamUnit> = addrs
        .iter()
        .map(|s| UpstreamUnit { address: s.to_string(), fail: false })
        .collect();
    UpstreamStatus::new(ua, us)
}

#[test]
fn rotation_starts_with_all_addresses() {
    let st = status(&["10.0.0.1:80", "10.0.0.2:80"]);
    assert_eq!(st.get_up_addrs(), vec!["10.0.0.1:80".to_string(), "10.0.0.2:80".to_string()]);
}

#[test]
fn random_pick_comes_from_the_rotation() {
    let st = status(&["10.0.0.1:80", "10.0.0.2:80", "10.0.0.3:80"]);
    for _ in 0..32 {
        let picked = st.select_random_updastream().expect("a pick from a non-empty rotation");
        assert!(st.get_up_addrs().contains(&picked));
    }
}

#[test]
fn failure_removes_and_success_restores() {
    let mut st = status(&["a:1", "b:2"]);
    st.noti_fail(&"a:1".to_string());
    assert_eq!(st.get_up_addrs(), vec!["b:2".to_string()]);
    // A failure for an unknown address changes nothing.
    st.noti_fail(&"zz:9".to_string());
    assert_eq!(st.get_up_addrs(), vec!["b:2".to_string()]);
    // A success for an address out of rotation puts it back (at the end).
    st.noti_succ(&"a:1".to_string());
    assert_eq!(st.get_up_addrs(), vec!["b:2".to_string(), "a:1".to_string()]);
    // A success for an address already in rotation changes nothing.
    st.noti_succ(&"b:2".to_string());
    assert_eq!(st.get_up_addrs(), vec!["b:2".to_string(), "a:1".to_string()]);
}
