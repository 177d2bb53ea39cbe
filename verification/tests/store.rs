use session_tracker::addr::IpAddr;
use session_tracker::details::{FlowNoSrcPort, SessionDetails};
use session_tracker::tracker::{
    SessionTracker, DEFAULT_PHANTOM_PORT, S2NS, TIMEOUT_PHANTOMS_NS,
};
use std::time;

fn details(client: &str, phantom: &str, timeout: u64) -> SessionDetails {
    SessionDetails::new(client, phantom, u32::from(DEFAULT_PHANTOM_PORT), timeout).unwrap()
}

fn flow(client: &str, phantom: &str) -> FlowNoSrcPort {
    FlowNoSrcPort {
        src_ip: IpAddr::parse(client).unwrap(),
        dst_ip: IpAddr::parse(phantom).unwrap(),
        dst_port: DEFAULT_PHANTOM_PORT,
    }
}

/// Lets `dur` pass on the clock.
fn wait(dur: time::Duration) {
    let start = time::Instant::now();
    while start.elapsed() < dur {
        std::hint::spin_loop();
    }
}

#[test]
fn constants_have_their_values() {
    assert_eq!(S2NS, 1_000_000_000);
    assert_eq!(TIMEOUT_PHANTOMS_NS, 300_000_000_000);
    assert_eq!(DEFAULT_PHANTOM_PORT, 443);
}

#[test]
fn new_store_is_empty() {
    let mut st = SessionTracker::new();
    assert_eq!(st.len(), 0);
    assert!(!st.is_tracked_session(&flow("192.168.0.1", "10.10.0.1")));
    assert!(!st.session_exists(&"192.168.0.1-10.10.0.1-443".to_string()));
    assert_eq!(st.drop_stale_sessions_at(u64::MAX), 0);
    assert_eq!(st.drop_stale_sessions(), 0);
}

#[test]
fn session_expires_timeout_after_registration() {
    let mut st = SessionTracker::new();
    st.insert_session_at(details("192.168.0.1", "10.10.0.1", 50), 100);
    assert_eq!(st.len(), 1);
    assert!(st.session_exists(&"192.168.0.1-10.10.0.1-443".to_string()));
    // expiry is 150: there at 149, gone at 150
    assert_eq!(st.drop_stale_sessions_at(0), 0);
    assert_eq!(st.drop_stale_sessions_at(149), 0);
    assert!(st.is_tracked_session(&flow("192.168.0.1", "10.10.0.1")));
    assert_eq!(st.drop_stale_sessions_at(150), 1);
    assert!(!st.is_tracked_session(&flow("192.168.0.1", "10.10.0.1")));
    assert_eq!(st.len(), 0);
}

#[test]
fn expiry_stops_at_the_end_of_the_clock() {
    let mut st = SessionTracker::new();
    st.insert_session_at(details("192.168.0.1", "10.10.0.1", u64::MAX), 100);
    st.insert_session_at(details("192.168.0.1", "10.10.0.2", 5), u64::MAX - 2);
    assert_eq!(st.drop_stale_sessions_at(u64::MAX - 1), 0);
    assert_eq!(st.len(), 2);
    assert_eq!(st.drop_stale_sessions_at(u64::MAX), 2);
}

#[test]
fn shorter_registration_does_not_shorten() {
    let mut st = SessionTracker::new();
    st.insert_session_at(details("2601::123:abcd", "2001::1234", 5 * S2NS), 1000);
    st.insert_session_at(details("::1", "2001::1234", S2NS), 1000);
    assert_eq!(st.len(), 1);
    assert_eq!(st.drop_stale_sessions_at(1000 + 5 * S2NS - 1), 0);
    assert_eq!(st.drop_stale_sessions_at(1000 + 5 * S2NS), 1);
}

#[test]
fn longer_registration_lengthens() {
    let mut st = SessionTracker::new();
    st.insert_session_at(details("7.0.0.2", "8.8.8.8", 1), 1000);
    st.insert_session_at(details("7.0.0.2", "8.8.8.8", 5 * S2NS), 1000);
    assert_eq!(st.len(), 1);
    assert_eq!(st.drop_stale_sessions_at(1001), 0);
    assert!(st.is_tracked_session(&flow("7.0.0.2", "8.8.8.8")));
    assert_eq!(st.drop_stale_sessions_at(1000 + 5 * S2NS - 1), 0);
    assert_eq!(st.drop_stale_sessions_at(1000 + 5 * S2NS), 1);
}

#[test]
fn order_of_registrations_does_not_matter() {
    let a = details("7.0.0.2", "8.8.8.8", 10);
    let b = details("7.0.0.2", "8.8.8.8", 30);
    let mut first = SessionTracker::new();
    first.insert_session_at(a, 100);
    first.insert_session_at(b, 200);
    let mut second = SessionTracker::new();
    second.insert_session_at(b, 200);
    second.insert_session_at(a, 100);
    for st in [&mut first, &mut second] {
        assert_eq!(st.len(), 1);
        assert_eq!(st.drop_stale_sessions_at(229), 0);
        assert_eq!(st.drop_stale_sessions_at(230), 1);
    }
}

#[test]
fn later_registration_with_earlier_expiry_changes_nothing() {
    let mut st = SessionTracker::new();
    st.insert_session_at(details("7.0.0.2", "8.8.8.8", 1000), 100);
    st.insert_session_at(details("7.0.0.2", "8.8.8.8", 10), 500);
    assert_eq!(st.drop_stale_sessions_at(1099), 0);
    assert_eq!(st.drop_stale_sessions_at(1100), 1);
}

#[test]
fn sweep_takes_out_what_has_expired_and_nothing_else() {
    let mut st = SessionTracker::new();
    st.insert_session_at(details("172.128.0.2", "8.0.0.1", 1), 0);
    st.insert_session_at(details("192.168.0.1", "10.10.0.1", 10), 0);
    st.insert_session_at(details("192.168.0.1", "192.0.0.127", 10), 0);
    st.insert_session_at(details("192.168.0.1", "2801::1234", 20), 0);
    st.insert_session_at(details("", "2345::6789", 30), 0);
    assert_eq!(st.len(), 5);
    assert_eq!(st.drop_stale_sessions_at(1), 1);
    assert_eq!(st.len(), 4);
    assert!(!st.is_tracked_session(&flow("172.128.0.2", "8.0.0.1")));
    assert!(st.is_tracked_session(&flow("192.168.0.1", "10.10.0.1")));
    // a second sweep at the same instant finds nothing
    assert_eq!(st.drop_stale_sessions_at(1), 0);
    assert_eq!(st.drop_stale_sessions_at(9), 0);
    assert_eq!(st.len(), 4);
    assert_eq!(st.drop_stale_sessions_at(10), 2);
    assert_eq!(st.len(), 2);
    assert!(!st.is_tracked_session(&flow("192.168.0.1", "10.10.0.1")));
    assert!(!st.is_tracked_session(&flow("192.168.0.1", "192.0.0.127")));
    assert!(st.is_tracked_session(&flow("192.168.0.1", "2801::1234")));
    assert!(st.is_tracked_session(&flow("::1", "2345::6789")));
    assert_eq!(st.drop_stale_sessions_at(25), 1);
    assert_eq!(st.drop_stale_sessions_at(u64::MAX), 1);
    assert_eq!(st.len(), 0);
}

#[test]
fn sweep_in_the_past_takes_out_nothing() {
    let mut st = SessionTracker::new();
    st.insert_session_at(details("192.168.0.1", "10.10.0.1", 10), 1000);
    assert_eq!(st.drop_stale_sessions_at(5), 0);
    assert_eq!(st.len(), 1);
}

#[test]
fn expired_session_is_there_until_the_sweep() {
    let mut st = SessionTracker::new();
    st.insert_session_at(details("192.168.0.1", "10.10.0.1", 1), 0);
    // no clock is asked when a flow is looked up
    assert!(st.is_tracked_session(&flow("192.168.0.1", "10.10.0.1")));
    assert_eq!(st.len(), 1);
}

#[test]
fn traffic_lengthens_a_session() {
    let mut st = SessionTracker::new();
    st.insert_session_at(details("192.168.0.1", "10.10.0.1", 10), 0);
    st.update_session_at(&flow("192.168.0.1", "10.10.0.1"), 5);
    assert_eq!(st.drop_stale_sessions_at(10), 0);
    assert_eq!(st.drop_stale_sessions_at(5 + TIMEOUT_PHANTOMS_NS - 1), 0);
    assert_eq!(st.drop_stale_sessions_at(5 + TIMEOUT_PHANTOMS_NS), 1);
}

#[test]
fn traffic_does_not_shorten_a_session() {
    let mut st = SessionTracker::new();
    st.insert_session_at(details("192.168.0.1", "10.10.0.1", 2 * TIMEOUT_PHANTOMS_NS), 0);
    st.update_session_at(&flow("192.168.0.1", "10.10.0.1"), 5);
    assert_eq!(st.drop_stale_sessions_at(2 * TIMEOUT_PHANTOMS_NS - 1), 0);
    assert_eq!(st.drop_stale_sessions_at(2 * TIMEOUT_PHANTOMS_NS), 1);
}

#[test]
fn traffic_registers_nothing() {
    let mut st = SessionTracker::new();
    st.update_session_at(&flow("192.168.0.1", "10.10.0.1"), 5);
    st.update_session(&flow("192.168.0.1", "10.10.0.1"));
    st.try_update_session_timeout_at("192.168.0.1-10.10.0.1-443".to_string(), 10, 5);
    st.try_update_session_timeout("192.168.0.1-10.10.0.1-443".to_string(), 10);
    assert_eq!(st.len(), 0);
    assert!(!st.is_tracked_session(&flow("192.168.0.1", "10.10.0.1")));
}

#[test]
fn timeout_is_updated_by_key() {
    let mut st = SessionTracker::new();
    st.insert_session_at(details("192.168.0.1", "10.10.0.1", 10), 0);
    st.try_update_session_timeout_at("192.168.0.1-10.10.0.1-443".to_string(), 100, 7);
    assert_eq!(st.drop_stale_sessions_at(106), 0);
    st.try_update_session_timeout_at("192.168.0.1-10.10.0.1-443".to_string(), 1, 8);
    assert_eq!(st.drop_stale_sessions_at(106), 0);
    assert_eq!(st.drop_stale_sessions_at(107), 1);
}

#[test]
fn delete_takes_out_one_session() {
    let mut st = SessionTracker::new();
    st.insert_session_at(details("192.168.0.1", "10.10.0.1", 10), 0);
    st.insert_session_at(details("192.168.0.1", "10.10.0.2", 10), 0);
    st.insert_session_at(details("192.168.0.1", "10.10.0.3", 10), 0);
    st._delete_session(details("192.168.0.1", "10.10.0.2", 999));
    assert_eq!(st.len(), 2);
    assert!(st.is_tracked_session(&flow("192.168.0.1", "10.10.0.1")));
    assert!(!st.is_tracked_session(&flow("192.168.0.1", "10.10.0.2")));
    assert!(st.is_tracked_session(&flow("192.168.0.1", "10.10.0.3")));
    // deleting what is not there changes nothing
    st._delete_session(details("192.168.0.1", "10.10.0.2", 999));
    st._delete_session(details("1.1.1.1", "2.2.2.2", 999));
    assert_eq!(st.len(), 2);
    // what is left is still swept
    assert_eq!(st.drop_stale_sessions_at(10), 2);
    // and a deleted session can be registered again
    st.insert_session_at(details("192.168.0.1", "10.10.0.2", 10), 0);
    assert_eq!(st.len(), 1);
    assert!(st.is_tracked_session(&flow("192.168.0.1", "10.10.0.2")));
}

#[test]
fn many_sessions_are_kept_and_swept() {
    let mut st = SessionTracker::new();
    for i in 0..200u64 {
        let phantom = format!("10.0.{}.{}", i / 10, i % 10);
        st.insert_session_at(details("192.168.0.1", &phantom, i + 1), 0);
    }
    assert_eq!(st.len(), 200);
    assert_eq!(st.drop_stale_sessions_at(50), 50);
    assert_eq!(st.len(), 150);
    assert!(!st.is_tracked_session(&flow("192.168.0.1", "10.0.4.9")));
    assert!(st.is_tracked_session(&flow("192.168.0.1", "10.0.5.0")));
    assert_eq!(st.drop_stale_sessions_at(50), 0);
    assert_eq!(st.drop_stale_sessions_at(200), 150);
    assert_eq!(st.len(), 0);
}

#[test]
fn session_of_one_nanosecond_is_swept_on_the_clock() {
    let mut st = SessionTracker::new();
    st.insert_session(details("172.128.0.2", "8.0.0.1", 1));
    st.add_session(details("192.168.0.1", "10.10.0.1", 5 * S2NS));
    assert_eq!(st.len(), 2);
    wait(time::Duration::from_millis(5));
    assert_eq!(st.drop_stale_sessions(), 1);
    assert_eq!(st.len(), 1);
    assert!(!st.is_tracked_session(&flow("172.128.0.2", "8.0.0.1")));
    assert!(st.is_tracked_session(&flow("192.168.0.1", "10.10.0.1")));
    assert_eq!(st.drop_stale_sessions(), 0);
}

#[test]
fn second_registration_keeps_a_session_alive_on_the_clock() {
    let mut st = SessionTracker::new();
    st.insert_session(details("7.0.0.2", "8.8.8.8", 1));
    st.insert_session(details("7.0.0.2", "8.8.8.8", 5 * S2NS));
    wait(time::Duration::from_millis(5));
    assert_eq!(st.drop_stale_sessions(), 0);
    assert!(st.is_tracked_session(&flow("7.0.0.2", "8.8.8.8")));
    assert_eq!(st.len(), 1);
}

#[test]
fn traffic_keeps_a_session_alive_on_the_clock() {
    let mut st = SessionTracker::new();
    st.insert_session(details("7.0.0.2", "8.8.8.8", 1));
    st.update_session(&flow("7.0.0.2", "8.8.8.8"));
    wait(time::Duration::from_millis(5));
    assert_eq!(st.drop_stale_sessions(), 0);
    assert_eq!(st.len(), 1);
}

#[test]
fn clock_moves_on() {
    // a session of one second is there at once and gone a little later
    let mut st = SessionTracker::new();
    st.insert_session(details("7.0.0.2", "8.8.8.8", S2NS));
    assert_eq!(st.drop_stale_sessions(), 0);
    wait(time::Duration::from_millis(1200));
    assert_eq!(st.drop_stale_sessions(), 1);
}

#[test]
fn session_lasts_through_what_else_happens() {
    let mut st = SessionTracker::new();
    st.insert_session_at(details("192.168.0.1", "10.10.0.1", 1000), 0);
    // other sessions come and go, sweeps run before the expiry, the same
    // key is registered again for a shorter time
    st.insert_session_at(details("192.168.0.1", "10.10.0.2", 10), 5);
    assert_eq!(st.drop_stale_sessions_at(20), 1);
    st.insert_session_at(details("192.168.0.1", "10.10.0.1", 10), 30);
    st.update_session_at(&flow("192.168.0.9", "10.10.0.9"), 40);
    st._delete_session(details("192.168.0.1", "10.10.0.3", 1));
    assert_eq!(st.drop_stale_sessions_at(999), 0);
    assert!(st.is_tracked_session(&flow("192.168.0.1", "10.10.0.1")));
    // and once it is swept it stays away until it is registered again
    assert_eq!(st.drop_stale_sessions_at(1000), 1);
    st.update_session_at(&flow("192.168.0.1", "10.10.0.1"), 1001);
    st.try_update_session_timeout_at("192.168.0.1-10.10.0.1-443".to_string(), 50, 1001);
    assert!(!st.is_tracked_session(&flow("192.168.0.1", "10.10.0.1")));
    st.insert_session_at(details("192.168.0.1", "10.10.0.1", 1), 1002);
    assert!(st.is_tracked_session(&flow("192.168.0.1", "10.10.0.1")));
}

#[test]
fn registrations_of_two_keys_commute() {
    let a = details("192.168.0.1", "10.10.0.1", 10);
    let b = details("192.168.0.1", "10.10.0.2", 20);
    let mut first = SessionTracker::new();
    first.insert_session_at(a, 0);
    first.insert_session_at(b, 0);
    let mut second = SessionTracker::new();
    second.insert_session_at(b, 0);
    second.insert_session_at(a, 0);
    for st in [&mut first, &mut second] {
        assert_eq!(st.len(), 2);
        assert_eq!(st.drop_stale_sessions_at(9), 0);
        assert_eq!(st.drop_stale_sessions_at(10), 1);
        assert!(st.is_tracked_session(&flow("192.168.0.1", "10.10.0.2")));
        assert_eq!(st.drop_stale_sessions_at(20), 1);
    }
}
