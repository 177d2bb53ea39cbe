use session_tracker::addr::IpAddr;
use session_tracker::details::{FlowNoSrcPort, SessionError, StationToDetector};
use session_tracker::ingest::{examine, IngestAction, IngestEvent};
use session_tracker::tracker::SessionTracker;

fn message(client: &str, phantom: &str, port: u32, timeout: u64) -> IngestEvent {
    let mut m = StationToDetector::new();
    m.set_client_ip(client.to_string());
    m.set_phantom_ip(phantom.to_string());
    m.set_phantom_port(port);
    m.set_timeout_ns(timeout);
    IngestEvent::Registration(m)
}

fn flow(client: &str, phantom: &str, port: u16) -> FlowNoSrcPort {
    FlowNoSrcPort {
        src_ip: IpAddr::parse(client).unwrap(),
        dst_ip: IpAddr::parse(phantom).unwrap(),
        dst_port: port,
    }
}

#[test]
fn registration_is_applied() {
    let mut st = SessionTracker::new();
    match st.ingest_at(&message("192.168.0.1", "10.10.0.1", 443, 50), 100) {
        IngestAction::Apply(d) => {
            assert_eq!(d.get_key(), "192.168.0.1-10.10.0.1-443");
            assert_eq!(d.timeout, 50);
        }
        other => panic!("{:?}", other),
    }
    assert_eq!(st.len(), 1);
    assert!(st.is_tracked_session(&flow("192.168.0.1", "10.10.0.1", 443)));
    assert_eq!(st.drop_stale_sessions_at(149), 0);
    assert_eq!(st.drop_stale_sessions_at(150), 1);
}

#[test]
fn what_holds_no_registration_is_skipped() {
    let mut st = SessionTracker::new();
    st.ingest_at(&message("192.168.0.1", "10.10.0.1", 443, 50), 100);
    for event in [
        IngestEvent::ReceiveFailed,
        IngestEvent::PayloadUnreadable,
        IngestEvent::DecodeFailed,
    ] {
        assert!(matches!(st.ingest_at(&event, 100), IngestAction::Skip));
        assert!(matches!(st.ingest(&event), IngestAction::Skip));
    }
    assert_eq!(st.len(), 1);
    assert_eq!(st.drop_stale_sessions_at(149), 0);
}

#[test]
fn bad_registration_is_turned_down() {
    let mut st = SessionTracker::new();
    st.ingest_at(&message("192.168.0.1", "10.10.0.1", 443, 50), 100);
    let cases = [
        ("2001::1234", "10.10.0.1", SessionError::MixedV4V6Error),
        ("192.168.0.1", "", SessionError::InvalidPhantom),
        ("192.1", "10.0.0.1", SessionError::InvalidClient),
        ("", "10.10.0.1", SessionError::InvalidClient),
        ("2001::1234", "abcd::123::wrong", SessionError::InvalidPhantom),
        ("\u{0}", "\u{10ffff}", SessionError::InvalidPhantom),
    ];
    for (client, phantom, error) in &cases {
        match st.ingest_at(&message(client, phantom, 443, u64::MAX), 100) {
            IngestAction::Reject(e) => assert_eq!(e, *error),
            other => panic!("{:?}", other),
        }
        match st.ingest(&message(client, phantom, 443, u64::MAX)) {
            IngestAction::Reject(e) => assert_eq!(e, *error),
            other => panic!("{:?}", other),
        }
    }
    assert_eq!(st.len(), 1);
    assert_eq!(st.drop_stale_sessions_at(150), 1);
}

#[test]
fn registrations_are_merged() {
    let mut st = SessionTracker::new();
    let tuples = [
        ("172.128.0.2", "8.0.0.1", 1),
        ("192.168.0.1", "10.10.0.1", 5_000_000_000),
        ("192.168.0.1", "192.0.0.127", 5_000_000_000),
        ("", "2345::6789", 5_000_000_000),
        ("2601::123:abcd", "2001::1234", 5_000_000_000),
        ("::1", "2001::1234", 1_000_000_000),
        ("7.0.0.2", "8.8.8.8", 1),
        ("7.0.0.2", "8.8.8.8", 5_000_000_000),
    ];
    for (client, phantom, timeout) in &tuples {
        let outcome = st.ingest_at(&message(client, phantom, 0, *timeout), 0);
        assert!(matches!(outcome, IngestAction::Apply(_)));
    }
    assert_eq!(st.len(), 6);
    assert_eq!(st.drop_stale_sessions_at(3_000_000_000), 1);
    assert_eq!(st.drop_stale_sessions_at(6_000_000_000), 5);
}

#[test]
fn registration_is_applied_on_the_clock() {
    let mut st = SessionTracker::new();
    let outcome = st.ingest(&message("", "2001::1234", 443, 5_000_000_000));
    assert!(matches!(outcome, IngestAction::Apply(_)));
    assert!(st.is_tracked_session(&flow("::1", "2001::1234", 443)));
    assert!(st.is_tracked_session(&flow("10.0.0.1", "2001::1234", 443)));
    assert!(!st.is_tracked_session(&flow("::1", "2001::1234", 80)));
    assert_eq!(st.drop_stale_sessions(), 0);
}

#[test]
fn huge_timeout_does_no_harm() {
    let mut st = SessionTracker::new();
    st.ingest(&message("", "2001::1234", u32::MAX, u64::MAX));
    assert_eq!(st.len(), 1);
    assert_eq!(st.drop_stale_sessions(), 0);
    assert_eq!(st.drop_stale_sessions_at(u64::MAX - 1), 0);
}

#[test]
fn examining_leaves_the_store_alone() {
    let mut st = SessionTracker::new();
    let action = examine(&message("192.168.0.1", "10.10.0.1", 443, 50));
    assert_eq!(st.len(), 0);
    st.apply_at(&action, 100);
    assert_eq!(st.len(), 1);
    assert_eq!(st.drop_stale_sessions_at(149), 0);
    assert_eq!(st.drop_stale_sessions_at(150), 1);
    st.apply_at(&examine(&IngestEvent::DecodeFailed), 100);
    st.apply_at(&examine(&message("", "10.10.0.1", 443, 50)), 100);
    st.apply(&examine(&IngestEvent::ReceiveFailed));
    assert_eq!(st.len(), 0);
    st.apply(&action);
    assert!(st.is_tracked_session(&flow("192.168.0.1", "10.10.0.1", 443)));
}
