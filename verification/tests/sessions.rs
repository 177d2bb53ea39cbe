use session_tracker::addr::IpAddr;
use session_tracker::details::{
    FlowNoSrcPort, SessionDetails, SessionError, SessionResult, StationToDetector,
};
use session_tracker::tracker::{SessionTracker, DEFAULT_PHANTOM_PORT, S2NS};
use std::time;

/// Lets `dur` pass on the clock.
fn pause(dur: time::Duration) {
    let start = time::Instant::now();
    while start.elapsed() < dur {
        std::hint::spin_loop();
    }
}

#[test]
fn test_session_details_from() {
    let test_tuples = [
        // (client_ip, phantom_ip, timeout)
        ("192.168.0.1", "10.10.0.1", 100000),
        ("2601::123:abcd", "2001::1234", 100000),
        ("", "2001::1234", 100000),
        // client registering with v4 will also create registrations for v6 just in-case
        ("192.168.0.1", "2801::1234", 100000),
    ];
    let test_tuples_bad = [
        // Mixed ipv4/ipv6 phantom/client
        ("2001::1234", "10.10.0.1", 100000, SessionError::MixedV4V6Error),
        // no phantom provided
        ("192.168.0.1", "", 100000, SessionError::InvalidPhantom),
        ("2601::123:abcd", "", 100000, SessionError::InvalidPhantom),
        // malformed addresses
        ("192.1", "10.0.0.1", 100000, SessionError::InvalidClient),
        ("2001::1234", "abcd::123::wrong", 100000, SessionError::InvalidPhantom),
        // No client provided in ipv4
        ("", "10.10.0.1", 100000, SessionError::InvalidClient),
    ];

    for entry in &test_tuples {
        let mut s2d = StationToDetector::new();
        s2d.set_client_ip(entry.0.to_string());
        s2d.set_phantom_ip(entry.1.to_string());
        s2d.set_timeout_ns(entry.2);

        let sd = match SessionResult::from(&s2d) {
            Ok(sd) => sd,
            Err(e) => {
                panic!(
                    "Failed to parse StationToDetector: {}, {}",
                    e.to_string(),
                    s2d.get_client_ip()
                );
            }
        };

        assert_eq!(entry.1, sd.phantom_ip.to_string());
        assert_eq!(entry.2, sd.timeout)
    }

    for entry in &test_tuples_bad {
        let mut s2d = StationToDetector::new();
        s2d.set_client_ip(entry.0.to_string());
        s2d.set_phantom_ip(entry.1.to_string());
        s2d.set_timeout_ns(entry.2);

        match SessionResult::from(&s2d) {
            Ok(_) => {
                panic!("Should have failed");
            }
            Err(e) => {
                assert_eq!(format!("{}", e.to_string()), format!("{}", entry.3.to_string()));
            }
        };
    }
}

#[test]
fn test_session_tracker_basics() {
    let mut st = SessionTracker::new();

    let test_tuples = [
        // (client_ip, phantom_ip, phantom_port, timeout)
        ("192.168.0.1", "10.10.0.1", 443, 100000),
        ("192.168.0.1", "192.0.0.127", 443, 100000), // duplicate client_addr
        ("2601::123:abcd", "2001::1234", 443, 100000),
        ("", "2001::1234", 443, 100000), // duplicate phantom Addr
        ("172.128.0.2", "8.0.0.1", 443, 1), // timeout immediately
        // client registering with v4 will also create registrations for v6 just in-case
        ("192.168.0.1", "2801::1234", 100000, 443),
    ];

    for entry in &test_tuples {
        let s1 = SessionDetails::new(entry.0, entry.1, entry.2, entry.3).unwrap();
        st.insert_session(s1);
    }

    if st.len() != 5 {
        panic!("Either len is not working or insert is broken")
    };

    for entry in &test_tuples {
        let src = match entry.0 {
            "" => IpAddr::parse("::1").unwrap(),
            _ => IpAddr::parse(entry.0).unwrap(),
        };
        let f = &FlowNoSrcPort {
            src_ip: src,
            dst_ip: IpAddr::parse(entry.1).unwrap(),
            dst_port: DEFAULT_PHANTOM_PORT,
        };
        // The key holds the port, so a flow is tracked where it comes at the
        // port that was registered.
        if st.is_tracked_session(f) != (entry.2 == u32::from(DEFAULT_PHANTOM_PORT)) {
            panic!("Session should be tracked")
        }
    }

    let tt = test_tuples[0];
    let sd = SessionDetails::new(tt.0, tt.1, tt.2, tt.3).unwrap();
    st._delete_session(sd);

    if st.len() != 4 {
        panic!("Either len is not working or delete is broken")
    };
}

#[test]
fn test_session_tracker_timeouts() {
    let mut st = SessionTracker::new();

    let test_tuples = [
        // (client_ip, phantom_ip, phantom_port, timeout)
        ("172.128.0.2", "8.0.0.1", 443, 1, false), // timeout immediately
        ("192.168.0.1", "10.10.0.1", 443, 5 * S2NS, true),
        ("192.168.0.1", "192.0.0.127", 443, 5 * S2NS, true),
        // client registering with v4 will also create registrations for v6 just in-case
        ("192.168.0.1", "2801::1234", 443, 5 * S2NS, true),
        // duplicate with shorter timeout should not drop
        ("2601::123:abcd", "2001::1234", 443, 5 * S2NS, true),
        ("::1", "2001::1234", 443, 1 * S2NS, true),
        // duplicate with long timeout should prevent drop
        ("7.0.0.2", "8.8.8.8", 443, 1, true),
        ("7.0.0.2", "8.8.8.8", 443, 5 * S2NS, true),
    ];

    for entry in &test_tuples {
        let s1 = SessionDetails::new(entry.0, entry.1, entry.2, entry.3).unwrap();
        st.insert_session(s1);
    }

    let dur = time::Duration::new(3, 0);
    pause(dur);

    assert_eq!(st.drop_stale_sessions(), 1);

    for entry in &test_tuples {
        let f = &FlowNoSrcPort {
            src_ip: IpAddr::parse(entry.0).unwrap(),
            dst_ip: IpAddr::parse(entry.1).unwrap(),
            dst_port: DEFAULT_PHANTOM_PORT,
        };
        assert_eq!(st.is_tracked_session(f), entry.4)
    }

    pause(dur);

    assert_eq!(st.drop_stale_sessions(), 5);
}
