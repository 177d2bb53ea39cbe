use session_tracker::addr::{IpAddr, Ipv4Addr, Ipv6Addr};

fn v4(a: u8, b: u8, c: u8, d: u8) -> IpAddr {
    IpAddr::V4(Ipv4Addr { octets: [a, b, c, d] })
}

fn v6(segments: [u16; 8]) -> IpAddr {
    IpAddr::V6(Ipv6Addr { segments })
}

#[test]
fn dotted_text_is_read() {
    assert_eq!(IpAddr::parse("0.0.0.0"), Some(v4(0, 0, 0, 0)));
    assert_eq!(IpAddr::parse("255.255.255.255"), Some(v4(255, 255, 255, 255)));
    assert_eq!(IpAddr::parse("192.168.0.1"), Some(v4(192, 168, 0, 1)));
    assert_eq!(IpAddr::parse("10.10.0.1"), Some(v4(10, 10, 0, 1)));
    assert_eq!(IpAddr::parse("8.8.8.8"), Some(v4(8, 8, 8, 8)));
    assert_eq!(IpAddr::parse("1.20.199.200"), Some(v4(1, 20, 199, 200)));
}

#[test]
fn bad_dotted_text_is_refused() {
    let bad = [
        "", " ", "1", "1.2", "1.2.3", "192.1", "1.2.3.4.5", "256.1.1.1", "1.2.3.256", "1.2.3.1000",
        "01.2.3.4", "1.2.3.00", "1.2.3.04", "1.2.3.4 ", " 1.2.3.4", "1..2.3", ".1.2.3", "1.2.3.",
        "1.2.3.4.", "a.b.c.d", "1.2.3.-4", "1.2.3.+4", "1.2.3.0x4", "1,2,3,4", "1.2.3.４",
        "\u{661}.2.3.4",
    ];
    for text in &bad {
        assert_eq!(IpAddr::parse(text), None, "{:?} was read as an address", text);
    }
}

#[test]
fn colon_text_is_read() {
    let good = [
        ("::", [0, 0, 0, 0, 0, 0, 0, 0]),
        ("::1", [0, 0, 0, 0, 0, 0, 0, 1]),
        ("1::", [1, 0, 0, 0, 0, 0, 0, 0]),
        ("2001::1234", [0x2001, 0, 0, 0, 0, 0, 0, 0x1234]),
        ("2801::1234", [0x2801, 0, 0, 0, 0, 0, 0, 0x1234]),
        ("2345::6789", [0x2345, 0, 0, 0, 0, 0, 0, 0x6789]),
        ("2601::123:abcd", [0x2601, 0, 0, 0, 0, 0, 0x123, 0xabcd]),
        ("1:2:3:4:5:6:7:8", [1, 2, 3, 4, 5, 6, 7, 8]),
        ("1:2:3:4:5:6:7::", [1, 2, 3, 4, 5, 6, 7, 0]),
        ("::2:3:4:5:6:7:8", [0, 2, 3, 4, 5, 6, 7, 8]),
        ("1::3:4:5:6:7:8", [1, 0, 3, 4, 5, 6, 7, 8]),
        ("1:2:3::6:7:8", [1, 2, 3, 0, 0, 6, 7, 8]),
        ("ABCD:Ef01::", [0xabcd, 0xef01, 0, 0, 0, 0, 0, 0]),
        ("0001:0020:0300:4000::", [1, 0x20, 0x300, 0x4000, 0, 0, 0, 0]),
        ("0:0:0:0:0:0:0:0", [0, 0, 0, 0, 0, 0, 0, 0]),
        ("ffff:ffff:ffff:ffff:ffff:ffff:ffff:ffff", [0xffff; 8]),
        ("::ffff:1.2.3.4", [0, 0, 0, 0, 0, 0xffff, 0x0102, 0x0304]),
        ("::1.2.3.4", [0, 0, 0, 0, 0, 0, 0x0102, 0x0304]),
        ("::255.255.255.255", [0, 0, 0, 0, 0, 0, 0xffff, 0xffff]),
        ("1:2:3:4:5:6:1.2.3.4", [1, 2, 3, 4, 5, 6, 0x0102, 0x0304]),
        ("1:2:3:4:5::1.2.3.4", [1, 2, 3, 4, 5, 0, 0x0102, 0x0304]),
        ("64:ff9b::192.0.2.33", [0x64, 0xff9b, 0, 0, 0, 0, 0xc000, 0x0221]),
    ];
    for (text, segments) in &good {
        assert_eq!(IpAddr::parse(text), Some(v6(*segments)), "{:?}", text);
    }
}

#[test]
fn bad_colon_text_is_refused() {
    let bad = [
        ":", ":::", "::::", "1:2:3:4:5:6:7", "1:2:3:4:5:6:7:8:9", "1::2::3", "1:::2", "12345::",
        "::12345", "g::", "::g", "1:2:3:4:5:6:7:8::", "::1:2:3:4:5:6:7:8", "1:2:3:4::5:6:7:8",
        "1.2.3.4::", "1.2.3.4:5::", "::1.2.3.4:5", "1:2:3:4:5:6:7:1.2.3.4", "1:2:3:4:5:6::1.2.3.4",
        "1:2:3:4:5:1.2.3.4", ":1", "1:", ":1::", "::1:", "::1.2.3", "::1.2.3.256", "::01.2.3.4",
        "2001::1234 ", " 2001::1234", "abcd::123::wrong", "::ffff:1.2.3.4.5", "1:2:3:4:5:6:7:8:",
        ":1:2:3:4:5:6:7:8", "[::1]", "::1%eth0", "::-1", "0x1::",
    ];
    for text in &bad {
        assert_eq!(IpAddr::parse(text), None, "{:?} was read as an address", text);
    }
}

#[test]
fn dotted_text_is_written() {
    assert_eq!(v4(0, 0, 0, 0).to_string(), "0.0.0.0");
    assert_eq!(v4(255, 255, 255, 255).to_string(), "255.255.255.255");
    assert_eq!(v4(10, 10, 0, 1).to_string(), "10.10.0.1");
    assert_eq!(v4(192, 0, 0, 127).to_string(), "192.0.0.127");
    assert_eq!(v4(1, 20, 199, 200).to_string(), "1.20.199.200");
}

#[test]
fn colon_text_is_written() {
    let cases = [
        ([0, 0, 0, 0, 0, 0, 0, 0], "::"),
        ([0, 0, 0, 0, 0, 0, 0, 1], "::1"),
        ([1, 0, 0, 0, 0, 0, 0, 0], "1::"),
        ([0x2001, 0, 0, 0, 0, 0, 0, 0x1234], "2001::1234"),
        ([0x2601, 0, 0, 0, 0, 0, 0x123, 0xabcd], "2601::123:abcd"),
        ([1, 2, 3, 4, 5, 6, 7, 8], "1:2:3:4:5:6:7:8"),
        // a single zero group is written out
        ([1, 0, 3, 4, 5, 6, 7, 8], "1:0:3:4:5:6:7:8"),
        ([1, 0, 2, 0, 3, 0, 4, 0], "1:0:2:0:3:0:4:0"),
        // the longest run is left out
        ([1, 0, 0, 2, 0, 0, 0, 3], "1:0:0:2::3"),
        ([0, 0, 1, 0, 0, 0, 0, 0], "0:0:1::"),
        // of two runs of one length the left one is left out
        ([1, 0, 0, 2, 3, 0, 0, 4], "1::2:3:0:0:4"),
        ([0, 0, 1, 2, 3, 4, 0, 0], "::1:2:3:4:0:0"),
        ([1, 2, 3, 4, 5, 6, 0, 0], "1:2:3:4:5:6::"),
        ([0, 0, 0, 0, 0, 0xffff, 0xc0a8, 0x0001], "::ffff:192.168.0.1"),
        ([0, 0, 0, 0, 0, 0xffff, 0, 0], "::ffff:0.0.0.0"),
        ([0, 0, 0, 0, 0, 0, 0x0102, 0x0304], "::102:304"),
        ([0, 0, 0, 0, 1, 0xffff, 0x0102, 0x0304], "::1:ffff:102:304"),
        (
            [0xabcd, 0xef01, 0x2345, 0x6789, 0xa, 0xb0, 0xc00, 0xd000],
            "abcd:ef01:2345:6789:a:b0:c00:d000",
        ),
        ([0xffff; 8], "ffff:ffff:ffff:ffff:ffff:ffff:ffff:ffff"),
    ];
    for (segments, text) in &cases {
        assert_eq!(v6(*segments).to_string(), *text);
    }
}

#[test]
fn what_is_written_is_read_back() {
    let addrs = [
        v4(0, 0, 0, 0),
        v4(9, 10, 99, 100),
        v4(255, 255, 255, 255),
        v6([0; 8]),
        v6([0, 0, 0, 0, 0, 0, 0, 1]),
        v6([1, 0, 0, 2, 3, 0, 0, 4]),
        v6([1, 0, 0, 2, 0, 0, 0, 3]),
        v6([0, 0, 0, 0, 0, 0xffff, 0xc0a8, 0x0001]),
        v6([0, 0, 0, 0, 0, 0, 0x0102, 0x0304]),
        v6([0xabcd, 0xef01, 0x2345, 0x6789, 0xa, 0xb0, 0xc00, 0xd000]),
        v6([0xffff; 8]),
    ];
    for a in &addrs {
        assert_eq!(IpAddr::parse(&a.to_string()), Some(*a));
    }
}

#[test]
fn what_is_read_is_written_in_its_shortest_form() {
    let cases = [
        ("2001:0:0:0:0:0:0:1234", "2001::1234"),
        ("2001:0000:0000:0000:0000:0000:0000:1234", "2001::1234"),
        ("2001:DB8::A", "2001:db8::a"),
        ("0:0:0:0:0:0:0:1", "::1"),
        ("::0:1", "::1"),
        ("::ffff:c0a8:1", "::ffff:192.168.0.1"),
        ("1:0:0:2:0:0:0:3", "1:0:0:2::3"),
    ];
    for (input, output) in &cases {
        assert_eq!(IpAddr::parse(input).unwrap().to_string(), *output);
    }
}

#[test]
fn versions_are_told_apart() {
    assert!(v4(1, 2, 3, 4).is_ipv4());
    assert!(!v4(1, 2, 3, 4).is_ipv6());
    assert!(v6([0; 8]).is_ipv6());
    assert!(!v6([0; 8]).is_ipv4());
    assert!(IpAddr::parse("::ffff:1.2.3.4").unwrap().is_ipv6());
}
