use traffic_monitor::network_utils::ipv4_to_u32;
use traffic_monitor::network_utils::parse_ipv4;
use traffic_monitor::network_utils::u32_to_dec;
use traffic_monitor::network_utils::u32_to_ipv4;

#[test]
fn should_convert_ip_correctly() {
    assert_eq!("10.0.0.28", u32_to_ipv4(469762058).to_string())
}

#[test]
fn octets_encode_to_u32() {
    assert_eq!(ipv4_to_u32(vec![10, 0, 0, 28]), 469762058);
    assert_eq!(ipv4_to_u32(vec![0, 0, 0, 0]), 0);
    assert_eq!(ipv4_to_u32(vec![255, 255, 255, 255]), u32::MAX);
    assert_eq!(ipv4_to_u32(vec![212, 25, 76, 101]), ipv4_to_u32(vec![212, 25, 76, 101, 9, 9]));
}

#[test]
fn u32_round_trips_through_octets() {
    for v in [0u32, 1, 469762058, 0x0100_007f, u32::MAX, 8080, 0x8000_0001] {
        let o = u32_to_ipv4(v);
        assert_eq!(ipv4_to_u32(vec![o.a, o.b, o.c, o.d]), v);
    }
}

#[test]
fn octets_round_trip_through_u32() {
    let v = ipv4_to_u32(vec![10, 0, 0, 28]);
    let o = u32_to_ipv4(v);
    assert_eq!((o.a, o.b, o.c, o.d), (10, 0, 0, 28));
}

#[test]
fn dotted_text_prints_first_octet_first() {
    assert_eq!(u32_to_ipv4(u32::MAX).to_string(), "255.255.255.255");
    assert_eq!(u32_to_ipv4(0).to_string(), "0.0.0.0");
    assert_eq!(u32_to_ipv4(ipv4_to_u32(vec![192, 168, 1, 7])).to_string(), "192.168.1.7");
}

#[test]
fn decimal_text_is_exact() {
    assert_eq!(u32_to_dec(0), "0");
    assert_eq!(u32_to_dec(7), "7");
    assert_eq!(u32_to_dec(10), "10");
    assert_eq!(u32_to_dec(255), "255");
    assert_eq!(u32_to_dec(u32::MAX), "4294967295");
}

#[test]
fn parse_accepts_well_formed_addresses() {
    assert_eq!(parse_ipv4("10.0.0.28"), Some(469762058));
    assert_eq!(parse_ipv4("0.0.0.0"), Some(0));
    assert_eq!(parse_ipv4("255.255.255.255"), Some(u32::MAX));
    assert_eq!(parse_ipv4("212.25.76.101"), Some(ipv4_to_u32(vec![212, 25, 76, 101])));
}

#[test]
fn parse_rejects_malformed_addresses() {
    assert_eq!(parse_ipv4(""), None);
    assert_eq!(parse_ipv4("10.0.0"), None);
    assert_eq!(parse_ipv4("10.0.0.28.1"), None);
    assert_eq!(parse_ipv4("256.0.0.1"), None);
    assert_eq!(parse_ipv4("01.2.3.4"), None);
    assert_eq!(parse_ipv4("1..2.3"), None);
    assert_eq!(parse_ipv4("a.b.c.d"), None);
    assert_eq!(parse_ipv4("1.2.3.4 "), None);
    assert_eq!(parse_ipv4("1234.1.1.1"), None);
}

#[test]
fn parse_round_trips_printed_addresses() {
    for v in [0u32, 469762058, u32::MAX, 0x0100_007f] {
        assert_eq!(parse_ipv4(&u32_to_ipv4(v).to_string()), Some(v));
    }
}
