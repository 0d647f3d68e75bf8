use oui_lookup::{
    classify, eui64_to_mac, format_mac48, format_mac48_bare, format_mac48_cisco,
    format_mac48_hyphen, format_mac48_lower, format_oui, format_oui_lower, is_broadcast,
    is_ipv4_multicast, is_ipv6_multicast, is_locally_administered, is_multicast, is_unicast,
    is_vrrp, is_zero, octets_to_oui, oui_to_octets, parse_mac48, parse_oui, to_eui64, MacKind,
    ParseMacError,
};

#[test]
fn parses_all_common_formats() {
    let cases = [
        "00:11:22:33:44:55",
        "00-11-22-33-44-55",
        "0011.2233.4455",
        "001122334455",
        "00 11 22 33 44 55",
        "00:11:22",
        "001122",
    ];
    for c in cases {
        assert_eq!(parse_oui(c).unwrap(), 0x001122, "input: {c}");
    }
}

#[test]
fn is_case_insensitive() {
    assert_eq!(parse_oui("aa:bB:Cc").unwrap(), 0xAABBCC);
}

#[test]
fn rejects_short_input() {
    assert_eq!(parse_oui("00:11").unwrap_err(), ParseMacError::TooShort);
    assert_eq!(parse_oui("").unwrap_err(), ParseMacError::TooShort);
}

#[test]
fn rejects_too_long() {
    assert_eq!(
        parse_oui("00112233445566").unwrap_err(),
        ParseMacError::TooLong
    );
}

#[test]
fn rejects_invalid_char() {
    assert_eq!(
        parse_oui("00:11:2g").unwrap_err(),
        ParseMacError::InvalidChar('g')
    );
}

#[test]
fn ignores_octets_past_the_oui() {
    // The 4th-6th octets must not change the parsed OUI.
    assert_eq!(parse_oui("00:11:22:ff:ee:dd").unwrap(), 0x001122);
}

#[test]
fn formats_canonically() {
    assert_eq!(format_oui(0x001122), "00:11:22");
    assert_eq!(format_oui(0xAABBCC), "AA:BB:CC");
}

#[test]
fn parses_full_mac48() {
    assert_eq!(
        parse_mac48("00:11:22:33:44:55").unwrap(),
        [0x00, 0x11, 0x22, 0x33, 0x44, 0x55]
    );
    assert_eq!(
        parse_mac48("aabbccddeeff").unwrap(),
        [0xAA, 0xBB, 0xCC, 0xDD, 0xEE, 0xFF]
    );
}

#[test]
fn mac48_requires_all_six_octets() {
    assert_eq!(
        parse_mac48("00:11:22").unwrap_err(),
        ParseMacError::TooShort
    );
}

#[test]
fn detects_multicast_and_local_bits() {
    // 01:00:5e:... is the IPv4 multicast range — LSB of first octet set.
    let mc = parse_mac48("01:00:5e:00:00:01").unwrap();
    assert!(is_multicast(mc));
    assert!(!is_locally_administered(mc));

    // 02:... has the locally-administered bit set, unicast.
    let local = parse_mac48("02:00:00:00:00:01").unwrap();
    assert!(is_locally_administered(local));
    assert!(!is_multicast(local));

    // A normal IEEE-assigned unicast address: both bits clear.
    let global = parse_mac48("a4:83:e7:00:00:01").unwrap();
    assert!(!is_multicast(global));
    assert!(!is_locally_administered(global));
}

#[test]
fn converts_to_eui64() {
    // Flip the U/L bit, insert FF:FE.
    let mac = parse_mac48("00:11:22:33:44:55").unwrap();
    assert_eq!(
        to_eui64(mac),
        [0x02, 0x11, 0x22, 0xFF, 0xFE, 0x33, 0x44, 0x55]
    );
}

#[test]
fn classifies_addresses() {
    assert_eq!(
        classify(parse_mac48("ff:ff:ff:ff:ff:ff").unwrap()),
        MacKind::Broadcast
    );
    assert_eq!(
        classify(parse_mac48("01:00:5e:00:00:01").unwrap()),
        MacKind::Multicast
    );
    assert_eq!(
        classify(parse_mac48("02:00:00:00:00:01").unwrap()),
        MacKind::LocalUnicast
    );
    assert_eq!(
        classify(parse_mac48("a4:83:e7:00:00:01").unwrap()),
        MacKind::GlobalUnicast
    );
}

#[test]
fn detects_broadcast() {
    assert!(is_broadcast(parse_mac48("ff:ff:ff:ff:ff:ff").unwrap()));
    assert!(!is_broadcast(parse_mac48("ff:ff:ff:00:00:00").unwrap()));
}

#[test]
fn unicast_is_complement_of_multicast() {
    let g = parse_mac48("a4:83:e7:00:00:01").unwrap();
    assert!(is_unicast(g) && !is_multicast(g));
    let m = parse_mac48("01:00:5e:00:00:01").unwrap();
    assert!(!is_unicast(m) && is_multicast(m));
}

#[test]
fn mackind_predicates() {
    assert!(MacKind::GlobalUnicast.is_unicast());
    assert!(MacKind::GlobalUnicast.is_global());
    assert!(!MacKind::LocalUnicast.is_global());
    assert!(MacKind::LocalUnicast.is_unicast());
    assert!(MacKind::Broadcast.is_group());
    assert!(MacKind::Multicast.is_group());
    assert!(!MacKind::GlobalUnicast.is_group());
}

#[test]
fn detects_zero_address() {
    assert!(is_zero(parse_mac48("00:00:00:00:00:00").unwrap()));
    assert!(!is_zero(parse_mac48("00:00:00:00:00:01").unwrap()));
}

#[test]
fn eui64_round_trips_mac() {
    let mac = parse_mac48("00:11:22:33:44:55").unwrap();
    let eui = to_eui64(mac);
    assert_eq!(eui64_to_mac(eui), Some(mac));
    // Not a MAC-derived EUI-64 (no FF:FE marker).
    let mut bad = eui;
    bad[3] = 0x00;
    assert_eq!(eui64_to_mac(bad), None);
}

#[test]
fn alternate_formatters() {
    let m = parse_mac48("00:11:22:33:44:55").unwrap();
    assert_eq!(format_mac48_hyphen(m), "00-11-22-33-44-55");
    assert_eq!(format_mac48_cisco(m), "0011.2233.4455");
    assert_eq!(format_mac48_bare(m), "001122334455");
    // All formats must re-parse to the same octets.
    for s in [
        format_mac48(m),
        format_mac48_hyphen(m),
        format_mac48_cisco(m),
        format_mac48_bare(m),
    ] {
        assert_eq!(parse_mac48(&s).unwrap(), m);
    }
}

#[test]
fn lowercase_formatters() {
    let m = parse_mac48("AA:BB:CC:DD:EE:FF").unwrap();
    assert_eq!(format_mac48_lower(m), "aa:bb:cc:dd:ee:ff");
    assert_eq!(format_oui_lower(0xAABBCC), "aa:bb:cc");
}

#[test]
fn mackind_as_str_matches_display() {
    for k in [
        MacKind::Broadcast,
        MacKind::Multicast,
        MacKind::LocalUnicast,
        MacKind::GlobalUnicast,
    ] {
        assert_eq!(k.as_str(), k.to_text());
    }
}

#[test]
fn ipv4_multicast_mac_range() {
    // L2 mapping for 224.0.0.1.
    let m = parse_mac48("01:00:5e:00:00:01").unwrap();
    assert!(is_ipv4_multicast(m));
    // Just past the upper bound of the RFC 1112 block.
    let edge = parse_mac48("01:00:5e:80:00:00").unwrap();
    assert!(!is_ipv4_multicast(edge));
    // Unicast address with a similar prefix is not IPv4 multicast.
    let u = parse_mac48("a4:83:e7:00:00:01").unwrap();
    assert!(!is_ipv4_multicast(u));
}

#[test]
fn ipv6_multicast_mac_range() {
    // L2 mapping for ff02::1.
    let m = parse_mac48("33:33:00:00:00:01").unwrap();
    assert!(is_ipv6_multicast(m));
    assert!(is_multicast(m));
    // Same-first-byte but not 33:33 — not IPv6 multicast.
    let m2 = parse_mac48("33:00:00:00:00:01").unwrap();
    assert!(!is_ipv6_multicast(m2));
}

#[test]
fn vrrp_range() {
    let v = parse_mac48("00:00:5e:00:01:01").unwrap();
    assert!(is_vrrp(v));
    // Same prefix, different sub-byte: not VRRP.
    let other = parse_mac48("00:00:5e:00:02:01").unwrap();
    assert!(!is_vrrp(other));
}

#[test]
fn oui_octet_conversions_are_inverse() {
    for oui in [0u32, 0x001122, 0xA483E7, 0xFFFFFF] {
        assert_eq!(octets_to_oui(oui_to_octets(oui)), oui);
    }
    // High byte is dropped.
    assert_eq!(oui_to_octets(0xFF_A483E7), oui_to_octets(0xA483E7));
}
