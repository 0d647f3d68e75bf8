use oui_lookup::{
    entries, lookup, lookup_entry_octets, lookup_octets, lookup_octets_many, lookup_oui,
    lookup_vendor, lookup_vendor_many, lookup_vendor_octets, normalize_mac, normalize_mac_lower,
    parse_mac48, parse_oui, prefixes_for, try_lookup, vendors, Entry, Vendor, ENTRY_COUNT,
};

#[test]
fn unparseable_input_is_none_not_panic() {
    assert_eq!(lookup(""), None);
    assert_eq!(lookup("zzz"), None);
}

#[test]
fn try_lookup_distinguishes_errors() {
    assert!(try_lookup("garbage!").is_err());
    // FF:FF:FF parses fine but is not a registered OUI.
    assert_eq!(try_lookup("FF:FF:FF:00:00:00"), Ok(None));
}

#[test]
fn lookup_vendor_round_trips_prefix() {
    if let Some(v) = lookup_vendor("FF:FF:FF") {
        assert_eq!(v.prefix, "FF:FF:FF");
        let _ = v.name;
    }
}

#[test]
fn entry_count_exposed() {
    assert_eq!(ENTRY_COUNT, oui_lookup::db::ENTRY_COUNT);
}

#[test]
fn lookup_vendor_many_preserves_order_and_gaps() {
    let out = lookup_vendor_many(&["FF:FF:FF:00:00:00", "garbage", "FF:FF:FF"]);
    assert_eq!(out.len(), 3);
    // Unregistered and unparseable inputs both collapse to None.
    assert_eq!(out[0], None);
    assert_eq!(out[1], None);
    // A registered OUI (if present) round-trips its prefix.
    if let Some(v) = &out[2] {
        assert_eq!(v.prefix, "FF:FF:FF");
    }
}

#[test]
fn lookup_vendor_many_matches_singular() {
    let macs = ["00:11:22:33:44:55", "a4:83:e7:00:00:00", "zz"];
    let many = lookup_vendor_many(&macs);
    for (m, got) in macs.iter().zip(many) {
        assert_eq!(lookup_vendor(m), got);
    }
}

#[test]
fn lookup_oui_matches_string_lookup() {
    // Whatever the string form resolves to, the integer form must agree.
    let oui = parse_oui("a4:83:e7:00:00:00").unwrap();
    assert_eq!(lookup_oui(oui), lookup("a4:83:e7:00:00:00"));
    // High bits above 24 are ignored.
    assert_eq!(lookup_oui(oui | 0xFF00_0000), lookup_oui(oui));
}

#[test]
fn vendors_are_unique_and_sorted() {
    let v = vendors();
    assert!(!v.is_empty());
    assert!(v.len() <= ENTRY_COUNT);
    // Sorted and deduplicated.
    assert!(v.windows(2).all(|w| w[0] < w[1]));
}

#[test]
fn vendor_octets_round_trip() {
    let v = Vendor {
        prefix: "A4:83:E7".to_string(),
        name: "Apple".to_string(),
    };
    assert_eq!(v.octets(), [0xA4, 0x83, 0xE7]);
    assert_eq!(v.oui(), 0xA483E7);
    // Malformed prefix collapses to zero rather than panicking.
    let bad = Vendor {
        prefix: "not a prefix".to_string(),
        name: String::new(),
    };
    assert_eq!(bad.octets(), [0, 0, 0]);
    assert_eq!(bad.oui(), 0);
}

#[test]
fn entry_octets_match_prefix() {
    let e = Entry {
        prefix: 0xA483E7,
        name: "Apple",
    };
    assert_eq!(e.octets(), [0xA4, 0x83, 0xE7]);
    assert_eq!(e.prefix_str(), "A4:83:E7");
}

#[test]
fn octet_lookups_agree_with_string_lookups() {
    let octets = parse_mac48("a4:83:e7:11:22:33").unwrap();
    assert_eq!(
        lookup_entry_octets(octets).map(|e| e.name),
        lookup("a4:83:e7:11:22:33")
    );
    assert_eq!(
        lookup_vendor_octets(octets),
        lookup_vendor("a4:83:e7:11:22:33")
    );
    // Unregistered prefix.
    let ff = parse_mac48("ff:ff:ff:00:00:00").unwrap();
    assert!(lookup_entry_octets(ff).is_none());
}

#[test]
fn prefixes_for_is_exact_match() {
    // Pick a real vendor name from the table and ensure all returned
    // entries carry exactly that name.
    if let Some(first) = entries().first() {
        let name = first.name;
        let all: Vec<_> = prefixes_for(name);
        assert!(!all.is_empty());
        assert!(all.iter().all(|e| e.name.eq_ignore_ascii_case(name)));
        // Exact match excludes pure-substring hits.
        assert!(prefixes_for("definitely not a real vendor xyz").is_empty());
    }
}

#[test]
fn normalize_lower_round_trips() {
    assert_eq!(
        normalize_mac_lower("AA-BB-CC-DD-EE-FF").unwrap(),
        "aa:bb:cc:dd:ee:ff"
    );
    assert_eq!(
        normalize_mac("aa:bb:cc:dd:ee:ff").unwrap(),
        "AA:BB:CC:DD:EE:FF"
    );
    assert!(normalize_mac_lower("aa:bb:cc").is_err());
}

#[test]
fn lookup_octets_many_matches_singular() {
    let macs = [
        parse_mac48("a4:83:e7:00:00:00").unwrap(),
        parse_mac48("ff:ff:ff:00:00:00").unwrap(),
    ];
    let many = lookup_octets_many(&macs);
    assert_eq!(many.len(), 2);
    assert_eq!(many[0], lookup_octets(macs[0]));
    assert_eq!(many[1], None);
}
