//! Concrete tests of the library's stated properties, edge cases and error
//! variants.

use oui_lookup::cli::{self, Source};
use oui_lookup::{lookup_link_local, mac_from_link_local};
use oui_lookup::{
    classify, count_matching, entries, eui64_to_mac, format_mac48, format_mac48_bare,
    format_mac48_cisco, format_mac48_hyphen, format_mac48_lower, format_oui, format_oui_lower,
    is_bridge_protocol, is_pause, is_registered, is_stp_bpdu, link_local_ipv6_segments, lookup,
    lookup_entry, lookup_oui, lookup_oui_octets, lookup_prefix, lookup_vendor, normalize_mac,
    octets_to_oui, oui_to_octets, parse_mac48, parse_oui, prefixes_for, scope, search,
    solicited_node_mac, to_eui64, top_vendors, total_vendors, try_lookup, vendor_block_count,
    vendors, MacKind, MacScope, ParseMacError, ENTRY_COUNT,
};

#[test]
fn readme_examples_resolve() {
    assert_eq!(lookup("a4:83:e7:00:00:00"), Some("Apple, Inc."));
    assert!(try_lookup("not-a-mac").is_err());
    assert_eq!(try_lookup("ff:ff:ff:00:00:00"), Ok(None));
    let v = lookup_vendor("28:cf:e9:11:22:33").unwrap();
    assert_eq!(v.prefix, "28:CF:E9");
    assert_eq!(v.name, "Apple, Inc.");
    assert_eq!(lookup("3c:5a:b4"), Some("Google, Inc."));
}

#[test]
fn readme_scope_examples() {
    assert_eq!(scope(parse_mac48("01:00:5e:00:00:01").unwrap()), MacScope::Ipv4Multicast);
    assert_eq!(scope(parse_mac48("33:33:00:00:00:01").unwrap()), MacScope::Ipv6Multicast);
    assert_eq!(scope(parse_mac48("01:80:c2:00:00:00").unwrap()), MacScope::BridgeProtocol);
    assert_eq!(scope(parse_mac48("00:00:5e:00:01:0a").unwrap()), MacScope::Vrrp);
    assert_eq!(scope([0xFF; 6]), MacScope::Broadcast);
    assert_eq!(scope([0x00; 6]), MacScope::Zero);
    assert_eq!(scope([0x03, 0, 0, 0, 0, 1]), MacScope::OtherMulticast);
    assert_eq!(scope([0x02, 0, 0, 0, 0, 1]), MacScope::LocalUnicast);
    assert_eq!(scope([0xA4, 0x83, 0xE7, 0, 0, 1]), MacScope::GlobalUnicast);
    assert_eq!(MacScope::Vrrp.as_str(), "vrrp");
    assert_eq!(MacScope::Generic.to_text(), "generic");
}

#[test]
fn scope_refines_classify_on_samples() {
    let samples = [
        [0xFF; 6],
        [0x00; 6],
        [0x01, 0x80, 0xC2, 0x00, 0x00, 0x03],
        [0x01, 0x00, 0x5E, 0x10, 0x00, 0x01],
        [0x33, 0x33, 0x00, 0x00, 0x00, 0x01],
        [0x00, 0x00, 0x5E, 0x00, 0x01, 0x07],
        [0x02, 0x42, 0xAC, 0x11, 0x00, 0x02],
        [0xA4, 0x83, 0xE7, 0x00, 0x00, 0x01],
    ];
    for m in samples {
        let kind = match scope(m) {
            MacScope::Broadcast => MacKind::Broadcast,
            MacScope::Ipv4Multicast
            | MacScope::Ipv6Multicast
            | MacScope::BridgeProtocol
            | MacScope::OtherMulticast => MacKind::Multicast,
            MacScope::LocalUnicast => MacKind::LocalUnicast,
            _ => MacKind::GlobalUnicast,
        };
        assert_eq!(kind, classify(m));
    }
}

#[test]
fn bridge_pause_and_bpdu() {
    assert!(is_pause([0x01, 0x80, 0xC2, 0x00, 0x00, 0x01]));
    assert!(!is_pause([0x01, 0x80, 0xC2, 0x00, 0x00, 0x00]));
    assert!(is_stp_bpdu([0x01, 0x80, 0xC2, 0x00, 0x00, 0x00]));
    assert!(is_bridge_protocol([0x01, 0x80, 0xC2, 0x00, 0x00, 0x0F]));
    assert!(!is_bridge_protocol([0x01, 0x80, 0xC2, 0x00, 0x00, 0x10]));
}

#[test]
fn every_error_variant_has_an_input() {
    assert_eq!(parse_oui("12:34"), Err(ParseMacError::TooShort));
    assert_eq!(parse_oui("0011223344556"), Err(ParseMacError::TooLong));
    assert_eq!(parse_oui("00:11:zz"), Err(ParseMacError::InvalidChar('z')));
    assert_eq!(parse_mac48("00:11:22:33:44"), Err(ParseMacError::TooShort));
    assert_eq!(parse_mac48("00:11:22:33:44:55:66"), Err(ParseMacError::TooLong));
    assert_eq!(parse_mac48("00:11:22:33:44:5x"), Err(ParseMacError::InvalidChar('x')));
}

#[test]
fn error_order_follows_the_scan() {
    // A bad character after twelve digits is reported as that character.
    assert_eq!(parse_oui("001122334455g"), Err(ParseMacError::InvalidChar('g')));
    // A thirteenth digit is reported before a later bad character.
    assert_eq!(parse_oui("0011223344556g"), Err(ParseMacError::TooLong));
    // A bad character early wins over a short input.
    assert_eq!(parse_oui("0q"), Err(ParseMacError::InvalidChar('q')));
}

#[test]
fn error_messages() {
    assert_eq!(
        ParseMacError::TooShort.to_text(),
        "not enough hex digits for a 24-bit OUI (need at least 6)"
    );
    assert_eq!(
        ParseMacError::TooLong.to_text(),
        "too many hex digits (max 12 for a 48-bit MAC)"
    );
    assert_eq!(
        ParseMacError::InvalidChar('g').to_text(),
        "invalid character in MAC address: 'g'"
    );
    assert_eq!(
        ParseMacError::InvalidChar('\n').to_text(),
        "invalid character in MAC address: '\\n'"
    );
}

#[test]
fn whitespace_separators_match_std() {
    for c in (0u32..0x3001).filter_map(char::from_u32) {
        let input = format!("00{c}11{c}22");
        let r = parse_oui(&input);
        if c.is_whitespace() || c == ':' || c == '-' || c == '.' {
            assert_eq!(r, Ok(0x001122), "separator {c:?}");
        } else if c.is_ascii_hexdigit() {
            assert!(r.is_ok() || r == Err(ParseMacError::TooLong));
        } else {
            assert_eq!(r, Err(ParseMacError::InvalidChar(c)), "char {c:?}");
        }
    }
}

#[test]
fn formatters_round_trip_exhaustively_on_first_octet() {
    for b in 0u8..=255 {
        let m = [b, 0x5A, 0xF0, 0x0F, 0x99, b.wrapping_mul(7)];
        for s in [
            format_mac48(m),
            format_mac48_hyphen(m),
            format_mac48_lower(m),
            format_mac48_bare(m),
            format_mac48_cisco(m),
        ] {
            assert_eq!(parse_mac48(&s), Ok(m), "spelling {s}");
            // All spellings look up the same vendor as the octets.
            assert_eq!(lookup(&s), oui_lookup::lookup_octets(m));
        }
        assert_eq!(parse_oui(&format_mac48(m)), Ok(octets_to_oui([m[0], m[1], m[2]])));
    }
}

#[test]
fn format_oui_round_trips() {
    for oui in [0u32, 0x001122, 0xA483E7, 0xFFFFFF, 0xFF_A483E7] {
        assert_eq!(parse_oui(&format_oui(oui)), Ok(oui & 0xFF_FFFF));
        assert_eq!(parse_oui(&format_oui_lower(oui)), Ok(oui & 0xFF_FFFF));
    }
    assert_eq!(format_oui_lower(0xA483E7), "a4:83:e7");
    assert_eq!(oui_to_octets(0x12_3456), [0x12, 0x34, 0x56]);
    assert_eq!(octets_to_oui([0x12, 0x34, 0x56]), 0x12_3456);
}

#[test]
fn normalize_is_idempotent() {
    let once = normalize_mac("aabb.ccdd.eeff").unwrap();
    assert_eq!(once, "AA:BB:CC:DD:EE:FF");
    assert_eq!(normalize_mac(&once).unwrap(), once);
}

#[test]
fn eui64_inverse_both_ways() {
    let e = [0x02, 0x11, 0x22, 0xFF, 0xFE, 0x33, 0x44, 0x55];
    let m = eui64_to_mac(e).unwrap();
    assert_eq!(m, [0x00, 0x11, 0x22, 0x33, 0x44, 0x55]);
    assert_eq!(to_eui64(m), e);
    assert_eq!(eui64_to_mac([0; 8]), None);
}

#[test]
fn link_local_segments_exact() {
    let mac = parse_mac48("00:11:22:33:44:55").unwrap();
    assert_eq!(
        link_local_ipv6_segments(mac),
        [0xfe80, 0, 0, 0, 0x0211, 0x22ff, 0xfe33, 0x4455]
    );
}

#[test]
fn solicited_node_example() {
    // fe80::a483:e7ff:fe11:2233
    let addr = [
        0xfe, 0x80, 0, 0, 0, 0, 0, 0, 0xa4, 0x83, 0xe7, 0xff, 0xfe, 0x11, 0x22, 0x33,
    ];
    assert_eq!(solicited_node_mac(addr), [0x33, 0x33, 0xFF, 0x11, 0x22, 0x33]);
}

#[test]
fn registry_entries_are_found_and_sorted() {
    let all = entries();
    assert_eq!(all.len(), ENTRY_COUNT);
    for w in all.windows(2) {
        assert!(w[0].prefix < w[1].prefix);
    }
    for e in &all {
        assert_eq!(lookup_prefix(e.prefix), Some(e.name));
        assert_eq!(lookup_oui(e.prefix | 0xAB00_0000), Some(e.name));
        assert_eq!(lookup_entry(&e.prefix_str()), Some(*e));
        assert!(is_registered(&e.prefix_str()));
        assert_eq!(lookup_oui_octets(e.octets()), Some(e.name));
    }
    assert_eq!(lookup_prefix(0x1_000000), None);
    assert_eq!(lookup_prefix(0xFFFFFF), None);
}

#[test]
fn entry_text_format() {
    let e = oui_lookup::Entry { prefix: 0xA483E7, name: "Apple, Inc." };
    assert_eq!(e.to_text(), "A4:83:E7  Apple, Inc.");
}

#[test]
fn search_behaviour() {
    assert_eq!(search("").len(), ENTRY_COUNT);
    assert_eq!(search("RASPBERRY"), search("raspberry"));
    assert_eq!(count_matching("raspberry pi"), search("Raspberry Pi").len());
    assert!(search("zzz-no-such-vendor").is_empty());
    for e in search("google") {
        assert!(e.name.to_ascii_lowercase().contains("google"));
    }
}

#[test]
fn vendor_list_and_prefixes() {
    let v = vendors();
    assert_eq!(total_vendors(), v.len());
    for name in &v {
        assert!(!prefixes_for(name).is_empty());
        assert_eq!(vendor_block_count(name), prefixes_for(name).len());
    }
    let mut names: Vec<&str> = entries().iter().map(|e| e.name).collect();
    names.sort();
    names.dedup();
    assert_eq!(v, names);
}

#[test]
fn top_vendors_ranks_by_count_then_name() {
    let all = top_vendors(usize::MAX);
    assert_eq!(all.len(), total_vendors());
    for w in all.windows(2) {
        assert!(w[0].1 > w[1].1 || (w[0].1 == w[1].1 && w[0].0 < w[1].0));
    }
    for (name, count) in &all {
        assert_eq!(*count, entries().iter().filter(|e| e.name == *name).count());
    }
    assert_eq!(top_vendors(2), all[..2].to_vec());
    assert!(top_vendors(0).is_empty());
    assert_eq!(top_vendors(1)[0].0, "Apple, Inc.");
}

#[test]
fn cli_resolve_and_exit_code() {
    let inputs = vec![
        "a4:83:e7:00:00:00".to_string(),
        "ff:ff:ff:00:00:00".to_string(),
    ];
    let rs = cli::resolve_all(&inputs);
    assert_eq!(rs[0].prefix.as_deref(), Some("A4:83:E7"));
    assert_eq!(rs[0].vendor.as_deref(), Some("Apple, Inc."));
    assert_eq!(rs[1].vendor, None);
    assert_eq!(cli::exit_code(&rs), 1);
    let bad = cli::resolve_all(&vec!["not-a-mac!".to_string()]);
    assert_eq!(bad[0].error.as_deref(), Some("invalid character in MAC address: 'n'"));
    assert_eq!(cli::exit_code(&bad), 2);
    let good = cli::resolve_all(&vec!["3c:5a:b4".to_string()]);
    assert_eq!(cli::exit_code(&good), 0);
    assert_eq!(cli::exit_code(&Vec::new()), 0);
}

#[test]
fn cli_rows() {
    let r = cli::resolve("a4:83:e7:00:00:00");
    assert_eq!(cli::tsv_row(&r), "A4:83:E7\tApple, Inc.");
    assert_eq!(cli::csv_row(&r), "A4:83:E7,\"Apple, Inc.\"");
    assert_eq!(cli::bare_row(&r), "A483E7\tApple, Inc.");
    assert_eq!(cli::vendor_only_row(&r), "Apple, Inc.");
    assert_eq!(
        cli::text_row(&r, None, false).unwrap(),
        format!("{:<20} {}", "A4:83:E7", "Apple, Inc.")
    );
    assert_eq!(
        cli::text_row(&r, Some("global-unicast"), false).unwrap(),
        format!("{:<20} {:<16} {}", "A4:83:E7", "global-unicast", "Apple, Inc.")
    );
    let u = cli::resolve("ff:ff:ff");
    assert_eq!(cli::csv_row(&u), "FF:FF:FF,");
    assert_eq!(cli::text_row(&u, None, true), None);
    assert_eq!(
        cli::text_row(&u, None, false).unwrap(),
        format!("{:<20} (unknown)", "FF:FF:FF")
    );
    let e = cli::resolve("zz");
    assert_eq!(cli::tsv_row(&e), "zz\t");
    assert_eq!(
        cli::text_row(&e, None, false).unwrap(),
        format!("{:<20} error: invalid character in MAC address: 'z'", "zz")
    );
    let g = cli::resolve("3c:5a:b4:00:00:00");
    assert_eq!(cli::csv_row(&g), "3C:5A:B4,\"Google, Inc.\"");
    assert_eq!(cli::class_label_exec("a4:83:e7:00:00:00"), "global-unicast");
    assert_eq!(cli::class_label_exec("a4:83:e7"), "-");
    assert_eq!(cli::eui64_text([0, 0x11, 0x22, 0x33, 0x44, 0x55], false), "02:11:22:FF:FE:33:44:55");
    assert_eq!(cli::eui64_text([0xAA, 0xBB, 0xCC, 0xDD, 0xEE, 0xFF], true), "a8:bb:cc:ff:fe:dd:ee:ff");
}

#[test]
fn cli_input_lines() {
    assert_eq!(cli::input_line("  a4:83:e7:00:00:00 \t"), Some("a4:83:e7:00:00:00".to_string()));
    assert_eq!(cli::input_line("# a comment"), None);
    assert_eq!(cli::input_line("   #x"), None);
    assert_eq!(cli::input_line(""), None);
    assert_eq!(cli::input_line(" \u{3000} "), None);
    assert_eq!(cli::input_line("\u{a0}x y\u{2028}"), Some("x y".to_string()));
    for line in ["  ab cd ", "\tq\n", "x", " \u{85}z\u{85} "] {
        let t = line.trim();
        let want = if t.is_empty() || t.starts_with('#') { None } else { Some(t.to_string()) };
        assert_eq!(cli::input_line(line), want);
    }
}

#[test]
fn cli_sources_and_unique() {
    let args = vec!["a".to_string(), "-".to_string()];
    let files = vec!["f.txt".to_string(), "-".to_string()];
    let srcs = cli::input_sources(&args, &files);
    assert_eq!(srcs.len(), 4);
    assert!(matches!(&srcs[0], Source::Literal(s) if s == "a"));
    assert!(matches!(&srcs[1], Source::Stdin));
    assert!(matches!(&srcs[2], Source::File(s) if s == "f.txt"));
    assert!(matches!(&srcs[3], Source::Stdin));
    let inputs: Vec<String> = ["x", "y", "x", "z", "y"].iter().map(|s| s.to_string()).collect();
    assert_eq!(cli::unique_inputs(&inputs), vec!["x", "y", "z"]);
}

#[test]
fn cli_search_rows_limit() {
    let all = search("inc");
    assert_eq!(cli::search_rows("inc", 0), all);
    assert_eq!(cli::search_rows("inc", 3), all[..3].to_vec());
    assert_eq!(cli::search_rows("inc", 1000), all);
}

#[test]
fn link_local_recovers_mac() {
    // fe80::a683:e7ff:fe11:2233 is formed from a4:83:e7:11:22:33.
    let addr = [
        0xfe, 0x80, 0, 0, 0, 0, 0, 0, 0xa6, 0x83, 0xe7, 0xff, 0xfe, 0x11, 0x22, 0x33,
    ];
    assert_eq!(mac_from_link_local(addr), Some([0xa4, 0x83, 0xe7, 0x11, 0x22, 0x33]));
    assert_eq!(lookup_link_local(addr), Some("Apple, Inc."));
    // Not link-local.
    let mut global = addr;
    global[0] = 0x20;
    assert_eq!(mac_from_link_local(global), None);
    // No FF:FE marker.
    let mut other = addr;
    other[11] = 0x00;
    assert_eq!(mac_from_link_local(other), None);
    assert_eq!(lookup_link_local(other), None);
    // Round trip through the link-local segments.
    let mac = [0x00, 0x11, 0x22, 0x33, 0x44, 0x55];
    let g = link_local_ipv6_segments(mac);
    let mut bytes = [0u8; 16];
    for (i, seg) in g.iter().enumerate() {
        bytes[2 * i] = (seg >> 8) as u8;
        bytes[2 * i + 1] = *seg as u8;
    }
    assert_eq!(mac_from_link_local(bytes), Some(mac));
}

#[test]
fn scope_group_predicates() {
    assert!(MacScope::Broadcast.is_multicast());
    assert!(MacScope::Ipv6Multicast.is_multicast());
    assert!(!MacScope::Vrrp.is_multicast());
    assert!(MacScope::Zero.is_unicast());
    assert!(MacScope::GlobalUnicast.is_unicast());
    assert!(!MacScope::OtherMulticast.is_unicast());
}

#[test]
fn prefixes_for_is_entries_filtered_by_name() {
    for name in ["apple, inc.", "Google, Inc.", "definitely not a real vendor xyz", ""] {
        let got: Vec<(u32, &str)> = prefixes_for(name).iter().map(|e| (e.prefix, e.name)).collect();
        let from_entries: Vec<(u32, &str)> = entries()
            .iter()
            .filter(|e| e.name.eq_ignore_ascii_case(name))
            .map(|e| (e.prefix, e.name))
            .collect();
        let from_search: Vec<(u32, &str)> = search(name)
            .iter()
            .filter(|e| e.name.eq_ignore_ascii_case(name))
            .map(|e| (e.prefix, e.name))
            .collect();
        assert_eq!(got, from_entries);
        assert_eq!(got, from_search);
    }
    assert_eq!(prefixes_for("APPLE, INC.").len(), vendor_block_count("Apple, Inc."));
    assert!(prefixes_for("apple, inc.").len() >= 2);
    assert!(prefixes_for("definitely not a real vendor xyz").is_empty());
}

#[test]
fn batch_and_search_statuses() {
    assert_eq!(cli::batch_status(0), 0);
    assert_eq!(cli::batch_status(1), 2);
    assert_eq!(cli::batch_status(5), 2);
    assert_eq!(cli::search_status(0), 1);
    assert_eq!(cli::search_status(3), 0);
    assert_eq!(cli::search_status(cli::search_rows("apple", 0).len()), 0);
    assert_eq!(cli::search_status(cli::search_rows("zzz-no-such-vendor", 0).len()), 1);
}

#[test]
fn parse_mac48_reads_digits_in_order() {
    assert_eq!(parse_mac48("0a1B.2c3D.4e5F"), Ok([0x0a, 0x1b, 0x2c, 0x3d, 0x4e, 0x5f]));
    assert_eq!(parse_mac48("00:11:22:33:44:55:66"), Err(ParseMacError::TooLong));
    assert_eq!(parse_mac48("00:11:22:33:44"), Err(ParseMacError::TooShort));
    assert_eq!(parse_mac48("00:11:22:33:44:55g"), Err(ParseMacError::InvalidChar('g')));
    assert_eq!(parse_mac48("00:11:22:33:44:556g"), Err(ParseMacError::TooLong));
    assert_eq!(parse_mac48("00:1x:22:33:44:55"), Err(ParseMacError::InvalidChar('x')));
    let m = parse_mac48("a4-83-e7-9c-1d-42").unwrap();
    assert_eq!(parse_oui("a4-83-e7-9c-1d-42"), Ok(octets_to_oui([m[0], m[1], m[2]])));
}
