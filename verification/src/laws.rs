//! Properties that relate the parsers, formatters and classifiers to one
//! another.
use vstd::prelude::*;

use crate::hex::{
    be_value, hex_char, hex_pair, join_hex, lemma_bare_concat, lemma_bare_shape,
    lemma_digits_of_join, lemma_hex_char,
};
use crate::mac::{
    cisco_text, digit_value, group_bit, hex_value, is_hex_digit, is_separator, leading_hex,
    local_bit, mac_digits, octet_at, octets_of, oui_octets, oui_value, scan_error,
    spec_classify, spec_eui64_to_mac, spec_parse_mac48, spec_parse_oui, spec_scope,
    spec_to_eui64, all_octets, MacKind, MacScope, ParseMacError,
};

use crate::db::{lemma_registry_sorted, registry, registry_name};
use crate::text::{contains_text, lower_text};
use crate::cli::{pad_right, spec_exit_code, spec_text_row, Record};
use crate::{
    entry_from, is_vendor_list, name_contains, octets_oui, spec_entries, spec_lookup,
    spec_prefixes_for, spec_search, Entry,
};

verus! {

proof fn lemma_leading_hex_of_hex(d: Seq<char>)
    requires
        forall|i: int| 0 <= i < d.len() ==> is_hex_digit(#[trigger] d[i]),
    ensures
        leading_hex(d) == d.len(),
    decreases d.len(),
{
    if d.len() > 0 {
        lemma_leading_hex_of_hex(d.drop_last());
    }
}

/// The bare spelling of `o` is all hex digits, and reads back as `o`.
proof fn lemma_bare_reads_back(o: Seq<u8>, upper: bool)
    ensures
        ({
            let d = join_hex(o, upper, Seq::empty());
            &&& d.len() == 2 * o.len()
            &&& forall|i: int| 0 <= i < d.len() ==> is_hex_digit(#[trigger] d[i])
            &&& forall|k: int| 0 <= k < o.len() ==> #[trigger] octet_at(d, k) == o[k]
        }),
{
    let d = join_hex(o, upper, Seq::empty());
    lemma_bare_shape(o, upper);
    assert forall|i: int| 0 <= i < d.len() implies is_hex_digit(#[trigger] d[i]) by {
        let k = i / 2;
        lemma_hex_char((o[k] / 16) as nat, upper);
        lemma_hex_char((o[k] % 16) as nat, upper);
        assert(d[2 * k] == hex_char((o[k] / 16) as nat, upper));
        if i % 2 == 1 {
            assert(i == 2 * k + 1);
        }
    }
    assert forall|k: int| 0 <= k < o.len() implies #[trigger] octet_at(d, k) == o[k] by {
        lemma_hex_char((o[k] / 16) as nat, upper);
        lemma_hex_char((o[k] % 16) as nat, upper);
        assert(d[2 * k] == hex_char((o[k] / 16) as nat, upper));
    }
}

/// Six octets spelled with a separator (or none) between neighbours parse
/// back to the same six octets.
proof fn lemma_joined_mac48_parses(o: Seq<u8>, upper: bool, sep: Seq<char>)
    requires
        o.len() == 6,
        forall|i: int| 0 <= i < sep.len() ==> is_separator(#[trigger] sep[i]),
    ensures
        spec_parse_mac48(join_hex(o, upper, sep)) == Ok::<Seq<u8>, ParseMacError>(o),
{
    lemma_digits_of_join(o, upper, sep);
    let d = join_hex(o, upper, Seq::empty());
    lemma_bare_reads_back(o, upper);
    lemma_leading_hex_of_hex(d);
    assert(scan_error(d) is None);
    assert(octets_of(d) =~= o);
}

/// Removing separators from the dotted spelling leaves the bare lower-case
/// spelling.
#[verifier::spinoff_prover]
#[verifier::rlimit(40)]
proof fn lemma_cisco_digits(o: [u8; 6])
    ensures
        mac_digits(cisco_text(o@)) == join_hex(o@, false, Seq::empty()),
{
    let e = Seq::<char>::empty();
    let a = o@.subrange(0, 2);
    let b = o@.subrange(2, 4);
    let c = o@.subrange(4, 6);
    let dot = seq!['.'];
    let ja = join_hex(a, false, e);
    let jb = join_hex(b, false, e);
    let jc = join_hex(c, false, e);
    lemma_digits_of_join(a, false, e);
    lemma_digits_of_join(b, false, e);
    lemma_digits_of_join(c, false, e);
    crate::hex::lemma_digits_of_separators(dot);
    assert(cisco_text(o@) == ja + dot + jb + dot + jc);
    crate::mac::lemma_digits_concat(ja + dot + jb + dot, jc);
    crate::mac::lemma_digits_concat(ja + dot + jb, dot);
    crate::mac::lemma_digits_concat(ja + dot, jb);
    crate::mac::lemma_digits_concat(ja, dot);
    assert(mac_digits(cisco_text(o@)) =~= ja + jb + jc);
    lemma_bare_concat(a, b, false);
    lemma_bare_concat(a + b, c, false);
    assert(a + b + c =~= o@);
}

/// The dotted spelling parses back to the six octets.
proof fn lemma_cisco_parses(o: [u8; 6])
    ensures
        spec_parse_mac48(cisco_text(o@)) == Ok::<Seq<u8>, ParseMacError>(o@),
{
    lemma_cisco_digits(o);
    let d = join_hex(o@, false, Seq::empty());
    lemma_bare_reads_back(o@, false);
    lemma_leading_hex_of_hex(d);
    assert(scan_error(d) is None);
    assert(octets_of(d) =~= o@);
}

/// Every spelling produced by `format_mac48`, `format_mac48_hyphen`,
/// `format_mac48_lower`, `format_mac48_bare` and `format_mac48_cisco` parses
/// back with `parse_mac48` to the octets it was made from.
pub proof fn law_formatted_mac48_parses_back(o: [u8; 6])
    ensures
        spec_parse_mac48(join_hex(o@, true, seq![':'])) == Ok::<Seq<u8>, ParseMacError>(o@),
        spec_parse_mac48(join_hex(o@, true, seq!['-'])) == Ok::<Seq<u8>, ParseMacError>(o@),
        spec_parse_mac48(join_hex(o@, false, seq![':'])) == Ok::<Seq<u8>, ParseMacError>(o@),
        spec_parse_mac48(join_hex(o@, true, Seq::empty())) == Ok::<Seq<u8>, ParseMacError>(o@),
        spec_parse_mac48(cisco_text(o@)) == Ok::<Seq<u8>, ParseMacError>(o@),
{
    lemma_joined_mac48_parses(o@, true, seq![':']);
    lemma_joined_mac48_parses(o@, true, seq!['-']);
    lemma_joined_mac48_parses(o@, false, seq![':']);
    lemma_joined_mac48_parses(o@, true, Seq::empty());
    lemma_cisco_parses(o);
}

proof fn lemma_hex_value_pair(a: Seq<char>, x: char, y: char)
    ensures
        hex_value(a + seq![x, y]) == hex_value(a) * 256 + digit_value(x) * 16 + digit_value(y),
{
    let s = a + seq![x, y];
    assert(s.drop_last() =~= a + seq![x]);
    assert((a + seq![x]).drop_last() =~= a);
    assert(s.last() == y);
    assert((a + seq![x]).last() == x);
    assert(hex_value(s) == hex_value(a + seq![x]) * 16 + digit_value(y));
    assert(hex_value(a + seq![x]) == hex_value(a) * 16 + digit_value(x));
    let h = hex_value(a);
    let dx = digit_value(x);
    let dy = digit_value(y);
    assert((h * 16 + dx) * 16 + dy == h * 256 + dx * 16 + dy) by (nonlinear_arith);
}

proof fn lemma_hex_value_of_bare(o: Seq<u8>, upper: bool)
    ensures
        hex_value(join_hex(o, upper, Seq::empty())) == be_value(o),
    decreases o.len(),
{
    let e = Seq::<char>::empty();
    if o.len() == 1 {
        lemma_hex_char((o[0] / 16) as nat, upper);
        lemma_hex_char((o[0] % 16) as nat, upper);
        lemma_hex_value_pair(e, hex_pair(o[0], upper)[0], hex_pair(o[0], upper)[1]);
        assert(e + hex_pair(o[0], upper) =~= hex_pair(o[0], upper));
        assert(o.drop_last() =~= Seq::<u8>::empty());
        assert(be_value(Seq::<u8>::empty()) == 0);
        assert(be_value(o) == o[0]);
        assert(hex_value(hex_pair(o[0], upper)) == (o[0] / 16) as nat * 16 + (o[0] % 16) as nat);
    } else if o.len() > 1 {
        lemma_hex_value_of_bare(o.drop_last(), upper);
        let a = join_hex(o.drop_last(), upper, e);
        let p = hex_pair(o.last(), upper);
        lemma_hex_char((o.last() / 16) as nat, upper);
        lemma_hex_char((o.last() % 16) as nat, upper);
        assert(a + e + p =~= a + seq![p[0], p[1]]);
        lemma_hex_value_pair(a, p[0], p[1]);
        assert(digit_value(p[0]) * 16 + digit_value(p[1]) == o.last() as nat);
    }
}

/// `format_oui` and `format_oui_lower` spell the low 24 bits of an OUI, and
/// `parse_oui` reads that spelling back as those 24 bits.
pub proof fn law_formatted_oui_parses_back(oui: u32)
    ensures
        spec_parse_oui(join_hex(oui_octets(oui), true, seq![':'])) == Ok::<u32, ParseMacError>(
            oui % 0x100_0000,
        ),
        spec_parse_oui(join_hex(oui_octets(oui), false, seq![':'])) == Ok::<u32, ParseMacError>(
            oui % 0x100_0000,
        ),
{
    let o = oui_octets(oui);
    assert(oui / 0x1_0000 % 256 * 0x1_0000 + oui / 0x100 % 256 * 0x100 + oui % 256 == oui
        % 0x100_0000) by (bit_vector);
    assert(o.drop_last().drop_last().drop_last() =~= Seq::<u8>::empty());
    assert(o.drop_last().drop_last() =~= seq![o[0]]);
    assert(o.drop_last() =~= seq![o[0], o[1]]);
    let b0 = o[0] as int;
    let b1 = o[1] as int;
    let b2 = o[2] as int;
    assert((b0 * 256 + b1) * 256 + b2 == b0 * 0x1_0000 + b1 * 0x100 + b2) by (nonlinear_arith);
    assert(seq![o[0]].drop_last() =~= Seq::<u8>::empty());
    assert(seq![o[0], o[1]].drop_last() =~= seq![o[0]]);
    assert(be_value(Seq::<u8>::empty()) == 0);
    assert(be_value(seq![o[0]]) == b0);
    assert(be_value(seq![o[0], o[1]]) == b0 * 256 + b1);
    assert(be_value(o) == (b0 * 256 + b1) * 256 + b2);
    assert(be_value(o) == oui % 0x100_0000);
    assert forall|u: bool| #![trigger join_hex(o, u, seq![':'])]
        spec_parse_oui(join_hex(o, u, seq![':'])) == Ok::<u32, ParseMacError>(
            oui % 0x100_0000,
        ) by {
        lemma_digits_of_join(o, u, seq![':']);
        let d = join_hex(o, u, Seq::empty());
        lemma_bare_reads_back(o, u);
        lemma_leading_hex_of_hex(d);
        assert(d.take(6) =~= d);
        lemma_hex_value_of_bare(o, u);
    }
}

/// Whenever an input parses as a full 48-bit address, `parse_oui` accepts it
/// too and yields the OUI of that address's first three octets.
pub proof fn law_mac48_determines_oui(s: Seq<char>)
    requires
        spec_parse_mac48(s) is Ok,
    ensures
        spec_parse_oui(s) == Ok::<u32, ParseMacError>(
            oui_value(
                spec_parse_mac48(s)->Ok_0[0],
                spec_parse_mac48(s)->Ok_0[1],
                spec_parse_mac48(s)->Ok_0[2],
            ),
        ),
{
    let d = mac_digits(s);
    let o = octets_of(d);
    assert(d.len() == 12);
    crate::mac::lemma_leading_hex_all(d);
    let t = d.take(6);
    assert(t =~= d.take(4) + seq![d[4], d[5]]);
    assert(d.take(4) =~= d.take(2) + seq![d[2], d[3]]);
    assert(d.take(2) =~= Seq::<char>::empty() + seq![d[0], d[1]]);
    lemma_hex_value_pair(d.take(4), d[4], d[5]);
    lemma_hex_value_pair(d.take(2), d[2], d[3]);
    lemma_hex_value_pair(Seq::<char>::empty(), d[0], d[1]);
    assert forall|i: int| 0 <= i < 12 implies digit_value(#[trigger] d[i]) < 16 by {
        assert(is_hex_digit(d[i]));
    }
    assert(o[0] == octet_at(d, 0));
}

/// Splitting an OUI into octets and packing them again keeps its low 24 bits,
/// and packing three octets and splitting them again gives the same octets.
pub proof fn law_oui_octets_inverse(oui: u32, b0: u8, b1: u8, b2: u8)
    ensures
        oui_value(oui_octets(oui)[0], oui_octets(oui)[1], oui_octets(oui)[2]) == oui
            % 0x100_0000,
        oui_octets(oui_value(b0, b1, b2)) == seq![b0, b1, b2],
{
    assert(oui / 0x1_0000 % 256 * 0x1_0000 + oui / 0x100 % 256 * 0x100 + oui % 256 == oui
        % 0x100_0000) by (bit_vector);
    let v = b0 as int * 0x1_0000 + b1 as int * 0x100 + b2 as int;
    let x0 = b0 as int;
    let x1 = b1 as int;
    let x2 = b2 as int;
    assert(v / 0x1_0000 % 256 == x0 && v / 0x100 % 256 == x1 && v % 256 == x2) by (nonlinear_arith)
        requires
            v == x0 * 0x1_0000 + x1 * 0x100 + x2,
            0 <= x0 < 256,
            0 <= x1 < 256,
            0 <= x2 < 256,
    ;
    assert(oui_octets(oui_value(b0, b1, b2)) =~= seq![b0, b1, b2]);
}

/// `eui64_to_mac` undoes `to_eui64`, and `to_eui64` undoes `eui64_to_mac`
/// wherever the latter succeeds.
pub proof fn law_eui64_round_trip(o: [u8; 6], e: [u8; 8])
    ensures
        spec_eui64_to_mac(spec_to_eui64(o@)) == Some(o@),
        spec_eui64_to_mac(e@) matches Some(m) ==> spec_to_eui64(m) == e@,
{
    let b = o[0];
    assert(b ^ 0x02 ^ 0x02 == b) by (bit_vector);
    assert(seq![b ^ 0x02 ^ 0x02, o[1], o[2], o[3], o[4], o[5]] =~= o@);
    let c = e[0];
    assert(c ^ 0x02 ^ 0x02 == c) by (bit_vector);
    if spec_eui64_to_mac(e@) is Some {
        assert(spec_to_eui64(spec_eui64_to_mac(e@)->Some_0) =~= e@);
    }
}

/// The `MacKind` that a `MacScope` bucket belongs to.
pub open spec fn kind_of_scope(s: MacScope) -> MacKind {
    match s {
        MacScope::Broadcast => MacKind::Broadcast,
        MacScope::Ipv4Multicast => MacKind::Multicast,
        MacScope::Ipv6Multicast => MacKind::Multicast,
        MacScope::BridgeProtocol => MacKind::Multicast,
        MacScope::OtherMulticast => MacKind::Multicast,
        MacScope::LocalUnicast => MacKind::LocalUnicast,
        MacScope::GlobalUnicast => MacKind::GlobalUnicast,
        MacScope::Zero => MacKind::GlobalUnicast,
        MacScope::Vrrp => MacKind::GlobalUnicast,
        MacScope::Generic => MacKind::GlobalUnicast,
    }
}

/// `scope` refines `classify`: every scope bucket lies inside one kind, and
/// that kind is the one `classify` gives.
pub proof fn law_scope_refines_classify(o: [u8; 6])
    ensures
        kind_of_scope(spec_scope(o@)) == spec_classify(o@),
{
}

/// The unicast/group predicates of a `MacKind` agree with the group bit of
/// the address it was classified from.
pub proof fn law_kind_matches_group_bit(o: [u8; 6])
    ensures
        (spec_classify(o@) == MacKind::LocalUnicast || spec_classify(o@)
            == MacKind::GlobalUnicast) == !group_bit(o@),
        (spec_classify(o@) == MacKind::Broadcast || spec_classify(o@) == MacKind::Multicast)
            == group_bit(o@),
        spec_classify(o@) == MacKind::LocalUnicast ==> local_bit(o@),
{
    if all_octets(o@, 0xFF) {
        assert(o[0] % 2 == 1);
    }
}


// ---------------------------------------------------------------------------
// Lookups and the registry
// ---------------------------------------------------------------------------

/// Every spelling of an address that the formatters produce looks up the same
/// vendor as its octets: all MAC formats agree.
pub proof fn law_spellings_agree(o: [u8; 6])
    ensures
        spec_lookup(join_hex(o@, true, seq![':'])) == registry_name(octets_oui(o)),
        spec_lookup(join_hex(o@, true, seq!['-'])) == registry_name(octets_oui(o)),
        spec_lookup(join_hex(o@, false, seq![':'])) == registry_name(octets_oui(o)),
        spec_lookup(join_hex(o@, true, Seq::empty())) == registry_name(octets_oui(o)),
        spec_lookup(cisco_text(o@)) == registry_name(octets_oui(o)),
{
    law_formatted_mac48_parses_back(o);
    law_mac48_determines_oui(join_hex(o@, true, seq![':']));
    law_mac48_determines_oui(join_hex(o@, true, seq!['-']));
    law_mac48_determines_oui(join_hex(o@, false, seq![':']));
    law_mac48_determines_oui(join_hex(o@, true, Seq::empty()));
    law_mac48_determines_oui(cisco_text(o@));
}

/// Looking up the prefix of any registry entry finds that entry's vendor.
pub proof fn law_entries_are_found(i: int)
    requires
        0 <= i < registry().len(),
    ensures
        registry_name(registry()[i].0) == Some(registry()[i].1),
{
    lemma_registry_sorted();
    let p = registry()[i].0;
    assert(exists|k: int| 0 <= k < registry().len() && #[trigger] registry()[k].0 == p);
    let k = choose|k: int| 0 <= k < registry().len() && #[trigger] registry()[k].0 == p;
    if k < i {
        assert(registry()[k].0 < registry()[i].0);
    } else if k > i {
        assert(registry()[i].0 < registry()[k].0);
    }
}

proof fn lemma_filter_sorted(s: Seq<(u32, &'static str)>, p: spec_fn((u32, &'static str)) -> bool)
    requires
        forall|i: int, j: int| 0 <= i < j < s.len() ==> #[trigger] s[i].0 < #[trigger] s[j].0,
    ensures
        forall|i: int, j: int|
            0 <= i < j < s.filter(p).len() ==> #[trigger] s.filter(p)[i].0
                < #[trigger] s.filter(p)[j].0,
    decreases s.len(),
{
    reveal_with_fuel(Seq::filter, 1);
    if s.len() > 0 {
        let d = s.drop_last();
        assert forall|i: int, j: int| 0 <= i < j < d.len() implies #[trigger] d[i].0
            < #[trigger] d[j].0 by {
            assert(d[i] == s[i] && d[j] == s[j]);
        }
        lemma_filter_sorted(d, p);
        let f = d.filter(p);
        if p(s.last()) {
            assert forall|i: int, j: int|
                0 <= i < j < s.filter(p).len() implies #[trigger] s.filter(p)[i].0
                    < #[trigger] s.filter(p)[j].0 by {
                if j == f.len() {
                    assert(f.contains(f[i]));
                    d.lemma_filter_contains_rev(p, f[i]);
                    let k = choose|k: int| 0 <= k < d.len() && d[k] == f[i];
                    assert(s[k] == d[k]);
                    assert(s[k].0 < s[s.len() - 1].0);
                } else {
                    assert(s.filter(p)[i] == f[i] && s.filter(p)[j] == f[j]);
                }
            }
        }
    }
}

/// Search results come in strictly ascending prefix order.
pub proof fn law_search_is_sorted(needle: Seq<char>)
    ensures
        forall|i: int, j: int|
            0 <= i < j < spec_search(needle).len() ==> (#[trigger] spec_search(needle)[i]).prefix
                < (#[trigger] spec_search(needle)[j]).prefix,
{
    lemma_registry_sorted();
    let p = |t: (u32, &'static str)| name_contains(t.1, needle);
    lemma_filter_sorted(registry(), p);
}

/// The entries come in strictly ascending prefix order and number
/// `ENTRY_COUNT`.
pub proof fn law_entries_are_sorted()
    ensures
        spec_entries().len() == crate::db::ENTRY_COUNT,
        forall|i: int, j: int|
            0 <= i < j < spec_entries().len() ==> (#[trigger] spec_entries()[i]).prefix
                < (#[trigger] spec_entries()[j]).prefix,
{
    lemma_registry_sorted();
}

proof fn lemma_filter_all(s: Seq<(u32, &'static str)>, p: spec_fn((u32, &'static str)) -> bool)
    requires
        forall|i: int| 0 <= i < s.len() ==> p(#[trigger] s[i]),
    ensures
        s.filter(p) == s,
    decreases s.len(),
{
    reveal_with_fuel(Seq::filter, 1);
    if s.len() > 0 {
        let d = s.drop_last();
        assert forall|i: int| 0 <= i < d.len() implies p(#[trigger] d[i]) by {
            assert(d[i] == s[i]);
        }
        lemma_filter_all(d, p);
        assert(d.push(s.last()) =~= s);
    }
}

/// Searching for the empty text lists every entry.
pub proof fn law_empty_search_lists_everything()
    ensures
        spec_search(Seq::empty()) == spec_entries(),
{
    let p = |t: (u32, &'static str)| name_contains(t.1, Seq::<char>::empty());
    assert forall|i: int| 0 <= i < registry().len() implies p(#[trigger] registry()[i]) by {
        let h = lower_text(registry()[i].1@);
        assert(lower_text(Seq::<char>::empty()) =~= Seq::<char>::empty());
        let e = lower_text(Seq::<char>::empty());
        assert(h.subrange(0, 0 + e.len() as int) =~= e);
        assert(contains_text(h, e));
    }
    lemma_filter_all(registry(), p);
}

/// Search ignores ASCII case: needles that agree once lower-cased find the
/// same entries.
pub proof fn law_search_ignores_case(a: Seq<char>, b: Seq<char>)
    requires
        lower_text(a) == lower_text(b),
    ensures
        spec_search(a) == spec_search(b),
{
    let pa = |t: (u32, &'static str)| name_contains(t.1, a);
    let pb = |t: (u32, &'static str)| name_contains(t.1, b);
    assert(pa =~= pb);
}

/// Every listed vendor holds at least one prefix: `prefixes_for` finds an
/// entry for each name in a vendor list.
pub proof fn law_listed_vendors_have_prefixes(v: Seq<&'static str>, i: int)
    requires
        is_vendor_list(v),
        0 <= i < v.len(),
    ensures
        spec_prefixes_for(v[i]@).len() > 0,
{
    assert(crate::db::is_registry_name(v[i]));
    let k = choose|k: int| 0 <= k < registry().len() && #[trigger] registry()[k].1 == v[i];
    let p = |t: (u32, &'static str)| crate::name_equals(t.1, v[i]@);
    assert(p(registry()[k]));
    registry().lemma_filter_contains(p, k);
}


/// The lookup entry points agree: `lookup` is `try_lookup` with parse errors
/// read as "no vendor", `lookup_vendor` finds a vendor exactly when `lookup`
/// does (with the same name and the canonical prefix), and `is_registered`
/// is `lookup(..).is_some()`.
pub proof fn law_lookup_entry_points_agree(s: Seq<char>)
    ensures
        spec_lookup(s) == match spec_parse_oui(s) {
            Ok(oui) => registry_name(oui),
            Err(_) => None,
        },
        crate::spec_lookup_vendor(s) == match spec_lookup(s) {
            Some(n) => Some((crate::oui_text(spec_parse_oui(s)->Ok_0), n@)),
            None => None,
        },
{
}

/// Normalizing is idempotent: the canonical spelling of a parsed address
/// parses back to the same octets, so normalizing it again gives it back.
pub proof fn law_normalize_idempotent(s: Seq<char>)
    requires
        spec_parse_mac48(s) is Ok,
    ensures
        spec_parse_mac48(join_hex(spec_parse_mac48(s)->Ok_0, true, seq![':'])) == spec_parse_mac48(
            s,
        ),
        spec_parse_mac48(join_hex(spec_parse_mac48(s)->Ok_0, false, seq![':']))
            == spec_parse_mac48(s),
{
    let o = spec_parse_mac48(s)->Ok_0;
    assert(o.len() == 6);
    lemma_joined_mac48_parses(o, true, seq![':']);
    lemma_joined_mac48_parses(o, false, seq![':']);
}


/// The MAC address behind the link-local address formed from a MAC is that
/// MAC: recovering the address undoes forming it.
pub proof fn law_link_local_round_trip(o: [u8; 6])
    ensures
        crate::mac::spec_mac_from_link_local(
            crate::mac::spec_link_local_octets(o@),
        ) == Some(o@),
{
    let a = crate::mac::spec_link_local_octets(o@);
    assert(a.subrange(8, 16) =~= spec_to_eui64(o@));
    let b = o[0];
    assert(b ^ 0x02 ^ 0x02 == b) by (bit_vector);
    assert(seq![b ^ 0x02 ^ 0x02, o[1], o[2], o[3], o[4], o[5]] =~= o@);
}

proof fn lemma_filter_then_entries(s: Seq<(u32, &'static str)>, q: spec_fn(Entry) -> bool)
    ensures
        s.filter(|t: (u32, &'static str)| q(entry_from(t))).map_values(
            |t: (u32, &'static str)| entry_from(t),
        ) == s.map_values(|t: (u32, &'static str)| entry_from(t)).filter(q),
    decreases s.len(),
{
    reveal_with_fuel(Seq::filter, 1);
    let pq = |t: (u32, &'static str)| q(entry_from(t));
    let f = |t: (u32, &'static str)| entry_from(t);
    let m = s.map_values(f);
    if s.len() == 0 {
        assert(s.filter(pq).map_values(f) =~= m.filter(q));
    } else {
        let d = s.drop_last();
        lemma_filter_then_entries(d, q);
        assert(m.drop_last() =~= d.map_values(f));
        assert(m.last() == f(s.last()));
        if pq(s.last()) {
            assert(d.filter(pq).push(s.last()).map_values(f) =~= d.filter(pq).map_values(f).push(
                f(s.last()),
            ));
        }
    }
}

proof fn lemma_filter_narrower(s: Seq<Entry>, p: spec_fn(Entry) -> bool, q: spec_fn(Entry) -> bool)
    requires
        forall|e: Entry| #[trigger] q(e) ==> p(e),
    ensures
        s.filter(p).filter(q) == s.filter(q),
    decreases s.len(),
{
    reveal_with_fuel(Seq::filter, 2);
    if s.len() > 0 {
        let d = s.drop_last();
        lemma_filter_narrower(d, p, q);
        if p(s.last()) {
            assert(s.filter(p).drop_last() =~= d.filter(p));
            assert(s.filter(p).last() == s.last());
        } else {
            assert(!q(s.last()));
        }
    }
}

/// `prefixes_for(name)` is `entries()` kept to the entries whose name equals
/// `name` ignoring ASCII case, in the same order; it is also what remains of
/// `search(name)` under that test, so it is a subsequence of the search
/// results. It is empty exactly when no registry entry carries that name.
pub proof fn law_prefixes_for_filters_entries(name: Seq<char>)
    ensures
        spec_prefixes_for(name) == spec_entries().filter(
            |e: Entry| crate::name_equals(e.name, name),
        ),
        spec_prefixes_for(name) == spec_search(name).filter(
            |e: Entry| crate::name_equals(e.name, name),
        ),
        (spec_prefixes_for(name).len() == 0) <==> (forall|i: int|
            0 <= i < registry().len() ==> !crate::name_equals(#[trigger] registry()[i].1, name)),
{
    let qe = |e: Entry| crate::name_equals(e.name, name);
    let qc = |e: Entry| name_contains(e.name, name);
    let f = |t: (u32, &'static str)| entry_from(t);
    let pe = |t: (u32, &'static str)| crate::name_equals(t.1, name);
    let pc = |t: (u32, &'static str)| name_contains(t.1, name);
    assert(pe =~= |t: (u32, &'static str)| qe(entry_from(t)));
    assert(pc =~= |t: (u32, &'static str)| qc(entry_from(t)));
    lemma_filter_then_entries(registry(), qe);
    lemma_filter_then_entries(registry(), qc);
    assert forall|e: Entry| #[trigger] qe(e) implies qc(e) by {
        let h = lower_text(e.name@);
        assert(h.subrange(0, 0 + lower_text(name).len() as int) =~= h);
    }
    lemma_filter_narrower(registry().map_values(f), qc, qe);
    if forall|i: int|
        0 <= i < registry().len() ==> !crate::name_equals(#[trigger] registry()[i].1, name) {
        assert forall|i: int| 0 <= i < registry().len() implies !pe(#[trigger] registry()[i]) by {}
        if registry().filter(pe).len() > 0 {
            registry().lemma_filter_pred(pe, 0);
            let e = registry().filter(pe)[0];
            assert(registry().filter(pe).contains(e));
            registry().lemma_filter_contains_rev(pe, e);
            let j = choose|j: int| 0 <= j < registry().len() && registry()[j] == e;
            assert(!pe(registry()[j]));
        }
    } else {
        let k = choose|k: int|
            0 <= k < registry().len() && crate::name_equals(#[trigger] registry()[k].1, name);
        assert(pe(registry()[k]));
        registry().lemma_filter_contains(pe, k);
    }
}

proof fn lemma_leading_hex_stops(d: Seq<char>, k: int, n: int)
    requires
        0 <= k < d.len(),
        k < n <= d.len(),
        !is_hex_digit(d[k]),
        forall|j: int| 0 <= j < k ==> is_hex_digit(#[trigger] d[j]),
    ensures
        leading_hex(d.take(n)) == k,
    decreases n,
{
    let t = d.take(n);
    assert(t.drop_last() =~= d.take(n - 1));
    if n == k + 1 {
        let h = d.take(k);
        assert forall|j: int| 0 <= j < h.len() implies is_hex_digit(#[trigger] h[j]) by {
            assert(h[j] == d[j]);
        }
        lemma_leading_hex_of_hex(h);
        assert(t.last() == d[k]);
    } else {
        lemma_leading_hex_stops(d, k, n - 1);
    }
}

/// How `parse_mac48` reads its input, stated over `d`, the input's
/// non-separator characters in order:
/// - when every one of them is a hex digit, twelve give the six octets
///   `16 * d[2k] + d[2k + 1]`, more give `TooLong` and fewer give `TooShort`;
/// - otherwise the first character `d[k]` that is not a hex digit gives
///   `InvalidChar(d[k])` when at most twelve digits precede it, and
///   `TooLong` when more do;
/// - whenever it succeeds, `parse_oui` on the same input gives the OUI of the
///   first three octets.
pub proof fn law_parse_mac48_reads_digits(s: Seq<char>)
    ensures
        ({
            let d = mac_digits(s);
            &&& (forall|i: int| 0 <= i < d.len() ==> is_hex_digit(#[trigger] d[i])) ==> {
                &&& d.len() == 12 ==> spec_parse_mac48(s) == Ok::<Seq<u8>, ParseMacError>(
                    Seq::new(
                        6,
                        |k: int| (16 * digit_value(d[2 * k]) + digit_value(d[2 * k + 1])) as u8,
                    ),
                )
                &&& d.len() > 12 ==> spec_parse_mac48(s) == Err::<Seq<u8>, ParseMacError>(
                    ParseMacError::TooLong,
                )
                &&& d.len() < 12 ==> spec_parse_mac48(s) == Err::<Seq<u8>, ParseMacError>(
                    ParseMacError::TooShort,
                )
            }
            &&& forall|k: int|
                #![trigger d[k]]
                0 <= k < d.len() && !is_hex_digit(d[k]) && (forall|j: int|
                    0 <= j < k ==> is_hex_digit(#[trigger] d[j])) ==> spec_parse_mac48(s) == (
                if k <= 12 {
                    Err::<Seq<u8>, ParseMacError>(ParseMacError::InvalidChar(d[k]))
                } else {
                    Err::<Seq<u8>, ParseMacError>(ParseMacError::TooLong)
                })
            &&& spec_parse_mac48(s) is Ok ==> spec_parse_oui(s) == Ok::<u32, ParseMacError>(
                oui_value(
                    spec_parse_mac48(s)->Ok_0[0],
                    spec_parse_mac48(s)->Ok_0[1],
                    spec_parse_mac48(s)->Ok_0[2],
                ),
            )
        }),
{
    let d = mac_digits(s);
    if forall|i: int| 0 <= i < d.len() ==> is_hex_digit(#[trigger] d[i]) {
        lemma_leading_hex_of_hex(d);
        if d.len() == 12 {
            assert(octets_of(d) =~= Seq::new(
                6,
                |k: int| (16 * digit_value(d[2 * k]) + digit_value(d[2 * k + 1])) as u8,
            ));
        }
    }
    assert forall|k: int|
        #![trigger d[k]]
        0 <= k < d.len() && !is_hex_digit(d[k]) && (forall|j: int|
            0 <= j < k ==> is_hex_digit(#[trigger] d[j])) implies spec_parse_mac48(s) == (
        if k <= 12 {
            Err::<Seq<u8>, ParseMacError>(ParseMacError::InvalidChar(d[k]))
        } else {
            Err::<Seq<u8>, ParseMacError>(ParseMacError::TooLong)
        }) by {
        lemma_leading_hex_stops(d, k, d.len() as int);
        assert(d.take(d.len() as int) =~= d);
    }
    if spec_parse_mac48(s) is Ok {
        law_mac48_determines_oui(s);
    }
}

// ---------------------------------------------------------------------------
// Classification bits, reserved blocks, exit status, text rows, link-local
// ---------------------------------------------------------------------------

proof fn lemma_low_bits(b: u8)
    ensures
        (b / 2 % 2 == 1) == (b & 0x02 != 0),
        (b % 2 == 1) == (b & 0x01 != 0),
        b & 0x03 == 0x02 ==> b % 2 == 0 && b / 2 % 2 == 1 && b != 0 && b != 0x01 && b != 0x33
            && b != 0xFF,
        b & 0x03 == 0x00 ==> b % 2 == 0 && b / 2 % 2 == 0,
{
    assert((b / 2 % 2 == 1) == (b & 0x02 != 0)) by (bit_vector);
    assert((b % 2 == 1) == (b & 0x01 != 0)) by (bit_vector);
    assert(b & 0x03 == 0x02 ==> b % 2 == 0 && b / 2 % 2 == 1 && b != 0 && b != 0x01 && b != 0x33
        && b != 0xFF) by (bit_vector);
    assert(b & 0x03 == 0x00 ==> b % 2 == 0 && b / 2 % 2 == 0) by (bit_vector);
}

/// The locally-administered test reads bit 1 (mask `0x02`) of the first octet
/// and nothing else, and the multicast test reads bit 0 (mask `0x01`). So
/// every address whose first octet has its two low bits `10` (first octets
/// `0x02`, `0x06`, `0x0A`, `0x0E`, `0xDA`, ...) is a locally administered
/// unicast address for both `classify` and `scope`; low bits `00` make a
/// global unicast address for `classify`; and every non-broadcast address
/// with bit 0 set is multicast.
pub proof fn law_low_bits_decide_kind(o: [u8; 6])
    ensures
        crate::mac::local_bit(o@) == (o[0] & 0x02 != 0),
        group_bit(o@) == (o[0] & 0x01 != 0),
        o[0] & 0x03 == 0x02 ==> spec_classify(o@) == MacKind::LocalUnicast,
        o[0] & 0x03 == 0x02 ==> spec_scope(o@) == MacScope::LocalUnicast,
        o[0] & 0x03 == 0x00 ==> spec_classify(o@) == MacKind::GlobalUnicast,
        o[0] & 0x01 == 0x01 && o@ != seq![0xFFu8, 0xFF, 0xFF, 0xFF, 0xFF, 0xFF] ==> spec_classify(
            o@,
        ) == MacKind::Multicast,
        o@ == seq![0xFFu8, 0xFF, 0xFF, 0xFF, 0xFF, 0xFF] ==> spec_classify(o@)
            == MacKind::Broadcast && spec_scope(o@) == MacScope::Broadcast,
{
    lemma_low_bits(o[0]);
    let b = o[0];
    assert(b & 0x01 == 0x01 ==> b % 2 == 1) by (bit_vector);
    if o@ != seq![0xFFu8, 0xFF, 0xFF, 0xFF, 0xFF, 0xFF] {
        assert(!all_octets(o@, 0xFF)) by {
            if all_octets(o@, 0xFF) {
                assert(o@ =~= seq![0xFFu8, 0xFF, 0xFF, 0xFF, 0xFF, 0xFF]);
            }
        }
    }
}

/// Where `scope` puts each address, stated over its octets: the whole IEEE
/// bridge-protocol block `01:80:C2:00:00:00`-`0F` (STP, PAUSE, LLDP, ...) is
/// `BridgeProtocol`; `01:00:5E:00:00:00`-`01:00:5E:7F:FF:FF` is
/// `Ipv4Multicast`; `33:33:xx:xx:xx:xx` is `Ipv6Multicast`;
/// `00:00:5E:00:01:xx` is `Vrrp`; all ones is `Broadcast` and all zeros
/// `Zero`; any other address with bit 0 of the first octet set is
/// `OtherMulticast`; any other with the two low bits `10` is `LocalUnicast`
/// and with `00` is `GlobalUnicast`. Each answer is given exactly on its
/// addresses, so `Generic` is never given. STP and PAUSE addresses lie in the
/// bridge-protocol block.
pub proof fn law_scope_by_octets(o: [u8; 6])
    ensures
        ({
            let bcast = o@ == seq![0xFFu8, 0xFF, 0xFF, 0xFF, 0xFF, 0xFF];
            let zero = o@ == seq![0u8, 0, 0, 0, 0, 0];
            let bridge = o[0] == 0x01 && o[1] == 0x80 && o[2] == 0xC2 && o[3] == 0x00 && o[4]
                == 0x00 && o[5] <= 0x0F;
            let v4 = o[0] == 0x01 && o[1] == 0x00 && o[2] == 0x5E && o[3] < 0x80;
            let v6 = o[0] == 0x33 && o[1] == 0x33;
            let vrrp = o[0] == 0x00 && o[1] == 0x00 && o[2] == 0x5E && o[3] == 0x00 && o[4]
                == 0x01;
            &&& (spec_scope(o@) == MacScope::Broadcast) == bcast
            &&& (spec_scope(o@) == MacScope::Zero) == zero
            &&& (spec_scope(o@) == MacScope::BridgeProtocol) == bridge
            &&& (spec_scope(o@) == MacScope::Ipv4Multicast) == v4
            &&& (spec_scope(o@) == MacScope::Ipv6Multicast) == v6
            &&& (spec_scope(o@) == MacScope::Vrrp) == vrrp
            &&& (spec_scope(o@) == MacScope::OtherMulticast) == (o[0] & 0x01 == 0x01 && !bcast
                && !bridge && !v4 && !v6)
            &&& (spec_scope(o@) == MacScope::LocalUnicast) == (o[0] & 0x03 == 0x02)
            &&& (spec_scope(o@) == MacScope::GlobalUnicast) == (o[0] & 0x03 == 0x00 && !zero
                && !vrrp)
            &&& spec_scope(o@) != MacScope::Generic
            &&& crate::mac::in_bridge_protocol(o@) == bridge
        }),
        o@ == seq![0x01u8, 0x80, 0xC2, 0x00, 0x00, 0x00] ==> crate::mac::in_bridge_protocol(o@),
        o@ == seq![0x01u8, 0x80, 0xC2, 0x00, 0x00, 0x01] ==> crate::mac::in_bridge_protocol(o@),
{
    let b = o[0];
    lemma_low_bits(b);
    assert((b & 0x01 == 0x01) == (b % 2 == 1)) by (bit_vector);
    assert((b & 0x03 == 0x02) == (b % 2 == 0 && b / 2 % 2 == 1)) by (bit_vector);
    assert((b & 0x03 == 0x00) == (b % 2 == 0 && b / 2 % 2 == 0)) by (bit_vector);
    assert(all_octets(o@, 0xFF) == (o@ == seq![0xFFu8, 0xFF, 0xFF, 0xFF, 0xFF, 0xFF])) by {
        if all_octets(o@, 0xFF) {
            assert(o@ =~= seq![0xFFu8, 0xFF, 0xFF, 0xFF, 0xFF, 0xFF]);
        }
    }
    assert(all_octets(o@, 0) == (o@ == seq![0u8, 0, 0, 0, 0, 0])) by {
        if all_octets(o@, 0) {
            assert(o@ =~= seq![0u8, 0, 0, 0, 0, 0]);
        }
    }
    if o@ == seq![0x01u8, 0x80, 0xC2, 0x00, 0x00, 0x00] {
        assert(o[5] == o@[5]);
    }
    if o@ == seq![0x01u8, 0x80, 0xC2, 0x00, 0x00, 0x01] {
        assert(o[5] == o@[5]);
    }
}

/// What `classify` answers, stated over the octets: all ones is `Broadcast`;
/// any other address with bit 0 of the first octet set is `Multicast`;
/// otherwise bit 1 decides between `LocalUnicast` (set) and `GlobalUnicast`.
pub proof fn law_classify_by_octets(o: [u8; 6])
    ensures
        ({
            let bcast = o@ == seq![0xFFu8, 0xFF, 0xFF, 0xFF, 0xFF, 0xFF];
            &&& (spec_classify(o@) == MacKind::Broadcast) == bcast
            &&& (spec_classify(o@) == MacKind::Multicast) == (o[0] & 0x01 == 0x01 && !bcast)
            &&& (spec_classify(o@) == MacKind::LocalUnicast) == (o[0] & 0x03 == 0x02)
            &&& (spec_classify(o@) == MacKind::GlobalUnicast) == (o[0] & 0x03 == 0x00)
        }),
{
    let b = o[0];
    assert((b & 0x01 == 0x01) == (b % 2 == 1)) by (bit_vector);
    assert((b & 0x03 == 0x02) == (b % 2 == 0 && b / 2 % 2 == 1)) by (bit_vector);
    assert((b & 0x03 == 0x00) == (b % 2 == 0 && b / 2 % 2 == 0)) by (bit_vector);
    assert(all_octets(o@, 0xFF) == (o@ == seq![0xFFu8, 0xFF, 0xFF, 0xFF, 0xFF, 0xFF])) by {
        if all_octets(o@, 0xFF) {
            assert(o@ =~= seq![0xFFu8, 0xFF, 0xFF, 0xFF, 0xFF, 0xFF]);
        }
    }
}

/// The exit status ranks failures: any input that failed to parse makes it 2,
/// whatever the other records hold; otherwise any parsed input without a
/// vendor makes it 1; a batch in which every input parsed and matched gives 0.
/// The status of two batches run together is the larger of their statuses.
pub proof fn law_exit_code_ranks_failures(a: Seq<Record>, b: Seq<Record>)
    ensures
        (exists|i: int| 0 <= i < a.len() && (#[trigger] a[i]).error is Some) ==> spec_exit_code(a)
            == 2,
        (forall|i: int| 0 <= i < a.len() ==> (#[trigger] a[i]).error is None) && (exists|i: int|
            0 <= i < a.len() && (#[trigger] a[i]).vendor is None) ==> spec_exit_code(a) == 1,
        (forall|i: int|
            0 <= i < a.len() ==> (#[trigger] a[i]).error is None && a[i].vendor is Some)
            ==> spec_exit_code(a) == 0,
        spec_exit_code(a + b) == if spec_exit_code(a) >= spec_exit_code(b) {
            spec_exit_code(a)
        } else {
            spec_exit_code(b)
        },
{
    let c = a + b;
    assert forall|i: int| 0 <= i < a.len() implies #[trigger] c[i] == a[i] by {}
    assert forall|j: int| 0 <= j < b.len() implies #[trigger] c[a.len() + j] == b[j] by {}
    if exists|i: int| 0 <= i < a.len() && (#[trigger] a[i]).error is Some {
        let i = choose|i: int| 0 <= i < a.len() && (#[trigger] a[i]).error is Some;
        assert(c[i].error is Some);
    }
    if exists|i: int| 0 <= i < b.len() && (#[trigger] b[i]).error is Some {
        let i = choose|i: int| 0 <= i < b.len() && (#[trigger] b[i]).error is Some;
        assert(c[a.len() + i].error is Some);
    }
    if exists|i: int| 0 <= i < a.len() && (#[trigger] a[i]).error is None && a[i].vendor is None {
        let i = choose|i: int|
            0 <= i < a.len() && (#[trigger] a[i]).error is None && a[i].vendor is None;
        assert(c[i].error is None && c[i].vendor is None);
    }
    if exists|i: int| 0 <= i < b.len() && (#[trigger] b[i]).error is None && b[i].vendor is None {
        let i = choose|i: int|
            0 <= i < b.len() && (#[trigger] b[i]).error is None && b[i].vendor is None;
        assert(c[a.len() + i].error is None && c[a.len() + i].vendor is None);
    }
    if exists|k: int| 0 <= k < c.len() && (#[trigger] c[k]).error is Some {
        let k = choose|k: int| 0 <= k < c.len() && (#[trigger] c[k]).error is Some;
        if k < a.len() {
            assert(a[k].error is Some);
        } else {
            assert(b[k - a.len()] == c[k]);
        }
    }
    if exists|k: int| 0 <= k < c.len() && (#[trigger] c[k]).error is None && c[k].vendor is None {
        let k = choose|k: int|
            0 <= k < c.len() && (#[trigger] c[k]).error is None && c[k].vendor is None;
        if k < a.len() {
            assert(a[k].error is None && a[k].vendor is None);
        } else {
            assert(b[k - a.len()] == c[k]);
        }
    }
    if exists|i: int| 0 <= i < a.len() && (#[trigger] a[i]).vendor is None {
        if forall|i: int| 0 <= i < a.len() ==> (#[trigger] a[i]).error is None {
            let i = choose|i: int| 0 <= i < a.len() && (#[trigger] a[i]).vendor is None;
            assert(a[i].error is None);
        }
    }
}

/// `--quiet` hides only unmatched addresses: a record that failed to parse
/// always gets a line, the same with or without `quiet`, which starts with
/// the input and ends with the error message; a record with a vendor gets the
/// same line either way; without `quiet` every record gets a line; and with
/// `quiet` the line is missing exactly for a parsed input with no vendor.
pub proof fn law_quiet_hides_only_unknown(r: Record, class: Option<Seq<char>>, quiet: bool)
    ensures
        r.error is Some ==> spec_text_row(r, class, quiet) is Some,
        r.error is Some || r.vendor is Some ==> spec_text_row(r, class, true) == spec_text_row(
            r,
            class,
            false,
        ),
        spec_text_row(r, class, false) is Some,
        (spec_text_row(r, class, true) is None) == (r.error is None && r.vendor is None),
        r.error matches Some(e) ==> ({
            let line = spec_text_row(r, class, quiet)->Some_0;
            &&& line.take(r.input@.len() as int) == r.input@
            &&& line.len() >= e@.len()
            &&& line.subrange(line.len() - e@.len(), line.len() as int) == e@
        }),
        r.error is None ==> (r.vendor matches Some(v) ==> ({
            let line = spec_text_row(r, class, quiet)->Some_0;
            &&& line.len() >= v@.len()
            &&& line.subrange(line.len() - v@.len(), line.len() as int) == v@
        })),
        r.error is None && r.vendor is None ==> ({
            let line = spec_text_row(r, class, false)->Some_0;
            &&& line.len() >= 10
            &&& line.subrange(line.len() - 10, line.len() as int) == " (unknown)"@
        }),
{
    reveal_strlit(" (unknown)");
    if r.error is None {
        if let Some(v) = r.vendor {
            let line = spec_text_row(r, class, quiet)->Some_0;
            assert(line.subrange(line.len() - v@.len(), line.len() as int) =~= v@);
        } else {
            let line = spec_text_row(r, class, false)->Some_0;
            assert(line.subrange(line.len() - 10, line.len() as int) =~= " (unknown)"@);
        }
    }
    if let Some(e) = r.error {
        let line = spec_text_row(r, class, quiet)->Some_0;
        let p = pad_right(r.input@, 20);
        assert(line == p + " error: "@ + e@);
        assert(p.take(r.input@.len() as int) =~= r.input@);
        assert(line.take(r.input@.len() as int) =~= r.input@);
        assert(line.subrange(line.len() - e@.len(), line.len() as int) =~= e@);
    }
}

proof fn lemma_be_split(hi: u8, lo: u8)
    ensures
        ((hi * 256 + lo) as u16) == hi * 256 + lo,
        (((hi * 256 + lo) as u16) / 256) as u8 == hi,
        (((hi * 256 + lo) as u16) % 256) as u8 == lo,
{
    assert(0 <= hi * 256 + lo <= 0xFFFF) by (nonlinear_arith)
        requires
            0 <= lo < 256,
            0 <= hi < 256,
    ;
    assert((hi * 256 + lo) / 256 == hi && (hi * 256 + lo) % 256 == lo) by (nonlinear_arith)
        requires
            0 <= lo < 256,
            0 <= hi < 256,
    ;
}

/// The link-local address of a MAC is `fe80::` followed by its Modified
/// EUI-64 identifier: the last four groups are `(o0 ^ 02)o1`, `o2 FF`,
/// `FE o3`, `o4 o5` (the universal/local bit of the first octet flipped,
/// every other bit kept), and recovering the MAC from the sixteen bytes of
/// those groups gives the address back.
pub proof fn law_link_local_groups(o: [u8; 6])
    ensures
        ({
            let g = crate::mac::spec_link_local_segments(o@);
            &&& g.len() == 8
            &&& g[0] == 0xfe80 && g[1] == 0 && g[2] == 0 && g[3] == 0
            &&& g[4] == (o[0] ^ 0x02) * 256 + o[1]
            &&& g[5] == o[2] * 256 + 0xFF
            &&& g[6] == 0xFE * 256 + o[3]
            &&& g[7] == o[4] * 256 + o[5]
        }),
        (spec_to_eui64(o@)[0] ^ o[0]) == 0x02,
        crate::mac::spec_mac_from_link_local(
            Seq::new(
                16,
                |i: int|
                    if i % 2 == 0 {
                        (crate::mac::spec_link_local_segments(o@)[i / 2] / 256) as u8
                    } else {
                        (crate::mac::spec_link_local_segments(o@)[i / 2] % 256) as u8
                    },
            ),
        ) == Some(o@),
{
    let g = crate::mac::spec_link_local_segments(o@);
    let e = spec_to_eui64(o@);
    let b0 = o[0];
    assert((b0 ^ 0x02) ^ b0 == 0x02) by (bit_vector);
    lemma_be_split(e[0], e[1]);
    lemma_be_split(e[2], e[3]);
    lemma_be_split(e[4], e[5]);
    lemma_be_split(e[6], e[7]);
    lemma_be_split(0xfe, 0x80);
    lemma_be_split(0, 0);
    let bytes = Seq::new(
        16,
        |i: int|
            if i % 2 == 0 {
                (g[i / 2] / 256) as u8
            } else {
                (g[i / 2] % 256) as u8
            },
    );
    let a = crate::mac::spec_link_local_octets(o@);
    assert(bytes =~= a);
    law_link_local_round_trip(o);
}

} // verus!
