//! # oui-lookup
//!
//! Fast, offline MAC-address vendor (OUI) lookup.
//!
//! A registry table is compiled directly into the library, so there are no
//! network calls and no cache files. Lookups are a bisection over the sorted
//! embedded table. That table is a sample of 23 real IEEE MA-L assignments
//! (see [`db`]), not the whole registry: addresses outside it get no vendor. Lookups are by the 24-bit Organizationally Unique
//! Identifier (OUI), the first three octets of an address.
use vstd::prelude::*;

pub mod cli;
pub mod db;
pub mod hex;
pub mod laws;
pub mod mac;
pub mod stats;
pub mod text;

pub use db::{is_registry_name, lookup_prefix, registry, registry_name, ENTRY_COUNT};
pub use stats::top_vendors;
pub use mac::{
    classify, eui64_to_mac, format_mac48, format_mac48_bare, format_mac48_cisco,
    format_mac48_hyphen, format_mac48_lower, format_oui, format_oui_lower, is_bridge_protocol,
    is_broadcast, is_ipv4_multicast, is_ipv6_multicast, is_locally_administered, is_multicast,
    is_pause, is_stp_bpdu, is_unicast, is_vrrp, is_zero, link_local_ipv6_segments,
    mac_from_link_local,
    solicited_node_mac, split_mac48, with_oui_octets,
    octets_to_oui, oui_to_octets, parse_mac48, parse_oui, scope, to_eui64, MacKind, MacScope,
    ParseMacError,
};

use crate::hex::join_hex;
use crate::mac::{mac48_result_view, oui_octets, oui_value, spec_parse_mac48, spec_parse_oui};
use crate::text::{
    chars_lt, chars_of, contains_chars, contains_text, lower_chars, lower_text, same_chars, text_lt,
};

verus! {

// ---------------------------------------------------------------------------
// Vendors and entries
// ---------------------------------------------------------------------------

/// A resolved vendor for an OUI prefix.
#[derive(Debug, Clone, PartialEq, Eq)]
pub struct Vendor {
    /// The 24-bit OUI prefix that matched, formatted as `AA:BB:CC`.
    pub prefix: String,
    /// The registered organization name.
    pub name: String,
}

/// The canonical `AA:BB:CC` spelling of an OUI.
pub open spec fn oui_text(oui: u32) -> Seq<char> {
    join_hex(oui_octets(oui), true, seq![':'])
}

/// The OUI a `Vendor` prefix stands for: what `parse_oui` reads from it, or 0
/// when it does not parse.
pub open spec fn prefix_value(prefix: Seq<char>) -> u32 {
    match spec_parse_oui(prefix) {
        Ok(v) => v,
        Err(_) => 0,
    }
}

impl Vendor {
    /// Parse the canonical `AA:BB:CC` prefix back to its three bytes.
    ///
    /// Always succeeds for values produced by this crate; a malformed `prefix`
    /// returns `[0, 0, 0]`.
    pub fn octets(&self) -> (r: [u8; 3])
        ensures
            r@ == oui_octets(prefix_value(self.prefix@)),
    {
        let oui = match parse_oui(self.prefix.as_str()) {
            Ok(v) => v,
            Err(_) => 0,
        };
        oui_to_octets(oui)
    }

    /// A full address made of this vendor's OUI followed by `suffix`.
    pub fn with_suffix(&self, suffix: [u8; 3]) -> (r: [u8; 6])
        ensures
            r@ == oui_octets(prefix_value(self.prefix@)) + suffix@,
    {
        with_oui_octets(self.octets(), suffix)
    }

    /// The 24-bit OUI prefix as a raw integer, in the low bits of the returned
    /// `u32`; 0 for a malformed prefix.
    pub fn oui(&self) -> (r: u32)
        ensures
            r == prefix_value(self.prefix@),
    {
        match parse_oui(self.prefix.as_str()) {
            Ok(v) => v,
            Err(_) => 0,
        }
    }
}

/// A single entry from the embedded OUI table.
#[derive(Debug, Clone, Copy, PartialEq, Eq)]
pub struct Entry {
    /// The 24-bit OUI prefix, in the low bits of the `u32`.
    pub prefix: u32,
    /// The registered organization name.
    pub name: &'static str,
}

/// The `Entry` for a registry row.
pub open spec fn entry_from(t: (u32, &'static str)) -> Entry {
    Entry { prefix: t.0, name: t.1 }
}

impl Entry {
    /// The OUI prefix formatted as the canonical `AA:BB:CC` string.
    pub fn prefix_str(&self) -> (r: String)
        ensures
            r@ == oui_text(self.prefix),
    {
        format_oui(self.prefix)
    }

    /// The OUI prefix as its three bytes, most-significant first.
    pub fn octets(&self) -> (r: [u8; 3])
        ensures
            r@ == oui_octets(self.prefix),
    {
        oui_to_octets(self.prefix)
    }

    /// `AA:BB:CC  Name`: the prefix and the name separated by two spaces
    /// (what `Display` would print).
    pub fn to_text(&self) -> (r: String)
        ensures
            r@ == oui_text(self.prefix) + "  "@ + self.name@,
    {
        let mut out = self.prefix_str();
        out.append("  ");
        out.append(self.name);
        out
    }
}

// ---------------------------------------------------------------------------
// Lookups
// ---------------------------------------------------------------------------

/// What `lookup` returns for the characters `mac`.
pub open spec fn spec_lookup(mac: Seq<char>) -> Option<&'static str> {
    match spec_parse_oui(mac) {
        Ok(oui) => registry_name(oui),
        Err(_) => None,
    }
}

/// The `(prefix, name)` texts of the vendor registered for `oui`, if any.
pub open spec fn vendor_of(oui: u32) -> Option<(Seq<char>, Seq<char>)> {
    match registry_name(oui) {
        Some(n) => Some((oui_text(oui), n@)),
        None => None,
    }
}

/// A `Vendor` result taken as its `(prefix, name)` texts.
pub open spec fn vendor_view(v: Option<Vendor>) -> Option<(Seq<char>, Seq<char>)> {
    match v {
        Some(v) => Some((v.prefix@, v.name@)),
        None => None,
    }
}

/// What `lookup_vendor` returns for the characters `mac`, as texts.
pub open spec fn spec_lookup_vendor(mac: Seq<char>) -> Option<(Seq<char>, Seq<char>)> {
    match spec_parse_oui(mac) {
        Ok(oui) => vendor_of(oui),
        Err(_) => None,
    }
}

/// The OUI of the first three octets of an address.
pub open spec fn octets_oui(octets: [u8; 6]) -> u32 {
    oui_value(octets[0], octets[1], octets[2])
}

/// Look up the vendor name for a MAC address or OUI prefix.
///
/// Accepts any of the usual textual MAC formats (`:`, `-`, `.`, or no
/// separators; upper or lower case). Only the first three octets are
/// significant. Returns `None` if the input does not parse or the OUI is
/// unregistered.
pub fn lookup(mac: &str) -> (r: Option<&'static str>)
    ensures
        r == spec_lookup(mac@),
{
    match parse_oui(mac) {
        Ok(oui) => lookup_prefix(oui),
        Err(_) => None,
    }
}

/// Like [`lookup`], but reports parse errors instead of collapsing them to
/// `None`: `Ok(Some(name))` for a registered OUI, `Ok(None)` for a parsed but
/// unregistered one, `Err(_)` for input that is not a MAC address or OUI.
pub fn try_lookup(mac: &str) -> (r: Result<Option<&'static str>, ParseMacError>)
    ensures
        r == (match spec_parse_oui(mac@) {
            Ok(oui) => Ok(registry_name(oui)),
            Err(e) => Err::<Option<&'static str>, ParseMacError>(e),
        }),
{
    let oui = parse_oui(mac)?;
    Ok(lookup_prefix(oui))
}

/// Build the owned `Vendor` for a registered OUI.
fn vendor_for(oui: u32) -> (r: Option<Vendor>)
    ensures
        vendor_view(r) == vendor_of(oui),
{
    match lookup_prefix(oui) {
        Some(name) => Some(Vendor { prefix: format_oui(oui), name: name.to_owned() }),
        None => None,
    }
}

/// Look up a MAC address and return an owned [`Vendor`] (canonical prefix and
/// name). Returns `None` if the input is unparseable or the OUI unregistered.
pub fn lookup_vendor(mac: &str) -> (r: Option<Vendor>)
    ensures
        vendor_view(r) == spec_lookup_vendor(mac@),
{
    match parse_oui(mac) {
        Ok(oui) => vendor_for(oui),
        Err(_) => None,
    }
}

/// Normalize any accepted MAC spelling to the canonical upper-case,
/// colon-separated 48-bit form (`AA:BB:CC:DD:EE:FF`).
///
/// Returns the same [`ParseMacError`] as [`parse_mac48`] if the input is not a
/// full, valid 48-bit address.
pub fn normalize_mac(mac: &str) -> (r: Result<String, ParseMacError>)
    ensures
        match spec_parse_mac48(mac@) {
            Ok(o) => r is Ok && r->Ok_0@ == join_hex(o, true, seq![':']),
            Err(e) => r == Err::<String, ParseMacError>(e),
        },
{
    let octets = parse_mac48(mac)?;
    Ok(format_mac48(octets))
}

/// Like [`normalize_mac`], but produces the lower-case canonical form
/// (`aa:bb:cc:dd:ee:ff`).
pub fn normalize_mac_lower(mac: &str) -> (r: Result<String, ParseMacError>)
    ensures
        match spec_parse_mac48(mac@) {
            Ok(o) => r is Ok && r->Ok_0@ == join_hex(o, false, seq![':']),
            Err(e) => r == Err::<String, ParseMacError>(e),
        },
{
    let octets = parse_mac48(mac)?;
    Ok(format_mac48_lower(octets))
}

/// The OUI of the first three octets, computed from the octets.
fn oui_of_octets(octets: [u8; 6]) -> (r: u32)
    ensures
        r == octets_oui(octets),
        r < 0x100_0000,
{
    octets_to_oui([octets[0], octets[1], octets[2]])
}

/// Look up the vendor for a MAC address already parsed into octets.
pub fn lookup_octets(octets: [u8; 6]) -> (r: Option<&'static str>)
    ensures
        r == registry_name(octets_oui(octets)),
{
    lookup_prefix(oui_of_octets(octets))
}

/// Look up a pre-parsed address and return the matching [`Entry`]; `None` if
/// the OUI is unregistered.
pub fn lookup_entry_octets(octets: [u8; 6]) -> (r: Option<Entry>)
    ensures
        r == (match registry_name(octets_oui(octets)) {
            Some(n) => Some(Entry { prefix: octets_oui(octets), name: n }),
            None => None,
        }),
{
    let oui = oui_of_octets(octets);
    match lookup_prefix(oui) {
        Some(name) => Some(Entry { prefix: oui, name }),
        None => None,
    }
}

/// Look up a pre-parsed address and return an owned [`Vendor`].
pub fn lookup_vendor_octets(octets: [u8; 6]) -> (r: Option<Vendor>)
    ensures
        vendor_view(r) == vendor_of(octets_oui(octets)),
{
    vendor_for(oui_of_octets(octets))
}

/// Look up the vendor for a raw 24-bit OUI prefix (only the low 24 bits are
/// used).
pub fn lookup_oui(oui: u32) -> (r: Option<&'static str>)
    ensures
        r == registry_name(oui % 0x100_0000),
{
    assert(oui & 0x00FF_FFFF == oui % 0x100_0000) by (bit_vector);
    lookup_prefix(oui & 0x00FF_FFFF)
}

/// Look up a MAC address and return the matching [`Entry`] (prefix and name),
/// or `None` if unparseable or unregistered.
pub fn lookup_entry(mac: &str) -> (r: Option<Entry>)
    ensures
        r == (match spec_parse_oui(mac@) {
            Ok(oui) => match registry_name(oui) {
                Some(n) => Some(Entry { prefix: oui, name: n }),
                None => None,
            },
            Err(_) => None,
        }),
{
    let oui = match parse_oui(mac) {
        Ok(v) => v,
        Err(_) => {
            return None;
        },
    };
    match lookup_prefix(oui) {
        Some(name) => Some(Entry { prefix: oui, name }),
        None => None,
    }
}

/// Returns `true` if the OUI of the given MAC address is present in the
/// embedded registry. Equivalent to `lookup(mac).is_some()`.
pub fn is_registered(mac: &str) -> (r: bool)
    ensures
        r == spec_lookup(mac@) is Some,
{
    lookup(mac).is_some()
}

/// Look up many MAC addresses at once, returning the results in input order.
pub fn lookup_many(macs: &[&str]) -> (r: Vec<Option<&'static str>>)
    ensures
        r.len() == macs.len(),
        forall|i: int| 0 <= i < macs.len() ==> r[i] == spec_lookup(#[trigger] macs[i]@),
{
    let mut out: Vec<Option<&'static str>> = Vec::new();
    for i in 0..macs.len()
        invariant
            out.len() == i,
            forall|j: int| 0 <= j < i ==> out[j] == spec_lookup(#[trigger] macs[j]@),
    {
        out.push(lookup(macs[i]));
    }
    out
}

/// Look up many pre-parsed addresses at once, in input order.
pub fn lookup_octets_many(macs: &[[u8; 6]]) -> (r: Vec<Option<&'static str>>)
    ensures
        r.len() == macs.len(),
        forall|i: int|
            0 <= i < macs.len() ==> r[i] == registry_name(octets_oui(#[trigger] macs[i])),
{
    let mut out: Vec<Option<&'static str>> = Vec::new();
    for i in 0..macs.len()
        invariant
            out.len() == i,
            forall|j: int| 0 <= j < i ==> out[j] == registry_name(octets_oui(#[trigger] macs[j])),
    {
        out.push(lookup_octets(macs[i]));
    }
    out
}

/// Look up many MAC addresses at once, returning an owned [`Vendor`] per
/// input, in input order.
pub fn lookup_vendor_many(macs: &[&str]) -> (r: Vec<Option<Vendor>>)
    ensures
        r.len() == macs.len(),
        forall|i: int|
            0 <= i < macs.len() ==> vendor_view(#[trigger] r[i]) == spec_lookup_vendor(macs[i]@),
{
    let mut out: Vec<Option<Vendor>> = Vec::new();
    for i in 0..macs.len()
        invariant
            out.len() == i,
            forall|j: int|
                0 <= j < i ==> vendor_view(#[trigger] out[j]) == spec_lookup_vendor(macs[j]@),
    {
        out.push(lookup_vendor(macs[i]));
    }
    out
}

// ---------------------------------------------------------------------------
// Walking and searching the registry
// ---------------------------------------------------------------------------

/// Every registry row as an `Entry`, in ascending prefix order.
pub open spec fn spec_entries() -> Seq<Entry> {
    registry().map_values(|t: (u32, &'static str)| entry_from(t))
}

/// Every entry in the embedded registry, in ascending prefix order.
pub fn entries() -> (r: Vec<Entry>)
    ensures
        r@ == spec_entries(),
{
    let n = db::len();
    let mut out: Vec<Entry> = Vec::new();
    for i in 0..n
        invariant
            n == registry().len(),
            out@ == registry().take(i as int).map_values(|t: (u32, &'static str)| entry_from(t)),
    {
        let (prefix, name) = db::entry(i).unwrap();
        out.push(Entry { prefix, name });
        assert(out@ =~= registry().take(i + 1).map_values(
            |t: (u32, &'static str)| entry_from(t),
        ));
    }
    assert(registry().take(n as int) =~= registry());
    out
}

/// A vendor name matches a search needle when the needle occurs in it,
/// ignoring ASCII case.
pub open spec fn name_contains(name: &'static str, needle: Seq<char>) -> bool {
    contains_text(lower_text(name@), lower_text(needle))
}

/// What `search` returns: the entries, in prefix order, whose names contain
/// `needle` ignoring ASCII case.
pub open spec fn spec_search(needle: Seq<char>) -> Seq<Entry> {
    registry().filter(|t: (u32, &'static str)| name_contains(t.1, needle)).map_values(
        |t: (u32, &'static str)| entry_from(t),
    )
}

/// Find all entries whose vendor name contains `needle`, case-insensitively,
/// in prefix order. A linear scan over the whole table.
pub fn search(needle: &str) -> (r: Vec<Entry>)
    ensures
        r@ == spec_search(needle@),
{
    let key = lower_chars(needle);
    let n = db::len();
    let mut out: Vec<Entry> = Vec::new();
    let ghost pred = |t: (u32, &'static str)| name_contains(t.1, needle@);
    let ghost f = |t: (u32, &'static str)| entry_from(t);
    for i in 0..n
        invariant
            n == registry().len(),
            key@ == lower_text(needle@),
            pred == (|t: (u32, &'static str)| name_contains(t.1, needle@)),
            f == (|t: (u32, &'static str)| entry_from(t)),
            out@ == registry().take(i as int).filter(pred).map_values(f),
    {
        let (prefix, name) = db::entry(i).unwrap();
        let ghost prev = registry().take(i as int).filter(pred);
        proof {
            reveal_with_fuel(Seq::filter, 1);
            assert(registry().take(i + 1).drop_last() =~= registry().take(i as int));
        }
        let lowered = lower_chars(name);
        if contains_chars(&lowered, &key) {
            out.push(Entry { prefix, name });
            assert(out@ =~= prev.push(registry()[i as int]).map_values(f));
        }
    }
    assert(registry().take(n as int) =~= registry());
    out
}

/// `v` lists the distinct vendor names of the registry, each once, in
/// ascending `str` order.
pub open spec fn is_vendor_list(v: Seq<&'static str>) -> bool {
    &&& forall|i: int, j: int| 0 <= i < j < v.len() ==> text_lt(#[trigger] v[i]@, #[trigger] v[j]@)
    &&& forall|i: int| 0 <= i < v.len() ==> #[trigger] is_registry_name(v[i])
    &&& forall|k: int|
        0 <= k < registry().len() ==> exists|i: int|
            0 <= i < v.len() && #[trigger] v[i]@ == (#[trigger] registry()[k]).1@
}

/// Every distinct vendor name in the embedded registry, sorted in ascending
/// order, each once.
pub fn vendors() -> (r: Vec<&'static str>)
    ensures
        is_vendor_list(r@),
{
    let n = db::len();
    let mut names: Vec<&'static str> = Vec::new();
    let mut keys: Vec<Vec<char>> = Vec::new();
    for k in 0..n
        invariant
            n == registry().len(),
            keys.len() == names.len(),
            forall|i: int| 0 <= i < names.len() ==> (#[trigger] keys[i])@ == names[i]@,
            forall|i: int, j: int|
                0 <= i < j < names.len() ==> text_lt(#[trigger] names[i]@, #[trigger] names[j]@),
            forall|i: int| 0 <= i < names.len() ==> #[trigger] is_registry_name(names[i]),
            forall|t: int|
                0 <= t < k ==> exists|i: int|
                    0 <= i < names.len() && #[trigger] names[i]@ == (#[trigger] registry()[t]).1@,
    {
        let (_, name) = db::entry(k).unwrap();
        let key = chars_of(name);
        let mut p: usize = 0;
        while p < keys.len() && chars_lt(&keys[p], &key)
            invariant
                keys.len() == names.len(),
                key@ == name@,
                p <= keys.len(),
                forall|i: int| 0 <= i < names.len() ==> (#[trigger] keys[i])@ == names[i]@,
                forall|i: int| 0 <= i < p ==> text_lt((#[trigger] names[i])@, name@),
                forall|i: int, j: int|
                    0 <= i < j < names.len() ==> text_lt(#[trigger] names[i]@, #[trigger] names[j]@),
            decreases keys.len() - p,
        {
            p += 1;
        }
        let ghost old_names = names@;
        if p < keys.len() && same_chars(&keys[p], &key) {
            assert(names@[p as int]@ == registry()[k as int].1@);
        } else {
            proof {
                // Everything from `p` on comes after `name`.
                if p < names.len() {
                    crate::text::lemma_text_lt_total(names@[p as int]@, name@);
                }
                assert forall|j: int| p <= j < names.len() implies text_lt(name@, #[trigger] names@[j]@) by {
                    if j > p {
                        crate::text::lemma_text_lt_transitive(name@, names@[p as int]@, names@[j]@);
                    }
                }
            }
            names.insert(p, name);
            keys.insert(p, key);
            proof {
                assert forall|i: int, j: int|
                    0 <= i < j < names.len() implies text_lt(#[trigger] names[i]@, #[trigger] names[j]@) by {
                    if j == p as int {
                        assert(names[i] == old_names[i]);
                    } else if i == p as int {
                        assert(names[j] == old_names[j - 1]);
                    } else if j < p {
                        assert(names[i] == old_names[i] && names[j] == old_names[j]);
                    } else if i < p {
                        assert(names[i] == old_names[i] && names[j] == old_names[j - 1]);
                    } else {
                        assert(names[i] == old_names[i - 1] && names[j] == old_names[j - 1]);
                    }
                }
                assert forall|i: int| 0 <= i < names.len() implies #[trigger] is_registry_name(names[i]) by {
                    if i == p as int {
                        assert(registry()[k as int].1 == names[i]);
                    } else if i < p {
                        assert(names[i] == old_names[i]);
                    } else {
                        assert(names[i] == old_names[i - 1]);
                    }
                }
                assert forall|t: int| 0 <= t < k implies exists|i: int|
                    0 <= i < names.len() && #[trigger] names[i]@ == (#[trigger] registry()[t]).1@ by {
                    let i0 = choose|i: int|
                        0 <= i < old_names.len() && #[trigger] old_names[i]@ == (#[trigger] registry()[t]).1@;
                    if i0 < p {
                        assert(names[i0] == old_names[i0]);
                    } else {
                        assert(names[i0 + 1] == old_names[i0]);
                    }
                }
                assert(names[p as int]@ == registry()[k as int].1@);
            }
        }
    }
    names
}

/// A vendor name equals `name` ignoring ASCII case.
pub open spec fn name_equals(vendor: &'static str, name: Seq<char>) -> bool {
    lower_text(vendor@) == lower_text(name)
}

/// What `prefixes_for` returns: the entries, in prefix order, whose names
/// equal `name` ignoring ASCII case.
pub open spec fn spec_prefixes_for(name: Seq<char>) -> Seq<Entry> {
    registry().filter(|t: (u32, &'static str)| name_equals(t.1, name)).map_values(
        |t: (u32, &'static str)| entry_from(t),
    )
}

/// Find every OUI prefix registered to a vendor whose name matches `name`
/// exactly, case-insensitively, in prefix order.
pub fn prefixes_for(name: &str) -> (r: Vec<Entry>)
    ensures
        r@ == spec_prefixes_for(name@),
{
    let key = lower_chars(name);
    let n = db::len();
    let mut out: Vec<Entry> = Vec::new();
    let ghost pred = |t: (u32, &'static str)| name_equals(t.1, name@);
    let ghost f = |t: (u32, &'static str)| entry_from(t);
    for i in 0..n
        invariant
            n == registry().len(),
            key@ == lower_text(name@),
            pred == (|t: (u32, &'static str)| name_equals(t.1, name@)),
            f == (|t: (u32, &'static str)| entry_from(t)),
            out@ == registry().take(i as int).filter(pred).map_values(f),
    {
        let (prefix, vendor) = db::entry(i).unwrap();
        let ghost prev = registry().take(i as int).filter(pred);
        proof {
            reveal_with_fuel(Seq::filter, 1);
            assert(registry().take(i + 1).drop_last() =~= registry().take(i as int));
        }
        let lowered = lower_chars(vendor);
        if same_chars(&lowered, &key) {
            out.push(Entry { prefix, name: vendor });
            assert(out@ =~= prev.push(registry()[i as int]).map_values(f));
        }
    }
    assert(registry().take(n as int) =~= registry());
    out
}

/// Count how many OUI prefixes are registered to vendors whose names contain
/// `needle`, case-insensitively.
pub fn count_matching(needle: &str) -> (r: usize)
    ensures
        r == spec_search(needle@).len(),
{
    search(needle).len()
}


/// Look up the vendor for a three-byte OUI prefix.
pub fn lookup_oui_octets(octets: [u8; 3]) -> (r: Option<&'static str>)
    ensures
        r == registry_name(oui_value(octets[0], octets[1], octets[2])),
{
    lookup_prefix(octets_to_oui(octets))
}

/// The lowest OUI prefix registered to a vendor whose name equals `name`,
/// case-insensitively; `None` for an unknown vendor.
pub fn vendor_oui(name: &str) -> (r: Option<u32>)
    ensures
        r == (if spec_prefixes_for(name@).len() > 0 {
            Some(spec_prefixes_for(name@)[0].prefix)
        } else {
            None::<u32>
        }),
{
    let all = prefixes_for(name);
    if all.len() > 0 {
        Some(all[0].prefix)
    } else {
        None
    }
}

/// The three bytes of [`vendor_oui`].
pub fn vendor_octets(name: &str) -> (r: Option<[u8; 3]>)
    ensures
        match r {
            Some(o) => spec_prefixes_for(name@).len() > 0 && o@ == oui_octets(
                spec_prefixes_for(name@)[0].prefix,
            ),
            None => spec_prefixes_for(name@).len() == 0,
        },
{
    match vendor_oui(name) {
        Some(oui) => Some(oui_to_octets(oui)),
        None => None,
    }
}

/// How many OUI blocks are registered to a vendor whose name equals `name`,
/// case-insensitively.
pub fn vendor_block_count(name: &str) -> (r: usize)
    ensures
        r == spec_prefixes_for(name@).len(),
{
    prefixes_for(name).len()
}

/// The number of distinct vendor names in the registry.
pub fn total_vendors() -> (r: usize)
    ensures
        exists|v: Seq<&'static str>| is_vendor_list(v) && v.len() == r,
{
    vendors().len()
}


/// Resolve the vendor of the MAC address behind an IPv6 link-local address
/// (given as its sixteen octets) in one call.
pub fn lookup_link_local(addr: [u8; 16]) -> (r: Option<&'static str>)
    ensures
        r == (match crate::mac::spec_mac_from_link_local(addr@) {
            Some(m) => registry_name(oui_value(m[0], m[1], m[2])),
            None => None,
        }),
{
    match mac_from_link_local(addr) {
        Some(m) => lookup_octets(m),
        None => None,
    }
}

} // verus!
