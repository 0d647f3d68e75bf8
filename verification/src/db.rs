//! The embedded OUI registry: a table of (prefix, vendor) pairs sorted by
//! prefix, searched by bisection.
//!
//! The table is a sample, not the whole IEEE MA-L registry: it holds 23 real
//! MA-L assignments, and no gzip snapshot of the registry is packed into this
//! crate. Every lookup, search, listing and statistic answers for this sample
//! only; an address whose OUI is registered with IEEE but absent here gets no
//! vendor. The contracts are stated over `registry()`, so a complete snapshot
//! put in its place keeps every proof's shape.
use vstd::prelude::*;

verus! {

/// The number of OUI prefixes embedded in this build of the crate: the size of
/// the sample table, far below the tens of thousands in the IEEE registry.
pub const ENTRY_COUNT: usize = 23;

/// The embedded registry sample: 23 real IEEE MA-L `(prefix, vendor name)`
/// pairs in strictly ascending prefix order, each prefix a 24-bit value.
pub open spec fn registry() -> Seq<(u32, &'static str)> {
    seq![
        (0x00000Cu32, "Cisco Systems, Inc"),
        (0x00005Eu32, "ICANN, IANA Department"),
        (0x000393u32, "Apple, Inc."),
        (0x000502u32, "Apple, Inc."),
        (0x000C29u32, "VMware, Inc."),
        (0x001122u32, "CIMSYS Inc"),
        (0x001422u32, "Dell Inc."),
        (0x00155Du32, "Microsoft Corporation"),
        (0x00163Eu32, "Xensource, Inc."),
        (0x001A11u32, "Google, Inc."),
        (0x001B21u32, "Intel Corporate"),
        (0x001C42u32, "Parallels, Inc."),
        (0x005056u32, "VMware, Inc."),
        (0x0080C2u32, "IEEE 802.1 Chair"),
        (0x080027u32, "PCS Systemtechnik GmbH"),
        (0x28CFE9u32, "Apple, Inc."),
        (0x3C5AB4u32, "Google, Inc."),
        (0xA483E7u32, "Apple, Inc."),
        (0xACDE48u32, "Private"),
        (0xB827EBu32, "Raspberry Pi Foundation"),
        (0xDCA632u32, "Raspberry Pi Trading Ltd"),
        (0xE45F01u32, "Raspberry Pi Trading Ltd"),
        (0xF01898u32, "Apple, Inc."),
    ]
}

/// `n` is the vendor name of some registry entry.
pub open spec fn is_registry_name(n: &'static str) -> bool {
    exists|k: int| 0 <= k < registry().len() && #[trigger] registry()[k].1 == n
}

/// The vendor registered for `oui`, if any.
pub open spec fn registry_name(oui: u32) -> Option<&'static str> {
    if exists|i: int| 0 <= i < registry().len() && #[trigger] registry()[i].0 == oui {
        Some(
            registry()[choose|i: int| 0 <= i < registry().len() && #[trigger] registry()[i].0 == oui].1,
        )
    } else {
        None
    }
}

/// The registry is sorted by strictly ascending 24-bit prefixes and holds
/// `ENTRY_COUNT` entries.
pub proof fn lemma_registry_sorted()
    ensures
        registry().len() == ENTRY_COUNT,
        forall|i: int, j: int|
            0 <= i < j < registry().len() ==> #[trigger] registry()[i].0 < #[trigger] registry()[j].0,
        forall|i: int| 0 <= i < registry().len() ==> #[trigger] registry()[i].0 < 0x100_0000,
{
    reveal(registry);
    let r = registry();
    assert(r[0].0 == 0x00000C);
    assert(r[1].0 == 0x00005E);
    assert(r[2].0 == 0x000393);
    assert(r[3].0 == 0x000502);
    assert(r[4].0 == 0x000C29);
    assert(r[5].0 == 0x001122);
    assert(r[6].0 == 0x001422);
    assert(r[7].0 == 0x00155D);
    assert(r[8].0 == 0x00163E);
    assert(r[9].0 == 0x001A11);
    assert(r[10].0 == 0x001B21);
    assert(r[11].0 == 0x001C42);
    assert(r[12].0 == 0x005056);
    assert(r[13].0 == 0x0080C2);
    assert(r[14].0 == 0x080027);
    assert(r[15].0 == 0x28CFE9);
    assert(r[16].0 == 0x3C5AB4);
    assert(r[17].0 == 0xA483E7);
    assert(r[18].0 == 0xACDE48);
    assert(r[19].0 == 0xB827EB);
    assert(r[20].0 == 0xDCA632);
    assert(r[21].0 == 0xE45F01);
    assert(r[22].0 == 0xF01898);
    lemma_sorted_from_neighbours(r);
}

proof fn lemma_sorted_from_neighbours(r: Seq<(u32, &'static str)>)
    requires
        forall|k: int| 0 <= k < r.len() - 1 ==> #[trigger] r[k].0 < r[k + 1].0,
    ensures
        forall|i: int, j: int| 0 <= i < j < r.len() ==> #[trigger] r[i].0 < #[trigger] r[j].0,
    decreases r.len(),
{
    if r.len() > 1 {
        let p = r.drop_last();
        assert forall|k: int| 0 <= k < p.len() - 1 implies #[trigger] p[k].0 < p[k + 1].0 by {
            assert(p[k] == r[k] && p[k + 1] == r[k + 1]);
        }
        lemma_sorted_from_neighbours(p);
        assert forall|i: int, j: int| 0 <= i < j < r.len() implies #[trigger] r[i].0 < #[trigger] r[j].0 by {
            if j < r.len() - 1 {
                assert(p[i] == r[i] && p[j] == r[j]);
            } else if i < r.len() - 2 {
                assert(p[i] == r[i] && p[r.len() - 2] == r[r.len() - 2]);
                assert(p[i].0 < p[r.len() - 2].0);
            }
        }
    }
}

/// The number of entries in the registry.
pub fn len() -> (n: usize)
    ensures
        n == registry().len(),
{
    ENTRY_COUNT
}

/// The `i`-th registry entry in prefix order, or `None` past the end.
pub fn entry(i: usize) -> (r: Option<(u32, &'static str)>)
    ensures
        r == (if i < registry().len() {
            Some(registry()[i as int])
        } else {
            None::<(u32, &'static str)>
        }),
{
    proof {
        reveal(registry);
    }
    match i {
        0 => Some((0x00000C, "Cisco Systems, Inc")),
        1 => Some((0x00005E, "ICANN, IANA Department")),
        2 => Some((0x000393, "Apple, Inc.")),
        3 => Some((0x000502, "Apple, Inc.")),
        4 => Some((0x000C29, "VMware, Inc.")),
        5 => Some((0x001122, "CIMSYS Inc")),
        6 => Some((0x001422, "Dell Inc.")),
        7 => Some((0x00155D, "Microsoft Corporation")),
        8 => Some((0x00163E, "Xensource, Inc.")),
        9 => Some((0x001A11, "Google, Inc.")),
        10 => Some((0x001B21, "Intel Corporate")),
        11 => Some((0x001C42, "Parallels, Inc.")),
        12 => Some((0x005056, "VMware, Inc.")),
        13 => Some((0x0080C2, "IEEE 802.1 Chair")),
        14 => Some((0x080027, "PCS Systemtechnik GmbH")),
        15 => Some((0x28CFE9, "Apple, Inc.")),
        16 => Some((0x3C5AB4, "Google, Inc.")),
        17 => Some((0xA483E7, "Apple, Inc.")),
        18 => Some((0xACDE48, "Private")),
        19 => Some((0xB827EB, "Raspberry Pi Foundation")),
        20 => Some((0xDCA632, "Raspberry Pi Trading Ltd")),
        21 => Some((0xE45F01, "Raspberry Pi Trading Ltd")),
        22 => Some((0xF01898, "Apple, Inc.")),
        _ => None,
    }
}

/// Find the vendor registered for a 24-bit OUI prefix by bisecting the
/// sorted registry; `None` if the prefix is unregistered.
pub fn lookup_prefix(oui: u32) -> (r: Option<&'static str>)
    ensures
        r == registry_name(oui),
{
    proof {
        lemma_registry_sorted();
    }
    let mut lo: usize = 0;
    let mut hi: usize = len();
    while lo < hi
        invariant
            lo <= hi <= registry().len(),
            forall|i: int| 0 <= i < lo ==> #[trigger] registry()[i].0 < oui,
            forall|i: int| hi <= i < registry().len() ==> #[trigger] registry()[i].0 > oui,
            forall|i: int, j: int|
                0 <= i < j < registry().len() ==> #[trigger] registry()[i].0 < #[trigger] registry()[j].0,
        decreases hi - lo,
    {
        let mid = lo + (hi - lo) / 2;
        let (prefix, name) = entry(mid).unwrap();
        if prefix == oui {
            proof {
                let k = choose|i: int| 0 <= i < registry().len() && #[trigger] registry()[i].0 == oui;
                assert(registry()[mid as int].0 == oui);
                if k < mid {
                    assert(registry()[k].0 < registry()[mid as int].0);
                } else if k > mid {
                    assert(registry()[mid as int].0 < registry()[k].0);
                }
            }
            return Some(name);
        } else if prefix < oui {
            proof {
                assert forall|i: int| 0 <= i < mid + 1 implies #[trigger] registry()[i].0 < oui by {
                    if i < mid {
                        assert(registry()[i].0 < registry()[mid as int].0);
                    }
                }
            }
            lo = mid + 1;
        } else {
            proof {
                assert forall|i: int| mid <= i < registry().len() implies #[trigger] registry()[i].0 > oui by {
                    if i > mid {
                        assert(registry()[mid as int].0 < registry()[i].0);
                    }
                }
            }
            hi = mid;
        }
    }
    assert(!exists|i: int| 0 <= i < registry().len() && #[trigger] registry()[i].0 == oui);
    None
}

} // verus!
