//! Registry statistics: how many OUI blocks each vendor holds, and the
//! vendors holding the most.
use vstd::prelude::*;

use crate::db::{is_registry_name, registry};
use crate::text::{chars_lt, chars_of, lemma_text_lt_total, lemma_text_lt_transitive, same_chars, text_lt};
use crate::{is_vendor_list, vendors};

verus! {

/// The number of registry entries whose vendor name is exactly `n`.
pub open spec fn block_count(n: Seq<char>) -> nat {
    registry().filter(|t: (u32, &'static str)| t.1@ == n).len()
}

/// `a` ranks before `b`: it holds more blocks, or as many and its name comes
/// first.
pub open spec fn ranks_before(a: (&'static str, usize), b: (&'static str, usize)) -> bool {
    a.1 > b.1 || (a.1 == b.1 && text_lt(a.0@, b.0@))
}

/// Whether some element of `r` carries the name `n`.
pub open spec fn names_in(r: Seq<(&'static str, usize)>, n: Seq<char>) -> bool {
    exists|i: int| 0 <= i < r.len() && (#[trigger] r[i]).0@ == n
}

/// `r` lists registry vendors with their block counts, strictly in rank
/// order.
#[verifier::opaque]
pub open spec fn is_ranking(r: Seq<(&'static str, usize)>) -> bool {
    &&& forall|i: int|
        0 <= i < r.len() ==> (#[trigger] r[i]).1 == block_count(r[i].0@) && is_registry_name(
            r[i].0,
        )
    &&& forall|i: int, j: int| 0 <= i < j < r.len() ==> ranks_before(#[trigger] r[i], #[trigger] r[j])
}

/// `r` is the top of the ranking, cut to at most `n` vendors: every vendor of
/// the registry either appears in `r` or ranks after all of `r`, and `r` is
/// cut short only at `n`.
pub open spec fn is_top_ranking(r: Seq<(&'static str, usize)>, n: usize) -> bool {
    &&& is_ranking(r)
    &&& r.len() <= n
    &&& forall|k: int|
        0 <= k < registry().len() ==> names_in(r, (#[trigger] registry()[k]).1@) || (r.len() == n
            && forall|i: int|
            0 <= i < r.len() ==> ranks_before(
                #[trigger] r[i],
                (registry()[k].1, block_count(registry()[k].1@) as usize),
            ))
}

proof fn lemma_ranks_before_transitive(
    a: (&'static str, usize),
    b: (&'static str, usize),
    c: (&'static str, usize),
)
    requires
        ranks_before(a, b),
        ranks_before(b, c),
    ensures
        ranks_before(a, c),
{
    if a.1 == b.1 && b.1 == c.1 {
        lemma_text_lt_transitive(a.0@, b.0@, c.0@);
    }
}

proof fn lemma_ranks_before_total(a: (&'static str, usize), b: (&'static str, usize))
    requires
        a.0@ != b.0@,
    ensures
        ranks_before(a, b) || ranks_before(b, a),
{
    lemma_text_lt_total(a.0@, b.0@);
}

/// The number of registry entries whose vendor name is exactly `name`.
fn count_blocks(name: &Vec<char>) -> (r: usize)
    ensures
        r == block_count(name@),
{
    let n = crate::db::len();
    let mut count: usize = 0;
    let ghost pred = |t: (u32, &'static str)| t.1@ == name@;
    for i in 0..n
        invariant
            n == registry().len(),
            pred == (|t: (u32, &'static str)| t.1@ == name@),
            count == registry().take(i as int).filter(pred).len(),
            count <= i,
    {
        let (_, v) = crate::db::entry(i).unwrap();
        proof {
            reveal_with_fuel(Seq::filter, 1);
            assert(registry().take(i + 1).drop_last() =~= registry().take(i as int));
        }
        let key = chars_of(v);
        if same_chars(&key, name) {
            count += 1;
        }
    }
    assert(registry().take(n as int) =~= registry());
    count
}

/// `n` is the name of one of the first `i` vendors of `names`.
spec fn listed_before(names: Seq<&'static str>, i: int, n: Seq<char>) -> bool {
    exists|t: int| 0 <= t < i && (#[trigger] names[t])@ == n
}

/// `keys` holds the characters of each ranked name.
spec fn keys_match(keys: Seq<Vec<char>>, r: Seq<(&'static str, usize)>) -> bool {
    keys.len() == r.len() && forall|j: int| 0 <= j < keys.len() ==> (#[trigger] keys[j])@ == r[j].0@
}

/// A ranking element is a registry vendor with its block count.
spec fn is_ranked_vendor(x: (&'static str, usize)) -> bool {
    x.1 == block_count(x.0@) && is_registry_name(x.0)
}

/// Insert `x` into a ranking at its place, keeping the keys alongside.
fn insert_ranked(
    ranked: &mut Vec<(&'static str, usize)>,
    keys: &mut Vec<Vec<char>>,
    x: (&'static str, usize),
    key: Vec<char>,
) -> (p: usize)
    requires
        is_ranking(old(ranked)@),
        keys_match(old(keys)@, old(ranked)@),
        key@ == x.0@,
        is_ranked_vendor(x),
        forall|j: int| 0 <= j < old(ranked)@.len() ==> (#[trigger] old(ranked)@[j]).0@ != x.0@,
    ensures
        p <= old(ranked)@.len(),
        final(ranked)@ == old(ranked)@.insert(p as int, x),
        is_ranking(final(ranked)@),
        keys_match(final(keys)@, final(ranked)@),
{
    reveal(is_ranking);
    let ghost old_r = ranked@;
    let ghost old_keys = keys@;
    let mut p: usize = 0;
    while p < ranked.len() && (ranked[p].1 > x.1 || (ranked[p].1 == x.1 && chars_lt(
        &keys[p],
        &key,
    )))
        invariant
            ranked@ == old_r,
            keys@ == old_keys,
            is_ranking(old_r),
            keys_match(old_keys, old_r),
            key@ == x.0@,
            p <= old_r.len(),
            forall|j: int| 0 <= j < p ==> ranks_before(#[trigger] old_r[j], x),
        decreases old_r.len() - p,
    {
        p += 1;
    }
    proof {
        if p < old_r.len() {
            assert(!ranks_before(old_r[p as int], x));
            lemma_ranks_before_total(old_r[p as int], x);
        }
        assert forall|j: int| p <= j < old_r.len() implies ranks_before(x, #[trigger] old_r[j]) by {
            if j > p {
                lemma_ranks_before_transitive(x, old_r[p as int], old_r[j]);
            }
        }
    }
    ranked.insert(p, x);
    keys.insert(p, key);
    proof {
        let r = ranked@;
        assert(r[p as int] == x);
        assert forall|a: int| 0 <= a < r.len() implies (#[trigger] r[a]).1 == block_count(r[a].0@)
            && is_registry_name(r[a].0) by {
            if a < p {
                assert(r[a] == old_r[a]);
            } else if a > p {
                assert(r[a] == old_r[a - 1]);
            }
        }
        assert forall|a: int, b: int| 0 <= a < b < r.len() implies ranks_before(
            #[trigger] r[a],
            #[trigger] r[b],
        ) by {
            if b < p {
                assert(r[a] == old_r[a] && r[b] == old_r[b]);
            } else if b == p {
                assert(r[a] == old_r[a]);
            } else if a == p {
                assert(r[b] == old_r[b - 1]);
            } else if a < p {
                assert(r[a] == old_r[a] && r[b] == old_r[b - 1]);
            } else {
                assert(r[a] == old_r[a - 1] && r[b] == old_r[b - 1]);
            }
        }
        assert forall|j: int| 0 <= j < keys@.len() implies (#[trigger] keys@[j])@ == r[j].0@ by {
            if j < p {
                assert(keys@[j] == old_keys[j] && r[j] == old_r[j]);
            } else if j > p {
                assert(keys@[j] == old_keys[j - 1] && r[j] == old_r[j - 1]);
            }
        }
    }
    p
}

/// Cutting a ranking that names every vendor to its first `n` elements gives
/// the top ranking for `n`.
proof fn lemma_cut_ranking(full: Seq<(&'static str, usize)>, n: usize)
    requires
        is_ranking(full),
        forall|k: int| 0 <= k < registry().len() ==> names_in(full, (#[trigger] registry()[k]).1@),
    ensures
        is_top_ranking(if n < full.len() { full.take(n as int) } else { full }, n) || n >= full.len(),
        n >= full.len() ==> is_top_ranking(full, n),
{
    reveal(is_ranking);
    if n < full.len() {
        let r = full.take(n as int);
        assert forall|i: int| 0 <= i < r.len() implies (#[trigger] r[i]).1 == block_count(r[i].0@)
            && is_registry_name(r[i].0) by {
            assert(r[i] == full[i]);
        }
        assert forall|a: int, b: int| 0 <= a < b < r.len() implies ranks_before(
            #[trigger] r[a],
            #[trigger] r[b],
        ) by {
            assert(r[a] == full[a] && r[b] == full[b]);
        }
        assert forall|k: int| 0 <= k < registry().len() implies names_in(r, (#[trigger] registry()[k]).1@)
            || (r.len() == n && forall|i: int|
            0 <= i < r.len() ==> ranks_before(
                #[trigger] r[i],
                (registry()[k].1, block_count(registry()[k].1@) as usize),
            )) by {
            let a = choose|a: int| 0 <= a < full.len() && (#[trigger] full[a]).0@ == registry()[k].1@;
            if a < n {
                assert(r[a] == full[a]);
            } else {
                assert forall|i: int| 0 <= i < r.len() implies ranks_before(
                    #[trigger] r[i],
                    (registry()[k].1, block_count(registry()[k].1@) as usize),
                ) by {
                    assert(r[i] == full[i]);
                    assert(ranks_before(full[i], full[a]));
                }
            }
        }
    }
}

/// The `i`-th vendor of a vendor list is a registry name, and differs from
/// every name taken from the vendors before it.
proof fn lemma_fresh_name(old_r: Seq<(&'static str, usize)>, names: Seq<&'static str>, i: int)
    requires
        is_vendor_list(names),
        0 <= i < names.len(),
        forall|j: int|
            0 <= j < old_r.len() ==> listed_before(names, i, (#[trigger] old_r[j]).0@),
    ensures
        forall|j: int| 0 <= j < old_r.len() ==> (#[trigger] old_r[j]).0@ != names[i]@,
        is_registry_name(names[i]),
{
    assert forall|j: int| 0 <= j < old_r.len() implies (#[trigger] old_r[j]).0@ != names[i]@ by {
        assert(listed_before(names, i, old_r[j].0@));
        let t = choose|t: int| 0 <= t < i && (#[trigger] names[t])@ == old_r[j].0@;
        assert(text_lt(names[t]@, names[i]@));
        crate::text::lemma_text_lt_irreflexive(names[i]@);
    }
}

/// After inserting the `i`-th vendor, the ranking names exactly the first
/// `i + 1` vendors.
proof fn lemma_ranked_step(
    old_r: Seq<(&'static str, usize)>,
    r: Seq<(&'static str, usize)>,
    p: int,
    x: (&'static str, usize),
    names: Seq<&'static str>,
    i: int,
)
    requires
        0 <= p <= old_r.len(),
        r == old_r.insert(p, x),
        0 <= i < names.len(),
        x.0@ == names[i]@,
        forall|j: int| 0 <= j < i ==> names_in(old_r, (#[trigger] names[j])@),
        forall|j: int| 0 <= j < old_r.len() ==> listed_before(names, i, (#[trigger] old_r[j]).0@),
    ensures
        forall|j: int| 0 <= j < i + 1 ==> names_in(r, (#[trigger] names[j])@),
        forall|j: int| 0 <= j < r.len() ==> listed_before(names, i + 1, (#[trigger] r[j]).0@),
{
    assert forall|j: int| 0 <= j < i + 1 implies names_in(r, (#[trigger] names[j])@) by {
        if j == i {
            assert(r[p].0@ == names[j]@);
        } else {
            let a = choose|a: int| 0 <= a < old_r.len() && (#[trigger] old_r[a]).0@ == names[j]@;
            if a < p {
                assert(r[a] == old_r[a]);
            } else {
                assert(r[a + 1] == old_r[a]);
            }
        }
    }
    assert forall|j: int| 0 <= j < r.len() implies listed_before(names, i + 1, (#[trigger] r[j]).0@) by {
        if j == p {
            assert(r[j].0@ == names[i]@);
        } else if j < p {
            assert(r[j] == old_r[j]);
            assert(listed_before(names, i, old_r[j].0@));
            let t = choose|t: int| 0 <= t < i && (#[trigger] names[t])@ == old_r[j].0@;
        } else {
            assert(r[j] == old_r[j - 1]);
            assert(listed_before(names, i, old_r[j - 1].0@));
            let t = choose|t: int| 0 <= t < i && (#[trigger] names[t])@ == old_r[j - 1].0@;
        }
    }
}

/// The `n` vendors holding the most OUI blocks, with their block counts:
/// most blocks first, ties in ascending name order.
#[verifier::rlimit(30)]
pub fn top_vendors(n: usize) -> (r: Vec<(&'static str, usize)>)
    ensures
        is_top_ranking(r@, n),
{
    let names = vendors();
    let mut ranked: Vec<(&'static str, usize)> = Vec::new();
    let mut keys: Vec<Vec<char>> = Vec::new();
    proof {
        reveal(is_ranking);
    }
    for i in 0..names.len()
        invariant
            is_vendor_list(names@),
            is_ranking(ranked@),
            keys_match(keys@, ranked@),
            ranked.len() == i,
            forall|j: int| 0 <= j < i ==> names_in(ranked@, (#[trigger] names@[j])@),
            forall|j: int|
                0 <= j < ranked.len() ==> listed_before(names@, i as int, (#[trigger] ranked@[j]).0@),
    {
        let name = names[i];
        let key = chars_of(name);
        let count = count_blocks(&key);
        let x = (name, count);
        let ghost old_r = ranked@;
        proof {
            lemma_fresh_name(old_r, names@, i as int);
        }
        let p = insert_ranked(&mut ranked, &mut keys, x, key);
        proof {
            lemma_ranked_step(old_r, ranked@, p as int, x, names@, i as int);
        }
    }
    proof {
        assert forall|k: int| 0 <= k < registry().len() implies names_in(ranked@, (#[trigger] registry()[k]).1@) by {
            let j = choose|j: int| 0 <= j < names@.len() && #[trigger] names@[j]@ == registry()[k].1@;
            assert(names_in(ranked@, names@[j]@));
        }
        lemma_cut_ranking(ranked@, n);
    }
    if n < ranked.len() {
        ranked.truncate(n);
    }
    ranked
}

} // verus!
