//! Character-level text helpers: ASCII case folding, substring search and
//! lexicographic order over the characters of a string.
use vstd::prelude::*;

verus! {

/// ASCII lower-casing of one character; every other character is unchanged.
pub open spec fn ascii_lower(c: char) -> char {
    if 'A' <= c && c <= 'Z' {
        ((c as int) + 32) as char
    } else {
        c
    }
}

/// ASCII lower-casing of a whole text, as `str::to_ascii_lowercase` does.
pub open spec fn lower_text(s: Seq<char>) -> Seq<char> {
    s.map_values(|c: char| ascii_lower(c))
}

/// `needle` occurs in `hay` as a contiguous run (the empty needle occurs
/// everywhere).
pub open spec fn contains_text(hay: Seq<char>, needle: Seq<char>) -> bool {
    exists|k: int|
        0 <= k && k + needle.len() <= hay.len() && #[trigger] hay.subrange(k, k + needle.len())
            == needle
}

/// Strict lexicographic order on character sequences (the order of `str`).
pub open spec fn text_lt(a: Seq<char>, b: Seq<char>) -> bool {
    exists|k: int|
        0 <= k <= a.len() && k <= b.len() && #[trigger] a.take(k) == b.take(k) && (
        (k == a.len() && k < b.len()) || (k < a.len() && k < b.len() && a[k] < b[k]))
}

/// The characters of a string, in order.
pub fn chars_of(s: &str) -> (r: Vec<char>)
    ensures
        r@ == s@,
{
    let mut out: Vec<char> = Vec::new();
    for c in it: s.chars()
        invariant
            out@ == it.seq().take(it.index() as int),
    {
        out.push(c);
    }
    out
}

fn lower_char(c: char) -> (r: char)
    ensures
        r == ascii_lower(c),
{
    if 'A' <= c && c <= 'Z' {
        let b = c as u8;
        assert(b == c as int);
        ((b + 32) as char)
    } else {
        c
    }
}

/// The ASCII lower-cased characters of a string.
pub fn lower_chars(s: &str) -> (r: Vec<char>)
    ensures
        r@ == lower_text(s@),
{
    let mut out: Vec<char> = Vec::new();
    for c in it: s.chars()
        invariant
            out@ == lower_text(it.seq().take(it.index() as int)),
    {
        proof {
            assert(it.seq().take(it.index() + 1) =~= it.seq().take(it.index() as int).push(c));
        }
        out.push(lower_char(c));
        assert(out@ =~= lower_text(it.seq().take(it.index() + 1)));
    }
    assert(out@ =~= lower_text(s@));
    out
}

/// Whether `needle` occurs in `hay` starting at `k`.
fn matches_at(hay: &Vec<char>, needle: &Vec<char>, k: usize) -> (r: bool)
    requires
        k + needle.len() <= hay.len(),
    ensures
        r == (hay@.subrange(k as int, k + needle.len()) == needle@),
{
    let n = needle.len();
    for j in 0..n
        invariant
            n == needle.len(),
            k + n <= hay.len(),
            forall|t: int| 0 <= t < j ==> hay@[k + t] == needle@[t],
    {
        if hay[k + j] != needle[j] {
            assert(hay@.subrange(k as int, k + n)[j as int] != needle@[j as int]);
            return false;
        }
    }
    assert(hay@.subrange(k as int, k + n) =~= needle@);
    true
}

/// Whether `needle` occurs in `hay` as a contiguous run.
pub fn contains_chars(hay: &Vec<char>, needle: &Vec<char>) -> (r: bool)
    ensures
        r == contains_text(hay@, needle@),
{
    if needle.len() > hay.len() {
        return false;
    }
    let last = hay.len() - needle.len();
    for k in 0..last
        invariant
            last + needle.len() == hay.len(),
            forall|t: int|
                0 <= t < k ==> #[trigger] hay@.subrange(t, t + needle.len()) != needle@,
    {
        if matches_at(hay, needle, k) {
            return true;
        }
    }
    matches_at(hay, needle, last)
}

/// Whether two character sequences are equal.
pub fn same_chars(a: &Vec<char>, b: &Vec<char>) -> (r: bool)
    ensures
        r == (a@ == b@),
{
    if a.len() != b.len() {
        return false;
    }
    let n = a.len();
    for j in 0..n
        invariant
            n == a.len(),
            n == b.len(),
            forall|t: int| 0 <= t < j ==> a@[t] == b@[t],
    {
        if a[j] != b[j] {
            return false;
        }
    }
    assert(a@ =~= b@);
    true
}

/// Whether `a` comes strictly before `b` in lexicographic order.
pub fn chars_lt(a: &Vec<char>, b: &Vec<char>) -> (r: bool)
    ensures
        r == text_lt(a@, b@),
{
    let n = if a.len() < b.len() {
        a.len()
    } else {
        b.len()
    };
    let mut k: usize = 0;
    while k < n
        invariant
            n <= a.len(),
            n <= b.len(),
            n == a.len() || n == b.len(),
            k <= n,
            a@.take(k as int) == b@.take(k as int),
        decreases n - k,
    {
        if a[k] != b[k] {
            let r = a[k] < b[k];
            proof {
                if r {
                    assert(a@.take(k as int) == b@.take(k as int));
                } else {
                    assert forall|j: int|
                        0 <= j <= a@.len() && j <= b@.len() && #[trigger] a@.take(j) == b@.take(
                            j,
                        ) implies !((j == a@.len() && j < b@.len()) || (j < a@.len() && j
                        < b@.len() && a@[j] < b@[j])) by {
                        if j > k {
                            assert(a@.take(j)[k as int] == b@.take(j)[k as int]);
                        } else if j < k {
                            assert(a@.take(k as int)[j] == b@.take(k as int)[j]);
                        }
                    }
                }
            }
            return r;
        }
        assert(a@.take(k + 1) =~= a@.take(k as int).push(a@[k as int]));
        assert(b@.take(k + 1) =~= b@.take(k as int).push(b@[k as int]));
        k += 1;
    }
    let r = a.len() < b.len();
    proof {
        if r {
            assert(a@.take(k as int) == b@.take(k as int));
        } else {
            assert forall|j: int|
                0 <= j <= a@.len() && j <= b@.len() && #[trigger] a@.take(j) == b@.take(j) implies !(
                (j == a@.len() && j < b@.len()) || (j < a@.len() && j < b@.len() && a@[j] < b@[j])) by {
                if j < n {
                    assert(a@.take(k as int)[j] == b@.take(k as int)[j]);
                }
            }
        }
    }
    r
}


/// No text comes before itself.
pub proof fn lemma_text_lt_irreflexive(a: Seq<char>)
    ensures
        !text_lt(a, a),
{
}

/// Lexicographic order is transitive.
pub proof fn lemma_text_lt_transitive(a: Seq<char>, b: Seq<char>, c: Seq<char>)
    requires
        text_lt(a, b),
        text_lt(b, c),
    ensures
        text_lt(a, c),
{
    let k1 = choose|k: int|
        0 <= k <= a.len() && k <= b.len() && #[trigger] a.take(k) == b.take(k) && ((k == a.len()
            && k < b.len()) || (k < a.len() && k < b.len() && a[k] < b[k]));
    let k2 = choose|k: int|
        0 <= k <= b.len() && k <= c.len() && #[trigger] b.take(k) == c.take(k) && ((k == b.len()
            && k < c.len()) || (k < b.len() && k < c.len() && b[k] < c[k]));
    if k1 < k2 {
        assert(b.take(k2)[k1] == c.take(k2)[k1]);
        assert(a.take(k1) =~= c.take(k1)) by {
            assert forall|i: int| 0 <= i < k1 implies a.take(k1)[i] == c.take(k1)[i] by {
                assert(a.take(k1)[i] == b.take(k1)[i]);
                assert(b.take(k2)[i] == c.take(k2)[i]);
            }
        }
        assert(a.take(k1) == c.take(k1));
    } else if k2 < k1 {
        assert(a.take(k1)[k2] == b.take(k1)[k2]);
        assert(a.take(k2) =~= c.take(k2)) by {
            assert forall|i: int| 0 <= i < k2 implies a.take(k2)[i] == c.take(k2)[i] by {
                assert(a.take(k1)[i] == b.take(k1)[i]);
                assert(b.take(k2)[i] == c.take(k2)[i]);
            }
        }
        assert(a.take(k2) == c.take(k2));
    } else {
        assert(a.take(k1) =~= c.take(k1)) by {
            assert forall|i: int| 0 <= i < k1 implies a.take(k1)[i] == c.take(k1)[i] by {
                assert(a.take(k1)[i] == b.take(k1)[i]);
                assert(b.take(k2)[i] == c.take(k2)[i]);
            }
        }
        assert(a.take(k1) == c.take(k1));
    }
}

proof fn lemma_text_lt_total_from(a: Seq<char>, b: Seq<char>, k: int)
    requires
        a != b,
        0 <= k <= a.len(),
        k <= b.len(),
        a.take(k) == b.take(k),
    ensures
        text_lt(a, b) || text_lt(b, a),
    decreases a.len() - k,
{
    if k == a.len() && k == b.len() {
        assert(a =~= a.take(k));
        assert(b =~= b.take(k));
    } else if k == a.len() || k == b.len() {
        assert(b.take(k) == a.take(k));
    } else if a[k] != b[k] {
        assert(b.take(k) == a.take(k));
    } else {
        assert(a.take(k + 1) =~= a.take(k).push(a[k]));
        assert(b.take(k + 1) =~= b.take(k).push(b[k]));
        lemma_text_lt_total_from(a, b, k + 1);
    }
}

/// Of two different texts, one comes before the other.
pub proof fn lemma_text_lt_total(a: Seq<char>, b: Seq<char>)
    requires
        a != b,
    ensures
        text_lt(a, b) || text_lt(b, a),
{
    assert(a.take(0) =~= b.take(0));
    lemma_text_lt_total_from(a, b, 0);
}

} // verus!
