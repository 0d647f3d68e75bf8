//! Hex text for octets: the digit alphabet and separator-joined spellings.
use vstd::prelude::*;

use crate::mac::{digit_value, is_hex_digit, is_separator};

verus! {

/// The hex digit (upper- or lower-case) for a value below 16.
pub open spec fn hex_char(n: nat, upper: bool) -> char {
    if n < 10 {
        ('0' as nat + n) as char
    } else if upper {
        ('A' as nat + (n - 10)) as char
    } else {
        ('a' as nat + (n - 10)) as char
    }
}

/// The two hex digits of an octet, high nibble first.
pub open spec fn hex_pair(b: u8, upper: bool) -> Seq<char> {
    seq![hex_char((b / 16) as nat, upper), hex_char((b % 16) as nat, upper)]
}

/// The octets of `o` spelled as hex pairs, with `sep` between neighbours.
pub open spec fn join_hex(o: Seq<u8>, upper: bool, sep: Seq<char>) -> Seq<char>
    decreases o.len(),
{
    if o.len() == 0 {
        Seq::empty()
    } else if o.len() == 1 {
        hex_pair(o[0], upper)
    } else {
        join_hex(o.drop_last(), upper, sep) + sep + hex_pair(o.last(), upper)
    }
}

/// The one-character string holding the hex digit for `n` (below 16).
fn hex_digit_str(n: u8, upper: bool) -> (r: &'static str)
    requires
        n < 16,
    ensures
        r@ == seq![hex_char(n as nat, upper)],
{
    if upper {
        match n {
            0 => {
                proof {
                    reveal_strlit("0");
                }
                "0"
            },
            1 => {
                proof {
                    reveal_strlit("1");
                }
                "1"
            },
            2 => {
                proof {
                    reveal_strlit("2");
                }
                "2"
            },
            3 => {
                proof {
                    reveal_strlit("3");
                }
                "3"
            },
            4 => {
                proof {
                    reveal_strlit("4");
                }
                "4"
            },
            5 => {
                proof {
                    reveal_strlit("5");
                }
                "5"
            },
            6 => {
                proof {
                    reveal_strlit("6");
                }
                "6"
            },
            7 => {
                proof {
                    reveal_strlit("7");
                }
                "7"
            },
            8 => {
                proof {
                    reveal_strlit("8");
                }
                "8"
            },
            9 => {
                proof {
                    reveal_strlit("9");
                }
                "9"
            },
            10 => {
                proof {
                    reveal_strlit("A");
                }
                "A"
            },
            11 => {
                proof {
                    reveal_strlit("B");
                }
                "B"
            },
            12 => {
                proof {
                    reveal_strlit("C");
                }
                "C"
            },
            13 => {
                proof {
                    reveal_strlit("D");
                }
                "D"
            },
            14 => {
                proof {
                    reveal_strlit("E");
                }
                "E"
            },
            _ => {
                proof {
                    reveal_strlit("F");
                }
                "F"
            },
        }
    } else {
        match n {
            0 => {
                proof {
                    reveal_strlit("0");
                }
                "0"
            },
            1 => {
                proof {
                    reveal_strlit("1");
                }
                "1"
            },
            2 => {
                proof {
                    reveal_strlit("2");
                }
                "2"
            },
            3 => {
                proof {
                    reveal_strlit("3");
                }
                "3"
            },
            4 => {
                proof {
                    reveal_strlit("4");
                }
                "4"
            },
            5 => {
                proof {
                    reveal_strlit("5");
                }
                "5"
            },
            6 => {
                proof {
                    reveal_strlit("6");
                }
                "6"
            },
            7 => {
                proof {
                    reveal_strlit("7");
                }
                "7"
            },
            8 => {
                proof {
                    reveal_strlit("8");
                }
                "8"
            },
            9 => {
                proof {
                    reveal_strlit("9");
                }
                "9"
            },
            10 => {
                proof {
                    reveal_strlit("a");
                }
                "a"
            },
            11 => {
                proof {
                    reveal_strlit("b");
                }
                "b"
            },
            12 => {
                proof {
                    reveal_strlit("c");
                }
                "c"
            },
            13 => {
                proof {
                    reveal_strlit("d");
                }
                "d"
            },
            14 => {
                proof {
                    reveal_strlit("e");
                }
                "e"
            },
            _ => {
                proof {
                    reveal_strlit("f");
                }
                "f"
            },
        }
    }
}

/// Append the two hex digits of `b` to `out`.
fn push_hex_pair(out: &mut String, b: u8, upper: bool)
    ensures
        final(out)@ == old(out)@ + hex_pair(b, upper),
{
    out.append(hex_digit_str(b / 16, upper));
    out.append(hex_digit_str(b % 16, upper));
}

/// Spell the octets as hex pairs with `sep` between neighbours.
pub(crate) fn hex_join(octets: &[u8], upper: bool, sep: &str) -> (r: String)
    ensures
        r@ == join_hex(octets@, upper, sep@),
{
    let mut out = String::new();
    let n = octets.len();
    for i in 0..n
        invariant
            n == octets@.len(),
            out@ == join_hex(octets@.take(i as int), upper, sep@),
    {
        proof {
            assert(octets@.take(i + 1).drop_last() =~= octets@.take(i as int));
        }
        if i > 0 {
            out.append(sep);
        }
        push_hex_pair(&mut out, octets[i], upper);
        proof {
            if i == 0 {
                assert(octets@.take(1) =~= seq![octets@[0]]);
            }
        }
    }
    proof {
        assert(octets@.take(n as int) =~= octets@);
    }
    out
}


/// The big-endian value of a sequence of octets.
pub open spec fn be_value(o: Seq<u8>) -> nat
    decreases o.len(),
{
    if o.len() == 0 {
        0
    } else {
        be_value(o.drop_last()) * 256 + o.last() as nat
    }
}

/// A hex digit character is a hex digit, is no separator, and has the value
/// it was made from.
pub proof fn lemma_hex_char(n: nat, upper: bool)
    requires
        n < 16,
    ensures
        is_hex_digit(hex_char(n, upper)),
        !is_separator(hex_char(n, upper)),
        digit_value(hex_char(n, upper)) == n,
{
}

/// Removing separators from a sequence of separators leaves nothing.
pub proof fn lemma_digits_of_separators(sep: Seq<char>)
    requires
        forall|i: int| 0 <= i < sep.len() ==> is_separator(#[trigger] sep[i]),
    ensures
        crate::mac::mac_digits(sep) == Seq::<char>::empty(),
    decreases sep.len(),
{
    reveal_with_fuel(Seq::filter, 1);
    if sep.len() > 0 {
        lemma_digits_of_separators(sep.drop_last());
    }
}

/// Hex spellings contain no separators, so removing separators keeps them.
pub proof fn lemma_digits_of_pair(b: u8, upper: bool)
    ensures
        crate::mac::mac_digits(hex_pair(b, upper)) == hex_pair(b, upper),
{
    lemma_hex_char((b / 16) as nat, upper);
    lemma_hex_char((b % 16) as nat, upper);
    let p = hex_pair(b, upper);
    reveal_with_fuel(Seq::filter, 3);
    assert(p.drop_last().drop_last() =~= Seq::<char>::empty());
    assert(p.drop_last() =~= seq![p[0]]);
    assert(Seq::<char>::empty().push(p[0]).push(p[1]) =~= p);
}

/// The digits of a separator-joined spelling are the bare spelling.
pub proof fn lemma_digits_of_join(o: Seq<u8>, upper: bool, sep: Seq<char>)
    requires
        forall|i: int| 0 <= i < sep.len() ==> is_separator(#[trigger] sep[i]),
    ensures
        crate::mac::mac_digits(join_hex(o, upper, sep)) == join_hex(o, upper, Seq::empty()),
    decreases o.len(),
{
    broadcast use Seq::filter_distributes_over_add;

    if o.len() == 1 {
        lemma_digits_of_pair(o[0], upper);
    } else if o.len() > 1 {
        lemma_digits_of_join(o.drop_last(), upper, sep);
        lemma_digits_of_separators(sep);
        lemma_digits_of_pair(o.last(), upper);
        assert(join_hex(o.drop_last(), upper, Seq::empty()) + Seq::<char>::empty() =~= join_hex(
            o.drop_last(),
            upper,
            Seq::empty(),
        ));
    } else {
        reveal_with_fuel(Seq::filter, 1);
    }
}

/// The bare spelling: two digits per octet, high nibble first.
pub proof fn lemma_bare_shape(o: Seq<u8>, upper: bool)
    ensures
        join_hex(o, upper, Seq::empty()).len() == 2 * o.len(),
        forall|k: int|
            0 <= k < o.len() ==> {
                &&& #[trigger] join_hex(o, upper, Seq::empty())[2 * k] == hex_char(
                    (o[k] / 16) as nat,
                    upper,
                )
                &&& join_hex(o, upper, Seq::empty())[2 * k + 1] == hex_char(
                    (o[k] % 16) as nat,
                    upper,
                )
            },
    decreases o.len(),
{
    if o.len() > 1 {
        lemma_bare_shape(o.drop_last(), upper);
        let a = join_hex(o.drop_last(), upper, Seq::empty());
        let j = join_hex(o, upper, Seq::empty());
        assert(j == a + Seq::<char>::empty() + hex_pair(o.last(), upper));
        assert forall|k: int| 0 <= k < o.len() implies {
            &&& #[trigger] j[2 * k] == hex_char((o[k] / 16) as nat, upper)
            &&& j[2 * k + 1] == hex_char((o[k] % 16) as nat, upper)
        } by {
            if k < o.len() - 1 {
                assert(o[k] == o.drop_last()[k]);
                assert(a[2 * k] == hex_char((o.drop_last()[k] / 16) as nat, upper));
            }
        }
    }
}

/// The bare spelling of a concatenation is the concatenation of the bare
/// spellings.
pub proof fn lemma_bare_concat(a: Seq<u8>, b: Seq<u8>, upper: bool)
    ensures
        join_hex(a + b, upper, Seq::empty()) == join_hex(a, upper, Seq::empty()) + join_hex(
            b,
            upper,
            Seq::empty(),
        ),
    decreases b.len(),
{
    let e = Seq::<char>::empty();
    if a.len() == 0 {
        assert(a + b =~= b);
        assert(e + join_hex(b, upper, e) =~= join_hex(b, upper, e));
    } else if b.len() == 0 {
        assert(a + b =~= a);
        assert(join_hex(a, upper, e) + e =~= join_hex(a, upper, e));
    } else {
        lemma_bare_concat(a, b.drop_last(), upper);
        assert((a + b).drop_last() =~= a + b.drop_last());
        assert((a + b).last() == b.last());
        if b.len() == 1 {
            assert(b.drop_last() =~= Seq::<u8>::empty());
            assert(a + b.drop_last() =~= a);
            assert(join_hex(a, upper, e) + e =~= join_hex(a, upper, e));
        } else {
            assert(join_hex(a, upper, e) + join_hex(b.drop_last(), upper, e) + e + hex_pair(
                b.last(),
                upper,
            ) =~= join_hex(a, upper, e) + (join_hex(b.drop_last(), upper, e) + e + hex_pair(
                b.last(),
                upper,
            )));
        }
    }
}

} // verus!
