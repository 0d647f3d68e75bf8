//! Parsing and normalization of MAC addresses and OUI prefixes.
use vstd::prelude::*;

use crate::hex::{hex_join, join_hex};

verus! {

/// An error produced while parsing a MAC address or OUI prefix.
#[derive(Debug, Clone, Copy, PartialEq, Eq, Structural)]
pub enum ParseMacError {
    /// The input did not contain enough hex digits to form a 24-bit OUI
    /// (or, for a full address, a 48-bit MAC).
    TooShort,
    /// The input contained a character that is neither a hex digit nor an
    /// accepted separator (`:`, `-`, `.`, or whitespace).
    InvalidChar(char),
    /// More than 12 hex digits were supplied (longer than a 48-bit address).
    TooLong,
}

// ---------------------------------------------------------------------------
// Character classes
// ---------------------------------------------------------------------------

/// The Unicode `White_Space` property, the set that `char::is_whitespace`
/// accepts.
pub open spec fn is_white_space(c: char) -> bool {
    let u = c as u32;
    ||| 0x09 <= u <= 0x0d
    ||| u == 0x20
    ||| u == 0x85
    ||| u == 0xa0
    ||| u == 0x1680
    ||| 0x2000 <= u <= 0x200a
    ||| u == 0x2028
    ||| u == 0x2029
    ||| u == 0x202f
    ||| u == 0x205f
    ||| u == 0x3000
}

/// Characters that may separate hex digits in a textual MAC address.
pub open spec fn is_separator(c: char) -> bool {
    c == ':' || c == '-' || c == '.' || is_white_space(c)
}

/// An ASCII hex digit, in either case.
pub open spec fn is_hex_digit(c: char) -> bool {
    ('0' <= c && c <= '9') || ('a' <= c && c <= 'f') || ('A' <= c && c <= 'F')
}

/// The value (0..=15) of a hex digit.
pub open spec fn digit_value(c: char) -> nat {
    if '0' <= c && c <= '9' {
        (c as int - '0' as int) as nat
    } else if 'a' <= c && c <= 'f' {
        (c as int - 'a' as int + 10) as nat
    } else {
        (c as int - 'A' as int + 10) as nat
    }
}

/// `16 ^ n`.
pub open spec fn pow16(n: nat) -> nat
    decreases n,
{
    if n == 0 {
        1
    } else {
        16 * pow16((n - 1) as nat)
    }
}

/// The big-endian value of a sequence of hex digits.
pub open spec fn hex_value(d: Seq<char>) -> nat
    decreases d.len(),
{
    if d.len() == 0 {
        0
    } else {
        hex_value(d.drop_last()) * 16 + digit_value(d.last())
    }
}

/// The characters of a MAC spelling that are not separators, in order.
pub open spec fn mac_digits(s: Seq<char>) -> Seq<char> {
    s.filter(|c: char| !is_separator(c))
}

/// The number of hex digits at the start of `d`, up to its first non-hex
/// character.
pub open spec fn leading_hex(d: Seq<char>) -> nat
    decreases d.len(),
{
    if d.len() == 0 {
        0
    } else {
        let p = leading_hex(d.drop_last());
        if p == d.len() - 1 && is_hex_digit(d.last()) {
            d.len()
        } else {
            p
        }
    }
}

/// The error, if any, met while scanning the digits `d` of a MAC spelling
/// from left to right: a thirteenth hex digit is `TooLong`, and otherwise the
/// first non-hex character is `InvalidChar`.
pub open spec fn scan_error(d: Seq<char>) -> Option<ParseMacError> {
    let n = leading_hex(d);
    if n > 12 {
        Some(ParseMacError::TooLong)
    } else if n < d.len() {
        Some(ParseMacError::InvalidChar(d[n as int]))
    } else {
        None
    }
}

/// What `parse_oui` returns for the characters `s`.
pub open spec fn spec_parse_oui(s: Seq<char>) -> Result<u32, ParseMacError> {
    let d = mac_digits(s);
    match scan_error(d) {
        Some(e) => Err(e),
        None => if d.len() < 6 {
            Err(ParseMacError::TooShort)
        } else {
            Ok(hex_value(d.take(6)) as u32)
        },
    }
}


/// The value of the two hex digits `d[2k]`, `d[2k + 1]` as one octet.
pub open spec fn octet_at(d: Seq<char>, k: int) -> u8 {
    (digit_value(d[2 * k]) * 16 + digit_value(d[2 * k + 1])) as u8
}

/// The six octets spelled by twelve hex digits.
pub open spec fn octets_of(d: Seq<char>) -> Seq<u8> {
    Seq::new(6, |k: int| octet_at(d, k))
}

/// What `parse_mac48` returns for the characters `s` (octets as a sequence).
pub open spec fn spec_parse_mac48(s: Seq<char>) -> Result<Seq<u8>, ParseMacError> {
    let d = mac_digits(s);
    match scan_error(d) {
        Some(e) => Err(e),
        None => if d.len() < 12 {
            Err(ParseMacError::TooShort)
        } else {
            Ok(octets_of(d))
        },
    }
}

/// `parse_mac48`'s result with the octet array taken as a sequence.
pub open spec fn mac48_result_view(r: Result<[u8; 6], ParseMacError>) -> Result<Seq<u8>, ParseMacError> {
    match r {
        Ok(o) => Ok(o@),
        Err(e) => Err(e),
    }
}

/// The octets filled in after reading the first `d.len()` (at most 12) digits:
/// complete pairs, then a pending high nibble, then zeros.
spec fn partial_octets(d: Seq<char>) -> Seq<u8> {
    Seq::new(
        6,
        |k: int|
            if 2 * k + 1 < d.len() {
                octet_at(d, k)
            } else if 2 * k < d.len() {
                digit_value(d[2 * k]) as u8
            } else {
                0u8
            },
    )
}

// ---------------------------------------------------------------------------
// Lemmas on the digit scan
// ---------------------------------------------------------------------------

proof fn lemma_mac_digits_step(s: Seq<char>, i: int)
    requires
        0 <= i < s.len(),
    ensures
        mac_digits(s.take(i + 1)) == if is_separator(s[i]) {
            mac_digits(s.take(i))
        } else {
            mac_digits(s.take(i)).push(s[i])
        },
{
    reveal_with_fuel(Seq::filter, 1);
    assert(s.take(i + 1).drop_last() =~= s.take(i));
}

proof fn lemma_mac_digits_prefix(s: Seq<char>, i: int)
    requires
        0 <= i <= s.len(),
    ensures
        mac_digits(s) == mac_digits(s.take(i)) + mac_digits(s.skip(i)),
{
    broadcast use Seq::filter_distributes_over_add;
    assert(s =~= s.take(i) + s.skip(i));
}

/// Removing separators distributes over concatenation.
pub(crate) proof fn lemma_digits_concat(a: Seq<char>, b: Seq<char>)
    ensures
        mac_digits(a + b) == mac_digits(a) + mac_digits(b),
{
    broadcast use Seq::filter_distributes_over_add;

}

proof fn lemma_leading_hex_le(d: Seq<char>)
    ensures
        leading_hex(d) <= d.len(),
    decreases d.len(),
{
    if d.len() > 0 {
        lemma_leading_hex_le(d.drop_last());
    }
}

/// Appending characters after a non-hex character does not change the count
/// of leading hex digits; appending them after an all-hex prefix cannot make
/// it shorter than that prefix.
proof fn lemma_leading_hex_extend(p: Seq<char>, q: Seq<char>)
    ensures
        leading_hex(p) < p.len() ==> leading_hex(p + q) == leading_hex(p),
        leading_hex(p) == p.len() ==> leading_hex(p + q) >= p.len(),
    decreases q.len(),
{
    lemma_leading_hex_le(p);
    if q.len() == 0 {
        assert(p + q =~= p);
    } else {
        lemma_leading_hex_extend(p, q.drop_last());
        assert((p + q).drop_last() =~= p + q.drop_last());
        lemma_leading_hex_le(p + q.drop_last());
    }
}

proof fn lemma_hex_value_bound(d: Seq<char>)
    requires
        forall|i: int| 0 <= i < d.len() ==> is_hex_digit(#[trigger] d[i]),
    ensures
        hex_value(d) < pow16(d.len()),
    decreases d.len(),
{
    if d.len() > 0 {
        lemma_hex_value_bound(d.drop_last());
        assert(digit_value(d.last()) < 16);
    }
}

/// When the leading-hex count equals the length, every element is a hex digit.
pub(crate) proof fn lemma_leading_hex_all(d: Seq<char>)
    requires
        leading_hex(d) == d.len(),
    ensures
        forall|i: int| 0 <= i < d.len() ==> is_hex_digit(#[trigger] d[i]),
    decreases d.len(),
{
    if d.len() > 0 {
        lemma_leading_hex_le(d.drop_last());
        lemma_leading_hex_all(d.drop_last());
        assert forall|i: int| 0 <= i < d.len() implies is_hex_digit(#[trigger] d[i]) by {
            if i < d.len() - 1 {
                assert(d[i] == d.drop_last()[i]);
            }
        }
    }
}

// ---------------------------------------------------------------------------
// Executable character helpers
// ---------------------------------------------------------------------------

fn is_separator_char(c: char) -> (r: bool)
    ensures
        r == is_separator(c),
{
    let u = c as u32;
    c == ':' || c == '-' || c == '.' || (0x09 <= u && u <= 0x0d) || u == 0x20 || u == 0x85
        || u == 0xa0 || u == 0x1680 || (0x2000 <= u && u <= 0x200a) || u == 0x2028 || u
        == 0x2029 || u == 0x202f || u == 0x205f || u == 0x3000
}

fn hex_val(c: char) -> (r: Option<u32>)
    ensures
        r is Some <==> is_hex_digit(c),
        r matches Some(v) ==> v == digit_value(c) && v < 16,
{
    if '0' <= c && c <= '9' {
        Some(c as u32 - '0' as u32)
    } else if 'a' <= c && c <= 'f' {
        Some(c as u32 - 'a' as u32 + 10)
    } else if 'A' <= c && c <= 'F' {
        Some(c as u32 - 'A' as u32 + 10)
    } else {
        None
    }
}

/// Extract the 24-bit OUI prefix from any reasonable textual MAC representation.
///
/// Accepts `00:11:22:33:44:55`, `00-11-22-33-44-55`, `0011.2233.4455`,
/// `001122334455` and `00:11:22`, mixing case and separators freely. Only the
/// first six hex digits are significant; any remaining digits are validated
/// but ignored.
pub fn parse_oui(input: &str) -> (r: Result<u32, ParseMacError>)
    ensures
        r == spec_parse_oui(input@),
        r matches Ok(v) ==> v < 0x100_0000,
{
    let mut digits: u32 = 0;
    let mut oui: u32 = 0;
    let ghost s = input@;
    for c in it: input.chars()
        invariant
            it.seq() == s,
            s == input@,
            ({
                let d = mac_digits(s.take(it.index() as int));
                &&& digits == d.len()
                &&& digits <= 12
                &&& leading_hex(d) == d.len()
                &&& oui == hex_value(d.take(if d.len() < 6 { d.len() as int } else { 6 }))
            }),
    {
        let ghost i = it.index() as int;
        let ghost d0 = mac_digits(s.take(i));
        assert(c == s[i]);
        proof {
            lemma_mac_digits_step(s, i);
            lemma_mac_digits_prefix(s, i + 1);
            lemma_leading_hex_all(d0);
        }
        if !is_separator_char(c) {
            let ghost d1 = d0.push(c);
            assert(d1.drop_last() =~= d0);
            let v = match hex_val(c) {
                Some(v) => v,
                None => {
                    proof {
                        assert(leading_hex(d1) == d0.len());
                        lemma_leading_hex_extend(d1, mac_digits(s.skip(i + 1)));
                        let full = mac_digits(s);
                        assert(full == d1 + mac_digits(s.skip(i + 1)));
                        assert(leading_hex(full) == digits);
                        assert(full[digits as int] == c);
                        assert(scan_error(full) == Some(ParseMacError::InvalidChar(c)));
                    }
                    return Err(ParseMacError::InvalidChar(c));
                },
            };
            if digits < 6 {
                proof {
                    lemma_hex_value_bound(d0);
                    assert(d0.take(d0.len() as int) =~= d0);
                    assert(d1.take(d1.len() as int) =~= d1);
                    reveal_with_fuel(pow16, 6);
                }
                assert(oui * 16 + v < 0x100_0000);
                assert((oui << 4) | v == oui * 16 + v) by (bit_vector)
                    requires
                        v < 16,
                        oui < 0x10_0000,
                ;
                oui = (oui << 4) | v;
            } else {
                assert(d1.take(6) =~= d0.take(6));
            }
            digits += 1;
            if digits > 12 {
                proof {
                    lemma_leading_hex_extend(d1, mac_digits(s.skip(i + 1)));
                    let full = mac_digits(s);
                    assert(full == d1 + mac_digits(s.skip(i + 1)));
                    assert(leading_hex(d1) == d1.len());
                    assert(leading_hex(full) > 12);
                }
                return Err(ParseMacError::TooLong);
            }
        }
    }
    proof {
        assert(s.take(s.len() as int) =~= s);
    }
    if digits < 6 {
        return Err(ParseMacError::TooShort);
    }
    proof {
        let d = mac_digits(s);
        lemma_leading_hex_all(d);
        lemma_hex_value_bound(d.take(6));
        reveal_with_fuel(pow16, 7);
    }
    Ok(oui)
}


/// Parse a full 48-bit MAC address into its six octets.
///
/// Unlike [`parse_oui`], this requires all six octets (twelve hex digits) to
/// be present and returns the complete address. Separators are handled the
/// same way as in [`parse_oui`].
pub fn parse_mac48(input: &str) -> (r: Result<[u8; 6], ParseMacError>)
    ensures
        mac48_result_view(r) == spec_parse_mac48(input@),
{
    let mut octets = [0u8; 6];
    let mut digits: usize = 0;
    let ghost s = input@;
    assert(partial_octets(mac_digits(s.take(0))) =~= octets@) by {
        reveal_with_fuel(Seq::filter, 1);
        assert(s.take(0).len() == 0);
    }
    for c in it: input.chars()
        invariant
            it.seq() == s,
            s == input@,
            ({
                let d = mac_digits(s.take(it.index() as int));
                &&& digits == d.len()
                &&& digits <= 12
                &&& leading_hex(d) == d.len()
                &&& octets@ == partial_octets(d)
            }),
    {
        let ghost i = it.index() as int;
        let ghost d0 = mac_digits(s.take(i));
        assert(c == s[i]);
        proof {
            lemma_mac_digits_step(s, i);
            lemma_mac_digits_prefix(s, i + 1);
            lemma_leading_hex_all(d0);
        }
        if !is_separator_char(c) {
            let ghost d1 = d0.push(c);
            assert(d1.drop_last() =~= d0);
            let v = match hex_val(c) {
                Some(v) => v as u8,
                None => {
                    proof {
                        assert(leading_hex(d1) == d0.len());
                        lemma_leading_hex_extend(d1, mac_digits(s.skip(i + 1)));
                        let full = mac_digits(s);
                        assert(full == d1 + mac_digits(s.skip(i + 1)));
                        assert(leading_hex(full) == digits);
                        assert(full[digits as int] == c);
                    }
                    return Err(ParseMacError::InvalidChar(c));
                },
            };
            if digits >= 12 {
                proof {
                    lemma_leading_hex_extend(d1, mac_digits(s.skip(i + 1)));
                    let full = mac_digits(s);
                    assert(full == d1 + mac_digits(s.skip(i + 1)));
                    assert(leading_hex(d1) == d1.len());
                    assert(leading_hex(full) > 12);
                }
                return Err(ParseMacError::TooLong);
            }
            let idx = digits / 2;
            let old_val = octets[idx];
            assert(old_val < 16);
            assert((old_val << 4) | v == old_val * 16 + v) by (bit_vector)
                requires
                    v < 16,
                    old_val < 16,
            ;
            octets[idx] = (old_val << 4) | v;
            digits += 1;
            assert(octets@ =~= partial_octets(d1));
        }
    }
    proof {
        assert(s.take(s.len() as int) =~= s);
    }
    if digits < 12 {
        return Err(ParseMacError::TooShort);
    }
    assert(octets@ =~= octets_of(mac_digits(s)));
    Ok(octets)
}


// ---------------------------------------------------------------------------
// OUI <-> octets
// ---------------------------------------------------------------------------

/// The three bytes of the low 24 bits of `oui`, most-significant first.
pub open spec fn oui_octets(oui: u32) -> Seq<u8> {
    seq![(oui / 0x1_0000 % 256) as u8, (oui / 0x100 % 256) as u8, (oui % 256) as u8]
}

/// The 24-bit value of three bytes, most-significant first.
pub open spec fn oui_value(b0: u8, b1: u8, b2: u8) -> u32 {
    (b0 * 0x1_0000 + b1 * 0x100 + b2) as u32
}

/// Extract the three bytes of a 24-bit OUI prefix, most-significant first.
///
/// Inverse of [`octets_to_oui`]; the high byte of `oui` is ignored.
pub fn oui_to_octets(oui: u32) -> (r: [u8; 3])
    ensures
        r@ == oui_octets(oui),
{
    let r = [(oui >> 16) as u8, (oui >> 8) as u8, oui as u8];
    assert((oui >> 16) as u8 == (oui / 0x1_0000 % 256) as u8) by (bit_vector);
    assert((oui >> 8) as u8 == (oui / 0x100 % 256) as u8) by (bit_vector);
    assert(oui as u8 == (oui % 256) as u8) by (bit_vector);
    assert(r@ =~= oui_octets(oui));
    r
}

/// Pack three OUI bytes into the low 24 bits of a `u32`, most-significant
/// first. Inverse of [`oui_to_octets`].
pub fn octets_to_oui(octets: [u8; 3]) -> (r: u32)
    ensures
        r == oui_value(octets[0], octets[1], octets[2]),
        r < 0x100_0000,
{
    let b0 = octets[0];
    let b1 = octets[1];
    let b2 = octets[2];
    assert(((b0 as u32) << 16) | ((b1 as u32) << 8) | (b2 as u32) == b0 as u32 * 0x1_0000
        + b1 as u32 * 0x100 + b2 as u32) by (bit_vector);
    ((b0 as u32) << 16) | ((b1 as u32) << 8) | (b2 as u32)
}

// ---------------------------------------------------------------------------
// Formatting
// ---------------------------------------------------------------------------

/// Format a full 48-bit MAC address as the canonical colon-separated string,
/// e.g. `00:11:22:33:44:55`.
pub fn format_mac48(octets: [u8; 6]) -> (r: String)
    ensures
        r@ == join_hex(octets@, true, seq![':']),
{
    proof {
        reveal_strlit(":");
    }
    let r = hex_join(octets.as_slice(), true, ":");
    assert(":"@ =~= seq![':']);
    r
}

/// Format a 48-bit MAC address with hyphen separators, e.g.
/// `00-11-22-33-44-55` (the IEEE/Windows convention).
pub fn format_mac48_hyphen(octets: [u8; 6]) -> (r: String)
    ensures
        r@ == join_hex(octets@, true, seq!['-']),
{
    proof {
        reveal_strlit("-");
    }
    let r = hex_join(octets.as_slice(), true, "-");
    assert("-"@ =~= seq!['-']);
    r
}

/// Format a 48-bit MAC address as a lower-case, colon-separated string, e.g.
/// `00:11:22:aa:bb:cc`.
pub fn format_mac48_lower(octets: [u8; 6]) -> (r: String)
    ensures
        r@ == join_hex(octets@, false, seq![':']),
{
    proof {
        reveal_strlit(":");
    }
    let r = hex_join(octets.as_slice(), false, ":");
    assert(":"@ =~= seq![':']);
    r
}

/// Format a 48-bit MAC address with no separators, e.g. `001122334455`.
///
/// The output re-parses to the same octets via [`parse_mac48`].
pub fn format_mac48_bare(octets: [u8; 6]) -> (r: String)
    ensures
        r@ == join_hex(octets@, true, Seq::empty()),
{
    proof {
        reveal_strlit("");
    }
    let r = hex_join(octets.as_slice(), true, "");
    assert(""@ =~= Seq::<char>::empty());
    r
}

/// Cisco's dotted notation for six octets: three lower-case groups of four
/// hex digits joined by `.`.
pub open spec fn cisco_text(o: Seq<u8>) -> Seq<char> {
    join_hex(o.subrange(0, 2), false, Seq::empty()) + seq!['.'] + join_hex(
        o.subrange(2, 4),
        false,
        Seq::empty(),
    ) + seq!['.'] + join_hex(o.subrange(4, 6), false, Seq::empty())
}

/// Format a 48-bit MAC address in Cisco's dotted notation, e.g.
/// `0011.2233.4455`.
pub fn format_mac48_cisco(octets: [u8; 6]) -> (r: String)
    ensures
        r@ == cisco_text(octets@),
{
    proof {
        reveal_strlit("");
        reveal_strlit(".");
    }
    let g0 = [octets[0], octets[1]];
    let g1 = [octets[2], octets[3]];
    let g2 = [octets[4], octets[5]];
    assert(""@ =~= Seq::<char>::empty());
    assert("."@ =~= seq!['.']);
    let mut out = hex_join(g0.as_slice(), false, "");
    out.append(".");
    let t1 = hex_join(g1.as_slice(), false, "");
    out.append(t1.as_str());
    out.append(".");
    let t2 = hex_join(g2.as_slice(), false, "");
    out.append(t2.as_str());
    assert(g0@ =~= octets@.subrange(0, 2));
    assert(g1@ =~= octets@.subrange(2, 4));
    assert(g2@ =~= octets@.subrange(4, 6));
    out
}

/// Format a 24-bit OUI prefix as the canonical `AA:BB:CC` string.
pub fn format_oui(oui: u32) -> (r: String)
    ensures
        r@ == join_hex(oui_octets(oui), true, seq![':']),
{
    proof {
        reveal_strlit(":");
    }
    let o = oui_to_octets(oui);
    let r = hex_join(o.as_slice(), true, ":");
    assert(":"@ =~= seq![':']);
    r
}

/// Format a 24-bit OUI prefix as a lower-case `aa:bb:cc` string.
pub fn format_oui_lower(oui: u32) -> (r: String)
    ensures
        r@ == join_hex(oui_octets(oui), false, seq![':']),
{
    proof {
        reveal_strlit(":");
    }
    let o = oui_to_octets(oui);
    let r = hex_join(o.as_slice(), false, ":");
    assert(":"@ =~= seq![':']);
    r
}


// ---------------------------------------------------------------------------
// Classification
// ---------------------------------------------------------------------------

/// The group (multicast) bit: the least-significant bit of the first octet.
pub open spec fn group_bit(o: Seq<u8>) -> bool {
    o[0] % 2 == 1
}

/// The universal/local bit: the second-least-significant bit of the first octet.
pub open spec fn local_bit(o: Seq<u8>) -> bool {
    o[0] / 2 % 2 == 1
}

/// Every octet equals `b`.
pub open spec fn all_octets(o: Seq<u8>, b: u8) -> bool {
    o[0] == b && o[1] == b && o[2] == b && o[3] == b && o[4] == b && o[5] == b
}

/// A coarse classification of a MAC address based on the two low bits of its
/// first octet and the all-ones broadcast special case.
#[derive(Debug, Clone, Copy, PartialEq, Eq, Structural)]
pub enum MacKind {
    /// The broadcast address `FF:FF:FF:FF:FF:FF`.
    Broadcast,
    /// A group/multicast address (LSB of the first octet set).
    Multicast,
    /// A locally administered unicast address (U/L bit set).
    LocalUnicast,
    /// A globally unique, IEEE-assigned unicast address.
    GlobalUnicast,
}

/// The text of each [`MacKind`].
pub open spec fn kind_text(k: MacKind) -> Seq<char> {
    match k {
        MacKind::Broadcast => "broadcast"@,
        MacKind::Multicast => "multicast"@,
        MacKind::LocalUnicast => "local-unicast"@,
        MacKind::GlobalUnicast => "global-unicast"@,
    }
}

impl MacKind {
    /// `true` for the two unicast kinds (`LocalUnicast`, `GlobalUnicast`).
    pub fn is_unicast(self) -> (r: bool)
        ensures
            r == (self == MacKind::LocalUnicast || self == MacKind::GlobalUnicast),
    {
        match self {
            MacKind::LocalUnicast | MacKind::GlobalUnicast => true,
            _ => false,
        }
    }

    /// `true` only for a globally unique, IEEE-assigned unicast address.
    pub fn is_global(self) -> (r: bool)
        ensures
            r == (self == MacKind::GlobalUnicast),
    {
        match self {
            MacKind::GlobalUnicast => true,
            _ => false,
        }
    }

    /// `true` for broadcast or multicast (group) addresses.
    pub fn is_group(self) -> (r: bool)
        ensures
            r == (self == MacKind::Broadcast || self == MacKind::Multicast),
    {
        match self {
            MacKind::Broadcast | MacKind::Multicast => true,
            _ => false,
        }
    }

    /// The kind as a static string slice, without allocating.
    pub fn as_str(self) -> (r: &'static str)
        ensures
            r@ == kind_text(self),
    {
        match self {
            MacKind::Broadcast => "broadcast",
            MacKind::Multicast => "multicast",
            MacKind::LocalUnicast => "local-unicast",
            MacKind::GlobalUnicast => "global-unicast",
        }
    }
}

/// What [`classify`] returns.
pub open spec fn spec_classify(o: Seq<u8>) -> MacKind {
    if all_octets(o, 0xFF) {
        MacKind::Broadcast
    } else if group_bit(o) {
        MacKind::Multicast
    } else if local_bit(o) {
        MacKind::LocalUnicast
    } else {
        MacKind::GlobalUnicast
    }
}

/// Classify a 48-bit MAC address into a [`MacKind`].
pub fn classify(octets: [u8; 6]) -> (r: MacKind)
    ensures
        r == spec_classify(octets@),
{
    if is_broadcast(octets) {
        MacKind::Broadcast
    } else if is_multicast(octets) {
        MacKind::Multicast
    } else if is_locally_administered(octets) {
        MacKind::LocalUnicast
    } else {
        MacKind::GlobalUnicast
    }
}

/// Returns `true` if the address is a multicast address (least-significant bit
/// of the first octet set). Unicast addresses have this bit clear.
pub fn is_multicast(octets: [u8; 6]) -> (r: bool)
    ensures
        r == group_bit(octets@),
{
    let b = octets[0];
    assert((b & 0x01 != 0) == (b % 2 == 1)) by (bit_vector);
    b & 0x01 != 0
}

/// Returns `true` if the address is a unicast address: the complement of
/// [`is_multicast`].
pub fn is_unicast(octets: [u8; 6]) -> (r: bool)
    ensures
        r == !group_bit(octets@),
{
    !is_multicast(octets)
}

/// Returns `true` if the address is locally administered (the second-least-
/// significant bit of the first octet set), as opposed to a globally unique,
/// IEEE-assigned address.
pub fn is_locally_administered(octets: [u8; 6]) -> (r: bool)
    ensures
        r == local_bit(octets@),
{
    let b = octets[0];
    assert((b & 0x02 != 0) == (b / 2 % 2 == 1)) by (bit_vector);
    b & 0x02 != 0
}

/// Returns `true` if the address is the broadcast address `FF:FF:FF:FF:FF:FF`.
pub fn is_broadcast(octets: [u8; 6]) -> (r: bool)
    ensures
        r == all_octets(octets@, 0xFF),
{
    octets[0] == 0xFF && octets[1] == 0xFF && octets[2] == 0xFF && octets[3] == 0xFF
        && octets[4] == 0xFF && octets[5] == 0xFF
}

/// Returns `true` if the address is the all-zero address `00:00:00:00:00:00`,
/// which often signals an unset or unknown hardware address.
pub fn is_zero(octets: [u8; 6]) -> (r: bool)
    ensures
        r == all_octets(octets@, 0),
{
    octets[0] == 0 && octets[1] == 0 && octets[2] == 0 && octets[3] == 0 && octets[4] == 0
        && octets[5] == 0
}

/// The IPv4-multicast Ethernet block `01:00:5E:00:00:00`-`01:00:5E:7F:FF:FF`.
pub open spec fn in_ipv4_multicast(o: Seq<u8>) -> bool {
    o[0] == 0x01 && o[1] == 0x00 && o[2] == 0x5E && o[3] < 0x80
}

/// The IPv6-multicast Ethernet block `33:33:00:00:00:00/16`.
pub open spec fn in_ipv6_multicast(o: Seq<u8>) -> bool {
    o[0] == 0x33 && o[1] == 0x33
}

/// The VRRP virtual-router range `00:00:5E:00:01:xx`.
pub open spec fn in_vrrp(o: Seq<u8>) -> bool {
    o[0] == 0x00 && o[1] == 0x00 && o[2] == 0x5E && o[3] == 0x00 && o[4] == 0x01
}

/// The IEEE-reserved bridge-protocol block `01:80:C2:00:00:00`-`01:80:C2:00:00:0F`.
pub open spec fn in_bridge_protocol(o: Seq<u8>) -> bool {
    o[0] == 0x01 && o[1] == 0x80 && o[2] == 0xC2 && o[3] == 0x00 && o[4] == 0x00 && o[5] <= 0x0F
}

/// Returns `true` if the address falls in the IPv4-multicast Ethernet block
/// `01:00:5E:00:00:00`-`01:00:5E:7F:FF:FF` (RFC 1112), the L2 mapping for IPv4
/// multicast group addresses.
pub fn is_ipv4_multicast(octets: [u8; 6]) -> (r: bool)
    ensures
        r == in_ipv4_multicast(octets@),
{
    octets[0] == 0x01 && octets[1] == 0x00 && octets[2] == 0x5E && octets[3] < 0x80
}

/// Returns `true` if the address falls in the IPv6-multicast Ethernet block
/// `33:33:xx:xx:xx:xx` (RFC 2464), the L2 mapping for IPv6 multicast groups.
pub fn is_ipv6_multicast(octets: [u8; 6]) -> (r: bool)
    ensures
        r == in_ipv6_multicast(octets@),
{
    octets[0] == 0x33 && octets[1] == 0x33
}

/// Returns `true` for the VRRP virtual-router MAC range `00:00:5E:00:01:xx`
/// (RFC 5798).
pub fn is_vrrp(octets: [u8; 6]) -> (r: bool)
    ensures
        r == in_vrrp(octets@),
{
    octets[0] == 0x00 && octets[1] == 0x00 && octets[2] == 0x5E && octets[3] == 0x00
        && octets[4] == 0x01
}

/// Returns `true` for the IEEE 802.3x PAUSE frame destination
/// `01:80:C2:00:00:01`.
pub fn is_pause(octets: [u8; 6]) -> (r: bool)
    ensures
        r == (octets@ == seq![0x01u8, 0x80, 0xC2, 0x00, 0x00, 0x01]),
{
    let r = octets[0] == 0x01 && octets[1] == 0x80 && octets[2] == 0xC2 && octets[3] == 0x00
        && octets[4] == 0x00 && octets[5] == 0x01;
    assert(r ==> octets@ =~= seq![0x01u8, 0x80, 0xC2, 0x00, 0x00, 0x01]);
    r
}

/// Returns `true` for the IEEE 802.1D STP BPDU destination `01:80:C2:00:00:00`,
/// also used by RSTP/MSTP.
pub fn is_stp_bpdu(octets: [u8; 6]) -> (r: bool)
    ensures
        r == (octets@ == seq![0x01u8, 0x80, 0xC2, 0x00, 0x00, 0x00]),
{
    let r = octets[0] == 0x01 && octets[1] == 0x80 && octets[2] == 0xC2 && octets[3] == 0x00
        && octets[4] == 0x00 && octets[5] == 0x00;
    assert(r ==> octets@ =~= seq![0x01u8, 0x80, 0xC2, 0x00, 0x00, 0x00]);
    r
}

/// Returns `true` for any address in the IEEE-reserved bridge-protocol block
/// `01:80:C2:00:00:00`-`01:80:C2:00:00:0F`, which carries STP, LACP, LLDP, and
/// other link-local control traffic.
pub fn is_bridge_protocol(octets: [u8; 6]) -> (r: bool)
    ensures
        r == in_bridge_protocol(octets@),
{
    octets[0] == 0x01 && octets[1] == 0x80 && octets[2] == 0xC2 && octets[3] == 0x00
        && octets[4] == 0x00 && octets[5] <= 0x0F
}

/// A finer-grained classification than [`MacKind`], picking out well-known
/// reserved or protocol-specific blocks.
#[derive(Debug, Clone, Copy, PartialEq, Eq, Structural)]
pub enum MacScope {
    /// The all-ones broadcast `FF:FF:FF:FF:FF:FF`.
    Broadcast,
    /// L2 mapping of an IPv4 multicast group (`01:00:5E:00:00:00/25`).
    Ipv4Multicast,
    /// L2 mapping of an IPv6 multicast group (`33:33::/16`).
    Ipv6Multicast,
    /// A VRRP/HSRP virtual-router MAC (`00:00:5E:00:01:xx`).
    Vrrp,
    /// An IEEE-reserved bridge-protocol address (`01:80:C2:00:00:0x`).
    BridgeProtocol,
    /// Any other group/multicast address.
    OtherMulticast,
    /// A locally administered unicast address.
    LocalUnicast,
    /// A globally unique, IEEE-assigned unicast address.
    GlobalUnicast,
    /// The all-zero placeholder `00:00:00:00:00:00`.
    Zero,
    /// A unicast address that didn't fit any of the more specific buckets.
    Generic,
}

/// What [`scope`] returns: the first bucket, in this order, that the address
/// falls in.
pub open spec fn spec_scope(o: Seq<u8>) -> MacScope {
    if all_octets(o, 0xFF) {
        MacScope::Broadcast
    } else if all_octets(o, 0) {
        MacScope::Zero
    } else if in_bridge_protocol(o) {
        MacScope::BridgeProtocol
    } else if in_ipv4_multicast(o) {
        MacScope::Ipv4Multicast
    } else if in_ipv6_multicast(o) {
        MacScope::Ipv6Multicast
    } else if group_bit(o) {
        MacScope::OtherMulticast
    } else if in_vrrp(o) {
        MacScope::Vrrp
    } else if local_bit(o) {
        MacScope::LocalUnicast
    } else {
        MacScope::GlobalUnicast
    }
}

/// Classify an address into a [`MacScope`], picking the most specific bucket.
pub fn scope(octets: [u8; 6]) -> (r: MacScope)
    ensures
        r == spec_scope(octets@),
{
    if is_broadcast(octets) {
        MacScope::Broadcast
    } else if is_zero(octets) {
        MacScope::Zero
    } else if is_bridge_protocol(octets) {
        MacScope::BridgeProtocol
    } else if is_ipv4_multicast(octets) {
        MacScope::Ipv4Multicast
    } else if is_ipv6_multicast(octets) {
        MacScope::Ipv6Multicast
    } else if is_multicast(octets) {
        MacScope::OtherMulticast
    } else if is_vrrp(octets) {
        MacScope::Vrrp
    } else if is_locally_administered(octets) {
        MacScope::LocalUnicast
    } else {
        MacScope::GlobalUnicast
    }
}

/// The text of each [`MacScope`].
pub open spec fn scope_text(k: MacScope) -> Seq<char> {
    match k {
        MacScope::Broadcast => "broadcast"@,
        MacScope::Ipv4Multicast => "ipv4-multicast"@,
        MacScope::Ipv6Multicast => "ipv6-multicast"@,
        MacScope::Vrrp => "vrrp"@,
        MacScope::BridgeProtocol => "bridge-protocol"@,
        MacScope::OtherMulticast => "multicast"@,
        MacScope::LocalUnicast => "local-unicast"@,
        MacScope::GlobalUnicast => "global-unicast"@,
        MacScope::Zero => "zero"@,
        MacScope::Generic => "generic"@,
    }
}

impl MacScope {
    /// The scope name as a static string, without allocating.
    pub fn as_str(self) -> (r: &'static str)
        ensures
            r@ == scope_text(self),
    {
        match self {
            MacScope::Broadcast => "broadcast",
            MacScope::Ipv4Multicast => "ipv4-multicast",
            MacScope::Ipv6Multicast => "ipv6-multicast",
            MacScope::Vrrp => "vrrp",
            MacScope::BridgeProtocol => "bridge-protocol",
            MacScope::OtherMulticast => "multicast",
            MacScope::LocalUnicast => "local-unicast",
            MacScope::GlobalUnicast => "global-unicast",
            MacScope::Zero => "zero",
            MacScope::Generic => "generic",
        }
    }
}

// ---------------------------------------------------------------------------
// EUI-64
// ---------------------------------------------------------------------------

/// The Modified EUI-64 identifier of six octets: `FF:FE` inserted in the
/// middle and the universal/local bit flipped.
pub open spec fn spec_to_eui64(o: Seq<u8>) -> Seq<u8> {
    seq![o[0] ^ 0x02, o[1], o[2], 0xFFu8, 0xFEu8, o[3], o[4], o[5]]
}

/// The MAC address an EUI-64 identifier was formed from, when it carries the
/// `FF:FE` marker.
pub open spec fn spec_eui64_to_mac(e: Seq<u8>) -> Option<Seq<u8>> {
    if e[3] == 0xFF && e[4] == 0xFE {
        Some(seq![e[0] ^ 0x02, e[1], e[2], e[5], e[6], e[7]])
    } else {
        None
    }
}

/// Convert a 48-bit MAC address to its Modified EUI-64 interface identifier,
/// as used when forming IPv6 link-local addresses (RFC 4291). The `FF:FE` is
/// inserted in the middle and the universal/local bit is flipped.
pub fn to_eui64(octets: [u8; 6]) -> (r: [u8; 8])
    ensures
        r@ == spec_to_eui64(octets@),
{
    let r = [
        octets[0] ^ 0x02,
        octets[1],
        octets[2],
        0xFF,
        0xFE,
        octets[3],
        octets[4],
        octets[5],
    ];
    assert(r@ =~= spec_to_eui64(octets@));
    r
}

/// Recover the 48-bit MAC address from a Modified EUI-64 interface identifier,
/// the inverse of [`to_eui64`].
///
/// Returns `None` if the middle bytes are not the `FF:FE` marker inserted by
/// [`to_eui64`], i.e. the EUI-64 was not derived from a 48-bit MAC.
pub fn eui64_to_mac(eui: [u8; 8]) -> (r: Option<[u8; 6]>)
    ensures
        match r {
            Some(m) => spec_eui64_to_mac(eui@) == Some(m@),
            None => spec_eui64_to_mac(eui@) is None,
        },
{
    if eui[3] != 0xFF || eui[4] != 0xFE {
        return None;
    }
    let m = [eui[0] ^ 0x02, eui[1], eui[2], eui[5], eui[6], eui[7]];
    assert(m@ =~= seq![eui[0] ^ 0x02, eui[1], eui[2], eui[5], eui[6], eui[7]]);
    Some(m)
}

/// The eight 16-bit groups of the IPv6 link-local address (`fe80::/64`)
/// formed from six octets via their Modified EUI-64 identifier.
pub open spec fn spec_link_local_segments(o: Seq<u8>) -> Seq<u16> {
    let e = spec_to_eui64(o);
    seq![
        0xfe80u16,
        0u16,
        0u16,
        0u16,
        (e[0] * 256 + e[1]) as u16,
        (e[2] * 256 + e[3]) as u16,
        (e[4] * 256 + e[5]) as u16,
        (e[6] * 256 + e[7]) as u16,
    ]
}

/// The sixteen octets of the IPv6 link-local address (`fe80::/64`) formed
/// from six octets via their Modified EUI-64 identifier.
pub open spec fn spec_link_local_octets(o: Seq<u8>) -> Seq<u8> {
    seq![0xfeu8, 0x80u8, 0u8, 0u8, 0u8, 0u8, 0u8, 0u8] + spec_to_eui64(o)
}

fn be_u16(hi: u8, lo: u8) -> (r: u16)
    ensures
        r == hi * 256 + lo,
{
    assert(((hi as u16) << 8) | (lo as u16) == hi as u16 * 256 + lo as u16) by (bit_vector);
    ((hi as u16) << 8) | (lo as u16)
}

/// The eight 16-bit groups of the IPv6 link-local address (`fe80::/64`)
/// formed from a MAC address via its Modified EUI-64 interface identifier
/// (RFC 4291), most-significant group first.
pub fn link_local_ipv6_segments(octets: [u8; 6]) -> (r: [u16; 8])
    ensures
        r@ == spec_link_local_segments(octets@),
{
    let e = to_eui64(octets);
    let r = [
        0xfe80,
        0,
        0,
        0,
        be_u16(e[0], e[1]),
        be_u16(e[2], e[3]),
        be_u16(e[4], e[5]),
        be_u16(e[6], e[7]),
    ];
    assert(r@ =~= spec_link_local_segments(octets@));
    r
}


// ---------------------------------------------------------------------------
// Display text
// ---------------------------------------------------------------------------

/// The text that `format!("{c:?}")` gives for a character: the `Debug` form of
/// `char`, a quoted and escaped spelling.
pub uninterp spec fn char_debug_text(c: char) -> Seq<char>;

/// The `Debug` spelling of a character, through `format!("{c:?}")`. The
/// contract only names the result (`char_debug_text`); its quoting and escape
/// rules are std's and are not restated here.
#[verifier::external_body]
fn char_debug(c: char) -> (r: String)
    ensures
        r@ == char_debug_text(c),
{
    format!("{c:?}")
}

/// The human-readable message for each parse error.
pub open spec fn error_text(e: ParseMacError) -> Seq<char> {
    match e {
        ParseMacError::TooShort => "not enough hex digits for a 24-bit OUI (need at least 6)"@,
        ParseMacError::TooLong => "too many hex digits (max 12 for a 48-bit MAC)"@,
        ParseMacError::InvalidChar(c) => "invalid character in MAC address: "@ + char_debug_text(
            c,
        ),
    }
}

impl ParseMacError {
    /// The human-readable message for this error (what `Display` would print).
    pub fn to_text(&self) -> (r: String)
        ensures
            r@ == error_text(*self),
    {
        match self {
            ParseMacError::TooShort => "not enough hex digits for a 24-bit OUI (need at least 6)".to_owned(),
            ParseMacError::TooLong => "too many hex digits (max 12 for a 48-bit MAC)".to_owned(),
            ParseMacError::InvalidChar(c) => {
                let mut out = "invalid character in MAC address: ".to_owned();
                let d = char_debug(*c);
                out.append(d.as_str());
                out
            },
        }
    }
}

impl MacKind {
    /// The kind's name as an owned string (what `Display` would print).
    pub fn to_text(self) -> (r: String)
        ensures
            r@ == kind_text(self),
    {
        self.as_str().to_owned()
    }
}

impl MacScope {
    /// The scope's name as an owned string (what `Display` would print).
    pub fn to_text(self) -> (r: String)
        ensures
            r@ == scope_text(self),
    {
        self.as_str().to_owned()
    }
}


// ---------------------------------------------------------------------------
// Splitting addresses
// ---------------------------------------------------------------------------

/// Split a 48-bit address into its OUI (first three octets) and the
/// device-specific suffix (last three).
pub fn split_mac48(octets: [u8; 6]) -> (r: ([u8; 3], [u8; 3]))
    ensures
        r.0@ == octets@.subrange(0, 3),
        r.1@ == octets@.subrange(3, 6),
{
    let p = [octets[0], octets[1], octets[2]];
    let q = [octets[3], octets[4], octets[5]];
    assert(p@ =~= octets@.subrange(0, 3));
    assert(q@ =~= octets@.subrange(3, 6));
    (p, q)
}

/// Join an OUI and a three-octet suffix into a 48-bit address: the inverse of
/// [`split_mac48`].
pub fn with_oui_octets(oui: [u8; 3], suffix: [u8; 3]) -> (r: [u8; 6])
    ensures
        r@ == oui@ + suffix@,
{
    let r = [oui[0], oui[1], oui[2], suffix[0], suffix[1], suffix[2]];
    assert(r@ =~= oui@ + suffix@);
    r
}

/// The solicited-node multicast MAC for an IPv6 address (RFC 4861 7.1 with
/// RFC 2464 7): `33:33:FF` followed by the low 24 bits of the address.
pub fn solicited_node_mac(addr: [u8; 16]) -> (r: [u8; 6])
    ensures
        r@ == seq![0x33u8, 0x33, 0xFF, addr[13], addr[14], addr[15]],
{
    let r = [0x33, 0x33, 0xFF, addr[13], addr[14], addr[15]];
    assert(r@ =~= seq![0x33u8, 0x33, 0xFF, addr[13], addr[14], addr[15]]);
    r
}


/// The MAC address behind an IPv6 link-local address (`fe80::/64` with a
/// Modified EUI-64 interface identifier): the inverse of the link-local
/// address formed from a MAC. `None` when the address is outside
/// `fe80::/64` or its interface identifier carries no `FF:FE` marker.
pub open spec fn spec_mac_from_link_local(addr: Seq<u8>) -> Option<Seq<u8>> {
    if addr[0] == 0xfe && addr[1] == 0x80 && addr[2] == 0 && addr[3] == 0 && addr[4] == 0
        && addr[5] == 0 && addr[6] == 0 && addr[7] == 0 {
        spec_eui64_to_mac(addr.subrange(8, 16))
    } else {
        None
    }
}

/// Recover the MAC address from the sixteen octets of an IPv6 link-local
/// address formed from it (see [`spec_mac_from_link_local`]).
pub fn mac_from_link_local(addr: [u8; 16]) -> (r: Option<[u8; 6]>)
    ensures
        match r {
            Some(m) => spec_mac_from_link_local(addr@) == Some(m@),
            None => spec_mac_from_link_local(addr@) is None,
        },
{
    if addr[0] != 0xfe || addr[1] != 0x80 || addr[2] != 0 || addr[3] != 0 || addr[4] != 0
        || addr[5] != 0 || addr[6] != 0 || addr[7] != 0 {
        return None;
    }
    let e = [addr[8], addr[9], addr[10], addr[11], addr[12], addr[13], addr[14], addr[15]];
    assert(e@ =~= addr@.subrange(8, 16));
    eui64_to_mac(e)
}

impl MacScope {
    /// `true` for the group scopes: broadcast and every multicast bucket.
    pub fn is_multicast(self) -> (r: bool)
        ensures
            r == (self == MacScope::Broadcast || self == MacScope::Ipv4Multicast || self
                == MacScope::Ipv6Multicast || self == MacScope::BridgeProtocol || self
                == MacScope::OtherMulticast),
    {
        match self {
            MacScope::Broadcast | MacScope::Ipv4Multicast | MacScope::Ipv6Multicast
            | MacScope::BridgeProtocol | MacScope::OtherMulticast => true,
            _ => false,
        }
    }

    /// `true` for the individual (unicast) scopes: the complement of
    /// [`MacScope::is_multicast`].
    pub fn is_unicast(self) -> (r: bool)
        ensures
            r == !(self == MacScope::Broadcast || self == MacScope::Ipv4Multicast || self
                == MacScope::Ipv6Multicast || self == MacScope::BridgeProtocol || self
                == MacScope::OtherMulticast),
    {
        !self.is_multicast()
    }
}

} // verus!
