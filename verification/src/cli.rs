//! The decisions of the command-line front end: resolving each input to a
//! record, rendering records in each output format, cleaning input lines,
//! dropping duplicate inputs, and choosing the exit status.
use vstd::prelude::*;

use crate::db::registry_name;
use crate::hex::join_hex;
use crate::mac::{
    error_text, is_white_space, kind_text, spec_classify, spec_parse_mac48, spec_parse_oui,
    spec_to_eui64, MacKind, ParseMacError,
};
use crate::text::{chars_of, same_chars};
use crate::{oui_text, search, spec_search, Entry};

verus! {

/// Append one character to a string, through `String::push`, which appends
/// the given `char` to the end of the string.
#[verifier::external_body]
fn push_char(s: &mut String, c: char)
    ensures
        final(s)@ == old(s)@.push(c),
{
    s.push(c);
}

/// A string holding exactly the characters `cs`.
fn string_of(cs: &Vec<char>, from: usize, to: usize) -> (r: String)
    requires
        from <= to <= cs.len(),
    ensures
        r@ == cs@.subrange(from as int, to as int),
{
    let mut out = String::new();
    let mut i = from;
    while i < to
        invariant
            from <= i <= to <= cs.len(),
            out@ == cs@.subrange(from as int, i as int),
        decreases to - i,
    {
        push_char(&mut out, cs[i]);
        i += 1;
        assert(out@ =~= cs@.subrange(from as int, i as int));
    }
    out
}

// ---------------------------------------------------------------------------
// Records
// ---------------------------------------------------------------------------

/// One resolved (or unresolved) lookup result.
pub struct Record {
    /// The input as given.
    pub input: String,
    /// The canonical `AA:BB:CC` prefix, when the input parsed.
    pub prefix: Option<String>,
    /// The registered vendor, when the input parsed and the OUI is known.
    pub vendor: Option<String>,
    /// The parse error's message, when the input did not parse.
    pub error: Option<String>,
}

/// An optional string taken as its text.
pub open spec fn opt_text(o: Option<String>) -> Option<Seq<char>> {
    match o {
        Some(s) => Some(s@),
        None => None,
    }
}

/// The record `resolve` builds for the input `s`: prefix and vendor when it
/// parses as an OUI, the error message otherwise.
pub open spec fn record_fits(r: Record, s: Seq<char>) -> bool {
    &&& r.input@ == s
    &&& match spec_parse_oui(s) {
        Ok(oui) => {
            &&& opt_text(r.prefix) == Some(oui_text(oui))
            &&& opt_text(r.vendor) == match registry_name(oui) {
                Some(n) => Some(n@),
                None => None::<Seq<char>>,
            }
            &&& r.error is None
        },
        Err(e) => {
            &&& r.prefix is None
            &&& r.vendor is None
            &&& opt_text(r.error) == Some(error_text(e))
        },
    }
}

/// Resolve one input to a [`Record`].
pub fn resolve(input: &str) -> (r: Record)
    ensures
        record_fits(r, input@),
{
    match crate::parse_oui(input) {
        Ok(oui) => {
            let prefix = crate::format_oui(oui);
            let vendor = match crate::lookup(input) {
                Some(n) => Some(n.to_owned()),
                None => None,
            };
            Record { input: input.to_owned(), prefix: Some(prefix), vendor, error: None }
        },
        Err(e) => Record {
            input: input.to_owned(),
            prefix: None,
            vendor: None,
            error: Some(e.to_text()),
        },
    }
}

/// Resolve every input, in order.
pub fn resolve_all(inputs: &Vec<String>) -> (r: Vec<Record>)
    ensures
        r.len() == inputs.len(),
        forall|i: int| 0 <= i < inputs.len() ==> record_fits(#[trigger] r[i], inputs[i]@),
{
    let mut out: Vec<Record> = Vec::new();
    for i in 0..inputs.len()
        invariant
            out.len() == i,
            forall|j: int| 0 <= j < i ==> record_fits(#[trigger] out[j], inputs[j]@),
    {
        out.push(resolve(inputs[i].as_str()));
    }
    out
}

/// The exit status for a batch of records: 2 when any input failed to parse,
/// otherwise 1 when any parsed input matched no vendor, otherwise 0.
pub open spec fn spec_exit_code(rs: Seq<Record>) -> u8 {
    if exists|i: int| 0 <= i < rs.len() && (#[trigger] rs[i]).error is Some {
        2
    } else if exists|i: int|
        0 <= i < rs.len() && (#[trigger] rs[i]).error is None && rs[i].vendor is None {
        1
    } else {
        0
    }
}

/// The exit status for a batch of records (see [`spec_exit_code`]).
pub fn exit_code(records: &Vec<Record>) -> (r: u8)
    ensures
        r == spec_exit_code(records@),
{
    let mut any_error = false;
    let mut any_unmatched = false;
    for i in 0..records.len()
        invariant
            any_error == exists|j: int| 0 <= j < i && (#[trigger] records@[j]).error is Some,
            any_unmatched == exists|j: int|
                0 <= j < i && (#[trigger] records@[j]).error is None && records@[j].vendor is None,
    {
        let r = &records[i];
        if r.error.is_some() {
            any_error = true;
        } else if r.vendor.is_none() {
            any_unmatched = true;
        }
    }
    if any_error {
        2
    } else if any_unmatched {
        1
    } else {
        0
    }
}

/// The exit status of a per-input mode (normalizing, EUI-64, link-local,
/// scope, solicited-node): 2 when any input was rejected, otherwise 0.
pub fn batch_status(n_failed: usize) -> (r: u8)
    ensures
        r == (if n_failed > 0 { 2u8 } else { 0u8 }),
{
    if n_failed > 0 {
        2
    } else {
        0
    }
}

/// The exit status of a registry search: 1 when nothing matched, otherwise 0.
pub fn search_status(n_rows: usize) -> (r: u8)
    ensures
        r == (if n_rows == 0 { 1u8 } else { 0u8 }),
{
    if n_rows == 0 {
        1
    } else {
        0
    }
}

// ---------------------------------------------------------------------------
// Rendering
// ---------------------------------------------------------------------------

/// `s` followed by spaces up to `w` characters (what `{:<w}` prints).
pub open spec fn pad_right(s: Seq<char>, w: nat) -> Seq<char> {
    if s.len() >= w {
        s
    } else {
        s + Seq::new((w - s.len()) as nat, |i: int| ' ')
    }
}

fn append_padded(out: &mut String, s: &str, w: usize)
    ensures
        final(out)@ == old(out)@ + pad_right(s@, w as nat),
{
    out.append(s);
    let n = chars_of(s).len();
    let ghost base = old(out)@ + s@;
    let mut k = n;
    while k < w
        invariant
            n == s@.len(),
            n <= k <= w || (n > w && k == n),
            out@ == base + Seq::new((k - n) as nat, |i: int| ' '),
        decreases w - k,
    {
        push_char(out, ' ');
        k += 1;
        assert(out@ =~= base + Seq::new((k - n) as nat, |i: int| ' '));
    }
    proof {
        if n >= w {
            assert(out@ =~= base);
        }
    }
    assert(out@ =~= old(out)@ + pad_right(s@, w as nat));
}

/// The text of an optional string, or `dflt` when absent.
pub open spec fn text_or(o: Option<String>, dflt: Seq<char>) -> Seq<char> {
    match o {
        Some(s) => s@,
        None => dflt,
    }
}

/// The vendor-only line of a record: the vendor name, or nothing.
pub fn vendor_only_row(r: &Record) -> (line: String)
    ensures
        line@ == text_or(r.vendor, Seq::empty()),
{
    match &r.vendor {
        Some(v) => v.clone(),
        None => String::new(),
    }
}

/// The tab-separated line of a record: prefix (or the input when it did not
/// parse), a tab, and the vendor (or nothing).
pub fn tsv_row(r: &Record) -> (line: String)
    ensures
        line@ == text_or(r.prefix, r.input@) + seq!['\t'] + text_or(r.vendor, Seq::empty()),
{
    let mut out = match &r.prefix {
        Some(p) => p.clone(),
        None => r.input.clone(),
    };
    push_char(&mut out, '\t');
    if let Some(v) = &r.vendor {
        out.append(v.as_str());
    }
    out
}

/// A CSV field for a vendor name: the name itself, or, when it holds a comma
/// or a double quote, the name in double quotes with each quote doubled.
pub open spec fn csv_field(v: Seq<char>) -> Seq<char> {
    if v.contains(',') || v.contains('"') {
        seq!['"'] + double_quotes(v) + seq!['"']
    } else {
        v
    }
}

/// `v` with every `"` written twice.
pub open spec fn double_quotes(v: Seq<char>) -> Seq<char>
    decreases v.len(),
{
    if v.len() == 0 {
        Seq::empty()
    } else if v.last() == '"' {
        double_quotes(v.drop_last()) + seq!['"', '"']
    } else {
        double_quotes(v.drop_last()).push(v.last())
    }
}

fn csv_field_exec(v: &str) -> (r: String)
    ensures
        r@ == csv_field(v@),
{
    let cs = chars_of(v);
    let mut special = false;
    let mut escaped = String::new();
    for i in 0..cs.len()
        invariant
            cs@ == v@,
            special == exists|j: int| 0 <= j < i && (#[trigger] cs@[j] == ',' || cs@[j] == '"'),
            escaped@ == double_quotes(cs@.take(i as int)),
    {
        let c = cs[i];
        proof {
            assert(cs@.take(i + 1).drop_last() =~= cs@.take(i as int));
            assert(cs@.take(i + 1).last() == c);
        }
        if c == ',' || c == '"' {
            special = true;
        }
        if c == '"' {
            push_char(&mut escaped, '"');
            push_char(&mut escaped, '"');
            assert(escaped@ =~= double_quotes(cs@.take(i + 1)));
        } else {
            push_char(&mut escaped, c);
        }
    }
    assert(cs@.take(cs.len() as int) =~= cs@);
    proof {
        if special {
            let j = choose|j: int| 0 <= j < cs.len() && (#[trigger] cs@[j] == ',' || cs@[j] == '"');
            assert(v@[j] == cs@[j]);
        } else {
            assert(!v@.contains(','));
            assert(!v@.contains('"'));
        }
    }
    if special {
        let mut out = String::new();
        push_char(&mut out, '"');
        out.append(escaped.as_str());
        push_char(&mut out, '"');
        assert(out@ =~= seq!['"'] + double_quotes(v@) + seq!['"']);
        out
    } else {
        v.to_owned()
    }
}

/// The comma-separated line of a record: prefix (or the input), a comma,
/// and the vendor as a CSV field (or nothing).
pub fn csv_row(r: &Record) -> (line: String)
    ensures
        line@ == text_or(r.prefix, r.input@) + seq![','] + csv_field(
            text_or(r.vendor, Seq::empty()),
        ),
{
    let mut out = match &r.prefix {
        Some(p) => p.clone(),
        None => r.input.clone(),
    };
    push_char(&mut out, ',');
    let field = match &r.vendor {
        Some(v) => csv_field_exec(v.as_str()),
        None => csv_field_exec(""),
    };
    proof {
        reveal_strlit("");
        assert(csv_field(Seq::<char>::empty()) == Seq::<char>::empty()) by {
            assert(!Seq::<char>::empty().contains(','));
            assert(!Seq::<char>::empty().contains('"'));
        }
    }
    out.append(field.as_str());
    out
}

/// `s` with every `:` removed.
pub open spec fn strip_colons(s: Seq<char>) -> Seq<char> {
    s.filter(|c: char| c != ':')
}

fn strip_colons_exec(s: &str) -> (r: String)
    ensures
        r@ == strip_colons(s@),
{
    let cs = chars_of(s);
    let mut out = String::new();
    for i in 0..cs.len()
        invariant
            cs@ == s@,
            out@ == strip_colons(cs@.take(i as int)),
    {
        proof {
            reveal_with_fuel(Seq::filter, 1);
            assert(cs@.take(i + 1).drop_last() =~= cs@.take(i as int));
        }
        if cs[i] != ':' {
            push_char(&mut out, cs[i]);
        }
    }
    assert(cs@.take(cs.len() as int) =~= cs@);
    out
}

/// The bare line of a record: the prefix without colons (or the input), a
/// tab, and the vendor (or nothing).
pub fn bare_row(r: &Record) -> (line: String)
    ensures
        line@ == (match r.prefix {
            Some(p) => strip_colons(p@),
            None => r.input@,
        }) + seq!['\t'] + text_or(r.vendor, Seq::empty()),
{
    let mut out = match &r.prefix {
        Some(p) => strip_colons_exec(p.as_str()),
        None => r.input.clone(),
    };
    push_char(&mut out, '\t');
    if let Some(v) = &r.vendor {
        out.append(v.as_str());
    }
    out
}

/// The class label shown with `--class`: the address kind when the input is
/// a full MAC address, `-` otherwise.
pub open spec fn class_label(input: Seq<char>) -> Seq<char> {
    match spec_parse_mac48(input) {
        Ok(o) => kind_text(spec_classify(o)),
        Err(_) => "-"@,
    }
}

/// The class label of an input (see [`class_label`]).
pub fn class_label_exec(input: &str) -> (r: String)
    ensures
        r@ == class_label(input@),
{
    match crate::parse_mac48(input) {
        Ok(m) => crate::classify(m).to_text(),
        Err(_) => "-".to_owned(),
    }
}

/// The human-readable line of a record, or `None` for an unmatched address
/// when `quiet` is set. An error line is the input padded to 20 columns,
/// then ` error: ` and the message; a match is the prefix padded to 20
/// columns, the class padded to 16 (when given), and the vendor; an unmatched
/// address is the prefix padded to 20 columns and ` (unknown)`.
pub open spec fn spec_text_row(r: Record, class: Option<Seq<char>>, quiet: bool) -> Option<
    Seq<char>,
> {
    match r.error {
        Some(e) => Some(pad_right(r.input@, 20) + " error: "@ + e@),
        None => match r.vendor {
            Some(v) => match class {
                Some(c) => Some(
                    pad_right(text_or(r.prefix, Seq::empty()), 20) + seq![' '] + pad_right(c, 16)
                        + seq![' '] + v@,
                ),
                None => Some(pad_right(text_or(r.prefix, Seq::empty()), 20) + seq![' '] + v@),
            },
            None => if quiet {
                None
            } else {
                Some(pad_right(text_or(r.prefix, r.input@), 20) + " (unknown)"@)
            },
        },
    }
}

/// The human-readable line of a record (see [`spec_text_row`]).
pub fn text_row(r: &Record, class: Option<&str>, quiet: bool) -> (line: Option<String>)
    ensures
        opt_text(line) == spec_text_row(
            *r,
            match class {
                Some(c) => Some(c@),
                None => None,
            },
            quiet,
        ),
{
    if let Some(err) = &r.error {
        let mut out = String::new();
        append_padded(&mut out, r.input.as_str(), 20);
        out.append(" error: ");
        out.append(err.as_str());
        return Some(out);
    }
    if let Some(v) = &r.vendor {
        let mut out = String::new();
        let prefix = match &r.prefix {
            Some(p) => p.as_str(),
            None => "",
        };
        proof {
            reveal_strlit("");
        }
        append_padded(&mut out, prefix, 20);
        push_char(&mut out, ' ');
        if let Some(c) = class {
            append_padded(&mut out, c, 16);
            push_char(&mut out, ' ');
        }
        out.append(v.as_str());
        return Some(out);
    }
    if quiet {
        return None;
    }
    let mut out = String::new();
    let shown = match &r.prefix {
        Some(p) => p.as_str(),
        None => r.input.as_str(),
    };
    append_padded(&mut out, shown, 20);
    out.append(" (unknown)");
    Some(out)
}

/// The text `--eui64` prints: the eight octets of the Modified EUI-64
/// identifier as colon-separated hex, upper-case unless `lower`.
pub fn eui64_text(octets: [u8; 6], lower: bool) -> (r: String)
    ensures
        r@ == join_hex(spec_to_eui64(octets@), !lower, seq![':']),
{
    let e = crate::to_eui64(octets);
    proof {
        reveal_strlit(":");
    }
    let r = crate::hex::hex_join(e.as_slice(), !lower, ":");
    assert(":"@ =~= seq![':']);
    r
}

// ---------------------------------------------------------------------------
// Input lines
// ---------------------------------------------------------------------------

/// The number of white-space characters at the start of `s`.
pub open spec fn leading_ws(s: Seq<char>) -> nat
    decreases s.len(),
{
    if s.len() > 0 && is_white_space(s[0]) {
        1 + leading_ws(s.drop_first())
    } else {
        0
    }
}

/// The number of white-space characters at the end of `s`.
pub open spec fn trailing_ws(s: Seq<char>) -> nat
    decreases s.len(),
{
    if s.len() > 0 && is_white_space(s.last()) {
        1 + trailing_ws(s.drop_last())
    } else {
        0
    }
}

/// `s` without its leading and trailing white space (what `str::trim`
/// returns).
pub open spec fn trim_text(s: Seq<char>) -> Seq<char> {
    let a = leading_ws(s);
    if a == s.len() {
        Seq::empty()
    } else {
        s.subrange(a as int, s.len() - trailing_ws(s))
    }
}

/// What `input_line` keeps of a line: the trimmed line, unless it is blank
/// or a `#` comment.
pub open spec fn spec_input_line(line: Seq<char>) -> Option<Seq<char>> {
    let t = trim_text(line);
    if t.len() == 0 || t[0] == '#' {
        None
    } else {
        Some(t)
    }
}

proof fn lemma_leading_ws(s: Seq<char>, a: int)
    requires
        0 <= a <= s.len(),
        forall|i: int| 0 <= i < a ==> is_white_space(#[trigger] s[i]),
        a == s.len() || !is_white_space(s[a]),
    ensures
        leading_ws(s) == a,
    decreases a,
{
    if a > 0 {
        assert forall|i: int| 0 <= i < a - 1 implies is_white_space(#[trigger] s.drop_first()[i]) by {
            assert(s.drop_first()[i] == s[i + 1]);
        }
        if a - 1 < s.drop_first().len() {
            assert(s.drop_first()[a - 1] == s[a]);
        }
        lemma_leading_ws(s.drop_first(), a - 1);
    }
}

proof fn lemma_trailing_ws(s: Seq<char>, b: int)
    requires
        0 <= b <= s.len(),
        forall|i: int| b <= i < s.len() ==> is_white_space(#[trigger] s[i]),
        b == 0 || !is_white_space(s[b - 1]),
    ensures
        trailing_ws(s) == s.len() - b,
    decreases s.len() - b,
{
    if b < s.len() {
        assert forall|i: int| b <= i < s.len() - 1 implies is_white_space(#[trigger] s.drop_last()[i]) by {
            assert(s.drop_last()[i] == s[i]);
        }
        if b > 0 {
            assert(s.drop_last()[b - 1] == s[b - 1]);
        }
        lemma_trailing_ws(s.drop_last(), b);
    }
}

fn is_white_space_char(c: char) -> (r: bool)
    ensures
        r == is_white_space(c),
{
    let u = c as u32;
    (0x09 <= u && u <= 0x0d) || u == 0x20 || u == 0x85 || u == 0xa0 || u == 0x1680 || (0x2000
        <= u && u <= 0x200a) || u == 0x2028 || u == 0x2029 || u == 0x202f || u == 0x205f || u
        == 0x3000
}

/// The address a line of an input file holds: the trimmed line, or `None`
/// for a blank line or a `#` comment.
pub fn input_line(line: &str) -> (r: Option<String>)
    ensures
        opt_text(r) == spec_input_line(line@),
{
    let cs = chars_of(line);
    let n = cs.len();
    let mut a: usize = 0;
    while a < n && is_white_space_char(cs[a])
        invariant
            n == cs.len(),
            cs@ == line@,
            a <= n,
            forall|i: int| 0 <= i < a ==> is_white_space(#[trigger] cs@[i]),
        decreases n - a,
    {
        a += 1;
    }
    proof {
        lemma_leading_ws(cs@, a as int);
    }
    if a == n {
        return None;
    }
    let mut b: usize = n;
    while b > a && is_white_space_char(cs[b - 1])
        invariant
            n == cs.len(),
            cs@ == line@,
            a < n,
            !is_white_space(cs@[a as int]),
            a <= b <= n,
            forall|i: int| b <= i < n ==> is_white_space(#[trigger] cs@[i]),
        decreases b,
    {
        b -= 1;
    }
    proof {
        lemma_trailing_ws(cs@, b as int);
    }
    if cs[a] == '#' {
        return None;
    }
    let t = string_of(&cs, a, b);
    Some(t)
}

// ---------------------------------------------------------------------------
// Inputs
// ---------------------------------------------------------------------------

/// Where addresses come from: an argument itself, standard input, or a file.
pub enum Source {
    /// An address given as an argument.
    Literal(String),
    /// Standard input, one address per line.
    Stdin,
    /// A file, one address per line.
    File(String),
}

/// The source of a positional argument: `-` is standard input, anything else
/// the address itself.
pub open spec fn arg_source_fits(s: Source, a: Seq<char>) -> bool {
    if a == "-"@ {
        s is Stdin
    } else {
        s matches Source::Literal(t) && t@ == a
    }
}

/// The source of an `--input` path: `-` is standard input, anything else a
/// file.
pub open spec fn file_source_fits(s: Source, f: Seq<char>) -> bool {
    if f == "-"@ {
        s is Stdin
    } else {
        s matches Source::File(t) && t@ == f
    }
}

/// The sources to read, in order: the positional arguments first (each `-`
/// standing for standard input), then each `--input` path.
pub fn input_sources(args: &Vec<String>, files: &Vec<String>) -> (r: Vec<Source>)
    ensures
        r.len() == args.len() + files.len(),
        forall|i: int| 0 <= i < args.len() ==> arg_source_fits(#[trigger] r[i], args[i]@),
        forall|i: int|
            0 <= i < files.len() ==> file_source_fits(#[trigger] r[args.len() + i], files[i]@),
{
    let dash = chars_of("-");
    let mut out: Vec<Source> = Vec::new();
    for i in 0..args.len()
        invariant
            dash@ == "-"@,
            out.len() == i,
            forall|j: int| 0 <= j < i ==> arg_source_fits(#[trigger] out[j], args[j]@),
    {
        let a = chars_of(args[i].as_str());
        if same_chars(&a, &dash) {
            out.push(Source::Stdin);
        } else {
            out.push(Source::Literal(args[i].clone()));
        }
    }
    for i in 0..files.len()
        invariant
            dash@ == "-"@,
            out.len() == args.len() + i,
            forall|j: int| 0 <= j < args.len() ==> arg_source_fits(#[trigger] out[j], args[j]@),
            forall|j: int|
                0 <= j < i ==> file_source_fits(#[trigger] out[args.len() + j], files[j]@),
    {
        let f = chars_of(files[i].as_str());
        if same_chars(&f, &dash) {
            out.push(Source::Stdin);
        } else {
            out.push(Source::File(files[i].clone()));
        }
    }
    out
}

/// The inputs with every repeat of an earlier input dropped, keeping the
/// first occurrence of each, in order.
pub open spec fn first_occurrences(s: Seq<Seq<char>>) -> Seq<Seq<char>>
    decreases s.len(),
{
    if s.len() == 0 {
        Seq::empty()
    } else if s.drop_last().contains(s.last()) {
        first_occurrences(s.drop_last())
    } else {
        first_occurrences(s.drop_last()).push(s.last())
    }
}

/// The texts of a sequence of strings.
pub open spec fn string_views(v: Seq<String>) -> Seq<Seq<char>> {
    v.map_values(|x: String| x@)
}

/// Whether `s` equals (by its text) one of the strings in `v`.
fn holds_string(v: &Vec<String>, s: &String) -> (r: bool)
    ensures
        r == string_views(v@).contains(s@),
{
    let ghost vv = string_views(v@);
    for j in 0..v.len()
        invariant
            vv == string_views(v@),
            forall|k: int| 0 <= k < j ==> v@[k]@ != s@,
    {
        if v[j] == *s {
            assert(vv[j as int] == s@);
            return true;
        }
    }
    assert forall|k: int| 0 <= k < vv.len() implies #[trigger] vv[k] != s@ by {
        assert(vv[k] == v@[k]@);
    }
    false
}

/// Drop duplicate inputs, keeping the first occurrence of each.
pub fn unique_inputs(inputs: &Vec<String>) -> (r: Vec<String>)
    ensures
        string_views(r@) == first_occurrences(string_views(inputs@)),
{
    let ghost views = string_views(inputs@);
    let mut out: Vec<String> = Vec::new();
    assert(views.take(0) =~= Seq::<Seq<char>>::empty());
    assert(string_views(out@) =~= Seq::<Seq<char>>::empty());
    for i in 0..inputs.len()
        invariant
            views == string_views(inputs@),
            string_views(out@) == first_occurrences(views.take(i as int)),
            forall|t: Seq<char>|
                #![trigger views.take(i as int).contains(t)]
                #![trigger string_views(out@).contains(t)]
                views.take(i as int).contains(t) <==> string_views(out@).contains(t),
    {
        let seen = holds_string(&out, &inputs[i]);
        let ghost prev = views.take(i as int);
        let ghost outv = string_views(out@);
        let ghost x = inputs@[i as int]@;
        proof {
            assert(views.take(i + 1).drop_last() =~= prev);
            assert(views.take(i + 1).last() == x);
        }
        if !seen {
            out.push(inputs[i].clone());
            assert(string_views(out@) =~= outv.push(x));
        }
        proof {
            let nv = string_views(out@);
            if seen {
                assert(nv == outv);
            } else {
                assert(nv == outv.push(x));
            }
            assert forall|m: int| 0 <= m < outv.len() implies nv[m] == #[trigger] outv[m] by {
                if !seen {
                    assert(outv.push(x)[m] == outv[m]);
                }
            }
            assert forall|t: Seq<char>| views.take(i + 1).contains(t) <==> nv.contains(t) by {
                if views.take(i + 1).contains(t) {
                    let k = choose|k: int| 0 <= k < i + 1 && #[trigger] views.take(i + 1)[k] == t;
                    if k < i {
                        assert(prev[k] == t);
                        assert(views.take(i as int).contains(t));
                        assert(outv.contains(t));
                        let m = choose|m: int| 0 <= m < outv.len() && #[trigger] outv[m] == t;
                        assert(nv[m] == t);
                    } else if seen {
                        assert(k == i);
                        assert(t == x);
                        assert(nv == outv);
                        let m = choose|m: int| 0 <= m < outv.len() && #[trigger] outv[m] == x;
                        assert(nv[m] == t);
                    } else {
                        assert(nv[nv.len() - 1] == t);
                    }
                }
                if nv.contains(t) {
                    let m = choose|m: int| 0 <= m < nv.len() && #[trigger] nv[m] == t;
                    if m < outv.len() {
                        assert(outv[m] == t);
                        assert(outv.contains(t));
                        assert(views.take(i as int).contains(t));
                        let k = choose|k: int| 0 <= k < prev.len() && #[trigger] prev[k] == t;
                        assert(views.take(i + 1)[k] == t);
                    } else {
                        assert(views.take(i + 1)[i as int] == t);
                    }
                }
            }
        }
    }
    assert(views.take(inputs.len() as int) =~= views);
    out
}

// ---------------------------------------------------------------------------
// Searching with a row limit
// ---------------------------------------------------------------------------

/// The rows `--search` prints: the search results, cut to the first `limit`
/// when `limit` is not 0.
pub open spec fn spec_search_rows(needle: Seq<char>, limit: usize) -> Seq<Entry> {
    let all = spec_search(needle);
    if limit != 0 && limit < all.len() {
        all.take(limit as int)
    } else {
        all
    }
}

/// The rows `--search` prints (see [`spec_search_rows`]).
pub fn search_rows(needle: &str, limit: usize) -> (r: Vec<Entry>)
    ensures
        r@ == spec_search_rows(needle@, limit),
{
    let mut all = search(needle);
    if limit != 0 && limit < all.len() {
        all.truncate(limit);
    }
    all
}

} // verus!
