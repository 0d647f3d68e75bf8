# oui_lookup

Offline MAC-address vendor (OUI) lookup, written in Verus: the parsers,
formatters, classifiers, the registry search and the command-line decisions
carry `requires`/`ensures` contracts that Verus proves.

Layout:

- `src/mac.rs` — parsing MAC spellings (`parse_oui`, `parse_mac48`),
  classification (`classify`, `scope`, the bit and range predicates), EUI-64
  and link-local helpers, and the canonical formatters.
- `src/hex.rs` — hex digits and separator-joined spellings of octets.
- `src/db.rs` — the embedded registry table (sorted by prefix) and its
  bisection lookup. The table is a sample of 23 real IEEE MA-L assignments,
  not the whole registry (`ENTRY_COUNT` is 23): every lookup, search, vendor
  list and statistic answers for those 23 prefixes only, and an address
  registered with IEEE outside them gets no vendor.
- `src/lib.rs` — the lookup API (`lookup`, `try_lookup`, `lookup_vendor`, …),
  `entries`, `search`, `prefixes_for`, `vendors`.
- `src/stats.rs` — block counts per vendor and `top_vendors`.
- `src/text.rs` — ASCII case folding, substring search and lexicographic
  order over characters.
- `src/cli.rs` — what the command line decides: resolving inputs to records,
  rendering rows, cleaning input lines, dropping duplicates, exit status.
- `src/laws.rs` — properties relating these functions (format/parse round
  trips, spellings that agree, scope refining classification, …).
- `app/main.rs` — the `oui-lookup` command: argument parsing, I/O and JSON.
