# comms

The verified core of the communications capability: the parts of the Feed and
mail pipeline that decide something, each stated as a contract and proved with
Verus.

- `src/` is the library. Its functions carry `requires`/`ensures` contracts
  over mathematical models (`Seq`, `Set`, `nat`) and are verified, except four
  small trusted wrappers around `std` and `sha2` calls (`str::to_lowercase`,
  `char::is_alphanumeric`, `String::push`, SHA-256), whose contracts state
  what those calls are documented to return.
  - `text` — the string toolkit the rest is written in (trimming, splitting,
    finding, lines, joining), each piece specified the way `str` behaves.
  - `normalize` — extractor output to canonical text, with a per-rule drop
    record; line cleaning repeats until a pass changes nothing, and
    `normalize_fixpoint` proves that normalizing normalized text changes
    nothing and drops nothing, on every input.
  - `rules` — mail triage: configured rules first, then built-in heuristics.
  - `quality` — review signals derived from a stored item.
  - `projection` — a saved item as a vault note, and which name it takes.
  - `people_registry`, `relevance`, `scoring`, `relevance_pass` — the
    registry of known names, the texts that go to the embedder, the pass
    bookkeeping and the sweep cursor.
  - `sources` — Feed source requests and the parsers for what comes back.
  - `auth`, `schedule`, `mail`, `cloud`, `redaction` — the decisions the
    server makes between calls to the network and the database, including
    the cloud provider failover and the counts of a redaction evaluation.
  - `store`, `provenance`, `hashing` — row values and their identities.
- `app/` is a small command-line shell: it reads files and pages, hands their
  text to the library, and prints what comes back. Floating-point lexical
  similarity lives there.
- `tests/` exercises the library on concrete inputs.
