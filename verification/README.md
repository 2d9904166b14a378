# rpg-primitive-survey

A bounded evidence-gathering tool for the structural requirements of game-system
JSON data kept in Git repositories. It pins a repository at an exact commit,
inventories the documents of its packs (source identity, document type,
subtype, structural signature), and scans the inventory against an explicit
source whitelist, writing machine-readable receipts and study worksheets.

## Layout

- `src/` is the verified library (Verus). Every public function states what
  it returns in its contract:
  - `json`, `text`, `order`, `tally`: plain-value JSON, text and ordering
    helpers the rest is specified with;
  - `shape`: structural signatures (the canonical shape of a document, its
    SHA-256 digest in lower-case hex);
  - `decode`: pack files and manifests from their bytes to JSON documents;
  - `inventory`: source classification, pack and file discovery, the bounded
    and resumable document traversal, the commit a rerun pins, counts and the
    inventory receipt;
  - `scan`: the whitelist partition, shape groups and the scan receipt;
  - `worksheet`: the Markdown study worksheets;
  - `cli`: command-line options and limits;
  - `git_source`, `safety`, `audit`: the decisions around Git, work-root paths
    and repository hygiene;
  - `properties`: properties relating several operations, such as resuming a
    stopped traversal.
- `app/` is the command-line program: file system, Git processes and the JSON
  form of the receipts, around the library.
- `tests/` holds the tests of the library.
