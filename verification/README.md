# home_inventory

A home-automation inventory: it collects the devices of Home Assistant, a
Homematic CCU, Philips Hue bridges and Shellys into one SQLite database and
per-source YAML snapshots (optionally published through git), serves them
as HTML and JSON behind a forward-auth proxy, and ships `authgate`, a small
forward-auth sidecar with signed session cookies.

## Layout

- `src/` — the library, verified with Verus. Every public function carries
  a contract; the laws of the library are public proof functions.
  - `text` — character-level helpers (trimming, splitting, escaping,
    number parsing, code-point order).
  - `types`, `views` — the device record and its HTML page.
  - `sync/` — one module per source: request planning, answer reading and
    mapping to devices (`ha`, `ccu`, `hue`, `shelly`), and Node-RED flow
    snapshots (`nodered`: credential masking, stable sort by id).
  - `secrets` — the decrypted `KEY=VALUE` secret list.
  - `git_publish`, `db` — which git commands a publish run makes, and when
    a firmware snapshot is due.
  - `auth`, `http` — the inventory server's user and routes.
  - `authgate/` — the sidecar: encodings, cookies, password records, form
    parsing, pages and its request decisions.
- `tests/` — the test suite.
- `app/` — the programs `inventory` and `authgate` (started under that
  name): command line, HTTP, SQLite, YAML, git, mDNS and the other I/O
  around the library.
