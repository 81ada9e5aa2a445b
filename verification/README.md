# simple_db

A small in-memory database with a text console, verified with Verus.

- `src/` is the verified library:
  - `text.rs`: text order, trimming, words, ASCII case, decimal numbers;
  - `strmap.rs`: a map from names to values, kept sorted by name. It takes
    the place of std's `HashMap<String, _>` and `BTreeSet<String>`: vstd
    gives `String` neither a hashing key model nor ordering laws, so maps and
    sets keyed by `String` let Verus prove nothing about their contents. The
    `BTreeMap<usize, Row>` of a table, keyed by integers, is kept;
  - `json.rs`: the JSON values (`serde_json::Value`) stored in rows;
  - `row.rs`, `table.rs`, `database.rs`, `config.rs`, `connection.rs`,
    `error.rs`: the database itself;
  - `printer.rs`: every screen of the console, as lines of text;
  - `process.rs`: command parsing, table selection, the console's state
    machine (`Console::step`) and the demo data.
- `app/main.rs` runs the console: it reads lines from standard input, hands
  them to `Console::step`, and prints the lines it gets back.
- `tests/` runs the library on concrete inputs.
