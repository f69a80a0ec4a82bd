# paintrobot

Monitoring for a paint line: the edge posts PLC model changes, camera
readings, paint recipes and robot-interface snapshots; the gateway stores
them in CoreDB and serves daily figures, the reconciliation of PLC and camera,
and the mixed-flow figures of the production order.

`src/` is the library. Every function in it carries a contract that Verus
proves, except five small wrappers around outside calls, whose contracts are
trusted: `push_char` (`String::push`), `from_utf8_lossy`
(`String::from_utf8_lossy`), and `parse_ymd`, `format_ymd` and
`local_date_of` (chrono's date parsing and formatting). Their doc comments
say what each contract claims of the outside function.

The bit groups of a robot snapshot (`schema::BitMap`) are a vector of
`(key, value)` pairs kept in ascending key order, with that order as a type
invariant, rather than a `BTreeMap<String, _>`. The logic walks these groups
in key order and relies on that order; vstd's `BTreeMap` specification states
key order only for key types that vstd knows to obey its ordering laws
(integers and tuples of them), and `String` is not one, so with a `BTreeMap`
nothing could be proved about the order in which alarms come out. The key order is the
lexicographic order of the keys' characters (`text::lex_lt`), as `str`
orders them.

The modules:

- `domain` — job classification, daily aggregation, PLC timeline, estimation of
  the camera-to-PLC delay and reconciliation, mixed-flow runs, work dates.
- `robot` — events derived from consecutive robot-interface snapshots.
- `schema` — payload shapes and the value rules of a snapshot.
- `cql`, `coredb`, `jobs`, `plc_state`, `recipes`, `robot_store`, `rollup` —
  statement text (identifier checks, quoting), the request and reply of
  CoreDB's query endpoint, and the decoding of its tagged column values.
- `gateway`, `ingest`, `views`, `stats`, `dates`, `order`, `weather` — the
  decisions of the HTTP routes: keys, ids, recipe checks, current state,
  listings, windows of dates, per-model totals, stable ordering.
- `live` — the schedule and framing of the live figures stream.
- `laws` — properties that relate several functions.

`app/` is the HTTP component around it: routing, request bodies, JSON
replies, the CoreDB and OpenWeatherMap transports, and the floating-point
parts (spray-pressure recommendation, ratios, rendering of doubles).

`tests/` runs the library on concrete values.
