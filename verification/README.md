# brz-metrics

Append-only metrics with ProfileUtil-compatible periodic logging, verified with Verus.

- `src/` is the library. Its contracts say what every operation does to the registry, which bytes
  an interval writes to the profile log, and when the log is archived.
- `app/` holds what touches the outside: the process-wide registry behind a lock, the logger
  thread, the environment, files, and the floating-point average of a row.
- `tests/` runs the library on concrete values.

## The library

| module | what it holds |
| --- | --- |
| `metric` | counter slots, policies, snapshots |
| `plan`, `producer` | profile rendering plans and their registration |
| `registry` | sharded, append-only registration, visiting, recording |
| `state` | the latest process-level states |
| `text`, `json`, `entry` | the bytes of a log line |
| `aggregate`, `writer`, `interval` | one log interval, step by step |
| `clock`, `rotation` | the `+08:00` clock, hourly rotation, archive names |
| `laws`, `interval_laws` | what holds across operations and of a whole interval |

Operations take the registry as an argument. A metric handle is good as long as the registry lives:
metrics are never removed.

An interval runs step by step. `ProfileInterval::step` says what is needed next: the text of an
average, or a write of the buffer. An interval that ends without a failed write has written the rows
of every metric that counted something, the aggregates, the states and the baseline row, in this
order. A metric whose interval has `total_count == 0` has no row.

There is one aggregate for each type and name. Plans that share an aggregate output add to one sum;
where their policies or formats differ, the row is shown with those of the first plan that
contributed in the interval.

## What is not proved

`ahash` selects a shard, `serde_json` escapes strings, `chrono` writes dates, and std's `Debug`
quotes a setting in a message. What the library relies on of them stands as the contract of the
function that makes the call. Registration relies on nothing of the hash. Within a shard, names are
looked up in vstd's `StringHashMap`, whose contracts are vstd's own.
