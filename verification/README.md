# elasticq

Queues that grow and shrink with what they hold, verified with Verus.

`src/` is the library. Its functions are verified against their contracts, but for
a few calls into the standard library and bincode whose contracts are taken for
granted (below):

- `config`, `binary64`: limits, growth factors and shrink thresholds. Factors are
  binary64 numbers held as bit patterns; their products and quotients are
  computed in integers, rounded as IEEE 754 rounds them.
- `buffer`: the dynamically resizable circular buffer.
- `lock_free`, `ring`: the multi-producer single-consumer queue on a ring of
  slots. Each method is one atomic step.
- `priority`: a buffer with priority levels, strict or with fair turns.
- `persistent`, `log_format`, `bytes`: a buffer with a log, the layout of the
  log, and recovery from it.
- `metrics`: which metrics an operation changes.
- `streams`: the steps of streams, sinks and channels over a buffer.
- `error`, `text`, `time`: errors, their messages, and durations.

Taken for granted: `VecDeque::shrink_to` (`buffer`), `Layout::array` (`ring`),
`bincode::serialize` and `bincode::deserialize` of the file header (`log_format`),
`PathBuf::clone` (`persistent`), how a `Duration` is written (`text`), and
`Duration::as_nanos`, `from_secs` and `from_millis` (`time`). `PathBuf` and
`Instant` are only carried through.

The modules whose names end in `_laws` prove what holds over any sequence of
operations: first in, first out; nothing is lost or invented; limits are kept; no
priority level starves or gets more than its share; what is written to the log
comes back; a switch is shared by all recorders that have it.

`tests/` runs the library. `app/` is ordinary Rust around it: locks, files, memory
maps, timers, the metrics registry, and implementations of outside traits.
