# pixeldeck

Two Stream Deck (OpenAction) plugins with a verified core.

* **Widgets**: gold, currency and stock quotes, air quality, weather, a work-hours
  clock and a PowerShell script key. A scheduler refreshes every visible widget at its
  own interval, fetches identical requests once, keeps the last data of each request in
  a bounded least-recently-used cache, backs off while a source is unreachable, and never
  lets the result of an outdated request reach a widget.
* **Starter pack**: profile switching and a profile-pagination dial, a system monitor
  dial with history charts, and a system-volume dial.

## Layout

* `src/` — the library, verified with Verus: settings lookup, the pixel font and SVG
  frames, the scheduler state (`runtime`), page parsing and request checks (`fetch`),
  and the starter-pack's decisions and images, history charts included. Calls into
  `regex`, `url`, `urlencoding`, `plotters` and the standard library's integer parsing
  go through small trusted wrappers whose contracts state or name their results.
* `app/` — the program: the OpenAction event handlers, HTTP requests, clocks, threads
  and float formatting. It keeps the library's state behind locks and shows the frames
  the library decides on.
* `tests/` — tests of the library on concrete values.

The per-context tables (scheduler entries and cache, pressed dials, dial layouts and the
contexts a live worker serves) are vectors with a unique-key invariant rather than
`HashMap`s or `HashSet`s: their keys are context strings, and vstd's hash-map and
hash-set specifications hold only for key types that `obeys_key_model` covers (integers,
`bool` and boxes of them), which `String` is not. The sample
history is a `VecDeque`, as vstd specifies it.
