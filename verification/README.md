# cloakynode

A Raspberry Pi monitoring server whose logic is verified with Verus.

- `src/` is the verified library: the parsers of `/proc` and `vcgencmd`
  output (`system`, over the text primitives of `text`), the sample history
  and its request window (`state`), the sampling decisions (`collector`),
  the settings (`config`), the dashboard page (`dashboard`) and the data
  types (`models`). `platform` holds the few std calls whose contracts are
  trusted.
- `app/` is the program around it: file and process I/O, the tokio sampling
  loop, the axum HTTP server, and the floating-point conversions.
- `tests/` runs the library on concrete inputs, and compares its text
  primitives with std's.
