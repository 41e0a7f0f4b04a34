# termrec

Record terminal sessions as asciicast v2 files, replay them with playback
controls, and extract and chart the metrics that `btop` shows.

The library (`src/`) is verified with Verus:

- `color`, `ansi`, `vterm`: a virtual terminal. Output bytes are split into
  parser actions by the `vte` crate; the terminal's model (`VtState`) and the
  effect of every action on it are spec functions, and each operation is
  proved against them.
- `text`, `pattern`: string helpers, and regular-expression matching through
  the `regex` crate.
- `metrics`, `extract`: the metrics read off a btop screen, and their
  extraction from a recording.
- `cast`: asciicast headers and events.
- `replay`: frame boundaries, seeking, and the player's key bindings.
- `chart`: metric names and the data series of a chart.
- `session`: the decisions of the recording loop.

`app/` is the command-line program around it: argument parsing, file and
terminal I/O, the pseudo-terminal relay, the TUI player and the plotting.
