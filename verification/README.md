# mybar

A desktop status bar for macOS (AeroSpace window manager, Skia on Metal)
with a Linux stub. It shows the window manager's mode and workspaces, the
track now playing, CPU and memory use, network throughput and Wi-Fi signal,
the battery and a clock.

## Layout

- `src/`: the verified library (Verus). It holds the bar's logic: parsing
  of the window manager's listings and of the bridge protocol, the workspace
  order, the state transitions applied by the bridge and by full reloads,
  which pills the workspace row shows, which icon an application gets, the
  indicator glyph tables and signal strength, the clock and log line
  formats and the log file's location. Two calls are trusted rather than
  proved: chrono's date formatting (`clock::format_date_time`) and
  `str::to_lowercase` (`platform::to_lowercase`); their contracts say what
  is claimed of them.
- `tests/`: tests of the library on concrete values.
- `app/`: the program around it: the winit event loop, the tokio collectors
  that run the window manager's tool, read the battery, sysinfo and Core
  WLAN, the bridge socket, Skia drawing and the AppKit window setup. Its
  decisions are calls into the library.

The assets `assets/icon_map.json` (application icon names) and
`assets/sketchybar-app-font.ttf` are not part of this crate; they are read
at run time, beside the executable or under the working directory. Without
them an error is logged and applications are shown by name.
