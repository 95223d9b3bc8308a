# focustime

The verified core of FocusTime, a desktop tracker of how time is spent across
Work, Entertainment and Distraction, classified by the foreground process and,
for browsers, by the active tab's domain.

`src/` is the library, verified with Verus:

- `category`: the categories and their stored text, with the round-trip laws.
- `totals`: per-category second totals.
- `session`: the session engine as a state machine (start, process polls,
  domain reports, stop, live snapshot); each step returns the usage-event row
  to store, and the laws that a session's time is fully accounted for and
  that its stored rows chain from its start to its stop.
- `report`: the end-of-session report (totals and interruption count), and
  the law that it agrees with the totals the engine accumulated.
- `classifier`: browser detection and the fallback category of a rule lookup.
- `processes`: the running-process checklist (one entry per name, sorted by
  lower-cased name, stably).
- `window`: the executable name of a full image path.
- `native_host`, `browser_bridge`: framing of native-messaging messages, the
  JSON lines forwarded to the app, and the blank-line test.
- `seed`: the sample profile.

`app/` holds the Tauri application around it: SQLite access, the Win32
foreground-window lookup, the poller thread, the TCP bridge and the native
messaging host.
