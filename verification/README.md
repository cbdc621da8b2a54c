# tussle

Inspect every keyboard shortcut on a Mac: which app uses a combo, every
binding registered on the machine, and conflicts between apps.

## Layout

- `src/` is the library, verified with Verus. It holds the key model and
  the text form of combos (`keys`, `combo`), the bounded plist reader
  (`plist_file`), the parsers for `com.apple.symbolichotkeys.plist`
  (`symbolichotkeys`) and for per-app `NSUserKeyEquivalents`
  (`nsuserkeyequivalents`), the rules of the Accessibility menu scan
  (`accessibility`, `menu_walker`), keystroke capture (`capture`), and the
  filtering, ordering and terminal-safe output of the command line
  (`listing`, `output`).
- `app/` is the `tussle` command: argument parsing, file and directory
  reads, the macOS Accessibility, AppKit and Core Graphics calls, worker
  threads, tables and JSON. It hands plain values to the library and acts
  on what comes back.
- `tests/` exercises the library on concrete inputs.

The menu walk is a state machine: `MenuWalk` says which element to query
next and the front end answers with what the Accessibility API reports, so
its budgets are proved in the library while the FFI stays in `app/`: at
most 10,000 items read and 1 MiB of app text kept per app, no menu deeper
than 16 levels walked, and so no reported menu path longer than 17 titles.

Preference plists are read as a stream of events, one event at a time, and
refused as soon as they exceed 100,000 events or 128 levels of nesting;
only a plist within those bounds is decoded into a value.
