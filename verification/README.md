# showdesktop

The logic of a panel applet for the COSMIC desktop that minimizes all windows with one click
and restores the same windows with the next, as a library verified with Verus.

- `src/` decides. `app_data` holds what the applet remembers and answers toggles and window
  events with requests for the compositor; `persisted`, `persistent_toggle`, `files` and
  `paths` do the same for a snapshot that is kept on disk between runs; `event_loop` is the
  course of the thread that talks to the compositor. `model` and the spec functions of
  `persisted` say what each operation does.
- `src/laws.rs`, `src/persisted_laws.rs` and the `law_` functions of the other modules state
  what holds of the applet as a whole: that two toggles give back the windows as they were, that
  the window that was active is restored last, and what makes the applet forget.
- `src/paths.rs` calls `dirs::config_dir`; nothing is taken for granted of what it returns.
- `app/` sends the requests, reads and writes the snapshot file, and waits for events.
