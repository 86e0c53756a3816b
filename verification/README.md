# OpenCast

A small launcher for finding files and doing quick calculations, with its core
written in Verus and proved against its contracts.

- `src/` is the verified library:
  - `text.rs` — character-sequence helpers (trimming, words, lines, matching, decimal text).
  - `index.rs` — entries, snapshots and the ranked top-k search, with the laws that the
    ranking is unique, that an empty or blank query lists the most recent entries first,
    and that ASCII case and surrounding blanks do not change a search.
  - `scan.rs` — building a snapshot from what a directory walk reported: excluded names,
    de-duplication, the skipped count and the path order.
  - `calculator.rs` — reading calculator input into an expression or a unit conversion.
  - `shortcut.rs` — hotkey validity and labels.
  - `palette.rs` — the launcher palette's state and the decisions of its keys and actions.
  - `resident.rs`, `icon.rs` — single-instance, hotkey-registration and tray decisions,
    icon transparency recovery and the icon cache.
  - `schedule.rs` — when the index is rescanned and over which folders, when the cached
    snapshot may be shown, and which queued request is served.
- `app/` is the program around it: the window, the directory walk, the JSON cache and
  configuration, floating-point evaluation, and the Windows integration.
- `tests/` exercises the library from outside.
