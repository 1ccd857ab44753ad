# betterdisk

A terminal disk-space browser for Linux, built around a verified library.

- `src/` is the library, verified with Verus:
  - `model.rs` — the mathematical model of a scan: file-system snapshots
    (`FsModel`), size trees (`EntryModel`), and the scan as a function of the
    snapshot, the depth limit and the answers to its cancellation checks.
  - `model_props.rs` — facts about that model: what an uncancelled scan
    reports, bounds, ordering and stability of children, depth limits.
  - `scanner.rs` — snapshots (`FsNode`), scanned entries (`DirEntry`) and the
    `Scanner`, proved against the model.
  - `state.rs` — mounts and the browser state (`AppState`): one mount per
    disk the system reports, in its order.
  - `navigation.rs` — what each key press does to the state, and the command
    it hands back (quit, or read and scan a directory); with the laws that
    every key press, its scan installed, leaves the selected row visible and
    no scan under way.
  - `screen.rs` — what the screen shows of the state: the visible rows of the
    listing, the marked row, the status line.
  - `paths.rs`, `units.rs` — path helpers and size units.
- `app/` is the program: it reads the disks and directory trees, draws the
  screen and feeds key presses to the library.
- `tests/` exercises the library on concrete trees and states.
