# gitrx

The core of a GitX-style git client: repository status, single-file diffs, staging by file or by
hunk, commits, the file watcher's filter, and one window per repository. Everything under `src/` is
Rust verified with Verus: each function states in its contract what it returns, and the properties
that hold across functions are proved beside them as `law_...` proof functions.

- `src/git/` decides what a status, a diff, a patch, a staging step or a commit is, out of what
  libgit2 reports.
- `src/watch.rs` turns file system events into refreshes, `src/windows.rs` and `src/state.rs` keep
  track of windows and their repositories, `src/context_menu.rs` and `src/menu.rs` describe the
  menus, `src/logging.rs` reads the process table, `src/cli_install.rs` installs the launcher.
- `src/text.rs`, `src/pathname.rs`, `src/numbers.rs` and `src/seqs.rs` are the vocabulary that the
  contracts share.
- `app/` is the desktop application around the library: windows, dialogs, libgit2, processes and
  files.
- `tests/` runs the library, against real repositories where libgit2 is involved.

Calls into other crates stand behind small functions marked `external_body`, or carry an
`assume_specification`; the doc comment of each says what is believed of the call. Paths are
handled as text with `/` between components; the check of a repository-relative path also knows
the separators and drives of Windows.
