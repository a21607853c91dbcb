# lazytickets

A lazygit-style terminal UI for GitHub Projects v2 boards, built to run inside
tmux: it reads a board, shows issue detail, filters with presets and fuzzy
search, writes card status, and starts work on a ticket in an agent CLI running
in the project's tmux session (or in a fresh worktree and session).

## Layout

- `src/` — the library, verified with Verus: the board model and its filtered,
  sorted, grouped and folded view; presets and their persistence rules; repo →
  project resolution; the overlays' key handling; the start-work and create
  flows' decisions; `gh` output parsing that is plain text (scopes, created
  issue URLs); attachment extraction from issue bodies; text layout (truncation,
  word wrap, image rows); cache paths and freshness; poll pacing.
- `app/` — the binary around it: the terminal, `gh`/`git`/`tmux` subprocesses,
  JSON and TOML (de)serialisation, disk caches, HTTP image fetches and the async
  event loop.
- `tests/` — tests of the library.

## Running

`gh` (authenticated) and `tmux` must be on `PATH`. Start-work drives an agent
CLI: set `LAZYTICKETS_AGENT` to its program name, which is also the name of the
tmux window it runs in.
