//! A verified core for a terminal front-end over GitHub Projects v2 boards: the
//! board view (presets, exclusions, fuzzy narrowing, status groups and the
//! parent/sub-issue roll-up), the filter and create forms, attachment
//! extraction from issue bodies, remote-URL normalisation, and the small
//! decision helpers around `gh`, `git` and `tmux`.
pub mod text;
pub mod model;
pub mod config;
pub mod fuzzy;
pub mod board;
pub mod gh;
pub mod attach;
pub mod app;
pub mod cache;
pub mod worktree;
pub mod poll;
pub mod layout;
pub mod keys;
pub mod flows;
