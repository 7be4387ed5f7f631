//! A terminal music player's core: the record model, the library indexer's
//! aggregation rules and file selection, the play queue, the search query
//! grammar, the fuzzy search engine group, the UI state machine and its
//! keymap, the configuration layout, and an edit-distance BK-tree.

pub mod text;
pub mod record;
pub mod library;
pub mod queue;
pub mod terms;
pub mod search;
pub mod state;
pub mod player;
pub mod files;
pub mod config;
pub mod bktree;
pub mod display;
pub mod keymap;
