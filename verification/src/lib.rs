//! View models of a terminal workspace: diff, conflict, repository, feed and settings panes.

pub mod app_view;
pub mod branch_rail;
pub mod conflict_document;
pub mod conflict_highlight;
pub mod conflict_keys;
pub mod conflict_lines;
pub mod context_menu;
pub mod cursor_movement;
pub mod diff_cache;
pub mod diff_elements;
pub mod diff_explorer;
pub mod diff_header;
pub mod diff_panes;
pub mod diff_rows;
pub mod diff_runs;
pub mod diff_stash;
pub mod diff_state;
pub mod diff_text;
pub mod editing;
pub mod feed;
pub mod indentation;
pub mod key_edits;
pub mod keys;
pub mod live_diff_stream;
pub mod model;
pub mod outdenting;
pub mod pane;
pub mod prompt_dialog;
pub mod prompts;
pub mod repository_actions;
pub mod repository_browser;
pub mod repository_graph;
pub mod repository_keys;
pub mod repository_panes;
pub mod repository_state;
pub mod settings;
pub mod settings_view;
pub mod strings;
pub mod text;
pub mod theme;
pub mod time;
pub mod tree;
pub mod widgets;
