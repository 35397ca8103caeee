//! vibox: a jukebox you exit with `:q`.
//!
//! The library is a directory, the keys are vi's, and the last line of the
//! screen is the command line. This crate holds the rules of the player: the
//! rename buffer, the write planner, the ex command grammar, the lyric
//! matching, the list bookkeeping. The terminal, the sound card and the
//! session bus are driven by the program around it.

pub mod app;
pub mod assoc;
pub mod boot;
pub mod clipboard;
pub mod edit;
pub mod excmd;
pub mod keys;
pub mod library;
pub mod lyric_pane;
pub mod lyrics;
pub mod matrix;
pub mod mpris;
pub mod name;
pub mod paths;
pub mod player;
pub mod scrollbar;
pub mod sidebar;
pub mod status;
pub mod text;
pub mod track_pane;
pub mod ui;
pub mod windows;
