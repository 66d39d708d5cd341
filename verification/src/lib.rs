//! Sorting a folder of game files into a per-platform library layout.
//!
//! A scan finds files, a classifier tells their platforms, a plan says where each goes, a preview
//! lets the user look at the plan and switch moves off, and a transfer carries it out. What touches
//! files or the terminal is the caller's work.

pub mod text;
pub mod text_laws;
pub mod text_set;
pub mod paths;
pub mod path_laws;
pub mod windows_laws;
pub mod model;
pub mod classifier;
pub mod classifier_laws;
pub mod signal_laws;
pub mod reading_laws;
pub mod scanner;
pub mod scan_laws;
pub mod plan;
pub mod plan_laws;
pub mod progress;
pub mod transfer;
pub mod transfer_laws;
pub mod rows;
pub mod row_laws;
pub mod listing_laws;
pub mod geometry;
pub mod ui;
pub mod events;
pub mod ui_laws;
pub mod layout_laws;
pub mod event_laws;
pub mod screen_laws;
pub mod viewport;
pub mod screen;
