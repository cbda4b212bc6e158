//! Verified layout, text-measure, file-tree and navigation logic of the
//! progressive review terminal interface.

pub mod app;
pub mod columns;
pub mod diff;
pub mod diff_row;
pub mod file_tree;
pub mod layout;
pub mod motion;
pub mod moves;
pub mod navigation;
pub mod ordering;
pub mod presentation;
pub mod review;
pub mod presentation_laws;
pub mod files;
pub mod footer;
pub mod guide_layout;
pub mod header;
pub mod help;
pub mod highlight;
pub mod keymap;
pub mod language;
pub mod render;
pub mod review_file;
pub mod routing;
pub mod session;
pub mod syntax;
pub mod text;
pub mod unicode;
pub mod wrap;
