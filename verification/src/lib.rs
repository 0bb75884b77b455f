pub mod mostly_one_vec;
pub mod text;
pub mod little_string;
pub mod char_utils;
pub mod content;
pub mod cursor;
pub mod selection;
pub mod caret;
pub mod history;
pub mod checkpoints;
pub mod log;
pub mod line_ending;
pub mod scrollbar;
pub mod terminal_cursor;
pub mod buffer;
pub mod edit_operators;
pub mod edit_controller;
pub mod buffers;
pub mod file_tree;
pub mod prompt;
pub mod round_trips;
pub mod view;
pub mod keymap;
pub mod menu;
