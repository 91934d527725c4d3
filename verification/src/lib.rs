//! Verified core logic of the kerbin text editor.

pub mod cursor;
pub mod extmark;
pub mod layout;
pub mod text;
pub mod cli;
pub mod command_lang;
pub mod keyed;
pub mod auto_pairs;
pub mod ranking;
pub mod scroll;
pub mod indent;
pub mod paths;
pub mod debounce;
pub mod rope;
pub mod buffer;
pub mod renderer;
pub mod pattern;
pub mod motion;
pub mod commands;
pub mod text_spans;
pub mod build_kb;
pub mod decor;
pub mod line_render;
pub mod line_marks;
pub mod line_draw;
pub mod viewport;
pub mod buffers;
pub mod view;
pub mod editor_commands;
pub mod kb;
pub mod cursor_marks;
pub mod theme;
pub mod keybind;
pub mod command_info;
pub mod help_text;
pub mod dialogue;
pub mod splits;
pub mod config_commands;
pub mod modes;
pub mod install;
pub mod palette;
pub mod registers;
pub mod conditionals;
