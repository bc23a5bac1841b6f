//! Building and debugging shell pipelines, one stage at a time.
//!
//! This library is everything about the program that can be decided without
//! touching a terminal, a process or a file:
//!
//! * [`ansi`], [`ansi_lines`]: control sequences in output, and styled lines;
//! * [`executor`]: what stages put out, the cache, and the course of a run;
//! * [`line_flags`]: which of the two streams a line is from;
//! * [`pipeline`], [`options`], [`history`]: pipelines, and those used before;
//! * [`editor`], [`search`], [`keys`]: editing text, searching, and key presses;
//! * [`app`]: the application state and its reactions, which [`app_model`]
//!   describes;
//! * [`ui`], [`ui_output`]: what is on the screen.
//!
//! The modules named `.._laws` state what holds of these as a whole.
pub mod ansi;
pub mod ansi_laws;
pub mod ansi_lines;
pub mod app;
pub mod app_laws;
pub mod app_model;
pub mod bytes;
pub mod caret;
pub mod colour_laws;
pub mod edit_laws;
pub mod editor;
pub mod executor;
pub mod history;
pub mod history_laws;
pub mod key_laws;
pub mod keys;
pub mod line_flags;
pub mod message_laws;
pub mod number;
pub mod options;
pub mod pipeline;
pub mod pipeline_laws;
pub mod screen_laws;
pub mod search;
pub mod search_laws;
pub mod split_laws;
pub mod style;
pub mod styled_laws;
pub mod text;
pub mod text_tools;
pub mod ui;
pub mod ui_laws;
pub mod ui_output;
