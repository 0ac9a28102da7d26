//! The terminal client's logic: its state and how keys change it, the
//! command-line tokenizer and parser, and the lines it logs and shows.
//! Drawing the screen, reading keys and talking to the server are I/O.
pub mod app;
pub mod commands;
pub mod report;
pub mod screen;
