//! The logic of a terminal for MSX computers: the BASIC program that is entered
//! line by line, its listing and its file, the terminal commands, the text that
//! is sent, and the listing that is fetched from the machine.

pub mod arguments;
pub mod commands;
pub mod fetch;
pub mod hex;
pub mod lower;
pub mod number;
pub mod program;
pub mod terminal;
pub mod text;
