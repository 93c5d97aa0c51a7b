//! A small interactive command shell, as a verified library.
//!
//! The library holds every decision the shell makes: how a startup file is
//! read into variable assignments, how a line is expanded and cut into
//! pipeline stages, and how each stage is wired to its neighbours.  Reading
//! files, reading the terminal and starting processes are left to the caller,
//! which feeds plain values in and carries the answers out.

pub mod command;
pub mod config;
pub mod environment;
pub mod executor;
pub mod expand;
pub mod lexer;
pub mod parser;
pub mod pipeline;
pub mod shell;
pub mod text;
pub mod token;
