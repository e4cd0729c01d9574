//! Compile executable markdown documents into a validated command tree.
//!
//! Headings become commands and subcommands, fenced code blocks become their
//! scripts, block quotes become descriptions, `OPTIONS` lists become named
//! flags, and parenthesized heading tokens become positional arguments.

pub mod alias;
pub mod command;
pub mod events;
pub mod flags;
pub mod heading;
pub mod laws;
pub mod parser;
pub mod runner;
pub mod scan;
pub mod text;
pub mod tree;
pub mod utils;
