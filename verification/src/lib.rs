//! Verified core of a file-tree content-search utility.
//!
//! The crate is organised around four components: a command-line
//! attribute parser ([`cmdln_parser`]), a depth-first directory walker
//! over an in-memory snapshot of a directory tree ([`dir_nav`]), a
//! search strategy that decides literal or regex matches on file
//! contents ([`text_search`]), and an output adapter that applies the
//! display policy ([`display`]).  The [`executive`] module wires the
//! pipeline together; reading the filesystem and the console output
//! around it are left to the embedding program.

pub mod cmdln_parser;
pub mod dir_nav;
pub mod text_search;
pub mod display;
pub mod executive;
pub mod test_db;
