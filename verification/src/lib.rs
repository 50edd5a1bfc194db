//! A WebDAV view of notes and folders kept in a SQLite database.
//!
//! The verified library holds the logic: paths, file names, timestamps, the
//! in-memory note buffer behind an open file, the queries against the notes
//! database, credential checks and the decisions taken for each request.

pub mod text;
pub mod timestamp;
pub mod paths;
pub mod store;
pub mod filesystem;
pub mod davfile;
pub mod auth;
pub mod cli;
pub mod commands;
pub mod db;
