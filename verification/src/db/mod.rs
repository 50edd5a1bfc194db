//! The notes databases a migration reads and writes, and the checks made on
//! their paths before they are opened.

pub mod connection;
pub mod validation;
