//! Connections to the input (read-only) and output (read-write) databases.

use vstd::prelude::*;
use crate::store::{Db, OpenMode, fresh, open_read_only, open_read_write};
use crate::db::validation::MigrationError;

verus! {

/// Holds connections to both input and output databases.
pub struct DbConnections {
    pub input: Db,
    pub output: Db,
}

impl DbConnections {
    /// Opens the input database read-only and then the output database
    /// read-write, creating it if it does not exist. Whether each open
    /// succeeds depends on the file system; on success the input is the
    /// file at `input_path`, opened read-only, and the output the file at
    /// `output_path`, opened read-write with creation.
    pub fn new(input_path: &str, output_path: &str) -> (r: Result<Self, MigrationError>)
        ensures
            r matches Ok(c) ==> fresh(c.input, input_path@, OpenMode::ReadOnly) && fresh(
                c.output,
                output_path@,
                OpenMode::ReadWriteCreate,
            ),
            r matches Err(e) ==> e is Database,
    {
        let input = match open_read_only(input_path) {
            Ok(c) => c,
            Err(e) => {
                return Err(MigrationError::Database(e));
            },
        };
        let output = match open_read_write(output_path) {
            Ok(c) => c,
            Err(e) => {
                return Err(MigrationError::Database(e));
            },
        };
        Ok(DbConnections { input, output })
    }
}

} // verus!
