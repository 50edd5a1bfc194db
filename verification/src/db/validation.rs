//! Checks made on the database paths before a migration opens them. What the
//! file system says of a path (whether it exists, whether it is a file, its
//! parent directory) is looked up by the caller and handed in.

use vstd::prelude::*;
use crate::store::{Db, OpenMode, fresh, open_read_only};

verus! {

/// Why a migration's databases are unusable.
#[derive(Debug, Clone, PartialEq, Eq)]
pub enum MigrationError {
    /// The input database does not exist (its path).
    InputNotFound(String),
    /// The input path is not a file.
    InputNotAFile(String),
    /// The input file does not open as a SQLite database (its path, and why).
    InvalidDatabase(String, String),
    /// The output path exists and is not a file.
    OutputNotAFile(String),
    /// The output path's parent directory does not exist (the parent).
    ParentDirNotFound(String),
    /// The output cannot be written (its path).
    OutputNotWritable(String),
    /// A database call failed (why).
    Database(String),
}

/// Validates that the input database exists, is a file, and opens as a
/// SQLite database (read-only); the connection opened on it. `exists` and
/// `is_file` say what the file system reports of `path`. Whether the open
/// succeeds depends on the file: when it does, the connection is the file
/// at `path` opened read-only, and when it does not, the error names `path`
/// with the open's message.
pub fn validate_input_database(path: &str, exists: bool, is_file: bool) -> (r: Result<
    Db,
    MigrationError,
>)
    ensures
        !exists ==> (r matches Err(MigrationError::InputNotFound(p)) && p@ == path@),
        exists && !is_file ==> (r matches Err(MigrationError::InputNotAFile(p)) && p@ == path@),
        exists && is_file ==> (r matches Ok(d) ==> fresh(d, path@, OpenMode::ReadOnly)),
        exists && is_file ==> (r is Err ==> (r matches Err(MigrationError::InvalidDatabase(p, _))
            && p@ == path@)),
{
    if !exists {
        return Err(MigrationError::InputNotFound(path.to_owned()));
    }
    if !is_file {
        return Err(MigrationError::InputNotAFile(path.to_owned()));
    }
    match open_read_only(path) {
        Ok(d) => Ok(d),
        Err(m) => Err(MigrationError::InvalidDatabase(path.to_owned(), m)),
    }
}

/// Whether an output path's parent needs no check: it is the current
/// directory, written as nothing or as `.`.
pub open spec fn is_current_dir(parent: Seq<char>) -> bool {
    parent.len() == 0 || parent == seq!['.']
}

/// Validates that the output path is writable: when it exists it is a
/// file, its parent directory exists (the current directory always does),
/// and the output can be written. `exists` and `is_file` say what the file
/// system reports of `path`, `parent` is its parent (`None` for a path
/// without one), `parent_exists` whether that parent exists, and `writable`
/// whether the output can be written: the file itself when it exists, the
/// directory it would be created in otherwise.
pub fn validate_output_path(
    path: &str,
    exists: bool,
    is_file: bool,
    parent: Option<&str>,
    parent_exists: bool,
    writable: bool,
) -> (r: Result<(), MigrationError>)
    ensures
        exists && !is_file ==> (r matches Err(MigrationError::OutputNotAFile(p)) && p@ == path@),
        !(exists && !is_file) ==> match parent {
            Some(par) => if !is_current_dir(par@) && !parent_exists {
                r matches Err(MigrationError::ParentDirNotFound(p)) && p@ == par@
            } else if !writable {
                r matches Err(MigrationError::OutputNotWritable(p)) && p@ == path@
            } else {
                r is Ok
            },
            None => if !writable {
                r matches Err(MigrationError::OutputNotWritable(p)) && p@ == path@
            } else {
                r is Ok
            },
        },
{
    if exists && !is_file {
        return Err(MigrationError::OutputNotAFile(path.to_owned()));
    }
    match parent {
        Some(par) => {
            let n = par.unicode_len();
            let current = n == 0 || (n == 1 && par.get_char(0) == '.');
            assert(current == is_current_dir(par@)) by {
                if n == 1 && par@[0] == '.' {
                    assert(par@ =~= seq!['.']);
                }
                if par@ == seq!['.'] {
                    assert(par@[0] == '.');
                }
            }
            if !current && !parent_exists {
                return Err(MigrationError::ParentDirNotFound(par.to_owned()));
            }
        },
        None => {},
    }
    if !writable {
        return Err(MigrationError::OutputNotWritable(path.to_owned()));
    }
    Ok(())
}

} // verus!
