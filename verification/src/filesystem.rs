//! The notes database seen as a file system: folders are directories, a note
//! with title `t` and syntax `s` is the file `t.s`, and every query is made
//! on behalf of one user.
//!
//! Each operation works on an open [`Db`] and states, over the record of the
//! statements handed to it, which statements it hands over (their SQL text
//! and parameters) and what it makes of the answers.

use vstd::prelude::*;
use crate::store::{
    Db,
    DbError,
    Stmt,
    Answer,
    Call,
    connect,
    execute,
    query_row,
    query_rows,
    args_view,
    is_stmt,
    calls_since,
    extends,
    prefix_of,
    lemma_split,
    lemma_unchanged,
    OpenMode,
};
use crate::paths::{
    spec_path_components,
    spec_parse_filename,
    note_file_name_of,
    url_path_components,
    parse_filename,
    note_file_name,
};
use crate::timestamp::{current_timestamp, parse_stored_time, spec_parse_stored_time, timestamp_text};
use crate::davfile::SqliteDavFile;
use vstd::utf8::encode_utf8;

verus! {

/// Why a file-system operation failed.
#[derive(Debug, Clone, Copy, PartialEq, Eq, Structural)]
pub enum FsError {
    /// Something went wrong with the database.
    GeneralFailure,
    /// Tried to create something that exists.
    Exists,
    /// The file or folder does not exist.
    NotFound,
    /// The operation is not allowed on this path.
    Forbidden,
}

/// The result of a file-system operation.
pub type FsResult<T> = Result<T, FsError>;

/// A note as stored in the database.
#[derive(Clone, Debug)]
pub struct NoteData {
    pub id: String,
    pub title: String,
    pub content: String,
    pub syntax: String,
    /// `None` where the row holds NULL.
    pub created_at: Option<String>,
    /// `None` where the row holds NULL.
    pub updated_at: Option<String>,
}

/// A folder as stored in the database.
#[derive(Clone, Debug)]
pub struct FolderData {
    pub id: String,
    pub title: String,
    /// `None` where the row holds NULL.
    pub created_at: Option<String>,
    /// `None` where the row holds NULL.
    pub updated_at: Option<String>,
}

/// An entry of a folder listing.
pub enum DirEntry {
    Folder(FolderData),
    Note(NoteData),
}

/// What a path names.
#[derive(Debug)]
pub enum ResolvedPath {
    /// The top of the tree.
    Root,
    /// A folder, by id.
    Folder { id: String },
    /// A note, by its folder (`None` at the top), title and syntax.
    Note { parent_id: Option<String>, title: String, syntax: String },
}

/// What the file system reports of a file or directory. A time of `None`
/// stands for the current time.
#[derive(Clone, Debug)]
pub struct EntryMeta {
    pub is_dir: bool,
    pub len: u64,
    pub modified: Option<u64>,
    pub created: Option<u64>,
}

/// One entry of a directory listing: its file name and metadata.
#[derive(Clone, Debug)]
pub struct DirListing {
    pub name: String,
    pub meta: EntryMeta,
}

/// The options a WebDAV client opens a file with.
#[derive(Clone, Copy, Debug)]
pub struct OpenFlags {
    pub write: bool,
    pub append: bool,
    pub truncate: bool,
    pub create: bool,
    pub create_new: bool,
}

/// A WebDAV file system backed by the notes database at `db_path`, showing
/// the folders and notes of the user `user_id`.
#[derive(Clone)]
pub struct SqliteFs {
    db_path: String,
    user_id: String,
}

/// An optional text, by its characters.
pub open spec fn ostr(o: Option<&str>) -> Option<Seq<char>> {
    match o {
        Some(s) => Some(s@),
        None => None,
    }
}

/// An optional owned text, by its characters.
pub open spec fn ostring(o: Option<String>) -> Option<Seq<char>> {
    match o {
        Some(s) => Some(s@),
        None => None,
    }
}

/// The text inside an optional string, borrowed.
pub fn opt_str(o: &Option<String>) -> (r: Option<&str>)
    ensures
        ostr(r) == ostring(*o),
{
    match o {
        Some(s) => Some(s.as_str()),
        None => None,
    }
}

/// How a single-row lookup of one text column came out.
pub enum Lookup {
    /// The row was found; its first column.
    Found(String),
    /// The query gave no row.
    Missing,
    /// The query failed, or the column was NULL (reading NULL as text fails).
    Failed,
}

/// How a single-row lookup came out, from what the query gave back.
pub open spec fn spec_lookup(q: Result<Vec<Option<String>>, DbError>) -> Lookup {
    match q {
        Ok(cols) => if cols@.len() >= 1 && cols@[0] is Some {
            Lookup::Found(cols@[0]->0)
        } else {
            Lookup::Failed
        },
        Err(DbError::NoRows) => Lookup::Missing,
        Err(DbError::Other(_)) => Lookup::Failed,
    }
}

/// Classifies what a single-row lookup of one text column gave back.
pub fn lookup_text(q: Result<Vec<Option<String>>, DbError>) -> (r: Lookup)
    ensures
        r == spec_lookup(q),
{
    match q {
        Ok(cols) => {
            if cols.len() >= 1 {
                match &cols[0] {
                    Some(s) => Lookup::Found(s.clone()),
                    None => Lookup::Failed,
                }
            } else {
                Lookup::Failed
            }
        },
        Err(DbError::NoRows) => Lookup::Missing,
        Err(DbError::Other(_)) => Lookup::Failed,
    }
}

/// The note that a row `id, title, content, syntax, created_at, updated_at`
/// holds; `None` when one of its first four columns is NULL (reading it as
/// text fails). The times may be NULL, as the schema allows.
pub open spec fn spec_note_from_columns(cols: Seq<Option<String>>) -> Option<NoteData> {
    if cols.len() >= 6 && cols[0] is Some && cols[1] is Some && cols[2] is Some && cols[3] is Some {
        Some(
            NoteData {
                id: cols[0]->0,
                title: cols[1]->0,
                content: cols[2]->0,
                syntax: cols[3]->0,
                created_at: cols[4],
                updated_at: cols[5],
            },
        )
    } else {
        None
    }
}

/// The folder that a row `id, title, created_at, updated_at` holds; `None`
/// when its id or title is NULL. The times may be NULL.
pub open spec fn spec_folder_from_columns(cols: Seq<Option<String>>) -> Option<FolderData> {
    if cols.len() >= 4 && cols[0] is Some && cols[1] is Some {
        Some(FolderData { id: cols[0]->0, title: cols[1]->0, created_at: cols[2], updated_at: cols[3] })
    } else {
        None
    }
}

/// Column `i` of a row, when present and not NULL.
fn column_text(cols: &Vec<Option<String>>, i: usize) -> (r: Option<String>)
    ensures
        i < cols@.len() ==> r == cols@[i as int],
        i >= cols@.len() ==> r is None,
{
    if i < cols.len() {
        match &cols[i] {
            Some(s) => Some(s.clone()),
            None => None,
        }
    } else {
        None
    }
}

/// The note a row holds.
pub fn note_from_columns(cols: &Vec<Option<String>>) -> (r: Option<NoteData>)
    ensures
        r == spec_note_from_columns(cols@),
{
    if cols.len() < 6 {
        return None;
    }
    let c0 = column_text(cols, 0);
    let c1 = column_text(cols, 1);
    let c2 = column_text(cols, 2);
    let c3 = column_text(cols, 3);
    let c4 = column_text(cols, 4);
    let c5 = column_text(cols, 5);
    match (c0, c1, c2, c3) {
        (Some(id), Some(title), Some(content), Some(syntax)) => {
            Some(NoteData { id, title, content, syntax, created_at: c4, updated_at: c5 })
        },
        _ => None,
    }
}

/// The folder a row holds.
pub fn folder_from_columns(cols: &Vec<Option<String>>) -> (r: Option<FolderData>)
    ensures
        r == spec_folder_from_columns(cols@),
{
    if cols.len() < 4 {
        return None;
    }
    let c0 = column_text(cols, 0);
    let c1 = column_text(cols, 1);
    let c2 = column_text(cols, 2);
    let c3 = column_text(cols, 3);
    match (c0, c1) {
        (Some(id), Some(title)) => Some(FolderData { id, title, created_at: c2, updated_at: c3 }),
        _ => None,
    }
}

/// What looking up a folder's id gives: the id when the folder was found,
/// `None` when the query gave no row, `GeneralFailure` when it failed.
pub open spec fn spec_folder_lookup(l: Lookup) -> FsResult<Option<String>> {
    match l {
        Lookup::Found(id) => Ok(Some(id)),
        Lookup::Missing => Ok(None),
        Lookup::Failed => Err(FsError::GeneralFailure),
    }
}

/// The outcome of a folder lookup.
pub fn folder_lookup(l: Lookup) -> (r: FsResult<Option<String>>)
    ensures
        r == spec_folder_lookup(l),
{
    match l {
        Lookup::Found(id) => Ok(Some(id)),
        Lookup::Missing => Ok(None),
        Lookup::Failed => Err(FsError::GeneralFailure),
    }
}

/// What an existence query gives: `true` when it found a row, `false` when
/// it found none, `GeneralFailure` when it failed.
pub open spec fn spec_existence(q: Result<Vec<Option<String>>, DbError>) -> FsResult<bool> {
    match q {
        Ok(_) => Ok(true),
        Err(DbError::NoRows) => Ok(false),
        Err(DbError::Other(_)) => Err(FsError::GeneralFailure),
    }
}

/// The outcome of an existence query.
pub fn existence(q: Result<Vec<Option<String>>, DbError>) -> (r: FsResult<bool>)
    ensures
        r == spec_existence(q),
{
    match q {
        Ok(_) => Ok(true),
        Err(DbError::NoRows) => Ok(false),
        Err(DbError::Other(_)) => Err(FsError::GeneralFailure),
    }
}

/// What fetching a note's row gives: the note, or `NotFound` when there is
/// no row, the query failed or an id, title, content or syntax is NULL.
pub open spec fn spec_note_row(q: Result<Vec<Option<String>>, DbError>) -> FsResult<NoteData> {
    match q {
        Ok(cols) => match spec_note_from_columns(cols@) {
            Some(n) => Ok(n),
            None => Err(FsError::NotFound),
        },
        Err(_) => Err(FsError::NotFound),
    }
}

/// The outcome of fetching a note's row.
pub fn note_row(q: Result<Vec<Option<String>>, DbError>) -> (r: FsResult<NoteData>)
    ensures
        r == spec_note_row(q),
{
    match q {
        Ok(cols) => match note_from_columns(&cols) {
            Some(n) => Ok(n),
            None => Err(FsError::NotFound),
        },
        Err(_) => Err(FsError::NotFound),
    }
}

/// What fetching a folder's row gives: the folder, or `NotFound` when there
/// is no row, the query failed or its id or title is NULL.
pub open spec fn spec_folder_row(q: Result<Vec<Option<String>>, DbError>) -> FsResult<FolderData> {
    match q {
        Ok(cols) => match spec_folder_from_columns(cols@) {
            Some(f) => Ok(f),
            None => Err(FsError::NotFound),
        },
        Err(_) => Err(FsError::NotFound),
    }
}

/// The outcome of fetching a folder's row.
pub fn folder_row(q: Result<Vec<Option<String>>, DbError>) -> (r: FsResult<FolderData>)
    ensures
        r == spec_folder_row(q),
{
    match q {
        Ok(cols) => match folder_from_columns(&cols) {
            Some(f) => Ok(f),
            None => Err(FsError::NotFound),
        },
        Err(_) => Err(FsError::NotFound),
    }
}


// ---------------------------------------------------------------------------
// Statements handed to the database.

/// The statement that turns on foreign keys for a connection.
pub open spec fn sql_pragma() -> Seq<char> {
    "PRAGMA foreign_keys = ON"@
}

/// Looks up a folder's id by title, inside a folder or at the top.
pub open spec fn sql_find_folder(in_folder: bool) -> Seq<char> {
    if in_folder {
        "SELECT id FROM folders WHERE title = ? AND parent_id = ? AND user_id = ?"@
    } else {
        "SELECT id FROM folders WHERE title = ? AND parent_id IS NULL AND user_id = ?"@
    }
}

/// Asks whether a note with a title and syntax exists.
pub open spec fn sql_note_exists(in_folder: bool) -> Seq<char> {
    if in_folder {
        "SELECT 1 FROM notes WHERE title = ? AND syntax = ? AND parent_id = ? AND user_id = ?"@
    } else {
        "SELECT 1 FROM notes WHERE title = ? AND syntax = ? AND parent_id IS NULL AND user_id = ?"@
    }
}

/// Looks up a note's id by title and syntax.
pub open spec fn sql_note_id(in_folder: bool) -> Seq<char> {
    if in_folder {
        "SELECT id FROM notes WHERE title = ? AND syntax = ? AND parent_id = ? AND user_id = ?"@
    } else {
        "SELECT id FROM notes WHERE title = ? AND syntax = ? AND parent_id IS NULL AND user_id = ?"@
    }
}

/// Fetches a note's row by title and syntax.
pub open spec fn sql_get_note(in_folder: bool) -> Seq<char> {
    if in_folder {
        "SELECT id, title, content, syntax, created_at, updated_at FROM notes WHERE title = ? AND syntax = ? AND parent_id = ? AND user_id = ?"@
    } else {
        "SELECT id, title, content, syntax, created_at, updated_at FROM notes WHERE title = ? AND syntax = ? AND parent_id IS NULL AND user_id = ?"@
    }
}

/// Fetches a folder's row by id.
pub open spec fn sql_folder_meta() -> Seq<char> {
    "SELECT id, title, created_at, updated_at FROM folders WHERE id = ? AND user_id = ?"@
}

/// Lists the folders inside a folder or at the top.
pub open spec fn sql_list_folders(in_folder: bool) -> Seq<char> {
    if in_folder {
        "SELECT id, title, created_at, updated_at FROM folders WHERE parent_id = ? AND user_id = ?"@
    } else {
        "SELECT id, title, created_at, updated_at FROM folders WHERE parent_id IS NULL AND user_id = ?"@
    }
}

/// Lists the notes inside a folder or at the top.
pub open spec fn sql_list_notes(in_folder: bool) -> Seq<char> {
    if in_folder {
        "SELECT id, title, content, syntax, created_at, updated_at FROM notes WHERE parent_id = ? AND user_id = ?"@
    } else {
        "SELECT id, title, content, syntax, created_at, updated_at FROM notes WHERE parent_id IS NULL AND user_id = ?"@
    }
}

/// Replaces a note's content and time.
pub open spec fn sql_update_content() -> Seq<char> {
    "UPDATE notes SET content = ?, updated_at = ? WHERE id = ?"@
}

/// Adds a note.
pub open spec fn sql_insert_note() -> Seq<char> {
    "INSERT INTO notes (id, title, content, syntax, parent_id, user_id, created_at, updated_at) VALUES (?, ?, ?, ?, ?, ?, ?, ?)"@
}

/// Adds a folder.
pub open spec fn sql_insert_folder() -> Seq<char> {
    "INSERT INTO folders (id, title, parent_id, user_id, created_at, updated_at) VALUES (?, ?, ?, ?, ?, ?)"@
}

/// Removes a note.
pub open spec fn sql_delete_note() -> Seq<char> {
    "DELETE FROM notes WHERE id = ? AND user_id = ?"@
}

/// Asks whether a folder exists.
pub open spec fn sql_folder_owned() -> Seq<char> {
    "SELECT 1 FROM folders WHERE id = ? AND user_id = ?"@
}

/// Removes a folder.
pub open spec fn sql_delete_folder() -> Seq<char> {
    "DELETE FROM folders WHERE id = ? AND user_id = ?"@
}

/// Moves and renames a note.
pub open spec fn sql_move_note() -> Seq<char> {
    "UPDATE notes SET title = ?, syntax = ?, parent_id = ?, updated_at = ? WHERE id = ? AND user_id = ?"@
}

/// Moves and renames a folder.
pub open spec fn sql_move_folder() -> Seq<char> {
    "UPDATE folders SET title = ?, parent_id = ?, updated_at = ? WHERE id = ? AND user_id = ?"@
}

/// Fetches a folder's parent.
pub open spec fn sql_folder_parent() -> Seq<char> {
    "SELECT parent_id FROM folders WHERE id = ? AND user_id = ?"@
}

/// The parameters of a lookup scoped to a folder (left out at the top) and
/// to a user: `first`, then the folder's id, then the user's id.
pub open spec fn scoped(first: Seq<Option<Seq<char>>>, parent: Option<Seq<char>>, user: Seq<char>) -> Seq<
    Option<Seq<char>>,
> {
    match parent {
        Some(p) => first.push(Some(p)).push(Some(user)),
        None => first.push(Some(user)),
    }
}

/// The parameters of a recorded statement.
pub open spec fn params(c: Call) -> Seq<Option<Seq<char>>> {
    args_view(c.0.args@)
}

/// The row a recorded single-row query gave.
pub open spec fn row_answer(c: Call) -> Result<Vec<Option<String>>, DbError> {
    match c.1 {
        Answer::Row(q) => q,
        _ => Err(DbError::NoRows),
    }
}

/// What a recorded change gave.
pub open spec fn exec_answer(c: Call) -> Result<usize, DbError> {
    match c.1 {
        Answer::Exec(q) => q,
        _ => Err(DbError::NoRows),
    }
}

/// The rows a recorded query gave.
pub open spec fn rows_answer(c: Call) -> Result<Vec<Result<Vec<Option<String>>, DbError>>, DbError> {
    match c.1 {
        Answer::Rows(q) => q,
        _ => Err(DbError::NoRows),
    }
}

/// Whether `c` is the single-row query `sql` with parameters `args`.
pub open spec fn asks_row(c: Call, sql: Seq<char>, args: Seq<Option<Seq<char>>>) -> bool {
    is_stmt(c.0, sql, args) && c.1 is Row
}

/// Whether `c` is the change `sql` with parameters `args`.
pub open spec fn asks_exec(c: Call, sql: Seq<char>, args: Seq<Option<Seq<char>>>) -> bool {
    is_stmt(c.0, sql, args) && c.1 is Exec
}

/// Whether `c` is the query `sql` with parameters `args`, read row by row.
pub open spec fn asks_rows(c: Call, sql: Seq<char>, args: Seq<Option<Seq<char>>>) -> bool {
    is_stmt(c.0, sql, args) && c.1 is Rows
}

/// Whether a parameter is a time as the clock gives it.
pub open spec fn is_stamp(a: Option<Seq<char>>) -> bool {
    exists|secs: u64| a == Some(timestamp_text(secs as nat))
}

/// The outcome of a change that only fails or succeeds.
pub open spec fn changed(c: Call) -> FsResult<()> {
    if exec_answer(c) is Ok {
        Ok(())
    } else {
        Err(FsError::GeneralFailure)
    }
}

/// The same outcome, with what succeeding gives dropped.
pub open spec fn unit_of<T>(r: FsResult<T>) -> FsResult<()> {
    match r {
        Ok(_) => Ok(()),
        Err(e) => Err(e),
    }
}

/// An optional id, by its characters.
pub open spec fn ores(r: FsResult<Option<String>>) -> FsResult<Option<Seq<char>>> {
    match r {
        Ok(o) => Ok(ostring(o)),
        Err(e) => Err(e),
    }
}

/// Path names, by their characters.
pub open spec fn names(v: Seq<String>) -> Seq<Seq<char>> {
    v.map_values(|s: String| s@)
}

// ---------------------------------------------------------------------------
// What each operation hands to the database and makes of the answers. `log`
// is what it handed over, in order, with the answers.

/// Looking up the folder `title` in `parent`.
pub open spec fn spec_find_folder(
    user: Seq<char>,
    parent: Option<Seq<char>>,
    title: Seq<char>,
    log: Seq<Call>,
    r: FsResult<Option<String>>,
) -> bool {
    &&& log.len() == 1
    &&& asks_row(log[0], sql_find_folder(parent is Some), scoped(seq![Some(title)], parent, user))
    &&& r == spec_folder_lookup(spec_lookup(row_answer(log[0])))
}

/// Asking whether the note `title.syntax` exists in `parent`.
pub open spec fn spec_note_exists(
    user: Seq<char>,
    parent: Option<Seq<char>>,
    title: Seq<char>,
    syntax: Seq<char>,
    log: Seq<Call>,
    r: FsResult<bool>,
) -> bool {
    &&& log.len() == 1
    &&& asks_row(
        log[0],
        sql_note_exists(parent is Some),
        scoped(seq![Some(title), Some(syntax)], parent, user),
    )
    &&& r == spec_existence(row_answer(log[0]))
}

/// Looking up the id of the note `title.syntax` in `parent`.
pub open spec fn spec_note_id(
    user: Seq<char>,
    parent: Option<Seq<char>>,
    title: Seq<char>,
    syntax: Seq<char>,
    log: Seq<Call>,
    r: Lookup,
) -> bool {
    &&& log.len() == 1
    &&& asks_row(log[0], sql_note_id(parent is Some), scoped(seq![Some(title), Some(syntax)], parent, user))
    &&& r == spec_lookup(row_answer(log[0]))
}

/// Fetching the note `title.syntax` in `parent`.
pub open spec fn spec_get_note(
    user: Seq<char>,
    parent: Option<Seq<char>>,
    title: Seq<char>,
    syntax: Seq<char>,
    log: Seq<Call>,
    r: FsResult<NoteData>,
) -> bool {
    &&& log.len() == 1
    &&& asks_row(log[0], sql_get_note(parent is Some), scoped(seq![Some(title), Some(syntax)], parent, user))
    &&& r == spec_note_row(row_answer(log[0]))
}

/// Fetching the folder `id`.
pub open spec fn spec_get_folder(user: Seq<char>, id: Seq<char>, log: Seq<Call>, r: FsResult<FolderData>) -> bool {
    &&& log.len() == 1
    &&& asks_row(log[0], sql_folder_meta(), seq![Some(id), Some(user)])
    &&& r == spec_folder_row(row_answer(log[0]))
}

/// Asking whether the folder `id` exists.
pub open spec fn spec_folder_owned(user: Seq<char>, id: Seq<char>, log: Seq<Call>, r: bool) -> bool {
    &&& log.len() == 1
    &&& asks_row(log[0], sql_folder_owned(), seq![Some(id), Some(user)])
    &&& r == (row_answer(log[0]) is Ok)
}

/// The folders that rows hold, in order; rows that cannot be read are left
/// out.
pub open spec fn folder_entries(rows: Seq<Result<Vec<Option<String>>, DbError>>) -> Seq<DirEntry>
    decreases rows.len(),
{
    if rows.len() == 0 {
        Seq::empty()
    } else {
        let before = folder_entries(rows.drop_last());
        match rows.last() {
            Ok(cols) => match spec_folder_from_columns(cols@) {
                Some(f) => before.push(DirEntry::Folder(f)),
                None => before,
            },
            Err(_) => before,
        }
    }
}

/// The notes that rows hold, in order; rows that cannot be read are left
/// out.
pub open spec fn note_entries(rows: Seq<Result<Vec<Option<String>>, DbError>>) -> Seq<DirEntry>
    decreases rows.len(),
{
    if rows.len() == 0 {
        Seq::empty()
    } else {
        let before = note_entries(rows.drop_last());
        match rows.last() {
            Ok(cols) => match spec_note_from_columns(cols@) {
                Some(n) => before.push(DirEntry::Note(n)),
                None => before,
            },
            Err(_) => before,
        }
    }
}

/// Appending the folders inside `parent` to a listing.
pub open spec fn spec_collect_folders(
    user: Seq<char>,
    parent: Option<Seq<char>>,
    log: Seq<Call>,
    before: Seq<DirEntry>,
    after: Seq<DirEntry>,
    r: FsResult<()>,
) -> bool {
    &&& log.len() == 1
    &&& asks_rows(log[0], sql_list_folders(parent is Some), scoped(Seq::empty(), parent, user))
    &&& match rows_answer(log[0]) {
        Ok(rows) => r is Ok && after == before + folder_entries(rows@),
        Err(_) => r == Err::<(), FsError>(FsError::GeneralFailure) && after == before,
    }
}

/// Appending the notes inside `parent` to a listing.
pub open spec fn spec_collect_notes(
    user: Seq<char>,
    parent: Option<Seq<char>>,
    log: Seq<Call>,
    before: Seq<DirEntry>,
    after: Seq<DirEntry>,
    r: FsResult<()>,
) -> bool {
    &&& log.len() == 1
    &&& asks_rows(log[0], sql_list_notes(parent is Some), scoped(Seq::empty(), parent, user))
    &&& match rows_answer(log[0]) {
        Ok(rows) => r is Ok && after == before + note_entries(rows@),
        Err(_) => r == Err::<(), FsError>(FsError::GeneralFailure) && after == before,
    }
}

/// Listing the folders, then the notes, inside `parent`.
pub open spec fn spec_list(user: Seq<char>, parent: Option<Seq<char>>, log: Seq<Call>, r: FsResult<Vec<DirEntry>>) -> bool {
    &&& log.len() >= 1
    &&& asks_rows(log[0], sql_list_folders(parent is Some), scoped(Seq::empty(), parent, user))
    &&& match rows_answer(log[0]) {
        Err(_) => log.len() == 1 && r == Err::<Vec<DirEntry>, FsError>(FsError::GeneralFailure),
        Ok(frows) => {
            &&& log.len() == 2
            &&& asks_rows(log[1], sql_list_notes(parent is Some), scoped(Seq::empty(), parent, user))
            &&& match rows_answer(log[1]) {
                Err(_) => r == Err::<Vec<DirEntry>, FsError>(FsError::GeneralFailure),
                Ok(nrows) => r matches Ok(v) && v@ == folder_entries(frows@) + note_entries(nrows@),
            }
        },
    }
}

/// Storing `content` as the note `title.syntax` in `parent` at the time
/// `ts`: the note's id is looked up; the note's content and time are
/// replaced when it is there, and a note with the id `new_id` (created and
/// changed at `ts`) is inserted otherwise.
pub open spec fn spec_store_note_at(
    user: Seq<char>,
    parent: Option<Seq<char>>,
    title: Seq<char>,
    syntax: Seq<char>,
    content: Seq<char>,
    ts: Seq<char>,
    new_id: String,
    log: Seq<Call>,
    r: FsResult<String>,
) -> bool {
    &&& log.len() == 2
    &&& asks_row(log[0], sql_note_id(parent is Some), scoped(seq![Some(title), Some(syntax)], parent, user))
    &&& match spec_lookup(row_answer(log[0])) {
        Lookup::Found(id) => {
            &&& asks_exec(log[1], sql_update_content(), seq![Some(content), Some(ts), Some(id@)])
            &&& r == (if exec_answer(log[1]) is Ok {
                Ok::<String, FsError>(id)
            } else {
                Err(FsError::GeneralFailure)
            })
        },
        _ => {
            &&& asks_exec(
                log[1],
                sql_insert_note(),
                seq![Some(new_id@), Some(title), Some(content), Some(syntax), parent, Some(user), Some(ts), Some(ts)],
            )
            &&& r == (if exec_answer(log[1]) is Ok {
                Ok::<String, FsError>(new_id)
            } else {
                Err(FsError::GeneralFailure)
            })
        },
    }
}

/// Storing a note at the current time, with a fresh id for a new note.
/// Without a time from the clock nothing is handed over.
pub open spec fn spec_store_note(
    user: Seq<char>,
    parent: Option<Seq<char>>,
    title: Seq<char>,
    syntax: Seq<char>,
    content: Seq<char>,
    log: Seq<Call>,
    r: FsResult<String>,
) -> bool {
    ||| log.len() == 0 && r == Err::<String, FsError>(FsError::GeneralFailure)
    ||| exists|ts: Seq<char>, new_id: String|
        #![trigger spec_store_note_at(user, parent, title, syntax, content, ts, new_id, log, r)]
        is_stamp(Some(ts)) && spec_store_note_at(user, parent, title, syntax, content, ts, new_id, log, r)
}

/// Creating the folder `title` in `parent` at the time `ts`, with the id
/// `new_id`: refused with `Exists` when the lookup finds one.
pub open spec fn spec_create_folder_at(
    user: Seq<char>,
    parent: Option<Seq<char>>,
    title: Seq<char>,
    ts: Seq<char>,
    new_id: String,
    log: Seq<Call>,
    r: FsResult<String>,
) -> bool {
    &&& log.len() >= 1
    &&& asks_row(log[0], sql_find_folder(parent is Some), scoped(seq![Some(title)], parent, user))
    &&& match spec_folder_lookup(spec_lookup(row_answer(log[0]))) {
        Err(e) => log.len() == 1 && r == Err::<String, FsError>(e),
        Ok(Some(_)) => log.len() == 1 && r == Err::<String, FsError>(FsError::Exists),
        Ok(None) => {
            &&& log.len() == 2
            &&& asks_exec(
                log[1],
                sql_insert_folder(),
                seq![Some(new_id@), Some(title), parent, Some(user), Some(ts), Some(ts)],
            )
            &&& r == (if exec_answer(log[1]) is Ok {
                Ok::<String, FsError>(new_id)
            } else {
                Err(FsError::GeneralFailure)
            })
        },
    }
}

/// Creating a folder at the current time with a fresh id.
pub open spec fn spec_create_folder(
    user: Seq<char>,
    parent: Option<Seq<char>>,
    title: Seq<char>,
    log: Seq<Call>,
    r: FsResult<String>,
) -> bool {
    ||| log.len() == 0 && r == Err::<String, FsError>(FsError::GeneralFailure)
    ||| exists|ts: Seq<char>, new_id: String|
        #![trigger spec_create_folder_at(user, parent, title, ts, new_id, log, r)]
        is_stamp(Some(ts)) && spec_create_folder_at(user, parent, title, ts, new_id, log, r)
}

/// Deleting the note `title.syntax` in `parent`, by the id the lookup gave.
pub open spec fn spec_delete_note(
    user: Seq<char>,
    parent: Option<Seq<char>>,
    title: Seq<char>,
    syntax: Seq<char>,
    log: Seq<Call>,
    r: FsResult<()>,
) -> bool {
    &&& log.len() >= 1
    &&& asks_row(log[0], sql_note_id(parent is Some), scoped(seq![Some(title), Some(syntax)], parent, user))
    &&& match spec_lookup(row_answer(log[0])) {
        Lookup::Found(id) => {
            &&& log.len() == 2
            &&& asks_exec(log[1], sql_delete_note(), seq![Some(id@), Some(user)])
            &&& r == changed(log[1])
        },
        _ => log.len() == 1 && r == Err::<(), FsError>(FsError::NotFound),
    }
}

/// Deleting the folder `id`: `NotFound` when it is not the user's or
/// nothing was deleted.
pub open spec fn spec_delete_folder(user: Seq<char>, id: Seq<char>, log: Seq<Call>, r: FsResult<()>) -> bool {
    &&& log.len() >= 1
    &&& asks_row(log[0], sql_folder_owned(), seq![Some(id), Some(user)])
    &&& if row_answer(log[0]) is Err {
        log.len() == 1 && r == Err::<(), FsError>(FsError::NotFound)
    } else {
        &&& log.len() == 2
        &&& asks_exec(log[1], sql_delete_folder(), seq![Some(id), Some(user)])
        &&& r == (match exec_answer(log[1]) {
            Ok(n) => if n == 0 {
                Err::<(), FsError>(FsError::NotFound)
            } else {
                Ok(())
            },
            Err(_) => Err(FsError::GeneralFailure),
        })
    }
}

/// A note found at the destination of a move that is not the note moved.
pub open spec fn other_note(l: Lookup, src: Seq<char>) -> Option<Seq<char>> {
    match l {
        Lookup::Found(d) => if d@ != src {
            Some(d@)
        } else {
            None
        },
        _ => None,
    }
}

/// The update that moves the note `src` to `dt.ds` in `dp` at the time
/// `ts`.
pub open spec fn note_moved(
    user: Seq<char>,
    src: Seq<char>,
    dp: Option<Seq<char>>,
    dt: Seq<char>,
    ds: Seq<char>,
    ts: Seq<char>,
    c: Call,
    r: FsResult<()>,
) -> bool {
    &&& asks_exec(c, sql_move_note(), seq![Some(dt), Some(ds), dp, Some(ts), Some(src), Some(user)])
    &&& r == changed(c)
}

/// Moving the note `st.ss` in `sp` to `dt.ds` in `dp` at the time `ts`: the
/// source is looked up (`NotFound` when missing), a different note at the
/// destination is deleted, and the source's row is updated.
pub open spec fn spec_rename_note_at(
    user: Seq<char>,
    sp: Option<Seq<char>>,
    st: Seq<char>,
    ss: Seq<char>,
    dp: Option<Seq<char>>,
    dt: Seq<char>,
    ds: Seq<char>,
    ts: Seq<char>,
    log: Seq<Call>,
    r: FsResult<()>,
) -> bool {
    &&& log.len() >= 1
    &&& asks_row(log[0], sql_note_id(sp is Some), scoped(seq![Some(st), Some(ss)], sp, user))
    &&& match spec_lookup(row_answer(log[0])) {
        Lookup::Found(src) => {
            &&& log.len() >= 2
            &&& asks_row(log[1], sql_note_id(dp is Some), scoped(seq![Some(dt), Some(ds)], dp, user))
            &&& match other_note(spec_lookup(row_answer(log[1])), src@) {
                Some(d) => {
                    &&& log.len() >= 3
                    &&& asks_exec(log[2], sql_delete_note(), seq![Some(d), Some(user)])
                    &&& if exec_answer(log[2]) is Err {
                        log.len() == 3 && r == Err::<(), FsError>(FsError::GeneralFailure)
                    } else {
                        log.len() == 4 && note_moved(user, src@, dp, dt, ds, ts, log[3], r)
                    }
                },
                None => log.len() == 3 && note_moved(user, src@, dp, dt, ds, ts, log[2], r),
            }
        },
        _ => log.len() == 1 && r == Err::<(), FsError>(FsError::NotFound),
    }
}

/// Moving a note at the current time.
pub open spec fn spec_rename_note(
    user: Seq<char>,
    sp: Option<Seq<char>>,
    st: Seq<char>,
    ss: Seq<char>,
    dp: Option<Seq<char>>,
    dt: Seq<char>,
    ds: Seq<char>,
    log: Seq<Call>,
    r: FsResult<()>,
) -> bool {
    ||| log.len() == 0 && r == Err::<(), FsError>(FsError::GeneralFailure)
    ||| exists|ts: Seq<char>|
        #![trigger spec_rename_note_at(user, sp, st, ss, dp, dt, ds, ts, log, r)]
        is_stamp(Some(ts)) && spec_rename_note_at(user, sp, st, ss, dp, dt, ds, ts, log, r)
}

/// A folder's parent as its row gives it.
pub open spec fn parent_column(q: Result<Vec<Option<String>>, DbError>) -> Option<Seq<char>> {
    match q {
        Ok(cols) => if cols@.len() >= 1 {
            ostring(cols@[0])
        } else {
            None
        },
        Err(_) => None,
    }
}

/// Walking up from `cur` through parent links looking for `anc`, for at
/// most `budget` steps: `true` on reaching it, `false` at the top, at a
/// folder whose parent cannot be read, or when the steps run out.
pub open spec fn spec_ancestry(
    user: Seq<char>,
    cur: Option<Seq<char>>,
    anc: Seq<char>,
    budget: nat,
    log: Seq<Call>,
    r: bool,
) -> bool
    decreases budget,
{
    if budget == 0 {
        log.len() == 0 && !r
    } else {
        match cur {
            None => log.len() == 0 && !r,
            Some(c) => if c == anc {
                log.len() == 0 && r
            } else {
                &&& log.len() >= 1
                &&& asks_row(log[0], sql_folder_parent(), seq![Some(c), Some(user)])
                &&& spec_ancestry(user, parent_column(row_answer(log[0])), anc, (budget - 1) as nat, log.skip(1), r)
            },
        }
    }
}

/// Whether `pd` is `anc` or lies inside it.
pub open spec fn spec_descendant(user: Seq<char>, pd: Seq<char>, anc: Seq<char>, log: Seq<Call>, r: FsResult<bool>) -> bool {
    r matches Ok(b) && spec_ancestry(user, Some(pd), anc, u64::MAX as nat, log, b)
}

/// The update that moves the folder `id` to `nt` in `np` at the time `ts`.
pub open spec fn folder_moved(
    user: Seq<char>,
    id: Seq<char>,
    np: Option<Seq<char>>,
    nt: Seq<char>,
    ts: Seq<char>,
    c: Call,
    r: FsResult<()>,
) -> bool {
    &&& asks_exec(c, sql_move_folder(), seq![Some(nt), np, Some(ts), Some(id), Some(user)])
    &&& r == changed(c)
}

/// The rest of a folder move once the name is free: a target that is the
/// folder itself or lies inside it is refused with `Forbidden`.
pub open spec fn folder_move_checked(
    user: Seq<char>,
    id: Seq<char>,
    np: Option<Seq<char>>,
    nt: Seq<char>,
    ts: Seq<char>,
    log: Seq<Call>,
    r: FsResult<()>,
) -> bool {
    match np {
        Some(p) => if p == id {
            log.len() == 0 && r == Err::<(), FsError>(FsError::Forbidden)
        } else {
            exists|l1: Seq<Call>, b: bool|
                #[trigger] spec_ancestry(user, Some(p), id, u64::MAX as nat, l1, b) && prefix_of(l1, log)
                    && if b {
                    log.len() == l1.len() && r == Err::<(), FsError>(FsError::Forbidden)
                } else {
                    log.len() == l1.len() + 1 && folder_moved(user, id, np, nt, ts, log[l1.len() as int], r)
                }
        },
        None => log.len() == 1 && folder_moved(user, id, np, nt, ts, log[0], r),
    }
}

/// Moving the folder `id` to `nt` in `np` at the time `ts`: `NotFound` when
/// it is not the user's, `Exists` when another folder has that name there.
pub open spec fn spec_rename_folder_at(
    user: Seq<char>,
    id: Seq<char>,
    np: Option<Seq<char>>,
    nt: Seq<char>,
    ts: Seq<char>,
    log: Seq<Call>,
    r: FsResult<()>,
) -> bool {
    &&& log.len() >= 1
    &&& asks_row(log[0], sql_folder_owned(), seq![Some(id), Some(user)])
    &&& if row_answer(log[0]) is Err {
        log.len() == 1 && r == Err::<(), FsError>(FsError::NotFound)
    } else {
        &&& log.len() >= 2
        &&& asks_row(log[1], sql_find_folder(np is Some), scoped(seq![Some(nt)], np, user))
        &&& match spec_folder_lookup(spec_lookup(row_answer(log[1]))) {
            Err(e) => log.len() == 2 && r == Err::<(), FsError>(e),
            Ok(found) => if found matches Some(d) && d@ != id {
                log.len() == 2 && r == Err::<(), FsError>(FsError::Exists)
            } else {
                folder_move_checked(user, id, np, nt, ts, log.skip(2), r)
            },
        }
    }
}

/// Moving a folder at the current time.
pub open spec fn spec_rename_folder(
    user: Seq<char>,
    id: Seq<char>,
    np: Option<Seq<char>>,
    nt: Seq<char>,
    log: Seq<Call>,
    r: FsResult<()>,
) -> bool {
    ||| log.len() == 0 && r == Err::<(), FsError>(FsError::GeneralFailure)
    ||| exists|ts: Seq<char>|
        #![trigger spec_rename_folder_at(user, id, np, nt, ts, log, r)]
        is_stamp(Some(ts)) && spec_rename_folder_at(user, id, np, nt, ts, log, r)
}

/// Following the folder names `comps[i..upto]` down from `parent`.
pub open spec fn spec_walk(
    user: Seq<char>,
    comps: Seq<Seq<char>>,
    i: int,
    upto: int,
    parent: Option<Seq<char>>,
    log: Seq<Call>,
    r: FsResult<Option<Seq<char>>>,
) -> bool
    decreases upto - i,
{
    if i >= upto {
        log.len() == 0 && r == Ok::<Option<Seq<char>>, FsError>(parent)
    } else {
        &&& log.len() >= 1
        &&& asks_row(log[0], sql_find_folder(parent is Some), scoped(seq![Some(comps[i])], parent, user))
        &&& match spec_folder_lookup(spec_lookup(row_answer(log[0]))) {
            Ok(Some(id)) => spec_walk(user, comps, i + 1, upto, Some(id@), log.skip(1), r),
            Ok(None) => log.len() == 1 && r == Err::<Option<Seq<char>>, FsError>(FsError::NotFound),
            Err(e) => log.len() == 1 && r == Err::<Option<Seq<char>>, FsError>(e),
        }
    }
}

/// Whether `r` names the note `t.s` in `parent`.
pub open spec fn is_note_at(r: FsResult<ResolvedPath>, parent: Option<Seq<char>>, t: Seq<char>, s: Seq<char>) -> bool {
    r matches Ok(ResolvedPath::Note { parent_id, title, syntax }) && ostring(parent_id) == parent && title@ == t
        && syntax@ == s
}

/// Resolving the name `name` in `parent` as a folder.
pub open spec fn spec_folder_named(
    user: Seq<char>,
    parent: Option<Seq<char>>,
    name: Seq<char>,
    log: Seq<Call>,
    r: FsResult<ResolvedPath>,
) -> bool {
    &&& log.len() == 1
    &&& asks_row(log[0], sql_find_folder(parent is Some), scoped(seq![Some(name)], parent, user))
    &&& match spec_folder_lookup(spec_lookup(row_answer(log[0]))) {
        Ok(Some(id)) => r matches Ok(ResolvedPath::Folder { id: fid }) && fid@ == id@,
        Ok(None) => r == Err::<ResolvedPath, FsError>(FsError::NotFound),
        Err(e) => r == Err::<ResolvedPath, FsError>(e),
    }
}

/// Resolving the last name of a path in `parent`: a note when the name
/// parses as `title.syntax` and such a note exists, a folder of that name
/// otherwise.
pub open spec fn spec_resolve_in(
    user: Seq<char>,
    parent: Option<Seq<char>>,
    last: Seq<char>,
    log: Seq<Call>,
    r: FsResult<ResolvedPath>,
) -> bool {
    match spec_parse_filename(last) {
        Some((t, s)) => {
            &&& log.len() >= 1
            &&& asks_row(log[0], sql_note_exists(parent is Some), scoped(seq![Some(t), Some(s)], parent, user))
            &&& match spec_existence(row_answer(log[0])) {
                Err(e) => log.len() == 1 && r == Err::<ResolvedPath, FsError>(e),
                Ok(true) => log.len() == 1 && is_note_at(r, parent, t, s),
                Ok(false) => spec_folder_named(user, parent, last, log.skip(1), r),
            }
        },
        None => spec_folder_named(user, parent, last, log, r),
    }
}

/// Resolving a URL path: the top for a path of no names; otherwise the
/// folders along it are walked and the last name resolved in the folder
/// reached.
pub open spec fn spec_resolve(user: Seq<char>, path: Seq<char>, log: Seq<Call>, r: FsResult<ResolvedPath>) -> bool {
    match spec_path_components(path) {
        None => log.len() == 0 && r matches Ok(ResolvedPath::Root),
        Some(c) => exists|l1: Seq<Call>, w: FsResult<Option<Seq<char>>>|
            #[trigger] spec_walk(user, c, 0, c.len() - 1, None, l1, w) && prefix_of(l1, log) && match w {
                Err(e) => log.len() == l1.len() && r == Err::<ResolvedPath, FsError>(e),
                Ok(parent) => spec_resolve_in(user, parent, c.last(), log.skip(l1.len() as int), r),
            },
    }
}

/// The metadata of a folder: a directory of length 0 with its times.
pub open spec fn spec_folder_meta(f: FolderData) -> EntryMeta {
    EntryMeta {
        is_dir: true,
        len: 0,
        modified: spec_parse_stored_time(f.updated_at),
        created: spec_parse_stored_time(f.created_at),
    }
}

/// The metadata of a note: a file as long as its content in UTF-8, with its
/// times.
pub open spec fn spec_note_meta(n: NoteData) -> EntryMeta {
    EntryMeta {
        is_dir: false,
        len: encode_utf8(n.content@).len() as u64,
        modified: spec_parse_stored_time(n.updated_at),
        created: spec_parse_stored_time(n.created_at),
    }
}

/// The metadata of the top: a directory of length 0 whose times are the
/// current time.
pub open spec fn root_meta() -> EntryMeta {
    EntryMeta { is_dir: true, len: 0, modified: None, created: None }
}

/// What the metadata of the resolved path `rp` is, given the rest of the
/// log.
pub open spec fn meta_after(user: Seq<char>, rp: FsResult<ResolvedPath>, log: Seq<Call>, r: FsResult<EntryMeta>) -> bool {
    match rp {
        Err(e) => log.len() == 0 && r == Err::<EntryMeta, FsError>(e),
        Ok(ResolvedPath::Root) => log.len() == 0 && r == Ok::<EntryMeta, FsError>(root_meta()),
        Ok(ResolvedPath::Folder { id }) => exists|g: FsResult<FolderData>|
            #[trigger] spec_get_folder(user, id@, log, g) && r == (match g {
                Ok(f) => Ok::<EntryMeta, FsError>(spec_folder_meta(f)),
                Err(e) => Err(e),
            }),
        Ok(ResolvedPath::Note { parent_id, title, syntax }) => exists|n: FsResult<NoteData>|
            #[trigger] spec_get_note(user, ostring(parent_id), title@, syntax@, log, n) && r == (match n {
                Ok(note) => Ok::<EntryMeta, FsError>(spec_note_meta(note)),
                Err(e) => Err(e),
            }),
    }
}

/// The metadata of what a path names.
pub open spec fn spec_metadata(user: Seq<char>, path: Seq<char>, log: Seq<Call>, r: FsResult<EntryMeta>) -> bool {
    exists|l1: Seq<Call>, rp: FsResult<ResolvedPath>|
        #[trigger] spec_resolve(user, path, l1, rp) && prefix_of(l1, log) && meta_after(
            user,
            rp,
            log.skip(l1.len() as int),
            r,
        )
}

/// A listing of the entries of `parent`.
pub open spec fn listed(user: Seq<char>, parent: Option<Seq<char>>, log: Seq<Call>, r: FsResult<Vec<DirListing>>) -> bool {
    exists|l: FsResult<Vec<DirEntry>>|
        #[trigger] spec_list(user, parent, log, l) && match l {
            Err(e) => r == Err::<Vec<DirListing>, FsError>(e),
            Ok(entries) => r matches Ok(v) && v@.len() == entries@.len() && forall|k: int|
                0 <= k < v@.len() ==> spec_listing_matches(entries@[k], #[trigger] v@[k]),
        }
}

/// Listing the folder a path names; a note cannot be listed.
pub open spec fn spec_read_dir(user: Seq<char>, path: Seq<char>, log: Seq<Call>, r: FsResult<Vec<DirListing>>) -> bool {
    exists|l1: Seq<Call>, rp: FsResult<ResolvedPath>|
        #[trigger] spec_resolve(user, path, l1, rp) && prefix_of(l1, log) && match rp {
            Err(e) => log.len() == l1.len() && r == Err::<Vec<DirListing>, FsError>(e),
            Ok(ResolvedPath::Note { .. }) => log.len() == l1.len() && r == Err::<Vec<DirListing>, FsError>(
                FsError::Forbidden,
            ),
            Ok(ResolvedPath::Root) => listed(user, None, log.skip(l1.len() as int), r),
            Ok(ResolvedPath::Folder { id }) => listed(user, Some(id@), log.skip(l1.len() as int), r),
        }
}

/// Keeping no properties: every resolved or missing path has none.
pub open spec fn props_outcome(rp: FsResult<ResolvedPath>) -> FsResult<()> {
    match rp {
        Ok(_) => Ok(()),
        Err(FsError::NotFound) => Ok(()),
        Err(e) => Err(e),
    }
}

/// Deleting the note a path names; folders and the top are refused.
pub open spec fn spec_remove_file(user: Seq<char>, path: Seq<char>, log: Seq<Call>, r: FsResult<()>) -> bool {
    exists|l1: Seq<Call>, rp: FsResult<ResolvedPath>|
        #[trigger] spec_resolve(user, path, l1, rp) && prefix_of(l1, log) && match rp {
            Err(e) => log.len() == l1.len() && r == Err::<(), FsError>(e),
            Ok(ResolvedPath::Note { parent_id, title, syntax }) => spec_delete_note(
                user,
                ostring(parent_id),
                title@,
                syntax@,
                log.skip(l1.len() as int),
                r,
            ),
            Ok(_) => log.len() == l1.len() && r == Err::<(), FsError>(FsError::Forbidden),
        }
}

/// Deleting the folder a path names; notes and the top are refused.
pub open spec fn spec_remove_dir(user: Seq<char>, path: Seq<char>, log: Seq<Call>, r: FsResult<()>) -> bool {
    exists|l1: Seq<Call>, rp: FsResult<ResolvedPath>|
        #[trigger] spec_resolve(user, path, l1, rp) && prefix_of(l1, log) && match rp {
            Err(e) => log.len() == l1.len() && r == Err::<(), FsError>(e),
            Ok(ResolvedPath::Folder { id }) => spec_delete_folder(user, id@, log.skip(l1.len() as int), r),
            Ok(_) => log.len() == l1.len() && r == Err::<(), FsError>(FsError::Forbidden),
        }
}

/// Moving what `rp` names to the name `name` in `dp`.
pub open spec fn moved(
    user: Seq<char>,
    dp: Option<Seq<char>>,
    name: Seq<char>,
    rp: FsResult<ResolvedPath>,
    log: Seq<Call>,
    r: FsResult<()>,
) -> bool {
    match rp {
        Err(e) => log.len() == 0 && r == Err::<(), FsError>(e),
        Ok(ResolvedPath::Note { parent_id, title, syntax }) => match spec_parse_filename(name) {
            None => log.len() == 0 && r == Err::<(), FsError>(FsError::Forbidden),
            Some((dt, ds)) => spec_rename_note(user, ostring(parent_id), title@, syntax@, dp, dt, ds, log, r),
        },
        Ok(ResolvedPath::Folder { id }) => spec_rename_folder(user, id@, dp, name, log, r),
        Ok(ResolvedPath::Root) => log.len() == 0 && r == Err::<(), FsError>(FsError::Forbidden),
    }
}

/// Moving what `from` names to `to`: the top is refused as either end, the
/// folders along `to` must exist, a note keeps its title and syntax from
/// the last name of `to`, a folder takes that name.
pub open spec fn spec_rename(user: Seq<char>, from: Seq<char>, to: Seq<char>, log: Seq<Call>, r: FsResult<()>) -> bool {
    match spec_path_components(to) {
        None => log.len() == 0 && r == Err::<(), FsError>(FsError::Forbidden),
        Some(c) => exists|l1: Seq<Call>, w: FsResult<Option<Seq<char>>>|
            #[trigger] spec_walk(user, c, 0, c.len() - 1, None, l1, w) && prefix_of(l1, log) && match w {
                Err(e) => log.len() == l1.len() && r == Err::<(), FsError>(e),
                Ok(dp) => exists|l2: Seq<Call>, rp: FsResult<ResolvedPath>|
                    #[trigger] spec_resolve(user, from, l2, rp) && prefix_of(l2, log.skip(l1.len() as int))
                        && moved(user, dp, c.last(), rp, log.skip(l1.len() as int).skip(l2.len() as int), r),
            },
    }
}

/// The file opened over the note `n` of `parent`: writable, in `parent`
/// and holding the note's bytes (none when truncating) when the client
/// writes or appends; read-only over the note's bytes otherwise.
pub open spec fn opened_over(f: SqliteDavFile, n: NoteData, parent: Option<Seq<char>>, o: OpenFlags, fsv: (Seq<char>, Seq<char>)) -> bool {
    &&& f.note_view() == n
    &&& f.pos_view() == 0
    &&& f.fs_view() == Some(fsv)
    &&& if o.write || o.append {
        &&& f.is_writable()
        &&& f.parent_view() == parent
        &&& f.data_view() == (if o.truncate {
            Seq::<u8>::empty()
        } else {
            encode_utf8(n.content@)
        })
    } else {
        &&& !f.is_writable()
        &&& f.parent_view() is None
        &&& f.data_view() == encode_utf8(n.content@)
    }
}

/// The empty, writable file over the note `t.s` just created in `parent`,
/// created and changed at `ts`.
pub open spec fn created_over(
    f: SqliteDavFile,
    id: String,
    t: Seq<char>,
    s: Seq<char>,
    parent: Option<Seq<char>>,
    fsv: (Seq<char>, Seq<char>),
    ts: Seq<char>,
) -> bool {
    &&& f.note_view().id == id
    &&& f.note_view().created_at matches Some(c) && c@ == ts
    &&& f.note_view().updated_at == f.note_view().created_at
    &&& f.note_view().title@ == t
    &&& f.note_view().syntax@ == s
    &&& f.note_view().content@ == Seq::<char>::empty()
    &&& f.is_writable()
    &&& f.data_view().len() == 0
    &&& f.pos_view() == 0
    &&& f.parent_view() == parent
    &&& f.fs_view() == Some(fsv)
}

/// Storing the empty note `t.s` in `parent` at the current time and
/// opening it: the file is over the note stored whenever the store
/// succeeds. Without a time from the clock nothing is handed over.
pub open spec fn stored_file(
    fsv: (Seq<char>, Seq<char>),
    parent: Option<Seq<char>>,
    t: Seq<char>,
    s: Seq<char>,
    log: Seq<Call>,
    r: FsResult<SqliteDavFile>,
) -> bool {
    ||| log.len() == 0 && r == Err::<SqliteDavFile, FsError>(FsError::GeneralFailure)
    ||| exists|ts: Seq<char>, new_id: String, id: FsResult<String>|
        #![trigger spec_store_note_at(fsv.1, parent, t, s, Seq::empty(), ts, new_id, log, id)]
        is_stamp(Some(ts)) && spec_store_note_at(fsv.1, parent, t, s, Seq::empty(), ts, new_id, log, id)
            && match id {
            Err(e) => r == Err::<SqliteDavFile, FsError>(e),
            Ok(nid) => r matches Ok(f) && created_over(f, nid, t, s, parent, fsv, ts),
        }
}

/// Creating the note a missing path names: its last name must parse as
/// `title.syntax` (`Forbidden` otherwise), the folders before it must
/// exist, and the note is stored empty.
pub open spec fn spec_create_file(fsv: (Seq<char>, Seq<char>), path: Seq<char>, log: Seq<Call>, r: FsResult<SqliteDavFile>) -> bool {
    match spec_path_components(path) {
        None => log.len() == 0 && r == Err::<SqliteDavFile, FsError>(FsError::Forbidden),
        Some(c) => match spec_parse_filename(c.last()) {
            None => log.len() == 0 && r == Err::<SqliteDavFile, FsError>(FsError::Forbidden),
            Some((t, s)) => exists|l1: Seq<Call>, w: FsResult<Option<Seq<char>>>|
                #[trigger] spec_walk(fsv.1, c, 0, c.len() - 1, None, l1, w) && prefix_of(l1, log) && match w {
                    Err(e) => log.len() == l1.len() && r == Err::<SqliteDavFile, FsError>(e),
                    Ok(parent) => stored_file(fsv, parent, t, s, log.skip(l1.len() as int), r),
                },
        },
    }
}

/// Opening a file once its path is resolved as `rp`.
pub open spec fn open_after(fsv: (Seq<char>, Seq<char>), path: Seq<char>, o: OpenFlags, rp: FsResult<ResolvedPath>, log: Seq<Call>, r: FsResult<SqliteDavFile>) -> bool {
    match rp {
        Ok(ResolvedPath::Note { parent_id, title, syntax }) => exists|n: FsResult<NoteData>|
            #[trigger] spec_get_note(fsv.1, ostring(parent_id), title@, syntax@, log, n) && match n {
                Err(e) => r == Err::<SqliteDavFile, FsError>(e),
                Ok(note) => r matches Ok(f) && opened_over(f, note, ostring(parent_id), o, fsv),
            },
        Ok(_) => log.len() == 0 && r == Err::<SqliteDavFile, FsError>(FsError::Forbidden),
        Err(FsError::NotFound) => if !(o.create || o.create_new) {
            log.len() == 0 && r == Err::<SqliteDavFile, FsError>(FsError::NotFound)
        } else {
            spec_create_file(fsv, path, log, r)
        },
        Err(e) => log.len() == 0 && r == Err::<SqliteDavFile, FsError>(e),
    }
}

/// Opening the file a path names with the options `o`.
pub open spec fn spec_open(fsv: (Seq<char>, Seq<char>), path: Seq<char>, o: OpenFlags, log: Seq<Call>, r: FsResult<SqliteDavFile>) -> bool {
    exists|l1: Seq<Call>, rp: FsResult<ResolvedPath>|
        #[trigger] spec_resolve(fsv.1, path, l1, rp) && prefix_of(l1, log) && open_after(
            fsv,
            path,
            o,
            rp,
            log.skip(l1.len() as int),
            r,
        )
}

/// The statement handed to a freshly opened connection.
pub open spec fn spec_opened(log: Seq<Call>) -> bool {
    &&& log.len() == 1
    &&& asks_exec(log[0], sql_pragma(), Seq::empty())
    &&& exec_answer(log[0]) is Ok
}

/// Whether the first statement handed to a connection turned foreign keys
/// on, and succeeded: deleting a folder then deletes what it contains.
pub open spec fn foreign_keys_on(d: Db) -> bool {
    &&& d.calls().len() >= 1
    &&& asks_exec(d.calls()[0], sql_pragma(), Seq::empty())
    &&& exec_answer(d.calls()[0]) is Ok
}

/// Foreign keys stay on for the rest of a connection's life.
pub proof fn lemma_foreign_keys_stay_on(a: Db, b: Db)
    requires
        foreign_keys_on(a),
        extends(a, b),
    ensures
        foreign_keys_on(b),
{
    assert(b.calls().take(a.calls().len() as int)[0] == b.calls()[0]);
}

// ---------------------------------------------------------------------------
// Building statements.

/// The statement with SQL text `sql` and parameters `args`.
pub fn stmt_of(sql: &str, args: Vec<Option<String>>) -> (s: Stmt)
    ensures
        s.sql@ == sql@,
        s.args@ == args@,
{
    Stmt { sql: sql.to_owned(), args }
}

/// No parameters.
pub fn no_args() -> (r: Vec<Option<String>>)
    ensures
        args_view(r@) == Seq::<Option<Seq<char>>>::empty(),
{
    let r: Vec<Option<String>> = Vec::new();
    assert(args_view(r@) =~= Seq::<Option<Seq<char>>>::empty());
    r
}

/// Adds a parameter.
pub fn push_arg(v: &mut Vec<Option<String>>, x: Option<String>)
    ensures
        args_view(final(v)@) == args_view(old(v)@).push(ostring(x)),
{
    let ghost before = v@;
    v.push(x);
    assert(args_view(v@) =~= args_view(before).push(ostring(x)));
}

/// A text parameter.
pub fn text_arg(s: &str) -> (r: Option<String>)
    ensures
        ostring(r) == Some(s@),
{
    Some(s.to_owned())
}

/// A text parameter, or NULL.
pub fn opt_arg(o: Option<&str>) -> (r: Option<String>)
    ensures
        ostring(r) == ostr(o),
{
    match o {
        Some(p) => Some(p.to_owned()),
        None => None,
    }
}

/// The two text parameters `a, b`.
pub fn two_args(a: &str, b: &str) -> (r: Vec<Option<String>>)
    ensures
        args_view(r@) == seq![Some(a@), Some(b@)],
{
    let mut v = no_args();
    push_arg(&mut v, text_arg(a));
    push_arg(&mut v, text_arg(b));
    v
}

/// The one text parameter `a`.
pub fn one_arg(a: &str) -> (r: Vec<Option<String>>)
    ensures
        args_view(r@) == seq![Some(a@)],
{
    let mut v = no_args();
    push_arg(&mut v, text_arg(a));
    v
}

/// Keeping no properties for what a path names.
pub open spec fn spec_get_props(user: Seq<char>, path: Seq<char>, log: Seq<Call>, r: FsResult<()>) -> bool {
    exists|rp: FsResult<ResolvedPath>| #[trigger] spec_resolve(user, path, log, rp) && r == props_outcome(rp)
}

/// The metadata of a folder.
pub fn folder_meta(f: &FolderData) -> (r: EntryMeta)
    ensures
        r == spec_folder_meta(*f),
{
    let modified = parse_stored_time(&f.updated_at);
    let created = parse_stored_time(&f.created_at);
    EntryMeta { is_dir: true, len: 0, modified, created }
}

/// The metadata of a note.
pub fn note_meta(n: &NoteData) -> (r: EntryMeta)
    ensures
        r == spec_note_meta(*n),
{
    let len = n.content.as_str().as_bytes().len();
    let modified = parse_stored_time(&n.updated_at);
    let created = parse_stored_time(&n.created_at);
    EntryMeta { is_dir: false, len: len as u64, modified, created }
}
/// What a folder listing shows for an entry: a folder by its title, as a
/// directory of length 0; a note as the file `title.syntax`, as long as its
/// stored content; both with their stored times.
pub open spec fn spec_listing_matches(e: DirEntry, l: DirListing) -> bool {
    match e {
        DirEntry::Folder(f) => {
            &&& l.name@ == f.title@
            &&& l.meta.is_dir
            &&& l.meta.len == 0
            &&& l.meta.modified == spec_parse_stored_time(f.updated_at)
            &&& l.meta.created == spec_parse_stored_time(f.created_at)
        },
        DirEntry::Note(n) => {
            &&& l.name@ == note_file_name_of(n.title@, n.syntax@)
            &&& !l.meta.is_dir
            &&& l.meta.len == encode_utf8(n.content@).len()
            &&& l.meta.modified == spec_parse_stored_time(n.updated_at)
            &&& l.meta.created == spec_parse_stored_time(n.created_at)
        },
    }
}

/// What a folder listing shows for an entry. A note whose syntax holds no
/// `.` is listed under a name that parses back to its title and syntax.
pub fn listing_of(e: &DirEntry) -> (r: DirListing)
    ensures
        spec_listing_matches(*e, r),
        e matches DirEntry::Note(n) ==> (!n.syntax@.contains('.') ==> spec_parse_filename(r.name@)
            == Some((n.title@, n.syntax@))),
{
    proof {
        if let DirEntry::Note(n) = e {
            if !n.syntax@.contains('.') {
                crate::paths::lemma_note_file_name_round_trip(n.title@, n.syntax@);
            }
        }
    }
    match e {
        DirEntry::Folder(f) => {
            let modified = parse_stored_time(&f.updated_at);
            let created = parse_stored_time(&f.created_at);
            DirListing {
                name: f.title.clone(),
                meta: EntryMeta { is_dir: true, len: 0, modified, created },
            }
        },
        DirEntry::Note(n) => {
            let name = note_file_name(n.title.as_str(), n.syntax.as_str());
            let len = n.content.as_str().as_bytes().len();
            let modified = parse_stored_time(&n.updated_at);
            let created = parse_stored_time(&n.created_at);
            DirListing { name, meta: EntryMeta { is_dir: false, len: len as u64, modified, created } }
        },
    }
}


impl SqliteFs {
    /// The file system over the database at `db_path`, for the user `user_id`.
    pub fn new(db_path: String, user_id: String) -> (r: Self)
        ensures
            r.db_path_view() == db_path@,
            r.user_id_view() == user_id@,
    {
        SqliteFs { db_path, user_id }
    }

    /// The path of the database.
    pub closed spec fn db_path_view(&self) -> Seq<char> {
        self.db_path@
    }

    /// The user whose folders and notes are shown.
    pub closed spec fn user_id_view(&self) -> Seq<char> {
        self.user_id@
    }

    /// A copy of this file system value.
    pub fn duplicate(&self) -> (r: Self)
        ensures
            r.db_path_view() == self.db_path_view(),
            r.user_id_view() == self.user_id_view(),
    {
        SqliteFs { db_path: self.db_path.clone(), user_id: self.user_id.clone() }
    }

    /// Opens the database at this file system's path and turns on foreign
    /// keys, which the cascading delete of a folder's contents relies on.
    /// Whether the open succeeds depends on the file system.
    pub fn open_db(&self) -> (r: FsResult<Db>)
        ensures
            r matches Ok(d) ==> spec_opened(d.calls()) && d.path() == self.db_path_view() && d.mode()
                == OpenMode::Defaults,
            r matches Ok(d) ==> foreign_keys_on(d),
            r is Err ==> r == Err::<Db, FsError>(FsError::GeneralFailure),
    {
        let mut db = match connect(self.db_path.as_str()) {
            Ok(d) => d,
            Err(_) => {
                return Err(FsError::GeneralFailure);
            },
        };
        let ghost d0 = db;
        let res = execute(&mut db, stmt_of("PRAGMA foreign_keys = ON", no_args()));
        proof {
            assert(db.calls().skip(0) =~= db.calls());
        }
        match res {
            Ok(_) => Ok(db),
            Err(_) => Err(FsError::GeneralFailure),
        }
    }

    /// The parameters `first`, then `parent_id` (when given), then this
    /// user's id.
    pub fn scoped_args(&self, first: Vec<Option<String>>, parent_id: Option<&str>) -> (r: Vec<Option<String>>)
        ensures
            args_view(r@) == scoped(args_view(first@), ostr(parent_id), self.user_id_view()),
    {
        let mut args = first;
        match parent_id {
            Some(pid) => push_arg(&mut args, text_arg(pid)),
            None => {},
        }
        push_arg(&mut args, text_arg(self.user_id.as_str()));
        args
    }

    /// The parameters `a`, then this user's id.
    fn owned_args(&self, a: &str) -> (r: Vec<Option<String>>)
        ensures
            args_view(r@) == seq![Some(a@), Some(self.user_id_view())],
    {
        let mut args = no_args();
        push_arg(&mut args, text_arg(a));
        push_arg(&mut args, text_arg(self.user_id.as_str()));
        args
    }

    /// The id of the folder `title` inside `parent_id` (at the top for
    /// `None`), or `None` when there is no such folder.
    pub fn find_folder(&self, db: &mut Db, parent_id: Option<&str>, title: &str) -> (r: FsResult<Option<String>>)
        ensures
            extends(*old(db), *final(db)),
            spec_find_folder(self.user_id_view(), ostr(parent_id), title@, calls_since(*old(db), *final(db)), r),
    {
        let args = self.scoped_args(one_arg(title), parent_id);
        let stmt = match parent_id {
            Some(_) => stmt_of("SELECT id FROM folders WHERE title = ? AND parent_id = ? AND user_id = ?", args),
            None => stmt_of("SELECT id FROM folders WHERE title = ? AND parent_id IS NULL AND user_id = ?", args),
        };
        let q = query_row(db, stmt, 1);
        folder_lookup(lookup_text(q))
    }

    /// Whether the note `title` with syntax `syntax` exists in `parent_id`.
    pub fn note_exists(&self, db: &mut Db, parent_id: Option<&str>, title: &str, syntax: &str) -> (r: FsResult<bool>)
        ensures
            extends(*old(db), *final(db)),
            spec_note_exists(self.user_id_view(), ostr(parent_id), title@, syntax@, calls_since(*old(db), *final(db)), r),
    {
        let args = self.scoped_args(two_args(title, syntax), parent_id);
        let stmt = match parent_id {
            Some(_) => stmt_of("SELECT 1 FROM notes WHERE title = ? AND syntax = ? AND parent_id = ? AND user_id = ?", args),
            None => stmt_of("SELECT 1 FROM notes WHERE title = ? AND syntax = ? AND parent_id IS NULL AND user_id = ?", args),
        };
        let q = query_row(db, stmt, 0);
        existence(q)
    }

    /// The id of the note `title` with syntax `syntax` in `parent_id`, as a
    /// lookup.
    pub fn lookup_note_id(&self, db: &mut Db, parent_id: Option<&str>, title: &str, syntax: &str) -> (r: Lookup)
        ensures
            extends(*old(db), *final(db)),
            spec_note_id(self.user_id_view(), ostr(parent_id), title@, syntax@, calls_since(*old(db), *final(db)), r),
    {
        let args = self.scoped_args(two_args(title, syntax), parent_id);
        let stmt = match parent_id {
            Some(_) => stmt_of("SELECT id FROM notes WHERE title = ? AND syntax = ? AND parent_id = ? AND user_id = ?", args),
            None => stmt_of("SELECT id FROM notes WHERE title = ? AND syntax = ? AND parent_id IS NULL AND user_id = ?", args),
        };
        let q = query_row(db, stmt, 1);
        lookup_text(q)
    }

    /// The note `title` with syntax `syntax` in `parent_id`.
    pub fn get_note(&self, db: &mut Db, parent_id: Option<&str>, title: &str, syntax: &str) -> (r: FsResult<NoteData>)
        ensures
            extends(*old(db), *final(db)),
            spec_get_note(self.user_id_view(), ostr(parent_id), title@, syntax@, calls_since(*old(db), *final(db)), r),
    {
        let args = self.scoped_args(two_args(title, syntax), parent_id);
        let stmt = match parent_id {
            Some(_) => stmt_of(
                "SELECT id, title, content, syntax, created_at, updated_at FROM notes WHERE title = ? AND syntax = ? AND parent_id = ? AND user_id = ?",
                args,
            ),
            None => stmt_of(
                "SELECT id, title, content, syntax, created_at, updated_at FROM notes WHERE title = ? AND syntax = ? AND parent_id IS NULL AND user_id = ?",
                args,
            ),
        };
        let q = query_row(db, stmt, 6);
        note_row(q)
    }

    /// The folder with id `folder_id`.
    pub fn get_folder_meta(&self, db: &mut Db, folder_id: &str) -> (r: FsResult<FolderData>)
        ensures
            extends(*old(db), *final(db)),
            spec_get_folder(self.user_id_view(), folder_id@, calls_since(*old(db), *final(db)), r),
    {
        let args = self.owned_args(folder_id);
        let q = query_row(
            db,
            stmt_of("SELECT id, title, created_at, updated_at FROM folders WHERE id = ? AND user_id = ?", args),
            4,
        );
        folder_row(q)
    }

    /// Appends the folders inside `parent_id` to `entries`, in the order
    /// the query gives them. Rows that cannot be read are left out.
    pub fn collect_folders(&self, db: &mut Db, parent_id: Option<&str>, entries: &mut Vec<DirEntry>) -> (r: FsResult<()>)
        ensures
            extends(*old(db), *final(db)),
            spec_collect_folders(
                self.user_id_view(),
                ostr(parent_id),
                calls_since(*old(db), *final(db)),
                old(entries)@,
                final(entries)@,
                r,
            ),
    {
        let args = self.scoped_args(no_args(), parent_id);
        let stmt = match parent_id {
            Some(_) => stmt_of("SELECT id, title, created_at, updated_at FROM folders WHERE parent_id = ? AND user_id = ?", args),
            None => stmt_of("SELECT id, title, created_at, updated_at FROM folders WHERE parent_id IS NULL AND user_id = ?", args),
        };
        let rows = match query_rows(db, stmt, 4) {
            Ok(rows) => rows,
            Err(_) => {
                return Err(FsError::GeneralFailure);
            },
        };
        let ghost start = entries@;
        let mut i: usize = 0;
        while i < rows.len()
            invariant
                i <= rows@.len(),
                entries@ == start + folder_entries(rows@.take(i as int)),
            decreases rows@.len() - i,
        {
            proof {
                assert(rows@.take(i + 1).drop_last() =~= rows@.take(i as int));
            }
            match &rows[i] {
                Ok(cols) => match folder_from_columns(cols) {
                    Some(f) => entries.push(DirEntry::Folder(f)),
                    None => {},
                },
                Err(_) => {},
            }
            proof {
                assert(entries@ =~= start + folder_entries(rows@.take(i + 1)));
            }
            i = i + 1;
        }
        proof {
            assert(rows@.take(rows@.len() as int) =~= rows@);
        }
        Ok(())
    }

    /// Appends the notes inside `parent_id` to `entries`, in the order the
    /// query gives them. Rows that cannot be read are left out.
    pub fn collect_notes(&self, db: &mut Db, parent_id: Option<&str>, entries: &mut Vec<DirEntry>) -> (r: FsResult<()>)
        ensures
            extends(*old(db), *final(db)),
            spec_collect_notes(
                self.user_id_view(),
                ostr(parent_id),
                calls_since(*old(db), *final(db)),
                old(entries)@,
                final(entries)@,
                r,
            ),
    {
        let args = self.scoped_args(no_args(), parent_id);
        let stmt = match parent_id {
            Some(_) => stmt_of(
                "SELECT id, title, content, syntax, created_at, updated_at FROM notes WHERE parent_id = ? AND user_id = ?",
                args,
            ),
            None => stmt_of(
                "SELECT id, title, content, syntax, created_at, updated_at FROM notes WHERE parent_id IS NULL AND user_id = ?",
                args,
            ),
        };
        let rows = match query_rows(db, stmt, 6) {
            Ok(rows) => rows,
            Err(_) => {
                return Err(FsError::GeneralFailure);
            },
        };
        let ghost start = entries@;
        let mut i: usize = 0;
        while i < rows.len()
            invariant
                i <= rows@.len(),
                entries@ == start + note_entries(rows@.take(i as int)),
            decreases rows@.len() - i,
        {
            proof {
                assert(rows@.take(i + 1).drop_last() =~= rows@.take(i as int));
            }
            match &rows[i] {
                Ok(cols) => match note_from_columns(cols) {
                    Some(n) => entries.push(DirEntry::Note(n)),
                    None => {},
                },
                Err(_) => {},
            }
            proof {
                assert(entries@ =~= start + note_entries(rows@.take(i + 1)));
            }
            i = i + 1;
        }
        proof {
            assert(rows@.take(rows@.len() as int) =~= rows@);
        }
        Ok(())
    }

    /// The folders, then the notes, inside `parent_id`.
    pub fn list_entries(&self, db: &mut Db, parent_id: Option<&str>) -> (r: FsResult<Vec<DirEntry>>)
        ensures
            extends(*old(db), *final(db)),
            spec_list(self.user_id_view(), ostr(parent_id), calls_since(*old(db), *final(db)), r),
    {
        let ghost d0 = *db;
        let mut entries: Vec<DirEntry> = Vec::new();
        let a = self.collect_folders(db, parent_id, &mut entries);
        let ghost d1 = *db;
        let ghost folders = entries@;
        if a.is_err() {
            return Err(FsError::GeneralFailure);
        }
        let b = self.collect_notes(db, parent_id, &mut entries);
        proof {
            lemma_split(d0, d1, *db);
            assert(Seq::<DirEntry>::empty() + folders =~= folders);
        }
        if b.is_err() {
            return Err(FsError::GeneralFailure);
        }
        Ok(entries)
    }

    /// Writes `content` into the note `title` with syntax `syntax` in
    /// `parent_id` at the time `timestamp`: the note's content and time are
    /// replaced when it exists, a note with the id `new_id` is inserted
    /// otherwise. The note's id.
    pub fn store_note_at(
        &self,
        db: &mut Db,
        parent_id: Option<&str>,
        title: &str,
        syntax: &str,
        content: &str,
        timestamp: &str,
        new_id: String,
    ) -> (r: FsResult<String>)
        ensures
            extends(*old(db), *final(db)),
            spec_store_note_at(
                self.user_id_view(),
                ostr(parent_id),
                title@,
                syntax@,
                content@,
                timestamp@,
                new_id,
                calls_since(*old(db), *final(db)),
                r,
            ),
    {
        let ghost d0 = *db;
        let found = self.lookup_note_id(db, parent_id, title, syntax);
        let ghost d1 = *db;
        match found {
            Lookup::Found(id) => {
                let mut args = no_args();
                push_arg(&mut args, text_arg(content));
                push_arg(&mut args, text_arg(timestamp));
                push_arg(&mut args, text_arg(id.as_str()));
                assert(args_view(args@) =~= seq![Some(content@), Some(timestamp@), Some(id@)]);
                let res = execute(db, stmt_of("UPDATE notes SET content = ?, updated_at = ? WHERE id = ?", args));
                proof {
                    lemma_split(d0, d1, *db);
                }
                match res {
                    Ok(_) => Ok(id),
                    Err(_) => Err(FsError::GeneralFailure),
                }
            },
            _ => {
                let mut args = no_args();
                push_arg(&mut args, text_arg(new_id.as_str()));
                push_arg(&mut args, text_arg(title));
                push_arg(&mut args, text_arg(content));
                push_arg(&mut args, text_arg(syntax));
                push_arg(&mut args, opt_arg(parent_id));
                push_arg(&mut args, text_arg(self.user_id.as_str()));
                push_arg(&mut args, text_arg(timestamp));
                push_arg(&mut args, text_arg(timestamp));
                assert(args_view(args@) =~= seq![
                    Some(new_id@),
                    Some(title@),
                    Some(content@),
                    Some(syntax@),
                    ostr(parent_id),
                    Some(self.user_id_view()),
                    Some(timestamp@),
                    Some(timestamp@),
                ]);
                let res = execute(
                    db,
                    stmt_of(
                        "INSERT INTO notes (id, title, content, syntax, parent_id, user_id, created_at, updated_at) VALUES (?, ?, ?, ?, ?, ?, ?, ?)",
                        args,
                    ),
                );
                proof {
                    lemma_split(d0, d1, *db);
                }
                match res {
                    Ok(_) => Ok(new_id),
                    Err(_) => Err(FsError::GeneralFailure),
                }
            },
        }
    }

    /// Writes `content` into the note `title` with syntax `syntax` in
    /// `parent_id`, creating the note (with a fresh id) when there is none,
    /// and stamping it with the current time. The note's id.
    pub fn create_or_update_note(
        &self,
        db: &mut Db,
        parent_id: Option<&str>,
        title: &str,
        syntax: &str,
        content: &str,
    ) -> (r: FsResult<String>)
        ensures
            extends(*old(db), *final(db)),
            spec_store_note(
                self.user_id_view(),
                ostr(parent_id),
                title@,
                syntax@,
                content@,
                calls_since(*old(db), *final(db)),
                r,
            ),
    {
        let timestamp = match current_timestamp() {
            Some(t) => t,
            None => {
                proof {
                    lemma_unchanged(*db);
                }
                return Err(FsError::GeneralFailure);
            },
        };
        let new_id = new_uuid();
        let ghost idv = new_id;
        let r = self.store_note_at(db, parent_id, title, syntax, content, timestamp.as_str(), new_id);
        proof {
            let secs = choose|secs: u64| timestamp@ == timestamp_text(secs as nat);
            assert(Some(timestamp@) == Some(timestamp_text(secs as nat)));
            assert(is_stamp(Some(timestamp@)));
            assert(spec_store_note_at(
                self.user_id_view(),
                ostr(parent_id),
                title@,
                syntax@,
                content@,
                timestamp@,
                idv,
                calls_since(*old(db), *db),
                r,
            ));
        }
        r
    }

    /// Creates the folder `title` in `parent_id` at the time `timestamp`,
    /// with the id `new_id`; fails with `Exists` when a folder of that name
    /// is there already. The new folder's id.
    pub fn create_folder_at(
        &self,
        db: &mut Db,
        parent_id: Option<&str>,
        title: &str,
        timestamp: &str,
        new_id: String,
    ) -> (r: FsResult<String>)
        ensures
            extends(*old(db), *final(db)),
            spec_create_folder_at(
                self.user_id_view(),
                ostr(parent_id),
                title@,
                timestamp@,
                new_id,
                calls_since(*old(db), *final(db)),
                r,
            ),
    {
        let ghost d0 = *db;
        let existing = self.find_folder(db, parent_id, title);
        let ghost d1 = *db;
        match existing {
            Err(e) => Err(e),
            Ok(Some(_)) => Err(FsError::Exists),
            Ok(None) => {
                let mut args = no_args();
                push_arg(&mut args, text_arg(new_id.as_str()));
                push_arg(&mut args, text_arg(title));
                push_arg(&mut args, opt_arg(parent_id));
                push_arg(&mut args, text_arg(self.user_id.as_str()));
                push_arg(&mut args, text_arg(timestamp));
                push_arg(&mut args, text_arg(timestamp));
                assert(args_view(args@) =~= seq![
                    Some(new_id@),
                    Some(title@),
                    ostr(parent_id),
                    Some(self.user_id_view()),
                    Some(timestamp@),
                    Some(timestamp@),
                ]);
                let res = execute(
                    db,
                    stmt_of(
                        "INSERT INTO folders (id, title, parent_id, user_id, created_at, updated_at) VALUES (?, ?, ?, ?, ?, ?)",
                        args,
                    ),
                );
                proof {
                    lemma_split(d0, d1, *db);
                }
                match res {
                    Ok(_) => Ok(new_id),
                    Err(_) => Err(FsError::GeneralFailure),
                }
            },
        }
    }

    /// Creates the folder `title` in `parent_id` at the current time, with a
    /// fresh id; fails with `Exists` when a folder of that name is there
    /// already. The new folder's id.
    pub fn create_folder(&self, db: &mut Db, parent_id: Option<&str>, title: &str) -> (r: FsResult<String>)
        ensures
            extends(*old(db), *final(db)),
            spec_create_folder(self.user_id_view(), ostr(parent_id), title@, calls_since(*old(db), *final(db)), r),
    {
        let timestamp = match current_timestamp() {
            Some(t) => t,
            None => {
                proof {
                    lemma_unchanged(*db);
                }
                return Err(FsError::GeneralFailure);
            },
        };
        let new_id = new_uuid();
        let ghost idv = new_id;
        let r = self.create_folder_at(db, parent_id, title, timestamp.as_str(), new_id);
        proof {
            let secs = choose|secs: u64| timestamp@ == timestamp_text(secs as nat);
            assert(Some(timestamp@) == Some(timestamp_text(secs as nat)));
            assert(is_stamp(Some(timestamp@)));
            assert(spec_create_folder_at(
                self.user_id_view(),
                ostr(parent_id),
                title@,
                timestamp@,
                idv,
                calls_since(*old(db), *db),
                r,
            ));
        }
        r
    }

    /// Deletes the note `title` with syntax `syntax` in `parent_id`.
    pub fn delete_note(&self, db: &mut Db, parent_id: Option<&str>, title: &str, syntax: &str) -> (r: FsResult<()>)
        ensures
            extends(*old(db), *final(db)),
            spec_delete_note(self.user_id_view(), ostr(parent_id), title@, syntax@, calls_since(*old(db), *final(db)), r),
    {
        let ghost d0 = *db;
        let found = self.lookup_note_id(db, parent_id, title, syntax);
        let ghost d1 = *db;
        match found {
            Lookup::Found(id) => {
                let args = self.owned_args(id.as_str());
                let res = execute(db, stmt_of("DELETE FROM notes WHERE id = ? AND user_id = ?", args));
                proof {
                    lemma_split(d0, d1, *db);
                }
                match res {
                    Ok(_) => Ok(()),
                    Err(_) => Err(FsError::GeneralFailure),
                }
            },
            _ => Err(FsError::NotFound),
        }
    }

    /// Whether the folder `folder_id` exists and belongs to this user.
    pub fn folder_owned(&self, db: &mut Db, folder_id: &str) -> (r: bool)
        ensures
            extends(*old(db), *final(db)),
            spec_folder_owned(self.user_id_view(), folder_id@, calls_since(*old(db), *final(db)), r),
    {
        let args = self.owned_args(folder_id);
        let q = query_row(db, stmt_of("SELECT 1 FROM folders WHERE id = ? AND user_id = ?", args), 0);
        match q {
            Ok(_) => true,
            Err(_) => false,
        }
    }

    /// Deletes the folder `folder_id`; the database's cascading foreign keys,
    /// which must be on for the connection, delete what it contains.
    pub fn delete_folder(&self, db: &mut Db, folder_id: &str) -> (r: FsResult<()>)
        requires
            foreign_keys_on(*old(db)),
        ensures
            extends(*old(db), *final(db)),
            spec_delete_folder(self.user_id_view(), folder_id@, calls_since(*old(db), *final(db)), r),
    {
        let ghost d0 = *db;
        let owned = self.folder_owned(db, folder_id);
        let ghost d1 = *db;
        if !owned {
            return Err(FsError::NotFound);
        }
        let args = self.owned_args(folder_id);
        let res = execute(db, stmt_of("DELETE FROM folders WHERE id = ? AND user_id = ?", args));
        proof {
            lemma_split(d0, d1, *db);
        }
        match res {
            Ok(n) => if n == 0 {
                Err(FsError::NotFound)
            } else {
                Ok(())
            },
            Err(_) => Err(FsError::GeneralFailure),
        }
    }

    /// Moves the note `src_title.src_syntax` in `src_parent_id` to
    /// `dst_title.dst_syntax` in `dst_parent_id` at the time `timestamp`,
    /// replacing a different note that is there.
    pub fn rename_note_at(
        &self,
        db: &mut Db,
        src_parent_id: Option<&str>,
        src_title: &str,
        src_syntax: &str,
        dst_parent_id: Option<&str>,
        dst_title: &str,
        dst_syntax: &str,
        timestamp: &str,
    ) -> (r: FsResult<()>)
        ensures
            extends(*old(db), *final(db)),
            spec_rename_note_at(
                self.user_id_view(),
                ostr(src_parent_id),
                src_title@,
                src_syntax@,
                ostr(dst_parent_id),
                dst_title@,
                dst_syntax@,
                timestamp@,
                calls_since(*old(db), *final(db)),
                r,
            ),
    {
        let ghost d0 = *db;
        let src = self.lookup_note_id(db, src_parent_id, src_title, src_syntax);
        let ghost d1 = *db;
        let note_id = match src {
            Lookup::Found(id) => id,
            _ => {
                return Err(FsError::NotFound);
            },
        };
        let dst = self.lookup_note_id(db, dst_parent_id, dst_title, dst_syntax);
        let ghost d2 = *db;
        proof {
            lemma_split(d0, d1, d2);
        }
        let ghost mut d3 = d2;
        match dst {
            Lookup::Found(dst_id) => {
                if !str_eq(dst_id.as_str(), note_id.as_str()) {
                    let args = self.owned_args(dst_id.as_str());
                    let res = execute(db, stmt_of("DELETE FROM notes WHERE id = ? AND user_id = ?", args));
                    proof {
                        lemma_split(d0, d2, *db);
                        d3 = *db;
                    }
                    if res.is_err() {
                        return Err(FsError::GeneralFailure);
                    }
                }
            },
            _ => {},
        }
        let mut args = no_args();
        push_arg(&mut args, text_arg(dst_title));
        push_arg(&mut args, text_arg(dst_syntax));
        push_arg(&mut args, opt_arg(dst_parent_id));
        push_arg(&mut args, text_arg(timestamp));
        push_arg(&mut args, text_arg(note_id.as_str()));
        push_arg(&mut args, text_arg(self.user_id.as_str()));
        assert(args_view(args@) =~= seq![
            Some(dst_title@),
            Some(dst_syntax@),
            ostr(dst_parent_id),
            Some(timestamp@),
            Some(note_id@),
            Some(self.user_id_view()),
        ]);
        let res = execute(
            db,
            stmt_of(
                "UPDATE notes SET title = ?, syntax = ?, parent_id = ?, updated_at = ? WHERE id = ? AND user_id = ?",
                args,
            ),
        );
        proof {
            lemma_split(d0, d3, *db);
        }
        match res {
            Ok(_) => Ok(()),
            Err(_) => Err(FsError::GeneralFailure),
        }
    }

    /// Moves the note `src_title.src_syntax` in `src_parent_id` to
    /// `dst_title.dst_syntax` in `dst_parent_id` at the current time,
    /// replacing a different note that is there.
    pub fn rename_note(
        &self,
        db: &mut Db,
        src_parent_id: Option<&str>,
        src_title: &str,
        src_syntax: &str,
        dst_parent_id: Option<&str>,
        dst_title: &str,
        dst_syntax: &str,
    ) -> (r: FsResult<()>)
        ensures
            extends(*old(db), *final(db)),
            spec_rename_note(
                self.user_id_view(),
                ostr(src_parent_id),
                src_title@,
                src_syntax@,
                ostr(dst_parent_id),
                dst_title@,
                dst_syntax@,
                calls_since(*old(db), *final(db)),
                r,
            ),
    {
        let timestamp = match current_timestamp() {
            Some(t) => t,
            None => {
                proof {
                    lemma_unchanged(*db);
                }
                return Err(FsError::GeneralFailure);
            },
        };
        let r = self.rename_note_at(
            db,
            src_parent_id,
            src_title,
            src_syntax,
            dst_parent_id,
            dst_title,
            dst_syntax,
            timestamp.as_str(),
        );
        proof {
            let secs = choose|secs: u64| timestamp@ == timestamp_text(secs as nat);
            assert(Some(timestamp@) == Some(timestamp_text(secs as nat)));
            assert(is_stamp(Some(timestamp@)));
            assert(spec_rename_note_at(
                self.user_id_view(),
                ostr(src_parent_id),
                src_title@,
                src_syntax@,
                ostr(dst_parent_id),
                dst_title@,
                dst_syntax@,
                timestamp@,
                calls_since(*old(db), *db),
                r,
            ));
        }
        r
    }

    /// Moves the folder `folder_id` into `new_parent_id` under the name
    /// `new_title`. Refused with `Exists` when another folder of that name is
    /// there, and with `Forbidden` when the target is the folder itself or
    /// lies inside it. The move is stamped with `timestamp`.
    pub fn rename_folder_at(
        &self,
        db: &mut Db,
        folder_id: &str,
        new_parent_id: Option<&str>,
        new_title: &str,
        timestamp: &str,
    ) -> (r: FsResult<()>)
        ensures
            extends(*old(db), *final(db)),
            spec_rename_folder_at(
                self.user_id_view(),
                folder_id@,
                ostr(new_parent_id),
                new_title@,
                timestamp@,
                calls_since(*old(db), *final(db)),
                r,
            ),
    {
        let ghost d0 = *db;
        let owned = self.folder_owned(db, folder_id);
        let ghost d1 = *db;
        if !owned {
            return Err(FsError::NotFound);
        }
        let existing = self.find_folder(db, new_parent_id, new_title);
        let ghost d2 = *db;
        proof {
            lemma_split(d0, d1, d2);
            lemma_unchanged(d2);
        }
        let existing = match existing {
            Ok(e) => e,
            Err(e) => {
                return Err(e);
            },
        };
        match existing {
            Some(dst_id) => {
                if !str_eq(dst_id.as_str(), folder_id) {
                    return Err(FsError::Exists);
                }
            },
            None => {},
        }
        let ghost mut d3 = d2;
        match new_parent_id {
            Some(new_pid) => {
                if str_eq(new_pid, folder_id) {
                    return Err(FsError::Forbidden);
                }
                let desc = self.is_descendant(db, new_pid, folder_id);
                proof {
                    lemma_split(d0, d2, *db);
                    lemma_unchanged(*db);
                    lemma_split(d2, *db, *db);
                    d3 = *db;
                }
                match desc {
                    Ok(true) => {
                        return Err(FsError::Forbidden);
                    },
                    Ok(false) => {},
                    Err(e) => {
                        return Err(e);
                    },
                }
            },
            None => {},
        }
        let mut args = no_args();
        push_arg(&mut args, text_arg(new_title));
        push_arg(&mut args, opt_arg(new_parent_id));
        push_arg(&mut args, text_arg(timestamp));
        push_arg(&mut args, text_arg(folder_id));
        push_arg(&mut args, text_arg(self.user_id.as_str()));
        assert(args_view(args@) =~= seq![
            Some(new_title@),
            ostr(new_parent_id),
            Some(timestamp@),
            Some(folder_id@),
            Some(self.user_id_view()),
        ]);
        let res = execute(
            db,
            stmt_of("UPDATE folders SET title = ?, parent_id = ?, updated_at = ? WHERE id = ? AND user_id = ?", args),
        );
        proof {
            lemma_split(d2, d3, *db);
            lemma_split(d0, d2, *db);
        }
        match res {
            Ok(_) => Ok(()),
            Err(_) => Err(FsError::GeneralFailure),
        }
    }

    /// Moves the folder `folder_id` into `new_parent_id` under the name
    /// `new_title` at the current time, with the refusals of
    /// `rename_folder_at`.
    pub fn rename_folder(&self, db: &mut Db, folder_id: &str, new_parent_id: Option<&str>, new_title: &str) -> (r:
        FsResult<()>)
        ensures
            extends(*old(db), *final(db)),
            spec_rename_folder(
                self.user_id_view(),
                folder_id@,
                ostr(new_parent_id),
                new_title@,
                calls_since(*old(db), *final(db)),
                r,
            ),
    {
        let timestamp = match current_timestamp() {
            Some(t) => t,
            None => {
                proof {
                    lemma_unchanged(*db);
                }
                return Err(FsError::GeneralFailure);
            },
        };
        let r = self.rename_folder_at(db, folder_id, new_parent_id, new_title, timestamp.as_str());
        proof {
            let secs = choose|secs: u64| timestamp@ == timestamp_text(secs as nat);
            assert(Some(timestamp@) == Some(timestamp_text(secs as nat)));
            assert(is_stamp(Some(timestamp@)));
            assert(spec_rename_folder_at(
                self.user_id_view(),
                folder_id@,
                ostr(new_parent_id),
                new_title@,
                timestamp@,
                calls_since(*old(db), *db),
                r,
            ));
        }
        r
    }

    /// Walks up from `current` through parent links for at most `budget`
    /// steps, looking for `ancestor_id`.
    fn ancestry(&self, db: &mut Db, current: Option<String>, ancestor_id: &str, budget: u64) -> (r: bool)
        ensures
            extends(*old(db), *final(db)),
            spec_ancestry(
                self.user_id_view(),
                ostring(current),
                ancestor_id@,
                budget as nat,
                calls_since(*old(db), *final(db)),
                r,
            ),
        decreases budget,
    {
        if budget == 0 {
            proof {
                lemma_unchanged(*db);
            }
            return false;
        }
        let id = match current {
            Some(id) => id,
            None => {
                proof {
                    lemma_unchanged(*db);
                }
                return false;
            },
        };
        if str_eq(id.as_str(), ancestor_id) {
            proof {
                lemma_unchanged(*db);
            }
            return true;
        }
        let ghost d0 = *db;
        let args = self.owned_args(id.as_str());
        let q = query_row(db, stmt_of("SELECT parent_id FROM folders WHERE id = ? AND user_id = ?", args), 1);
        let ghost d1 = *db;
        let next = match q {
            Ok(cols) => column_text(&cols, 0),
            Err(_) => None,
        };
        let r = self.ancestry(db, next, ancestor_id, budget - 1);
        proof {
            lemma_split(d0, d1, *db);
        }
        r
    }

    /// Whether `potential_descendant` is `ancestor_id` or lies inside it,
    /// following parent links upwards. A folder whose parent cannot be read
    /// ends the walk.
    pub fn is_descendant(&self, db: &mut Db, potential_descendant: &str, ancestor_id: &str) -> (r: FsResult<bool>)
        ensures
            extends(*old(db), *final(db)),
            spec_descendant(
                self.user_id_view(),
                potential_descendant@,
                ancestor_id@,
                calls_since(*old(db), *final(db)),
                r,
            ),
    {
        Ok(self.ancestry(db, Some(potential_descendant.to_owned()), ancestor_id, u64::MAX))
    }

    /// Follows the folder names `comps[i..upto]` down from `parent`.
    fn walk_from(&self, db: &mut Db, comps: &Vec<String>, i: usize, upto: usize, parent: Option<String>) -> (r: FsResult<
        Option<String>,
    >)
        requires
            i <= upto <= comps@.len(),
        ensures
            extends(*old(db), *final(db)),
            spec_walk(
                self.user_id_view(),
                names(comps@),
                i as int,
                upto as int,
                ostring(parent),
                calls_since(*old(db), *final(db)),
                ores(r),
            ),
        decreases upto - i,
    {
        if i >= upto {
            proof {
                lemma_unchanged(*db);
            }
            return Ok(parent);
        }
        let ghost d0 = *db;
        let found = self.find_folder(db, opt_str(&parent), comps[i].as_str());
        let ghost d1 = *db;
        proof {
            assert(names(comps@)[i as int] == comps@[i as int]@);
        }
        match found {
            Ok(Some(id)) => {
                let r = self.walk_from(db, comps, i + 1, upto, Some(id));
                proof {
                    lemma_split(d0, d1, *db);
                }
                r
            },
            Ok(None) => Err(FsError::NotFound),
            Err(e) => Err(e),
        }
    }

    /// The folder reached by following the folder names `comps[..upto]`
    /// from the top: `None` for the top itself, `NotFound` where a name is
    /// missing.
    pub fn walk_folders(&self, db: &mut Db, comps: &Vec<String>, upto: usize) -> (r: FsResult<Option<String>>)
        requires
            upto <= comps@.len(),
        ensures
            extends(*old(db), *final(db)),
            spec_walk(
                self.user_id_view(),
                names(comps@),
                0,
                upto as int,
                None,
                calls_since(*old(db), *final(db)),
                ores(r),
            ),
    {
        self.walk_from(db, comps, 0, upto, None)
    }

    /// What the name `name` in `parent_id` is as a folder.
    fn folder_named(&self, db: &mut Db, parent_id: Option<&str>, name: &str) -> (r: FsResult<ResolvedPath>)
        ensures
            extends(*old(db), *final(db)),
            spec_folder_named(self.user_id_view(), ostr(parent_id), name@, calls_since(*old(db), *final(db)), r),
    {
        match self.find_folder(db, parent_id, name) {
            Ok(Some(id)) => Ok(ResolvedPath::Folder { id }),
            Ok(None) => Err(FsError::NotFound),
            Err(e) => Err(e),
        }
    }

    /// What the last name of a path is in the folder `parent`: a note when
    /// it parses as `title.syntax` and such a note exists, a folder of that
    /// name otherwise.
    fn resolve_last(&self, db: &mut Db, parent: Option<String>, last: &str) -> (r: FsResult<ResolvedPath>)
        ensures
            extends(*old(db), *final(db)),
            spec_resolve_in(self.user_id_view(), ostring(parent), last@, calls_since(*old(db), *final(db)), r),
    {
        let ghost d0 = *db;
        match parse_filename(last) {
            Some((title, syntax)) => {
                let ex = self.note_exists(db, opt_str(&parent), title.as_str(), syntax.as_str());
                let ghost d1 = *db;
                match ex {
                    Err(e) => Err(e),
                    Ok(true) => Ok(ResolvedPath::Note { parent_id: parent, title, syntax }),
                    Ok(false) => {
                        let r = self.folder_named(db, opt_str(&parent), last);
                        proof {
                            lemma_split(d0, d1, *db);
                        }
                        r
                    },
                }
            },
            None => self.folder_named(db, opt_str(&parent), last),
        }
    }

    /// What a URL path names: the top, a folder, or a note (when the last
    /// name parses as `title.syntax` and such a note exists; a folder of that
    /// name otherwise).
    pub fn resolve_path(&self, db: &mut Db, path: &str) -> (r: FsResult<ResolvedPath>)
        ensures
            extends(*old(db), *final(db)),
            spec_resolve(self.user_id_view(), path@, calls_since(*old(db), *final(db)), r),
    {
        let comps = match url_path_components(path) {
            None => {
                proof {
                    lemma_unchanged(*db);
                }
                return Ok(ResolvedPath::Root);
            },
            Some(c) => c,
        };
        let n = comps.len();
        let ghost d0 = *db;
        let w = self.walk_folders(db, &comps, n - 1);
        let ghost d1 = *db;
        let ghost wv = ores(w);
        let r = match w {
            Err(e) => {
                proof {
                    lemma_unchanged(*db);
                }
                Err(e)
            },
            Ok(parent) => self.resolve_last(db, parent, comps[n - 1].as_str()),
        };
        proof {
            lemma_split(d0, d1, *db);
            let c = spec_path_components(path@).unwrap();
            assert(names(comps@) =~= c);
            assert(spec_walk(self.user_id_view(), c, 0, c.len() - 1, None, calls_since(d0, d1), wv));
        }
        r
    }

    /// The empty, writable file over the note `note_id` just created at the
    /// time `timestamp`.
    pub fn file_over_new_note(
        &self,
        note_id: String,
        title: String,
        syntax: String,
        parent_id: Option<String>,
        timestamp: String,
    ) -> (r: SqliteDavFile)
        ensures
            created_over(
                r,
                note_id,
                title@,
                syntax@,
                ostring(parent_id),
                (self.db_path_view(), self.user_id_view()),
                timestamp@,
            ),
    {
        let created_at = Some(timestamp.clone());
        let note = NoteData { id: note_id, title, content: String::new(), syntax, created_at, updated_at: Some(timestamp) };
        SqliteDavFile::new_writable(note, self.duplicate(), parent_id, true)
    }

    /// Creates the note a missing path names, empty, and opens it.
    fn create_file(&self, db: &mut Db, path: &str) -> (r: FsResult<SqliteDavFile>)
        ensures
            extends(*old(db), *final(db)),
            spec_create_file(
                (self.db_path_view(), self.user_id_view()),
                path@,
                calls_since(*old(db), *final(db)),
                r,
            ),
    {
        let comps = match url_path_components(path) {
            None => {
                proof {
                    lemma_unchanged(*db);
                }
                return Err(FsError::Forbidden);
            },
            Some(c) => c,
        };
        let n = comps.len();
        let (title, syntax) = match parse_filename(comps[n - 1].as_str()) {
            Some(p) => p,
            None => {
                proof {
                    lemma_unchanged(*db);
                    let c = spec_path_components(path@).unwrap();
                    assert(names(comps@) =~= c);
                    assert(c.last() == comps@[n - 1]@);
                }
                return Err(FsError::Forbidden);
            },
        };
        let ghost d0 = *db;
        let w = self.walk_folders(db, &comps, n - 1);
        let ghost d1 = *db;
        let ghost wv = ores(w);
        proof {
            let c = spec_path_components(path@).unwrap();
            let fsv = (self.db_path_view(), self.user_id_view());
            assert(names(comps@) =~= c);
            assert(c.last() == comps@[n - 1]@);
            assert(spec_walk(fsv.1, c, 0, c.len() - 1, None, calls_since(d0, d1), wv));
        }
        match w {
            Err(e) => {
                proof {
                    lemma_unchanged(*db);
                    lemma_split(d0, d1, *db);
                }
                Err(e)
            },
            Ok(parent_id) => {
                let res = self.store_new_file(db, parent_id, title, syntax);
                proof {
                    lemma_split(d0, d1, *db);
                    let c = spec_path_components(path@).unwrap();
                    let fsv = (self.db_path_view(), self.user_id_view());
                    assert(names(comps@) =~= c);
                    assert(c.last() == comps@[n - 1]@);
                    let log = calls_since(d0, *db);
                    let l1 = calls_since(d0, d1);
                    assert(log.skip(l1.len() as int) == calls_since(d1, *db));
                    assert(spec_walk(fsv.1, c, 0, c.len() - 1, None, l1, wv));
                    assert(prefix_of(l1, log));
                    assert(spec_create_file(fsv, path@, log, res));
                }
                res
            },
        }
    }

    /// Stores the empty note `title.syntax` in `parent_id` at the current
    /// time and opens it.
    fn store_new_file(&self, db: &mut Db, parent_id: Option<String>, title: String, syntax: String) -> (r:
        FsResult<SqliteDavFile>)
        ensures
            extends(*old(db), *final(db)),
            stored_file(
                (self.db_path_view(), self.user_id_view()),
                ostring(parent_id),
                title@,
                syntax@,
                calls_since(*old(db), *final(db)),
                r,
            ),
    {
        let timestamp = match current_timestamp() {
            Some(t) => t,
            None => {
                proof {
                    lemma_unchanged(*db);
                }
                return Err(FsError::GeneralFailure);
            },
        };
        let new_id = new_uuid();
        let ghost idv = new_id;
        let ghost pv = ostring(parent_id);
        let ghost tv = title@;
        let ghost xv = syntax@;
        let empty = String::new();
        let stored = self.store_note_at(
            db,
            opt_str(&parent_id),
            title.as_str(),
            syntax.as_str(),
            empty.as_str(),
            timestamp.as_str(),
            new_id,
        );
        let ghost sv = stored;
        let res = match stored {
            Err(e) => Err(e),
            Ok(note_id) => Ok(self.file_over_new_note(note_id, title, syntax, parent_id, timestamp)),
        };
        proof {
            let secs = choose|secs: u64| timestamp@ == timestamp_text(secs as nat);
            assert(Some(timestamp@) == Some(timestamp_text(secs as nat)));
            assert(is_stamp(Some(timestamp@)));
            let fsv = (self.db_path_view(), self.user_id_view());
            assert(spec_store_note_at(
                fsv.1,
                pv,
                tv,
                xv,
                Seq::empty(),
                timestamp@,
                idv,
                calls_since(*old(db), *db),
                sv,
            ));
        }
        res
    }

    /// Opens the file at `path`. An existing note opens writable when the
    /// client writes or appends, read-only otherwise; a missing one is
    /// created empty (in an existing folder) when the client asks for
    /// creation. The top and folders cannot be opened as files.
    pub fn open(&self, db: &mut Db, path: &str, options: OpenFlags) -> (r: FsResult<SqliteDavFile>)
        ensures
            extends(*old(db), *final(db)),
            spec_open(
                (self.db_path_view(), self.user_id_view()),
                path@,
                options,
                calls_since(*old(db), *final(db)),
                r,
            ),
    {
        let ghost d0 = *db;
        let rp = self.resolve_path(db, path);
        let ghost d1 = *db;
        let ghost rpv = rp;
        let r = match rp {
            Ok(ResolvedPath::Note { parent_id, title, syntax }) => {
                let got = self.get_note(db, opt_str(&parent_id), title.as_str(), syntax.as_str());
                proof {
                    let fsv = (self.db_path_view(), self.user_id_view());
                    assert(spec_get_note(fsv.1, ostring(parent_id), title@, syntax@, calls_since(d1, *db), got));
                }
                let ghost gv = got;
                let ghost pv = ostring(parent_id);
                let res = match got {
                    Err(e) => Err(e),
                    Ok(note) => {
                        let ghost nv = note;
                        let f = if options.write || options.append {
                            SqliteDavFile::new_writable(note, self.duplicate(), parent_id, options.truncate)
                        } else {
                            SqliteDavFile::new(note, self.duplicate())
                        };
                        assert(opened_over(f, nv, pv, options, (self.db_path_view(), self.user_id_view())));
                        Ok(f)
                    },
                };
                assert(gv matches Ok(note) ==> res matches Ok(f) && opened_over(f, note, pv, options, (self.db_path_view(), self.user_id_view())));
                assert(open_after((self.db_path_view(), self.user_id_view()), path@, options, rpv, calls_since(d1, *db), res));
                res
            },
            Ok(_) => {
                proof {
                    lemma_unchanged(*db);
                }
                Err(FsError::Forbidden)
            },
            Err(FsError::NotFound) => {
                if !(options.create || options.create_new) {
                    proof {
                        lemma_unchanged(*db);
                    }
                    Err(FsError::NotFound)
                } else {
                    let res = self.create_file(db, path);
                    assert(open_after((self.db_path_view(), self.user_id_view()), path@, options, rpv, calls_since(d1, *db), res));
                    res
                }
            },
            Err(e) => {
                proof {
                    lemma_unchanged(*db);
                }
                Err(e)
            },
        };
        proof {
            lemma_split(d0, d1, *db);
            let rest = calls_since(d0, *db).skip(calls_since(d0, d1).len() as int);
            assert(rest == calls_since(d1, *db));
            let fsv = (self.db_path_view(), self.user_id_view());
            assert(spec_resolve(fsv.1, path@, calls_since(d0, d1), rpv));
            assert(open_after(
                (self.db_path_view(), self.user_id_view()),
                path@,
                options,
                rpv,
                rest,
                r,
            ));
        }
        r
    }

    /// The listing of the folder `parent_id`: its folders, then its notes.
    fn listing(&self, db: &mut Db, parent_id: Option<&str>) -> (r: FsResult<Vec<DirListing>>)
        ensures
            extends(*old(db), *final(db)),
            listed(self.user_id_view(), ostr(parent_id), calls_since(*old(db), *final(db)), r),
    {
        let l = self.list_entries(db, parent_id);
        let ghost lv = l;
        match l {
            Err(e) => Err(e),
            Ok(entries) => {
                let mut out: Vec<DirListing> = Vec::new();
                let mut i: usize = 0;
                while i < entries.len()
                    invariant
                        i <= entries@.len(),
                        out@.len() == i,
                        forall|k: int| 0 <= k < i ==> spec_listing_matches(entries@[k], #[trigger] out@[k]),
                    decreases entries@.len() - i,
                {
                    let l = listing_of(&entries[i]);
                    out.push(l);
                    i = i + 1;
                }
                Ok(out)
            },
        }
    }

    /// The listing of the folder at `path`: its folders, then its notes.
    /// A note is not a folder and cannot be listed.
    pub fn read_dir(&self, db: &mut Db, path: &str) -> (r: FsResult<Vec<DirListing>>)
        ensures
            extends(*old(db), *final(db)),
            spec_read_dir(self.user_id_view(), path@, calls_since(*old(db), *final(db)), r),
    {
        let ghost d0 = *db;
        let rp = self.resolve_path(db, path);
        let ghost d1 = *db;
        let ghost rpv = rp;
        let r = match rp {
            Err(e) => {
                proof {
                    lemma_unchanged(*db);
                }
                Err(e)
            },
            Ok(ResolvedPath::Note { .. }) => {
                proof {
                    lemma_unchanged(*db);
                }
                Err(FsError::Forbidden)
            },
            Ok(ResolvedPath::Root) => self.listing(db, None),
            Ok(ResolvedPath::Folder { id }) => self.listing(db, Some(id.as_str())),
        };
        proof {
            lemma_split(d0, d1, *db);
            assert(spec_resolve(self.user_id_view(), path@, calls_since(d0, d1), rpv));
        }
        r
    }

    /// The metadata of what `path` names: the top and folders are
    /// directories of length 0, a note a file as long as its content. The
    /// top's times are the current time.
    pub fn metadata(&self, db: &mut Db, path: &str) -> (r: FsResult<EntryMeta>)
        ensures
            extends(*old(db), *final(db)),
            spec_metadata(self.user_id_view(), path@, calls_since(*old(db), *final(db)), r),
    {
        let ghost d0 = *db;
        let rp = self.resolve_path(db, path);
        let ghost d1 = *db;
        let ghost rpv = rp;
        let r = match rp {
            Err(e) => {
                proof {
                    lemma_unchanged(*db);
                }
                Err(e)
            },
            Ok(ResolvedPath::Root) => {
                proof {
                    lemma_unchanged(*db);
                }
                Ok(EntryMeta { is_dir: true, len: 0, modified: None, created: None })
            },
            Ok(ResolvedPath::Folder { id }) => {
                let got = self.get_folder_meta(db, id.as_str());
                proof {
                    assert(spec_get_folder(self.user_id_view(), id@, calls_since(d1, *db), got));
                }
                match got {
                    Ok(f) => Ok(folder_meta(&f)),
                    Err(e) => Err(e),
                }
            },
            Ok(ResolvedPath::Note { parent_id, title, syntax }) => {
                let got = self.get_note(db, opt_str(&parent_id), title.as_str(), syntax.as_str());
                proof {
                    assert(spec_get_note(
                        self.user_id_view(),
                        ostring(parent_id),
                        title@,
                        syntax@,
                        calls_since(d1, *db),
                        got,
                    ));
                }
                match got {
                    Ok(n) => Ok(note_meta(&n)),
                    Err(e) => Err(e),
                }
            },
        };
        proof {
            lemma_split(d0, d1, *db);
            assert(spec_resolve(self.user_id_view(), path@, calls_since(d0, d1), rpv));
        }
        r
    }

    /// The WebDAV properties of `path`: none are kept, for existing and
    /// missing paths alike; only a database failure is reported.
    pub fn get_props(&self, db: &mut Db, path: &str) -> (r: FsResult<()>)
        ensures
            extends(*old(db), *final(db)),
            spec_get_props(self.user_id_view(), path@, calls_since(*old(db), *final(db)), r),
    {
        let rp = self.resolve_path(db, path);
        let ghost rpv = rp;
        match rp {
            Ok(_) => Ok(()),
            Err(FsError::NotFound) => Ok(()),
            Err(e) => Err(e),
        }
    }

    /// The metadata of `path` when it names the top, which needs no
    /// database: what `metadata` gives there. `None` for any other path.
    pub fn top_metadata(&self, path: &str) -> (r: Option<EntryMeta>)
        ensures
            r is Some <==> spec_path_components(path@) is None,
            r matches Some(m) ==> m == root_meta(),
    {
        match url_path_components(path) {
            None => Some(EntryMeta { is_dir: true, len: 0, modified: None, created: None }),
            Some(_) => None,
        }
    }

    /// Opening `path` as a file when it names the top, which needs no
    /// database: refused with `Forbidden`, as `open` refuses it. `None` for
    /// any other path.
    pub fn top_open(&self, path: &str) -> (r: Option<FsError>)
        ensures
            r is Some <==> spec_path_components(path@) is None,
            r matches Some(e) ==> e == FsError::Forbidden,
    {
        match url_path_components(path) {
            None => Some(FsError::Forbidden),
            Some(_) => None,
        }
    }

    /// Whether `path` names the top, whose properties (none are kept) need
    /// no database: `get_props` gives `Ok(())` there.
    pub fn names_top(&self, path: &str) -> (r: bool)
        ensures
            r == (spec_path_components(path@) is None),
    {
        url_path_components(path).is_none()
    }

    /// Making a directory over WebDAV: folder creation is not supported,
    /// so every path is refused with `Forbidden` and nothing is handed to
    /// the database; notes can only be created inside existing folders.
    pub fn create_dir(&self, path: &str) -> (r: FsResult<()>)
        ensures
            r == Err::<(), FsError>(FsError::Forbidden),
    {
        Err(FsError::Forbidden)
    }

    /// Deletes the note at `path`; folders and the top are refused.
    pub fn remove_file(&self, db: &mut Db, path: &str) -> (r: FsResult<()>)
        ensures
            extends(*old(db), *final(db)),
            spec_remove_file(self.user_id_view(), path@, calls_since(*old(db), *final(db)), r),
    {
        let ghost d0 = *db;
        let rp = self.resolve_path(db, path);
        let ghost d1 = *db;
        let ghost rpv = rp;
        let r = match rp {
            Ok(ResolvedPath::Note { parent_id, title, syntax }) => self.delete_note(
                db,
                opt_str(&parent_id),
                title.as_str(),
                syntax.as_str(),
            ),
            Ok(_) => {
                proof {
                    lemma_unchanged(*db);
                }
                Err(FsError::Forbidden)
            },
            Err(e) => {
                proof {
                    lemma_unchanged(*db);
                }
                Err(e)
            },
        };
        proof {
            lemma_split(d0, d1, *db);
            assert(spec_resolve(self.user_id_view(), path@, calls_since(d0, d1), rpv));
        }
        r
    }

    /// Deletes the folder at `path` with all it contains; notes and the top
    /// are refused.
    pub fn remove_dir(&self, db: &mut Db, path: &str) -> (r: FsResult<()>)
        requires
            foreign_keys_on(*old(db)),
        ensures
            extends(*old(db), *final(db)),
            spec_remove_dir(self.user_id_view(), path@, calls_since(*old(db), *final(db)), r),
    {
        let ghost d0 = *db;
        let rp = self.resolve_path(db, path);
        let ghost d1 = *db;
        let ghost rpv = rp;
        let r = match rp {
            Ok(ResolvedPath::Folder { id }) => {
                proof {
                    lemma_foreign_keys_stay_on(d0, d1);
                }
                self.delete_folder(db, id.as_str())
            },
            Ok(_) => {
                proof {
                    lemma_unchanged(*db);
                }
                Err(FsError::Forbidden)
            },
            Err(e) => {
                proof {
                    lemma_unchanged(*db);
                }
                Err(e)
            },
        };
        proof {
            lemma_split(d0, d1, *db);
            assert(spec_resolve(self.user_id_view(), path@, calls_since(d0, d1), rpv));
        }
        r
    }

    /// Moves what `from` names to `to`: a note to the file name `to` ends
    /// in (which must have an extension), a folder under the last name of
    /// `to`. The destination's parent folders must exist; the top can be
    /// neither moved nor replaced.
    pub fn rename(&self, db: &mut Db, from: &str, to: &str) -> (r: FsResult<()>)
        ensures
            extends(*old(db), *final(db)),
            spec_rename(self.user_id_view(), from@, to@, calls_since(*old(db), *final(db)), r),
    {
        let comps = match url_path_components(to) {
            None => {
                proof {
                    lemma_unchanged(*db);
                }
                return Err(FsError::Forbidden);
            },
            Some(c) => c,
        };
        let n = comps.len();
        let ghost d0 = *db;
        let w = self.walk_folders(db, &comps, n - 1);
        let ghost d1 = *db;
        let ghost wv = ores(w);
        proof {
            let c = spec_path_components(to@).unwrap();
            assert(names(comps@) =~= c);
            assert(spec_walk(self.user_id_view(), c, 0, c.len() - 1, None, calls_since(d0, d1), wv));
        }
        match w {
            Err(e) => {
                proof {
                    lemma_unchanged(*db);
                    lemma_split(d0, d1, *db);
                }
                Err(e)
            },
            Ok(dst_parent) => {
                let rp = self.resolve_path(db, from);
                let ghost d2 = *db;
                let ghost rpv = rp;
                let r = match rp {
                    Err(e) => {
                        proof {
                            lemma_unchanged(*db);
                        }
                        Err(e)
                    },
                    Ok(ResolvedPath::Note { parent_id, title, syntax }) => {
                        match parse_filename(comps[n - 1].as_str()) {
                            None => {
                                proof {
                                    lemma_unchanged(*db);
                                }
                                Err(FsError::Forbidden)
                            },
                            Some((dst_title, dst_syntax)) => self.rename_note(
                                db,
                                opt_str(&parent_id),
                                title.as_str(),
                                syntax.as_str(),
                                opt_str(&dst_parent),
                                dst_title.as_str(),
                                dst_syntax.as_str(),
                            ),
                        }
                    },
                    Ok(ResolvedPath::Folder { id }) => self.rename_folder(
                        db,
                        id.as_str(),
                        opt_str(&dst_parent),
                        comps[n - 1].as_str(),
                    ),
                    Ok(ResolvedPath::Root) => {
                        proof {
                            lemma_unchanged(*db);
                        }
                        Err(FsError::Forbidden)
                    },
                };
                proof {
                    lemma_split(d1, d2, *db);
                    lemma_split(d0, d1, *db);
                    assert(spec_resolve(self.user_id_view(), from@, calls_since(d1, d2), rpv));
                }
                r
            },
        }
    }
}
// ---------------------------------------------------------------------------
// Every operation works on the configured user's rows only.

/// Whether a statement binds `user` as one of its parameters.
pub open spec fn binds_user(c: Call, user: Seq<char>) -> bool {
    params(c).contains(Some(user))
}

/// Whether the statement at `k` of `log` is confined to `user`'s rows: it
/// binds the user, or it is the update of a note's content by the id that
/// the statement before it, itself bound to the user, found.
pub open spec fn scoped_at(log: Seq<Call>, k: int, user: Seq<char>) -> bool {
    ||| binds_user(log[k], user)
    ||| {
        &&& k >= 1
        &&& binds_user(log[k - 1], user)
        &&& log[k].0.sql@ == sql_update_content()
        &&& spec_lookup(row_answer(log[k - 1])) matches Lookup::Found(id)
        &&& params(log[k]).len() == 3
        &&& params(log[k])[2] == Some(id@)
    }
}

/// Whether every statement of `log` is confined to `user`'s rows.
pub open spec fn user_scoped(log: Seq<Call>, user: Seq<char>) -> bool {
    forall|k: int| 0 <= k < log.len() ==> #[trigger] scoped_at(log, k, user)
}

proof fn lemma_scoped_binds(c: Call, sql: Seq<char>, first: Seq<Option<Seq<char>>>, parent: Option<Seq<char>>, user: Seq<char>)
    requires
        is_stmt(c.0, sql, scoped(first, parent, user)),
    ensures
        binds_user(c, user),
{
    let s = scoped(first, parent, user);
    assert(s[s.len() - 1] == Some(user));
}

proof fn lemma_owned_binds(c: Call, sql: Seq<char>, id: Seq<char>, user: Seq<char>)
    requires
        is_stmt(c.0, sql, seq![Some(id), Some(user)]),
    ensures
        binds_user(c, user),
{
    assert(seq![Some(id), Some(user)][1] == Some(user));
}

proof fn lemma_binds_at(c: Call, k: int, user: Seq<char>)
    requires
        0 <= k < params(c).len(),
        params(c)[k] == Some(user),
    ensures
        binds_user(c, user),
{
}

proof fn lemma_scoped_empty(log: Seq<Call>, user: Seq<char>)
    requires
        log.len() == 0,
    ensures
        user_scoped(log, user),
{
}

proof fn lemma_scoped_one(log: Seq<Call>, user: Seq<char>)
    requires
        log.len() == 1,
        binds_user(log[0], user),
    ensures
        user_scoped(log, user),
{
    assert(scoped_at(log, 0, user));
}

proof fn lemma_scoped_two(log: Seq<Call>, user: Seq<char>)
    requires
        log.len() == 2,
        binds_user(log[0], user),
        binds_user(log[1], user),
    ensures
        user_scoped(log, user),
{
    assert(scoped_at(log, 0, user));
    assert(scoped_at(log, 1, user));
}

/// Confinement is kept when two confined logs follow one another.
proof fn lemma_scoped_concat(l1: Seq<Call>, log: Seq<Call>, user: Seq<char>)
    requires
        prefix_of(l1, log),
        user_scoped(l1, user),
        user_scoped(log.skip(l1.len() as int), user),
    ensures
        user_scoped(log, user),
{
    let rest = log.skip(l1.len() as int);
    assert forall|k: int| 0 <= k < log.len() implies #[trigger] scoped_at(log, k, user) by {
        if k < l1.len() {
            assert(log[k] == l1[k]);
            assert(scoped_at(l1, k, user));
            if k >= 1 {
                assert(log[k - 1] == l1[k - 1]);
            }
        } else {
            let j = k - l1.len();
            assert(log[k] == rest[j]);
            assert(scoped_at(rest, j, user));
            if j >= 1 {
                assert(log[k - 1] == rest[j - 1]);
            }
        }
    }
}

proof fn lemma_skip_one(log: Seq<Call>, user: Seq<char>)
    requires
        log.len() >= 1,
        binds_user(log[0], user),
        user_scoped(log.skip(1), user),
    ensures
        user_scoped(log, user),
{
    lemma_scoped_one(log.take(1), user);
    assert(log.take(1)[0] == log[0]);
    assert(prefix_of(log.take(1), log));
    lemma_scoped_concat(log.take(1), log, user);
}

proof fn lemma_walk_scoped(
    user: Seq<char>,
    comps: Seq<Seq<char>>,
    i: int,
    upto: int,
    parent: Option<Seq<char>>,
    log: Seq<Call>,
    r: FsResult<Option<Seq<char>>>,
)
    requires
        spec_walk(user, comps, i, upto, parent, log, r),
    ensures
        user_scoped(log, user),
    decreases upto - i,
{
    if i < upto {
        lemma_scoped_binds(log[0], sql_find_folder(parent is Some), seq![Some(comps[i])], parent, user);
        match spec_folder_lookup(spec_lookup(row_answer(log[0]))) {
            Ok(Some(id)) => {
                lemma_walk_scoped(user, comps, i + 1, upto, Some(id@), log.skip(1), r);
                lemma_skip_one(log, user);
            },
            _ => {
                lemma_scoped_one(log, user);
            },
        }
    }
}

proof fn lemma_folder_named_scoped(user: Seq<char>, parent: Option<Seq<char>>, name: Seq<char>, log: Seq<Call>, r: FsResult<ResolvedPath>)
    requires
        spec_folder_named(user, parent, name, log, r),
    ensures
        user_scoped(log, user),
{
    lemma_scoped_binds(log[0], sql_find_folder(parent is Some), seq![Some(name)], parent, user);
    lemma_scoped_one(log, user);
}

/// Resolving a path hands over only statements confined to the user.
pub proof fn lemma_resolve_scoped(user: Seq<char>, path: Seq<char>, log: Seq<Call>, r: FsResult<ResolvedPath>)
    requires
        spec_resolve(user, path, log, r),
    ensures
        user_scoped(log, user),
{
    match spec_path_components(path) {
        None => {},
        Some(c) => {
            let (l1, w) = choose|l1: Seq<Call>, w: FsResult<Option<Seq<char>>>|
                #[trigger] spec_walk(user, c, 0, c.len() - 1, None, l1, w) && prefix_of(l1, log) && match w {
                    Err(e) => log.len() == l1.len() && r == Err::<ResolvedPath, FsError>(e),
                    Ok(parent) => spec_resolve_in(user, parent, c.last(), log.skip(l1.len() as int), r),
                };
            lemma_walk_scoped(user, c, 0, c.len() - 1, None, l1, w);
            let rest = log.skip(l1.len() as int);
            match w {
                Err(_) => {
                    lemma_scoped_empty(rest, user);
                },
                Ok(parent) => {
                    let last = c.last();
                    match spec_parse_filename(last) {
                        Some((t, s)) => {
                            lemma_scoped_binds(rest[0], sql_note_exists(parent is Some), seq![Some(t), Some(s)], parent, user);
                            match spec_existence(row_answer(rest[0])) {
                                Ok(false) => {
                                    lemma_folder_named_scoped(user, parent, last, rest.skip(1), r);
                                    lemma_skip_one(rest, user);
                                },
                                _ => {
                                    lemma_scoped_one(rest, user);
                                },
                            }
                        },
                        None => {
                            lemma_folder_named_scoped(user, parent, last, rest, r);
                        },
                    }
                },
            }
            lemma_scoped_concat(l1, log, user);
        },
    }
}

proof fn lemma_store_at_scoped(
    user: Seq<char>,
    parent: Option<Seq<char>>,
    title: Seq<char>,
    syntax: Seq<char>,
    content: Seq<char>,
    ts: Seq<char>,
    new_id: String,
    log: Seq<Call>,
    r: FsResult<String>,
)
    requires
        spec_store_note_at(user, parent, title, syntax, content, ts, new_id, log, r),
    ensures
        user_scoped(log, user),
{
    lemma_scoped_binds(log[0], sql_note_id(parent is Some), seq![Some(title), Some(syntax)], parent, user);
    assert(scoped_at(log, 0, user));
    match spec_lookup(row_answer(log[0])) {
        Lookup::Found(id) => {
            assert(scoped_at(log, 1, user));
        },
        _ => {
            lemma_binds_at(log[1], 5, user);
            assert(scoped_at(log, 1, user));
        },
    }
}

proof fn lemma_store_scoped(
    user: Seq<char>,
    parent: Option<Seq<char>>,
    title: Seq<char>,
    syntax: Seq<char>,
    content: Seq<char>,
    log: Seq<Call>,
    r: FsResult<String>,
)
    requires
        spec_store_note(user, parent, title, syntax, content, log, r),
    ensures
        user_scoped(log, user),
{
    if log.len() > 0 {
        let (ts, new_id) = choose|ts: Seq<char>, new_id: String|
            #![trigger spec_store_note_at(user, parent, title, syntax, content, ts, new_id, log, r)]
            is_stamp(Some(ts)) && spec_store_note_at(user, parent, title, syntax, content, ts, new_id, log, r);
        lemma_store_at_scoped(user, parent, title, syntax, content, ts, new_id, log, r);
    }
}

proof fn lemma_list_scoped(user: Seq<char>, parent: Option<Seq<char>>, log: Seq<Call>, r: FsResult<Vec<DirEntry>>)
    requires
        spec_list(user, parent, log, r),
    ensures
        user_scoped(log, user),
{
    lemma_scoped_binds(log[0], sql_list_folders(parent is Some), Seq::empty(), parent, user);
    if log.len() == 2 {
        lemma_scoped_binds(log[1], sql_list_notes(parent is Some), Seq::empty(), parent, user);
        lemma_scoped_two(log, user);
    } else {
        lemma_scoped_one(log, user);
    }
}

proof fn lemma_delete_note_scoped(user: Seq<char>, parent: Option<Seq<char>>, t: Seq<char>, s: Seq<char>, log: Seq<Call>, r: FsResult<()>)
    requires
        spec_delete_note(user, parent, t, s, log, r),
    ensures
        user_scoped(log, user),
{
    lemma_scoped_binds(log[0], sql_note_id(parent is Some), seq![Some(t), Some(s)], parent, user);
    if log.len() == 2 {
        let id = spec_lookup(row_answer(log[0]))->Found_0;
        lemma_owned_binds(log[1], sql_delete_note(), id@, user);
        lemma_scoped_two(log, user);
    } else {
        lemma_scoped_one(log, user);
    }
}

proof fn lemma_delete_folder_scoped(user: Seq<char>, id: Seq<char>, log: Seq<Call>, r: FsResult<()>)
    requires
        spec_delete_folder(user, id, log, r),
    ensures
        user_scoped(log, user),
{
    lemma_owned_binds(log[0], sql_folder_owned(), id, user);
    if log.len() == 2 {
        lemma_owned_binds(log[1], sql_delete_folder(), id, user);
        lemma_scoped_two(log, user);
    } else {
        lemma_scoped_one(log, user);
    }
}

proof fn lemma_create_folder_scoped(user: Seq<char>, parent: Option<Seq<char>>, title: Seq<char>, log: Seq<Call>, r: FsResult<String>)
    requires
        spec_create_folder(user, parent, title, log, r),
    ensures
        user_scoped(log, user),
{
    if log.len() >= 1 {
        let (ts, new_id) = choose|ts: Seq<char>, new_id: String|
            #![trigger spec_create_folder_at(user, parent, title, ts, new_id, log, r)]
            is_stamp(Some(ts)) && spec_create_folder_at(user, parent, title, ts, new_id, log, r);
        lemma_scoped_binds(log[0], sql_find_folder(parent is Some), seq![Some(title)], parent, user);
        if log.len() == 2 {
            lemma_binds_at(log[1], 3, user);
            lemma_scoped_two(log, user);
        } else {
            lemma_scoped_one(log, user);
        }
    }
}

proof fn lemma_rename_note_scoped(
    user: Seq<char>,
    sp: Option<Seq<char>>,
    st: Seq<char>,
    ss: Seq<char>,
    dp: Option<Seq<char>>,
    dt: Seq<char>,
    ds: Seq<char>,
    log: Seq<Call>,
    r: FsResult<()>,
)
    requires
        spec_rename_note(user, sp, st, ss, dp, dt, ds, log, r),
    ensures
        user_scoped(log, user),
{
    if log.len() >= 1 {
        let ts = choose|ts: Seq<char>|
            #![trigger spec_rename_note_at(user, sp, st, ss, dp, dt, ds, ts, log, r)]
            is_stamp(Some(ts)) && spec_rename_note_at(user, sp, st, ss, dp, dt, ds, ts, log, r);
        lemma_scoped_binds(log[0], sql_note_id(sp is Some), seq![Some(st), Some(ss)], sp, user);
        assert(scoped_at(log, 0, user));
        if log.len() >= 2 {
            lemma_scoped_binds(log[1], sql_note_id(dp is Some), seq![Some(dt), Some(ds)], dp, user);
            assert(scoped_at(log, 1, user));
            let src = spec_lookup(row_answer(log[0]))->Found_0;
            match other_note(spec_lookup(row_answer(log[1])), src@) {
                Some(d) => {
                    lemma_owned_binds(log[2], sql_delete_note(), d, user);
                    assert(scoped_at(log, 2, user));
                    if log.len() == 4 {
                        lemma_binds_at(log[3], 5, user);
                        assert(scoped_at(log, 3, user));
                    }
                },
                None => {
                    lemma_binds_at(log[2], 5, user);
                    assert(scoped_at(log, 2, user));
                },
            }
        }
    }
}

proof fn lemma_ancestry_scoped(user: Seq<char>, cur: Option<Seq<char>>, anc: Seq<char>, budget: nat, log: Seq<Call>, r: bool)
    requires
        spec_ancestry(user, cur, anc, budget, log, r),
    ensures
        user_scoped(log, user),
    decreases budget,
{
    if budget > 0 {
        if let Some(c) = cur {
            if c != anc {
                lemma_owned_binds(log[0], sql_folder_parent(), c, user);
                lemma_ancestry_scoped(user, parent_column(row_answer(log[0])), anc, (budget - 1) as nat, log.skip(1), r);
                lemma_skip_one(log, user);
            }
        }
    }
}

proof fn lemma_rename_folder_scoped(user: Seq<char>, id: Seq<char>, np: Option<Seq<char>>, nt: Seq<char>, log: Seq<Call>, r: FsResult<()>)
    requires
        spec_rename_folder(user, id, np, nt, log, r),
    ensures
        user_scoped(log, user),
{
    if log.len() >= 1 {
        let ts = choose|ts: Seq<char>|
            #![trigger spec_rename_folder_at(user, id, np, nt, ts, log, r)]
            is_stamp(Some(ts)) && spec_rename_folder_at(user, id, np, nt, ts, log, r);
        lemma_owned_binds(log[0], sql_folder_owned(), id, user);
        if log.len() == 1 {
            lemma_scoped_one(log, user);
        } else {
            lemma_scoped_binds(log[1], sql_find_folder(np is Some), seq![Some(nt)], np, user);
            lemma_scoped_two(log.take(2), user);
            assert(log.take(2)[0] == log[0] && log.take(2)[1] == log[1]);
            assert(prefix_of(log.take(2), log));
            let rest = log.skip(2);
            if rest.len() == 0 {
                lemma_scoped_empty(rest, user);
            } else {
                match np {
                    Some(p) => {
                        let (l1, b) = choose|l1: Seq<Call>, b: bool|
                            #[trigger] spec_ancestry(user, Some(p), id, u64::MAX as nat, l1, b) && prefix_of(l1, rest)
                                && if b {
                                rest.len() == l1.len() && r == Err::<(), FsError>(FsError::Forbidden)
                            } else {
                                rest.len() == l1.len() + 1 && folder_moved(user, id, np, nt, ts, rest[l1.len() as int], r)
                            };
                        lemma_ancestry_scoped(user, Some(p), id, u64::MAX as nat, l1, b);
                        let tail = rest.skip(l1.len() as int);
                        if !b {
                            assert(tail[0] == rest[l1.len() as int]);
                            lemma_binds_at(tail[0], 4, user);
                            lemma_scoped_one(tail, user);
                        } else {
                            lemma_scoped_empty(tail, user);
                        }
                        lemma_scoped_concat(l1, rest, user);
                    },
                    None => {
                        lemma_binds_at(rest[0], 4, user);
                        lemma_scoped_one(rest, user);
                    },
                }
            }
            lemma_scoped_concat(log.take(2), log, user);
        }
    }
}

/// Listing, reading the metadata of, and opening what a path names, and
/// every change a path names (deleting, moving, writing back),
/// hand over only statements confined to the configured user's rows: each
/// binds the user's id, except the update of a note's content, which goes
/// by the id that a lookup bound to the user found just before.
pub proof fn law_operations_stay_with_the_user(
    user: Seq<char>,
    path: Seq<char>,
    to: Seq<char>,
    log: Seq<Call>,
)
    ensures
        forall|r: FsResult<Vec<DirListing>>| #[trigger] spec_read_dir(user, path, log, r) ==> user_scoped(log, user),
        forall|r: FsResult<EntryMeta>| #[trigger] spec_metadata(user, path, log, r) ==> user_scoped(log, user),
        forall|r: FsResult<()>| #[trigger] spec_get_props(user, path, log, r) ==> user_scoped(log, user),
        forall|r: FsResult<()>| #[trigger] spec_remove_file(user, path, log, r) ==> user_scoped(log, user),
        forall|r: FsResult<()>| #[trigger] spec_remove_dir(user, path, log, r) ==> user_scoped(log, user),
        forall|r: FsResult<()>| #[trigger] spec_rename(user, path, to, log, r) ==> user_scoped(log, user),
{
    assert forall|r: FsResult<Vec<DirListing>>| #[trigger] spec_read_dir(user, path, log, r) implies user_scoped(log, user) by {
        lemma_read_dir_scoped(user, path, log, r);
    }
    assert forall|r: FsResult<EntryMeta>| #[trigger] spec_metadata(user, path, log, r) implies user_scoped(log, user) by {
        lemma_metadata_scoped(user, path, log, r);
    }
    assert forall|r: FsResult<()>| #[trigger] spec_get_props(user, path, log, r) implies user_scoped(log, user) by {
        let rp = choose|rp: FsResult<ResolvedPath>| #[trigger] spec_resolve(user, path, log, rp) && r == props_outcome(rp);
        lemma_resolve_scoped(user, path, log, rp);
    }
    assert forall|r: FsResult<()>| #[trigger] spec_remove_file(user, path, log, r) implies user_scoped(log, user) by {
        lemma_remove_scoped(user, path, log, r);
    }
    assert forall|r: FsResult<()>| #[trigger] spec_remove_dir(user, path, log, r) implies user_scoped(log, user) by {
        lemma_remove_scoped(user, path, log, r);
    }
    assert forall|r: FsResult<()>| #[trigger] spec_rename(user, path, to, log, r) implies user_scoped(log, user) by {
        lemma_rename_scoped(user, path, to, log, r);
    }
}

proof fn lemma_read_dir_scoped(user: Seq<char>, path: Seq<char>, log: Seq<Call>, r: FsResult<Vec<DirListing>>)
    requires
        spec_read_dir(user, path, log, r),
    ensures
        user_scoped(log, user),
{
    let (l1, rp) = choose|l1: Seq<Call>, rp: FsResult<ResolvedPath>|
        #[trigger] spec_resolve(user, path, l1, rp) && prefix_of(l1, log) && match rp {
            Err(e) => log.len() == l1.len() && r == Err::<Vec<DirListing>, FsError>(e),
            Ok(ResolvedPath::Note { .. }) => log.len() == l1.len() && r == Err::<Vec<DirListing>, FsError>(
                FsError::Forbidden,
            ),
            Ok(ResolvedPath::Root) => listed(user, None, log.skip(l1.len() as int), r),
            Ok(ResolvedPath::Folder { id }) => listed(user, Some(id@), log.skip(l1.len() as int), r),
        };
    lemma_resolve_scoped(user, path, l1, rp);
    let rest = log.skip(l1.len() as int);
    match rp {
        Ok(ResolvedPath::Root) => {
            let l = choose|l: FsResult<Vec<DirEntry>>| #[trigger] spec_list(user, None, rest, l) && match l {
                Err(e) => r == Err::<Vec<DirListing>, FsError>(e),
                Ok(entries) => r matches Ok(v) && v@.len() == entries@.len() && forall|k: int|
                    0 <= k < v@.len() ==> spec_listing_matches(entries@[k], #[trigger] v@[k]),
            };
            lemma_list_scoped(user, None, rest, l);
        },
        Ok(ResolvedPath::Folder { id }) => {
            let l = choose|l: FsResult<Vec<DirEntry>>| #[trigger] spec_list(user, Some(id@), rest, l) && match l {
                Err(e) => r == Err::<Vec<DirListing>, FsError>(e),
                Ok(entries) => r matches Ok(v) && v@.len() == entries@.len() && forall|k: int|
                    0 <= k < v@.len() ==> spec_listing_matches(entries@[k], #[trigger] v@[k]),
            };
            lemma_list_scoped(user, Some(id@), rest, l);
        },
        _ => {
            lemma_scoped_empty(rest, user);
        },
    }
    lemma_scoped_concat(l1, log, user);
}

proof fn lemma_metadata_scoped(user: Seq<char>, path: Seq<char>, log: Seq<Call>, r: FsResult<EntryMeta>)
    requires
        spec_metadata(user, path, log, r),
    ensures
        user_scoped(log, user),
{
    let (l1, rp) = choose|l1: Seq<Call>, rp: FsResult<ResolvedPath>|
        #[trigger] spec_resolve(user, path, l1, rp) && prefix_of(l1, log) && meta_after(
            user,
            rp,
            log.skip(l1.len() as int),
            r,
        );
    lemma_resolve_scoped(user, path, l1, rp);
    let rest = log.skip(l1.len() as int);
    match rp {
        Ok(ResolvedPath::Folder { id }) => {
            lemma_owned_binds(rest[0], sql_folder_meta(), id@, user);
            lemma_scoped_one(rest, user);
        },
        Ok(ResolvedPath::Note { parent_id, title, syntax }) => {
            lemma_scoped_binds(
                rest[0],
                sql_get_note(parent_id is Some),
                seq![Some(title@), Some(syntax@)],
                ostring(parent_id),
                user,
            );
            lemma_scoped_one(rest, user);
        },
        _ => {
            lemma_scoped_empty(rest, user);
        },
    }
    lemma_scoped_concat(l1, log, user);
}

proof fn lemma_remove_scoped(user: Seq<char>, path: Seq<char>, log: Seq<Call>, r: FsResult<()>)
    requires
        spec_remove_file(user, path, log, r) || spec_remove_dir(user, path, log, r),
    ensures
        user_scoped(log, user),
{
    if spec_remove_file(user, path, log, r) {
        let (l1, rp) = choose|l1: Seq<Call>, rp: FsResult<ResolvedPath>|
            #[trigger] spec_resolve(user, path, l1, rp) && prefix_of(l1, log) && match rp {
                Err(e) => log.len() == l1.len() && r == Err::<(), FsError>(e),
                Ok(ResolvedPath::Note { parent_id, title, syntax }) => spec_delete_note(
                    user,
                    ostring(parent_id),
                    title@,
                    syntax@,
                    log.skip(l1.len() as int),
                    r,
                ),
                Ok(_) => log.len() == l1.len() && r == Err::<(), FsError>(FsError::Forbidden),
            };
        lemma_resolve_scoped(user, path, l1, rp);
        let rest = log.skip(l1.len() as int);
        match rp {
            Ok(ResolvedPath::Note { parent_id, title, syntax }) => {
                lemma_delete_note_scoped(user, ostring(parent_id), title@, syntax@, rest, r);
            },
            _ => {
                lemma_scoped_empty(rest, user);
            },
        }
        lemma_scoped_concat(l1, log, user);
    } else {
        let (l1, rp) = choose|l1: Seq<Call>, rp: FsResult<ResolvedPath>|
            #[trigger] spec_resolve(user, path, l1, rp) && prefix_of(l1, log) && match rp {
                Err(e) => log.len() == l1.len() && r == Err::<(), FsError>(e),
                Ok(ResolvedPath::Folder { id }) => spec_delete_folder(user, id@, log.skip(l1.len() as int), r),
                Ok(_) => log.len() == l1.len() && r == Err::<(), FsError>(FsError::Forbidden),
            };
        lemma_resolve_scoped(user, path, l1, rp);
        let rest = log.skip(l1.len() as int);
        match rp {
            Ok(ResolvedPath::Folder { id }) => {
                lemma_delete_folder_scoped(user, id@, rest, r);
            },
            _ => {
                lemma_scoped_empty(rest, user);
            },
        }
        lemma_scoped_concat(l1, log, user);
    }
}

proof fn lemma_rename_scoped(user: Seq<char>, from: Seq<char>, to: Seq<char>, log: Seq<Call>, r: FsResult<()>)
    requires
        spec_rename(user, from, to, log, r),
    ensures
        user_scoped(log, user),
{
    if let Some(c) = spec_path_components(to) {
        let (l1, w) = choose|l1: Seq<Call>, w: FsResult<Option<Seq<char>>>|
            #[trigger] spec_walk(user, c, 0, c.len() - 1, None, l1, w) && prefix_of(l1, log) && match w {
                Err(e) => log.len() == l1.len() && r == Err::<(), FsError>(e),
                Ok(dp) => exists|l2: Seq<Call>, rp: FsResult<ResolvedPath>|
                    #[trigger] spec_resolve(user, from, l2, rp) && prefix_of(l2, log.skip(l1.len() as int))
                        && moved(user, dp, c.last(), rp, log.skip(l1.len() as int).skip(l2.len() as int), r),
            };
        lemma_walk_scoped(user, c, 0, c.len() - 1, None, l1, w);
        let rest = log.skip(l1.len() as int);
        match w {
            Err(_) => {
                lemma_scoped_empty(rest, user);
            },
            Ok(dp) => {
                let (l2, rp) = choose|l2: Seq<Call>, rp: FsResult<ResolvedPath>|
                    #[trigger] spec_resolve(user, from, l2, rp) && prefix_of(l2, rest) && moved(
                        user,
                        dp,
                        c.last(),
                        rp,
                        rest.skip(l2.len() as int),
                        r,
                    );
                lemma_resolve_scoped(user, from, l2, rp);
                let tail = rest.skip(l2.len() as int);
                match rp {
                    Ok(ResolvedPath::Note { parent_id, title, syntax }) => {
                        match spec_parse_filename(c.last()) {
                            Some((dt, ds)) => {
                                lemma_rename_note_scoped(user, ostring(parent_id), title@, syntax@, dp, dt, ds, tail, r);
                            },
                            None => {
                                lemma_scoped_empty(tail, user);
                            },
                        }
                    },
                    Ok(ResolvedPath::Folder { id }) => {
                        lemma_rename_folder_scoped(user, id@, dp, c.last(), tail, r);
                    },
                    _ => {
                        lemma_scoped_empty(tail, user);
                    },
                }
                lemma_scoped_concat(l2, rest, user);
            },
        }
        lemma_scoped_concat(l1, log, user);
    }
}

/// Storing a note and creating a folder hand over only statements
/// confined to the user's rows.
pub proof fn law_writes_stay_with_the_user(
    user: Seq<char>,
    parent: Option<Seq<char>>,
    title: Seq<char>,
    syntax: Seq<char>,
    content: Seq<char>,
    log: Seq<Call>,
)
    ensures
        forall|r: FsResult<String>|
            #[trigger] spec_store_note(user, parent, title, syntax, content, log, r) ==> user_scoped(log, user),
        forall|r: FsResult<String>| #[trigger] spec_create_folder(user, parent, title, log, r) ==> user_scoped(log, user),
{
    assert forall|r: FsResult<String>|
        #[trigger] spec_store_note(user, parent, title, syntax, content, log, r) implies user_scoped(log, user) by {
        lemma_store_scoped(user, parent, title, syntax, content, log, r);
    }
    assert forall|r: FsResult<String>| #[trigger] spec_create_folder(user, parent, title, log, r) implies user_scoped(
        log,
        user,
    ) by {
        lemma_create_folder_scoped(user, parent, title, log, r);
    }
}

/// Opening what a path names, and writing a file back, hand over only
/// statements confined to the user the file system (or the file) is for.
pub proof fn law_files_stay_with_the_user(
    fsv: (Seq<char>, Seq<char>),
    path: Seq<char>,
    o: OpenFlags,
    f: SqliteDavFile,
    log: Seq<Call>,
)
    ensures
        forall|r: FsResult<SqliteDavFile>| #[trigger] spec_open(fsv, path, o, log, r) ==> user_scoped(log, fsv.1),
        forall|r: FsResult<()>|
            #[trigger] crate::davfile::spec_flush(f, log, r) && f.fs_view() is Some ==> user_scoped(
                log,
                f.fs_view().unwrap().1,
            ),
{
    assert forall|r: FsResult<SqliteDavFile>| #[trigger] spec_open(fsv, path, o, log, r) implies user_scoped(log, fsv.1) by {
        lemma_open_scoped(fsv, path, o, log, r);
    }
    assert forall|r: FsResult<()>|
        #[trigger] crate::davfile::spec_flush(f, log, r) && f.fs_view() is Some implies user_scoped(
            log,
            f.fs_view().unwrap().1,
        ) by {
        let fsv2 = f.fs_view().unwrap();
        if f.is_writable() && vstd::utf8::valid_utf8(f.data_view()) {
            let stored = choose|stored: FsResult<String>|
                #[trigger] spec_store_note(
                    fsv2.1,
                    f.parent_view(),
                    f.note_view().title@,
                    f.note_view().syntax@,
                    vstd::utf8::decode_utf8(f.data_view()),
                    log,
                    stored,
                ) && r == unit_of(stored);
            lemma_store_scoped(
                fsv2.1,
                f.parent_view(),
                f.note_view().title@,
                f.note_view().syntax@,
                vstd::utf8::decode_utf8(f.data_view()),
                log,
                stored,
            );
        }
    }
}

proof fn lemma_open_scoped(fsv: (Seq<char>, Seq<char>), path: Seq<char>, o: OpenFlags, log: Seq<Call>, r: FsResult<SqliteDavFile>)
    requires
        spec_open(fsv, path, o, log, r),
    ensures
        user_scoped(log, fsv.1),
{
    let user = fsv.1;
    let (l1, rp) = choose|l1: Seq<Call>, rp: FsResult<ResolvedPath>|
        #[trigger] spec_resolve(fsv.1, path, l1, rp) && prefix_of(l1, log) && open_after(
            fsv,
            path,
            o,
            rp,
            log.skip(l1.len() as int),
            r,
        );
    lemma_resolve_scoped(user, path, l1, rp);
    let rest = log.skip(l1.len() as int);
    match rp {
        Ok(ResolvedPath::Note { parent_id, title, syntax }) => {
            lemma_scoped_binds(
                rest[0],
                sql_get_note(parent_id is Some),
                seq![Some(title@), Some(syntax@)],
                ostring(parent_id),
                user,
            );
            lemma_scoped_one(rest, user);
        },
        Err(FsError::NotFound) => {
            if o.create || o.create_new {
                lemma_create_file_scoped(fsv, path, rest, r);
            } else {
                lemma_scoped_empty(rest, user);
            }
        },
        _ => {
            lemma_scoped_empty(rest, user);
        },
    }
    lemma_scoped_concat(l1, log, user);
}

proof fn lemma_create_file_scoped(fsv: (Seq<char>, Seq<char>), path: Seq<char>, log: Seq<Call>, r: FsResult<SqliteDavFile>)
    requires
        spec_create_file(fsv, path, log, r),
    ensures
        user_scoped(log, fsv.1),
{
    let user = fsv.1;
    if let Some(c) = spec_path_components(path) {
        if let Some((t, s)) = spec_parse_filename(c.last()) {
            let (l1, w) = choose|l1: Seq<Call>, w: FsResult<Option<Seq<char>>>|
                #[trigger] spec_walk(fsv.1, c, 0, c.len() - 1, None, l1, w) && prefix_of(l1, log) && match w {
                    Err(e) => log.len() == l1.len() && r == Err::<SqliteDavFile, FsError>(e),
                    Ok(parent) => stored_file(fsv, parent, t, s, log.skip(l1.len() as int), r),
                };
            lemma_walk_scoped(user, c, 0, c.len() - 1, None, l1, w);
            let rest = log.skip(l1.len() as int);
            match w {
                Err(_) => {
                    lemma_scoped_empty(rest, user);
                },
                Ok(parent) => {
                    if rest.len() > 0 {
                        let (ts, new_id, id) = choose|ts: Seq<char>, new_id: String, id: FsResult<String>|
                            #![trigger spec_store_note_at(fsv.1, parent, t, s, Seq::empty(), ts, new_id, rest, id)]
                            is_stamp(Some(ts)) && spec_store_note_at(fsv.1, parent, t, s, Seq::empty(), ts, new_id, rest, id)
                                && match id {
                                Err(e) => r == Err::<SqliteDavFile, FsError>(e),
                                Ok(nid) => r matches Ok(f) && created_over(f, nid, t, s, parent, fsv, ts),
                            };
                        lemma_store_at_scoped(user, parent, t, s, Seq::empty(), ts, new_id, rest, id);
                    } else {
                        lemma_scoped_empty(rest, user);
                    }
                },
            }
            lemma_scoped_concat(l1, log, user);
        }
    }
}

// ---------------------------------------------------------------------------
// Listings show folders first.

/// Whether `v` lists directories at `0..k` and files from `k` on.
pub open spec fn dirs_then_files(v: Seq<DirListing>, k: int) -> bool {
    &&& 0 <= k <= v.len()
    &&& forall|j: int| 0 <= j < k ==> #[trigger] v[j].meta.is_dir
    &&& forall|j: int| k <= j < v.len() ==> !(#[trigger] v[j].meta.is_dir)
}

proof fn lemma_folder_entries_are_folders(rows: Seq<Result<Vec<Option<String>>, DbError>>)
    ensures
        forall|j: int| 0 <= j < folder_entries(rows).len() ==> #[trigger] folder_entries(rows)[j] is Folder,
    decreases rows.len(),
{
    if rows.len() > 0 {
        lemma_folder_entries_are_folders(rows.drop_last());
    }
}

proof fn lemma_note_entries_are_notes(rows: Seq<Result<Vec<Option<String>>, DbError>>)
    ensures
        forall|j: int| 0 <= j < note_entries(rows).len() ==> #[trigger] note_entries(rows)[j] is Note,
    decreases rows.len(),
{
    if rows.len() > 0 {
        lemma_note_entries_are_notes(rows.drop_last());
    }
}

proof fn lemma_listed_dirs_first(user: Seq<char>, parent: Option<Seq<char>>, log: Seq<Call>, r: FsResult<Vec<DirListing>>)
    requires
        listed(user, parent, log, r),
        r is Ok,
    ensures
        exists|k: int| #[trigger] dirs_then_files(r->Ok_0@, k),
{
    let l = choose|l: FsResult<Vec<DirEntry>>|
        #[trigger] spec_list(user, parent, log, l) && match l {
            Err(e) => r == Err::<Vec<DirListing>, FsError>(e),
            Ok(entries) => r matches Ok(v) && v@.len() == entries@.len() && forall|k: int|
                0 <= k < v@.len() ==> spec_listing_matches(entries@[k], #[trigger] v@[k]),
        };
    let v = r->Ok_0@;
    let entries = l->Ok_0@;
    let frows = rows_answer(log[0])->Ok_0@;
    let nrows = rows_answer(log[1])->Ok_0@;
    lemma_folder_entries_are_folders(frows);
    lemma_note_entries_are_notes(nrows);
    let k = folder_entries(frows).len() as int;
    assert forall|j: int| 0 <= j < k implies #[trigger] v[j].meta.is_dir by {
        assert(entries[j] == folder_entries(frows)[j]);
        assert(spec_listing_matches(entries[j], v[j]));
    }
    assert forall|j: int| k <= j < v.len() implies !(#[trigger] v[j].meta.is_dir) by {
        assert(entries[j] == note_entries(nrows)[j - k]);
        assert(spec_listing_matches(entries[j], v[j]));
    }
    assert(dirs_then_files(v, k));
}

/// A folder listing shows all its directories before all its files.
pub proof fn law_listing_shows_folders_first(user: Seq<char>, path: Seq<char>, log: Seq<Call>, r: FsResult<Vec<DirListing>>)
    requires
        spec_read_dir(user, path, log, r),
        r is Ok,
    ensures
        exists|k: int| #[trigger] dirs_then_files(r->Ok_0@, k),
{
    let (l1, rp) = choose|l1: Seq<Call>, rp: FsResult<ResolvedPath>|
        #[trigger] spec_resolve(user, path, l1, rp) && prefix_of(l1, log) && match rp {
            Err(e) => log.len() == l1.len() && r == Err::<Vec<DirListing>, FsError>(e),
            Ok(ResolvedPath::Note { .. }) => log.len() == l1.len() && r == Err::<Vec<DirListing>, FsError>(
                FsError::Forbidden,
            ),
            Ok(ResolvedPath::Root) => listed(user, None, log.skip(l1.len() as int), r),
            Ok(ResolvedPath::Folder { id }) => listed(user, Some(id@), log.skip(l1.len() as int), r),
        };
    match rp {
        Ok(ResolvedPath::Root) => {
            lemma_listed_dirs_first(user, None, log.skip(l1.len() as int), r);
        },
        Ok(ResolvedPath::Folder { id }) => {
            lemma_listed_dirs_first(user, Some(id@), log.skip(l1.len() as int), r);
        },
        _ => {},
    }
}

/// A folder is never moved into itself or into a folder below it: a move
/// succeeds only for a target at the top, or for a target other than the
/// folder from which the walk up through the user's parent links, as the
/// database answered it, did not reach the folder.
pub proof fn law_folder_never_moved_below_itself(
    user: Seq<char>,
    id: Seq<char>,
    np: Option<Seq<char>>,
    nt: Seq<char>,
    log: Seq<Call>,
    r: FsResult<()>,
)
    requires
        spec_rename_folder(user, id, np, nt, log, r),
        r is Ok,
    ensures
        np matches Some(p) ==> {
            &&& p != id
            &&& exists|l1: Seq<Call>|
                #[trigger] spec_ancestry(user, Some(p), id, u64::MAX as nat, l1, false) && prefix_of(
                    l1,
                    log.skip(2),
                )
        },
{
    if let Some(p) = np {
        let ts = choose|ts: Seq<char>|
            #![trigger spec_rename_folder_at(user, id, np, nt, ts, log, r)]
            is_stamp(Some(ts)) && spec_rename_folder_at(user, id, np, nt, ts, log, r);
        let rest = log.skip(2);
        let (l1, b) = choose|l1: Seq<Call>, b: bool|
            #[trigger] spec_ancestry(user, Some(p), id, u64::MAX as nat, l1, b) && prefix_of(l1, rest) && if b {
                rest.len() == l1.len() && r == Err::<(), FsError>(FsError::Forbidden)
            } else {
                rest.len() == l1.len() + 1 && folder_moved(user, id, np, nt, ts, rest[l1.len() as int], r)
            };
        assert(!b);
        assert(spec_ancestry(user, Some(p), id, u64::MAX as nat, l1, false));
    }
}

/// Moving a note back writes its old place back onto the same row: when a
/// move of the note at `st.ss` in `sp` to `dt.ds` in `dp` succeeded, and the
/// move back finds that same note at `dt.ds` and no note left at `st.ss`,
/// the first move's update gives that row of the user the new place and
/// the move back's update, its last call, gives the same row the old place.
pub proof fn law_moving_a_note_back_restores_its_place(
    user: Seq<char>,
    sp: Option<Seq<char>>,
    st: Seq<char>,
    ss: Seq<char>,
    dp: Option<Seq<char>>,
    dt: Seq<char>,
    ds: Seq<char>,
    ts1: Seq<char>,
    log1: Seq<Call>,
    r1: FsResult<()>,
    ts2: Seq<char>,
    log2: Seq<Call>,
    r2: FsResult<()>,
)
    requires
        spec_rename_note_at(user, sp, st, ss, dp, dt, ds, ts1, log1, r1),
        r1 is Ok,
        spec_rename_note_at(user, dp, dt, ds, sp, st, ss, ts2, log2, r2),
        spec_lookup(row_answer(log2[0])) == spec_lookup(row_answer(log1[0])),
        spec_lookup(row_answer(log2[1])) == Lookup::Missing,
    ensures
        spec_lookup(row_answer(log1[0])) matches Lookup::Found(n) && {
            &&& asks_exec(log1.last(), sql_move_note(), seq![Some(dt), Some(ds), dp, Some(ts1), Some(n@), Some(user)])
            &&& log2.len() == 3
            &&& asks_exec(log2[2], sql_move_note(), seq![Some(st), Some(ss), sp, Some(ts2), Some(n@), Some(user)])
            &&& r2 == changed(log2[2])
        },
{
}

/// Storing the same note twice adds no second note: when a store of
/// `title.syntax` in `parent` gave an id, and storing the same content
/// again finds the note under that id, the second store inserts nothing,
/// writes the same content onto that row and gives the same id back once
/// the write succeeds.
pub proof fn law_storing_again_adds_no_note(
    user: Seq<char>,
    parent: Option<Seq<char>>,
    title: Seq<char>,
    syntax: Seq<char>,
    content: Seq<char>,
    ts1: Seq<char>,
    new1: String,
    log1: Seq<Call>,
    r1: FsResult<String>,
    ts2: Seq<char>,
    new2: String,
    log2: Seq<Call>,
    r2: FsResult<String>,
)
    requires
        spec_store_note_at(user, parent, title, syntax, content, ts1, new1, log1, r1),
        r1 is Ok,
        spec_store_note_at(user, parent, title, syntax, content, ts2, new2, log2, r2),
        spec_lookup(row_answer(log2[0])) == Lookup::Found(r1->Ok_0),
    ensures
        asks_exec(log2[1], sql_update_content(), seq![Some(content), Some(ts2), Some(r1->Ok_0@)]),
        r2 == (if exec_answer(log2[1]) is Ok {
            r1
        } else {
            Err::<String, FsError>(FsError::GeneralFailure)
        }),
{
}

/// The last name of a path is looked up whole as a folder's title: unless
/// it names a note of the user in `parent` (it parses as `title.syntax`
/// and that note exists), the last statement looks up the folder of the
/// user in `parent` titled exactly `last`, and the result is that folder,
/// or `NotFound` when there is none.
pub proof fn law_a_last_name_that_is_no_note_is_a_folder_title(
    user: Seq<char>,
    parent: Option<Seq<char>>,
    last: Seq<char>,
    log: Seq<Call>,
    r: FsResult<ResolvedPath>,
)
    requires
        spec_resolve_in(user, parent, last, log, r),
    ensures
        log.len() >= 1,
        !(r matches Ok(ResolvedPath::Root)),
        spec_parse_filename(last) matches Some((t, s)) ==> {
            &&& asks_row(log[0], sql_note_exists(parent is Some), scoped(seq![Some(t), Some(s)], parent, user))
            &&& (row_answer(log[0]) is Ok) == (r matches Ok(ResolvedPath::Note { .. }))
        },
        spec_parse_filename(last) is None ==> !(r matches Ok(ResolvedPath::Note { .. })),
        r matches Ok(ResolvedPath::Note { .. }) ==> log.len() == 1 && (spec_parse_filename(last) matches Some(
            (t, s),
        ) && is_note_at(r, parent, t, s)),
        r matches Ok(ResolvedPath::Folder { id }) ==> {
            &&& asks_row(log.last(), sql_find_folder(parent is Some), scoped(seq![Some(last)], parent, user))
            &&& spec_lookup(row_answer(log.last())) matches Lookup::Found(fid) && fid@ == id@
        },
        r == Err::<ResolvedPath, FsError>(FsError::NotFound) ==> {
            &&& asks_row(log.last(), sql_find_folder(parent is Some), scoped(seq![Some(last)], parent, user))
            &&& spec_lookup(row_answer(log.last())) == Lookup::Missing
        },
        (spec_parse_filename(last) is Some ==> row_answer(log[0]) == Err::<Vec<Option<String>>, DbError>(
            DbError::NoRows,
        )) ==> {
            &&& asks_row(log.last(), sql_find_folder(parent is Some), scoped(seq![Some(last)], parent, user))
            &&& (spec_lookup(row_answer(log.last())) matches Lookup::Found(fid) ==> r matches Ok(
                ResolvedPath::Folder { id },
            ) && id@ == fid@)
            &&& (spec_lookup(row_answer(log.last())) == Lookup::Missing ==> r == Err::<ResolvedPath, FsError>(
                FsError::NotFound,
            ))
        },
{
    match spec_parse_filename(last) {
        Some((t, s)) => {
            if spec_existence(row_answer(log[0])) == Ok::<bool, FsError>(false) {
                assert(log.skip(1)[0] == log.last());
            }
        },
        None => {},
    }
}

/// Whether `calls` walk up the user's parent links from the folder
/// `start` without meeting `anc`: `start` is not `anc`, the first call asks
/// for the parent of `start`, and the rest walk on in the same way from the
/// parent it answered.
pub open spec fn walks_up_avoiding(user: Seq<char>, start: Seq<char>, anc: Seq<char>, calls: Seq<Call>) -> bool
    decreases calls.len(),
{
    &&& start != anc
    &&& calls.len() >= 1
    &&& asks_row(calls[0], sql_folder_parent(), seq![Some(start), Some(user)])
    &&& calls.len() > 1 ==> (parent_column(row_answer(calls[0])) matches Some(c) && walks_up_avoiding(
        user,
        c,
        anc,
        calls.skip(1),
    ))
}

/// A search for `anc` above `c` that did not find it walked up from `c`
/// without meeting `anc`, to a folder with no parent unless the steps ran
/// out.
proof fn lemma_ancestry_walk(user: Seq<char>, c: Seq<char>, anc: Seq<char>, budget: nat, log: Seq<Call>)
    requires
        budget > 0,
        spec_ancestry(user, Some(c), anc, budget, log, false),
    ensures
        1 <= log.len() <= budget,
        walks_up_avoiding(user, c, anc, log),
        parent_column(row_answer(log.last())) is None || log.len() == budget,
    decreases budget,
{
    let rest = log.skip(1);
    let up = parent_column(row_answer(log[0]));
    assert(spec_ancestry(user, up, anc, (budget - 1) as nat, rest, false));
    if budget - 1 == 0 || up is None {
        assert(rest.len() == 0);
    } else {
        let c2 = up->0;
        lemma_ancestry_walk(user, c2, anc, (budget - 1) as nat, rest);
        assert(log.last() == rest.last());
    }
}

/// A folder is never moved below itself, at any depth: a move of the
/// folder `id` into `p` that succeeds walked up the user's parent links
/// from `p`, right after the two lookups of the move, without meeting
/// `id`, to a folder with no parent (unless it took the maximal number of
/// steps), and only then handed over the update.
pub proof fn law_a_folder_moves_only_outside_itself(
    user: Seq<char>,
    id: Seq<char>,
    p: Seq<char>,
    nt: Seq<char>,
    log: Seq<Call>,
    r: FsResult<()>,
)
    requires
        spec_rename_folder(user, id, Some(p), nt, log, r),
        r is Ok,
    ensures
        p != id,
        exists|k: int|
            #![trigger walks_up_avoiding(user, p, id, log.subrange(2, 2 + k))]
            {
                &&& 1 <= k
                &&& 2 + k < log.len()
                &&& walks_up_avoiding(user, p, id, log.subrange(2, 2 + k))
                &&& (parent_column(row_answer(log[1 + k])) is None || k == u64::MAX)
                &&& log.len() == 3 + k
                &&& log[2 + k].0.sql@ == sql_move_folder()
                &&& r == changed(log[2 + k])
            },
{
    let np = Some(p);
    let ts = choose|ts: Seq<char>|
        #![trigger spec_rename_folder_at(user, id, np, nt, ts, log, r)]
        is_stamp(Some(ts)) && spec_rename_folder_at(user, id, np, nt, ts, log, r);
    let rest = log.skip(2);
    let (l1, b) = choose|l1: Seq<Call>, b: bool|
        #[trigger] spec_ancestry(user, Some(p), id, u64::MAX as nat, l1, b) && prefix_of(l1, rest) && if b {
            rest.len() == l1.len() && r == Err::<(), FsError>(FsError::Forbidden)
        } else {
            rest.len() == l1.len() + 1 && folder_moved(user, id, np, nt, ts, rest[l1.len() as int], r)
        };
    assert(!b);
    lemma_ancestry_walk(user, p, id, u64::MAX as nat, l1);
    let k = l1.len() as int;
    assert(log.subrange(2, 2 + k) =~= l1) by {
        assert forall|j: int| 0 <= j < k implies log.subrange(2, 2 + k)[j] == l1[j] by {
            assert(l1[j] == rest.take(k)[j]);
        }
    }
    assert(log[1 + k] == l1.last());
    assert(log[2 + k] == rest[k]);
}

/// The notes of a listing of `parent`, after its folders, are the rows of
/// the notes query in order, each with the times of its own row.
proof fn lemma_listed_notes(user: Seq<char>, parent: Option<Seq<char>>, log: Seq<Call>, r: FsResult<Vec<DirListing>>)
    requires
        listed(user, parent, log, r),
        r is Ok,
    ensures
        log.len() == 2,
        rows_answer(log[0]) is Ok,
        rows_answer(log[1]) is Ok,
        listing_carries_row_times(
            r->Ok_0@,
            folder_entries(rows_answer(log[0])->Ok_0@),
            note_entries(rows_answer(log[1])->Ok_0@),
        ),
{
    let l = choose|l: FsResult<Vec<DirEntry>>|
        #[trigger] spec_list(user, parent, log, l) && match l {
            Err(e) => r == Err::<Vec<DirListing>, FsError>(e),
            Ok(entries) => r matches Ok(v) && v@.len() == entries@.len() && forall|k: int|
                0 <= k < v@.len() ==> spec_listing_matches(entries@[k], #[trigger] v@[k]),
        };
    let v = r->Ok_0@;
    let entries = l->Ok_0@;
    let frows = rows_answer(log[0])->Ok_0@;
    let nrows = rows_answer(log[1])->Ok_0@;
    let notes = note_entries(nrows);
    lemma_note_entries_are_notes(nrows);
    lemma_folder_entries_are_folders(frows);
    let k = folder_entries(frows).len() as int;
    assert forall|i: int| 0 <= i < k implies #[trigger] folder_listed(v[i], folder_entries(frows)[i]) by {
        assert(entries[i] == folder_entries(frows)[i]);
        assert(spec_listing_matches(entries[i], v[i]));
    }
    assert forall|i: int| 0 <= i < notes.len() implies #[trigger] note_listed(v[v.len() - notes.len() + i], notes[i]) by {
        assert(entries[k + i] == notes[i]);
        assert(spec_listing_matches(entries[k + i], v[k + i]));
    }
}

/// Whether `l` shows the note entry `e` with the times of its row: under
/// `title.syntax`, a file as long as its content in UTF-8, modified at the
/// stored update time and created at the stored creation time.
pub open spec fn note_listed(l: DirListing, e: DirEntry) -> bool {
    e matches DirEntry::Note(n) && {
        &&& l.name@ == note_file_name_of(n.title@, n.syntax@)
        &&& !l.meta.is_dir
        &&& l.meta.len == encode_utf8(n.content@).len()
        &&& l.meta.modified == spec_parse_stored_time(n.updated_at)
        &&& l.meta.created == spec_parse_stored_time(n.created_at)
    }
}

/// Whether the listing `v` ends with the notes `notes`, in order, each with
/// the times of its row.
pub open spec fn notes_carry_row_times(v: Seq<DirListing>, notes: Seq<DirEntry>) -> bool {
    &&& notes.len() <= v.len()
    &&& forall|i: int| 0 <= i < notes.len() ==> #[trigger] note_listed(v[v.len() - notes.len() + i], notes[i])
}

/// Whether `l` shows the folder entry `e` with the times of its row: under
/// its title, a directory of length 0, modified at the stored update time
/// and created at the stored creation time.
pub open spec fn folder_listed(l: DirListing, e: DirEntry) -> bool {
    e matches DirEntry::Folder(d) && {
        &&& l.name@ == d.title@
        &&& l.meta.is_dir
        &&& l.meta.len == 0
        &&& l.meta.modified == spec_parse_stored_time(d.updated_at)
        &&& l.meta.created == spec_parse_stored_time(d.created_at)
    }
}

/// Whether the listing `v` is the folders `folders` followed by the notes
/// `notes`, in order, each with the times of its row.
pub open spec fn listing_carries_row_times(v: Seq<DirListing>, folders: Seq<DirEntry>, notes: Seq<DirEntry>) -> bool {
    &&& v.len() == folders.len() + notes.len()
    &&& forall|i: int| 0 <= i < folders.len() ==> #[trigger] folder_listed(v[i], folders[i])
    &&& notes_carry_row_times(v, notes)
}

/// Every entry a folder listing shows carries the times of its own row:
/// the listing is the folders that the second last statement's rows hold,
/// then the notes that the last statement's rows hold, in order, each note
/// under `title.syntax` and each folder under its title, modified at its
/// stored update time and created at its stored creation time.
pub proof fn law_listed_notes_carry_their_row_times(
    user: Seq<char>,
    path: Seq<char>,
    log: Seq<Call>,
    r: FsResult<Vec<DirListing>>,
)
    requires
        spec_read_dir(user, path, log, r),
        r is Ok,
    ensures
        log.len() >= 2,
        rows_answer(log[log.len() - 2]) is Ok,
        rows_answer(log.last()) is Ok,
        listing_carries_row_times(
            r->Ok_0@,
            folder_entries(rows_answer(log[log.len() - 2])->Ok_0@),
            note_entries(rows_answer(log.last())->Ok_0@),
        ),
{
    let (l1, rp) = choose|l1: Seq<Call>, rp: FsResult<ResolvedPath>|
        #[trigger] spec_resolve(user, path, l1, rp) && prefix_of(l1, log) && match rp {
            Err(e) => log.len() == l1.len() && r == Err::<Vec<DirListing>, FsError>(e),
            Ok(ResolvedPath::Note { .. }) => log.len() == l1.len() && r == Err::<Vec<DirListing>, FsError>(
                FsError::Forbidden,
            ),
            Ok(ResolvedPath::Root) => listed(user, None, log.skip(l1.len() as int), r),
            Ok(ResolvedPath::Folder { id }) => listed(user, Some(id@), log.skip(l1.len() as int), r),
        };
    let tail = log.skip(l1.len() as int);
    match rp {
        Ok(ResolvedPath::Root) => {
            lemma_listed_notes(user, None, tail, r);
            assert(tail[1] == log.last());
            assert(tail[0] == log[log.len() - 2]);
        },
        Ok(ResolvedPath::Folder { id }) => {
            lemma_listed_notes(user, Some(id@), tail, r);
            assert(tail[1] == log.last());
            assert(tail[0] == log[log.len() - 2]);
        },
        _ => {},
    }
}

/// The metadata of a path carries the times of its row: a file's are its
/// note's stored creation and update times and its length that of the
/// note's content in UTF-8, and a directory other than the top has its
/// folder's stored times; the row is what the last statement gave.
pub proof fn law_metadata_carries_row_times(user: Seq<char>, path: Seq<char>, log: Seq<Call>, r: FsResult<EntryMeta>)
    requires
        spec_metadata(user, path, log, r),
        r is Ok,
    ensures
        !r->Ok_0.is_dir ==> (spec_note_row(row_answer(log.last())) matches Ok(n) && {
            &&& r->Ok_0.created == spec_parse_stored_time(n.created_at)
            &&& r->Ok_0.modified == spec_parse_stored_time(n.updated_at)
            &&& r->Ok_0.len == encode_utf8(n.content@).len() as u64
        }),
        r->Ok_0.is_dir && log.len() > 0 ==> (spec_folder_row(row_answer(log.last())) matches Ok(f) && {
            &&& r->Ok_0.created == spec_parse_stored_time(f.created_at)
            &&& r->Ok_0.modified == spec_parse_stored_time(f.updated_at)
        }),
{
    let (l1, rp) = choose|l1: Seq<Call>, rp: FsResult<ResolvedPath>|
        #[trigger] spec_resolve(user, path, l1, rp) && prefix_of(l1, log) && meta_after(
            user,
            rp,
            log.skip(l1.len() as int),
            r,
        );
    let tail = log.skip(l1.len() as int);
    match rp {
        Ok(ResolvedPath::Note { parent_id, title, syntax }) => {
            let n = choose|n: FsResult<NoteData>|
                #[trigger] spec_get_note(user, ostring(parent_id), title@, syntax@, tail, n) && r == (match n {
                    Ok(note) => Ok::<EntryMeta, FsError>(spec_note_meta(note)),
                    Err(e) => Err(e),
                });
            assert(tail[0] == log.last());
        },
        Ok(ResolvedPath::Folder { id }) => {
            let g = choose|g: FsResult<FolderData>|
                #[trigger] spec_get_folder(user, id@, tail, g) && r == (match g {
                    Ok(f) => Ok::<EntryMeta, FsError>(spec_folder_meta(f)),
                    Err(e) => Err(e),
                });
            assert(tail[0] == log.last());
        },
        Ok(ResolvedPath::Root) => {
            lemma_resolved_root_asks_nothing(user, path, l1);
        },
        Err(_) => {},
    }
}

/// An opened file starts out empty when the client writes or appends with
/// truncation, and holds its note's content in UTF-8 otherwise: truncation
/// drops what an existing note held, and a note just created holds
/// nothing.
pub proof fn law_truncating_opens_empty(
    fsv: (Seq<char>, Seq<char>),
    path: Seq<char>,
    o: OpenFlags,
    log: Seq<Call>,
    r: FsResult<SqliteDavFile>,
)
    requires
        spec_open(fsv, path, o, log, r),
        r is Ok,
    ensures
        r->Ok_0.data_view() == (if (o.write || o.append) && o.truncate {
            Seq::<u8>::empty()
        } else {
            encode_utf8(r->Ok_0.note_view().content@)
        }),
{
    let f = r->Ok_0;
    let (l1, rp) = choose|l1: Seq<Call>, rp: FsResult<ResolvedPath>|
        #[trigger] spec_resolve(fsv.1, path, l1, rp) && prefix_of(l1, log) && open_after(
            fsv,
            path,
            o,
            rp,
            log.skip(l1.len() as int),
            r,
        );
    if !(rp matches Ok(ResolvedPath::Note { .. })) {
        assert(f.note_view().content@ == Seq::<char>::empty() && f.data_view().len() == 0) by {
            let tail = log.skip(l1.len() as int);
            let c = spec_path_components(path)->0;
            let (t, s) = spec_parse_filename(c.last())->0;
            let (l2, w) = choose|l2: Seq<Call>, w: FsResult<Option<Seq<char>>>|
                #[trigger] spec_walk(fsv.1, c, 0, c.len() - 1, None, l2, w) && prefix_of(l2, tail) && match w {
                    Err(e) => tail.len() == l2.len() && r == Err::<SqliteDavFile, FsError>(e),
                    Ok(parent) => stored_file(fsv, parent, t, s, tail.skip(l2.len() as int), r),
                };
            let parent = w->Ok_0;
            let (ts, new_id, id) = choose|ts: Seq<char>, new_id: String, id: FsResult<String>|
                #![trigger spec_store_note_at(fsv.1, parent, t, s, Seq::empty(), ts, new_id, tail.skip(l2.len() as int), id)]
                is_stamp(Some(ts)) && spec_store_note_at(fsv.1, parent, t, s, Seq::empty(), ts, new_id, tail.skip(l2.len() as int), id)
                    && match id {
                    Err(e) => r == Err::<SqliteDavFile, FsError>(e),
                    Ok(nid) => r matches Ok(f) && created_over(f, nid, t, s, parent, fsv, ts),
                };
        }
        assert(encode_utf8(f.note_view().content@) == Seq::<u8>::empty());
        assert(f.data_view() =~= Seq::<u8>::empty());
    }
}

/// Only a path of no names resolves to the top, and it asks nothing.
proof fn lemma_resolved_root_asks_nothing(user: Seq<char>, path: Seq<char>, log: Seq<Call>)
    requires
        spec_resolve(user, path, log, Ok(ResolvedPath::Root)),
    ensures
        log.len() == 0,
{
    if let Some(c) = spec_path_components(path) {
        let r = Ok::<ResolvedPath, FsError>(ResolvedPath::Root);
        let (l1, w) = choose|l1: Seq<Call>, w: FsResult<Option<Seq<char>>>|
            #[trigger] spec_walk(user, c, 0, c.len() - 1, None, l1, w) && prefix_of(l1, log) && match w {
                Err(e) => log.len() == l1.len() && r == Err::<ResolvedPath, FsError>(e),
                Ok(parent) => spec_resolve_in(user, parent, c.last(), log.skip(l1.len() as int), r),
            };
        if let Ok(parent) = w {
            law_a_last_name_that_is_no_note_is_a_folder_title(user, parent, c.last(), log.skip(l1.len() as int), r);
        }
    }
}

/// Whether two texts are equal.
pub fn str_eq(a: &str, b: &str) -> (r: bool)
    ensures
        r == (a@ == b@),
{
    let x = crate::text::chars_of(a);
    let y = crate::text::chars_of(b);
    if x.len() != y.len() {
        return false;
    }
    let mut i: usize = 0;
    while i < x.len()
        invariant
            x@ == a@,
            y@ == b@,
            x@.len() == y@.len(),
            i <= x@.len(),
            forall|k: int| 0 <= k < i ==> x@[k] == y@[k],
        decreases x@.len() - i,
    {
        if x[i] != y[i] {
            return false;
        }
        i = i + 1;
    }
    assert(x@ =~= y@);
    true
}

/// `uuid::Uuid::new_v4().to_string()`: a fresh random id. It is random:
/// nothing is stated.
#[verifier::external_body]
fn new_uuid() -> (r: String) {
    uuid::Uuid::new_v4().to_string()
}

} // verus!
