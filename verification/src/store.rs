//! Access to the SQLite database through `rusqlite`: opening connections,
//! running statements, and reading rows as text columns.
//!
//! What a query returns depends on what is on disk, so the trusted items here
//! state nothing of the rows they hand back beyond their shape. An open
//! [`Db`] carries a ghost record of the file it was opened on, how, and every
//! statement handed to it with what the database answered. Only the trusted
//! items that open a connection or hand it a statement set that record, as
//! they make the call; the operations built on them state their effects over
//! it, and the logic that interprets the answers is verified in the modules
//! that call them.

use vstd::prelude::*;
use rusqlite::{Connection, OpenFlags, Row};

verus! {

#[verifier::external_type_specification]
#[verifier::external_body]
pub struct ExConnection(Connection);

#[verifier::external_type_specification]
#[verifier::external_body]
pub struct ExRow<'a>(Row<'a>);

/// A failed database call: the query found no row, or anything else (with
/// the error's message).
#[derive(Debug, Clone, PartialEq, Eq)]
pub enum DbError {
    NoRows,
    Other(String),
}

/// `Row::get::<usize, Option<String>>`: column `i` of a row as text, `None`
/// for NULL; an error for a column that is missing or not text.
#[verifier::external_body]
pub(crate) fn row_column(row: &Row, i: usize) -> (r: Result<Option<String>, DbError>) {
    match row.get::<usize, Option<String>>(i) {
        Ok(v) => Ok(v),
        Err(rusqlite::Error::QueryReturnedNoRows) => Err(DbError::NoRows),
        Err(e) => Err(DbError::Other(e.to_string())),
    }
}

/// The first `n` columns of a row, as text.
pub fn read_columns(row: &Row, n: usize) -> (r: Result<Vec<Option<String>>, DbError>)
    ensures
        r matches Ok(v) ==> v@.len() == n,
        n == 0 ==> (r matches Ok(v) && v@.len() == 0),
{
    let mut out: Vec<Option<String>> = Vec::new();
    let mut i: usize = 0;
    while i < n
        invariant
            i <= n,
            out@.len() == i,
        decreases n - i,
    {
        let c = row_column(row, i);
        match c {
            Ok(v) => out.push(v),
            Err(e) => {
                return Err(e);
            },
        }
        i = i + 1;
    }
    Ok(out)
}

/// A statement as handed to the database: its SQL text and its parameters,
/// bound in order (`None` binds NULL).
pub struct Stmt {
    pub sql: String,
    pub args: Vec<Option<String>>,
}

/// Parameters by their characters.
pub open spec fn args_view(a: Seq<Option<String>>) -> Seq<Option<Seq<char>>> {
    a.map_values(|o: Option<String>| match o {
        Some(s) => Some(s@),
        None => None,
    })
}

/// Whether `s` is the statement with SQL text `sql` and parameters `args`.
pub open spec fn is_stmt(s: Stmt, sql: Seq<char>, args: Seq<Option<Seq<char>>>) -> bool {
    s.sql@ == sql && args_view(s.args@) == args
}

/// What the database answered to a statement.
pub enum Answer {
    /// The first row of a query, read as text columns.
    Row(Result<Vec<Option<String>>, DbError>),
    /// The number of rows a change touched.
    Exec(Result<usize, DbError>),
    /// The rows of a query in order, each read or failed; the query itself
    /// may fail.
    Rows(Result<Vec<Result<Vec<Option<String>>, DbError>>, DbError>),
}

/// One statement handed to the database and what it answered.
pub type Call = (Stmt, Answer);

/// How a connection was opened.
pub enum OpenMode {
    /// `rusqlite`'s default flags: read-write, created if missing, the name
    /// may be a URI.
    Defaults,
    /// Read-only.
    ReadOnly,
    /// Read-write, created if missing.
    ReadWriteCreate,
}

/// An open database, with the record of the file it was opened on, how it
/// was opened, and the statements handed to it on this connection with
/// their answers, in order.
pub struct Db {
    conn: Connection,
    path: Ghost<Seq<char>>,
    mode: Ghost<OpenMode>,
    calls: Ghost<Seq<Call>>,
}

impl Db {
    /// The statements handed to this connection so far, with their answers.
    pub closed spec fn calls(&self) -> Seq<Call> {
        self.calls@
    }

    /// The path the connection was opened on.
    pub closed spec fn path(&self) -> Seq<char> {
        self.path@
    }

    /// How the connection was opened.
    pub closed spec fn mode(&self) -> OpenMode {
        self.mode@
    }
}

/// Whether `d` is a connection just opened on `path` with `mode`: nothing
/// is handed to it yet.
pub open spec fn fresh(d: Db, path: Seq<char>, mode: OpenMode) -> bool {
    &&& d.calls() == Seq::<Call>::empty()
    &&& d.path() == path
    &&& d.mode() == mode
}

/// Whether `after` is the same connection as `before`.
pub open spec fn same_connection(before: Db, after: Db) -> bool {
    after.path() == before.path() && after.mode() == before.mode()
}

/// The calls made on a connection between two moments.
pub open spec fn calls_since(before: Db, after: Db) -> Seq<Call> {
    after.calls().skip(before.calls().len() as int)
}

/// Whether the record of `after` extends that of `before`, on the same
/// connection.
pub open spec fn extends(before: Db, after: Db) -> bool {
    &&& same_connection(before, after)
    &&& after.calls().len() >= before.calls().len()
    &&& after.calls().take(before.calls().len() as int) == before.calls()
}

/// `Connection::open`: opens (creating it if need be) the database at
/// `path` with the default flags, and records that. Whether it succeeds
/// depends on the file system: nothing more is stated.
#[verifier::external_body]
pub fn connect(path: &str) -> (r: Result<Db, DbError>)
    ensures
        r matches Ok(d) ==> fresh(d, path@, OpenMode::Defaults),
{
    match Connection::open(path) {
        Ok(conn) => Ok(Db { conn, path: Ghost(path@), mode: Ghost(OpenMode::Defaults), calls: Ghost(Seq::empty()) }),
        Err(e) => Err(DbError::Other(e.to_string())),
    }
}

/// `Connection::open_with_flags(path, SQLITE_OPEN_READ_ONLY)`, recorded;
/// the error's message on failure. Whether it succeeds depends on the file
/// system: nothing more is stated.
#[verifier::external_body]
pub fn open_read_only(path: &str) -> (r: Result<Db, String>)
    ensures
        r matches Ok(d) ==> fresh(d, path@, OpenMode::ReadOnly),
{
    match Connection::open_with_flags(path, OpenFlags::SQLITE_OPEN_READ_ONLY) {
        Ok(conn) => Ok(Db { conn, path: Ghost(path@), mode: Ghost(OpenMode::ReadOnly), calls: Ghost(Seq::empty()) }),
        Err(e) => Err(e.to_string()),
    }
}

/// `Connection::open_with_flags(path, SQLITE_OPEN_READ_WRITE |
/// SQLITE_OPEN_CREATE)`, recorded; the error's message on failure. Whether
/// it succeeds depends on the file system: nothing more is stated.
#[verifier::external_body]
pub fn open_read_write(path: &str) -> (r: Result<Db, String>)
    ensures
        r matches Ok(d) ==> fresh(d, path@, OpenMode::ReadWriteCreate),
{
    let flags = OpenFlags::SQLITE_OPEN_READ_WRITE | OpenFlags::SQLITE_OPEN_CREATE;
    match Connection::open_with_flags(path, flags) {
        Ok(conn) => Ok(Db { conn, path: Ghost(path@), mode: Ghost(OpenMode::ReadWriteCreate), calls: Ghost(Seq::empty()) }),
        Err(e) => Err(e.to_string()),
    }
}

/// `Connection::query_row` with `stmt`'s text parameters bound in order,
/// reading the first `ncols` columns of the first row (through
/// `read_columns`); `Err(NoRows)` when the query gives no row. The call and
/// its answer are recorded. Which row comes back depends on the database.
#[verifier::external_body]
pub fn query_row(db: &mut Db, stmt: Stmt, ncols: usize) -> (r: Result<Vec<Option<String>>, DbError>)
    ensures
        r matches Ok(v) ==> v@.len() == ncols,
        extends(*old(db), *final(db)),
        calls_since(*old(db), *final(db)) == seq![(stmt, Answer::Row(r))],
{
    let args = rusqlite::params_from_iter(stmt.args.iter());
    match db.conn.query_row(stmt.sql.as_str(), args, |row| Ok(read_columns(row, ncols))) {
        Ok(inner) => inner,
        Err(rusqlite::Error::QueryReturnedNoRows) => Err(DbError::NoRows),
        Err(e) => Err(DbError::Other(e.to_string())),
    }
}

/// `Connection::execute` with `stmt`'s text parameters bound in order: the
/// number of rows changed. The call and its answer are recorded; the
/// outcome depends on the database.
#[verifier::external_body]
pub fn execute(db: &mut Db, stmt: Stmt) -> (r: Result<usize, DbError>)
    ensures
        extends(*old(db), *final(db)),
        calls_since(*old(db), *final(db)) == seq![(stmt, Answer::Exec(r))],
{
    match db.conn.execute(stmt.sql.as_str(), rusqlite::params_from_iter(stmt.args.iter())) {
        Ok(n) => Ok(n),
        Err(rusqlite::Error::QueryReturnedNoRows) => Err(DbError::NoRows),
        Err(e) => Err(DbError::Other(e.to_string())),
    }
}

/// `Connection::prepare` then `Statement::query_map` with `stmt`'s text
/// parameters bound in order: every row the query gives, its first `ncols`
/// columns read through `read_columns`, or the error fetching it. The call
/// and its answer are recorded; the rows depend on the database.
#[verifier::external_body]
pub fn query_rows(db: &mut Db, stmt: Stmt, ncols: usize) -> (r: Result<
    Vec<Result<Vec<Option<String>>, DbError>>,
    DbError,
>)
    ensures
        extends(*old(db), *final(db)),
        calls_since(*old(db), *final(db)) == seq![(stmt, Answer::Rows(r))],
        r matches Ok(rows) ==> forall|k: int|
            0 <= k < rows@.len() ==> (#[trigger] rows@[k] matches Ok(v) ==> v@.len() == ncols),
{
    let mut st = db.conn.prepare(stmt.sql.as_str()).map_err(|e| DbError::Other(e.to_string()))?;
    let args = rusqlite::params_from_iter(stmt.args.iter());
    let rows = st.query_map(args, |row| Ok(read_columns(row, ncols))).map_err(|e| DbError::Other(e.to_string()))?;
    let out = rows.map(|item| item.unwrap_or_else(|e| Err(DbError::Other(e.to_string())))).collect();
    Ok(out)
}

/// Whether `first` is what `log` begins with.
pub open spec fn prefix_of(first: Seq<Call>, log: Seq<Call>) -> bool {
    first.len() <= log.len() && log.take(first.len() as int) == first
}

/// Nothing handed to a connection is forgotten: what was handed between
/// `a` and `c` is what was handed between `a` and `b`, then between `b` and
/// `c`.
pub proof fn lemma_split(a: Db, b: Db, c: Db)
    requires
        extends(a, b),
        extends(b, c),
    ensures
        extends(a, c),
        prefix_of(calls_since(a, b), calls_since(a, c)),
        calls_since(a, c).skip(calls_since(a, b).len() as int) == calls_since(b, c),
        calls_since(a, c).len() == calls_since(a, b).len() + calls_since(b, c).len(),
        calls_since(a, c) == calls_since(a, b) + calls_since(b, c),
{
    let la = a.calls().len() as int;
    let lb = b.calls().len() as int;
    assert(c.calls().take(lb).take(la) =~= c.calls().take(la));
    assert(calls_since(a, c).take(lb - la) =~= calls_since(a, b));
    assert(calls_since(a, c).skip(lb - la) =~= calls_since(b, c));
    assert(calls_since(a, c) =~= calls_since(a, b) + calls_since(b, c));
}

/// A connection that nothing was handed to since.
pub proof fn lemma_unchanged(a: Db)
    ensures
        extends(a, a),
        calls_since(a, a) == Seq::<Call>::empty(),
{
    assert(a.calls().take(a.calls().len() as int) =~= a.calls());
    assert(calls_since(a, a) =~= Seq::<Call>::empty());
}

} // verus!
