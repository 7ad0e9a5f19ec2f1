//! The result store: a durable, deduplicated collection of discovered
//! valleys, keyed by the canonical string form of the layout and backed by a
//! SQLite database.  Deduplication rests on a storage-level uniqueness
//! constraint with insert-or-ignore semantics, so concurrent inserts of the
//! same layout leave exactly one record.

use vstd::prelude::*;
use crate::climb::OptimizationResult;
use crate::layout::Layout;

verus! {

#[verifier::external_type_specification]
#[verifier::external_body]
pub struct ExConnection(rusqlite::Connection);

#[verifier::external_type_specification]
#[verifier::external_body]
pub struct ExSqliteError(rusqlite::Error);

/// What went wrong while talking to the backing store.
#[derive(Clone, Copy, Debug, PartialEq, Eq)]
pub enum StoreError {
    /// The database could not be opened.
    Open,
    /// The schema could not be created.
    Init,
    /// A lookup failed.
    Query,
    /// An insert failed.
    Insert,
}

/// Relies on rusqlite's `Connection::open`: opens the database at `path`,
/// creating it if absent; the outcome depends on the machine's disk state.
#[verifier::external_body]
fn open_connection(path: &str) -> (r: Result<rusqlite::Connection, rusqlite::Error>) {
    rusqlite::Connection::open(path)
}

/// Relies on rusqlite's `Connection::execute_batch`: runs the SQL
/// statements in `sql` without parameters.
#[verifier::external_body]
fn run_batch(conn: &rusqlite::Connection, sql: &str) -> (r: Result<(), rusqlite::Error>) {
    conn.execute_batch(sql)
}

/// Relies on rusqlite's `Connection::execute`: runs `sql` with the three
/// parameters bound, and reports in `Ok` the number of rows it changed.
#[verifier::external_body]
fn run_insert(
    conn: &rusqlite::Connection,
    sql: &str,
    key: &str,
    cost: u64,
    steps: u64,
) -> (r: Result<usize, rusqlite::Error>) {
    conn.execute(sql, (key, cost, steps))
}

/// Relies on rusqlite's `Connection::query_row`: runs `sql` with one bound
/// parameter and reads the first row of the answer as three integer
/// columns.
#[verifier::external_body]
fn run_query_triple(
    conn: &rusqlite::Connection,
    sql: &str,
    key: &str,
) -> (r: Result<(i64, i64, i64), rusqlite::Error>) {
    conn.query_row(sql, (key,), |row| Ok((row.get(0)?, row.get(1)?, row.get(2)?)))
}

/// A handle on the durable collection of discovered valleys.  The layout
/// column carries a uniqueness constraint, so the store never holds two
/// records for one layout, whatever the order or concurrency of the
/// inserts.
pub struct ResultStore {
    conn: rusqlite::Connection,
}

/// What a queried row denotes as a stored record: no matching row means the
/// layout is absent; a matching row carries its cost and step count, with
/// negative values (which the store never writes) clamped to 0.
pub open spec fn spec_read_row(n: i64, cost: i64, steps: i64) -> Option<(u64, u64)> {
    if n == 0 {
        None
    } else {
        Some(
            (
                (if cost >= 0 {
                    cost as u64
                } else {
                    0u64
                }),
                (if steps >= 0 {
                    steps as u64
                } else {
                    0u64
                }),
            ),
        )
    }
}

/// Interprets a queried row, exactly as `spec_read_row` says.
fn read_row(n: i64, cost: i64, steps: i64) -> (r: Option<(u64, u64)>)
    ensures
        r == spec_read_row(n, cost, steps),
{
    if n == 0 {
        None
    } else {
        let c: u64 = if cost >= 0 {
            cost as u64
        } else {
            0
        };
        let s: u64 = if steps >= 0 {
            steps as u64
        } else {
            0
        };
        Some((c, s))
    }
}

/// Interprets the changed-row count of an insert: a record was created
/// exactly when at least one row changed.
fn row_created(n: usize) -> (created: bool)
    ensures
        created == (n > 0),
{
    n > 0
}

impl ResultStore {
    /// Opens the store at `path`, creating the database and its schema if
    /// absent and leaving them untouched if present.  Fails with `Open`
    /// when the database cannot be opened, with `Init` when the schema
    /// cannot be created, and with nothing else.
    pub fn open(path: &str) -> (r: Result<ResultStore, StoreError>)
        ensures
            r matches Err(e) ==> (e == StoreError::Open || e == StoreError::Init),
    {
        let conn = match open_connection(path) {
            Ok(c) => c,
            Err(_) => {
                return Err(StoreError::Open);
            },
        };
        let made = run_batch(
            &conn,
            "CREATE TABLE IF NOT EXISTS layouts (\
             id INTEGER PRIMARY KEY,\
             layout TEXT UNIQUE,\
             cost INTEGER,\
             steps INTEGER\
             )",
        );
        match made {
            Ok(_) => Ok(ResultStore { conn }),
            Err(_) => Err(StoreError::Init),
        }
    }

    /// Reads the record stored for `layout`, if any, as its cost and step
    /// count: the queried row is interpreted exactly as `spec_read_row`
    /// says.  A failed lookup gives `Query` and nothing else.
    pub fn get(&self, layout: &Layout) -> (r: Result<Option<(u64, u64)>, StoreError>)
        ensures
            r matches Err(e) ==> e == StoreError::Query,
    {
        let key = layout.canonical_string();
        let row = run_query_triple(
            &self.conn,
            "SELECT COUNT(*), IFNULL(MAX(cost), 0), IFNULL(MAX(steps), 0) \
             FROM layouts WHERE layout = ?1",
            key.as_str(),
        );
        match row {
            Ok((n, cost, steps)) => Ok(read_row(n, cost, steps)),
            Err(_) => Err(StoreError::Query),
        }
    }

    /// True exactly when a record for `layout` is already stored: the
    /// lookup of `get`, reduced to presence.  A failed lookup gives
    /// `Query` and nothing else.
    pub fn contains(&self, layout: &Layout) -> (r: Result<bool, StoreError>)
        ensures
            r matches Err(e) ==> e == StoreError::Query,
    {
        match self.get(layout) {
            Ok(found) => Ok(found.is_some()),
            Err(_) => Err(StoreError::Query),
        }
    }

    /// Persists `result` unless a record for its layout is already stored,
    /// in which case nothing changes; the uniqueness constraint makes the
    /// check and the insert one atomic storage operation.  `Ok(true)` says
    /// a new record was created — at least one row changed — and
    /// `Ok(false)` that one already existed and no row changed.  A failed
    /// insert gives `Insert` and nothing else.
    pub fn insert(&self, result: &OptimizationResult) -> (r: Result<bool, StoreError>)
        ensures
            r matches Err(e) ==> e == StoreError::Insert,
    {
        let key = result.layout.canonical_string();
        let changed = run_insert(
            &self.conn,
            "INSERT OR IGNORE INTO layouts (layout, cost, steps) VALUES (?1, ?2, ?3)",
            key.as_str(),
            result.cost,
            result.steps,
        );
        match changed {
            Ok(n) => Ok(row_created(n)),
            Err(_) => Err(StoreError::Insert),
        }
    }
}

} // verus!
