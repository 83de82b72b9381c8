//! The durable metrics store: an embedded SQLite database holding one row
//! per (alias, cycle) measurement, read back ordered by timestamp, plus the
//! chat-subscription bookkeeping of the frontend.
//!
//! Every call into the database engine goes through a small trusted wrapper;
//! everything around those calls — argument validation, row filtering, the
//! shape of what a query returns — is verified.

use crate::metrics::MetricRecord;
use crate::window::sorted_by_timestamp;
use vstd::prelude::*;

verus! {

/// rusqlite's connection handle, opaque to the proofs; all access goes
/// through the trusted wrappers below.
#[verifier::external_type_specification]
#[verifier::external_body]
pub struct ExConnection(rusqlite::Connection);

/// rusqlite's error type, opaque to the proofs.
#[verifier::external_type_specification]
#[verifier::external_body]
pub struct ExRusqliteError(rusqlite::Error);

/// Why a store operation failed.
#[derive(Clone, Copy, PartialEq, Eq, Structural, Debug)]
pub enum StoreError {
    /// The offered row violates the row invariant (loss above 100% or a
    /// numeric field too large for a signed 64-bit column).
    InvalidRecord,
    /// The backing engine reported a failure.
    Backend,
}

/// Relies on rusqlite's `Connection::open`: opens (creating it if absent)
/// the database file at `path`. Nothing is assumed of the outcome.
#[verifier::external_body]
fn open_connection(path: &str) -> (r: Result<rusqlite::Connection, rusqlite::Error>) {
    rusqlite::Connection::open(path)
}

/// Relies on rusqlite's `Connection::execute_batch` to run the schema
/// statements. Nothing is assumed of the outcome.
#[verifier::external_body]
fn create_schema(conn: &rusqlite::Connection) -> (r: Result<(), rusqlite::Error>) {
    conn.execute_batch(
        "CREATE TABLE IF NOT EXISTS subscriptions (chat_id INTEGER PRIMARY KEY);
         CREATE TABLE IF NOT EXISTS metrics (
             id INTEGER PRIMARY KEY AUTOINCREMENT,
             alias TEXT NOT NULL, ts INTEGER NOT NULL,
             latency INTEGER NOT NULL, loss_rate INTEGER NOT NULL);
         CREATE INDEX IF NOT EXISTS idx_metrics_ts_alias ON metrics(ts, alias);",
    )
}

/// Relies on rusqlite's `Connection::execute` running an INSERT OR IGNORE on
/// the subscriptions table. Nothing is assumed of the outcome.
#[verifier::external_body]
fn insert_subscription_row(conn: &rusqlite::Connection, chat_id: i64) -> (r: Result<
    usize,
    rusqlite::Error,
>) {
    conn.execute("INSERT OR IGNORE INTO subscriptions(chat_id) VALUES(?1)", (chat_id,))
}

/// Relies on rusqlite's `Connection::execute` running a DELETE on the
/// subscriptions table. Nothing is assumed of the outcome.
#[verifier::external_body]
fn delete_subscription_row(conn: &rusqlite::Connection, chat_id: i64) -> (r: Result<
    usize,
    rusqlite::Error,
>) {
    conn.execute("DELETE FROM subscriptions WHERE chat_id=?1", (chat_id,))
}

/// Relies on rusqlite's `Connection::query_row` (the closure only reads the
/// single column) and on SQLite's EXISTS, whose value is 0 or 1.
#[verifier::external_body]
fn subscription_exists_row(conn: &rusqlite::Connection, chat_id: i64) -> (r: Result<
    i64,
    rusqlite::Error,
>)
    ensures
        r matches Ok(v) ==> v == 0 || v == 1,
{
    conn.query_row(
        "SELECT EXISTS(SELECT 1 FROM subscriptions WHERE chat_id=?1)",
        (chat_id,),
        |row| row.get(0),
    )
}

/// Relies on rusqlite's `Connection::execute` running an INSERT on the
/// metrics table. Nothing is assumed of the outcome.
#[verifier::external_body]
fn insert_metric_row(
    conn: &rusqlite::Connection,
    alias: &str,
    ts: i64,
    latency: i64,
    loss: i64,
) -> (r: Result<usize, rusqlite::Error>) {
    conn.execute(
        "INSERT INTO metrics(alias, ts, latency, loss_rate) VALUES(?1,?2,?3,?4)",
        (alias, ts, latency, loss),
    )
}

/// Relies on rusqlite's `Connection::prepare` and `Statement::query_map`
/// (the closure only reads the four columns) and on SQLite's WHERE and ORDER
/// BY: every returned row's timestamp is at least `since`, and the rows come
/// in ascending timestamp order.
#[verifier::external_body]
fn metric_rows_since(conn: &rusqlite::Connection, since: i64) -> (r: Result<
    Vec<(String, i64, i64, i64)>,
    rusqlite::Error,
>)
    ensures
        r matches Ok(rows) ==> forall|a: int, b: int|
            0 <= a <= b < rows@.len() ==> (#[trigger] rows@[a]).1 <= (#[trigger] rows@[b]).1,
        r matches Ok(rows) ==> forall|a: int| 0 <= a < rows@.len() ==> since <= (#[trigger] rows@[a]).1,
{
    let mut stmt = conn.prepare(
        "SELECT alias, ts, latency, loss_rate FROM metrics WHERE ts>=?1 ORDER BY ts",
    )?;
    let rows = stmt.query_map((since,), |row| {
        Ok((row.get(0)?, row.get(1)?, row.get(2)?, row.get(3)?))
    })?;
    rows.collect()
}

/// A raw row is acceptable: no negative number and loss at most 100%.
pub open spec fn row_ok(row: (String, i64, i64, i64)) -> bool {
    0 <= row.1 && 0 <= row.2 && 0 <= row.3 <= 10000
}

/// The acceptable raw rows, in order, as records.
pub open spec fn records_of_rows(rows: Seq<(String, i64, i64, i64)>) -> Seq<MetricRecord>
    decreases rows.len(),
{
    if rows.len() == 0 {
        Seq::empty()
    } else {
        let rest = records_of_rows(rows.drop_last());
        if row_ok(rows.last()) {
            rest.push(
                MetricRecord {
                    alias: rows.last().0,
                    timestamp: rows.last().1 as u64,
                    latency_ms: rows.last().2 as u64,
                    loss_cp: rows.last().3 as u64,
                },
            )
        } else {
            rest
        }
    }
}

/// Converts the acceptable raw rows to records, keeping their order.
fn rows_to_records(rows: &Vec<(String, i64, i64, i64)>) -> (records: Vec<MetricRecord>)
    ensures
        records@ == records_of_rows(rows@),
{
    let mut records: Vec<MetricRecord> = Vec::new();
    let mut a: usize = 0;
    while a < rows.len()
        invariant
            a <= rows@.len(),
            records@ == records_of_rows(rows@.subrange(0, a as int)),
        decreases rows@.len() - a,
    {
        proof {
            assert(rows@.subrange(0, a + 1 as int).drop_last() =~= rows@.subrange(0, a as int));
            assert(rows@.subrange(0, a + 1 as int).last() == rows@[a as int]);
        }
        let ts = rows[a].1;
        let lat = rows[a].2;
        let loss = rows[a].3;
        if 0 <= ts && 0 <= lat && 0 <= loss && loss <= 10000 {
            records.push(
                MetricRecord {
                    alias: rows[a].0.clone(),
                    timestamp: ts as u64,
                    latency_ms: lat as u64,
                    loss_cp: loss as u64,
                },
            );
        }
        a = a + 1;
    }
    proof {
        assert(rows@.subrange(0, rows@.len() as int) =~= rows@);
    }
    records
}

/// Every record read back from acceptable rows is well formed, at least as
/// recent as every row is, and the records keep the rows' timestamp order.
proof fn lemma_records_of_rows_props(rows: Seq<(String, i64, i64, i64)>, since: int)
    requires
        forall|a: int, b: int|
            0 <= a <= b < rows.len() ==> (#[trigger] rows[a]).1 <= (#[trigger] rows[b]).1,
        forall|a: int| 0 <= a < rows.len() ==> since <= (#[trigger] rows[a]).1,
    ensures
        sorted_by_timestamp(records_of_rows(rows)),
        forall|i: int|
            0 <= i < records_of_rows(rows).len() ==> (#[trigger] records_of_rows(rows)[i]).wf(),
        forall|i: int|
            0 <= i < records_of_rows(rows).len() ==> since <= (#[trigger] records_of_rows(
                rows,
            )[i]).timestamp,
        forall|i: int|
            0 <= i < records_of_rows(rows).len() ==> rows.len() > 0 && (#[trigger] records_of_rows(
                rows,
            )[i]).timestamp <= rows.last().1,
    decreases rows.len(),
{
    if rows.len() > 0 {
        let prev = rows.drop_last();
        lemma_records_of_rows_props(prev, since);
        let rest = records_of_rows(prev);
        assert(forall|i: int| 0 <= i < rest.len() ==> prev.len() > 0 && (#[trigger] rest[i]).timestamp <= prev.last().1);
        if prev.len() > 0 {
            assert(prev.last() == rows[rows.len() - 2]);
            assert(prev.last().1 <= rows.last().1);
        }
        if row_ok(rows.last()) {
            let r = records_of_rows(rows);
            assert(r == rest.push(
                MetricRecord {
                    alias: rows.last().0,
                    timestamp: rows.last().1 as u64,
                    latency_ms: rows.last().2 as u64,
                    loss_cp: rows.last().3 as u64,
                },
            ));
            assert(forall|i: int| 0 <= i < rest.len() ==> r[i] == rest[i]);
        }
    }
}

/// The metrics store. It owns its connection exclusively; whoever shares the
/// store across tasks serializes access around it.
pub struct Db {
    conn: rusqlite::Connection,
}

impl Db {
    /// Opens (creating it if needed) the database at `path` and ensures the
    /// schema exists.
    pub fn new(path: &str) -> (r: Result<Db, StoreError>)
        ensures
            r matches Err(e) ==> e == StoreError::Backend,
    {
        match open_connection(path) {
            Ok(conn) => match create_schema(&conn) {
                Ok(()) => Ok(Db { conn }),
                Err(_) => Err(StoreError::Backend),
            },
            Err(_) => Err(StoreError::Backend),
        }
    }

    /// Records that `chat_id` subscribed; subscribing twice is harmless.
    pub fn add_subscription(&self, chat_id: i64) -> (r: Result<(), StoreError>)
        ensures
            r matches Err(e) ==> e == StoreError::Backend,
    {
        match insert_subscription_row(&self.conn, chat_id) {
            Ok(_) => Ok(()),
            Err(_) => Err(StoreError::Backend),
        }
    }

    /// Removes `chat_id`'s subscription, if any.
    pub fn remove_subscription(&self, chat_id: i64) -> (r: Result<(), StoreError>)
        ensures
            r matches Err(e) ==> e == StoreError::Backend,
    {
        match delete_subscription_row(&self.conn, chat_id) {
            Ok(_) => Ok(()),
            Err(_) => Err(StoreError::Backend),
        }
    }

    /// Whether `chat_id` is currently subscribed.
    pub fn is_subscribed(&self, chat_id: i64) -> (r: Result<bool, StoreError>)
        ensures
            r matches Err(e) ==> e == StoreError::Backend,
    {
        match subscription_exists_row(&self.conn, chat_id) {
            Ok(v) => Ok(v != 0),
            Err(_) => Err(StoreError::Backend),
        }
    }

    /// Appends one measurement row. A row whose loss exceeds 100% or whose
    /// numeric fields do not fit a signed 64-bit column is rejected as
    /// invalid, and only such a row is; any other failure comes from the
    /// backing engine and leaves the caller free to continue.
    pub fn insert_metric(&self, alias: &str, timestamp: u64, latency_ms: u64, loss_cp: u64) -> (r:
        Result<(), StoreError>)
        ensures
            (r == Err::<(), StoreError>(StoreError::InvalidRecord)) <==> !(loss_cp <= 10000
                && timestamp <= i64::MAX && latency_ms <= i64::MAX),
    {
        if !(loss_cp <= 10000 && timestamp <= i64::MAX as u64 && latency_ms <= i64::MAX as u64) {
            return Err(StoreError::InvalidRecord);
        }
        match insert_metric_row(
            &self.conn,
            alias,
            timestamp as i64,
            latency_ms as i64,
            loss_cp as i64,
        ) {
            Ok(_) => Ok(()),
            Err(_) => Err(StoreError::Backend),
        }
    }

    /// Reads every measurement with timestamp at least `since`, ordered by
    /// ascending timestamp; rows that do not satisfy the row invariant are
    /// left out. A read failure is surfaced to the caller as a backend
    /// error.
    pub fn query_metrics(&self, since: u64) -> (r: Result<Vec<MetricRecord>, StoreError>)
        ensures
            r matches Ok(records) ==> sorted_by_timestamp(records@),
            r matches Ok(records) ==> forall|i: int|
                0 <= i < records@.len() ==> (#[trigger] records@[i]).wf() && since <= records@[i].timestamp,
            r matches Err(e) ==> e == StoreError::Backend,
    {
        if since > i64::MAX as u64 {
            return Ok(Vec::new());
        }
        match metric_rows_since(&self.conn, since as i64) {
            Ok(rows) => {
                proof {
                    lemma_records_of_rows_props(rows@, since as int);
                }
                Ok(rows_to_records(&rows))
            },
            Err(_) => Err(StoreError::Backend),
        }
    }
}

} // verus!
