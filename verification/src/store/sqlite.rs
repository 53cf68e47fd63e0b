//! The durable store backend: records and runtime configurations live in an
//! embedded relational database with one table each. The database itself is
//! reached only through trusted wrappers whose contracts mirror the two
//! tables — a map from id to row and an append-only configuration list —
//! and everything that converts between rows and records is verified.
//!
//! The model assumes this handle is the only writer of its database file
//! while the store is open.

use vstd::prelude::*;

use crate::store::{
    Record, RecordV, RuntimeConfig, RuntimeConfigV, Store, StoreError, Timestamp,
    MAX_TIMESTAMP_MS,
};
use crate::types::ExecutionId;

verus! {

#[verifier::external_type_specification]
#[verifier::external_body]
pub struct ExConnection(rusqlite::Connection);

/// One row of the record table, as plain values; timestamps stay in their
/// textual form.
pub struct RecordRow {
    pub id: u32,
    pub start_time: String,
    pub stdout: Vec<u8>,
    pub stderr: Vec<u8>,
    pub end_time: String,
    pub exit_code: i32,
    pub diff_add: Option<u32>,
    pub diff_delete: Option<u32>,
    pub previous_id: Option<u32>,
}

/// The mathematical value of a record row, without its key.
pub type RowV = (Seq<char>, Seq<u8>, Seq<u8>, Seq<char>, i32, Option<u32>, Option<u32>, Option<
    u32,
>);

/// The value of one row.
pub open spec fn row_v(row: RecordRow) -> RowV {
    (
        row.start_time@,
        row.stdout@,
        row.stderr@,
        row.end_time@,
        row.exit_code,
        row.diff_add,
        row.diff_delete,
        row.previous_id,
    )
}

/// What the record table of the database behind a connection holds, keyed
/// by id.
pub uninterp spec fn db_records(c: rusqlite::Connection) -> Map<u32, RowV>;

/// What the runtime-configuration table of the database behind a connection
/// holds, in insertion order.
pub uninterp spec fn db_configs(c: rusqlite::Connection) -> Seq<(u64, Seq<char>)>;

/// Whether the record table is empty.
pub open spec fn no_rows(m: Map<u32, RowV>) -> bool {
    m == Map::<u32, RowV>::empty()
}

/// Whether the runtime-configuration table is empty.
pub open spec fn no_configs(s: Seq<(u64, Seq<char>)>) -> bool {
    s.len() == 0
}

/// The RFC 3339 form of an instant, as the outside time library writes it.
pub uninterp spec fn rfc3339_of(ms: i64) -> Seq<char>;

/// The instant an RFC 3339 string denotes, in milliseconds, as the outside
/// time library reads it.
pub uninterp spec fn rfc3339_parse(s: Seq<char>) -> Option<i64>;

/// Relies on `chrono::DateTime::from_timestamp_millis` and `to_rfc3339`:
/// the textual form of a representable instant, which parses back to the
/// same instant. Instants outside years 0000-9999 are excluded: chrono
/// writes them with a five-digit signed year, which its RFC 3339 parser
/// does not read back.
#[verifier::external_body]
fn format_rfc3339_utc(ms: i64) -> (r: Option<String>)
    requires
        0 <= ms <= MAX_TIMESTAMP_MS,
    ensures
        r matches Some(s) ==> s@ == rfc3339_of(ms) && rfc3339_parse(s@) == Some(ms),
        r is Some,
{
    chrono::DateTime::<chrono::Utc>::from_timestamp_millis(ms).map(|dt| dt.to_rfc3339())
}

/// Relies on `chrono::DateTime::parse_from_rfc3339` and `timestamp_millis`:
/// the instant a string denotes, depending on the characters alone.
#[verifier::external_body]
fn parse_rfc3339_ms(s: &str) -> (r: Option<i64>)
    ensures
        r == rfc3339_parse(s@),
{
    chrono::DateTime::parse_from_rfc3339(s).ok().map(|dt| dt.timestamp_millis())
}

/// Relies on `rusqlite::Connection::open`: opens or creates the database
/// file; what its tables hold is unknown until read.
#[verifier::external_body]
fn db_open(path: &str) -> (r: Result<rusqlite::Connection, String>)
{
    rusqlite::Connection::open(path).map_err(|e| e.to_string())
}

/// Relies on `rusqlite::Connection::execute` running `CREATE TABLE`: on
/// success both tables exist and are empty; creating tables that already
/// exist fails and changes nothing.
#[verifier::external_body]
fn db_init_schema(conn: &mut rusqlite::Connection) -> (r: Result<(), String>)
    ensures
        r is Ok ==> no_rows(db_records(*final(conn))) && no_configs(db_configs(*final(conn))),
        r is Err ==> db_records(*final(conn)) == db_records(*old(conn)) && db_configs(
            *final(conn),
        ) == db_configs(*old(conn)),
{
    let run = || -> rusqlite::Result<()> {
        conn.execute(
            "CREATE TABLE record (id INTEGER PRIMARY KEY, start_time TEXT, stdout BLOB, stderr BLOB, end_time TEXT, exit_code INTEGER, diff_add INTEGER, diff_delete INTEGER, previous_id INTEGER)",
            (),
        )?;
        conn.execute("CREATE TABLE runtime_config (interval INTEGER, command TEXT)", ())?;
        Ok(())
    };
    run().map_err(|e| e.to_string())
}

/// Relies on `rusqlite::Connection::execute` running `INSERT`: on success
/// the row is added under its id, which was free because the id column is
/// the primary key; on failure the tables are unchanged.
#[verifier::external_body]
fn db_insert_record(conn: &mut rusqlite::Connection, row: &RecordRow) -> (r: Result<
    (),
    String,
>)
    ensures
        r is Ok ==> !db_records(*old(conn)).contains_key(row.id) && db_records(*final(conn))
            == db_records(*old(conn)).insert(row.id, row_v(*row)) && db_configs(*final(conn))
            == db_configs(*old(conn)),
        r is Err ==> db_records(*final(conn)) == db_records(*old(conn)) && db_configs(
            *final(conn),
        ) == db_configs(*old(conn)),
{
    conn.execute(
        "INSERT INTO record (id, start_time, stdout, stderr, end_time, exit_code, diff_add, diff_delete, previous_id) VALUES (?1, ?2, ?3, ?4, ?5, ?6, ?7, ?8, ?9)",
        (
            row.id, &row.start_time, &row.stdout, &row.stderr, &row.end_time, row.exit_code,
            row.diff_add, row.diff_delete, row.previous_id,
        ),
    ).map(|_| ()).map_err(|e| e.to_string())
}

/// Relies on `rusqlite::Connection::query_row` running `SELECT ... WHERE id
/// = ?`: the row stored under the id, or nothing when no row has it.
#[verifier::external_body]
fn db_get_record(conn: &rusqlite::Connection, id: u32) -> (r: Result<Option<RecordRow>, String>)
    ensures
        r matches Ok(Some(row)) ==> db_records(*conn).contains_key(id) && row.id == id && row_v(
            row,
        ) == db_records(*conn)[id],
        r matches Ok(None) ==> !db_records(*conn).contains_key(id),
{
    let q = conn.query_row(
        "SELECT id, start_time, stdout, stderr, end_time, exit_code, diff_add, diff_delete, previous_id FROM record WHERE id = ?1",
        [id],
        |row| Ok(RecordRow {
            id: row.get(0)?, start_time: row.get(1)?, stdout: row.get(2)?, stderr: row.get(3)?,
            end_time: row.get(4)?, exit_code: row.get(5)?, diff_add: row.get(6)?,
            diff_delete: row.get(7)?, previous_id: row.get(8)?,
        }),
    );
    match q {
        Ok(row) => Ok(Some(row)),
        Err(rusqlite::Error::QueryReturnedNoRows) => Ok(None),
        Err(e) => Err(e.to_string()),
    }
}

/// Relies on `rusqlite::Connection::query_row` running `SELECT id ... ORDER
/// BY id DESC LIMIT 1`: the largest stored id, or nothing when the table is
/// empty.
#[verifier::external_body]
fn db_latest_id(conn: &rusqlite::Connection) -> (r: Result<Option<u32>, String>)
    ensures
        r matches Ok(Some(id)) ==> db_records(*conn).contains_key(id) && (forall|k: u32|
            db_records(*conn).contains_key(k) ==> k <= id),
        r matches Ok(None) ==> no_rows(db_records(*conn)),
{
    let q = conn.query_row("SELECT id FROM record ORDER BY id DESC LIMIT 1", [], |row| {
        row.get(0)
    });
    match q {
        Ok(id) => Ok(Some(id)),
        Err(rusqlite::Error::QueryReturnedNoRows) => Ok(None),
        Err(e) => Err(e.to_string()),
    }
}

/// Relies on `rusqlite::Statement::query_map` running `SELECT` over the
/// whole record table: every stored row exactly once, under its id.
#[verifier::external_body]
fn db_all_records(conn: &rusqlite::Connection) -> (r: Result<Vec<RecordRow>, String>)
    ensures
        r matches Ok(v) ==> {
            &&& forall|i: int|
                0 <= i < v@.len() ==> db_records(*conn).contains_key(
                    (#[trigger] v@[i]).id,
                ) && row_v(v@[i]) == db_records(*conn)[v@[i].id]
            &&& forall|k: u32|
                db_records(*conn).contains_key(k) ==> exists|i: int|
                    0 <= i < v@.len() && (#[trigger] v@[i]).id == k
            &&& forall|i: int, j: int|
                #![trigger v@[i], v@[j]]
                0 <= i < j < v@.len() ==> v@[i].id != v@[j].id
        },
{
    let run = || -> rusqlite::Result<Vec<RecordRow>> {
        let mut stmt = conn.prepare(
            "SELECT id, start_time, stdout, stderr, end_time, exit_code, diff_add, diff_delete, previous_id FROM record",
        )?;
        let rows = stmt.query_map([], |row| Ok(RecordRow {
            id: row.get(0)?, start_time: row.get(1)?, stdout: row.get(2)?, stderr: row.get(3)?,
            end_time: row.get(4)?, exit_code: row.get(5)?, diff_add: row.get(6)?,
            diff_delete: row.get(7)?, previous_id: row.get(8)?,
        }))?.collect::<rusqlite::Result<Vec<RecordRow>>>()?;
        Ok(rows)
    };
    run().map_err(|e| e.to_string())
}

/// Relies on `rusqlite::Connection::execute` running `INSERT` into the
/// runtime-configuration table: on success one row is appended.
#[verifier::external_body]
fn db_insert_config(conn: &mut rusqlite::Connection, interval: u64, command: &str) -> (r: Result<
    (),
    String,
>)
    requires
        interval <= i64::MAX,
    ensures
        r is Ok ==> db_configs(*final(conn)) == db_configs(*old(conn)).push(
            (interval, command@),
        ) && db_records(*final(conn)) == db_records(*old(conn)),
        r is Err ==> db_records(*final(conn)) == db_records(*old(conn)) && db_configs(
            *final(conn),
        ) == db_configs(*old(conn)),
{
    conn.execute(
        "INSERT INTO runtime_config (interval, command) VALUES (?1, ?2)",
        (interval as i64, command),
    ).map(|_| ()).map_err(|e| e.to_string())
}

/// Relies on `rusqlite::Connection::query_row` running `SELECT ... ORDER BY
/// ROWID DESC LIMIT 1`: the most recently inserted configuration row.
#[verifier::external_body]
fn db_latest_config(conn: &rusqlite::Connection) -> (r: Result<Option<(u64, String)>, String>)
    ensures
        r matches Ok(Some(c)) ==> db_configs(*conn).len() > 0 && db_configs(*conn).last() == (
        c.0, c.1@),
        r matches Ok(None) ==> db_configs(*conn).len() == 0,
{
    let q = conn.query_row(
        "SELECT interval, command FROM runtime_config ORDER BY ROWID DESC LIMIT 1",
        [],
        |row| Ok((row.get::<_, i64>(0)? as u64, row.get(1)?)),
    );
    match q {
        Ok(c) => Ok(Some(c)),
        Err(rusqlite::Error::QueryReturnedNoRows) => Ok(None),
        Err(e) => Err(e.to_string()),
    }
}

/// The instant a stored timestamp string denotes; an unreadable string
/// counts as the epoch.
pub open spec fn ms_of_text(s: Seq<char>) -> i64 {
    match rfc3339_parse(s) {
        Some(ms) => ms,
        None => 0,
    }
}

/// The record value a stored row under key `k` denotes.
pub open spec fn row_record_v(k: u32, r: RowV) -> RecordV {
    RecordV {
        id: k,
        start_ms: ms_of_text(r.0),
        stdout: r.1,
        stderr: r.2,
        end_ms: ms_of_text(r.3),
        exit_code: r.4,
        diff: match (r.5, r.6) {
            (Some(a), Some(d)) => Some((a, d)),
            _ => None,
        },
        previous_id: r.7,
    }
}

/// Durable record store over one database connection.
pub struct SqliteStore {
    conn: rusqlite::Connection,
}

impl SqliteStore {
    /// Opens the database at `path`, creating the file if it is missing;
    /// with `init` the two tables are created, so the store starts empty.
    pub fn new(path: &str, init: bool) -> (r: Result<SqliteStore, StoreError>)
        ensures
            r matches Ok(s) ==> s.inv() && (init ==> s.records() == Map::<u32,
                RecordV,
            >::empty() && s.config() is None),
    {
        let conn = match db_open(path) {
            Ok(c) => c,
            Err(m) => {
                return Err(StoreError::Backend(m));
            },
        };
        let mut conn = conn;
        if init {
            match db_init_schema(&mut conn) {
                Ok(()) => {},
                Err(m) => {
                    return Err(StoreError::Backend(m));
                },
            }
            proof {
                assert(Map::<u32, RecordV>::new(
                    |k: u32| db_records(conn).contains_key(k),
                    |k: u32| row_record_v(k, db_records(conn)[k]),
                ) =~= Map::<u32, RecordV>::empty());
            }
        }
        Ok(SqliteStore { conn })
    }

    /// Converts a record into its stored row; both instants must be
    /// representable.
    fn record_to_row(record: &Record) -> (r: RecordRow)
        requires
            record.wf(),
        ensures
            r.id == record.id.0,
            r.start_time@ == rfc3339_of(record.start_time.millis),
            r.end_time@ == rfc3339_of(record.end_time.millis),
            rfc3339_parse(r.start_time@) == Some(record.start_time.millis),
            rfc3339_parse(r.end_time@) == Some(record.end_time.millis),
            row_record_v(record.id.0, row_v(r)) == record@,
    {
        let start_time = match format_rfc3339_utc(record.start_time.millis) {
            Some(s) => s,
            None => {
                proof {
                    assert(false);
                }
                String::new()
            },
        };
        let end_time = match format_rfc3339_utc(record.end_time.millis) {
            Some(s) => s,
            None => {
                proof {
                    assert(false);
                }
                String::new()
            },
        };
        let (diff_add, diff_delete) = match record.diff {
            Some((a, d)) => (Some(a), Some(d)),
            None => (None, None),
        };
        let r = RecordRow {
            id: record.id.0,
            start_time,
            stdout: crate::store::clone_bytes(&record.stdout),
            stderr: crate::store::clone_bytes(&record.stderr),
            end_time,
            exit_code: record.exit_code,
            diff_add,
            diff_delete,
            previous_id: match record.previous_id {
                Some(p) => Some(p.0),
                None => None,
            },
        };
        proof {
            assert(row_record_v(record.id.0, row_v(r)) =~= record@);
        }
        r
    }

    /// Converts a stored row back into a record.
    fn row_to_record(row: RecordRow) -> (r: Record)
        ensures
            r@ == row_record_v(row.id, row_v(row)),
    {
        let start_ms = match parse_rfc3339_ms(row.start_time.as_str()) {
            Some(ms) => ms,
            None => 0,
        };
        let end_ms = match parse_rfc3339_ms(row.end_time.as_str()) {
            Some(ms) => ms,
            None => 0,
        };
        let diff = match (row.diff_add, row.diff_delete) {
            (Some(a), Some(d)) => Some((a, d)),
            _ => None,
        };
        let r = Record {
            id: ExecutionId(row.id),
            start_time: Timestamp { millis: start_ms },
            stdout: row.stdout,
            stderr: row.stderr,
            end_time: Timestamp { millis: end_ms },
            exit_code: row.exit_code,
            diff,
            previous_id: match row.previous_id {
                Some(p) => Some(ExecutionId(p)),
                None => None,
            },
        };
        proof {
            assert(r@ =~= row_record_v(row.id, row_v(row)));
        }
        r
    }
}

impl Store for SqliteStore {
    closed spec fn records(&self) -> Map<u32, RecordV> {
        Map::new(
            |k: u32| db_records(self.conn).contains_key(k),
            |k: u32| row_record_v(k, db_records(self.conn)[k]),
        )
    }

    closed spec fn config(&self) -> Option<RuntimeConfigV> {
        if db_configs(self.conn).len() > 0 {
            Some(
                RuntimeConfigV {
                    interval: db_configs(self.conn).last().0,
                    command: db_configs(self.conn).last().1,
                },
            )
        } else {
            None
        }
    }

    closed spec fn inv(&self) -> bool {
        true
    }

    fn add_record(&mut self, record: Record) -> (r: Result<(), StoreError>) {
        let row = Self::record_to_row(&record);
        let res = db_insert_record(&mut self.conn, &row);
        match res {
            Ok(()) => {
                proof {
                    assert(self.records() =~= old(self).records().insert(record.id.0, record@));
                }
                Ok(())
            },
            Err(m) => {
                proof {
                    assert(self.records() =~= old(self).records());
                }
                Err(StoreError::Backend(m))
            },
        }
    }

    fn get_record(&self, id: ExecutionId) -> (r: Result<Option<Record>, StoreError>) {
        match db_get_record(&self.conn, id.0) {
            Ok(Some(row)) => {
                let rec = Self::row_to_record(row);
                Ok(Some(rec))
            },
            Ok(None) => Ok(None),
            Err(m) => Err(StoreError::Backend(m)),
        }
    }

    fn get_latest_id(&self) -> (r: Result<Option<ExecutionId>, StoreError>) {
        match db_latest_id(&self.conn) {
            Ok(Some(id)) => Ok(Some(ExecutionId(id))),
            Ok(None) => {
                proof {
                    assert(self.records() =~= Map::<u32, RecordV>::empty());
                }
                Ok(None)
            },
            Err(m) => Err(StoreError::Backend(m)),
        }
    }

    fn get_records(&self) -> (r: Result<Vec<Record>, StoreError>) {
        let rows = match db_all_records(&self.conn) {
            Ok(v) => v,
            Err(m) => {
                return Err(StoreError::Backend(m));
            },
        };
        let ghost rowsv = rows@;
        let mut v: Vec<Record> = Vec::new();
        let mut rows = rows;
        while rows.len() > 0
            invariant
                rows@.len() + v@.len() == rowsv.len(),
                forall|j: int| 0 <= j < rows@.len() ==> #[trigger] rows@[j] == rowsv[v@.len() + j],
                forall|j: int|
                    0 <= j < v@.len() ==> #[trigger] v@[j]@ == row_record_v(
                        rowsv[j].id,
                        row_v(rowsv[j]),
                    ) && v@[j].id.0 == rowsv[j].id,
            decreases rows@.len(),
        {
            let ghost prev_rows = rows@;
            let row = rows.remove(0);
            proof {
                assert(rows@ =~= prev_rows.skip(1));
                assert(row == rowsv[v@.len() as int]);
            }
            let rec = Self::row_to_record(row);
            v.push(rec);
            proof {
                assert(forall|j: int|
                    0 <= j < rows@.len() ==> #[trigger] rows@[j] == prev_rows[j + 1]);
            }
        }
        proof {
            assert forall|j: int| 0 <= j < v@.len() implies self.records().contains_key(
                (#[trigger] v@[j]).id.0,
            ) && v@[j]@ == self.records()[v@[j].id.0] by {
                assert(v@[j]@ == row_record_v(rowsv[j].id, row_v(rowsv[j])));
                assert(v@[j].id.0 == rowsv[j].id);
                assert(db_records(self.conn).contains_key(rowsv[j].id));
                assert(row_v(rowsv[j]) == db_records(self.conn)[rowsv[j].id]);
                assert(self.records()[rowsv[j].id] == row_record_v(
                    rowsv[j].id,
                    db_records(self.conn)[rowsv[j].id],
                ));
            }
            assert forall|k: u32| self.records().contains_key(k) implies exists|i2: int|
                0 <= i2 < v@.len() && (#[trigger] v@[i2]).id.0 == k by {
                assert(db_records(self.conn).contains_key(k));
                let i2 = choose|i2: int| 0 <= i2 < rowsv.len() && (#[trigger] rowsv[i2]).id == k;
                assert(v@[i2].id.0 == k);
            }
        }
        Ok(v)
    }

    fn get_runtime_config(&self) -> (r: Result<Option<RuntimeConfig>, StoreError>) {
        match db_latest_config(&self.conn) {
            Ok(Some((interval, command))) => Ok(Some(RuntimeConfig { interval, command })),
            Ok(None) => Ok(None),
            Err(m) => Err(StoreError::Backend(m)),
        }
    }

    fn set_runtime_config(&mut self, config: RuntimeConfig) -> (r: Result<(), StoreError>) {
        if config.interval > 0x7fffffffffffffff {
            return Err(StoreError::Backend(String::new()));
        }
        match db_insert_config(&mut self.conn, config.interval, config.command.as_str()) {
            Ok(()) => {
                proof {
                    assert(self.records() =~= old(self).records());
                }
                Ok(())
            },
            Err(m) => {
                proof {
                    assert(self.records() =~= old(self).records());
                }
                Err(StoreError::Backend(m))
            },
        }
    }
}

} // verus!
