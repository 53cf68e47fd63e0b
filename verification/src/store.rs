//! The append-only record store: one immutable record per command
//! execution, the most recent runtime configuration, and a common interface
//! that a volatile and a durable backend both satisfy. A store's contents
//! are modeled as a map from execution id to record value.

pub mod memory;
pub mod sqlite;

use vstd::prelude::*;

use crate::types::ExecutionId;

verus! {

/// The last representable millisecond: the end of year 9999 in UTC.
pub const MAX_TIMESTAMP_MS: i64 = 253402300799999;

/// A UTC instant in whole milliseconds since the epoch. Instants are kept
/// between the epoch and the end of year 9999 so that the durable backend
/// can write them as timestamps.
#[derive(Debug, Copy, PartialEq, Clone, Eq, Hash, Structural)]
pub struct Timestamp {
    pub millis: i64,
}

impl Timestamp {
    /// Whether the instant lies in the representable range.
    pub open spec fn wf(self) -> bool {
        0 <= self.millis <= MAX_TIMESTAMP_MS
    }

    /// The instant `millis` milliseconds after the epoch, if representable.
    pub fn from_millis(millis: i64) -> (r: Option<Timestamp>)
        ensures
            r matches Some(t) ==> t.millis == millis && t.wf(),
            r is None <==> !(0 <= millis <= MAX_TIMESTAMP_MS),
    {
        if 0 <= millis && millis <= MAX_TIMESTAMP_MS {
            Some(Timestamp { millis })
        } else {
            None
        }
    }
}

/// The mathematical value of one record.
#[verifier::ext_equal]
pub struct RecordV {
    pub id: u32,
    pub start_ms: i64,
    pub stdout: Seq<u8>,
    pub stderr: Seq<u8>,
    pub end_ms: i64,
    pub exit_code: i32,
    pub diff: Option<(u32, u32)>,
    pub previous_id: Option<u32>,
}

/// One immutable execution result: timing, captured output, exit code, the
/// added/deleted character counts against the chain predecessor, and the id
/// that was latest when this record was produced.
#[derive(Debug, Clone)]
pub struct Record {
    pub id: ExecutionId,
    pub start_time: Timestamp,
    pub stdout: Vec<u8>,
    pub stderr: Vec<u8>,
    pub end_time: Timestamp,
    pub exit_code: i32,
    pub diff: Option<(u32, u32)>,
    pub previous_id: Option<ExecutionId>,
}

impl View for Record {
    type V = RecordV;

    open spec fn view(&self) -> RecordV {
        RecordV {
            id: self.id.0,
            start_ms: self.start_time.millis,
            stdout: self.stdout@,
            stderr: self.stderr@,
            end_ms: self.end_time.millis,
            exit_code: self.exit_code,
            diff: self.diff,
            previous_id: match self.previous_id {
                Some(p) => Some(p.0),
                None => None,
            },
        }
    }
}

impl Record {
    /// Whether both instants are representable.
    pub open spec fn wf(self) -> bool {
        self.start_time.wf() && self.end_time.wf()
    }
}

/// A byte-for-byte copy of a byte vector.
pub fn clone_bytes(v: &Vec<u8>) -> (r: Vec<u8>)
    ensures
        r@ == v@,
{
    let mut r: Vec<u8> = Vec::new();
    let mut i: usize = 0;
    while i < v.len()
        invariant
            i <= v@.len(),
            r@ == v@.take(i as int),
        decreases v@.len() - i,
    {
        r.push(v[i]);
        proof {
            assert(v@.take(i + 1) =~= v@.take(i as int).push(v@[i as int]));
        }
        i = i + 1;
    }
    proof {
        assert(v@.take(v@.len() as int) =~= v@);
    }
    r
}

/// A field-for-field copy of a record.
pub fn clone_record(r: &Record) -> (c: Record)
    ensures
        c@ == r@,
        c.wf() == r.wf(),
{
    Record {
        id: r.id,
        start_time: r.start_time,
        stdout: clone_bytes(&r.stdout),
        stderr: clone_bytes(&r.stderr),
        end_time: r.end_time,
        exit_code: r.exit_code,
        diff: r.diff,
        previous_id: r.previous_id,
    }
}

/// The mathematical value of a runtime configuration.
#[verifier::ext_equal]
pub struct RuntimeConfigV {
    pub interval: u64,
    pub command: Seq<char>,
}

/// The polling parameters a session ran with: the interval in milliseconds
/// and the command line as one string.
#[derive(Debug, Clone, Default)]
pub struct RuntimeConfig {
    pub interval: u64,
    pub command: String,
}

impl View for RuntimeConfig {
    type V = RuntimeConfigV;

    open spec fn view(&self) -> RuntimeConfigV {
        RuntimeConfigV { interval: self.interval, command: self.command@ }
    }
}

/// Why a store operation failed; any failure is fatal to the run loop.
#[derive(Debug, Clone, PartialEq, Eq)]
pub enum StoreError {
    Backend(String),
}

impl StoreError {
    /// The backend's description of the failure.
    pub fn message(&self) -> (r: &String)
        ensures
            self matches StoreError::Backend(m) && r@ == m@,
    {
        match self {
            StoreError::Backend(m) => m,
        }
    }
}

/// An append-only log of execution records plus the most recent runtime
/// configuration. Ids are appended in strictly increasing order, so the
/// latest id is the largest stored key.
pub trait Store: Sized {
    /// The records held, keyed by execution id.
    spec fn records(&self) -> Map<u32, RecordV>;

    /// The most recently written runtime configuration.
    spec fn config(&self) -> Option<RuntimeConfigV>;

    /// The backend's internal invariant.
    spec fn inv(&self) -> bool;

    /// Appends one record; its id must be fresh and larger than every
    /// stored id.
    fn add_record(&mut self, record: Record) -> (r: Result<(), StoreError>)
        requires
            old(self).inv(),
            record.wf(),
            forall|k: u32| old(self).records().contains_key(k) ==> k < record.id.0,
        ensures
            final(self).inv(),
            r is Ok ==> final(self).records() == old(self).records().insert(
                record.id.0,
                record@,
            ),
            r is Err ==> final(self).records() == old(self).records(),
            final(self).config() == old(self).config(),
    ;

    /// Looks one record up by id; absence is not an error.
    fn get_record(&self, id: ExecutionId) -> (r: Result<Option<Record>, StoreError>)
        requires
            self.inv(),
        ensures
            r matches Ok(Some(rec)) ==> self.records().contains_key(id.0) && rec@
                == self.records()[id.0],
            r matches Ok(None) ==> !self.records().contains_key(id.0),
    ;

    /// The id of the most recently appended record.
    fn get_latest_id(&self) -> (r: Result<Option<ExecutionId>, StoreError>)
        requires
            self.inv(),
        ensures
            r matches Ok(Some(id)) ==> self.records().contains_key(id.0) && (forall|k: u32|
                self.records().contains_key(k) ==> k <= id.0),
            r matches Ok(None) ==> self.records() == Map::<u32, RecordV>::empty(),
    ;

    /// Every stored record, one per id.
    fn get_records(&self) -> (r: Result<Vec<Record>, StoreError>)
        requires
            self.inv(),
        ensures
            r matches Ok(v) ==> {
                &&& forall|i: int|
                    0 <= i < v@.len() ==> self.records().contains_key(#[trigger] v@[i].id.0)
                        && v@[i]@ == self.records()[v@[i].id.0]
                &&& forall|k: u32|
                    self.records().contains_key(k) ==> exists|i: int|
                        0 <= i < v@.len() && (#[trigger] v@[i]).id.0 == k
                &&& forall|i: int, j: int|
                    #![trigger v@[i], v@[j]]
                    0 <= i < j < v@.len() ==> v@[i].id.0 != v@[j].id.0
            },
    ;

    /// The most recently written runtime configuration, if any.
    fn get_runtime_config(&self) -> (r: Result<Option<RuntimeConfig>, StoreError>)
        requires
            self.inv(),
        ensures
            r matches Ok(Some(c)) ==> self.config() == Some(c@),
            r matches Ok(None) ==> self.config() is None,
    ;

    /// Overwrites the runtime configuration.
    fn set_runtime_config(&mut self, config: RuntimeConfig) -> (r: Result<(), StoreError>)
        requires
            old(self).inv(),
        ensures
            final(self).inv(),
            r is Ok ==> final(self).config() == Some(config@),
            r is Err ==> final(self).config() == old(self).config(),
            final(self).records() == old(self).records(),
    ;
}

} // verus!
