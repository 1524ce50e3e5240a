//! The collector's ingestion pipeline: authenticate, check the payload
//! shape, check freshness, resolve the sensor, append one row.
//!
//! Each stage short-circuits the next, in that order. A rejection leaves
//! the store untouched; an acceptance appends exactly one row and never
//! rewrites or deduplicates what is already stored.

use vstd::prelude::*;

verus! {

/// The timestamp of an accepted record may lag the collector's clock by at
/// most this many seconds; it may never lead it.
pub const FRESHNESS_WINDOW_SECS: i64 = 300;

/// The single static credential pair the collector accepts.
pub struct CollectorConfig {
    pub username: String,
    pub password: String,
}

/// One ingestion request as it reaches the pipeline: the supplied
/// credentials, and the payload if it deserialized into the record shape
/// exactly (`None` records a malformed body).
pub struct IngestRequest {
    pub username: String,
    pub password: Option<String>,
    pub body: Option<crate::relay::TelemetryRecord>,
}

/// The distinct outcomes an ingestion request can have.
#[derive(Debug, PartialEq, Eq, Structural)]
pub enum IngestStatus {
    Accepted,
    Unauthorized,
    BadRequest,
    NotFound,
}

impl IngestStatus {
    /// The HTTP status code the collector answers with.
    pub fn code(&self) -> (c: u16)
        ensures
            c == match *self {
                IngestStatus::Accepted => 200u16,
                IngestStatus::Unauthorized => 401u16,
                IngestStatus::BadRequest => 400u16,
                IngestStatus::NotFound => 404u16,
            },
    {
        match *self {
            IngestStatus::Accepted => 200,
            IngestStatus::Unauthorized => 401,
            IngestStatus::BadRequest => 400,
            IngestStatus::NotFound => 404,
        }
    }
}

/// One entry of the sensor registry: a logical short name and the internal
/// identity rows are keyed by.
pub struct SensorEntry {
    pub short_name: String,
    pub id: u64,
}

/// One appended reading row. Rows are append-only: nothing in the pipeline
/// mutates or deletes them.
pub struct PersistedReading {
    pub sensor_id: u64,
    pub timestamp_secs: i64,
    pub temperature: Vec<u8>,
    pub humidity: Vec<u8>,
}

/// The store the collector writes to: a sensor registry and the rows
/// appended so far.
pub struct Store {
    pub sensors: Vec<SensorEntry>,
    pub rows: Vec<PersistedReading>,
}

/// The internal identity of the first registry entry carrying `name`, if
/// any.
pub open spec fn spec_resolve(sensors: Seq<SensorEntry>, name: Seq<char>) -> Option<u64>
    decreases sensors.len(),
{
    if sensors.len() == 0 {
        None
    } else if sensors[0].short_name@ == name {
        Some(sensors[0].id)
    } else {
        spec_resolve(sensors.skip(1), name)
    }
}

/// The supplied credentials match the configured pair exactly.
pub open spec fn auth_ok(cfg: CollectorConfig, req: IngestRequest) -> bool {
    &&& req.username@ == cfg.username@
    &&& match req.password {
        Some(pw) => pw@ == cfg.password@,
        None => false,
    }
}

/// A timestamp is fresh for server time `now` when it does not lie in the
/// future and lags by at most the freshness window.
pub open spec fn fresh(now: i64, ts: i64) -> bool {
    ts <= now && now - ts <= FRESHNESS_WINDOW_SECS
}

/// The request would pass every stage: credentials match, the body
/// deserialized, its timestamp is fresh, and its sensor resolves. Note
/// that nothing here reads the rows already stored: acceptance never
/// depends on what was ingested before.
pub open spec fn would_accept(
    store: Store,
    cfg: CollectorConfig,
    now: i64,
    req: IngestRequest,
) -> bool {
    &&& auth_ok(cfg, req)
    &&& match req.body {
        Some(b) => fresh(now, b.timestamp_secs) && spec_resolve(store.sensors@, b.sensor@) is Some,
        None => false,
    }
}

/// The row `r` persists exactly the record `b`, keyed by the identity the
/// registry `sensors` gives its sensor.
pub open spec fn row_matches(r: PersistedReading, sensors: Seq<SensorEntry>, b: crate::relay::TelemetryRecord) -> bool {
    &&& Some(r.sensor_id) == spec_resolve(sensors, b.sensor@)
    &&& r.timestamp_secs == b.timestamp_secs
    &&& r.temperature@ == b.temperature@
    &&& r.humidity@ == b.humidity@
}

impl Store {
    /// Look the logical sensor name up in the registry.
    pub fn resolve(&self, name: &String) -> (r: Option<u64>)
        ensures
            r == spec_resolve(self.sensors@, name@),
    {
        let n = self.sensors.len();
        let mut i: usize = 0;
        proof {
            assert(self.sensors@.skip(0) =~= self.sensors@);
        }
        while i < n
            invariant
                n == self.sensors@.len(),
                i <= n,
                spec_resolve(self.sensors@, name@) == spec_resolve(
                    self.sensors@.skip(i as int),
                    name@,
                ),
            decreases n - i,
        {
            proof {
                assert(self.sensors@.skip(i as int)[0] == self.sensors@[i as int]);
                assert(self.sensors@.skip(i as int).skip(1) =~= self.sensors@.skip(i as int + 1));
            }
            if self.sensors[i].short_name == *name {
                return Some(self.sensors[i].id);
            }
            i += 1;
        }
        None
    }
}

/// What the stages before the store decide about a request: rejected for
/// credentials, rejected for shape or staleness, or cleared for identity
/// resolution.
pub enum RequestDecision {
    Unauthorized,
    BadRequest,
    Screened,
}

/// Run the store-independent stages, in order: authentication first, then
/// payload shape, then freshness. A request that clears all three is ready
/// for identity resolution.
pub fn screen_request(cfg: &CollectorConfig, now: i64, req: &IngestRequest) -> (d: RequestDecision)
    ensures
        d is Unauthorized <==> !auth_ok(*cfg, *req),
        d is Screened <==> auth_ok(*cfg, *req) && (req.body matches Some(b) && fresh(
            now,
            b.timestamp_secs,
        )),
        d is BadRequest <==> auth_ok(*cfg, *req) && !(req.body matches Some(b) && fresh(
            now,
            b.timestamp_secs,
        )),
{
    let authorized = req.username == cfg.username && match &req.password {
        Some(pw) => *pw == cfg.password,
        None => false,
    };
    if !authorized {
        return RequestDecision::Unauthorized;
    }
    let b = match &req.body {
        Some(b) => b,
        None => {
            return RequestDecision::BadRequest;
        },
    };
    let ts = b.timestamp_secs;
    if ts > now || (now as i128) - (ts as i128) > FRESHNESS_WINDOW_SECS as i128 {
        return RequestDecision::BadRequest;
    }
    RequestDecision::Screened
}

/// Read the store's answer to the single insert-by-identity statement: one
/// affected row is an acceptance, none means the sensor was unknown.
pub fn outcome_of_insert(rows_affected: u64) -> (st: IngestStatus)
    ensures
        st == if rows_affected == 1 {
            IngestStatus::Accepted
        } else {
            IngestStatus::NotFound
        },
{
    if rows_affected == 1 {
        IngestStatus::Accepted
    } else {
        IngestStatus::NotFound
    }
}

/// Run one request through the pipeline against the store, with `now` the
/// collector's own clock reading at arrival.
///
/// Authentication is checked before anything else; a malformed body, and
/// then a stale or future timestamp, are rejected next; an unknown sensor
/// is rejected last. Only an accepted request changes the store, and it
/// appends exactly one row.
pub fn ingest(store: &mut Store, cfg: &CollectorConfig, now: i64, req: &IngestRequest) -> (st:
    IngestStatus)
    ensures
        !auth_ok(*cfg, *req) ==> st == IngestStatus::Unauthorized,
        auth_ok(*cfg, *req) && req.body is None ==> st == IngestStatus::BadRequest,
        auth_ok(*cfg, *req) && (req.body matches Some(b) && !fresh(now, b.timestamp_secs)) ==> st
            == IngestStatus::BadRequest,
        auth_ok(*cfg, *req) && (req.body matches Some(b) && fresh(now, b.timestamp_secs)
            && spec_resolve(old(store).sensors@, b.sensor@) is None) ==> st
            == IngestStatus::NotFound,
        st == IngestStatus::Accepted <==> would_accept(*old(store), *cfg, now, *req),
        !would_accept(*old(store), *cfg, now, *req) ==> *final(store) == *old(store),
        would_accept(*old(store), *cfg, now, *req) ==> {
            &&& final(store).sensors@ == old(store).sensors@
            &&& final(store).rows@.len() == old(store).rows@.len() + 1
            &&& forall|k: int|
                0 <= k < old(store).rows@.len() ==> final(store).rows@[k] == old(store).rows@[k]
            &&& row_matches(
                final(store).rows@.last(),
                old(store).sensors@,
                req.body->Some_0,
            )
        },
{
    match screen_request(cfg, now, req) {
        RequestDecision::Unauthorized => {
            return IngestStatus::Unauthorized;
        },
        RequestDecision::BadRequest => {
            return IngestStatus::BadRequest;
        },
        RequestDecision::Screened => {},
    }
    let b = match &req.body {
        Some(b) => b,
        None => {
            return IngestStatus::BadRequest;
        },
    };
    let ts = b.timestamp_secs;
    let id = match store.resolve(&b.sensor) {
        Some(id) => id,
        None => {
            return IngestStatus::NotFound;
        },
    };
    let row = PersistedReading {
        sensor_id: id,
        timestamp_secs: ts,
        temperature: b.temperature.clone(),
        humidity: b.humidity.clone(),
    };
    store.rows.push(row);
    IngestStatus::Accepted
}

/// Ingestion does not deduplicate: a store that has just accepted a
/// record accepts the identical request again, and after the second
/// acceptance two rows stand, both persisting that same record. The two
/// stores are related to their predecessors exactly as `ingest` relates
/// them on acceptance.
pub proof fn lemma_no_dedup(
    s0: Store,
    s1: Store,
    s2: Store,
    cfg: CollectorConfig,
    now: i64,
    req: IngestRequest,
)
    requires
        would_accept(s0, cfg, now, req),
        s1.sensors@ == s0.sensors@,
        s1.rows@.len() == s0.rows@.len() + 1,
        forall|k: int| 0 <= k < s0.rows@.len() ==> s1.rows@[k] == s0.rows@[k],
        row_matches(s1.rows@.last(), s0.sensors@, req.body->Some_0),
        s2.sensors@ == s1.sensors@,
        s2.rows@.len() == s1.rows@.len() + 1,
        forall|k: int| 0 <= k < s1.rows@.len() ==> s2.rows@[k] == s1.rows@[k],
        row_matches(s2.rows@.last(), s1.sensors@, req.body->Some_0),
    ensures
        would_accept(s1, cfg, now, req),
        s2.rows@.len() == s0.rows@.len() + 2,
        row_matches(s2.rows@[s0.rows@.len() as int], s0.sensors@, req.body->Some_0),
        row_matches(s2.rows@[s0.rows@.len() as int + 1], s0.sensors@, req.body->Some_0),
{
    assert(s2.rows@[s0.rows@.len() as int] == s1.rows@.last());
    assert(s2.rows@[s0.rows@.len() as int + 1] == s2.rows@.last());
}

} // verus!
