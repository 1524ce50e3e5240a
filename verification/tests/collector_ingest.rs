use sensor_relay::collector::{
    ingest, CollectorConfig, IngestRequest, IngestStatus, SensorEntry, Store,
};
use sensor_relay::relay::TelemetryRecord;

fn config() -> CollectorConfig {
    CollectorConfig {
        username: "gateway".to_string(),
        password: "SECRET-REDACTED".to_string(),
    }
}

fn store() -> Store {
    Store {
        sensors: vec![
            SensorEntry { short_name: "a".to_string(), id: 1 },
            SensorEntry { short_name: "b".to_string(), id: 2 },
        ],
        rows: Vec::new(),
    }
}

fn record(sensor: &str, ts: i64) -> TelemetryRecord {
    TelemetryRecord {
        sensor: sensor.to_string(),
        timestamp_secs: ts,
        temperature: b"21.5".to_vec(),
        humidity: b"55.2".to_vec(),
    }
}

fn request(sensor: &str, ts: i64) -> IngestRequest {
    IngestRequest {
        username: "gateway".to_string(),
        password: Some("SECRET-REDACTED".to_string()),
        body: Some(record(sensor, ts)),
    }
}

const NOW: i64 = 1_700_000_000;

#[test]
fn accepts_fresh_record_and_appends_row() {
    let mut s = store();
    let st = ingest(&mut s, &config(), NOW, &request("a", NOW - 10));
    assert_eq!(st, IngestStatus::Accepted);
    assert_eq!(st.code(), 200);
    assert_eq!(s.rows.len(), 1);
    assert_eq!(s.rows[0].sensor_id, 1);
    assert_eq!(s.rows[0].timestamp_secs, NOW - 10);
    assert_eq!(s.rows[0].temperature, b"21.5".to_vec());
}

#[test]
fn future_timestamp_is_bad_request() {
    let mut s = store();
    let st = ingest(&mut s, &config(), NOW, &request("a", NOW + 1));
    assert_eq!(st, IngestStatus::BadRequest);
    assert_eq!(st.code(), 400);
    assert_eq!(s.rows.len(), 0);
}

#[test]
fn timestamp_just_inside_window_is_accepted() {
    let mut s = store();
    // 4 minutes 59 seconds old.
    let st = ingest(&mut s, &config(), NOW, &request("a", NOW - 299));
    assert_eq!(st, IngestStatus::Accepted);
    assert_eq!(s.rows.len(), 1);
}

#[test]
fn timestamp_just_outside_window_is_bad_request() {
    let mut s = store();
    // 5 minutes 1 second old.
    let st = ingest(&mut s, &config(), NOW, &request("a", NOW - 301));
    assert_eq!(st, IngestStatus::BadRequest);
    assert_eq!(s.rows.len(), 0);
}

#[test]
fn window_boundary_is_accepted() {
    let mut s = store();
    let st = ingest(&mut s, &config(), NOW, &request("a", NOW - 300));
    assert_eq!(st, IngestStatus::Accepted);
}

#[test]
fn wrong_username_is_unauthorized() {
    let mut s = store();
    let mut req = request("a", NOW - 10);
    req.username = "intruder".to_string();
    let st = ingest(&mut s, &config(), NOW, &req);
    assert_eq!(st, IngestStatus::Unauthorized);
    assert_eq!(st.code(), 401);
    assert_eq!(s.rows.len(), 0);
}

#[test]
fn wrong_password_is_unauthorized() {
    let mut s = store();
    let mut req = request("a", NOW - 10);
    req.password = Some("wrong".to_string());
    let st = ingest(&mut s, &config(), NOW, &req);
    assert_eq!(st, IngestStatus::Unauthorized);
}

#[test]
fn missing_password_is_unauthorized() {
    let mut s = store();
    let mut req = request("a", NOW - 10);
    req.password = None;
    let st = ingest(&mut s, &config(), NOW, &req);
    assert_eq!(st, IngestStatus::Unauthorized);
}

#[test]
fn auth_is_checked_before_schema_and_timestamp() {
    // Bad credentials with a malformed body and a stale timestamp: the
    // answer is unauthorized, not bad-request.
    let mut s = store();
    let req = IngestRequest {
        username: "intruder".to_string(),
        password: None,
        body: None,
    };
    let st = ingest(&mut s, &config(), NOW, &req);
    assert_eq!(st, IngestStatus::Unauthorized);
    assert_eq!(s.rows.len(), 0);
}

#[test]
fn malformed_body_is_bad_request() {
    let mut s = store();
    let req = IngestRequest {
        username: "gateway".to_string(),
        password: Some("SECRET-REDACTED".to_string()),
        body: None,
    };
    let st = ingest(&mut s, &config(), NOW, &req);
    assert_eq!(st, IngestStatus::BadRequest);
    assert_eq!(s.rows.len(), 0);
}

#[test]
fn unknown_sensor_is_not_found_and_persists_nothing() {
    let mut s = store();
    let st = ingest(&mut s, &config(), NOW, &request("zz", NOW - 10));
    assert_eq!(st, IngestStatus::NotFound);
    assert_eq!(st.code(), 404);
    assert_eq!(s.rows.len(), 0);
}

#[test]
fn identical_record_twice_persists_two_rows() {
    let mut s = store();
    let req = request("b", NOW - 5);
    let first = ingest(&mut s, &config(), NOW, &req);
    let second = ingest(&mut s, &config(), NOW, &req);
    assert_eq!(first, IngestStatus::Accepted);
    assert_eq!(second, IngestStatus::Accepted);
    assert_eq!(s.rows.len(), 2);
    assert_eq!(s.rows[0].sensor_id, s.rows[1].sensor_id);
    assert_eq!(s.rows[0].timestamp_secs, s.rows[1].timestamp_secs);
    assert_eq!(s.rows[0].temperature, s.rows[1].temperature);
    assert_eq!(s.rows[0].humidity, s.rows[1].humidity);
}

#[test]
fn resolve_finds_registered_sensor() {
    let s = store();
    assert_eq!(s.resolve(&"b".to_string()), Some(2));
    assert_eq!(s.resolve(&"zz".to_string()), None);
}

#[test]
fn resolve_prefers_first_entry_with_equal_names() {
    let s = Store {
        sensors: vec![
            SensorEntry { short_name: "dup".to_string(), id: 7 },
            SensorEntry { short_name: "dup".to_string(), id: 8 },
        ],
        rows: Vec::new(),
    };
    assert_eq!(s.resolve(&"dup".to_string()), Some(7));
}
