use nono_guard::hash::ContentHash;
use nono_guard::session::{
    AuditAttestationSummary, AuditIntegritySummary, ExecutableIdentity, Fault, Field,
    NetworkAuditDecision, NetworkAuditMode, RawEntry, RawEvent, Record, SessionMetadata, Value,
};

fn s(t: &str) -> String {
    String::from(t)
}

fn session() -> SessionMetadata {
    SessionMetadata::new(s("id-1"), vec![s("ls"), s("-l")], vec![s("/w")], 86_399)
}

fn raw() -> RawEvent {
    RawEvent {
        timestamp_unix_ms: Field::Found(1_700_000_000_123),
        mode: Field::Found(s("connect")),
        decision: Field::Found(s("deny")),
        target: Field::Found(s("x.com")),
        port: Field::Found(443),
        method: Field::Missing,
        path: Field::Wrong,
        status: Field::Missing,
        reason: Field::Found(s("not allowed")),
    }
}

fn text(record: &Record, name: &str) -> Option<String> {
    for (key, value) in &record.fields {
        if *key == name {
            return match value {
                Value::Nothing => Some(s("nothing")),
                Value::Number(n) => Some(format!("{}", n)),
                Value::Text(t) => Some(t.clone()),
            };
        }
    }
    None
}

#[test]
fn a_session_starts_empty() {
    let m = session();
    assert_eq!(m.session_id(), "id-1");
    assert_eq!(m.started(), "1970-01-01T23:59:59Z");
    assert_eq!(m.ended(), None);
    assert_eq!(m.command(), vec![s("ls"), s("-l")]);
    assert_eq!(m.tracked_paths(), vec![s("/w")]);
    assert_eq!(m.snapshot_count(), 0);
    assert_eq!(m.exit_code(), None);
    assert!(m.merkle_roots().is_empty());
    assert!(m.executable_identity().is_none());
    assert_eq!(m.audit_event_count(), 0);
    assert!(m.audit_integrity().is_none());
    assert!(m.audit_attestation().is_none());
    assert!(m.network_events().is_empty());
    assert_eq!(m.__repr__(), "SessionMetadata(id='id-1', snapshots=0)");
}

#[test]
fn a_session_takes_what_it_is_told() {
    let mut m = session();
    m.set_ended(Some(s("later")));
    m.set_snapshot_count(3);
    m.set_exit_code(Some(-9));
    m.add_merkle_root(&ContentHash { bytes: [1; 32] });
    m.add_merkle_root(&ContentHash { bytes: [2; 32] });
    assert_eq!(m.ended(), Some("later"));
    assert_eq!(m.snapshot_count(), 3);
    assert_eq!(m.exit_code(), Some(-9));
    let roots: Vec<u8> = m.merkle_roots().iter().map(|h| h.bytes[0]).collect();
    assert_eq!(roots, vec![1, 2]);
    assert_eq!(m.started(), "1970-01-01T23:59:59Z");
    assert_eq!(m.__repr__(), "SessionMetadata(id='id-1', snapshots=3)");
    m.set_ended(None);
    assert_eq!(m.ended(), None);
}

fn add_summaries(m: &mut SessionMetadata) {
    m.executable_identity = Some(ExecutableIdentity {
        resolved_path: s("/bin/ls"),
        sha256: ContentHash { bytes: [0xab; 32] },
    });
    m.audit_integrity = Some(AuditIntegritySummary {
        hash_algorithm: s("sha256"),
        event_count: 12,
        chain_head: ContentHash { bytes: [0x01; 32] },
        merkle_root: ContentHash { bytes: [0x02; 32] },
    });
    m.audit_attestation = Some(AuditAttestationSummary {
        predicate_type: s("p"),
        key_id: s("k"),
        public_key: s("pk"),
        bundle_filename: s("b.json"),
    });
}

#[test]
fn summaries_become_records() {
    let mut m = session();
    add_summaries(&mut m);
    let id = m.executable_identity().unwrap();
    assert_eq!(id.fields.len(), 2);
    assert_eq!(text(&id, "resolved_path"), Some(s("/bin/ls")));
    assert_eq!(text(&id, "sha256"), Some("ab".repeat(32)));
    let integrity = m.audit_integrity().unwrap();
    assert_eq!(integrity.fields.len(), 4);
    assert_eq!(text(&integrity, "hash_algorithm"), Some(s("sha256")));
    assert_eq!(text(&integrity, "event_count"), Some(s("12")));
    assert_eq!(text(&integrity, "chain_head"), Some("01".repeat(32)));
    assert_eq!(text(&integrity, "merkle_root"), Some("02".repeat(32)));
    let attestation = m.audit_attestation().unwrap();
    assert_eq!(attestation.fields.len(), 4);
    assert_eq!(text(&attestation, "predicate_type"), Some(s("p")));
    assert_eq!(text(&attestation, "key_id"), Some(s("k")));
    assert_eq!(text(&attestation, "public_key"), Some(s("pk")));
    assert_eq!(text(&attestation, "bundle_filename"), Some(s("b.json")));
}

#[test]
fn network_events_are_read_and_shown() {
    let mut m = session();
    assert!(m.set_network_events(vec![RawEntry::Event(raw())]).is_ok());
    let e = &m.network_events[0];
    assert_eq!(e.mode, NetworkAuditMode::Connect);
    assert_eq!(e.decision, NetworkAuditDecision::Deny);
    assert_eq!(e.path, None);
    let records = m.network_events();
    assert_eq!(records.len(), 1);
    let names: Vec<&str> = records[0].fields.iter().map(|f| f.0).collect();
    assert_eq!(
        names,
        vec![
            "timestamp_unix_ms", "mode", "decision", "target", "port", "method", "path", "status",
            "reason",
        ]
    );
    assert_eq!(text(&records[0], "timestamp_unix_ms"), Some(s("1700000000123")));
    assert_eq!(text(&records[0], "mode"), Some(s("connect")));
    assert_eq!(text(&records[0], "decision"), Some(s("deny")));
    assert_eq!(text(&records[0], "target"), Some(s("x.com")));
    assert_eq!(text(&records[0], "port"), Some(s("443")));
    assert_eq!(text(&records[0], "method"), Some(s("nothing")));
    assert_eq!(text(&records[0], "reason"), Some(s("not allowed")));
}

fn number_field(record: &Record, name: &str) -> Field<u16> {
    for (key, value) in &record.fields {
        if *key == name {
            return match value {
                Value::Number(n) if *n <= 65535 => Field::Found(*n as u16),
                _ => Field::Wrong,
            };
        }
    }
    Field::Missing
}

fn text_field(record: &Record, name: &str) -> Field<String> {
    for (key, value) in &record.fields {
        if *key == name {
            return match value {
                Value::Text(t) => Field::Found(t.clone()),
                _ => Field::Wrong,
            };
        }
    }
    Field::Missing
}

#[test]
fn records_of_events_are_read_back() {
    let mut m = session();
    let mut second = raw();
    second.mode = Field::Found(s("reverse"));
    second.decision = Field::Found(s("allow"));
    second.status = Field::Found(200);
    second.method = Field::Found(s("GET"));
    second.port = Field::Missing;
    let mut third = raw();
    third.mode = Field::Found(s("external"));
    let given = vec![RawEntry::Event(raw()), RawEntry::Event(second), RawEntry::Event(third)];
    m.set_network_events(given).unwrap();
    let again: Vec<RawEntry> = m
        .network_events()
        .iter()
        .map(|r| {
            RawEntry::Event(RawEvent {
                timestamp_unix_ms: Field::Found(1_700_000_000_123),
                mode: text_field(r, "mode"),
                decision: text_field(r, "decision"),
                target: text_field(r, "target"),
                port: number_field(r, "port"),
                method: text_field(r, "method"),
                path: text_field(r, "path"),
                status: number_field(r, "status"),
                reason: text_field(r, "reason"),
            })
        })
        .collect();
    let mut other = session();
    other.set_network_events(again).unwrap();
    assert_eq!(format!("{:?}", m.network_events), format!("{:?}", other.network_events));
}

#[test]
fn faulty_events_are_refused_and_nothing_is_set() {
    let mut m = session();
    m.set_network_events(vec![RawEntry::Event(raw())]).unwrap();
    let mut refuse = |broken: RawEvent, message: Option<&str>| {
        let e = m
            .set_network_events(vec![RawEntry::Event(raw()), RawEntry::Event(broken), RawEntry::NoRecord])
            .unwrap_err();
        assert_eq!(e.index, 1);
        assert_eq!(e.fault.message(), message.map(s));
        assert_eq!(m.network_events.len(), 1);
        e.fault
    };
    let mut r = raw();
    r.timestamp_unix_ms = Field::Missing;
    refuse(r, Some("missing timestamp_unix_ms"));
    let mut r = raw();
    r.timestamp_unix_ms = Field::Wrong;
    r.mode = Field::Missing;
    assert!(matches!(refuse(r, None), Fault::Wrong(field) if field.name() == "timestamp_unix_ms"));
    let mut r = raw();
    r.mode = Field::Missing;
    refuse(r, Some("missing mode"));
    let mut r = raw();
    r.mode = Field::Wrong;
    assert!(matches!(refuse(r, None), Fault::Wrong(field) if field.name() == "mode"));
    let mut r = raw();
    r.mode = Field::Found(s("Connect"));
    r.decision = Field::Missing;
    refuse(r, Some("invalid mode: Connect"));
    let mut r = raw();
    r.decision = Field::Missing;
    refuse(r, Some("missing decision"));
    let mut r = raw();
    r.decision = Field::Found(s("maybe"));
    r.target = Field::Missing;
    refuse(r, Some("invalid decision: maybe"));
    let mut r = raw();
    r.target = Field::Missing;
    refuse(r, Some("missing target"));
    let mut r = raw();
    r.target = Field::Wrong;
    assert!(matches!(refuse(r, None), Fault::Wrong(field) if field.name() == "target"));
    let e = m.set_network_events(vec![RawEntry::NoRecord]).unwrap_err();
    assert_eq!(e.index, 0);
    assert!(matches!(e.fault, Fault::NoRecord));
    assert_eq!(m.network_events.len(), 1);
    m.set_network_events(Vec::new()).unwrap();
    assert!(m.network_events.is_empty());
}

#[test]
fn json_errors_are_said() {
    assert_eq!(SessionMetadata::written_json(Ok(s("{}"))).unwrap(), "{}");
    let e = SessionMetadata::written_json(Err(s("io"))).unwrap_err();
    assert_eq!(e.message(), "Failed to serialize: io");
    let e = SessionMetadata::parsed_session(Err(s("EOF"))).unwrap_err();
    assert_eq!(e.message(), "Invalid JSON: EOF");
    assert_eq!(SessionMetadata::parsed_session(Ok(session())).unwrap().session_id(), "id-1");
}

/// A session with something in each of its fields.
fn full() -> SessionMetadata {
    let mut m = session();
    add_summaries(&mut m);
    m.set_ended(Some(s("1970-01-02T00:00:00Z \"é\"")));
    m.set_snapshot_count(7);
    m.set_exit_code(Some(-9));
    m.add_merkle_root(&ContentHash { bytes: [0x0c; 32] });
    m.add_merkle_root(&ContentHash { bytes: [0x0d; 32] });
    m.audit_event_count = u64::MAX;
    let mut other = raw();
    other.mode = Field::Found(s("reverse"));
    other.decision = Field::Found(s("allow"));
    other.port = Field::Missing;
    other.method = Field::Found(s("GET"));
    other.path = Field::Found(s("/v1"));
    other.status = Field::Found(200);
    other.reason = Field::Missing;
    let mut third = raw();
    third.mode = Field::Found(s("external"));
    m.set_network_events(vec![
        RawEntry::Event(raw()),
        RawEntry::Event(other),
        RawEntry::Event(third),
    ])
    .unwrap();
    m
}

#[test]
fn a_session_is_read_back_from_its_json() {
    for m in [session(), full()] {
        let json = m.to_json().unwrap();
        let back = SessionMetadata::from_json(&json).unwrap();
        assert_eq!(format!("{:?}", back), format!("{:?}", m));
        assert_eq!(back.to_json().unwrap(), json);
        let stored: nono::undo::SessionMetadata = serde_json::from_str(&json).unwrap();
        assert_eq!(serde_json::to_string_pretty(&stored).unwrap(), json);
    }
}

#[test]
fn the_json_of_a_session() {
    let expected = "{\n  \"session_id\": \"id-1\",\n  \"started\": \"1970-01-01T23:59:59Z\",\n  \
        \"ended\": null,\n  \"command\": [\n    \"ls\",\n    \"-l\"\n  ],\n  \
        \"executable_identity\": null,\n  \"tracked_paths\": [\n    \"/w\"\n  ],\n  \
        \"snapshot_count\": 0,\n  \"exit_code\": null,\n  \"merkle_roots\": [],\n  \
        \"network_events\": [],\n  \"audit_event_count\": 0,\n  \"audit_integrity\": null,\n  \
        \"audit_attestation\": null\n}";
    assert_eq!(session().to_json().unwrap(), expected);
}

#[test]
fn each_field_of_a_session_is_in_its_json() {
    let json = full().to_json().unwrap();
    let m: nono::undo::SessionMetadata = serde_json::from_str(&json).unwrap();
    assert_eq!(m.ended, Some(s("1970-01-02T00:00:00Z \"é\"")));
    assert_eq!((m.snapshot_count, m.exit_code, m.audit_event_count), (7, Some(-9), u64::MAX));
    assert_eq!(m.merkle_roots[1].to_string(), "0d".repeat(32));
    let identity = m.executable_identity.unwrap();
    assert_eq!(identity.resolved_path.to_str(), Some("/bin/ls"));
    assert_eq!(identity.sha256.to_string(), "ab".repeat(32));
    let integrity = m.audit_integrity.unwrap();
    assert_eq!((integrity.hash_algorithm, integrity.event_count), (s("sha256"), 12));
    assert_eq!(integrity.chain_head.to_string(), "01".repeat(32));
    assert_eq!(integrity.merkle_root.to_string(), "02".repeat(32));
    let attestation = m.audit_attestation.unwrap();
    assert_eq!((attestation.predicate_type, attestation.key_id), (s("p"), s("k")));
    assert_eq!((attestation.public_key, attestation.bundle_filename), (s("pk"), s("b.json")));
    assert_eq!(m.network_events.len(), 3);
    let e = &m.network_events[1];
    assert_eq!(e.mode, nono::undo::NetworkAuditMode::Reverse);
    assert_eq!(e.decision, nono::undo::NetworkAuditDecision::Allow);
    assert_eq!((e.timestamp_unix_ms, e.port, e.status), (1_700_000_000_123, None, Some(200)));
    assert_eq!((e.method.clone(), e.path.clone()), (Some(s("GET")), Some(s("/v1"))));
    assert_eq!(m.network_events[0].reason, Some(s("not allowed")));
}

#[test]
fn json_that_is_no_session_is_an_error() {
    for json in ["", "{}", "[1", "{\"session_id\": 3}"] {
        let said = serde_json::from_str::<nono::undo::SessionMetadata>(json).unwrap_err();
        let e = SessionMetadata::from_json(json).unwrap_err();
        assert_eq!(e.message(), format!("Invalid JSON: {}", said));
    }
    let old = "{\"session_id\":\"a\",\"started\":\"b\",\"ended\":null,\"command\":[],\
        \"tracked_paths\":[],\"snapshot_count\":1,\"exit_code\":0,\"merkle_roots\":[]}";
    let m = SessionMetadata::from_json(old).unwrap();
    assert_eq!((m.session_id(), m.snapshot_count(), m.audit_event_count()), ("a", 1, 0));
    assert!(m.network_events().is_empty() && m.executable_identity().is_none());
}
