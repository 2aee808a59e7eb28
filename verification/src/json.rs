//! Sessions as JSON, which serde_json reads and writes.
//!
//! What the JSON of a session looks like is said by nono's type for one, which a
//! session is turned into and made from, a few of its fields at a time.

use vstd::prelude::*;

use nono::undo as stored;

use crate::hash::ContentHash;
use crate::session::{
    event_views, AuditAttestationSummary, AuditIntegritySummary, ExecutableIdentity,
    NetworkAuditDecision, NetworkAuditEvent, NetworkAuditMode, SessionError, SessionMetadata,
    SessionView,
};
use crate::text::{copy_strings, opt_text, opt_view};

verus! {

/// What `serde_json::from_str` reads as a session, or what its error says.
pub uninterp spec fn session_in_json(json: Seq<char>) -> Result<SessionView, Seq<char>>;

/// What `serde_json::to_string_pretty` writes for a session.
pub uninterp spec fn session_json(session: SessionView) -> Seq<char>;

/// A session without its executable, its requests, and what was taken down of its
/// audit log.
pub open spec fn plain_part(session: SessionView) -> SessionView {
    SessionView {
        executable_identity: None,
        network_events: Seq::empty(),
        audit_integrity: None,
        audit_attestation: None,
        ..session
    }
}

/// Calls `serde_json::from_str` for nono's `SessionMetadata` and hands out the plain
/// part of the session that it reads. The claim is that this is that part of the
/// session that the JSON stands for, and that an error is what the error says. The
/// paths are read from JSON strings, so they are UTF-8.
#[verifier::external_body]
fn parse_plain_part(json: &str) -> (r: Result<SessionMetadata, String>)
    ensures
        match r {
            Ok(session) => session_in_json(json@) matches Ok(v) && session@ == plain_part(v),
            Err(message) => session_in_json(json@) == Err::<SessionView, Seq<char>>(message@),
        },
{
    let s: stored::SessionMetadata = serde_json::from_str(json).map_err(|e| e.to_string())?;
    Ok(SessionMetadata {
        session_id: s.session_id,
        started: s.started,
        ended: s.ended,
        command: s.command,
        tracked_paths: s.tracked_paths.iter().map(|p| p.display().to_string()).collect(),
        snapshot_count: s.snapshot_count,
        exit_code: s.exit_code,
        merkle_roots: s.merkle_roots.iter().map(|h| ContentHash { bytes: *h.as_bytes() }).collect(),
        network_events: Vec::new(),
        audit_event_count: s.audit_event_count,
        executable_identity: None, audit_integrity: None, audit_attestation: None,
    })
}

/// Calls `serde_json::from_str` for nono's `SessionMetadata` and hands out the
/// requests of the session that it reads. The claim is that these are the requests
/// of the session that the JSON stands for, and that an error is what the error
/// says.
#[verifier::external_body]
fn parse_events(json: &str) -> (r: Result<Vec<NetworkAuditEvent>, String>)
    ensures
        match r {
            Ok(events) => session_in_json(json@) matches Ok(v) && event_views(events@)
                == v.network_events,
            Err(message) => session_in_json(json@) == Err::<SessionView, Seq<char>>(message@),
        },
{
    let s: stored::SessionMetadata = serde_json::from_str(json).map_err(|e| e.to_string())?;
    Ok(s.network_events.into_iter().map(|e| NetworkAuditEvent {
        mode: match e.mode {
            stored::NetworkAuditMode::Connect => NetworkAuditMode::Connect,
            stored::NetworkAuditMode::Reverse => NetworkAuditMode::Reverse,
            stored::NetworkAuditMode::External => NetworkAuditMode::External,
        },
        decision: match e.decision {
            stored::NetworkAuditDecision::Allow => NetworkAuditDecision::Allow,
            stored::NetworkAuditDecision::Deny => NetworkAuditDecision::Deny,
        },
        timestamp_unix_ms: e.timestamp_unix_ms, target: e.target, port: e.port,
        method: e.method, path: e.path, status: e.status, reason: e.reason,
    }).collect())
}

/// Calls `serde_json::from_str` for nono's `SessionMetadata` and hands out the
/// executable of the session that it reads, and what was taken down of its audit
/// log. The claim is that these are those of the session that the JSON stands for,
/// and that an error is what the error says.
#[verifier::external_body]
fn parse_summaries(json: &str) -> (r: Result<
    (Option<ExecutableIdentity>, Option<AuditIntegritySummary>, Option<AuditAttestationSummary>),
    String,
>)
    ensures
        match r {
            Ok(parts) => session_in_json(json@) matches Ok(v) && opt_view(parts.0)
                == v.executable_identity && opt_view(parts.1) == v.audit_integrity && opt_view(
                parts.2,
            ) == v.audit_attestation,
            Err(message) => session_in_json(json@) == Err::<SessionView, Seq<char>>(message@),
        },
{
    let s: stored::SessionMetadata = serde_json::from_str(json).map_err(|e| e.to_string())?;
    let identity = s.executable_identity.map(|i| ExecutableIdentity {
        resolved_path: i.resolved_path.display().to_string(),
        sha256: ContentHash { bytes: *i.sha256.as_bytes() },
    });
    let integrity = s.audit_integrity.map(|a| AuditIntegritySummary {
        hash_algorithm: a.hash_algorithm, event_count: a.event_count,
        chain_head: ContentHash { bytes: *a.chain_head.as_bytes() },
        merkle_root: ContentHash { bytes: *a.merkle_root.as_bytes() },
    });
    Ok((identity, integrity, s.audit_attestation.map(|a| AuditAttestationSummary {
        predicate_type: a.predicate_type, key_id: a.key_id,
        public_key: a.public_key, bundle_filename: a.bundle_filename,
    })))
}

/// Calls `serde_json::to_string` for the plain part of a session, as nono's
/// `SessionMetadata`. The claims are that this succeeds, since nothing in that part
/// can fail to be written, and that reading the JSON gives the part back.
#[verifier::external_body]
fn write_plain_part(s: SessionMetadata) -> (r: Result<String, String>)
    ensures
        match r {
            Ok(json) => session_in_json(json@) == Ok::<SessionView, Seq<char>>(plain_part(s@)),
            Err(_) => false,
        },
{
    serde_json::to_string(&stored::SessionMetadata {
        session_id: s.session_id,
        started: s.started,
        ended: s.ended,
        command: s.command,
        tracked_paths: s.tracked_paths.into_iter().map(std::path::PathBuf::from).collect(),
        snapshot_count: s.snapshot_count,
        exit_code: s.exit_code,
        merkle_roots: s.merkle_roots.iter().map(|h| stored::ContentHash::from_bytes(h.bytes)).collect(),
        network_events: Vec::new(),
        audit_event_count: s.audit_event_count,
        executable_identity: None, audit_integrity: None, audit_attestation: None,
    }).map_err(|e| e.to_string())
}

/// Calls `serde_json::to_string` for the session that `json` stands for, as
/// `serde_json::from_str` reads it, with `events` as its requests. The claims are
/// that this succeeds for JSON that can be read, since nothing in a session can
/// fail to be written, that reading the new JSON gives that session back, and that
/// an error is what the reader's error says.
#[verifier::external_body]
fn write_events(json: &str, events: Vec<NetworkAuditEvent>) -> (r: Result<String, String>)
    ensures
        match session_in_json(json@) {
            Ok(v) => r matches Ok(more) && session_in_json(more@) == Ok::<SessionView, Seq<char>>(
                (SessionView { network_events: event_views(events@), ..v }),
            ),
            Err(said) => r matches Err(message) && message@ == said,
        },
{
    let mut s: stored::SessionMetadata = serde_json::from_str(json).map_err(|e| e.to_string())?;
    s.network_events = events.into_iter().map(|e| stored::NetworkAuditEvent {
        mode: match e.mode {
            NetworkAuditMode::Connect => stored::NetworkAuditMode::Connect,
            NetworkAuditMode::Reverse => stored::NetworkAuditMode::Reverse,
            NetworkAuditMode::External => stored::NetworkAuditMode::External,
        },
        decision: match e.decision {
            NetworkAuditDecision::Allow => stored::NetworkAuditDecision::Allow,
            NetworkAuditDecision::Deny => stored::NetworkAuditDecision::Deny,
        },
        timestamp_unix_ms: e.timestamp_unix_ms, target: e.target, port: e.port,
        method: e.method, path: e.path, status: e.status, reason: e.reason,
    }).collect();
    serde_json::to_string(&s).map_err(|e| e.to_string())
}

/// The session with an executable, and with what was taken down of its audit log.
pub open spec fn with_summaries(
    session: SessionView,
    identity: Option<ExecutableIdentity>,
    integrity: Option<AuditIntegritySummary>,
    attestation: Option<AuditAttestationSummary>,
) -> SessionView {
    SessionView {
        executable_identity: opt_view(identity),
        audit_integrity: opt_view(integrity),
        audit_attestation: opt_view(attestation),
        ..session
    }
}

/// Calls `serde_json::to_string_pretty` for the session that `json` stands for, as
/// `serde_json::from_str` reads it, with an executable and with what was taken down
/// of its audit log. The claims are that this succeeds for JSON that can be read,
/// since nothing in a session can fail to be written, that the new JSON is what is
/// written for that session, that reading it gives the session back, and that an
/// error is what the reader's error says.
#[verifier::external_body]
fn write_summaries(
    json: &str,
    identity: Option<ExecutableIdentity>,
    integrity: Option<AuditIntegritySummary>,
    attestation: Option<AuditAttestationSummary>,
) -> (r: Result<String, String>)
    ensures
        match session_in_json(json@) {
            Ok(v) => r matches Ok(more) && more@ == session_json(
                with_summaries(v, identity, integrity, attestation),
            ) && session_in_json(more@) == Ok::<SessionView, Seq<char>>(
                with_summaries(v, identity, integrity, attestation),
            ),
            Err(said) => r matches Err(message) && message@ == said,
        },
{
    let mut s: stored::SessionMetadata = serde_json::from_str(json).map_err(|e| e.to_string())?;
    s.executable_identity = identity.map(|i| stored::ExecutableIdentity {
        resolved_path: i.resolved_path.into(),
        sha256: stored::ContentHash::from_bytes(i.sha256.bytes),
    });
    s.audit_integrity = integrity.map(|a| stored::AuditIntegritySummary {
        hash_algorithm: a.hash_algorithm, event_count: a.event_count,
        chain_head: stored::ContentHash::from_bytes(a.chain_head.bytes),
        merkle_root: stored::ContentHash::from_bytes(a.merkle_root.bytes),
    });
    s.audit_attestation = attestation.map(|a| stored::AuditAttestationSummary {
        predicate_type: a.predicate_type, key_id: a.key_id,
        public_key: a.public_key, bundle_filename: a.bundle_filename,
    });
    serde_json::to_string_pretty(&s).map_err(|e| e.to_string())
}

/// A copy of a text that may be missing.
fn copy_text(o: &Option<String>) -> (r: Option<String>)
    ensures
        opt_text(r) == opt_text(*o),
{
    match o {
        Some(t) => Some(t.clone()),
        None => None,
    }
}

/// A copy of requests.
fn copy_events(events: &Vec<NetworkAuditEvent>) -> (r: Vec<NetworkAuditEvent>)
    ensures
        event_views(r@) == event_views(events@),
{
    let mut r: Vec<NetworkAuditEvent> = Vec::new();
    for i in 0..events.len()
        invariant
            r@.len() == i,
            forall|j: int| 0 <= j < i ==> (#[trigger] r@[j])@ == events@[j]@,
    {
        let e = &events[i];
        r.push(
            NetworkAuditEvent {
                timestamp_unix_ms: e.timestamp_unix_ms,
                mode: e.mode,
                decision: e.decision,
                target: e.target.clone(),
                port: e.port,
                method: copy_text(&e.method),
                path: copy_text(&e.path),
                status: e.status,
                reason: copy_text(&e.reason),
            },
        );
    }
    assert(event_views(r@) =~= event_views(events@));
    r
}

/// A copy of an executable, if there is one.
fn copy_identity(identity: &Option<ExecutableIdentity>) -> (r: Option<ExecutableIdentity>)
    ensures
        opt_view(r) == opt_view(*identity),
{
    match identity {
        Some(i) => Some(
            ExecutableIdentity { resolved_path: i.resolved_path.clone(), sha256: i.sha256 },
        ),
        None => None,
    }
}

/// A copy of what vouches for an audit log, if there is anything.
fn copy_integrity(integrity: &Option<AuditIntegritySummary>) -> (r: Option<AuditIntegritySummary>)
    ensures
        opt_view(r) == opt_view(*integrity),
{
    match integrity {
        Some(a) => Some(
            AuditIntegritySummary {
                hash_algorithm: a.hash_algorithm.clone(),
                event_count: a.event_count,
                chain_head: a.chain_head,
                merkle_root: a.merkle_root,
            },
        ),
        None => None,
    }
}

/// A copy of the signature over an audit log, if there is one.
fn copy_attestation(attestation: &Option<AuditAttestationSummary>) -> (r: Option<
    AuditAttestationSummary,
>)
    ensures
        opt_view(r) == opt_view(*attestation),
{
    match attestation {
        Some(a) => Some(
            AuditAttestationSummary {
                predicate_type: a.predicate_type.clone(),
                key_id: a.key_id.clone(),
                public_key: a.public_key.clone(),
                bundle_filename: a.bundle_filename.clone(),
            },
        ),
        None => None,
    }
}

/// Reads a session from JSON; an error is what the parser says.
fn parse_session(json: &str) -> (r: Result<SessionMetadata, String>)
    ensures
        match r {
            Ok(session) => session_in_json(json@) == Ok::<SessionView, Seq<char>>(session@),
            Err(message) => session_in_json(json@) == Err::<SessionView, Seq<char>>(message@),
        },
{
    let plain = parse_plain_part(json)?;
    let events = parse_events(json)?;
    let summaries = parse_summaries(json)?;
    let session = SessionMetadata {
        network_events: events,
        executable_identity: summaries.0,
        audit_integrity: summaries.1,
        audit_attestation: summaries.2,
        ..plain
    };
    assert(session_in_json(json@) == Ok::<SessionView, Seq<char>>(session@));
    Ok(session)
}

/// Writes a session as JSON.
fn write_session(session: &SessionMetadata) -> (r: Result<String, String>)
    ensures
        r matches Ok(json) && json@ == session_json(session@) && session_in_json(json@) == Ok::<
            SessionView,
            Seq<char>,
        >(session@),
{
    let plain = SessionMetadata {
        session_id: session.session_id.clone(),
        started: session.started.clone(),
        ended: copy_text(&session.ended),
        command: copy_strings(session.command.as_slice()),
        executable_identity: None,
        tracked_paths: copy_strings(session.tracked_paths.as_slice()),
        snapshot_count: session.snapshot_count,
        exit_code: session.exit_code,
        merkle_roots: session.merkle_roots(),
        network_events: Vec::new(),
        audit_event_count: session.audit_event_count,
        audit_integrity: None,
        audit_attestation: None,
    };
    assert(plain_part(plain@) == plain_part(session@));
    let text = write_plain_part(plain)?;
    let text = write_events(text.as_str(), copy_events(&session.network_events))?;
    let identity = copy_identity(&session.executable_identity);
    let integrity = copy_integrity(&session.audit_integrity);
    let attestation = copy_attestation(&session.audit_attestation);
    write_summaries(text.as_str(), identity, integrity, attestation)
}

impl SessionMetadata {
    /// The session as JSON. Reading it with `from_json` gives the session back.
    pub fn to_json(&self) -> (r: Result<String, SessionError>)
        ensures
            r matches Ok(json) && json@ == session_json(self@) && session_in_json(json@) == Ok::<
                SessionView,
                Seq<char>,
            >(self@),
    {
        SessionMetadata::written_json(write_session(self))
    }

    /// The session that JSON stands for, or the parser's message as an error.
    pub fn from_json(json: &str) -> (r: Result<SessionMetadata, SessionError>)
        ensures
            match r {
                Ok(session) => session_in_json(json@) == Ok::<SessionView, Seq<char>>(session@),
                Err(e) => e matches SessionError::Unreadable(message) && session_in_json(json@)
                    == Err::<SessionView, Seq<char>>(message@),
            },
    {
        SessionMetadata::parsed_session(parse_session(json))
    }
}

} // verus!
