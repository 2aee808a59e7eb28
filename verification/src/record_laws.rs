//! What the records of sessions and snapshots promise: what they hold and say, and
//! how moments, digests and requests are written.

use vstd::prelude::*;

use crate::clock::{
    days_before_month, days_before_year, is_leap, is_moment, lemma_stamp_is_unique, month_days,
    stamp_of, Stamp,
};
use crate::hash::{hex_digit, hex_text, leading_number, ContentHash};
use crate::json::{plain_part, with_summaries};
use crate::session::{
    attestation_record, decision_text, entry_event, entry_fault, event_of, event_record,
    event_views, fault_of, identity_record, integrity_record, is_first_fault, mode_text,
    AuditAttestationSummary, AuditIntegritySummary, EventView, ExecutableIdentity, Fault, FaultView,
    Field, Needed, NetworkAuditDecision, NetworkAuditEvent, NetworkAuditMode, RawEntry, RawEvent,
    SessionMetadata, SessionView, Value, ValueView,
};
use crate::snapshot::{
    change_text, count_up_to, greater, is_latest, manifest_name, manifest_number, opt_manifest,
    ChangeType, SnapshotManifest,
};
use crate::text::{bounded_number, decimal, numeral, opt_text, opt_view, texts, zero_padded};

verus! {

/// What is seen of texts: each of them, in order, and of one that may be missing the
/// text or that it is missing.
pub proof fn lemma_texts_are_seen(v: Seq<String>, o: Option<String>)
    ensures
        texts(v).len() == v.len(),
        forall|i: int| 0 <= i < v.len() ==> #[trigger] texts(v)[i] == v[i]@,
        o matches Some(t) ==> opt_text(o) == Some(t@) && opt_view(o) == Some(t@),
        o is None ==> opt_text(o) is None && opt_view(o) is None,
{
}

/// Numbers in octal: a digit alone, and otherwise the number without its last digit
/// and then that digit.
pub proof fn lemma_octals(n: nat)
    ensures
        n < 8 ==> numeral(n, 8) == decimal(n),
        n >= 8 ==> numeral(n, 8) == numeral(n / 8, 8) + decimal(n % 8),
{
    if n >= 8 {
        assert(decimal(n % 8).len() == 1);
        assert(numeral(n, 8) =~= numeral(n / 8, 8) + decimal(n % 8));
    }
}

/// The calendar: which years have 366 days, how long months are, and how days add up.
pub proof fn lemma_calendar(year: int, month: int)
    ensures
        is_leap(year) <==> year % 400 == 0 || (year % 4 == 0 && year % 100 != 0),
        month_days(year, 1) == 31,
        month_days(year, 2) == if year % 400 == 0 || (year % 4 == 0 && year % 100 != 0) {
            29int
        } else {
            28
        },
        month_days(year, 3) == 31,
        month_days(year, 4) == 30,
        month_days(year, 5) == 31,
        month_days(year, 6) == 30,
        month_days(year, 7) == 31,
        month_days(year, 8) == 31,
        month_days(year, 9) == 30,
        month_days(year, 10) == 31,
        month_days(year, 11) == 30,
        month_days(year, 12) == 31,
        days_before_month(year, 1) == 0,
        1 <= month < 12 ==> days_before_month(year, month + 1) == days_before_month(year, month)
            + month_days(year, month),
        days_before_year(1970) == 0,
        year >= 1970 ==> days_before_year(year + 1) == days_before_year(year) + days_before_month(
            year,
            12,
        ) + 31,
{
    reveal_with_fuel(days_before_month, 13);
}

/// The moment that a number of seconds stands for: there is one date with one time of
/// day for it, days have 86400 seconds, and the first second is the beginning of 1970.
pub proof fn lemma_moment(s: Stamp, secs: int)
    requires
        s.year >= 1970,
        1 <= s.month <= 12,
        1 <= s.day <= month_days(s.year, s.month),
        0 <= s.hour < 24,
        0 <= s.minute < 60,
        0 <= s.second < 60,
        secs == ((((days_before_year(s.year) + days_before_month(s.year, s.month) + s.day - 1) * 24
            + s.hour) * 60) + s.minute) * 60 + s.second,
    ensures
        stamp_of(secs) == s,
{
    assert(is_moment(s, secs));
    lemma_stamp_is_unique(s, stamp_of(secs));
}

/// How a moment is written.
pub proof fn lemma_moment_text(s: Stamp)
    ensures
        s.text() == zero_padded(decimal(s.year as nat), 4) + seq!['-'] + zero_padded(
            decimal(s.month as nat),
            2,
        ) + seq!['-'] + zero_padded(decimal(s.day as nat), 2) + seq!['T'] + zero_padded(
            decimal(s.hour as nat),
            2,
        ) + seq![':'] + zero_padded(decimal(s.minute as nat), 2) + seq![':'] + zero_padded(
            decimal(s.second as nat),
            2,
        ) + seq!['Z'],
{
    reveal_strlit("-");
    reveal_strlit("T");
    reveal_strlit(":");
    reveal_strlit("Z");
    assert("-"@ =~= seq!['-']);
    assert("T"@ =~= seq!['T']);
    assert(":"@ =~= seq![':']);
    assert("Z"@ =~= seq!['Z']);
}

/// How bytes are written: two hexadecimal digits for each, the greater one first.
pub proof fn lemma_hex(bytes: Seq<u8>, i: int)
    ensures
        hex_text(bytes).len() == 2 * bytes.len(),
        0 <= i < bytes.len() ==> hex_text(bytes)[2 * i] == "0123456789abcdef"@[bytes[i] as int / 16],
        0 <= i < bytes.len() ==> hex_text(bytes)[2 * i + 1] == "0123456789abcdef"@[bytes[i] as int
            % 16],
{
    reveal_strlit("0123456789abcdef");
    assert((2 * i) / 2 == i && (2 * i) % 2 == 0);
    assert((2 * i + 1) / 2 == i && (2 * i + 1) % 2 == 1);
    if 0 <= i < bytes.len() {
        lemma_hex_digit(bytes[i] as int / 16);
        lemma_hex_digit(bytes[i] as int % 16);
        assert(hex_text(bytes)[2 * i] == hex_digit(bytes[i] as int / 16));
        assert(hex_text(bytes)[2 * i + 1] == hex_digit(bytes[i] as int % 16));
    }
}

proof fn lemma_hex_digit(n: int)
    requires
        0 <= n < 16,
    ensures
        hex_digit(n) == "0123456789abcdef"@[n],
{
    reveal_strlit("0123456789abcdef");
}

/// The hash of a digest: the number whose eight bytes, the least one first, it begins
/// with.
pub proof fn lemma_digest_hash(h: ContentHash)
    ensures
        h@ == h.bytes@,
        leading_number(h@) == h.bytes[0] + 256 * (h.bytes[1] + 256 * (h.bytes[2] + 256 * (h.bytes[3]
            + 256 * (h.bytes[4] + 256 * (h.bytes[5] + 256 * (h.bytes[6] + 256 * h.bytes[7])))))),
{
}

/// What a value in a record is seen as.
pub proof fn lemma_values(v: Value)
    ensures
        v is Nothing ==> v@ is Nothing,
        v matches Value::Number(n) ==> v@ == ValueView::Number(n),
        v matches Value::Text(t) ==> v@ == ValueView::Text(t@),
{
}

/// The record of a request: each of its fields under its name, with nothing where it
/// has nothing.
pub proof fn lemma_event_record(e: NetworkAuditEvent)
    ensures
        event_record(e@) == seq![
            ("timestamp_unix_ms"@, ValueView::Number(e.timestamp_unix_ms)),
            (
                "mode"@,
                ValueView::Text(
                    if e.mode == NetworkAuditMode::Connect {
                        "connect"@
                    } else if e.mode == NetworkAuditMode::Reverse {
                        "reverse"@
                    } else {
                        "external"@
                    },
                ),
            ),
            (
                "decision"@,
                ValueView::Text(
                    if e.decision == NetworkAuditDecision::Allow {
                        "allow"@
                    } else {
                        "deny"@
                    },
                ),
            ),
            ("target"@, ValueView::Text(e.target@)),
            (
                "port"@,
                if let Some(n) = e.port {
                    ValueView::Number(n as u64)
                } else {
                    ValueView::Nothing
                },
            ),
            (
                "method"@,
                if let Some(t) = e.method {
                    ValueView::Text(t@)
                } else {
                    ValueView::Nothing
                },
            ),
            (
                "path"@,
                if let Some(t) = e.path {
                    ValueView::Text(t@)
                } else {
                    ValueView::Nothing
                },
            ),
            (
                "status"@,
                if let Some(n) = e.status {
                    ValueView::Number(n as u64)
                } else {
                    ValueView::Nothing
                },
            ),
            (
                "reason"@,
                if let Some(t) = e.reason {
                    ValueView::Text(t@)
                } else {
                    ValueView::Nothing
                },
            ),
        ],
{
}

/// The modes and decisions by which requests are recorded.
pub proof fn lemma_event_words()
    ensures
        mode_text(NetworkAuditMode::Connect) == "connect"@,
        mode_text(NetworkAuditMode::Reverse) == "reverse"@,
        mode_text(NetworkAuditMode::External) == "external"@,
        decision_text(NetworkAuditDecision::Allow) == "allow"@,
        decision_text(NetworkAuditDecision::Deny) == "deny"@,
{
}

/// Which requests that came from outside are refused, and why: the first thing that is
/// wrong with the timestamp, the mode, the decision or the target. What else they have
/// is never a reason.
pub proof fn lemma_requests_refused(raw: RawEvent)
    ensures
        raw.timestamp_unix_ms is Missing ==> fault_of(raw@) == Some(
            FaultView::Missing(Needed::Timestamp),
        ),
        raw.timestamp_unix_ms is Wrong ==> fault_of(raw@) == Some(
            FaultView::Wrong(Needed::Timestamp),
        ),
        raw.timestamp_unix_ms is Found ==> {
            &&& raw.mode is Missing ==> fault_of(raw@) == Some(FaultView::Missing(Needed::Mode))
            &&& raw.mode is Wrong ==> fault_of(raw@) == Some(FaultView::Wrong(Needed::Mode))
            &&& raw.mode matches Field::Found(mode) ==> if mode@ != "connect"@ && mode@
                != "reverse"@ && mode@ != "external"@ {
                fault_of(raw@) == Some(FaultView::InvalidMode(mode@))
            } else {
                &&& raw.decision is Missing ==> fault_of(raw@) == Some(
                    FaultView::Missing(Needed::Decision),
                )
                &&& raw.decision is Wrong ==> fault_of(raw@) == Some(
                    FaultView::Wrong(Needed::Decision),
                )
                &&& raw.decision matches Field::Found(decision) ==> if decision@ != "allow"@
                    && decision@ != "deny"@ {
                    fault_of(raw@) == Some(FaultView::InvalidDecision(decision@))
                } else {
                    &&& raw.target is Missing ==> fault_of(raw@) == Some(
                        FaultView::Missing(Needed::Target),
                    )
                    &&& raw.target is Wrong ==> fault_of(raw@) == Some(
                        FaultView::Wrong(Needed::Target),
                    )
                    &&& raw.target is Found ==> fault_of(raw@) is None
                }
            }
        },
{
}

/// What is read of a request that came from outside and is not refused: what stands in
/// each of its fields; a field that need not be there and holds something of another
/// type is passed over.
pub proof fn lemma_requests_read(raw: RawEvent)
    requires
        fault_of(raw@) is None,
    ensures
        raw.timestamp_unix_ms matches Field::Found(n) && event_of(raw@).timestamp_unix_ms == n,
        raw.mode matches Field::Found(mode) && mode@ == (if event_of(raw@).mode
            == NetworkAuditMode::Connect {
            "connect"@
        } else if event_of(raw@).mode == NetworkAuditMode::Reverse {
            "reverse"@
        } else {
            "external"@
        }),
        raw.decision matches Field::Found(decision) && decision@ == (if event_of(raw@).decision
            == NetworkAuditDecision::Allow {
            "allow"@
        } else {
            "deny"@
        }),
        raw.target matches Field::Found(t) && event_of(raw@).target == t@,
        raw.port matches Field::Found(n) ==> event_of(raw@).port == Some(n),
        !(raw.port is Found) ==> event_of(raw@).port is None,
        raw.method matches Field::Found(t) ==> event_of(raw@).method == Some(t@),
        !(raw.method is Found) ==> event_of(raw@).method is None,
        raw.path matches Field::Found(t) ==> event_of(raw@).path == Some(t@),
        !(raw.path is Found) ==> event_of(raw@).path is None,
        raw.status matches Field::Found(n) ==> event_of(raw@).status == Some(n),
        !(raw.status is Found) ==> event_of(raw@).status is None,
        raw.reason matches Field::Found(t) ==> event_of(raw@).reason == Some(t@),
        !(raw.reason is Found) ==> event_of(raw@).reason is None,
{
}

/// What is seen of a request: all that it holds.
pub proof fn lemma_events_are_seen(v: Seq<NetworkAuditEvent>, i: int)
    requires
        0 <= i < v.len(),
    ensures
        event_views(v).len() == v.len(),
        event_views(v)[i] == v[i]@,
        v[i]@.timestamp_unix_ms == v[i].timestamp_unix_ms,
        v[i]@.mode == v[i].mode,
        v[i]@.decision == v[i].decision,
        v[i]@.target == v[i].target@,
        v[i]@.port == v[i].port,
        v[i]@.method == opt_text(v[i].method),
        v[i]@.path == opt_text(v[i].path),
        v[i]@.status == v[i].status,
        v[i]@.reason == opt_text(v[i].reason),
{
}

/// Of several things that came from outside as requests, one that is no record is at
/// fault for that, and any other one where its fields are; what is reported is the
/// first one at fault.
pub proof fn lemma_entries(entries: Seq<RawEntry>, i: int, fault: FaultView)
    requires
        0 <= i < entries.len(),
    ensures
        entries[i] is NoRecord ==> entry_fault(entries[i]) == Some(FaultView::NoRecord),
        entries[i] matches RawEntry::Event(raw) ==> entry_fault(entries[i]) == fault_of(raw@)
            && entry_event(entries[i]) == event_of(raw@),
        is_first_fault(entries, i, fault) <==> entry_fault(entries[i]) == Some(fault) && forall|
            j: int,
        |
            0 <= j < i ==> entry_fault(#[trigger] entries[j]) is None,
{
}

/// What is said of a request at fault.
pub proof fn lemma_fault_texts(fault: Fault)
    ensures
        fault is NoRecord ==> fault@.message() is None,
        fault is Wrong ==> fault@.message() is None,
        fault matches Fault::Missing(Needed::Timestamp) ==> fault@.message() == Some(
            "missing "@ + "timestamp_unix_ms"@,
        ),
        fault matches Fault::Missing(Needed::Mode) ==> fault@.message() == Some(
            "missing "@ + "mode"@,
        ),
        fault matches Fault::Missing(Needed::Decision) ==> fault@.message() == Some(
            "missing "@ + "decision"@,
        ),
        fault matches Fault::Missing(Needed::Target) ==> fault@.message() == Some(
            "missing "@ + "target"@,
        ),
        fault matches Fault::InvalidMode(t) ==> fault@.message() == Some("invalid mode: "@ + t@),
        fault matches Fault::InvalidDecision(t) ==> fault@.message() == Some(
            "invalid decision: "@ + t@,
        ),
{
}

/// The records of an executable and of what was taken down of an audit log.
pub proof fn lemma_summary_records(
    id: ExecutableIdentity,
    integrity: AuditIntegritySummary,
    attestation: AuditAttestationSummary,
)
    ensures
        identity_record(id) == seq![
            ("resolved_path"@, ValueView::Text(id.resolved_path@)),
            ("sha256"@, ValueView::Text(hex_text(id.sha256.bytes@))),
        ],
        integrity_record(integrity) == seq![
            ("hash_algorithm"@, ValueView::Text(integrity.hash_algorithm@)),
            ("event_count"@, ValueView::Number(integrity.event_count)),
            ("chain_head"@, ValueView::Text(hex_text(integrity.chain_head.bytes@))),
            ("merkle_root"@, ValueView::Text(hex_text(integrity.merkle_root.bytes@))),
        ],
        attestation_record(attestation) == seq![
            ("predicate_type"@, ValueView::Text(attestation.predicate_type@)),
            ("key_id"@, ValueView::Text(attestation.key_id@)),
            ("public_key"@, ValueView::Text(attestation.public_key@)),
            ("bundle_filename"@, ValueView::Text(attestation.bundle_filename@)),
        ],
{
}

/// What is seen of an executable and of what was taken down of an audit log: all that
/// they hold.
pub proof fn lemma_summaries_are_seen(
    id: ExecutableIdentity,
    integrity: AuditIntegritySummary,
    attestation: AuditAttestationSummary,
)
    ensures
        id@.resolved_path == id.resolved_path@,
        id@.sha256 == id.sha256.bytes@,
        integrity@.hash_algorithm == integrity.hash_algorithm@,
        integrity@.event_count == integrity.event_count,
        integrity@.chain_head == integrity.chain_head.bytes@,
        integrity@.merkle_root == integrity.merkle_root.bytes@,
        attestation@.predicate_type == attestation.predicate_type@,
        attestation@.key_id == attestation.key_id@,
        attestation@.public_key == attestation.public_key@,
        attestation@.bundle_filename == attestation.bundle_filename@,
{
}

/// What is seen of a session: all that it holds. So a session that is read from what
/// was written for it holds the same.
pub proof fn lemma_sessions_are_seen(s: SessionMetadata)
    ensures
        s@.session_id == s.session_id@,
        s@.started == s.started@,
        s@.ended == opt_text(s.ended),
        s@.command == texts(s.command@),
        s@.executable_identity is Some <==> s.executable_identity is Some,
        s.executable_identity matches Some(id) ==> s@.executable_identity == Some(id@),
        s@.tracked_paths == texts(s.tracked_paths@),
        s@.snapshot_count == s.snapshot_count,
        s@.exit_code == s.exit_code,
        s@.merkle_roots.len() == s.merkle_roots@.len(),
        forall|i: int|
            0 <= i < s.merkle_roots@.len() ==> #[trigger] s@.merkle_roots[i]
                == s.merkle_roots@[i].bytes@,
        s@.network_events == event_views(s.network_events@),
        s@.audit_event_count == s.audit_event_count,
        s@.audit_integrity is Some <==> s.audit_integrity is Some,
        s.audit_integrity matches Some(a) ==> s@.audit_integrity == Some(a@),
        s@.audit_attestation is Some <==> s.audit_attestation is Some,
        s.audit_attestation matches Some(a) ==> s@.audit_attestation == Some(a@),
{
}

/// What the parts of a session hold that are written one after the other.
pub proof fn lemma_session_parts(
    s: SessionView,
    id: Option<ExecutableIdentity>,
    integrity: Option<AuditIntegritySummary>,
    attestation: Option<AuditAttestationSummary>,
)
    ensures
        plain_part(s) == (SessionView {
            executable_identity: None,
            network_events: Seq::<EventView>::empty(),
            audit_integrity: None,
            audit_attestation: None,
            ..s
        }),
        with_summaries(s, id, integrity, attestation) == (SessionView {
            executable_identity: opt_view(id),
            audit_integrity: opt_view(integrity),
            audit_attestation: opt_view(attestation),
            ..s
        }),
{
}

/// What happened to a file, in words.
pub proof fn lemma_change_words()
    ensures
        change_text(ChangeType::Created) == "created"@,
        change_text(ChangeType::Modified) == "modified"@,
        change_text(ChangeType::Deleted) == "deleted"@,
        change_text(ChangeType::PermissionsChanged) == "permissions_changed"@,
{
}

/// What is seen of a snapshot: all that it holds.
pub proof fn lemma_manifests_are_seen(m: SnapshotManifest)
    ensures
        m@.number == m.number,
        m@.timestamp == m.timestamp@,
        m@.parent == m.parent,
        m@.merkle_root == m.merkle_root,
        m@.files == m.files.rows(),
        opt_manifest(Some(m)) == Some(m@),
        opt_manifest(None) is None,
{
}

/// Which files hold snapshots: those whose names are a number below 4294967296 and
/// `.json`.
pub proof fn lemma_manifest_files(stem: Seq<char>, name: Seq<char>)
    ensures
        manifest_number(stem + ".json"@) == bounded_number(stem, 4294967295),
        !".json"@.is_suffix_of(name) ==> manifest_number(name) is None,
{
    let whole = stem + ".json"@;
    assert(whole.skip(stem.len() as int) =~= ".json"@);
    assert(whole.take(stem.len() as int) =~= stem);
}

/// The name of the file that holds a snapshot: its number, with zeros in front until
/// there are three digits, and `.json`.
pub proof fn lemma_manifest_names(number: nat)
    ensures
        manifest_name(number) == zero_padded(decimal(number), 3) + ".json"@,
{
}

/// The latest snapshot is the one of the files that has the greatest number.
pub proof fn lemma_latest(names: Seq<Seq<char>>, i: int, n: nat)
    requires
        0 <= i < names.len(),
    ensures
        manifest_number(names[i]) == Some(n) && (forall|j: int|
            0 <= j < names.len() ==> (manifest_number(#[trigger] names[j]) matches Some(m) ==> m
                <= n)) ==> is_latest(n, names),
        is_latest(n, names) ==> (manifest_number(names[i]) matches Some(m) ==> m <= n),
        is_latest(n, names) ==> exists|j: int|
            0 <= j < names.len() && manifest_number(#[trigger] names[j]) == Some(n),
{
}

/// How many snapshots there are: one more than the number of the latest one, none
/// without one, and of two counts the greater one.
pub proof fn lemma_counts(number: u32, a: int, b: int)
    ensures
        count_up_to(None) == 0,
        number < u32::MAX ==> count_up_to(Some(number)) == number + 1,
        number == u32::MAX ==> count_up_to(Some(number)) == u32::MAX,
        greater(a, b) >= a,
        greater(a, b) >= b,
        greater(a, b) == a || greater(a, b) == b,
{
}

} // verus!
