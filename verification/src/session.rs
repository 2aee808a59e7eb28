//! Sessions: what is recorded of a sandboxed run, and the network events in it.

use vstd::prelude::*;

use crate::clock::{iso8601, stamp_of};
use crate::hash::{hex_text, ContentHash};
use crate::text::{copy_strings, decimal, opt_text, opt_view, same_text, texts, write_decimal};

verus! {

/// A value in a record.
#[derive(Debug)]
pub enum Value {
    Nothing,
    Number(u64),
    Text(String),
}

/// The view of a value.
pub enum ValueView {
    Nothing,
    Number(u64),
    Text(Seq<char>),
}

impl View for Value {
    type V = ValueView;

    open spec fn view(&self) -> ValueView {
        match *self {
            Value::Nothing => ValueView::Nothing,
            Value::Number(n) => ValueView::Number(n),
            Value::Text(t) => ValueView::Text(t@),
        }
    }
}

/// A record: values under names, in order.
pub struct Record {
    pub fields: Vec<(&'static str, Value)>,
}

impl View for Record {
    type V = Seq<(Seq<char>, ValueView)>;

    open spec fn view(&self) -> Seq<(Seq<char>, ValueView)> {
        self.fields@.map_values(|f: (&'static str, Value)| (f.0@, f.1@))
    }
}

impl Record {
    /// A record without fields.
    fn new() -> (r: Record)
        ensures
            r@ == Seq::<(Seq<char>, ValueView)>::empty(),
    {
        let r = Record { fields: Vec::new() };
        assert(r@ =~= Seq::<(Seq<char>, ValueView)>::empty());
        r
    }

    /// The record with one field more.
    fn with(self, name: &'static str, value: Value) -> (r: Record)
        ensures
            r@ == self@.push((name@, value@)),
    {
        let ghost before = self@;
        let ghost entry = (name@, value@);
        let mut fields = self.fields;
        fields.push((name, value));
        let r = Record { fields };
        assert(r@ =~= before.push(entry));
        r
    }
}

/// The value for a text that may be missing.
pub open spec fn text_value(o: Option<Seq<char>>) -> ValueView {
    match o {
        Some(t) => ValueView::Text(t),
        None => ValueView::Nothing,
    }
}

/// The value for a small number that may be missing.
pub open spec fn number_value(o: Option<u16>) -> ValueView {
    match o {
        Some(n) => ValueView::Number(n as u64),
        None => ValueView::Nothing,
    }
}

/// Makes the value for a text that may be missing.
fn opt_text_value(o: &Option<String>) -> (r: Value)
    ensures
        r@ == text_value(opt_text(*o)),
{
    match o {
        Some(t) => Value::Text(t.clone()),
        None => Value::Nothing,
    }
}

/// Makes the value for a small number that may be missing.
fn opt_number_value(o: Option<u16>) -> (r: Value)
    ensures
        r@ == number_value(o),
{
    match o {
        Some(n) => Value::Number(n as u64),
        None => Value::Nothing,
    }
}

/// How the proxy handled a request.
#[derive(Clone, Copy, Debug, PartialEq, Eq, Structural)]
pub enum NetworkAuditMode {
    Connect,
    Reverse,
    External,
}

/// What was decided on a request.
#[derive(Clone, Copy, Debug, PartialEq, Eq, Structural)]
pub enum NetworkAuditDecision {
    Allow,
    Deny,
}

/// The text for a mode.
pub open spec fn mode_text(mode: NetworkAuditMode) -> Seq<char> {
    match mode {
        NetworkAuditMode::Connect => "connect"@,
        NetworkAuditMode::Reverse => "reverse"@,
        NetworkAuditMode::External => "external"@,
    }
}

/// The text for a decision.
pub open spec fn decision_text(decision: NetworkAuditDecision) -> Seq<char> {
    match decision {
        NetworkAuditDecision::Allow => "allow"@,
        NetworkAuditDecision::Deny => "deny"@,
    }
}

impl NetworkAuditMode {
    /// The text for the mode.
    pub fn text(self) -> (r: &'static str)
        ensures
            r@ == mode_text(self),
    {
        match self {
            NetworkAuditMode::Connect => "connect",
            NetworkAuditMode::Reverse => "reverse",
            NetworkAuditMode::External => "external",
        }
    }

    /// The mode that `t` names.
    pub fn named(t: &str) -> (r: Option<NetworkAuditMode>)
        ensures
            match r {
                Some(mode) => t@ == mode_text(mode),
                None => forall|mode: NetworkAuditMode| t@ != #[trigger] mode_text(mode),
            },
    {
        if same_text(t, "connect") {
            Some(NetworkAuditMode::Connect)
        } else if same_text(t, "reverse") {
            Some(NetworkAuditMode::Reverse)
        } else if same_text(t, "external") {
            Some(NetworkAuditMode::External)
        } else {
            None
        }
    }
}

impl NetworkAuditDecision {
    /// The text for the decision.
    pub fn text(self) -> (r: &'static str)
        ensures
            r@ == decision_text(self),
    {
        match self {
            NetworkAuditDecision::Allow => "allow",
            NetworkAuditDecision::Deny => "deny",
        }
    }

    /// The decision that `t` names.
    pub fn named(t: &str) -> (r: Option<NetworkAuditDecision>)
        ensures
            match r {
                Some(decision) => t@ == decision_text(decision),
                None => forall|decision: NetworkAuditDecision|
                    t@ != #[trigger] decision_text(decision),
            },
    {
        if same_text(t, "allow") {
            Some(NetworkAuditDecision::Allow)
        } else if same_text(t, "deny") {
            Some(NetworkAuditDecision::Deny)
        } else {
            None
        }
    }
}

/// Each mode has a text of its own.
pub proof fn lemma_mode_text_is_injective(a: NetworkAuditMode, b: NetworkAuditMode)
    requires
        mode_text(a) == mode_text(b),
    ensures
        a == b,
{
    reveal_strlit("connect");
    reveal_strlit("reverse");
    reveal_strlit("external");
    assert("connect"@[0] == 'c');
    assert("reverse"@[0] == 'r');
    assert("external"@[0] == 'e');
}

/// Each decision has a text of its own.
pub proof fn lemma_decision_text_is_injective(a: NetworkAuditDecision, b: NetworkAuditDecision)
    requires
        decision_text(a) == decision_text(b),
    ensures
        a == b,
{
    reveal_strlit("allow");
    reveal_strlit("deny");
    assert("allow"@[0] == 'a');
    assert("deny"@[0] == 'd');
}

/// A request that went through the proxy.
#[derive(Debug)]
pub struct NetworkAuditEvent {
    pub timestamp_unix_ms: u64,
    pub mode: NetworkAuditMode,
    pub decision: NetworkAuditDecision,
    pub target: String,
    pub port: Option<u16>,
    pub method: Option<String>,
    pub path: Option<String>,
    pub status: Option<u16>,
    pub reason: Option<String>,
}

/// The view of a request.
pub struct EventView {
    pub timestamp_unix_ms: u64,
    pub mode: NetworkAuditMode,
    pub decision: NetworkAuditDecision,
    pub target: Seq<char>,
    pub port: Option<u16>,
    pub method: Option<Seq<char>>,
    pub path: Option<Seq<char>>,
    pub status: Option<u16>,
    pub reason: Option<Seq<char>>,
}

impl View for NetworkAuditEvent {
    type V = EventView;

    open spec fn view(&self) -> EventView {
        EventView {
            timestamp_unix_ms: self.timestamp_unix_ms,
            mode: self.mode,
            decision: self.decision,
            target: self.target@,
            port: self.port,
            method: opt_text(self.method),
            path: opt_text(self.path),
            status: self.status,
            reason: opt_text(self.reason),
        }
    }
}

/// The views of a list of requests.
pub open spec fn event_views(v: Seq<NetworkAuditEvent>) -> Seq<EventView> {
    v.map_values(|e: NetworkAuditEvent| e@)
}

/// The record of a request.
pub open spec fn event_record(e: EventView) -> Seq<(Seq<char>, ValueView)> {
    seq![
        ("timestamp_unix_ms"@, ValueView::Number(e.timestamp_unix_ms)),
        ("mode"@, ValueView::Text(mode_text(e.mode))),
        ("decision"@, ValueView::Text(decision_text(e.decision))),
        ("target"@, ValueView::Text(e.target)),
        ("port"@, number_value(e.port)),
        ("method"@, text_value(e.method)),
        ("path"@, text_value(e.path)),
        ("status"@, number_value(e.status)),
        ("reason"@, text_value(e.reason)),
    ]
}

impl NetworkAuditEvent {
    /// The record of the request.
    pub fn record(&self) -> (r: Record)
        ensures
            r@ == event_record(self@),
    {
        let r = Record::new().with(
            "timestamp_unix_ms",
            Value::Number(self.timestamp_unix_ms),
        ).with("mode", Value::Text(String::from_str(self.mode.text()))).with(
            "decision",
            Value::Text(String::from_str(self.decision.text())),
        ).with("target", Value::Text(self.target.clone())).with(
            "port",
            opt_number_value(self.port),
        ).with("method", opt_text_value(&self.method)).with(
            "path",
            opt_text_value(&self.path),
        ).with("status", opt_number_value(self.status)).with(
            "reason",
            opt_text_value(&self.reason),
        );
        assert(r@ =~= event_record(self@));
        r
    }
}

/// What was found under a name in a record that came from outside.
#[derive(Debug)]
pub enum Field<T> {
    /// There is nothing under the name.
    Missing,
    /// What is there is of another type.
    Wrong,
    /// What is there.
    Found(T),
}

/// A request as it came from outside.
#[derive(Debug)]
pub struct RawEvent {
    pub timestamp_unix_ms: Field<u64>,
    pub mode: Field<String>,
    pub decision: Field<String>,
    pub target: Field<String>,
    pub port: Field<u16>,
    pub method: Field<String>,
    pub path: Field<String>,
    pub status: Field<u16>,
    pub reason: Field<String>,
}

/// One of the things that came from outside as requests.
#[derive(Debug)]
pub enum RawEntry {
    /// It is no record.
    NoRecord,
    /// A record.
    Event(RawEvent),
}

/// The view of a field that holds a text.
pub open spec fn text_field(f: Field<String>) -> Field<Seq<char>> {
    match f {
        Field::Missing => Field::Missing,
        Field::Wrong => Field::Wrong,
        Field::Found(t) => Field::Found(t@),
    }
}

/// The view of a request as it came from outside.
pub struct RawEventView {
    pub timestamp_unix_ms: Field<u64>,
    pub mode: Field<Seq<char>>,
    pub decision: Field<Seq<char>>,
    pub target: Field<Seq<char>>,
    pub port: Field<u16>,
    pub method: Field<Seq<char>>,
    pub path: Field<Seq<char>>,
    pub status: Field<u16>,
    pub reason: Field<Seq<char>>,
}

impl View for RawEvent {
    type V = RawEventView;

    open spec fn view(&self) -> RawEventView {
        RawEventView {
            timestamp_unix_ms: self.timestamp_unix_ms,
            mode: text_field(self.mode),
            decision: text_field(self.decision),
            target: text_field(self.target),
            port: self.port,
            method: text_field(self.method),
            path: text_field(self.path),
            status: self.status,
            reason: text_field(self.reason),
        }
    }
}

/// The fields that a request must have.
#[derive(Clone, Copy, Debug, PartialEq, Eq, Structural)]
pub enum Needed {
    Timestamp,
    Mode,
    Decision,
    Target,
}

/// The name of a field that a request must have.
pub open spec fn needed_name(field: Needed) -> Seq<char> {
    match field {
        Needed::Timestamp => "timestamp_unix_ms"@,
        Needed::Mode => "mode"@,
        Needed::Decision => "decision"@,
        Needed::Target => "target"@,
    }
}

impl Needed {
    /// The name of the field.
    pub fn name(self) -> (r: &'static str)
        ensures
            r@ == needed_name(self),
    {
        match self {
            Needed::Timestamp => "timestamp_unix_ms",
            Needed::Mode => "mode",
            Needed::Decision => "decision",
            Needed::Target => "target",
        }
    }
}

/// What is wrong with a request that came from outside.
#[derive(Debug)]
pub enum Fault {
    /// It is no record.
    NoRecord,
    /// It lacks a field.
    Missing(Needed),
    /// A field is of another type.
    Wrong(Needed),
    /// There is no such mode.
    InvalidMode(String),
    /// There is no such decision.
    InvalidDecision(String),
}

/// The view of what is wrong with a request.
pub enum FaultView {
    NoRecord,
    Missing(Needed),
    Wrong(Needed),
    InvalidMode(Seq<char>),
    InvalidDecision(Seq<char>),
}

impl View for Fault {
    type V = FaultView;

    open spec fn view(&self) -> FaultView {
        match *self {
            Fault::NoRecord => FaultView::NoRecord,
            Fault::Missing(field) => FaultView::Missing(field),
            Fault::Wrong(field) => FaultView::Wrong(field),
            Fault::InvalidMode(t) => FaultView::InvalidMode(t@),
            Fault::InvalidDecision(t) => FaultView::InvalidDecision(t@),
        }
    }
}

impl FaultView {
    /// What is said of the fault, where whoever read the record has not said it.
    pub open spec fn message(self) -> Option<Seq<char>> {
        match self {
            FaultView::NoRecord => None,
            FaultView::Missing(field) => Some("missing "@ + needed_name(field)),
            FaultView::Wrong(_) => None,
            FaultView::InvalidMode(t) => Some("invalid mode: "@ + t),
            FaultView::InvalidDecision(t) => Some("invalid decision: "@ + t),
        }
    }
}

impl Fault {
    /// What is said of the fault, where whoever read the record has not said it.
    pub fn message(&self) -> (r: Option<String>)
        ensures
            opt_text(r) == self@.message(),
    {
        match self {
            Fault::NoRecord => None,
            Fault::Missing(field) => Some(String::from_str("missing ").concat(field.name())),
            Fault::Wrong(_) => None,
            Fault::InvalidMode(t) => Some(String::from_str("invalid mode: ").concat(t.as_str())),
            Fault::InvalidDecision(t) => Some(
                String::from_str("invalid decision: ").concat(t.as_str()),
            ),
        }
    }
}

/// What a field that must be there holds.
pub open spec fn need<T>(field: Field<T>, name: Needed) -> Result<T, FaultView> {
    match field {
        Field::Missing => Err(FaultView::Missing(name)),
        Field::Wrong => Err(FaultView::Wrong(name)),
        Field::Found(v) => Ok(v),
    }
}

/// What a field that need not be there holds.
pub open spec fn optional<T>(field: Field<T>) -> Option<T> {
    match field {
        Field::Found(v) => Some(v),
        _ => None,
    }
}

/// The mode that a text names.
pub open spec fn mode_named(t: Seq<char>) -> Result<NetworkAuditMode, FaultView> {
    if t == "connect"@ {
        Ok(NetworkAuditMode::Connect)
    } else if t == "reverse"@ {
        Ok(NetworkAuditMode::Reverse)
    } else if t == "external"@ {
        Ok(NetworkAuditMode::External)
    } else {
        Err(FaultView::InvalidMode(t))
    }
}

/// The decision that a text names.
pub open spec fn decision_named(t: Seq<char>) -> Result<NetworkAuditDecision, FaultView> {
    if t == "allow"@ {
        Ok(NetworkAuditDecision::Allow)
    } else if t == "deny"@ {
        Ok(NetworkAuditDecision::Deny)
    } else {
        Err(FaultView::InvalidDecision(t))
    }
}

/// What is wrong with a request that came from outside, if anything: the first
/// fault in the timestamp, the mode, the decision and the target, in this order.
pub open spec fn fault_of(raw: RawEventView) -> Option<FaultView> {
    match need(raw.timestamp_unix_ms, Needed::Timestamp) {
        Err(f) => Some(f),
        Ok(_) => match need(raw.mode, Needed::Mode) {
            Err(f) => Some(f),
            Ok(mode) => match mode_named(mode) {
                Err(f) => Some(f),
                Ok(_) => match need(raw.decision, Needed::Decision) {
                    Err(f) => Some(f),
                    Ok(decision) => match decision_named(decision) {
                        Err(f) => Some(f),
                        Ok(_) => match need(raw.target, Needed::Target) {
                            Err(f) => Some(f),
                            Ok(_) => None,
                        },
                    },
                },
            },
        },
    }
}

/// The request that a record without fault stands for. A field that need not be
/// there and is of another type is passed over.
pub open spec fn event_of(raw: RawEventView) -> EventView {
    EventView {
        timestamp_unix_ms: need(raw.timestamp_unix_ms, Needed::Timestamp)->Ok_0,
        mode: mode_named(need(raw.mode, Needed::Mode)->Ok_0)->Ok_0,
        decision: decision_named(need(raw.decision, Needed::Decision)->Ok_0)->Ok_0,
        target: need(raw.target, Needed::Target)->Ok_0,
        port: optional(raw.port),
        method: optional(raw.method),
        path: optional(raw.path),
        status: optional(raw.status),
        reason: optional(raw.reason),
    }
}

/// What a field that must be there holds.
fn get_needed<T>(field: Field<T>, name: Needed) -> (r: Result<T, Fault>)
    ensures
        match field {
            Field::Missing => r matches Err(f) && f@ == FaultView::Missing(name),
            Field::Wrong => r matches Err(f) && f@ == FaultView::Wrong(name),
            Field::Found(v) => r == Ok::<T, Fault>(v),
        },
{
    match field {
        Field::Missing => Err(Fault::Missing(name)),
        Field::Wrong => Err(Fault::Wrong(name)),
        Field::Found(v) => Ok(v),
    }
}

/// What a field that need not be there holds.
fn get_optional<T>(field: Field<T>) -> (r: Option<T>)
    ensures
        r == optional(field),
{
    match field {
        Field::Found(v) => Some(v),
        _ => None,
    }
}

/// Reads a request that came from outside.
pub fn read_event(raw: RawEvent) -> (r: Result<NetworkAuditEvent, Fault>)
    ensures
        match r {
            Ok(event) => fault_of(raw@) is None && event@ == event_of(raw@),
            Err(fault) => fault_of(raw@) == Some(fault@),
        },
{
    let ghost given = raw@;
    let timestamp_unix_ms: u64 = get_needed(raw.timestamp_unix_ms, Needed::Timestamp)?;
    let mode_name = get_needed(raw.mode, Needed::Mode)?;
    let mode = match NetworkAuditMode::named(mode_name.as_str()) {
        Some(mode) => mode,
        None => {
            assert(mode_name@ != mode_text(NetworkAuditMode::Connect));
            assert(mode_name@ != mode_text(NetworkAuditMode::Reverse));
            assert(mode_name@ != mode_text(NetworkAuditMode::External));
            return Err(Fault::InvalidMode(mode_name));
        },
    };
    proof {
        if mode_named(mode_name@) is Ok {
            lemma_mode_text_is_injective(mode, mode_named(mode_name@)->Ok_0);
        }
    }
    let decision_name = get_needed(raw.decision, Needed::Decision)?;
    let decision = match NetworkAuditDecision::named(decision_name.as_str()) {
        Some(decision) => decision,
        None => {
            assert(decision_name@ != decision_text(NetworkAuditDecision::Allow));
            assert(decision_name@ != decision_text(NetworkAuditDecision::Deny));
            return Err(Fault::InvalidDecision(decision_name));
        },
    };
    proof {
        if decision_named(decision_name@) is Ok {
            lemma_decision_text_is_injective(decision, decision_named(decision_name@)->Ok_0);
        }
    }
    let target = get_needed(raw.target, Needed::Target)?;
    Ok(
        NetworkAuditEvent {
            timestamp_unix_ms,
            mode,
            decision,
            target,
            port: get_optional(raw.port),
            method: get_optional(raw.method),
            path: get_optional(raw.path),
            status: get_optional(raw.status),
            reason: get_optional(raw.reason),
        },
    )
}

/// What is wrong with a thing that came from outside as a request, if anything.
pub open spec fn entry_fault(entry: RawEntry) -> Option<FaultView> {
    match entry {
        RawEntry::NoRecord => Some(FaultView::NoRecord),
        RawEntry::Event(raw) => fault_of(raw@),
    }
}

/// The request that a thing without fault that came from outside stands for.
pub open spec fn entry_event(entry: RawEntry) -> EventView {
    event_of(entry->Event_0@)
}

/// A request that came from outside and is at fault, by its place.
#[derive(Debug)]
pub struct EventError {
    pub index: usize,
    pub fault: Fault,
}

/// Whether `index` is the first of the entries at fault, by `fault`.
pub open spec fn is_first_fault(entries: Seq<RawEntry>, index: int, fault: FaultView) -> bool {
    &&& 0 <= index < entries.len()
    &&& entry_fault(entries[index]) == Some(fault)
    &&& forall|j: int| 0 <= j < index ==> entry_fault(#[trigger] entries[j]) is None
}

/// Reads requests that came from outside; the first one at fault ends it.
pub fn read_events(entries: Vec<RawEntry>) -> (r: Result<Vec<NetworkAuditEvent>, EventError>)
    ensures
        match r {
            Ok(events) => {
                &&& forall|j: int|
                    0 <= j < entries@.len() ==> entry_fault(#[trigger] entries@[j]) is None
                &&& event_views(events@) == entries@.map_values(|entry: RawEntry| entry_event(entry))
            },
            Err(e) => is_first_fault(entries@, e.index as int, e.fault@),
        },
{
    let ghost all = entries@;
    let mut events: Vec<NetworkAuditEvent> = Vec::new();
    for entry in it: entries
        invariant
            it.seq() == all,
            all == entries@,
            events@.len() == it.index(),
            forall|j: int| 0 <= j < it.index() ==> entry_fault(#[trigger] all[j]) is None,
            forall|j: int| 0 <= j < it.index() ==> (#[trigger] events@[j])@ == entry_event(all[j]),
    {
        let index: usize = events.len();
        match entry {
            RawEntry::NoRecord => {
                return Err(EventError { index, fault: Fault::NoRecord });
            },
            RawEntry::Event(raw) => match read_event(raw) {
                Ok(event) => {
                    events.push(event);
                },
                Err(fault) => {
                    return Err(EventError { index, fault });
                },
            },
        }
    }
    assert(event_views(events@) =~= all.map_values(|entry: RawEntry| entry_event(entry)));
    Ok(events)
}

/// The executable that a session launched.
#[derive(Debug)]
pub struct ExecutableIdentity {
    pub resolved_path: String,
    pub sha256: ContentHash,
}

/// What vouches for the audit log of a session.
#[derive(Debug)]
pub struct AuditIntegritySummary {
    pub hash_algorithm: String,
    pub event_count: u64,
    pub chain_head: ContentHash,
    pub merkle_root: ContentHash,
}

/// The signature over the audit log of a session.
#[derive(Debug)]
pub struct AuditAttestationSummary {
    pub predicate_type: String,
    pub key_id: String,
    pub public_key: String,
    pub bundle_filename: String,
}

/// The view of an executable.
pub struct IdentityView {
    pub resolved_path: Seq<char>,
    pub sha256: Seq<u8>,
}

impl View for ExecutableIdentity {
    type V = IdentityView;

    open spec fn view(&self) -> IdentityView {
        IdentityView { resolved_path: self.resolved_path@, sha256: self.sha256@ }
    }
}

/// The view of what vouches for an audit log.
pub struct IntegrityView {
    pub hash_algorithm: Seq<char>,
    pub event_count: u64,
    pub chain_head: Seq<u8>,
    pub merkle_root: Seq<u8>,
}

impl View for AuditIntegritySummary {
    type V = IntegrityView;

    open spec fn view(&self) -> IntegrityView {
        IntegrityView {
            hash_algorithm: self.hash_algorithm@,
            event_count: self.event_count,
            chain_head: self.chain_head@,
            merkle_root: self.merkle_root@,
        }
    }
}

/// The view of the signature over an audit log.
pub struct AttestationView {
    pub predicate_type: Seq<char>,
    pub key_id: Seq<char>,
    pub public_key: Seq<char>,
    pub bundle_filename: Seq<char>,
}

impl View for AuditAttestationSummary {
    type V = AttestationView;

    open spec fn view(&self) -> AttestationView {
        AttestationView {
            predicate_type: self.predicate_type@,
            key_id: self.key_id@,
            public_key: self.public_key@,
            bundle_filename: self.bundle_filename@,
        }
    }
}

/// The record of an executable.
pub open spec fn identity_record(id: ExecutableIdentity) -> Seq<(Seq<char>, ValueView)> {
    seq![
        ("resolved_path"@, ValueView::Text(id.resolved_path@)),
        ("sha256"@, ValueView::Text(hex_text(id.sha256@))),
    ]
}

/// The record of what vouches for an audit log.
pub open spec fn integrity_record(s: AuditIntegritySummary) -> Seq<(Seq<char>, ValueView)> {
    seq![
        ("hash_algorithm"@, ValueView::Text(s.hash_algorithm@)),
        ("event_count"@, ValueView::Number(s.event_count)),
        ("chain_head"@, ValueView::Text(hex_text(s.chain_head@))),
        ("merkle_root"@, ValueView::Text(hex_text(s.merkle_root@))),
    ]
}

/// The record of the signature over an audit log.
pub open spec fn attestation_record(s: AuditAttestationSummary) -> Seq<(Seq<char>, ValueView)> {
    seq![
        ("predicate_type"@, ValueView::Text(s.predicate_type@)),
        ("key_id"@, ValueView::Text(s.key_id@)),
        ("public_key"@, ValueView::Text(s.public_key@)),
        ("bundle_filename"@, ValueView::Text(s.bundle_filename@)),
    ]
}

/// Why a session could not be turned into JSON or read from it.
#[derive(Debug)]
pub enum SessionError {
    /// It could not be written; holds the writer's message.
    Unwritable(String),
    /// It could not be read; holds the parser's message.
    Unreadable(String),
}

impl SessionError {
    /// What the error says.
    pub fn message(&self) -> (r: String)
        ensures
            r@ == match *self {
                SessionError::Unwritable(m) => "Failed to serialize: "@ + m@,
                SessionError::Unreadable(m) => "Invalid JSON: "@ + m@,
            },
    {
        match self {
            SessionError::Unwritable(m) => String::from_str("Failed to serialize: ").concat(
                m.as_str(),
            ),
            SessionError::Unreadable(m) => String::from_str("Invalid JSON: ").concat(m.as_str()),
        }
    }
}

/// What is recorded of a session.
#[derive(Debug)]
pub struct SessionMetadata {
    pub session_id: String,
    /// When it started.
    pub started: String,
    /// When it ended, if it has.
    pub ended: Option<String>,
    pub command: Vec<String>,
    pub executable_identity: Option<ExecutableIdentity>,
    pub tracked_paths: Vec<String>,
    pub snapshot_count: u32,
    pub exit_code: Option<i32>,
    /// The roots of the hash trees of its snapshots, in order.
    pub merkle_roots: Vec<ContentHash>,
    pub network_events: Vec<NetworkAuditEvent>,
    pub audit_event_count: u64,
    pub audit_integrity: Option<AuditIntegritySummary>,
    pub audit_attestation: Option<AuditAttestationSummary>,
}

/// The view of what is recorded of a session.
pub struct SessionView {
    pub session_id: Seq<char>,
    pub started: Seq<char>,
    pub ended: Option<Seq<char>>,
    pub command: Seq<Seq<char>>,
    pub executable_identity: Option<IdentityView>,
    pub tracked_paths: Seq<Seq<char>>,
    pub snapshot_count: u32,
    pub exit_code: Option<i32>,
    pub merkle_roots: Seq<Seq<u8>>,
    pub network_events: Seq<EventView>,
    pub audit_event_count: u64,
    pub audit_integrity: Option<IntegrityView>,
    pub audit_attestation: Option<AttestationView>,
}

impl View for SessionMetadata {
    type V = SessionView;

    open spec fn view(&self) -> SessionView {
        SessionView {
            session_id: self.session_id@,
            started: self.started@,
            ended: opt_text(self.ended),
            command: texts(self.command@),
            executable_identity: opt_view(self.executable_identity),
            tracked_paths: texts(self.tracked_paths@),
            snapshot_count: self.snapshot_count,
            exit_code: self.exit_code,
            merkle_roots: self.merkle_roots@.map_values(|h: ContentHash| h@),
            network_events: event_views(self.network_events@),
            audit_event_count: self.audit_event_count,
            audit_integrity: opt_view(self.audit_integrity),
            audit_attestation: opt_view(self.audit_attestation),
        }
    }
}

impl SessionMetadata {
    /// A session that starts `started_secs` seconds after the beginning of 1970.
    pub fn new(
        session_id: String,
        command: Vec<String>,
        tracked_paths: Vec<String>,
        started_secs: u64,
    ) -> (r: SessionMetadata)
        ensures
            r.session_id == session_id,
            r.started@ == stamp_of(started_secs as int).text(),
            r.ended is None,
            r.command == command,
            r.executable_identity is None,
            r.tracked_paths == tracked_paths,
            r.snapshot_count == 0,
            r.exit_code is None,
            r.merkle_roots@.len() == 0,
            r.network_events@.len() == 0,
            r.audit_event_count == 0,
            r.audit_integrity is None,
            r.audit_attestation is None,
    {
        SessionMetadata {
            session_id,
            started: iso8601(started_secs),
            ended: None,
            command,
            executable_identity: None,
            tracked_paths,
            snapshot_count: 0,
            exit_code: None,
            merkle_roots: Vec::new(),
            network_events: Vec::new(),
            audit_event_count: 0,
            audit_integrity: None,
            audit_attestation: None,
        }
    }

    /// The session's name.
    pub fn session_id(&self) -> (r: &str)
        ensures
            r@ == self.session_id@,
    {
        self.session_id.as_str()
    }

    /// When the session started.
    pub fn started(&self) -> (r: &str)
        ensures
            r@ == self.started@,
    {
        self.started.as_str()
    }

    /// When the session ended, if it has.
    pub fn ended(&self) -> (r: Option<&str>)
        ensures
            match self.ended {
                Some(t) => r matches Some(s) && s@ == t@,
                None => r is None,
            },
    {
        match &self.ended {
            Some(t) => Some(t.as_str()),
            None => None,
        }
    }

    /// Sets when the session ended.
    pub fn set_ended(&mut self, value: Option<String>)
        ensures
            *final(self) == (SessionMetadata { ended: value, ..*old(self) }),
    {
        self.ended = value;
    }

    /// The command that the session ran.
    pub fn command(&self) -> (r: Vec<String>)
        ensures
            texts(r@) == texts(self.command@),
    {
        copy_strings(self.command.as_slice())
    }

    /// The directories whose files are tracked.
    pub fn tracked_paths(&self) -> (r: Vec<String>)
        ensures
            texts(r@) == texts(self.tracked_paths@),
    {
        copy_strings(self.tracked_paths.as_slice())
    }

    /// How many snapshots were taken.
    pub fn snapshot_count(&self) -> (r: u32)
        ensures
            r == self.snapshot_count,
    {
        self.snapshot_count
    }

    /// Sets how many snapshots were taken.
    pub fn set_snapshot_count(&mut self, value: u32)
        ensures
            *final(self) == (SessionMetadata { snapshot_count: value, ..*old(self) }),
    {
        self.snapshot_count = value;
    }

    /// The exit code of the command, once it has one.
    pub fn exit_code(&self) -> (r: Option<i32>)
        ensures
            r == self.exit_code,
    {
        self.exit_code
    }

    /// Sets the exit code of the command.
    pub fn set_exit_code(&mut self, value: Option<i32>)
        ensures
            *final(self) == (SessionMetadata { exit_code: value, ..*old(self) }),
    {
        self.exit_code = value;
    }

    /// The roots of the hash trees of the snapshots, in order.
    pub fn merkle_roots(&self) -> (r: Vec<ContentHash>)
        ensures
            r@ == self.merkle_roots@,
    {
        let mut r: Vec<ContentHash> = Vec::new();
        for i in 0..self.merkle_roots.len()
            invariant
                r@ == self.merkle_roots@.take(i as int),
        {
            r.push(self.merkle_roots[i]);
            assert(self.merkle_roots@.take(i + 1) =~= self.merkle_roots@.take(i as int).push(
                self.merkle_roots@[i as int],
            ));
        }
        assert(self.merkle_roots@.take(self.merkle_roots@.len() as int) == self.merkle_roots@);
        r
    }

    /// Puts the root of another snapshot's hash tree behind the others.
    pub fn add_merkle_root(&mut self, root: &ContentHash)
        ensures
            final(self).merkle_roots@ == old(self).merkle_roots@.push(*root),
            *final(self) == (SessionMetadata {
                merkle_roots: final(self).merkle_roots,
                ..*old(self)
            }),
    {
        self.merkle_roots.push(*root);
    }

    /// The record of the executable that was launched, if it was taken down.
    pub fn executable_identity(&self) -> (r: Option<Record>)
        ensures
            match self.executable_identity {
                Some(id) => r matches Some(record) && record@ == identity_record(id),
                None => r is None,
            },
    {
        match &self.executable_identity {
            Some(id) => {
                let record = Record::new().with(
                    "resolved_path",
                    Value::Text(id.resolved_path.clone()),
                ).with("sha256", Value::Text(id.sha256.hex()));
                assert(record@ =~= identity_record(*id));
                Some(record)
            },
            None => None,
        }
    }

    /// How many events the audit log holds.
    pub fn audit_event_count(&self) -> (r: u64)
        ensures
            r == self.audit_event_count,
    {
        self.audit_event_count
    }

    /// The record of what vouches for the audit log, if anything does.
    pub fn audit_integrity(&self) -> (r: Option<Record>)
        ensures
            match self.audit_integrity {
                Some(s) => r matches Some(record) && record@ == integrity_record(s),
                None => r is None,
            },
    {
        match &self.audit_integrity {
            Some(s) => {
                let record = Record::new().with(
                    "hash_algorithm",
                    Value::Text(s.hash_algorithm.clone()),
                ).with("event_count", Value::Number(s.event_count)).with(
                    "chain_head",
                    Value::Text(s.chain_head.hex()),
                ).with("merkle_root", Value::Text(s.merkle_root.hex()));
                assert(record@ =~= integrity_record(*s));
                Some(record)
            },
            None => None,
        }
    }

    /// The record of the signature over the audit log, if it was signed.
    pub fn audit_attestation(&self) -> (r: Option<Record>)
        ensures
            match self.audit_attestation {
                Some(s) => r matches Some(record) && record@ == attestation_record(s),
                None => r is None,
            },
    {
        match &self.audit_attestation {
            Some(s) => {
                let record = Record::new().with(
                    "predicate_type",
                    Value::Text(s.predicate_type.clone()),
                ).with("key_id", Value::Text(s.key_id.clone())).with(
                    "public_key",
                    Value::Text(s.public_key.clone()),
                ).with("bundle_filename", Value::Text(s.bundle_filename.clone()));
                assert(record@ =~= attestation_record(*s));
                Some(record)
            },
            None => None,
        }
    }

    /// The records of the requests that went through the proxy, in order.
    pub fn network_events(&self) -> (r: Vec<Record>)
        ensures
            r@.map_values(|record: Record| record@) == event_views(
                self.network_events@,
            ).map_values(|e: EventView| event_record(e)),
    {
        let mut r: Vec<Record> = Vec::new();
        for i in 0..self.network_events.len()
            invariant
                r@.len() == i,
                forall|j: int|
                    0 <= j < i ==> (#[trigger] r@[j])@ == event_record(self.network_events@[j]@),
        {
            r.push(self.network_events[i].record());
        }
        assert(r@.map_values(|record: Record| record@) =~= event_views(
            self.network_events@,
        ).map_values(|e: EventView| event_record(e)));
        r
    }

    /// Sets the requests that went through the proxy to `entries`; where one of
    /// them is at fault, nothing is set.
    pub fn set_network_events(&mut self, entries: Vec<RawEntry>) -> (r: Result<(), EventError>)
        ensures
            match r {
                Ok(_) => {
                    &&& forall|j: int|
                        0 <= j < entries@.len() ==> entry_fault(#[trigger] entries@[j]) is None
                    &&& event_views(final(self).network_events@) == entries@.map_values(
                        |entry: RawEntry| entry_event(entry),
                    )
                    &&& *final(self) == (SessionMetadata {
                        network_events: final(self).network_events,
                        ..*old(self)
                    })
                },
                Err(e) => {
                    &&& is_first_fault(entries@, e.index as int, e.fault@)
                    &&& *final(self) == *old(self)
                },
            },
    {
        let events = read_events(entries)?;
        self.network_events = events;
        Ok(())
    }

    /// The JSON that came of writing a session, or the writer's message as an
    /// error.
    pub fn written_json(written: Result<String, String>) -> (r: Result<String, SessionError>)
        ensures
            match written {
                Ok(json) => r == Ok::<String, SessionError>(json),
                Err(message) => r == Err::<String, SessionError>(SessionError::Unwritable(message)),
            },
    {
        match written {
            Ok(json) => Ok(json),
            Err(message) => Err(SessionError::Unwritable(message)),
        }
    }

    /// The session that came of parsing JSON, or the parser's message as an
    /// error.
    pub fn parsed_session(parsed: Result<SessionMetadata, String>) -> (r: Result<
        SessionMetadata,
        SessionError,
    >)
        ensures
            match parsed {
                Ok(session) => r == Ok::<SessionMetadata, SessionError>(session),
                Err(message) => r == Err::<SessionMetadata, SessionError>(
                    SessionError::Unreadable(message),
                ),
            },
    {
        match parsed {
            Ok(session) => Ok(session),
            Err(message) => Err(SessionError::Unreadable(message)),
        }
    }

    /// A short text for the session.
    pub fn __repr__(&self) -> (r: String)
        ensures
            r@ == "SessionMetadata(id='"@ + self.session_id@ + "', snapshots="@ + decimal(
                self.snapshot_count as nat,
            ) + ")"@,
    {
        String::from_str("SessionMetadata(id='").concat(self.session_id.as_str()).concat(
            "', snapshots=",
        ).concat(write_decimal(self.snapshot_count as u64).as_str()).concat(")")
    }
}

/// The value that a record has under `name`, if it has one.
pub open spec fn value_under(record: Seq<(Seq<char>, ValueView)>, name: Seq<char>) -> Option<
    ValueView,
> {
    if exists|i: int| 0 <= i < record.len() && (#[trigger] record[i]).0 == name {
        let i = choose|i: int| 0 <= i < record.len() && (#[trigger] record[i]).0 == name;
        Some(record[i].1)
    } else {
        None
    }
}

/// The field that a record has under `name`, read as a number.
pub open spec fn number_under(record: Seq<(Seq<char>, ValueView)>, name: Seq<char>) -> Field<u64> {
    match value_under(record, name) {
        None => Field::Missing,
        Some(ValueView::Number(n)) => Field::Found(n),
        Some(_) => Field::Wrong,
    }
}

/// The field that a record has under `name`, read as a small number.
pub open spec fn small_under(record: Seq<(Seq<char>, ValueView)>, name: Seq<char>) -> Field<u16> {
    match number_under(record, name) {
        Field::Missing => Field::Missing,
        Field::Wrong => Field::Wrong,
        Field::Found(n) => if n <= u16::MAX {
            Field::Found(n as u16)
        } else {
            Field::Wrong
        },
    }
}

/// The field that a record has under `name`, read as a text.
pub open spec fn text_under(record: Seq<(Seq<char>, ValueView)>, name: Seq<char>) -> Field<
    Seq<char>,
> {
    match value_under(record, name) {
        None => Field::Missing,
        Some(ValueView::Text(t)) => Field::Found(t),
        Some(_) => Field::Wrong,
    }
}

/// What is read from a record as a request.
pub open spec fn raw_of(record: Seq<(Seq<char>, ValueView)>) -> RawEventView {
    RawEventView {
        timestamp_unix_ms: number_under(record, "timestamp_unix_ms"@),
        mode: text_under(record, "mode"@),
        decision: text_under(record, "decision"@),
        target: text_under(record, "target"@),
        port: small_under(record, "port"@),
        method: text_under(record, "method"@),
        path: text_under(record, "path"@),
        status: small_under(record, "status"@),
        reason: text_under(record, "reason"@),
    }
}

proof fn lemma_record_names(e: EventView, i: int)
    requires
        0 <= i < 9,
    ensures
        value_under(event_record(e), event_record(e)[i].0) == Some(event_record(e)[i].1),
{
    reveal_strlit("timestamp_unix_ms");
    reveal_strlit("mode");
    reveal_strlit("decision");
    reveal_strlit("target");
    reveal_strlit("port");
    reveal_strlit("method");
    reveal_strlit("path");
    reveal_strlit("status");
    reveal_strlit("reason");
    let record = event_record(e);
    assert(record[0].0.len() == 17);
    assert(record[1].0.len() == 4 && record[1].0[0] == 'm');
    assert(record[2].0.len() == 8);
    assert(record[3].0.len() == 6 && record[3].0[0] == 't');
    assert(record[4].0.len() == 4 && record[4].0[0] == 'p' && record[4].0[1] == 'o');
    assert(record[5].0.len() == 6 && record[5].0[0] == 'm');
    assert(record[6].0.len() == 4 && record[6].0[0] == 'p' && record[6].0[1] == 'a');
    assert(record[7].0.len() == 6 && record[7].0[0] == 's');
    assert(record[8].0.len() == 6 && record[8].0[0] == 'r');
    let name = record[i].0;
    let k = choose|k: int| 0 <= k < record.len() && (#[trigger] record[k]).0 == name;
    assert(k == i);
}

/// Reading the record of a request gives the request back.
pub proof fn lemma_event_reads_back(e: EventView)
    ensures
        fault_of(raw_of(event_record(e))) is None,
        event_of(raw_of(event_record(e))) == e,
{
    let record = event_record(e);
    assert forall|i: int| 0 <= i < 9 implies value_under(record, (#[trigger] record[i]).0) == Some(
        record[i].1,
    ) by {
        lemma_record_names(e, i);
    }
    let raw = raw_of(record);
    assert(record[0].0 == "timestamp_unix_ms"@);
    assert(record[1].0 == "mode"@);
    assert(record[2].0 == "decision"@);
    assert(record[3].0 == "target"@);
    assert(record[4].0 == "port"@);
    assert(record[5].0 == "method"@);
    assert(record[6].0 == "path"@);
    assert(record[7].0 == "status"@);
    assert(record[8].0 == "reason"@);
    if mode_named(mode_text(e.mode)) is Ok {
        lemma_mode_text_is_injective(e.mode, mode_named(mode_text(e.mode))->Ok_0);
    }
    if decision_named(decision_text(e.decision)) is Ok {
        lemma_decision_text_is_injective(
            e.decision,
            decision_named(decision_text(e.decision))->Ok_0,
        );
    }
}

/// Reading the records of requests gives the requests back, in order.
pub proof fn lemma_events_read_back(events: Seq<EventView>, entries: Seq<RawEntry>)
    requires
        entries.len() == events.len(),
        forall|i: int|
            0 <= i < events.len() ==> (#[trigger] entries[i] matches RawEntry::Event(raw) && raw@
                == raw_of(event_record(events[i]))),
    ensures
        forall|i: int| 0 <= i < entries.len() ==> entry_fault(#[trigger] entries[i]) is None,
        entries.map_values(|entry: RawEntry| entry_event(entry)) == events,
{
    assert forall|i: int| 0 <= i < entries.len() implies entry_fault(#[trigger] entries[i]) is None
        && entry_event(entries[i]) == events[i] by {
        lemma_event_reads_back(events[i]);
    }
    assert(entries.map_values(|entry: RawEntry| entry_event(entry)) =~= events);
}

} // verus!
