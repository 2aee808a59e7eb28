//! Capabilities: what a sandboxed process may reach.
//!
//! The set itself is `nono::CapabilitySet`. This module names what such a set
//! holds and states what each of its operations does to that.

use std::path::PathBuf;
use vstd::prelude::*;

use crate::bytes::path_bytes;

verus! {

/// How a path may be used.
#[derive(Clone, Copy, Debug, PartialEq, Eq, Structural)]
pub enum AccessMode {
    /// Reading only.
    Read,
    /// Writing only.
    Write,
    /// Reading and writing.
    ReadWrite,
}

/// Where a capability came from.
#[derive(Debug)]
pub enum CapabilitySource {
    /// The user asked for it.
    User,
    /// A profile asked for it.
    Profile,
    /// A policy group brought it.
    Group(String),
    /// The system needs it.
    System,
}

/// The view of a capability's source.
pub enum CapabilitySourceView {
    User,
    Profile,
    Group(Seq<char>),
    System,
}

impl View for CapabilitySource {
    type V = CapabilitySourceView;

    open spec fn view(&self) -> CapabilitySourceView {
        match *self {
            CapabilitySource::User => CapabilitySourceView::User,
            CapabilitySource::Profile => CapabilitySourceView::Profile,
            CapabilitySource::Group(name) => CapabilitySourceView::Group(name@),
            CapabilitySource::System => CapabilitySourceView::System,
        }
    }
}

impl CapabilitySourceView {
    /// Whether the source is an explicit wish of the user.
    pub open spec fn is_user_intent(self) -> bool {
        self is User || self is Profile
    }

    /// The label under which the source is shown.
    pub open spec fn label(self) -> Seq<char> {
        match self {
            CapabilitySourceView::User => "user"@,
            CapabilitySourceView::Profile => "profile"@,
            CapabilitySourceView::Group(name) => "group:"@ + name,
            CapabilitySourceView::System => "system"@,
        }
    }
}

impl CapabilitySource {
    /// Whether the source is an explicit wish of the user.
    pub fn is_user_intent(&self) -> (r: bool)
        ensures
            r == self@.is_user_intent(),
    {
        match self {
            CapabilitySource::User => true,
            CapabilitySource::Profile => true,
            CapabilitySource::Group(_) => false,
            CapabilitySource::System => false,
        }
    }

    /// The label under which the source is shown.
    pub fn label(&self) -> (r: String)
        ensures
            r@ == self@.label(),
    {
        match self {
            CapabilitySource::User => String::from_str("user"),
            CapabilitySource::Profile => String::from_str("profile"),
            CapabilitySource::Group(name) => String::from_str("group:").concat(name.as_str()),
            CapabilitySource::System => String::from_str("system"),
        }
    }
}

/// A capability on the filesystem.
#[derive(Debug)]
pub struct FsCapability {
    /// The path as it was asked for.
    pub original: PathBuf,
    /// The canonical path.
    pub resolved: PathBuf,
    /// How the path may be used.
    pub access: AccessMode,
    /// Whether it is one file; otherwise it is a directory with all below it.
    pub is_file: bool,
    /// Where the capability came from.
    pub source: CapabilitySource,
}

/// The view of a capability on the filesystem.
pub struct FsCapabilityView {
    pub original: Seq<u8>,
    pub resolved: Seq<u8>,
    pub access: AccessMode,
    pub is_file: bool,
    pub source: CapabilitySourceView,
}

impl View for FsCapability {
    type V = FsCapabilityView;

    open spec fn view(&self) -> FsCapabilityView {
        FsCapabilityView {
            original: path_bytes(self.original),
            resolved: path_bytes(self.resolved),
            access: self.access,
            is_file: self.is_file,
            source: self.source@,
        }
    }
}

/// The views of a list of capabilities.
pub open spec fn fs_views(v: Seq<FsCapability>) -> Seq<FsCapabilityView> {
    v.map_values(|c: FsCapability| c@)
}

/// The outside capability set.
#[verifier::external_type_specification]
#[verifier::external_body]
pub struct ExNonoCapabilitySet(nono::CapabilitySet);

/// The filesystem capabilities that a set holds, in the order in which they
/// were added.
pub uninterp spec fn fs_of(caps: nono::CapabilitySet) -> Seq<FsCapabilityView>;

/// The platform rules that a set holds, in the order in which they were added.
pub uninterp spec fn rules_of(caps: nono::CapabilitySet) -> Seq<Seq<char>>;

/// How a set lets the network be used.
pub enum NetworkView {
    /// Freely.
    AllowAll,
    /// Not at all.
    Blocked,
    /// Through the proxy that listens on a port, and on some ports by listening.
    ProxyOnly { port: u16, bind_ports: Seq<u16> },
}

/// How a set lets the network be used.
pub uninterp spec fn network_of(caps: nono::CapabilitySet) -> NetworkView;

/// All else that a set holds and a new one does not, written out as a text:
/// sockets, ports, commands, flags, and the modes for signals, processes and what
/// passes between processes.
pub uninterp spec fn rest_of(caps: nono::CapabilitySet) -> Seq<char>;

/// Why a set refuses a platform rule; `None` for a rule that it takes.
pub uninterp spec fn rule_refusal(rule: Seq<char>) -> Option<Seq<char>>;

/// Calls `nono::CapabilitySet::new`, which makes a set that holds nothing and leaves
/// the network open.
#[verifier::external_body]
fn new_set() -> (caps: nono::CapabilitySet)
    ensures
        fs_of(caps) == Seq::<FsCapabilityView>::empty(),
        rules_of(caps) == Seq::<Seq<char>>::empty(),
        network_of(caps) == NetworkView::AllowAll,
        rest_of(caps) == Seq::<char>::empty(),
{
    nono::CapabilitySet::new()
}

/// Calls `nono::CapabilitySet::add_fs`, which puts a capability behind those
/// that the set holds and leaves the rest of the set as it is.
#[verifier::external_body]
fn push_fs(caps: &mut nono::CapabilitySet, cap: FsCapability)
    ensures
        rest_of(*final(caps)) == rest_of(*old(caps)),
        fs_of(*final(caps)) == fs_of(*old(caps)).push(cap@),
        rules_of(*final(caps)) == rules_of(*old(caps)),
        network_of(*final(caps)) == network_of(*old(caps)),
{
    let access = match cap.access {
        AccessMode::Read => nono::AccessMode::Read,
        AccessMode::Write => nono::AccessMode::Write,
        AccessMode::ReadWrite => nono::AccessMode::ReadWrite,
    };
    let source = match cap.source {
        CapabilitySource::User => nono::CapabilitySource::User,
        CapabilitySource::Profile => nono::CapabilitySource::Profile,
        CapabilitySource::Group(name) => nono::CapabilitySource::Group(name),
        CapabilitySource::System => nono::CapabilitySource::System,
    };
    let (original, resolved) = (cap.original, cap.resolved);
    caps.add_fs(nono::FsCapability { original, resolved, access, is_file: cap.is_file, source });
}

/// Calls `nono::CapabilitySet::add_platform_rule`. Whether the set takes a rule
/// depends on the rule alone: a rule that it takes goes behind those that it
/// holds, and for one that it refuses it gives a message and stays as it is; the
/// rest of the set stays as it is either way.
/// Which rules those are is the set's own affair and not said here.
#[verifier::external_body]
fn push_rule(caps: &mut nono::CapabilitySet, rule: &str) -> (r: Result<(), String>)
    ensures
        match r {
            Ok(_) => rule_refusal(rule@) is None && rules_of(*final(caps)) == rules_of(
                *old(caps),
            ).push(rule@),
            Err(message) => rule_refusal(rule@) == Some(message@) && *final(caps) == *old(caps),
        },
        fs_of(*final(caps)) == fs_of(*old(caps)),
        network_of(*final(caps)) == network_of(*old(caps)),
        rest_of(*final(caps)) == rest_of(*old(caps)),
{
    caps.add_platform_rule(rule).map_err(|e| match e {
        nono::NonoError::SandboxInit(message) => message,
        other => other.to_string(),
    })
}

/// How the network may be used where it is blocked as a whole, or not.
pub open spec fn network_if(blocked: bool) -> NetworkView {
    if blocked {
        NetworkView::Blocked
    } else {
        NetworkView::AllowAll
    }
}

/// Calls `nono::CapabilitySet::set_network_blocked`, which opens the network or
/// blocks it as a whole and leaves the rest of the set as it is. A set whose network
/// is as it is to be stays the same.
#[verifier::external_body]
fn put_network_blocked(caps: &mut nono::CapabilitySet, blocked: bool)
    ensures
        network_of(*final(caps)) == network_if(blocked),
        network_of(*old(caps)) == network_if(blocked) ==> *final(caps) == *old(caps),
        fs_of(*final(caps)) == fs_of(*old(caps)),
        rules_of(*final(caps)) == rules_of(*old(caps)),
        rest_of(*final(caps)) == rest_of(*old(caps)),
{
    caps.set_network_blocked(blocked);
}

/// Calls `nono::CapabilitySet::fs_capabilities`, which lists the filesystem
/// capabilities in the order in which they were added.
#[verifier::external_body]
fn list_fs(caps: &nono::CapabilitySet) -> (r: Vec<FsCapability>)
    ensures
        fs_views(r@) == fs_of(*caps),
{
    let convert = |c: &nono::FsCapability| FsCapability {
        original: c.original.clone(),
        resolved: c.resolved.clone(),
        access: match c.access {
            nono::AccessMode::Read => AccessMode::Read,
            nono::AccessMode::Write => AccessMode::Write,
            nono::AccessMode::ReadWrite => AccessMode::ReadWrite, },
        is_file: c.is_file,
        source: match &c.source {
            nono::CapabilitySource::User => CapabilitySource::User,
            nono::CapabilitySource::Profile => CapabilitySource::Profile,
            nono::CapabilitySource::Group(name) => CapabilitySource::Group(name.clone()),
            nono::CapabilitySource::System => CapabilitySource::System, } };
    caps.fs_capabilities().iter().map(convert).collect()
}

/// A capability set, as policies fill and check it.
pub struct Capabilities {
    /// The set that a sandbox takes.
    pub inner: nono::CapabilitySet,
}

/// What a capability set holds.
#[verifier::ext_equal]
pub struct CapabilitiesView {
    pub fs: Seq<FsCapabilityView>,
    pub rules: Seq<Seq<char>>,
    pub network: NetworkView,
    /// All else. No policy touches it.
    pub rest: Seq<char>,
}

impl View for Capabilities {
    type V = CapabilitiesView;

    open spec fn view(&self) -> CapabilitiesView {
        CapabilitiesView {
            fs: fs_of(self.inner),
            rules: rules_of(self.inner),
            network: network_of(self.inner),
            rest: rest_of(self.inner),
        }
    }
}

impl CapabilitiesView {
    /// The set that holds nothing and leaves the network open.
    pub open spec fn empty() -> CapabilitiesView {
        CapabilitiesView {
            fs: Seq::empty(),
            rules: Seq::empty(),
            network: NetworkView::AllowAll,
            rest: Seq::empty(),
        }
    }
}

/// Whether `b` holds all that `a` holds, and in front of anything else; the network
/// is as in `a` or blocked, and what no policy touches is the same.
pub open spec fn extends(b: CapabilitiesView, a: CapabilitiesView) -> bool {
    &&& a.fs.is_prefix_of(b.fs)
    &&& a.rules.is_prefix_of(b.rules)
    &&& b.network == a.network || b.network is Blocked
    &&& b.rest == a.rest
}

/// Whether a set that was `a` has grown to `b`: nothing that it held is gone, and
/// where it holds nothing new it is the same set.
pub open spec fn grown(a: Capabilities, b: Capabilities) -> bool {
    &&& extends(b@, a@)
    &&& b@ == a@ ==> b == a
}

/// A set grows step by step.
pub proof fn lemma_grown_on(a: Capabilities, b: Capabilities, c: Capabilities)
    requires
        grown(a, b),
        grown(b, c),
    ensures
        grown(a, c),
{
    assert(c@.fs.take(a@.fs.len() as int) =~= c@.fs.take(b@.fs.len() as int).take(
        a@.fs.len() as int,
    ));
    assert(c@.rules.take(a@.rules.len() as int) =~= c@.rules.take(b@.rules.len() as int).take(
        a@.rules.len() as int,
    ));
    if c@ == a@ {
        assert(b@.fs =~= a@.fs);
        assert(b@.rules =~= a@.rules);
        assert(b@ == a@);
    }
}

/// A set that stays as it is counts as grown.
pub proof fn lemma_grown_same(a: Capabilities)
    ensures
        grown(a, a),
{
    assert(a@.fs.take(a@.fs.len() as int) == a@.fs);
    assert(a@.rules.take(a@.rules.len() as int) == a@.rules);
}

impl Capabilities {
    /// The set that holds nothing and leaves the network open.
    pub fn new() -> (r: Capabilities)
        ensures
            r@ == CapabilitiesView::empty(),
    {
        Capabilities { inner: new_set() }
    }

    /// Adds a filesystem capability.
    pub fn add_fs(&mut self, cap: FsCapability)
        ensures
            grown(*old(self), *final(self)),
            final(self)@ == (CapabilitiesView { fs: old(self)@.fs.push(cap@), ..old(self)@ }),
    {
        push_fs(&mut self.inner, cap);
        assert(self@.fs.len() == old(self)@.fs.len() + 1);
    }

    /// Adds a platform rule, unless the set refuses it.
    pub fn add_platform_rule(&mut self, rule: &str) -> (r: Result<(), String>)
        ensures
            grown(*old(self), *final(self)),
            match r {
                Ok(_) => rule_refusal(rule@) is None && final(self)@ == (CapabilitiesView {
                    rules: old(self)@.rules.push(rule@),
                    ..old(self)@
                }),
                Err(message) => rule_refusal(rule@) == Some(message@) && *final(self) == *old(self),
            },
    {
        proof {
            lemma_grown_same(*self);
        }
        let r = push_rule(&mut self.inner, rule);
        assert(r is Ok ==> self@.rules.len() == old(self)@.rules.len() + 1);
        r
    }

    /// Blocks the network as a whole, or opens it.
    pub fn set_network_blocked(&mut self, blocked: bool)
        ensures
            blocked ==> grown(*old(self), *final(self)),
            final(self)@ == old(self)@ ==> *final(self) == *old(self),
            final(self)@ == (CapabilitiesView { network: network_if(blocked), ..old(self)@ }),
    {
        proof {
            lemma_grown_same(*self);
        }
        put_network_blocked(&mut self.inner, blocked);
    }

    /// The filesystem capabilities, in the order in which they were added.
    pub fn fs_capabilities(&self) -> (r: Vec<FsCapability>)
        ensures
            fs_views(r@) == self@.fs,
    {
        list_fs(&self.inner)
    }
}

} // verus!
