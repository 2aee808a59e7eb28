//! Why a policy cannot be resolved or applied.

use vstd::prelude::*;

use crate::bytes::{show, shown};
use crate::text::{join, joined, texts};

verus! {

/// The kinds of policy errors.
#[derive(Clone, Copy, Debug, PartialEq, Eq, Structural)]
pub enum ErrorKind {
    /// The policy, or the environment that it is read in, is at fault.
    ConfigParse,
    /// A sandbox cannot be set up.
    SandboxInit,
    /// A path could not be made canonical.
    PathCanonicalization,
    /// The filesystem has to be asked about a path first.
    Probe,
}

/// Why a policy cannot be resolved or applied.
#[derive(Debug)]
pub enum PolicyError {
    /// The text of a policy could not be parsed; holds the parser's message.
    Unparsable(String),
    /// A group that the policy does not have.
    UnknownGroup(String),
    /// Groups that must not be left out.
    RequiredGroups(Vec<String>),
    /// A group asks for credentials by name.
    NamedCredentials,
    /// Two groups name different upstream proxies.
    UpstreamConflict {
        first_group: String,
        first_proxy: String,
        group: String,
        proxy: String,
    },
    /// An environment variable that is not there.
    VariableNotSet(String),
    /// An environment variable that is no absolute path.
    VariableNotAbsolute { name: String, value: String },
    /// A path with a control character; holds the path as it is quoted.
    ControlCharacter(String),
    /// A path that cannot stand in a rule because it is not UTF-8.
    NotUtf8(Vec<u8>),
    /// A path of which no directory above exists.
    NoParent(Vec<u8>),
    /// The nearest existing directory above a path could not be made canonical.
    ParentNotCanonical { path: Vec<u8>, reason: String },
    /// A path could not be made canonical.
    NotCanonical { path: Vec<u8>, reason: String },
    /// Denied paths inside of allowed directories, one line for each.
    DenyOverlap(Vec<String>),
    /// A platform rule that the capability set refused; holds its message.
    RuleRefused(String),
    /// Nothing is known yet of a path that the decision depends on.
    ProbeNeeded(Vec<u8>),
}

/// The view of a policy error.
pub enum PolicyErrorView {
    Unparsable(Seq<char>),
    UnknownGroup(Seq<char>),
    RequiredGroups(Seq<Seq<char>>),
    NamedCredentials,
    UpstreamConflict {
        first_group: Seq<char>,
        first_proxy: Seq<char>,
        group: Seq<char>,
        proxy: Seq<char>,
    },
    VariableNotSet(Seq<char>),
    VariableNotAbsolute { name: Seq<char>, value: Seq<char> },
    ControlCharacter(Seq<char>),
    NotUtf8(Seq<u8>),
    NoParent(Seq<u8>),
    ParentNotCanonical { path: Seq<u8>, reason: Seq<char> },
    NotCanonical { path: Seq<u8>, reason: Seq<char> },
    DenyOverlap(Seq<Seq<char>>),
    RuleRefused(Seq<char>),
    ProbeNeeded(Seq<u8>),
}

impl View for PolicyError {
    type V = PolicyErrorView;

    open spec fn view(&self) -> PolicyErrorView {
        match *self {
            PolicyError::Unparsable(m) => PolicyErrorView::Unparsable(m@),
            PolicyError::UnknownGroup(n) => PolicyErrorView::UnknownGroup(n@),
            PolicyError::RequiredGroups(v) => PolicyErrorView::RequiredGroups(texts(v@)),
            PolicyError::NamedCredentials => PolicyErrorView::NamedCredentials,
            PolicyError::UpstreamConflict { first_group, first_proxy, group, proxy } =>
                PolicyErrorView::UpstreamConflict {
                first_group: first_group@,
                first_proxy: first_proxy@,
                group: group@,
                proxy: proxy@,
            },
            PolicyError::VariableNotSet(n) => PolicyErrorView::VariableNotSet(n@),
            PolicyError::VariableNotAbsolute { name, value } =>
                PolicyErrorView::VariableNotAbsolute { name: name@, value: value@ },
            PolicyError::ControlCharacter(p) => PolicyErrorView::ControlCharacter(p@),
            PolicyError::NotUtf8(p) => PolicyErrorView::NotUtf8(p@),
            PolicyError::NoParent(p) => PolicyErrorView::NoParent(p@),
            PolicyError::ParentNotCanonical { path, reason } =>
                PolicyErrorView::ParentNotCanonical { path: path@, reason: reason@ },
            PolicyError::NotCanonical { path, reason } => PolicyErrorView::NotCanonical {
                path: path@,
                reason: reason@,
            },
            PolicyError::DenyOverlap(v) => PolicyErrorView::DenyOverlap(texts(v@)),
            PolicyError::RuleRefused(m) => PolicyErrorView::RuleRefused(m@),
            PolicyError::ProbeNeeded(p) => PolicyErrorView::ProbeNeeded(p@),
        }
    }
}

/// `name` in single quotes.
pub open spec fn quoted(name: Seq<char>) -> Seq<char> {
    "'"@ + name + "'"@
}

impl PolicyErrorView {
    /// The kind of the error.
    pub open spec fn kind(self) -> ErrorKind {
        match self {
            PolicyErrorView::DenyOverlap(_) => ErrorKind::SandboxInit,
            PolicyErrorView::RuleRefused(_) => ErrorKind::SandboxInit,
            PolicyErrorView::NotCanonical { .. } => ErrorKind::PathCanonicalization,
            PolicyErrorView::ProbeNeeded(_) => ErrorKind::Probe,
            _ => ErrorKind::ConfigParse,
        }
    }

    /// What the error says.
    pub open spec fn message(self) -> Seq<char> {
        match self {
            PolicyErrorView::Unparsable(m) => "Failed to parse policy.json: "@ + m,
            PolicyErrorView::UnknownGroup(n) => "Unknown policy group: "@ + quoted(n),
            PolicyErrorView::RequiredGroups(v) => "Cannot exclude required groups: "@ + joined(
                v.map_values(|n: Seq<char>| quoted(n)),
                ", "@,
            ),
            PolicyErrorView::NamedCredentials =>
                "network.credentials requires built-in network-policy resolution, which nono-py does not expose yet"@,
            PolicyErrorView::UpstreamConflict { first_group, first_proxy, group, proxy } =>
                "Conflicting upstream_proxy values in policy groups: "@ + quoted(first_group)
                    + " sets "@ + quoted(first_proxy) + ", but "@ + quoted(group) + " sets "@
                    + quoted(proxy),
            PolicyErrorView::VariableNotSet(n) => n + " is not set"@,
            PolicyErrorView::VariableNotAbsolute { name, value } => name
                + " must be an absolute path, got: "@ + value,
            PolicyErrorView::ControlCharacter(p) => "Path contains control character: "@ + p,
            PolicyErrorView::NotUtf8(p) => "Path contains non-UTF-8 bytes: "@ + shown(p),
            PolicyErrorView::NoParent(p) => "cannot resolve parent symlinks for "@ + shown(
                p,
            ),
            PolicyErrorView::ParentNotCanonical { path, reason } => "canonicalize "@ + shown(path)
                + ": "@ + reason,
            PolicyErrorView::NotCanonical { path, reason } => "Failed to canonicalize path "@
                + shown(path) + ": "@ + reason,
            PolicyErrorView::DenyOverlap(v) =>
                "Landlock deny-overlap is not enforceable on Linux. Refusing to start with conflicting policy.\n"@
                    + joined(v, "\n"@),
            PolicyErrorView::RuleRefused(m) => m,
            PolicyErrorView::ProbeNeeded(p) => "nothing is known of the path "@ + shown(p),
        }
    }
}

/// Puts `name` in single quotes.
pub fn quote(name: &str) -> (r: String)
    ensures
        r@ == quoted(name@),
{
    String::from_str("'").concat(name).concat("'")
}

/// Puts each of `names` in single quotes.
fn quote_all(names: &[String]) -> (r: Vec<String>)
    ensures
        texts(r@) == texts(names@).map_values(|n: Seq<char>| quoted(n)),
{
    let mut r: Vec<String> = Vec::new();
    for i in 0..names.len()
        invariant
            r@.len() == i,
            forall|j: int| 0 <= j < i ==> (#[trigger] r@[j])@ == quoted(names@[j]@),
    {
        r.push(quote(names[i].as_str()));
    }
    assert(texts(r@) =~= texts(names@).map_values(|n: Seq<char>| quoted(n)));
    r
}

impl PolicyError {
    /// The kind of the error.
    pub fn kind(&self) -> (r: ErrorKind)
        ensures
            r == self@.kind(),
    {
        match self {
            PolicyError::DenyOverlap(_) => ErrorKind::SandboxInit,
            PolicyError::RuleRefused(_) => ErrorKind::SandboxInit,
            PolicyError::NotCanonical { .. } => ErrorKind::PathCanonicalization,
            PolicyError::ProbeNeeded(_) => ErrorKind::Probe,
            _ => ErrorKind::ConfigParse,
        }
    }

    /// What the error says.
    pub fn message(&self) -> (r: String)
        ensures
            r@ == self@.message(),
    {
        match self {
            PolicyError::Unparsable(m) => String::from_str("Failed to parse policy.json: ").concat(
                m.as_str(),
            ),
            PolicyError::UnknownGroup(n) => String::from_str("Unknown policy group: ").concat(
                quote(n.as_str()).as_str(),
            ),
            PolicyError::RequiredGroups(v) => {
                let names = quote_all(v.as_slice());
                String::from_str("Cannot exclude required groups: ").concat(
                    join(names.as_slice(), ", ").as_str(),
                )
            },
            PolicyError::NamedCredentials => String::from_str(
                "network.credentials requires built-in network-policy resolution, which nono-py does not expose yet",
            ),
            PolicyError::UpstreamConflict { first_group, first_proxy, group, proxy } => {
                let mut s = String::from_str("Conflicting upstream_proxy values in policy groups: ");
                s.append(quote(first_group.as_str()).as_str());
                s.append(" sets ");
                s.append(quote(first_proxy.as_str()).as_str());
                s.append(", but ");
                s.append(quote(group.as_str()).as_str());
                s.append(" sets ");
                s.append(quote(proxy.as_str()).as_str());
                s
            },
            PolicyError::VariableNotSet(n) => n.clone().concat(" is not set"),
            PolicyError::VariableNotAbsolute { name, value } => name.clone().concat(
                " must be an absolute path, got: ",
            ).concat(value.as_str()),
            PolicyError::ControlCharacter(p) => String::from_str(
                "Path contains control character: ",
            ).concat(p.as_str()),
            PolicyError::NotUtf8(p) => String::from_str("Path contains non-UTF-8 bytes: ").concat(
                show(p.as_slice()).as_str(),
            ),
            PolicyError::NoParent(p) => String::from_str(
                "cannot resolve parent symlinks for ",
            ).concat(show(p.as_slice()).as_str()),
            PolicyError::ParentNotCanonical { path, reason } => String::from_str(
                "canonicalize ",
            ).concat(show(path.as_slice()).as_str()).concat(": ").concat(reason.as_str()),
            PolicyError::NotCanonical { path, reason } => String::from_str(
                "Failed to canonicalize path ",
            ).concat(show(path.as_slice()).as_str()).concat(": ").concat(reason.as_str()),
            PolicyError::DenyOverlap(v) => {
                String::from_str(
                    "Landlock deny-overlap is not enforceable on Linux. Refusing to start with conflicting policy.\n",
                ).concat(join(v.as_slice(), "\n").as_str())
            },
            PolicyError::RuleRefused(m) => m.clone(),
            PolicyError::ProbeNeeded(p) => String::from_str("nothing is known of the path ").concat(
                show(p.as_slice()).as_str(),
            ),
        }
    }
}

} // verus!
