//! Policies: named groups of what a sandboxed process may and may not do.

use vstd::prelude::*;

use crate::error::{PolicyError, PolicyErrorView};
use crate::host::{platform_name, Platform};
use crate::order::{sort_texts, strictly_sorted};
use crate::table::{has_key, place_of, Table};
use crate::text::{same_text, texts, write_decimal, decimal};

verus! {

/// A policy: its groups, by name.
pub struct RustPolicy {
    pub groups: Table<Group>,
}

/// A group of a policy.
pub struct Group {
    pub description: String,
    /// The platform that the group is for; without one it is for all.
    pub platform: Option<String>,
    /// Whether the group must not be left out.
    pub required: bool,
    pub allow: Option<AllowOps>,
    pub deny: Option<DenyOps>,
    /// Symbolic links, and what they point to.
    pub symlink_pairs: Option<Table<String>>,
    pub network: Option<NetworkOps>,
}

/// The paths that a group lets be used.
#[derive(Debug, Default)]
pub struct AllowOps {
    pub read: Vec<String>,
    pub write: Vec<String>,
    pub readwrite: Vec<String>,
}

/// What a group denies.
#[derive(Debug, Default)]
pub struct DenyOps {
    /// Paths that must not be reached.
    pub access: Vec<String>,
    /// Whether files must not be removed.
    pub unlink: bool,
    /// Whether files below directories that may be written can be removed all the same.
    pub unlink_override_for_user_writable: bool,
}

/// What a group says of the network.
pub struct NetworkOps {
    /// Whether the network is blocked.
    pub block: bool,
    /// Hosts that may be reached.
    pub allow_domain: Vec<String>,
    /// Credentials that are asked for by name.
    pub credentials: Vec<String>,
    /// Routes with credentials of their own, by name.
    pub custom_credentials: Table<PolicyRouteConfig>,
    /// The proxy that requests are handed on to.
    pub upstream_proxy: Option<String>,
    /// Hosts that are reached without that proxy.
    pub upstream_bypass: Vec<String>,
    /// The most connections that may be open at a time.
    pub max_connections: Option<usize>,
}

/// A route with a credential, as a policy writes it.
#[derive(Debug)]
pub struct PolicyRouteConfig {
    pub prefix: String,
    pub upstream: String,
    pub credential_key: Option<String>,
    pub inject_mode: PolicyInjectMode,
    pub inject_header: String,
    pub credential_format: String,
    pub path_pattern: Option<String>,
    pub path_replacement: Option<String>,
    pub query_param_name: Option<String>,
    pub env_var: Option<String>,
    pub endpoint_rules: Vec<PolicyEndpointRule>,
    pub tls_ca: Option<String>,
    pub tls_client_cert: Option<String>,
    pub tls_client_key: Option<String>,
}

/// A rule on the endpoints of a route.
#[derive(Debug)]
pub struct PolicyEndpointRule {
    pub method: String,
    pub path: String,
}

/// Where a credential is put into a request.
#[derive(Clone, Copy, Debug, PartialEq, Eq, Structural)]
pub enum PolicyInjectMode {
    Header,
    UrlPath,
    QueryParam,
    BasicAuth,
}

impl Default for PolicyInjectMode {
    /// A credential goes into a header, where nothing else is said.
    fn default() -> (r: PolicyInjectMode)
        ensures
            r == PolicyInjectMode::Header,
    {
        PolicyInjectMode::Header
    }
}

/// The header that a credential goes into, where nothing else is said.
pub fn default_inject_header() -> (r: String)
    ensures
        r@ == "Authorization"@,
{
    String::from_str("Authorization")
}

/// The form of a credential, where nothing else is said.
pub fn default_credential_format() -> (r: String)
    ensures
        r@ == "Bearer {}"@,
{
    String::from_str("Bearer {}")
}

/// Whether a group is for `platform`.
pub open spec fn matches_platform(group: Group, platform: Platform) -> bool {
    match group.platform {
        Some(name) => name@ == platform_name(platform),
        None => true,
    }
}

/// Whether `group` is for `platform`.
pub fn group_matches_platform(group: &Group, platform: Platform) -> (r: bool)
    ensures
        r == matches_platform(*group, platform),
{
    match &group.platform {
        Some(name) => same_text(name.as_str(), platform.name()),
        None => true,
    }
}

/// The group that the policy has under `name`.
pub open spec fn group_named(policy: RustPolicy, name: Seq<char>) -> Option<Group> {
    if policy.groups@.contains_key(name) {
        Some(policy.groups@[name])
    } else {
        None
    }
}

/// Finds the group that the policy has under `name`.
pub fn find_group<'a>(policy: &'a RustPolicy, name: &String) -> (r: Result<&'a Group, PolicyError>)
    ensures
        match r {
            Ok(group) => group_named(*policy, name@) == Some(*group),
            Err(e) => group_named(*policy, name@) is None && e@ == PolicyErrorView::UnknownGroup(
                name@,
            ),
        },
{
    match policy.groups.get(name.as_str()) {
        Some(group) => Ok(group),
        None => Err(PolicyError::UnknownGroup(name.clone())),
    }
}

/// Whether the policy requires the group `name`.
pub open spec fn is_required(policy: RustPolicy, name: Seq<char>) -> bool {
    match group_named(policy, name) {
        Some(group) => group.required,
        None => false,
    }
}

/// The names among `excluded` that the policy requires.
pub open spec fn required_among(policy: RustPolicy, excluded: Seq<Seq<char>>) -> Seq<Seq<char>> {
    excluded.filter(|name: Seq<char>| is_required(policy, name))
}

/// Checks that no group that the policy requires is left out; otherwise all of
/// those that are come back.
pub fn validate_group_exclusions(policy: &RustPolicy, excluded_groups: &[String]) -> (r: Result<
    (),
    PolicyError,
>)
    ensures
        match r {
            Ok(_) => required_among(*policy, texts(excluded_groups@)).len() == 0,
            Err(e) => required_among(*policy, texts(excluded_groups@)).len() > 0 && e@
                == PolicyErrorView::RequiredGroups(required_among(*policy, texts(excluded_groups@))),
        },
{
    let mut violations: Vec<String> = Vec::new();
    let ghost all = texts(excluded_groups@);
    let ghost pred = |name: Seq<char>| is_required(*policy, name);
    assert(texts(violations@) == all.take(0).filter(pred)) by {
        reveal(Seq::filter);
    }
    for i in 0..excluded_groups.len()
        invariant
            all == texts(excluded_groups@),
            pred == (|name: Seq<char>| is_required(*policy, name)),
            texts(violations@) == all.take(i as int).filter(pred),
    {
        let name = &excluded_groups[i];
        let ghost had = violations@;
        proof {
            reveal(Seq::filter);
            assert(all.take(i + 1).drop_last() == all.take(i as int));
            assert(all.take(i + 1).last() == name@);
        }
        let required = match policy.groups.get(name.as_str()) {
            Some(group) => group.required,
            None => false,
        };
        if required {
            violations.push(name.clone());
            assert(texts(violations@) == texts(had).push(name@));
        }
    }
    assert(all.take(all.len() as int) == all);
    if violations.len() == 0 {
        assert(texts(violations@).len() == 0);
        Ok(())
    } else {
        Err(PolicyError::RequiredGroups(violations))
    }
}

/// Leaving groups out is accepted if and only if none of them is required.
pub proof fn lemma_exclusions_accepted(policy: RustPolicy, excluded: Seq<Seq<char>>)
    ensures
        required_among(policy, excluded).len() == 0 <==> forall|i: int|
            0 <= i < excluded.len() ==> !is_required(policy, #[trigger] excluded[i]),
    decreases excluded.len(),
{
    reveal(Seq::filter);
    if excluded.len() > 0 {
        let rest = excluded.drop_last();
        lemma_exclusions_accepted(policy, rest);
        assert(forall|i: int| 0 <= i < rest.len() ==> rest[i] == excluded[i]);
        assert(excluded.last() == excluded[excluded.len() - 1]);
        if required_among(policy, excluded).len() == 0 {
            assert forall|i: int| 0 <= i < excluded.len() implies !is_required(
                policy,
                #[trigger] excluded[i],
            ) by {
                if i < rest.len() {
                    assert(!is_required(policy, rest[i]));
                }
            }
        }
    }
}

/// The policy that came of parsing, or the parser's message as an error.
pub fn load_policy(parsed: Result<RustPolicy, String>) -> (r: Result<Policy, PolicyError>)
    ensures
        match parsed {
            Ok(policy) => r == Ok::<Policy, PolicyError>(Policy { inner: policy }),
            Err(message) => r matches Err(e) && e@ == PolicyErrorView::Unparsable(message@),
        },
{
    match parsed {
        Ok(policy) => Ok(Policy { inner: policy }),
        Err(message) => Err(PolicyError::Unparsable(message)),
    }
}

/// A policy that was loaded.
pub struct Policy {
    pub inner: RustPolicy,
}

impl Policy {
    /// The names of the groups, sorted.
    pub fn group_names(&self) -> (r: Vec<String>)
        ensures
            strictly_sorted(texts(r@)),
            forall|name: Seq<char>| #[trigger]
                texts(r@).contains(name) <==> self.inner.groups@.contains_key(name),
    {
        let names = self.inner.groups.keys();
        let ghost rows = self.inner.groups.rows();
        let r = sort_texts(names.as_slice());
        proof {
            broadcast use vstd::seq_lib::group_to_multiset_ensures;
            let given = texts(names@);
            assert(given.no_duplicates()) by {
                assert forall|i: int, j: int| 0 <= i < j < given.len() implies given[i]
                    != given[j] by {
                    assert(rows[i].0 != rows[j].0);
                }
            }
            given.lemma_multiset_has_no_duplicates();
            texts(r@).lemma_multiset_has_no_duplicates_conv();
            assert forall|name: Seq<char>| #[trigger]
                texts(r@).contains(name) <==> self.inner.groups@.contains_key(name) by {
                assert(texts(r@).contains(name) <==> given.contains(name)) by {
                    assert(texts(r@).to_multiset().count(name) == given.to_multiset().count(name));
                }
                if given.contains(name) {
                    let i = given.index_of(name);
                    assert(rows[i].0 == name);
                    assert(has_key(rows, name));
                }
                if has_key(rows, name) {
                    let i = place_of(rows, name);
                    assert(given[i] == name);
                }
            }
        }
        r
    }

    /// The description of the group `name`.
    pub fn group_description(&self, name: &str) -> (r: Option<String>)
        ensures
            crate::text::opt_text(r) == (match group_named(self.inner, name@) {
                Some(group) => Some(group.description@),
                None => None,
            }),
    {
        match self.inner.groups.get(name) {
            Some(group) => Some(group.description.clone()),
            None => None,
        }
    }

    /// Checks that no group that the policy requires is left out.
    pub fn validate_group_exclusions(&self, excluded_groups: Vec<String>) -> (r: Result<
        (),
        PolicyError,
    >)
        ensures
            match r {
                Ok(_) => required_among(self.inner, texts(excluded_groups@)).len() == 0,
                Err(e) => required_among(self.inner, texts(excluded_groups@)).len() > 0 && e@
                    == PolicyErrorView::RequiredGroups(
                    required_among(self.inner, texts(excluded_groups@)),
                ),
            },
    {
        validate_group_exclusions(&self.inner, excluded_groups.as_slice())
    }

    /// A short text for the policy.
    pub fn __repr__(&self) -> (r: String)
        ensures
            r@ == "Policy(groups="@ + decimal(self.inner.groups.rows().len()) + ")"@,
    {
        String::from_str("Policy(groups=").concat(
            write_decimal(self.inner.groups.len() as u64).as_str(),
        ).concat(")")
    }
}

} // verus!
