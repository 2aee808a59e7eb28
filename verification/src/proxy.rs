//! The proxy that the network parts of a policy's groups ask for.

use vstd::prelude::*;

use crate::error::{PolicyError, PolicyErrorView};
use crate::host::Platform;
use crate::policy::{
    find_group, group_matches_platform, group_named, matches_platform, NetworkOps, Policy,
    PolicyEndpointRule, PolicyInjectMode, PolicyRouteConfig, RustPolicy,
};
use crate::table::Table;
use crate::text::{contains_text, opt_text, texts};

verus! {

/// Where the proxy puts a credential into a request.
#[derive(Clone, Copy, Debug, PartialEq, Eq, Structural)]
pub enum InjectMode {
    Header,
    UrlPath,
    QueryParam,
    BasicAuth,
}

/// A rule on the endpoints of a route.
#[derive(Debug)]
pub struct EndpointRule {
    pub method: String,
    pub path: String,
}

/// A route of the proxy. It has no settings of its own for the side of the
/// client, and no OAuth2.
#[derive(Debug)]
pub struct RouteConfig {
    pub prefix: String,
    pub upstream: String,
    pub credential_key: Option<String>,
    pub inject_mode: InjectMode,
    pub inject_header: String,
    pub credential_format: String,
    pub path_pattern: Option<String>,
    pub path_replacement: Option<String>,
    pub query_param_name: Option<String>,
    pub env_var: Option<String>,
    pub endpoint_rules: Vec<EndpointRule>,
    pub tls_ca: Option<String>,
    pub tls_client_cert: Option<String>,
    pub tls_client_key: Option<String>,
}

/// The proxy that requests are handed on to, without authentication.
#[derive(Debug)]
pub struct ExternalProxyConfig {
    pub address: String,
    /// Hosts that are reached without it.
    pub bypass_hosts: Vec<String>,
}

/// The configuration of a proxy.
#[derive(Debug)]
pub struct ProxyConfig {
    pub bind_addr: String,
    pub bind_port: u16,
    pub allowed_hosts: Vec<String>,
    pub routes: Vec<RouteConfig>,
    pub external_proxy: Option<ExternalProxyConfig>,
    pub direct_connect_ports: Vec<u16>,
    pub max_connections: usize,
}

/// The view of a rule on endpoints.
pub struct EndpointRuleView {
    pub method: Seq<char>,
    pub path: Seq<char>,
}

/// The view of a route.
pub struct RouteView {
    pub prefix: Seq<char>,
    pub upstream: Seq<char>,
    pub credential_key: Option<Seq<char>>,
    pub inject_mode: InjectMode,
    pub inject_header: Seq<char>,
    pub credential_format: Seq<char>,
    pub path_pattern: Option<Seq<char>>,
    pub path_replacement: Option<Seq<char>>,
    pub query_param_name: Option<Seq<char>>,
    pub env_var: Option<Seq<char>>,
    pub endpoint_rules: Seq<EndpointRuleView>,
    pub tls_ca: Option<Seq<char>>,
    pub tls_client_cert: Option<Seq<char>>,
    pub tls_client_key: Option<Seq<char>>,
}

/// The view of an upstream proxy.
pub struct ExternalProxyView {
    pub address: Seq<char>,
    pub bypass_hosts: Seq<Seq<char>>,
}

/// The view of a proxy's configuration.
pub struct ProxyConfigView {
    pub bind_addr: Seq<char>,
    pub bind_port: u16,
    pub allowed_hosts: Seq<Seq<char>>,
    pub routes: Seq<RouteView>,
    pub external_proxy: Option<ExternalProxyView>,
    pub direct_connect_ports: Seq<u16>,
    pub max_connections: usize,
}

impl View for EndpointRule {
    type V = EndpointRuleView;

    open spec fn view(&self) -> EndpointRuleView {
        EndpointRuleView { method: self.method@, path: self.path@ }
    }
}

impl View for RouteConfig {
    type V = RouteView;

    open spec fn view(&self) -> RouteView {
        RouteView {
            prefix: self.prefix@,
            upstream: self.upstream@,
            credential_key: opt_text(self.credential_key),
            inject_mode: self.inject_mode,
            inject_header: self.inject_header@,
            credential_format: self.credential_format@,
            path_pattern: opt_text(self.path_pattern),
            path_replacement: opt_text(self.path_replacement),
            query_param_name: opt_text(self.query_param_name),
            env_var: opt_text(self.env_var),
            endpoint_rules: self.endpoint_rules@.map_values(|rule: EndpointRule| rule@),
            tls_ca: opt_text(self.tls_ca),
            tls_client_cert: opt_text(self.tls_client_cert),
            tls_client_key: opt_text(self.tls_client_key),
        }
    }
}

impl View for ExternalProxyConfig {
    type V = ExternalProxyView;

    open spec fn view(&self) -> ExternalProxyView {
        ExternalProxyView { address: self.address@, bypass_hosts: texts(self.bypass_hosts@) }
    }
}

impl View for ProxyConfig {
    type V = ProxyConfigView;

    open spec fn view(&self) -> ProxyConfigView {
        ProxyConfigView {
            bind_addr: self.bind_addr@,
            bind_port: self.bind_port,
            allowed_hosts: texts(self.allowed_hosts@),
            routes: self.routes@.map_values(|route: RouteConfig| route@),
            external_proxy: match self.external_proxy {
                Some(proxy) => Some(proxy@),
                None => None,
            },
            direct_connect_ports: self.direct_connect_ports@,
            max_connections: self.max_connections,
        }
    }
}

/// The proxy's mode for a policy's mode.
pub open spec fn mode_for(mode: PolicyInjectMode) -> InjectMode {
    match mode {
        PolicyInjectMode::Header => InjectMode::Header,
        PolicyInjectMode::UrlPath => InjectMode::UrlPath,
        PolicyInjectMode::QueryParam => InjectMode::QueryParam,
        PolicyInjectMode::BasicAuth => InjectMode::BasicAuth,
    }
}

/// The proxy's route for a policy's route: nothing is changed.
pub open spec fn route_for(route: PolicyRouteConfig) -> RouteView {
    RouteView {
        prefix: route.prefix@,
        upstream: route.upstream@,
        credential_key: opt_text(route.credential_key),
        inject_mode: mode_for(route.inject_mode),
        inject_header: route.inject_header@,
        credential_format: route.credential_format@,
        path_pattern: opt_text(route.path_pattern),
        path_replacement: opt_text(route.path_replacement),
        query_param_name: opt_text(route.query_param_name),
        env_var: opt_text(route.env_var),
        endpoint_rules: route.endpoint_rules@.map_values(
            |rule: PolicyEndpointRule| EndpointRuleView { method: rule.method@, path: rule.path@ },
        ),
        tls_ca: opt_text(route.tls_ca),
        tls_client_cert: opt_text(route.tls_client_cert),
        tls_client_key: opt_text(route.tls_client_key),
    }
}

impl From<PolicyInjectMode> for InjectMode {
    fn from(mode: PolicyInjectMode) -> (r: InjectMode) {
        match mode {
            PolicyInjectMode::Header => InjectMode::Header,
            PolicyInjectMode::UrlPath => InjectMode::UrlPath,
            PolicyInjectMode::QueryParam => InjectMode::QueryParam,
            PolicyInjectMode::BasicAuth => InjectMode::BasicAuth,
        }
    }
}

impl vstd::std_specs::convert::FromSpecImpl<PolicyInjectMode> for InjectMode {
    open spec fn obeys_from_spec() -> bool {
        true
    }

    open spec fn from_spec(mode: PolicyInjectMode) -> InjectMode {
        mode_for(mode)
    }
}

impl From<PolicyEndpointRule> for EndpointRule {
    fn from(rule: PolicyEndpointRule) -> (r: EndpointRule) {
        EndpointRule { method: rule.method, path: rule.path }
    }
}

impl vstd::std_specs::convert::FromSpecImpl<PolicyEndpointRule> for EndpointRule {
    open spec fn obeys_from_spec() -> bool {
        true
    }

    open spec fn from_spec(rule: PolicyEndpointRule) -> EndpointRule {
        EndpointRule { method: rule.method, path: rule.path }
    }
}

/// Copies a text that may be missing.
fn copy_opt(o: &Option<String>) -> (r: Option<String>)
    ensures
        opt_text(r) == opt_text(*o),
{
    match o {
        Some(s) => Some(s.clone()),
        None => None,
    }
}

/// Makes the proxy's route for a policy's route.
pub fn make_route(route: &PolicyRouteConfig) -> (r: RouteConfig)
    ensures
        r@ == route_for(*route),
        r.prefix@ == route.prefix@,
        r.upstream@ == route.upstream@,
        opt_text(r.credential_key) == opt_text(route.credential_key),
        r.inject_header@ == route.inject_header@,
        r.credential_format@ == route.credential_format@,
        opt_text(r.path_pattern) == opt_text(route.path_pattern),
        opt_text(r.path_replacement) == opt_text(route.path_replacement),
        opt_text(r.query_param_name) == opt_text(route.query_param_name),
        opt_text(r.env_var) == opt_text(route.env_var),
        opt_text(r.tls_ca) == opt_text(route.tls_ca),
        opt_text(r.tls_client_cert) == opt_text(route.tls_client_cert),
        opt_text(r.tls_client_key) == opt_text(route.tls_client_key),
        r.endpoint_rules@.len() == route.endpoint_rules@.len(),
        forall|i: int|
            0 <= i < r.endpoint_rules@.len() ==> (#[trigger] r.endpoint_rules@[i]).method@
                == route.endpoint_rules@[i].method@ && r.endpoint_rules@[i].path@
                == route.endpoint_rules@[i].path@,
{
    let mut rules: Vec<EndpointRule> = Vec::new();
    for i in 0..route.endpoint_rules.len()
        invariant
            rules@.len() == i,
            forall|j: int|
                0 <= j < i ==> (#[trigger] rules@[j])@ == (EndpointRuleView {
                    method: route.endpoint_rules@[j].method@,
                    path: route.endpoint_rules@[j].path@,
                }),
    {
        let rule = &route.endpoint_rules[i];
        rules.push(
            EndpointRule::from(
                PolicyEndpointRule { method: rule.method.clone(), path: rule.path.clone() },
            ),
        );
    }
    let r = RouteConfig {
        prefix: route.prefix.clone(),
        upstream: route.upstream.clone(),
        credential_key: copy_opt(&route.credential_key),
        inject_mode: InjectMode::from(route.inject_mode),
        inject_header: route.inject_header.clone(),
        credential_format: route.credential_format.clone(),
        path_pattern: copy_opt(&route.path_pattern),
        path_replacement: copy_opt(&route.path_replacement),
        query_param_name: copy_opt(&route.query_param_name),
        env_var: copy_opt(&route.env_var),
        endpoint_rules: rules,
        tls_ca: copy_opt(&route.tls_ca),
        tls_client_cert: copy_opt(&route.tls_client_cert),
        tls_client_key: copy_opt(&route.tls_client_key),
    };
    assert(r@.endpoint_rules =~= route_for(*route).endpoint_rules);
    r
}

impl From<PolicyRouteConfig> for RouteConfig {
    fn from(route: PolicyRouteConfig) -> (r: RouteConfig)
        ensures
            r@ == route_for(route),
    {
        make_route(&route)
    }
}

impl vstd::std_specs::convert::FromSpecImpl<PolicyRouteConfig> for RouteConfig {
    open spec fn obeys_from_spec() -> bool {
        false
    }

    open spec fn from_spec(route: PolicyRouteConfig) -> RouteConfig {
        arbitrary()
    }
}

/// What the groups `names` say of the network, in order: those that are for
/// `platform` and say anything, each with its name.
pub open spec fn networks(policy: RustPolicy, names: Seq<Seq<char>>, platform: Platform) -> Seq<
    (Seq<char>, NetworkOps),
>
    decreases names.len(),
{
    if names.len() == 0 {
        Seq::empty()
    } else {
        let before = networks(policy, names.drop_last(), platform);
        match network_of(policy, names.last(), platform) {
            Some(network) => before.push((names.last(), network)),
            None => before,
        }
    }
}

/// What the group `name` says of the network, where it is for `platform`.
pub open spec fn network_of(policy: RustPolicy, name: Seq<char>, platform: Platform) -> Option<
    NetworkOps,
> {
    match group_named(policy, name) {
        Some(group) => if matches_platform(group, platform) {
            group.network
        } else {
            None
        },
        None => None,
    }
}

/// `have`, and behind it each of `more` that is not there yet.
pub open spec fn with_new(have: Seq<Seq<char>>, more: Seq<Seq<char>>) -> Seq<Seq<char>>
    decreases more.len(),
{
    if more.len() == 0 {
        have
    } else {
        let before = with_new(have, more.drop_last());
        if before.contains(more.last()) {
            before
        } else {
            before.push(more.last())
        }
    }
}

/// The hosts that may be reached, each once.
pub open spec fn hosts(nets: Seq<(Seq<char>, NetworkOps)>) -> Seq<Seq<char>>
    decreases nets.len(),
{
    if nets.len() == 0 {
        Seq::empty()
    } else {
        with_new(hosts(nets.drop_last()), texts(nets.last().1.allow_domain@))
    }
}

/// The hosts that are reached without the upstream proxy, each once.
pub open spec fn bypasses(nets: Seq<(Seq<char>, NetworkOps)>) -> Seq<Seq<char>>
    decreases nets.len(),
{
    if nets.len() == 0 {
        Seq::empty()
    } else {
        with_new(bypasses(nets.drop_last()), texts(nets.last().1.upstream_bypass@))
    }
}

/// The routes of a table, in the order of its rows.
pub open spec fn table_routes(table: Table<PolicyRouteConfig>) -> Seq<RouteView> {
    table.rows().map_values(|row: (Seq<char>, PolicyRouteConfig)| route_for(row.1))
}

/// The routes of all groups.
pub open spec fn routes(nets: Seq<(Seq<char>, NetworkOps)>) -> Seq<RouteView>
    decreases nets.len(),
{
    if nets.len() == 0 {
        Seq::empty()
    } else {
        routes(nets.drop_last()) + table_routes(nets.last().1.custom_credentials)
    }
}

/// The first upstream proxy that a group names, with the group's name.
pub open spec fn upstream(nets: Seq<(Seq<char>, NetworkOps)>) -> Option<(Seq<char>, Seq<char>)>
    decreases nets.len(),
{
    if nets.len() == 0 {
        None
    } else {
        match upstream(nets.drop_last()) {
            Some(first) => Some(first),
            None => match nets.last().1.upstream_proxy {
                Some(proxy) => Some((nets.last().0, proxy@)),
                None => None,
            },
        }
    }
}

/// The smallest limit on connections that a group sets.
pub open spec fn limit(nets: Seq<(Seq<char>, NetworkOps)>) -> Option<usize>
    decreases nets.len(),
{
    if nets.len() == 0 {
        None
    } else {
        match (limit(nets.drop_last()), nets.last().1.max_connections) {
            (Some(a), Some(b)) => Some(if a <= b { a } else { b }),
            (None, b) => b,
            (a, None) => a,
        }
    }
}

/// Why a group cannot join those that come before it, if it cannot: it asks for
/// credentials by name, or names another upstream proxy than they do.
pub open spec fn objection(
    nets: Seq<(Seq<char>, NetworkOps)>,
    name: Seq<char>,
    network: NetworkOps,
) -> Option<PolicyErrorView> {
    if network.credentials@.len() > 0 {
        Some(PolicyErrorView::NamedCredentials)
    } else {
        match (upstream(nets), network.upstream_proxy) {
            (Some(first), Some(proxy)) => if first.1 == proxy@ {
                None
            } else {
                Some(
                    PolicyErrorView::UpstreamConflict {
                        first_group: first.0,
                        first_proxy: first.1,
                        group: name,
                        proxy: proxy@,
                    },
                )
            },
            _ => None,
        }
    }
}

/// Why the groups `names` give no proxy, if they do not: the first of them that
/// is unknown or cannot join those before it.
pub open spec fn proxy_error(policy: RustPolicy, names: Seq<Seq<char>>, platform: Platform) -> Option<
    PolicyErrorView,
>
    decreases names.len(),
{
    if names.len() == 0 {
        None
    } else {
        let name = names.last();
        match proxy_error(policy, names.drop_last(), platform) {
            Some(e) => Some(e),
            None => if group_named(policy, name) is None {
                Some(PolicyErrorView::UnknownGroup(name))
            } else {
                match network_of(policy, name, platform) {
                    Some(network) => objection(
                        networks(policy, names.drop_last(), platform),
                        name,
                        network,
                    ),
                    None => None,
                }
            },
        }
    }
}

/// Whether the groups say nothing that a proxy is needed for.
pub open spec fn needs_no_proxy(nets: Seq<(Seq<char>, NetworkOps)>) -> bool {
    &&& hosts(nets).len() == 0
    &&& routes(nets).len() == 0
    &&& upstream(nets) is None
    &&& bypasses(nets).len() == 0
    &&& limit(nets) is None
}

/// The proxy that the groups ask for: what they do not say is as for any proxy.
pub open spec fn proxy_for(nets: Seq<(Seq<char>, NetworkOps)>) -> ProxyConfigView {
    ProxyConfigView {
        bind_addr: "127.0.0.1"@,
        bind_port: 0,
        allowed_hosts: hosts(nets),
        routes: routes(nets),
        external_proxy: match upstream(nets) {
            Some(first) => Some(
                ExternalProxyView { address: first.1, bypass_hosts: bypasses(nets) },
            ),
            None => None,
        },
        direct_connect_ports: Seq::empty(),
        max_connections: match limit(nets) {
            Some(n) => n,
            None => 256,
        },
    }
}

/// Calls `nono_proxy::ProxyConfig::default` for what the arguments do not say.
/// By default a proxy listens on the loopback address on a port that the system
/// picks, hands nothing on, lets no port be reached directly, and takes at most
/// 256 connections.
#[verifier::external_body]
fn config_with(allowed_hosts: Vec<String>, routes: Vec<RouteConfig>) -> (r: ProxyConfig)
    ensures
        r.allowed_hosts == allowed_hosts,
        r.routes == routes,
        r.bind_addr@ == "127.0.0.1"@,
        r.bind_port == 0,
        r.external_proxy is None,
        r.direct_connect_ports@ == Seq::<u16>::empty(),
        r.max_connections == 256,
{
    let c = nono_proxy::ProxyConfig::default();
    let external_proxy = c.external_proxy.map(
        |p| ExternalProxyConfig { address: p.address, bypass_hosts: p.bypass_hosts },
    );
    ProxyConfig {
        bind_addr: c.bind_addr.to_string(),
        bind_port: c.bind_port,
        allowed_hosts,
        routes,
        external_proxy,
        direct_connect_ports: c.direct_connect_ports,
        max_connections: c.max_connections,
    }
}

/// Puts each of `more` that is not in `have` yet behind it.
fn add_new(have: &mut Vec<String>, more: &Vec<String>)
    ensures
        texts(final(have)@) == with_new(texts(old(have)@), texts(more@)),
{
    let ghost all = texts(more@);
    assert(all.take(0) =~= Seq::empty());
    for i in 0..more.len()
        invariant
            all == texts(more@),
            texts(have@) == with_new(texts(old(have)@), all.take(i as int)),
    {
        assert(all.take(i + 1).drop_last() == all.take(i as int));
        assert(all.take(i + 1).last() == more@[i as int]@);
        if !contains_text(have.as_slice(), &more[i]) {
            let ghost had = have@;
            have.push(more[i].clone());
            assert(texts(have@) =~= texts(had).push(more@[i as int]@));
        }
    }
    assert(all.take(all.len() as int) == all);
}

/// Puts the routes of `table` behind `have`.
fn add_routes(have: &mut Vec<RouteConfig>, table: &Table<PolicyRouteConfig>)
    ensures
        final(have)@.map_values(|route: RouteConfig| route@) == old(have)@.map_values(
            |route: RouteConfig| route@,
        ) + table_routes(*table),
{
    let n: usize = table.len();
    let ghost view = |route: RouteConfig| route@;
    let ghost all = table_routes(*table);
    assert(old(have)@.map_values(view) + all.take(0) =~= old(have)@.map_values(view));
    for i in 0..n
        invariant
            n == table.rows().len(),
            view == (|route: RouteConfig| route@),
            all == table_routes(*table),
            have@.map_values(view) == old(have)@.map_values(view) + all.take(i as int),
    {
        let ghost had = have@;
        let route = make_route(table.value_at(i));
        have.push(route);
        proof {
            assert(have@.map_values(view) =~= had.map_values(view).push(route@));
            assert(route@ == all[i as int]);
            assert(all.take(i + 1) =~= all.take(i as int).push(all[i as int]));
        }
    }
    assert(all.take(n as int) == all);
}

/// The proxy that the groups `group_names` ask for; `None` where they ask for
/// none.
pub fn resolve_proxy_config_impl(
    policy: &RustPolicy,
    group_names: &[String],
    platform: Platform,
) -> (r: Result<Option<ProxyConfig>, PolicyError>)
    ensures
        ({
            let names = texts(group_names@);
            let nets = networks(*policy, names, platform);
            match r {
                Ok(None) => proxy_error(*policy, names, platform) is None && needs_no_proxy(nets),
                Ok(Some(config)) => proxy_error(*policy, names, platform) is None
                    && !needs_no_proxy(nets) && config@ == proxy_for(nets),
                Err(e) => proxy_error(*policy, names, platform) == Some(e@),
            }
        }),
{
    let mut allowed_hosts: Vec<String> = Vec::new();
    let mut all_routes: Vec<RouteConfig> = Vec::new();
    let mut upstream_proxy: Option<(String, String)> = None;
    let mut upstream_bypass: Vec<String> = Vec::new();
    let mut max_connections: Option<usize> = None;
    let ghost names = texts(group_names@);
    let ghost view = |route: RouteConfig| route@;
    proof {
        assert(names.take(0) =~= Seq::empty());
        assert(texts(allowed_hosts@) =~= Seq::empty());
        assert(texts(upstream_bypass@) =~= Seq::empty());
        assert(all_routes@.map_values(view) =~= Seq::empty());
    }
    for i in 0..group_names.len()
        invariant
            names == texts(group_names@),
            view == (|route: RouteConfig| route@),
            proxy_error(*policy, names.take(i as int), platform) is None,
            texts(allowed_hosts@) == hosts(networks(*policy, names.take(i as int), platform)),
            all_routes@.map_values(view) == routes(
                networks(*policy, names.take(i as int), platform),
            ),
            upstream(networks(*policy, names.take(i as int), platform)) == (match upstream_proxy {
                Some(first) => Some((first.0@, first.1@)),
                None => None,
            }),
            texts(upstream_bypass@) == bypasses(networks(*policy, names.take(i as int), platform)),
            max_connections == limit(networks(*policy, names.take(i as int), platform)),
    {
        let name = &group_names[i];
        let ghost before = networks(*policy, names.take(i as int), platform);
        proof {
            assert(names.take(i + 1).drop_last() == names.take(i as int));
            assert(names.take(i + 1).last() == name@);
        }
        let group = match find_group(policy, name) {
            Ok(group) => group,
            Err(e) => {
                proof {
                    lemma_first_error_stands(*policy, names, i + 1, platform);
                }
                return Err(e);
            },
        };
        if group_matches_platform(group, platform) {
            if let Some(network) = &group.network {
                proof {
                    assert(networks(*policy, names.take(i + 1), platform) == before.push(
                        (name@, *network),
                    ));
                    assert(before.push((name@, *network)).drop_last() == before);
                }
                add_new(&mut allowed_hosts, &network.allow_domain);
                if network.credentials.len() > 0 {
                    proof {
                        lemma_first_error_stands(*policy, names, i + 1, platform);
                    }
                    return Err(PolicyError::NamedCredentials);
                }
                add_routes(&mut all_routes, &network.custom_credentials);
                if let Some(proxy) = &network.upstream_proxy {
                    let clash = match &upstream_proxy {
                        Some(first) => first.1 != *proxy,
                        None => false,
                    };
                    if clash {
                        if let Some(first) = upstream_proxy {
                            proof {
                                lemma_first_error_stands(*policy, names, i + 1, platform);
                            }
                            return Err(
                                PolicyError::UpstreamConflict {
                                    first_group: first.0,
                                    first_proxy: first.1,
                                    group: name.clone(),
                                    proxy: proxy.clone(),
                                },
                            );
                        }
                    } else if upstream_proxy.is_none() {
                        upstream_proxy = Some((name.clone(), proxy.clone()));
                    }
                }
                add_new(&mut upstream_bypass, &network.upstream_bypass);
                if let Some(most) = network.max_connections {
                    max_connections = match max_connections {
                        Some(current) => Some(if current <= most { current } else { most }),
                        None => Some(most),
                    };
                }
            }
        }
    }
    assert(names.take(names.len() as int) == names);
    let ghost nets = networks(*policy, names, platform);
    proof {
        assert(texts(allowed_hosts@).len() == allowed_hosts@.len());
        assert(texts(upstream_bypass@).len() == upstream_bypass@.len());
        assert(all_routes@.map_values(view).len() == all_routes@.len());
    }
    if allowed_hosts.len() == 0 && all_routes.len() == 0 && upstream_proxy.is_none()
        && upstream_bypass.len() == 0 && max_connections.is_none() {
        return Ok(None);
    }
    let mut config = config_with(allowed_hosts, all_routes);
    if let Some(first) = upstream_proxy {
        config.external_proxy = Some(
            ExternalProxyConfig { address: first.1, bypass_hosts: upstream_bypass },
        );
    }
    if let Some(most) = max_connections {
        config.max_connections = most;
    }
    assert(config@ == proxy_for(nets));
    Ok(Some(config))
}

/// The first error stands, whatever groups come after it.
pub proof fn lemma_first_error_stands(
    policy: RustPolicy,
    names: Seq<Seq<char>>,
    n: int,
    platform: Platform,
)
    requires
        0 <= n <= names.len(),
        proxy_error(policy, names.take(n), platform) is Some,
    ensures
        proxy_error(policy, names, platform) == proxy_error(policy, names.take(n), platform),
    decreases names.len() - n,
{
    if n == names.len() {
        assert(names.take(n) == names);
    } else {
        assert(names.take(n + 1).drop_last() == names.take(n));
        lemma_first_error_stands(policy, names, n + 1, platform);
    }
}

impl Policy {
    /// The proxy that the groups `group_names` ask for; `None` where they ask
    /// for none.
    pub fn resolve_proxy_config(&self, group_names: Vec<String>, platform: Platform) -> (r: Result<
        Option<ProxyConfig>,
        PolicyError,
    >)
        ensures
            ({
                let names = texts(group_names@);
                let nets = networks(self.inner, names, platform);
                match r {
                    Ok(None) => proxy_error(self.inner, names, platform) is None
                        && needs_no_proxy(nets),
                    Ok(Some(config)) => proxy_error(self.inner, names, platform) is None
                        && !needs_no_proxy(nets) && config@ == proxy_for(nets),
                    Err(e) => proxy_error(self.inner, names, platform) == Some(e@),
                }
            }),
    {
        resolve_proxy_config_impl(&self.inner, group_names.as_slice(), platform)
    }
}

proof fn lemma_with_new(have: Seq<Seq<char>>, more: Seq<Seq<char>>)
    requires
        have.no_duplicates(),
    ensures
        with_new(have, more).no_duplicates(),
        have.is_prefix_of(with_new(have, more)),
        forall|t: Seq<char>| #[trigger]
            with_new(have, more).contains(t) <==> have.contains(t) || more.contains(t),
    decreases more.len(),
{
    if more.len() == 0 {
        assert(have.take(have.len() as int) == have);
    } else {
        let before = with_new(have, more.drop_last());
        let out = with_new(have, more);
        let last = more.last();
        lemma_with_new(have, more.drop_last());
        assert(out.take(have.len() as int) == before.take(have.len() as int));
        assert forall|t: Seq<char>| #[trigger] out.contains(t) <==> have.contains(t)
            || more.contains(t) by {
            assert(more.contains(t) <==> more.drop_last().contains(t) || t == last) by {
                if more.drop_last().contains(t) {
                    let k = more.drop_last().index_of(t);
                    assert(more[k] == t);
                }
                assert(more[more.len() - 1] == last);
                if more.contains(t) && t != last {
                    let k = more.index_of(t);
                    assert(more.drop_last()[k] == t);
                }
            }
            assert(out.contains(t) <==> before.contains(t) || t == last) by {
                if !before.contains(last) {
                    assert(out[out.len() - 1] == last);
                    if before.contains(t) {
                        let k = before.index_of(t);
                        assert(out[k] == t);
                    }
                    if out.contains(t) && t != last {
                        let k = out.index_of(t);
                        assert(before[k] == t);
                    }
                }
            }
        }
    }
}

/// Whether one of the groups lets `host` be reached.
pub open spec fn allows_host(nets: Seq<(Seq<char>, NetworkOps)>, host: Seq<char>) -> bool {
    exists|i: int| 0 <= i < nets.len() && texts((#[trigger] nets[i]).1.allow_domain@).contains(host)
}

/// The hosts that may be reached are those that one of the groups allows, each
/// once.
pub proof fn lemma_hosts(nets: Seq<(Seq<char>, NetworkOps)>)
    ensures
        hosts(nets).no_duplicates(),
        forall|host: Seq<char>| #[trigger] hosts(nets).contains(host) <==> allows_host(nets, host),
    decreases nets.len(),
{
    if nets.len() > 0 {
        let less = nets.drop_last();
        let here = texts(nets.last().1.allow_domain@);
        lemma_hosts(less);
        lemma_with_new(hosts(less), here);
        assert forall|host: Seq<char>| #[trigger] hosts(nets).contains(host) <==> allows_host(
            nets,
            host,
        ) by {
            if allows_host(less, host) {
                let i = choose|i: int|
                    0 <= i < less.len() && texts((#[trigger] less[i]).1.allow_domain@).contains(
                        host,
                    );
                assert(nets[i] == less[i]);
            }
            if here.contains(host) {
                assert(nets[nets.len() - 1] == nets.last());
            }
            if allows_host(nets, host) {
                let i = choose|i: int|
                    0 <= i < nets.len() && texts((#[trigger] nets[i]).1.allow_domain@).contains(
                        host,
                    );
                if i < less.len() {
                    assert(less[i] == nets[i]);
                }
            }
        }
    }
}

/// Whether one of the groups lets `host` be reached without the upstream proxy.
pub open spec fn bypasses_host(nets: Seq<(Seq<char>, NetworkOps)>, host: Seq<char>) -> bool {
    exists|i: int|
        0 <= i < nets.len() && texts((#[trigger] nets[i]).1.upstream_bypass@).contains(host)
}

/// The hosts that are reached without the upstream proxy are those that one of
/// the groups names so, each once.
pub proof fn lemma_bypasses(nets: Seq<(Seq<char>, NetworkOps)>)
    ensures
        bypasses(nets).no_duplicates(),
        forall|host: Seq<char>| #[trigger]
            bypasses(nets).contains(host) <==> bypasses_host(nets, host),
    decreases nets.len(),
{
    if nets.len() > 0 {
        let less = nets.drop_last();
        let here = texts(nets.last().1.upstream_bypass@);
        lemma_bypasses(less);
        lemma_with_new(bypasses(less), here);
        assert forall|host: Seq<char>| #[trigger] bypasses(nets).contains(host) <==> bypasses_host(
            nets,
            host,
        ) by {
            if bypasses_host(less, host) {
                let i = choose|i: int|
                    0 <= i < less.len() && texts((#[trigger] less[i]).1.upstream_bypass@).contains(
                        host,
                    );
                assert(nets[i] == less[i]);
            }
            if here.contains(host) {
                assert(nets[nets.len() - 1] == nets.last());
            }
            if bypasses_host(nets, host) {
                let i = choose|i: int|
                    0 <= i < nets.len() && texts((#[trigger] nets[i]).1.upstream_bypass@).contains(
                        host,
                    );
                if i < less.len() {
                    assert(less[i] == nets[i]);
                }
            }
        }
    }
}

/// The limit on connections is the smallest one that a group sets; without a
/// group that sets one there is none.
pub proof fn lemma_limit_is_smallest(nets: Seq<(Seq<char>, NetworkOps)>)
    ensures
        match limit(nets) {
            Some(n) => {
                &&& exists|i: int|
                    0 <= i < nets.len() && (#[trigger] nets[i]).1.max_connections == Some(n)
                &&& forall|i: int|
                    0 <= i < nets.len() ==> ((#[trigger] nets[i]).1.max_connections matches Some(
                        m,
                    ) ==> n <= m)
            },
            None => forall|i: int|
                0 <= i < nets.len() ==> (#[trigger] nets[i]).1.max_connections is None,
        },
    decreases nets.len(),
{
    if nets.len() > 0 {
        let less = nets.drop_last();
        lemma_limit_is_smallest(less);
        assert(forall|i: int| 0 <= i < less.len() ==> less[i] == nets[i]);
        assert(nets[nets.len() - 1] == nets.last());
        if let Some(n) = limit(less) {
            let i = choose|i: int|
                0 <= i < less.len() && (#[trigger] less[i]).1.max_connections == Some(n);
            assert(nets[i].1.max_connections == Some(n));
        }
    }
}

proof fn lemma_upstream_agrees(policy: RustPolicy, names: Seq<Seq<char>>, platform: Platform)
    requires
        proxy_error(policy, names, platform) is None,
    ensures
        ({
            let nets = networks(policy, names, platform);
            &&& forall|i: int| 0 <= i < nets.len() ==> (#[trigger] nets[i]).1.credentials@.len() == 0
            &&& forall|i: int|
                0 <= i < nets.len() ==> ((#[trigger] nets[i]).1.upstream_proxy matches Some(proxy)
                    ==> upstream(nets) is Some && (upstream(nets)->0).1 == proxy@)
            &&& upstream(nets) matches Some(first) ==> exists|i: int|
                0 <= i < nets.len() && (#[trigger] nets[i]).0 == first.0 && (
                nets[i].1.upstream_proxy matches Some(proxy) && proxy@ == first.1)
        }),
    decreases names.len(),
{
    if names.len() > 0 {
        let less = names.drop_last();
        lemma_upstream_agrees(policy, less, platform);
        let before = networks(policy, less, platform);
        let nets = networks(policy, names, platform);
        if let Some(network) = network_of(policy, names.last(), platform) {
            assert(nets.drop_last() == before);
            assert(forall|i: int| 0 <= i < before.len() ==> before[i] == nets[i]);
            if let Some(first) = upstream(before) {
                let i = choose|i: int|
                    0 <= i < before.len() && (#[trigger] before[i]).0 == first.0 && (
                    before[i].1.upstream_proxy matches Some(proxy) && proxy@ == first.1);
                assert(nets[i].0 == first.0);
            } else {
                assert(nets[nets.len() - 1].0 == names.last());
            }
        }
    }
}

/// Where groups give a proxy or ask for none, none of them asks for credentials
/// by name, and all that name an upstream proxy name the same one: the one that
/// requests are handed on to.
pub proof fn lemma_one_upstream(policy: RustPolicy, names: Seq<Seq<char>>, platform: Platform)
    requires
        proxy_error(policy, names, platform) is None,
    ensures
        ({
            let nets = networks(policy, names, platform);
            &&& forall|i: int| 0 <= i < nets.len() ==> (#[trigger] nets[i]).1.credentials@.len() == 0
            &&& forall|i: int|
                0 <= i < nets.len() ==> ((#[trigger] nets[i]).1.upstream_proxy matches Some(proxy)
                    ==> (proxy_for(nets).external_proxy matches Some(external) && external.address
                    == proxy@))
            &&& proxy_for(nets).external_proxy matches Some(external) ==> exists|i: int|
                0 <= i < nets.len() && ((#[trigger] nets[i]).1.upstream_proxy matches Some(proxy)
                    && proxy@ == external.address)
        }),
{
    lemma_upstream_agrees(policy, names, platform);
    let nets = networks(policy, names, platform);
    if let Some(first) = upstream(nets) {
        let i = choose|i: int|
            0 <= i < nets.len() && (#[trigger] nets[i]).0 == first.0 && (
            nets[i].1.upstream_proxy matches Some(proxy) && proxy@ == first.1);
        assert(nets[i].1.upstream_proxy is Some);
    }
}

/// Whether a group says something that a proxy is needed for.
pub open spec fn needs_proxy(network: NetworkOps) -> bool {
    ||| network.allow_domain@.len() > 0
    ||| network.custom_credentials.rows().len() > 0
    ||| network.upstream_proxy is Some
    ||| network.upstream_bypass@.len() > 0
    ||| network.max_connections is Some
}

/// No proxy is given if and only if none of the groups says anything that one
/// is needed for.
pub proof fn lemma_when_no_proxy(nets: Seq<(Seq<char>, NetworkOps)>)
    ensures
        needs_no_proxy(nets) <==> forall|i: int|
            0 <= i < nets.len() ==> !needs_proxy((#[trigger] nets[i]).1),
    decreases nets.len(),
{
    if nets.len() > 0 {
        let less = nets.drop_last();
        let network = nets.last().1;
        lemma_when_no_proxy(less);
        lemma_hosts(less);
        lemma_bypasses(less);
        lemma_with_new(hosts(less), texts(network.allow_domain@));
        lemma_with_new(bypasses(less), texts(network.upstream_bypass@));
        lemma_grows(hosts(less), texts(network.allow_domain@));
        lemma_grows(bypasses(less), texts(network.upstream_bypass@));
        assert(forall|i: int| 0 <= i < less.len() ==> less[i] == nets[i]);
        assert(nets[nets.len() - 1] == nets.last());
        if needs_no_proxy(nets) {
            assert(needs_no_proxy(less));
            assert forall|i: int| 0 <= i < nets.len() implies !needs_proxy(
                (#[trigger] nets[i]).1,
            ) by {
                if i < less.len() {
                    assert(!needs_proxy(less[i].1));
                }
            }
        }
        if forall|i: int| 0 <= i < nets.len() ==> !needs_proxy((#[trigger] nets[i]).1) {
            assert forall|i: int| 0 <= i < less.len() implies !needs_proxy(
                (#[trigger] less[i]).1,
            ) by {
                assert(!needs_proxy(nets[i].1));
            }
            assert(!needs_proxy(network));
        }
    }
}

/// Nothing is there after adding if and only if nothing was there or added.
proof fn lemma_grows(have: Seq<Seq<char>>, more: Seq<Seq<char>>)
    ensures
        with_new(have, more).len() == 0 <==> have.len() == 0 && more.len() == 0,
        with_new(have, more).len() >= have.len(),
    decreases more.len(),
{
    if more.len() > 0 {
        lemma_grows(have, more.drop_last());
        let before = with_new(have, more.drop_last());
        if before.len() == 0 {
            assert(!before.contains(more.last()));
        }
    }
}

} // verus!
