//! What the network parts of groups are for: what a group says of the network is what
//! the proxy is told.

use vstd::prelude::*;

use crate::error::PolicyErrorView;
use crate::host::Platform;
use crate::policy::{NetworkOps, PolicyInjectMode, PolicyRouteConfig, RustPolicy};
use crate::proxy::{
    bypasses, hosts, lemma_first_error_stands, lemma_limit_is_smallest, lemma_one_upstream,
    lemma_when_no_proxy, limit, mode_for, needs_no_proxy, network_of, networks, proxy_error,
    proxy_for, route_for, routes, upstream, with_new, InjectMode, ProxyConfig, RouteConfig,
};
use crate::text::texts;

verus! {

/// A route of the proxy has, field by field, what the policy's route has.
pub proof fn lemma_route_is_kept(route: PolicyRouteConfig)
    ensures
        route_for(route).prefix == route.prefix@,
        route_for(route).upstream == route.upstream@,
        route_for(route).credential_key is Some == route.credential_key is Some,
        route.credential_key matches Some(t) ==> route_for(route).credential_key == Some(t@),
        route_for(route).inject_header == route.inject_header@,
        route_for(route).credential_format == route.credential_format@,
        route_for(route).path_pattern is Some == route.path_pattern is Some,
        route.path_pattern matches Some(t) ==> route_for(route).path_pattern == Some(t@),
        route_for(route).path_replacement is Some == route.path_replacement is Some,
        route.path_replacement matches Some(t) ==> route_for(route).path_replacement == Some(t@),
        route_for(route).query_param_name is Some == route.query_param_name is Some,
        route.query_param_name matches Some(t) ==> route_for(route).query_param_name == Some(t@),
        route_for(route).env_var is Some == route.env_var is Some,
        route.env_var matches Some(t) ==> route_for(route).env_var == Some(t@),
        route_for(route).tls_ca is Some == route.tls_ca is Some,
        route.tls_ca matches Some(t) ==> route_for(route).tls_ca == Some(t@),
        route_for(route).tls_client_cert is Some == route.tls_client_cert is Some,
        route.tls_client_cert matches Some(t) ==> route_for(route).tls_client_cert == Some(t@),
        route_for(route).tls_client_key is Some == route.tls_client_key is Some,
        route.tls_client_key matches Some(t) ==> route_for(route).tls_client_key == Some(t@),
        route.inject_mode == PolicyInjectMode::Header <==> route_for(route).inject_mode
            == InjectMode::Header,
        route.inject_mode == PolicyInjectMode::UrlPath <==> route_for(route).inject_mode
            == InjectMode::UrlPath,
        route.inject_mode == PolicyInjectMode::QueryParam <==> route_for(route).inject_mode
            == InjectMode::QueryParam,
        route.inject_mode == PolicyInjectMode::BasicAuth <==> route_for(route).inject_mode
            == InjectMode::BasicAuth,
        route_for(route).endpoint_rules.len() == route.endpoint_rules@.len(),
        forall|i: int|
            0 <= i < route.endpoint_rules@.len() ==> (#[trigger] route_for(
                route,
            ).endpoint_rules[i]).method == route.endpoint_rules@[i].method@ && route_for(
                route,
            ).endpoint_rules[i].path == route.endpoint_rules@[i].path@,
{
}

/// What is seen of a route is what it holds.
pub proof fn lemma_route_is_seen(r: RouteConfig)
    ensures
        r@.prefix == r.prefix@,
        r@.upstream == r.upstream@,
        r@.inject_mode == r.inject_mode,
        r@.inject_header == r.inject_header@,
        r@.credential_format == r.credential_format@,
        r.credential_key matches Some(t) ==> r@.credential_key == Some(t@),
        r.path_pattern matches Some(t) ==> r@.path_pattern == Some(t@),
        r.path_replacement matches Some(t) ==> r@.path_replacement == Some(t@),
        r.query_param_name matches Some(t) ==> r@.query_param_name == Some(t@),
        r.env_var matches Some(t) ==> r@.env_var == Some(t@),
        r.tls_ca matches Some(t) ==> r@.tls_ca == Some(t@),
        r.tls_client_cert matches Some(t) ==> r@.tls_client_cert == Some(t@),
        r.tls_client_key matches Some(t) ==> r@.tls_client_key == Some(t@),
        r.credential_key is None ==> r@.credential_key is None,
        r.path_pattern is None ==> r@.path_pattern is None,
        r.path_replacement is None ==> r@.path_replacement is None,
        r.query_param_name is None ==> r@.query_param_name is None,
        r.env_var is None ==> r@.env_var is None,
        r.tls_ca is None ==> r@.tls_ca is None,
        r.tls_client_cert is None ==> r@.tls_client_cert is None,
        r.tls_client_key is None ==> r@.tls_client_key is None,
        r@.endpoint_rules.len() == r.endpoint_rules@.len(),
        forall|i: int|
            0 <= i < r.endpoint_rules@.len() ==> (#[trigger] r@.endpoint_rules[i]).method
                == r.endpoint_rules@[i].method@ && r@.endpoint_rules[i].path
                == r.endpoint_rules@[i].path@,
{
}

/// What is seen of a proxy's configuration is what it holds.
pub proof fn lemma_proxy_is_seen(c: ProxyConfig)
    ensures
        c@.bind_addr == c.bind_addr@,
        c@.bind_port == c.bind_port,
        c@.allowed_hosts == texts(c.allowed_hosts@),
        c@.routes.len() == c.routes@.len(),
        forall|i: int| 0 <= i < c.routes@.len() ==> #[trigger] c@.routes[i] == c.routes@[i]@,
        c.external_proxy is None ==> c@.external_proxy is None,
        c.external_proxy matches Some(p) ==> (c@.external_proxy matches Some(v) && v.address
            == p.address@ && v.bypass_hosts == texts(p.bypass_hosts@)),
        c@.direct_connect_ports == c.direct_connect_ports@,
        c@.max_connections == c.max_connections,
{
}

/// Each way in which a policy puts a credential into a request is that of the proxy.
pub proof fn lemma_modes()
    ensures
        mode_for(PolicyInjectMode::Header) == InjectMode::Header,
        mode_for(PolicyInjectMode::UrlPath) == InjectMode::UrlPath,
        mode_for(PolicyInjectMode::QueryParam) == InjectMode::QueryParam,
        mode_for(PolicyInjectMode::BasicAuth) == InjectMode::BasicAuth,
{
}

/// The groups that have a say are those that the policy has, that are for the platform
/// and that speak of the network, in the order in which they are asked for.
pub proof fn lemma_who_has_a_say(policy: RustPolicy, names: Seq<Seq<char>>, platform: Platform)
    ensures
        networks(policy, names, platform) == names.filter_map(
            |name: Seq<char>|
                if policy.groups@.contains_key(name) && (policy.groups@[name].platform matches Some(
                    p,
                ) ==> p@ == match platform {
                    Platform::MacOs => "macos"@,
                    Platform::Linux => "linux"@,
                    Platform::Other => "unknown"@,
                }) && policy.groups@[name].network is Some {
                    Some((name, policy.groups@[name].network->0))
                } else {
                    None
                },
        ),
    decreases names.len(),
{
    let f = |name: Seq<char>|
        if policy.groups@.contains_key(name) && (policy.groups@[name].platform matches Some(p)
            ==> p@ == match platform {
            Platform::MacOs => "macos"@,
            Platform::Linux => "linux"@,
            Platform::Other => "unknown"@,
        }) && policy.groups@[name].network is Some {
            Some((name, policy.groups@[name].network->0))
        } else {
            None
        };
    if names.len() == 0 {
        reveal(Seq::filter_map);
        assert(names.filter_map(f) =~= Seq::empty());
    } else {
        let less = names.drop_last();
        lemma_who_has_a_say(policy, less, platform);
        names.lemma_filter_map_take_succ(f, names.len() - 1);
        assert(names.take(names.len() as int) =~= names);
        assert(names.take(names.len() - 1) =~= less);
        assert(networks(policy, names, platform) =~= names.filter_map(f));
    }
}

/// Where `t` first occurs in `flat`: nothing before `i` is `t`.
pub open spec fn first_at(flat: Seq<Seq<char>>, t: Seq<char>, i: int) -> bool {
    0 <= i < flat.len() && flat[i] == t && forall|j: int| 0 <= j < i ==> #[trigger] flat[j] != t
}

/// Whether `list` holds what `flat` holds, each once, in the order in which it first
/// occurs there.
pub open spec fn holds_each_once(list: Seq<Seq<char>>, flat: Seq<Seq<char>>) -> bool {
    &&& list.no_duplicates()
    &&& forall|t: Seq<char>| #[trigger] list.contains(t) <==> flat.contains(t)
    &&& forall|a: int, b: int, i: int, j: int|
        0 <= a < list.len() && 0 <= b < list.len() && #[trigger] first_at(flat, list[a], i)
            && #[trigger] first_at(flat, list[b], j) && i < j ==> a < b
}

proof fn lemma_once_more(list: Seq<Seq<char>>, flat: Seq<Seq<char>>, t: Seq<char>)
    requires
        holds_each_once(list, flat),
    ensures
        holds_each_once(
            if list.contains(t) {
                list
            } else {
                list.push(t)
            },
            flat.push(t),
        ),
{
    let all = flat.push(t);
    let out = if list.contains(t) {
        list
    } else {
        list.push(t)
    };
    assert forall|x: Seq<char>| #[trigger] out.contains(x) <==> all.contains(x) by {
        if flat.contains(x) {
            let k = flat.index_of(x);
            assert(all[k] == x);
        }
        assert(all[flat.len() as int] == t);
        if all.contains(x) && x != t {
            let k = all.index_of(x);
            assert(flat[k] == x);
        }
        if list.contains(x) {
            let k = list.index_of(x);
            assert(out[k] == x);
        }
        if !list.contains(t) {
            assert(out[list.len() as int] == t);
        }
        if out.contains(x) && x != t {
            let k = out.index_of(x);
            assert(list[k] == x);
        }
    }
    assert forall|a: int, b: int, i: int, j: int|
        0 <= a < out.len() && 0 <= b < out.len() && #[trigger] first_at(all, out[a], i)
            && #[trigger] first_at(all, out[b], j) && i < j implies a < b by {
        if a < list.len() && list.contains(list[a]) {
            assert(flat.contains(out[a]));
            let k = flat.index_of(out[a]);
            assert(all[k] == out[a]);
            assert(i <= k);
            assert(first_at(flat, list[a], i)) by {
                assert forall|m: int| 0 <= m < i implies #[trigger] flat[m] != list[a] by {
                    assert(all[m] == flat[m]);
                }
            }
            if b < list.len() {
                assert(list.contains(list[b]));
                assert(flat.contains(out[b]));
                let n = flat.index_of(out[b]);
                assert(all[n] == out[b]);
                assert(j <= n);
                assert(first_at(flat, list[b], j)) by {
                    assert forall|m: int| 0 <= m < j implies #[trigger] flat[m] != list[b] by {
                        assert(all[m] == flat[m]);
                    }
                }
            }
        } else {
            assert(out[a] == t);
            if i < flat.len() {
                assert(flat[i] == t);
                assert(flat.contains(t));
                assert(list.contains(t));
            }
        }
    }
}

proof fn lemma_with_new_once(have: Seq<Seq<char>>, flat: Seq<Seq<char>>, more: Seq<Seq<char>>)
    requires
        holds_each_once(have, flat),
    ensures
        holds_each_once(with_new(have, more), flat + more),
    decreases more.len(),
{
    if more.len() == 0 {
        assert(flat + more =~= flat);
    } else {
        let less = more.drop_last();
        lemma_with_new_once(have, flat, less);
        lemma_once_more(with_new(have, less), flat + less, more.last());
        assert((flat + less).push(more.last()) =~= flat + more);
    }
}

/// The hosts that may be reached are those that the groups name, each once, in the
/// order in which they are first named.
pub proof fn lemma_hosts_in_order(nets: Seq<(Seq<char>, NetworkOps)>)
    ensures
        holds_each_once(
            hosts(nets),
            nets.flat_map(|net: (Seq<char>, NetworkOps)| texts(net.1.allow_domain@)),
        ),
    decreases nets.len(),
{
    let f = |net: (Seq<char>, NetworkOps)| texts(net.1.allow_domain@);
    if nets.len() == 0 {
        assert(nets.map_values(f) =~= Seq::empty());
        assert(nets.flat_map(f) =~= Seq::empty());
    } else {
        let less = nets.drop_last();
        lemma_hosts_in_order(less);
        less.lemma_flat_map_push(f, nets.last());
        assert(less.push(nets.last()) =~= nets);
        lemma_with_new_once(hosts(less), less.flat_map(f), f(nets.last()));
    }
}

/// The hosts that are reached without the upstream proxy are those that the groups
/// name so, each once, in the order in which they are first named.
pub proof fn lemma_bypasses_in_order(nets: Seq<(Seq<char>, NetworkOps)>)
    ensures
        holds_each_once(
            bypasses(nets),
            nets.flat_map(|net: (Seq<char>, NetworkOps)| texts(net.1.upstream_bypass@)),
        ),
    decreases nets.len(),
{
    let f = |net: (Seq<char>, NetworkOps)| texts(net.1.upstream_bypass@);
    if nets.len() == 0 {
        assert(nets.map_values(f) =~= Seq::empty());
        assert(nets.flat_map(f) =~= Seq::empty());
    } else {
        let less = nets.drop_last();
        lemma_bypasses_in_order(less);
        less.lemma_flat_map_push(f, nets.last());
        assert(less.push(nets.last()) =~= nets);
        lemma_with_new_once(bypasses(less), less.flat_map(f), f(nets.last()));
    }
}

/// The proxy has one route for each that a group has, group by group.
pub proof fn lemma_all_routes(nets: Seq<(Seq<char>, NetworkOps)>)
    ensures
        routes(nets) == nets.flat_map(
            |net: (Seq<char>, NetworkOps)|
                net.1.custom_credentials.rows().map_values(
                    |row: (Seq<char>, PolicyRouteConfig)| route_for(row.1),
                ),
        ),
    decreases nets.len(),
{
    let f = |net: (Seq<char>, NetworkOps)|
        net.1.custom_credentials.rows().map_values(
            |row: (Seq<char>, PolicyRouteConfig)| route_for(row.1),
        );
    if nets.len() == 0 {
        assert(nets.map_values(f) =~= Seq::empty());
        assert(nets.flat_map(f) =~= Seq::empty());
    } else {
        let less = nets.drop_last();
        lemma_all_routes(less);
        less.lemma_flat_map_push(f, nets.last());
        assert(less.push(nets.last()) =~= nets);
    }
}

/// The upstream proxy is that of the first group that names one.
pub proof fn lemma_first_upstream(nets: Seq<(Seq<char>, NetworkOps)>)
    ensures
        match upstream(nets) {
            Some(first) => exists|i: int|
                0 <= i < nets.len() && (#[trigger] nets[i]).0 == first.0 && (
                nets[i].1.upstream_proxy matches Some(proxy) && proxy@ == first.1) && forall|j: int|
                    0 <= j < i ==> (#[trigger] nets[j]).1.upstream_proxy is None,
            None => forall|i: int|
                0 <= i < nets.len() ==> (#[trigger] nets[i]).1.upstream_proxy is None,
        },
    decreases nets.len(),
{
    if nets.len() > 0 {
        let less = nets.drop_last();
        lemma_first_upstream(less);
        assert(forall|i: int| 0 <= i < less.len() ==> less[i] == nets[i]);
        match upstream(less) {
            Some(first) => {
                let i = choose|i: int|
                    0 <= i < less.len() && (#[trigger] less[i]).0 == first.0 && (
                    less[i].1.upstream_proxy matches Some(proxy) && proxy@ == first.1) && forall|
                        j: int,
                    |
                        0 <= j < i ==> (#[trigger] less[j]).1.upstream_proxy is None;
                assert(nets[i].0 == first.0);
                assert forall|j: int| 0 <= j < i implies (
                #[trigger] nets[j]).1.upstream_proxy is None by {
                    assert(less[j] == nets[j]);
                }
            },
            None => {
                let i = nets.len() - 1;
                assert(nets[i] == nets.last());
                assert forall|j: int| 0 <= j < i implies (
                #[trigger] nets[j]).1.upstream_proxy is None by {
                    assert(less[j] == nets[j]);
                }
            },
        }
    }
}

/// What the proxy is told: who may be reached, the routes, the upstream proxy with its
/// exceptions where a group names one, and the smallest limit that a group sets. All
/// else is as for any proxy.
pub proof fn lemma_what_the_proxy_is_told(nets: Seq<(Seq<char>, NetworkOps)>)
    ensures
        proxy_for(nets).allowed_hosts == hosts(nets),
        proxy_for(nets).routes == routes(nets),
        (forall|i: int| 0 <= i < nets.len() ==> (#[trigger] nets[i]).1.upstream_proxy is None)
            <==> proxy_for(nets).external_proxy is None,
        proxy_for(nets).external_proxy matches Some(external) ==> external.bypass_hosts == bypasses(
            nets,
        ) && exists|i: int|
            0 <= i < nets.len() && (#[trigger] nets[i].1.upstream_proxy matches Some(proxy)
                && proxy@ == external.address) && forall|j: int|
                0 <= j < i ==> (#[trigger] nets[j]).1.upstream_proxy is None,
        (forall|i: int| 0 <= i < nets.len() ==> (#[trigger] nets[i]).1.max_connections is None)
            ==> proxy_for(nets).max_connections == 256,
        forall|i: int|
            0 <= i < nets.len() ==> ((#[trigger] nets[i]).1.max_connections matches Some(m)
                ==> proxy_for(nets).max_connections <= m),
        (exists|i: int| 0 <= i < nets.len() && (#[trigger] nets[i]).1.max_connections is Some)
            ==> exists|i: int|
            0 <= i < nets.len() && (#[trigger] nets[i]).1.max_connections == Some(
                proxy_for(nets).max_connections,
            ),
        proxy_for(nets).bind_addr == "127.0.0.1"@,
        proxy_for(nets).bind_port == 0,
        proxy_for(nets).direct_connect_ports.len() == 0,
{
    lemma_first_upstream(nets);
    lemma_limit_is_smallest(nets);
    if let Some(first) = upstream(nets) {
        let i = choose|i: int|
            0 <= i < nets.len() && (#[trigger] nets[i]).0 == first.0 && (
            nets[i].1.upstream_proxy matches Some(proxy) && proxy@ == first.1) && forall|j: int|
                0 <= j < i ==> (#[trigger] nets[j]).1.upstream_proxy is None;
        assert(nets[i].1.upstream_proxy is Some);
    }
}

/// No proxy is given exactly where no group names a host, a route, an upstream proxy,
/// an exception from it, or a limit.
pub proof fn lemma_no_proxy(nets: Seq<(Seq<char>, NetworkOps)>)
    ensures
        needs_no_proxy(nets) <==> forall|i: int|
            0 <= i < nets.len() ==> {
                let network = (#[trigger] nets[i]).1;
                &&& network.allow_domain@.len() == 0
                &&& network.custom_credentials.rows().len() == 0
                &&& network.upstream_proxy is None
                &&& network.upstream_bypass@.len() == 0
                &&& network.max_connections is None
            },
{
    lemma_when_no_proxy(nets);
}

/// Groups give a proxy, or ask for none, exactly where the policy has all of them, none
/// that has a say asks for credentials by name, and no two of those name different
/// upstream proxies.
pub proof fn lemma_when_groups_agree(policy: RustPolicy, names: Seq<Seq<char>>, platform: Platform)
    ensures
        proxy_error(policy, names, platform) is None <==> {
            let nets = networks(policy, names, platform);
            &&& forall|i: int|
                0 <= i < names.len() ==> policy.groups@.contains_key(#[trigger] names[i])
            &&& forall|i: int| 0 <= i < nets.len() ==> (#[trigger] nets[i]).1.credentials@.len() == 0
            &&& forall|i: int, j: int|
                0 <= i < nets.len() && 0 <= j < nets.len() ==> ((
                #[trigger] nets[i]).1.upstream_proxy matches Some(a) ==> ((
                #[trigger] nets[j]).1.upstream_proxy matches Some(b) ==> a@ == b@))
        },
    decreases names.len(),
{
    if names.len() > 0 {
        let less = names.drop_last();
        let name = names.last();
        let before = networks(policy, less, platform);
        let nets = networks(policy, names, platform);
        lemma_when_groups_agree(policy, less, platform);
        lemma_first_upstream(before);
        assert(forall|i: int| 0 <= i < less.len() ==> less[i] == names[i]);
        assert(names[names.len() - 1] == name);
        assert(forall|i: int| 0 <= i < before.len() ==> before[i] == nets[i]);
        if proxy_error(policy, names, platform) is None {
            lemma_one_upstream(policy, names, platform);
            assert forall|i: int| 0 <= i < names.len() implies policy.groups@.contains_key(
                #[trigger] names[i],
            ) by {
                if i < less.len() {
                    assert(policy.groups@.contains_key(less[i]));
                }
            }
        } else if proxy_error(policy, less, platform) is Some {
            if forall|i: int| 0 <= i < names.len() ==> policy.groups@.contains_key(
                #[trigger] names[i],
            ) {
                assert forall|i: int| 0 <= i < less.len() implies policy.groups@.contains_key(
                    #[trigger] less[i],
                ) by {
                    assert(policy.groups@.contains_key(names[i]));
                }
            }
        } else if policy.groups@.contains_key(name) {
            assert(nets.last() == nets[nets.len() - 1]);
        }
    }
}

/// Whether a group of the policy has a say on the platform: it is for it and speaks of
/// the network.
pub open spec fn has_a_say(policy: RustPolicy, name: Seq<char>, platform: Platform) -> bool {
    &&& policy.groups@.contains_key(name)
    &&& policy.groups@[name].platform matches Some(p) ==> p@ == match platform {
        Platform::MacOs => "macos"@,
        Platform::Linux => "linux"@,
        Platform::Other => "unknown"@,
    }
    &&& policy.groups@[name].network is Some
}

/// The error for groups is that of the first one at fault: it is not in the policy, it
/// asks for credentials by name, or it names another upstream proxy than the first one
/// that was named; the error tells both groups and both proxies.
pub proof fn lemma_first_at_fault(
    policy: RustPolicy,
    names: Seq<Seq<char>>,
    n: int,
    platform: Platform,
)
    requires
        0 <= n < names.len(),
        proxy_error(policy, names.take(n), platform) is None,
    ensures
        !policy.groups@.contains_key(names[n]) ==> proxy_error(policy, names, platform) == Some(
            PolicyErrorView::UnknownGroup(names[n]),
        ),
        policy.groups@.contains_key(names[n]) && !has_a_say(policy, names[n], platform)
            ==> proxy_error(policy, names.take(n + 1), platform) is None,
        has_a_say(policy, names[n], platform) ==> {
            let network = policy.groups@[names[n]].network->0;
            let before = networks(policy, names.take(n), platform);
            &&& network.credentials@.len() > 0 ==> proxy_error(policy, names, platform) == Some(
                PolicyErrorView::NamedCredentials,
            )
            &&& network.credentials@.len() == 0 && network.upstream_proxy is None ==> proxy_error(
                policy,
                names.take(n + 1),
                platform,
            ) is None
            &&& network.credentials@.len() == 0 ==> (network.upstream_proxy matches Some(proxy)
                ==> forall|i: int|
                0 <= i < before.len() && (forall|j: int|
                    0 <= j < i ==> (#[trigger] before[j]).1.upstream_proxy is None) ==> ((
                #[trigger] before[i]).1.upstream_proxy matches Some(first) ==> if first@ == proxy@ {
                    proxy_error(policy, names.take(n + 1), platform) is None
                } else {
                    proxy_error(policy, names, platform) == Some(
                        PolicyErrorView::UpstreamConflict {
                            first_group: before[i].0,
                            first_proxy: first@,
                            group: names[n],
                            proxy: proxy@,
                        },
                    )
                }))
        },
{
    let part = names.take(n + 1);
    assert(part.drop_last() =~= names.take(n));
    assert(part.last() == names[n]);
    if proxy_error(policy, part, platform) is Some {
        lemma_first_error_stands(policy, names, n + 1, platform);
    }
    let before = networks(policy, names.take(n), platform);
    lemma_first_upstream(before);
    if has_a_say(policy, names[n], platform) {
        let network = policy.groups@[names[n]].network->0;
        assert(network_of(policy, names[n], platform) == Some(network));
        if let Some(proxy) = network.upstream_proxy {
            assert forall|i: int|
                0 <= i < before.len() && (forall|j: int|
                    0 <= j < i ==> (#[trigger] before[j]).1.upstream_proxy is None) && (
                #[trigger] before[i]).1.upstream_proxy is Some implies upstream(before) == Some(
                (before[i].0, before[i].1.upstream_proxy->0@),
            ) by {
                let first = upstream(before)->0;
                let k = choose|k: int|
                    0 <= k < before.len() && (#[trigger] before[k]).0 == first.0 && (
                    before[k].1.upstream_proxy matches Some(proxy) && proxy@ == first.1) && forall|
                        j: int,
                    |
                        0 <= j < k ==> (#[trigger] before[j]).1.upstream_proxy is None;
                if k < i {
                    assert(before[k].1.upstream_proxy is None);
                }
                if i < k {
                    assert(before[i].1.upstream_proxy is None);
                }
            }
        }
    }
}

} // verus!
