use nono_guard::host::Platform;
use nono_guard::policy::{
    Group, NetworkOps, Policy, PolicyEndpointRule, PolicyInjectMode, PolicyRouteConfig, RustPolicy,
};
use nono_guard::proxy::{resolve_proxy_config_impl, EndpointRule, InjectMode, RouteConfig};
use nono_guard::table::Table;

fn s(t: &str) -> String {
    String::from(t)
}

fn strings(v: &[&str]) -> Vec<String> {
    v.iter().map(|t| s(t)).collect()
}

fn net() -> NetworkOps {
    NetworkOps {
        block: false,
        allow_domain: Vec::new(),
        credentials: Vec::new(),
        custom_credentials: Table::new(),
        upstream_proxy: None,
        upstream_bypass: Vec::new(),
        max_connections: None,
    }
}

fn policy(groups: Vec<(&str, Option<&str>, Option<NetworkOps>)>) -> RustPolicy {
    let mut table: Table<Group> = Table::new();
    for (name, platform, network) in groups {
        let group = Group {
            description: s(name),
            platform: platform.map(s),
            required: false,
            allow: None,
            deny: None,
            symlink_pairs: None,
            network,
        };
        table.insert(s(name), group);
    }
    RustPolicy { groups: table }
}

fn route(prefix: &str, mode: PolicyInjectMode) -> PolicyRouteConfig {
    PolicyRouteConfig {
        prefix: s(prefix),
        upstream: s("https://api.example.com"),
        credential_key: Some(s("key")),
        inject_mode: mode,
        inject_header: s("Authorization"),
        credential_format: s("Bearer {}"),
        path_pattern: Some(s("/bot{}/")),
        path_replacement: None,
        query_param_name: Some(s("q")),
        env_var: Some(s("API_KEY")),
        endpoint_rules: vec![PolicyEndpointRule { method: s("GET"), path: s("/v1/*") }],
        tls_ca: Some(s("/ca.pem")),
        tls_client_cert: None,
        tls_client_key: Some(s("/key.pem")),
    }
}

#[test]
fn groups_without_network_give_no_proxy() {
    let p = Policy { inner: policy(vec![("a", None, None), ("b", None, Some(net()))]) };
    let r = p.resolve_proxy_config(strings(&["a", "b"]), Platform::Linux).unwrap();
    assert!(r.is_none());
    assert!(p.resolve_proxy_config(Vec::new(), Platform::Linux).unwrap().is_none());
}

#[test]
fn hosts_are_gathered_once_and_defaults_stand() {
    let mut a = net();
    a.allow_domain = strings(&["x.com", "y.com", "x.com"]);
    let mut b = net();
    b.allow_domain = strings(&["z.com", "y.com"]);
    let p = policy(vec![("a", None, Some(a)), ("b", None, Some(b))]);
    let c = resolve_proxy_config_impl(&p, &strings(&["a", "b", "a"]), Platform::Linux)
        .unwrap()
        .unwrap();
    assert_eq!(c.allowed_hosts, strings(&["x.com", "y.com", "z.com"]));
    assert_eq!(c.bind_addr, "127.0.0.1");
    assert_eq!(c.bind_port, 0);
    assert!(c.routes.is_empty());
    assert!(c.external_proxy.is_none());
    assert!(c.direct_connect_ports.is_empty());
    assert_eq!(c.max_connections, 256);
}

#[test]
fn the_smallest_limit_counts() {
    let limit = |n: usize| {
        let mut v = net();
        v.max_connections = Some(n);
        Some(v)
    };
    let p = policy(vec![("a", None, limit(50)), ("b", None, limit(7)), ("c", None, limit(900))]);
    let most = |names: &[&str]| {
        let c = resolve_proxy_config_impl(&p, &strings(names), Platform::Linux);
        c.unwrap().unwrap().max_connections
    };
    assert_eq!(most(&["a", "b", "c"]), 7);
    assert_eq!(most(&["c", "a"]), 50);
    assert_eq!(most(&["c"]), 900);
}

#[test]
fn one_upstream_proxy_is_handed_on_to() {
    let up = |proxy: Option<&str>, bypass: &[&str]| {
        let mut v = net();
        v.upstream_proxy = proxy.map(s);
        v.upstream_bypass = strings(bypass);
        Some(v)
    };
    let p = policy(vec![
        ("a", None, up(None, &["local"])),
        ("b", None, up(Some("squid:3128"), &["intra", "local"])),
        ("c", None, up(Some("squid:3128"), &[])),
        ("d", None, up(Some("other:1"), &[])),
        ("mac", Some("macos"), up(Some("mac:1"), &[])),
    ]);
    let c = resolve_proxy_config_impl(&p, &strings(&["a", "b", "mac", "c"]), Platform::Linux)
        .unwrap()
        .unwrap();
    let external = c.external_proxy.unwrap();
    assert_eq!(external.address, "squid:3128");
    assert_eq!(external.bypass_hosts, strings(&["local", "intra"]));
    let e = resolve_proxy_config_impl(&p, &strings(&["a", "b", "d"]), Platform::Linux).unwrap_err();
    assert_eq!(
        e.message(),
        "Conflicting upstream_proxy values in policy groups: 'b' sets 'squid:3128', but 'd' sets 'other:1'"
    );
    let c = resolve_proxy_config_impl(&p, &strings(&["a"]), Platform::Linux).unwrap().unwrap();
    assert!(c.external_proxy.is_none());
}

#[test]
fn named_credentials_and_unknown_groups_are_errors() {
    let mut a = net();
    a.credentials = strings(&["openai"]);
    let p = policy(vec![("a", None, Some(a)), ("mac", Some("macos"), None)]);
    let message = |names: &[&str], platform: Platform| {
        resolve_proxy_config_impl(&p, &strings(names), platform).unwrap_err().message()
    };
    assert_eq!(
        message(&["a", "x"], Platform::Linux),
        "network.credentials requires built-in network-policy resolution, which nono-py does not expose yet"
    );
    assert_eq!(message(&["x", "a"], Platform::Linux), "Unknown policy group: 'x'");
    assert!(resolve_proxy_config_impl(&p, &strings(&["mac"]), Platform::Linux).unwrap().is_none());
}

#[test]
fn routes_are_taken_over_unchanged() {
    let mut a = net();
    a.custom_credentials.insert(s("one"), route("one", PolicyInjectMode::UrlPath));
    a.custom_credentials.insert(s("two"), route("two", PolicyInjectMode::BasicAuth));
    let mut b = net();
    b.custom_credentials.insert(s("three"), route("three", PolicyInjectMode::QueryParam));
    let p = policy(vec![("a", None, Some(a)), ("b", None, Some(b))]);
    let c = resolve_proxy_config_impl(&p, &strings(&["b", "a"]), Platform::Linux)
        .unwrap()
        .unwrap();
    let prefixes: Vec<&str> = c.routes.iter().map(|r| r.prefix.as_str()).collect();
    assert_eq!(prefixes, vec!["three", "one", "two"]);
    let r = &c.routes[1];
    assert_eq!(r.upstream, "https://api.example.com");
    assert_eq!(r.credential_key, Some(s("key")));
    assert_eq!(r.inject_mode, InjectMode::UrlPath);
    assert_eq!(r.inject_header, "Authorization");
    assert_eq!(r.credential_format, "Bearer {}");
    assert_eq!(r.path_pattern, Some(s("/bot{}/")));
    assert_eq!(r.path_replacement, None);
    assert_eq!(r.query_param_name, Some(s("q")));
    assert_eq!(r.env_var, Some(s("API_KEY")));
    assert_eq!(r.endpoint_rules.len(), 1);
    assert_eq!(r.endpoint_rules[0].method, "GET");
    assert_eq!(r.endpoint_rules[0].path, "/v1/*");
    assert_eq!(r.tls_ca, Some(s("/ca.pem")));
    assert_eq!(r.tls_client_cert, None);
    assert_eq!(r.tls_client_key, Some(s("/key.pem")));
}

#[test]
fn conversions_from_policy_types() {
    assert_eq!(InjectMode::from(PolicyInjectMode::Header), InjectMode::Header);
    assert_eq!(InjectMode::from(PolicyInjectMode::UrlPath), InjectMode::UrlPath);
    assert_eq!(InjectMode::from(PolicyInjectMode::QueryParam), InjectMode::QueryParam);
    assert_eq!(InjectMode::from(PolicyInjectMode::BasicAuth), InjectMode::BasicAuth);
    let rule = EndpointRule::from(PolicyEndpointRule { method: s("PUT"), path: s("/x") });
    assert_eq!((rule.method, rule.path), (s("PUT"), s("/x")));
    let r = RouteConfig::from(route("p", PolicyInjectMode::Header));
    assert_eq!(r.prefix, "p");
    assert_eq!(r.inject_mode, InjectMode::Header);
    assert_eq!(r.endpoint_rules[0].method, "GET");
}
