use nono_guard::caps::{AccessMode, Capabilities, CapabilitySource, FsCapability};
use nono_guard::error::{ErrorKind, PolicyError};
use nono_guard::host::{expand_path, Canonical, Grant, Host, PathFact, Platform};
use nono_guard::overlap::validate_deny_overlaps;
use nono_guard::policy::{
    default_credential_format, default_inject_header, load_policy, AllowOps, DenyOps, Group,
    NetworkOps, Policy, PolicyInjectMode, RustPolicy,
};
use nono_guard::resolve::{
    add_deny_access_rules, resolve_deny_paths_for_groups, resolve_groups_impl,
    resolve_parent_symlinks,
};
use nono_guard::seatbelt::{apply_unlink_overrides, escape_seatbelt_path, rule_answer};
use nono_guard::table::Table;
use std::path::PathBuf;

fn s(t: &str) -> String {
    String::from(t)
}

fn b(t: &str) -> Vec<u8> {
    t.as_bytes().to_vec()
}

fn all_bytes(v: &[&str]) -> Vec<Vec<u8>> {
    v.iter().map(|t| b(t)).collect()
}

/// A path that is not UTF-8, displayed as `/n` and a replacement character.
fn odd_path() -> PathBuf {
    let mut name = PathBuf::new().into_os_string();
    name.clone_from(&serde_json::from_str("{\"Unix\":[47,110,255]}").unwrap());
    PathBuf::from(name)
}

fn strings(v: &[&str]) -> Vec<String> {
    v.iter().map(|t| s(t)).collect()
}

fn group(description: &str) -> Group {
    Group {
        description: s(description),
        platform: None,
        required: false,
        allow: None,
        deny: None,
        symlink_pairs: None,
        network: None,
    }
}

fn network(block: bool) -> NetworkOps {
    NetworkOps {
        block,
        allow_domain: Vec::new(),
        credentials: Vec::new(),
        custom_credentials: Table::new(),
        upstream_proxy: None,
        upstream_bypass: Vec::new(),
        max_connections: None,
    }
}

fn policy(groups: Vec<(&str, Group)>) -> RustPolicy {
    let mut table: Table<Group> = Table::new();
    for (name, group) in groups {
        table.insert(s(name), group);
    }
    RustPolicy { groups: table }
}

fn host(platform: Platform) -> Host {
    Host::new(platform, Some(s("/home/me")), Some(s("/tmp")))
}

fn dir(path: &str) -> PathFact {
    PathFact {
        exists: true,
        is_dir: true,
        is_file: false,
        canonical: Canonical::Resolved(b(path)),
        grant: Grant::Path(PathBuf::from(path)),
    }
}

fn file(path: &str) -> PathFact {
    PathFact {
        exists: true,
        is_dir: false,
        is_file: true,
        canonical: Canonical::Resolved(b(path)),
        grant: Grant::Path(PathBuf::from(path)),
    }
}

fn absent() -> PathFact {
    PathFact {
        exists: false,
        is_dir: false,
        is_file: false,
        canonical: Canonical::NotFound(s("No such file or directory")),
        grant: Grant::Refused,
    }
}

fn shown(path: &PathBuf) -> String {
    path.display().to_string()
}

fn rules(caps: &Capabilities) -> Vec<String> {
    caps.inner.platform_rules().to_vec()
}

fn user_cap(path: &str, access: AccessMode, is_file: bool) -> FsCapability {
    FsCapability {
        original: PathBuf::from(path),
        resolved: PathBuf::from(path),
        access,
        is_file,
        source: CapabilitySource::User,
    }
}

#[test]
fn group_names_are_sorted() {
    let p = Policy { inner: policy(vec![("b", group("B")), ("a", group("A")), ("c", group("C"))]) };
    assert_eq!(p.group_names(), strings(&["a", "b", "c"]));
    assert_eq!(p.group_description("b"), Some(s("B")));
    assert_eq!(p.group_description("x"), None);
    assert_eq!(p.__repr__(), "Policy(groups=3)");
}

#[test]
fn a_policy_is_what_was_parsed() {
    let p = load_policy(Ok(policy(vec![("a", group("A"))])));
    assert!(matches!(&p, Ok(p) if p.group_names() == strings(&["a"])));
    let e = load_policy(Err(s("expected value at line 1 column 1")));
    match e {
        Err(e) => {
            assert_eq!(
                e.message(),
                "Failed to parse policy.json: expected value at line 1 column 1"
            );
            assert_eq!(e.kind(), ErrorKind::ConfigParse);
        }
        Ok(_) => panic!("no error"),
    }
}

#[test]
fn required_groups_cannot_be_left_out() {
    let mut a = group("A");
    a.required = true;
    let mut b = group("B");
    b.required = true;
    let p = Policy { inner: policy(vec![("a", a), ("b", b), ("c", group("C"))]) };
    assert!(p.validate_group_exclusions(strings(&["c", "unknown"])).is_ok());
    assert!(p.validate_group_exclusions(Vec::new()).is_ok());
    match p.validate_group_exclusions(strings(&["b", "c", "a"])) {
        Err(e) => assert_eq!(e.message(), "Cannot exclude required groups: 'b', 'a'"),
        Ok(_) => panic!("no error"),
    }
}

#[test]
fn defaults_of_routes() {
    assert_eq!(default_inject_header(), "Authorization");
    assert_eq!(default_credential_format(), "Bearer {}");
    assert_eq!(PolicyInjectMode::default(), PolicyInjectMode::Header);
}

#[test]
fn paths_are_expanded() {
    let h = host(Platform::Linux);
    let expanded = |p: &str| expand_path(p, &h).unwrap();
    assert_eq!(expanded("~"), "/home/me");
    assert_eq!(expanded("~/x"), "/home/me/x");
    assert_eq!(expanded("~/"), "/home/me/");
    assert_eq!(expanded("$HOME"), "/home/me");
    assert_eq!(expanded("$HOME/x/y"), "/home/me/x/y");
    assert_eq!(expanded("$TMPDIR"), "/tmp");
    assert_eq!(expanded("$TMPDIR/z"), "/tmp/z");
    assert_eq!(expanded("~x"), "~x");
    assert_eq!(expanded("$HOMEX"), "$HOMEX");
    assert_eq!(expanded("/etc"), "/etc");
    assert_eq!(expanded(""), "");
}

#[test]
fn variables_must_be_set_and_absolute() {
    let h = Host::new(Platform::Linux, None, Some(s("tmp")));
    assert_eq!(expand_path("~/x", &h).unwrap_err().message(), "HOME is not set");
    assert_eq!(expand_path("$HOME", &h).unwrap_err().message(), "HOME is not set");
    assert_eq!(
        expand_path("$TMPDIR/x", &h).unwrap_err().message(),
        "TMPDIR must be an absolute path, got: tmp"
    );
    assert_eq!(expand_path("/x", &h).unwrap(), "/x");
}

#[test]
fn seatbelt_paths_are_escaped() {
    assert_eq!(escape_seatbelt_path("/a b").unwrap(), "/a b");
    assert_eq!(escape_seatbelt_path("/a\"b\\c").unwrap(), "/a\\\"b\\\\c");
    let e = escape_seatbelt_path("/a\nb\"").unwrap_err();
    assert_eq!(e.message(), format!("Path contains control character: {:?}", "/a\nb\""));
    assert!(escape_seatbelt_path("/a\u{7f}").is_err());
    assert!(escape_seatbelt_path("/a\u{85}").is_err());
    assert!(escape_seatbelt_path("/a\u{a0}").is_ok());
    assert!(escape_seatbelt_path("/a\0").is_err());
}

fn allowing(read: &[&str], write: &[&str], readwrite: &[&str]) -> Group {
    let mut g = group("allow");
    g.allow = Some(AllowOps {
        read: strings(read),
        write: strings(write),
        readwrite: strings(readwrite),
    });
    g
}

fn denying(access: &[&str], unlink: bool, overrides: bool) -> Group {
    let mut g = group("deny");
    g.deny = Some(DenyOps {
        access: strings(access),
        unlink,
        unlink_override_for_user_writable: overrides,
    });
    g
}

#[test]
fn groups_grant_paths_that_exist() {
    let p = policy(vec![("base", allowing(&["/usr", "/absent", "/refused"], &["~/log"], &["/work"]))]);
    let mut h = host(Platform::Linux);
    h.learn(b("/usr"), dir("/usr"));
    h.learn(b("/absent"), absent());
    let mut refused = dir("/refused");
    refused.grant = Grant::Refused;
    h.learn(b("/refused"), refused);
    h.learn(b("/home/me/log"), file("/var/log/me"));
    h.learn(b("/work"), dir("/mnt/work"));
    let mut caps = Capabilities::new();
    caps.add_fs(user_cap("/mine", AccessMode::Read, false));
    let resolved = resolve_groups_impl(&p, &strings(&["base"]), &mut caps, &h).unwrap();
    assert_eq!(resolved.names(), strings(&["base"]));
    assert!(resolved.deny_paths().is_empty());
    assert!(!resolved.needs_unlink_overrides());
    let fs = caps.fs_capabilities();
    let seen: Vec<(String, String, AccessMode, bool)> = fs
        .iter()
        .map(|c| (shown(&c.original), shown(&c.resolved), c.access, c.is_file))
        .collect();
    assert_eq!(
        seen,
        vec![
            (s("/mine"), s("/mine"), AccessMode::Read, false),
            (s("/usr"), s("/usr"), AccessMode::Read, false),
            (s("/home/me/log"), s("/var/log/me"), AccessMode::Write, true),
            (s("/work"), s("/mnt/work"), AccessMode::ReadWrite, false),
        ]
    );
    assert_eq!(fs[0].source.label(), "user");
    assert_eq!(fs[1].source.label(), "group:base");
    assert!(!fs[1].source.is_user_intent());
    assert_eq!(
        resolved.__repr__(),
        "ResolvedPolicy(names=1, deny_paths=0, needs_unlink_overrides=false)"
    );
}

#[test]
fn an_unknown_path_is_asked_for() {
    let p = policy(vec![("base", allowing(&["/usr", "/lib"], &[], &[]))]);
    let mut h = host(Platform::Linux);
    let names = strings(&["base"]);
    let ask = |h: &Host| resolve_groups_impl(&p, &names, &mut Capabilities::new(), h);
    let e = ask(&h).unwrap_err();
    assert_eq!(e.kind(), ErrorKind::Probe);
    assert!(matches!(&e, PolicyError::ProbeNeeded(path) if path == b"/usr"));
    h.learn(b("/usr"), dir("/usr"));
    assert!(matches!(ask(&h).unwrap_err(), PolicyError::ProbeNeeded(path) if path == b"/lib"));
    h.learn(b("/lib"), absent());
    assert!(ask(&h).is_ok());
    h.learn(b("/else"), dir("/else"));
    assert!(ask(&h).is_ok());
}

#[test]
fn an_unknown_group_ends_the_resolution() {
    let p = policy(vec![("a", allowing(&["/usr"], &[], &[]))]);
    let mut h = host(Platform::Linux);
    h.learn(b("/usr"), dir("/usr"));
    let mut caps = Capabilities::new();
    let e = resolve_groups_impl(&p, &strings(&["a", "x", "a"]), &mut caps, &h).unwrap_err();
    assert_eq!(e.message(), "Unknown policy group: 'x'");
    assert_eq!(caps.fs_capabilities().len(), 1);
}

#[test]
fn groups_for_other_platforms_are_passed_over() {
    let mut mac = allowing(&["/mac"], &[], &[]);
    mac.platform = Some(s("macos"));
    mac.network = Some(network(true));
    let mut linux = denying(&[], false, true);
    linux.platform = Some(s("linux"));
    let p = policy(vec![("mac", mac), ("linux", linux), ("all", group("all"))]);
    let names = strings(&["mac", "linux", "all", "linux"]);
    let mut caps = Capabilities::new();
    let r = resolve_groups_impl(&p, &names, &mut caps, &host(Platform::Linux)).unwrap();
    assert_eq!(r.names(), strings(&["linux", "all", "linux"]));
    assert!(r.needs_unlink_overrides());
    assert!(!caps.inner.is_network_blocked());
    let mut h = host(Platform::MacOs);
    h.learn(b("/mac"), dir("/mac"));
    let r = resolve_groups_impl(&p, &names, &mut caps, &h).unwrap();
    assert_eq!(r.names(), strings(&["mac", "all"]));
    assert!(!r.needs_unlink_overrides());
    assert!(caps.inner.is_network_blocked());
    let r = resolve_groups_impl(&p, &names, &mut caps, &host(Platform::Other)).unwrap();
    assert_eq!(r.names(), strings(&["all"]));
    assert!(caps.inner.is_network_blocked());
}

#[test]
fn denied_paths_are_listed_with_what_lies_behind_links() {
    let p = policy(vec![("d", denying(&["~/.ssh", "/etc/keys", "/gone/deep/x"], true, false))]);
    let mut h = host(Platform::Linux);
    h.learn(b("/home/me/.ssh"), dir("/home/me/.ssh"));
    h.learn(b("/etc/keys"), dir("/private/etc/keys"));
    h.learn(b("/gone/deep/x"), absent());
    h.learn(b("/gone/deep"), absent());
    h.learn(b("/gone"), dir("/real"));
    let names = strings(&["d"]);
    let mut caps = Capabilities::new();
    let r = resolve_groups_impl(&p, &names, &mut caps, &h).unwrap();
    let expected = strings(&[
        "/home/me/.ssh",
        "/etc/keys",
        "/private/etc/keys",
        "/gone/deep/x",
        "/real/deep/x",
    ]);
    assert_eq!(r.deny_paths(), expected);
    assert!(rules(&caps).is_empty());
    let found = resolve_deny_paths_for_groups(&p, &names, &h).unwrap();
    assert_eq!(found, expected.iter().map(|t| b(t)).collect::<Vec<_>>());
    let policy = Policy { inner: p };
    assert_eq!(policy.resolve_deny_paths(names, &h).unwrap(), expected);
}

#[test]
fn a_missing_path_without_links_above_it_is_listed_once() {
    let mut h = host(Platform::Linux);
    h.learn(b("/a/b"), absent());
    h.learn(b("/a"), dir("/a"));
    assert_eq!(resolve_parent_symlinks(b"/a/b", &h).unwrap(), None);
    h.learn(b("/c"), absent());
    h.learn(b("/"), dir("/"));
    assert_eq!(resolve_parent_symlinks(b"/c", &h).unwrap(), None);
}

#[test]
fn parents_that_cannot_be_resolved() {
    let mut h = host(Platform::Linux);
    h.learn(b("x"), absent());
    h.learn(b(""), absent());
    assert_eq!(
        resolve_parent_symlinks(b"x", &h).unwrap_err().message(),
        "cannot resolve parent symlinks for x"
    );
    h.learn(b("/a/.."), absent());
    assert_eq!(
        resolve_parent_symlinks(b"/a/..", &h).unwrap_err().message(),
        "cannot resolve parent symlinks for /a/.."
    );
    h.learn(b("/p/q"), absent());
    let mut odd = dir("/p");
    odd.canonical = Canonical::Failed(s("Permission denied (os error 13)"));
    h.learn(b("/p"), odd);
    assert_eq!(
        resolve_parent_symlinks(b"/p/q", &h).unwrap_err().message(),
        "canonicalize /p: Permission denied (os error 13)"
    );
}

#[test]
fn a_denied_path_that_cannot_be_resolved_is_an_error() {
    let p = policy(vec![("d", denying(&["/loop"], false, false))]);
    let mut h = host(Platform::Linux);
    let mut odd = absent();
    odd.canonical = Canonical::Failed(s("Too many levels"));
    h.learn(b("/loop"), odd);
    let e = resolve_deny_paths_for_groups(&p, &strings(&["d"]), &h).unwrap_err();
    assert_eq!(e.kind(), ErrorKind::PathCanonicalization);
    assert_eq!(e.message(), "Failed to canonicalize path /loop: Too many levels");
}

#[test]
fn what_was_noted_as_denied_stays_after_an_error() {
    let mut caps = Capabilities::new();
    let mut noted = all_bytes(&["/first"]);
    let mut h = host(Platform::MacOs);
    h.learn(b("/a\tb"), dir("/c\td"));
    h.learn(b("/c\td"), dir("/c\td"));
    let mut odd = absent();
    odd.canonical = Canonical::Failed(s("Too many levels"));
    h.learn(b("/loop"), odd);
    assert!(add_deny_access_rules("/a\tb", &mut caps, &mut noted, &h).is_err());
    assert_eq!(noted, all_bytes(&["/first", "/a\tb", "/c\td"]));
    assert!(add_deny_access_rules("/loop", &mut caps, &mut noted, &h).is_err());
    assert_eq!(noted, all_bytes(&["/first", "/a\tb", "/c\td", "/loop"]));
    let h = Host::new(Platform::MacOs, None, None);
    assert!(add_deny_access_rules("~/x", &mut caps, &mut noted, &h).is_err());
    assert_eq!(noted.len(), 4);
    assert!(rules(&caps).is_empty());
}

#[test]
fn a_path_that_leads_to_bytes_is_granted() {
    let p = policy(vec![("g", allowing(&["/link"], &[], &[]))]);
    let mut h = host(Platform::Linux);
    let mut fact = dir("/link");
    fact.grant = Grant::Path(odd_path());
    h.learn(b("/link"), fact);
    let mut caps = Capabilities::new();
    assert!(resolve_groups_impl(&p, &strings(&["g"]), &mut caps, &h).is_ok());
    let inner = caps.inner.fs_capabilities();
    assert_eq!(inner.len(), 1);
    assert_eq!(inner[0].original, PathBuf::from("/link"));
    assert_eq!(inner[0].resolved, odd_path());
    assert_eq!(caps.fs_capabilities()[0].resolved, odd_path());
}

#[test]
fn a_path_that_leads_to_bytes_is_denied() {
    for platform in [Platform::Linux, Platform::Other, Platform::MacOs] {
        let mut h = host(platform);
        let mut fact = dir("/link");
        fact.canonical = Canonical::Resolved(b"/n\xff".to_vec());
        h.learn(b("/link"), fact);
        h.learn(b("/link/x/y"), absent());
        h.learn(b("/link/x"), absent());
        let below = Some(b"/n\xff/x/y".to_vec());
        assert_eq!(resolve_parent_symlinks(b"/link/x/y", &h).unwrap(), below);
        let mut caps = Capabilities::new();
        let mut noted: Vec<Vec<u8>> = Vec::new();
        let denied = add_deny_access_rules("/link", &mut caps, &mut noted, &h);
        assert_eq!(noted, vec![b("/link"), b"/n\xff".to_vec()]);
        if platform == Platform::MacOs {
            let e = denied.unwrap_err();
            assert_eq!(e.kind(), ErrorKind::ConfigParse);
            assert_eq!(e.message(), "Path contains non-UTF-8 bytes: /n\u{fffd}");
            assert_eq!(rules(&caps).len(), 4);
        } else {
            assert!(denied.is_ok());
            assert!(rules(&caps).is_empty());
        }
        noted.clear();
        let deeper = add_deny_access_rules("/link/x/y", &mut Capabilities::new(), &mut noted, &h);
        assert_eq!(deeper.is_ok(), platform != Platform::MacOs);
        assert_eq!(noted, vec![b("/link/x/y"), b"/n\xff/x/y".to_vec()]);
    }
}

#[test]
fn denied_bytes_are_displayed() {
    let p = policy(vec![("d", denying(&["/link"], false, false))]);
    let mut h = host(Platform::Linux);
    let mut fact = dir("/link");
    fact.canonical = Canonical::Resolved(b"/n\xff".to_vec());
    h.learn(b("/link"), fact);
    let mut caps = Capabilities::new();
    let r = resolve_groups_impl(&p, &strings(&["d"]), &mut caps, &h).unwrap();
    assert_eq!(r.deny_paths(), strings(&["/link", "/n\u{fffd}"]));
    let shown = Policy { inner: p }.resolve_deny_paths(strings(&["d"]), &h).unwrap();
    assert_eq!(shown, strings(&["/link", "/n\u{fffd}"]));
}

#[test]
fn the_rest_of_a_set_is_left_as_it_is() {
    let p = policy(vec![("g", allowing(&["/usr"], &[], &[])), ("d", denying(&["/s"], true, true))]);
    for platform in [Platform::Linux, Platform::MacOs] {
        let mut h = host(platform);
        h.learn(b("/usr"), dir("/usr"));
        h.learn(b("/s"), dir("/s"));
        let mut caps = Capabilities::new();
        let mode = nono::NetworkMode::ProxyOnly { port: 8080, bind_ports: vec![1, 2] };
        caps.inner.set_network_mode_mut(mode.clone());
        caps.inner.add_blocked_command(s("rm"));
        assert!(resolve_groups_impl(&p, &strings(&["g", "d", "x"]), &mut caps, &h).is_err());
        assert_eq!(*caps.inner.network_mode(), mode);
        assert_eq!(caps.inner.blocked_commands(), [s("rm")]);
        caps.set_network_blocked(true);
        assert_eq!(*caps.inner.network_mode(), nono::NetworkMode::Blocked);
    }
}

#[test]
fn macos_denies_by_rules() {
    let mut g = denying(&["/secret", "/etc/key"], true, true);
    let mut links: Table<String> = Table::new();
    links.insert(s("~/link"), s("/target"));
    g.symlink_pairs = Some(links);
    let p = Policy { inner: policy(vec![("d", g)]) };
    let mut h = host(Platform::MacOs);
    h.learn(b("/secret"), dir("/secret"));
    h.learn(b("/etc/key"), file("/private/etc/key"));
    h.learn(b("/private/etc/key"), file("/private/etc/key"));
    let mut caps = Capabilities::new();
    let r = p.resolve_groups(strings(&["d"]), &mut caps, &h).unwrap();
    assert!(r.needs_unlink_overrides());
    assert_eq!(
        rules(&caps),
        strings(&[
            "(allow file-read-metadata (subpath \"/secret\"))",
            "(deny file-read-data (subpath \"/secret\"))",
            "(deny file-write* (subpath \"/secret\"))",
            "(deny network-outbound (path \"/secret\"))",
            "(allow file-read-metadata (literal \"/etc/key\"))",
            "(deny file-read-data (literal \"/etc/key\"))",
            "(deny file-write* (literal \"/etc/key\"))",
            "(deny network-outbound (path \"/etc/key\"))",
            "(allow file-read-metadata (literal \"/private/etc/key\"))",
            "(deny file-read-data (literal \"/private/etc/key\"))",
            "(deny file-write* (literal \"/private/etc/key\"))",
            "(deny network-outbound (path \"/private/etc/key\"))",
            "(deny file-write-unlink)",
            "(allow file-read* (subpath \"/home/me/link\"))",
        ])
    );
}

#[test]
fn a_rule_that_grants_the_root_is_refused() {
    let mut g = group("links");
    let mut links: Table<String> = Table::new();
    links.insert(s("/"), s("/target"));
    g.symlink_pairs = Some(links);
    let p = policy(vec![("d", g)]);
    let mut caps = Capabilities::new();
    let e = resolve_groups_impl(&p, &strings(&["d"]), &mut caps, &host(Platform::MacOs)).unwrap_err();
    assert_eq!(e.kind(), ErrorKind::SandboxInit);
    assert_eq!(e.message(), "platform rule must not grant root-level read access");
    assert!(rules(&caps).is_empty());
}

#[test]
fn a_control_character_in_a_denied_path_is_an_error_on_macos() {
    let p = policy(vec![("d", denying(&["/a\tb"], false, false))]);
    let mut h = host(Platform::MacOs);
    h.learn(b("/a\tb"), dir("/a\tb"));
    let e = resolve_deny_paths_for_groups(&p, &strings(&["d"]), &h).unwrap_err();
    assert_eq!(e.message(), "Path contains control character: \"/a\\tb\"");
    let mut h = host(Platform::Linux);
    h.learn(b("/a\tb"), dir("/a\tb"));
    assert!(resolve_deny_paths_for_groups(&p, &strings(&["d"]), &h).is_ok());
}

#[test]
fn overrides_allow_removal_in_writable_directories() {
    let mut caps = Capabilities::new();
    caps.add_fs(user_cap("/r", AccessMode::Read, false));
    caps.add_fs(user_cap("/w", AccessMode::Write, false));
    caps.add_fs(user_cap("/f", AccessMode::ReadWrite, true));
    caps.add_fs(user_cap("/rw\"q", AccessMode::ReadWrite, false));
    assert!(apply_unlink_overrides(&mut caps, Platform::Linux).is_ok());
    assert!(rules(&caps).is_empty());
    assert!(apply_unlink_overrides(&mut caps, Platform::MacOs).is_ok());
    let expected = strings(&[
        "(allow file-write-unlink (subpath \"/w\"))",
        "(allow file-write-unlink (subpath \"/rw\\\"q\"))",
    ]);
    assert_eq!(rules(&caps), expected);
    assert!(apply_unlink_overrides(&mut caps, Platform::Other).is_ok());
    assert_eq!(rules(&caps).len(), 4);
}

#[test]
fn resolving_in_two_parts_is_resolving_at_once() {
    let p = policy(vec![
        ("a", allowing(&["/usr"], &[], &[])),
        ("b", denying(&["/secret"], false, true)),
        ("c", { let mut g = group("c"); g.network = Some(network(true)); g }),
    ]);
    let mut h = host(Platform::MacOs);
    h.learn(b("/usr"), dir("/usr"));
    h.learn(b("/secret"), dir("/secret"));
    let mut whole = Capabilities::new();
    let all = resolve_groups_impl(&p, &strings(&["a", "b", "c"]), &mut whole, &h).unwrap();
    let mut parts = Capabilities::new();
    let first = resolve_groups_impl(&p, &strings(&["a"]), &mut parts, &h).unwrap();
    let second = resolve_groups_impl(&p, &strings(&["b", "c"]), &mut parts, &h).unwrap();
    assert_eq!(rules(&whole), rules(&parts));
    assert_eq!(whole.fs_capabilities().len(), parts.fs_capabilities().len());
    assert_eq!(whole.inner.is_network_blocked(), parts.inner.is_network_blocked());
    assert_eq!(all.names(), [first.names(), second.names()].concat());
    assert_eq!(all.deny_paths(), [first.deny_paths(), second.deny_paths()].concat());
    assert!(all.needs_unlink_overrides() && second.needs_unlink_overrides());
}

#[test]
fn a_refused_rule_is_an_error_with_its_message() {
    assert!(rule_answer(Ok(())).is_ok());
    let e = rule_answer(Err(s("platform rule has unbalanced parentheses: ("))).unwrap_err();
    assert_eq!(e.message(), "platform rule has unbalanced parentheses: (");
    let mut caps = Capabilities::new();
    assert_eq!(
        caps.add_platform_rule("(").unwrap_err(),
        "platform rule has unbalanced parentheses: ("
    );
    assert!(caps.add_platform_rule("(deny file-write-unlink)").is_ok());
    assert_eq!(rules(&caps), strings(&["(deny file-write-unlink)"]));
    assert!(!caps.inner.is_network_blocked());
    caps.set_network_blocked(true);
    assert!(caps.inner.is_network_blocked());
    caps.set_network_blocked(false);
    assert!(!caps.inner.is_network_blocked());
}

/// Reads a quoted string from behind its opening quote: the string, and what
/// follows the closing quote.
fn read_quoted(t: &str) -> (String, String) {
    let mut out = String::new();
    let mut chars = t.chars();
    while let Some(c) = chars.next() {
        match c {
            '"' => return (out, chars.collect()),
            '\\' => out.push(chars.next().unwrap()),
            _ => out.push(c),
        }
    }
    panic!("no closing quote")
}

#[test]
fn an_escaped_path_stays_inside_of_its_quotes() {
    for path in ["", "/a", "\"", "\\", "\\\"", "/x\") (allow default) (\"", "a\\\\b"] {
        let text = escape_seatbelt_path(path).unwrap();
        let (read, rest) = read_quoted(&format!("{}\")) tail", text));
        assert_eq!(read, path);
        assert_eq!(rest, ")) tail");
    }
    assert_ne!(escape_seatbelt_path("\"").unwrap(), escape_seatbelt_path("\\\"").unwrap());
}

#[test]
fn what_groups_grant_does_not_conflict_with_what_they_deny() {
    let mut both = allowing(&["/data"], &[], &[]);
    both.deny = denying(&["/data/secret"], false, false).deny;
    let p = policy(vec![("both", both)]);
    let mut h = host(Platform::Linux);
    h.learn(b("/data"), dir("/data"));
    h.learn(b("/data/secret"), dir("/data/secret"));
    let mut caps = Capabilities::new();
    let r = resolve_groups_impl(&p, &strings(&["both"]), &mut caps, &h).unwrap();
    assert_eq!(r.deny_paths(), strings(&["/data/secret"]));
    assert!(validate_deny_overlaps(&r.deny_paths, &caps, Platform::Linux).is_ok());
    caps.add_fs(user_cap("/data", AccessMode::Read, false));
    assert!(validate_deny_overlaps(&r.deny_paths, &caps, Platform::Linux).is_err());
    resolve_groups_impl(&p, &strings(&["both"]), &mut caps, &h).unwrap();
    assert!(validate_deny_overlaps(&r.deny_paths, &caps, Platform::Linux).is_err());
}
