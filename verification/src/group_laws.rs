//! What groups are for: what a group lists is what comes of it.

use vstd::prelude::*;
use vstd::utf8::{decode_utf8, encode_utf8, valid_utf8};

use crate::bytes::path_bytes;
use crate::caps::{
    rule_refusal, AccessMode, CapabilitiesView, CapabilitySourceView, FsCapabilityView, NetworkView,
};
use crate::error::PolicyErrorView;
use crate::host::{Canonical, Grant, Host, Platform};
use crate::laws::{lemma_resolution_composes, lemma_resolution_extends, lemma_rules_are_appended};
use crate::path::{components, last_name, parent_of, PathPartView};
use crate::path_laws::{is_name, lemma_below_components, lemma_parent_and_name};
use crate::policy::{Group, RustPolicy};
use crate::resolve::{
    allow_steps, behind_symlinks, deny_steps, deny_targets, descend, grant_steps, is_active,
    lemma_run_splits, lemma_run_stops, named_steps, nearest_existing, network_steps,
    path_deny_steps, policy_steps, resolution, run, step, symlink_steps, with_all_denied,
    Resolution, Step,
};
use crate::seatbelt::{
    deny_rules, escaped, has_control, symlink_allowed, unlink_denied, with_rules,
};
use crate::text::texts;

verus! {

/// A group is active where the policy has it, and it names the platform or none.
pub proof fn lemma_active(policy: RustPolicy, name: Seq<char>, platform: Platform)
    ensures
        is_active(policy, name, platform) <==> policy.groups@.contains_key(name) && (
        policy.groups@[name].platform matches Some(p) ==> p@ == match platform {
            Platform::MacOs => "macos"@,
            Platform::Linux => "linux"@,
            Platform::Other => "unknown"@,
        }),
{
}

/// One step more.
proof fn lemma_last_step(r: Resolution, steps: Seq<Step>, s: Step, host: &Host)
    ensures
        run(r, steps.push(s), host) == step(run(r, steps, host), s, host),
{
    assert(steps.push(s).drop_last() == steps);
    assert(steps.push(s).last() == s);
}

/// Where listing paths succeeds, each that exists and for which a capability can be
/// made brings exactly one, in order, and nothing else happens.
proof fn lemma_run_grants(
    r: Resolution,
    group: Seq<char>,
    list: Seq<Seq<char>>,
    access: AccessMode,
    host: &Host,
)
    requires
        r.error is None,
        run(r, grant_steps(group, list, access), host).error is None,
    ensures
        run(r, grant_steps(group, list, access), host) == (Resolution {
            caps: CapabilitiesView {
                fs: r.caps.fs + list.filter_map(
                    |path: Seq<char>|
                        {
                            let p = encode_utf8(host.expand(path)->Ok_0);
                            let fact = host.facts@[p];
                            if fact.exists && fact.grant is Path {
                                Some(
                                    FsCapabilityView {
                                        original: p,
                                        resolved: path_bytes(fact.grant->Path_0),
                                        access,
                                        is_file: !fact.is_dir,
                                        source: CapabilitySourceView::Group(group),
                                    },
                                )
                            } else {
                                None
                            }
                        },
                ),
                ..r.caps
            },
            ..r
        }),
        forall|i: int|
            0 <= i < list.len() ==> (host.expand(#[trigger] list[i]) matches Ok(p)
                && host.facts@.contains_key(encode_utf8(p))),
    decreases list.len(),
{
    let f = |path: Seq<char>|
        {
            let p = encode_utf8(host.expand(path)->Ok_0);
            let fact = host.facts@[p];
            if fact.exists && fact.grant is Path {
                Some(
                    FsCapabilityView {
                        original: p,
                        resolved: path_bytes(fact.grant->Path_0),
                        access,
                        is_file: !fact.is_dir,
                        source: CapabilitySourceView::Group(group),
                    },
                )
            } else {
                None
            }
        };
    let steps = grant_steps(group, list, access);
    if list.len() == 0 {
        reveal(Seq::filter_map);
        assert(r.caps.fs + list.filter_map(f) =~= r.caps.fs);
        assert(run(r, steps, host) == r);
    } else {
        let less = list.drop_last();
        let front = grant_steps(group, less, access);
        assert(steps =~= front.push(Step::Grant { group, path: list.last(), access }));
        lemma_last_step(r, front, Step::Grant { group, path: list.last(), access }, host);
        let before = run(r, front, host);
        lemma_run_grants(r, group, less, access, host);
        assert(list.take(list.len() as int) == list);
        assert(list.take(list.len() - 1) == less);
        list.lemma_filter_map_take_succ(f, list.len() - 1);
        assert(r.caps.fs + list.filter_map(f) =~= before.caps.fs + match f(list.last()) {
            Some(cap) => seq![cap],
            None => Seq::empty(),
        });
        assert(run(r, steps, host).caps.fs =~= r.caps.fs + list.filter_map(f));
        assert forall|i: int| 0 <= i < list.len() implies (host.expand(#[trigger] list[i]) matches Ok(
            p,
        ) && host.facts@.contains_key(encode_utf8(p))) by {
            if i < less.len() {
                assert(list[i] == less[i]);
            }
        }
    }
}

/// The rules that deny access to a path: the metadata stay readable, the data can be
/// neither read nor written, and no socket there can be reached; they apply to the
/// file alone where it is one, and to all below the path otherwise.
pub proof fn lemma_deny_rules(path: Seq<char>)
    ensures
        deny_rules(path, true) == seq![
            "(allow file-read-metadata (literal \""@ + path + "\"))"@,
            "(deny file-read-data (literal \""@ + path + "\"))"@,
            "(deny file-write* (literal \""@ + path + "\"))"@,
            "(deny network-outbound (path \""@ + path + "\"))"@,
        ],
        deny_rules(path, false) == seq![
            "(allow file-read-metadata (subpath \""@ + path + "\"))"@,
            "(deny file-read-data (subpath \""@ + path + "\"))"@,
            "(deny file-write* (subpath \""@ + path + "\"))"@,
            "(deny network-outbound (path \""@ + path + "\"))"@,
        ],
{
    reveal_strlit("(allow file-read-metadata (");
    reveal_strlit("(deny file-read-data (");
    reveal_strlit("(deny file-write* (");
    reveal_strlit("(allow file-read-metadata (literal \"");
    reveal_strlit("(deny file-read-data (literal \"");
    reveal_strlit("(deny file-write* (literal \"");
    reveal_strlit("(allow file-read-metadata (subpath \"");
    reveal_strlit("(deny file-read-data (subpath \"");
    reveal_strlit("(deny file-write* (subpath \"");
    reveal_strlit("literal \"");
    reveal_strlit("subpath \"");
    reveal_strlit("\"");
    reveal_strlit("))");
    reveal_strlit("\"))");
    let l = deny_rules(path, true);
    assert(l[0] =~= "(allow file-read-metadata (literal \""@ + path + "\"))"@);
    assert(l[1] =~= "(deny file-read-data (literal \""@ + path + "\"))"@);
    assert(l[2] =~= "(deny file-write* (literal \""@ + path + "\"))"@);
    let d = deny_rules(path, false);
    assert(d[0] =~= "(allow file-read-metadata (subpath \""@ + path + "\"))"@);
    assert(d[1] =~= "(deny file-read-data (subpath \""@ + path + "\"))"@);
    assert(d[2] =~= "(deny file-write* (subpath \""@ + path + "\"))"@);
}

/// Where rules are added without an error, the set takes each of them.
proof fn lemma_rules_taken(caps: CapabilitiesView, rules: Seq<Seq<char>>)
    requires
        with_rules(caps, rules).error is None,
    ensures
        with_rules(caps, rules).caps == (CapabilitiesView { rules: caps.rules + rules, ..caps }),
        forall|i: int| 0 <= i < rules.len() ==> rule_refusal(#[trigger] rules[i]) is None,
    decreases rules.len(),
{
    lemma_rules_are_appended(caps, rules);
    if rules.len() > 0 {
        let next = CapabilitiesView { rules: caps.rules.push(rules[0]), ..caps };
        let rest = rules.drop_first();
        lemma_rules_taken(next, rest);
        assert forall|i: int| 0 <= i < rules.len() implies rule_refusal(
            #[trigger] rules[i],
        ) is None by {
            if i > 0 {
                assert(rules[i] == rest[i - 1]);
            }
        }
    }
}

/// Adding rules ends at the first one that the set refuses: those before it are
/// taken, and its refusal is the error.
pub proof fn lemma_first_refusal(caps: CapabilitiesView, rules: Seq<Seq<char>>, n: int)
    requires
        0 <= n <= rules.len(),
        forall|i: int| 0 <= i < n ==> rule_refusal(#[trigger] rules[i]) is None,
    ensures
        n == rules.len() ==> with_rules(caps, rules).error is None,
        n < rules.len() && rule_refusal(rules[n]) is Some ==> with_rules(caps, rules).error == Some(
            PolicyErrorView::RuleRefused(rule_refusal(rules[n])->0),
        ) && with_rules(caps, rules).caps == (CapabilitiesView {
            rules: caps.rules + rules.take(n),
            ..caps
        }),
    decreases rules.len(),
{
    if n > 0 {
        let next = CapabilitiesView { rules: caps.rules.push(rules[0]), ..caps };
        let rest = rules.drop_first();
        assert forall|i: int| 0 <= i < n - 1 implies rule_refusal(#[trigger] rest[i]) is None by {
            assert(rest[i] == rules[i + 1]);
        }
        lemma_first_refusal(next, rest, n - 1);
        assert(next.rules + rest.take(n - 1) =~= caps.rules + rules.take(n));
    } else {
        assert(caps.rules + rules.take(0) =~= caps.rules);
    }
}

/// Where denying paths by rules succeeds, each path brings its four rules, in order,
/// and nothing else happens.
proof fn lemma_rules_of_denied(caps: CapabilitiesView, paths: Seq<Seq<u8>>, host: &Host)
    requires
        with_all_denied(caps, paths, host).error is None,
    ensures
        with_all_denied(caps, paths, host).caps == (CapabilitiesView {
            rules: caps.rules + paths.flat_map(
                |t: Seq<u8>|
                    deny_rules(
                        escaped(decode_utf8(t)),
                        host.facts@[t].exists && host.facts@[t].is_file,
                    ),
            ),
            ..caps
        }),
        forall|i: int|
            0 <= i < paths.len() ==> valid_utf8(#[trigger] paths[i]) && !has_control(
                decode_utf8(paths[i]),
            ) && host.facts@.contains_key(paths[i]),
    decreases paths.len(),
{
    let f = |t: Seq<u8>|
        deny_rules(
            escaped(decode_utf8(t)),
            host.facts@[t].exists && host.facts@[t].is_file,
        );
    if paths.len() == 0 {
        assert(paths.map_values(f) =~= Seq::empty());
        assert(caps.rules + paths.flat_map(f) =~= caps.rules);
    } else {
        let less = paths.drop_last();
        let before = with_all_denied(caps, less, host);
        lemma_rules_of_denied(caps, less, host);
        let t = paths.last();
        lemma_rules_taken(before.caps, f(t));
        less.lemma_flat_map_push(f, t);
        assert(less.push(t) =~= paths);
        assert(caps.rules + paths.flat_map(f) =~= before.caps.rules + f(t));
        assert forall|i: int| 0 <= i < paths.len() implies valid_utf8(#[trigger] paths[i])
            && !has_control(decode_utf8(paths[i])) && host.facts@.contains_key(paths[i]) by {
            if i < less.len() {
                assert(paths[i] == less[i]);
            }
        }
    }
}

/// Where denying paths succeeds, each brings what it denies, in order; on macOS each
/// path that is denied brings its four rules, and elsewhere the set stays as it is.
proof fn lemma_run_denials(r: Resolution, list: Seq<Seq<char>>, host: &Host)
    requires
        r.error is None,
        run(r, path_deny_steps(list), host).error is None,
    ensures
        ({
            let denied = list.flat_map(|path: Seq<char>| deny_targets(path, host)->Ok_0);
            run(r, path_deny_steps(list), host) == (Resolution {
                deny_paths: r.deny_paths + denied,
                caps: CapabilitiesView {
                    rules: if host.platform == Platform::MacOs {
                        r.caps.rules + denied.flat_map(
                            |t: Seq<u8>|
                                deny_rules(
                                    escaped(decode_utf8(t)),
                                    host.facts@[t].exists && host.facts@[t].is_file,
                                ),
                        )
                    } else {
                        r.caps.rules
                    },
                    ..r.caps
                },
                ..r
            })
        }),
        forall|i: int| 0 <= i < list.len() ==> deny_targets(#[trigger] list[i], host) is Ok,
    decreases list.len(),
{
    let g = |path: Seq<char>| deny_targets(path, host)->Ok_0;
    let f = |t: Seq<u8>|
        deny_rules(
            escaped(decode_utf8(t)),
            host.facts@[t].exists && host.facts@[t].is_file,
        );
    let steps = path_deny_steps(list);
    if list.len() == 0 {
        assert(list.map_values(g) =~= Seq::empty());
        let none = list.flat_map(g);
        assert(none =~= Seq::empty());
        assert(none.map_values(f) =~= Seq::empty());
        assert(none.flat_map(f) =~= Seq::empty());
        assert(r.deny_paths + none =~= r.deny_paths);
        assert(r.caps.rules + none.flat_map(f) =~= r.caps.rules);
    } else {
        let less = list.drop_last();
        let path = list.last();
        let front = path_deny_steps(less);
        assert(steps =~= front.push(Step::Deny { path }));
        lemma_last_step(r, front, Step::Deny { path }, host);
        let before = run(r, front, host);
        lemma_run_denials(r, less, host);
        less.lemma_flat_map_push(g, path);
        assert(less.push(path) =~= list);
        let earlier = less.flat_map(g);
        let targets = g(path);
        if host.platform == Platform::MacOs {
            lemma_rules_of_denied(before.caps, targets, host);
            lemma_flat_map_adds(earlier, targets, f);
            assert(before.caps.rules + targets.flat_map(f) =~= r.caps.rules + (earlier
                + targets).flat_map(f));
        }
        assert(before.deny_paths + targets =~= r.deny_paths + list.flat_map(g));
        assert forall|i: int| 0 <= i < list.len() implies deny_targets(
            #[trigger] list[i],
            host,
        ) is Ok by {
            if i < less.len() {
                assert(list[i] == less[i]);
            }
        }
    }
}

proof fn lemma_flat_map_adds<A, B>(a: Seq<A>, b: Seq<A>, f: spec_fn(A) -> Seq<B>)
    ensures
        (a + b).flat_map(f) == a.flat_map(f) + b.flat_map(f),
    decreases b.len(),
{
    if b.len() == 0 {
        assert(b.map_values(f) =~= Seq::empty());
        assert(a + b =~= a);
        assert(a.flat_map(f) + b.flat_map(f) =~= a.flat_map(f));
    } else {
        let c = b.drop_last();
        let x = b.last();
        lemma_flat_map_adds(a, c, f);
        (a + c).lemma_flat_map_push(f, x);
        c.lemma_flat_map_push(f, x);
        assert((a + c).push(x) =~= a + b);
        assert(c.push(x) =~= b);
        assert(a.flat_map(f) + c.flat_map(f) + f(x) =~= a.flat_map(f) + (c.flat_map(f) + f(x)));
    }
}

/// The capabilities that a group brings by listing paths under an access mode: one for
/// each path that exists and for which a capability can be made, in order.
pub open spec fn grants(
    name: Seq<char>,
    list: Seq<Seq<char>>,
    access: AccessMode,
    host: &Host,
) -> Seq<FsCapabilityView> {
    list.filter_map(
        |path: Seq<char>|
            {
                let p = encode_utf8(host.expand(path)->Ok_0);
                let fact = host.facts@[p];
                if fact.exists && fact.grant is Path {
                    Some(
                        FsCapabilityView {
                            original: p,
                            resolved: path_bytes(fact.grant->Path_0),
                            access,
                            is_file: !fact.is_dir,
                            source: CapabilitySourceView::Group(name),
                        },
                    )
                } else {
                    None
                }
            },
    )
}

/// The four rules that deny access to a path.
pub open spec fn rules_for(path: Seq<u8>, host: &Host) -> Seq<Seq<char>> {
    deny_rules(
        escaped(decode_utf8(path)),
        host.facts@[path].exists && host.facts@[path].is_file,
    )
}

/// The rules that deny access to paths, four for each.
pub open spec fn denials(paths: Seq<Seq<u8>>, host: &Host) -> Seq<Seq<char>> {
    paths.flat_map(
        |t: Seq<u8>|
            deny_rules(
                escaped(decode_utf8(t)),
                host.facts@[t].exists && host.facts@[t].is_file,
            ),
    )
}

/// Where symbolic links are let be read without an error, each brings its rule, in
/// order, and nothing else happens.
proof fn lemma_run_symlinks(r: Resolution, links: Seq<Seq<char>>, host: &Host)
    requires
        r.error is None,
        run(r, links.map_values(|path: Seq<char>| Step::Symlink { path }), host).error is None,
    ensures
        run(r, links.map_values(|path: Seq<char>| Step::Symlink { path }), host) == (Resolution {
            caps: CapabilitiesView {
                rules: r.caps.rules + links.map_values(
                    |path: Seq<char>|
                        "(allow file-read* (subpath \""@ + escaped(host.expand(path)->Ok_0) + "\"))"@,
                ),
                ..r.caps
            },
            ..r
        }),
        forall|i: int|
            0 <= i < links.len() ==> (host.expand(#[trigger] links[i]) matches Ok(p)
                && !has_control(p)),
    decreases links.len(),
{
    let f = |path: Seq<char>|
        "(allow file-read* (subpath \""@ + escaped(host.expand(path)->Ok_0) + "\"))"@;
    let g = |path: Seq<char>| Step::Symlink { path };
    if links.len() == 0 {
        assert(links.map_values(g) =~= Seq::empty());
        assert(r.caps.rules + links.map_values(f) =~= r.caps.rules);
    } else {
        let less = links.drop_last();
        let path = links.last();
        assert(links.map_values(g) =~= less.map_values(g).push(Step::Symlink { path }));
        lemma_last_step(r, less.map_values(g), Step::Symlink { path }, host);
        let before = run(r, less.map_values(g), host);
        lemma_run_symlinks(r, less, host);
        let text = escaped(host.expand(path)->Ok_0);
        lemma_rules_taken(before.caps, seq![symlink_allowed(text)]);
        assert(before.caps.rules + seq![symlink_allowed(text)] =~= r.caps.rules + links.map_values(
            f,
        ));
        assert forall|i: int| 0 <= i < links.len() implies (host.expand(
            #[trigger] links[i],
        ) matches Ok(p) && !has_control(p)) by {
            if i < less.len() {
                assert(links[i] == less[i]);
            }
        }
    }
}

/// The names of a group's symbolic links.
pub open spec fn links_of(group: Group) -> Seq<Seq<char>> {
    match group.symlink_pairs {
        Some(pairs) => pairs.rows().map_values(|row: (Seq<char>, String)| row.0),
        None => Seq::empty(),
    }
}

proof fn lemma_steps_of_one(policy: RustPolicy, name: Seq<char>, platform: Platform)
    ensures
        policy_steps(policy, seq![name], platform) == named_steps(policy, name, platform),
{
    reveal_with_fuel(policy_steps, 2);
    assert(seq![name].drop_last() =~= Seq::<Seq<char>>::empty());
    assert(policy_steps(policy, seq![name], platform) =~= named_steps(policy, name, platform));
}

/// Whether a group lists `path` under `access`.
pub open spec fn lists(group: Group, path: Seq<char>, access: AccessMode) -> bool {
    group.allow matches Some(allow) && match access {
        AccessMode::Read => texts(allow.read@).contains(path),
        AccessMode::Write => texts(allow.write@).contains(path),
        AccessMode::ReadWrite => texts(allow.readwrite@).contains(path),
    }
}

/// What a group allows.
proof fn lemma_run_allow(r: Resolution, name: Seq<char>, group: Group, host: &Host)
    requires
        r.error is None,
        run(r, allow_steps(name, group), host).error is None,
    ensures
        run(r, allow_steps(name, group), host) == (Resolution {
            caps: CapabilitiesView {
                fs: r.caps.fs + match group.allow {
                    Some(allow) => grants(name, texts(allow.read@), AccessMode::Read, host)
                        + grants(name, texts(allow.write@), AccessMode::Write, host) + grants(
                        name,
                        texts(allow.readwrite@),
                        AccessMode::ReadWrite,
                        host,
                    ),
                    None => Seq::empty(),
                },
                ..r.caps
            },
            ..r
        }),
        forall|path: Seq<char>, access: AccessMode| #[trigger]
            lists(group, path, access) ==> (host.expand(path) matches Ok(p)
                && host.facts@.contains_key(encode_utf8(p))),
{
    match group.allow {
        Some(allow) => {
            let x = grant_steps(name, texts(allow.read@), AccessMode::Read);
            let y = grant_steps(name, texts(allow.write@), AccessMode::Write);
            let z = grant_steps(name, texts(allow.readwrite@), AccessMode::ReadWrite);
            lemma_run_splits(r, x + y, z, host);
            lemma_run_splits(r, x, y, host);
            let s1 = run(r, x, host);
            let s2 = run(s1, y, host);
            let s3 = run(s2, z, host);
            assert(run(r, allow_steps(name, group), host) == s3);
            if s2.error is Some {
                lemma_run_stops(s2, z, host);
            }
            if s1.error is Some {
                lemma_run_stops(s1, y, host);
            }
            lemma_run_grants(r, name, texts(allow.read@), AccessMode::Read, host);
            lemma_run_grants(s1, name, texts(allow.write@), AccessMode::Write, host);
            lemma_run_grants(s2, name, texts(allow.readwrite@), AccessMode::ReadWrite, host);
            assert forall|path: Seq<char>, access: AccessMode| #[trigger]
                lists(group, path, access) implies (host.expand(path) matches Ok(p)
                && host.facts@.contains_key(encode_utf8(p))) by {
                let list = match access {
                    AccessMode::Read => texts(allow.read@),
                    AccessMode::Write => texts(allow.write@),
                    AccessMode::ReadWrite => texts(allow.readwrite@),
                };
                let i = list.index_of(path);
                assert(list[i] == path);
            }
            assert(s3.caps.fs =~= r.caps.fs + (grants(
                name,
                texts(allow.read@),
                AccessMode::Read,
                host,
            ) + grants(name, texts(allow.write@), AccessMode::Write, host) + grants(
                name,
                texts(allow.readwrite@),
                AccessMode::ReadWrite,
                host,
            )));
        },
        None => {
            assert(r.caps.fs + Seq::<FsCapabilityView>::empty() =~= r.caps.fs);
        },
    }
}

/// The paths that a group denies.
pub open spec fn denied_by(group: Group, host: &Host) -> Seq<Seq<u8>> {
    match group.deny {
        Some(deny) => texts(deny.access@).flat_map(
            |path: Seq<char>| deny_targets(path, host)->Ok_0,
        ),
        None => Seq::empty(),
    }
}

/// What a group denies.
proof fn lemma_run_deny(r: Resolution, group: Group, host: &Host)
    requires
        r.error is None,
        run(r, deny_steps(group, host.platform), host).error is None,
    ensures
        run(r, deny_steps(group, host.platform), host) == (Resolution {
            deny_paths: r.deny_paths + denied_by(group, host),
            caps: CapabilitiesView {
                rules: if host.platform == Platform::MacOs {
                    r.caps.rules + denials(denied_by(group, host), host) + (if group.deny is Some
                        && group.deny->0.unlink {
                        seq!["(deny file-write-unlink)"@]
                    } else {
                        Seq::empty()
                    })
                } else {
                    r.caps.rules
                },
                ..r.caps
            },
            ..r
        }),
        group.deny matches Some(deny) ==> forall|path: Seq<char>|
            texts(deny.access@).contains(path) ==> #[trigger] deny_targets(path, host) is Ok,
{
    let f = |t: Seq<u8>|
        deny_rules(
            escaped(decode_utf8(t)),
            host.facts@[t].exists && host.facts@[t].is_file,
        );
    match group.deny {
        Some(deny) => {
            let x = path_deny_steps(texts(deny.access@));
            let y = if deny.unlink && host.platform == Platform::MacOs {
                seq![Step::DenyUnlink]
            } else {
                Seq::<Step>::empty()
            };
            let s1 = run(r, x, host);
            lemma_run_splits(r, x, y, host);
            if s1.error is Some {
                lemma_run_stops(s1, y, host);
            }
            lemma_run_denials(r, texts(deny.access@), host);
            assert forall|path: Seq<char>| texts(deny.access@).contains(
                path,
            ) implies #[trigger] deny_targets(path, host) is Ok by {
                let i = texts(deny.access@).index_of(path);
                assert(texts(deny.access@)[i] == path);
            }
            if deny.unlink && host.platform == Platform::MacOs {
                assert(x + seq![Step::DenyUnlink] =~= x.push(Step::DenyUnlink));
                lemma_last_step(r, x, Step::DenyUnlink, host);
                lemma_rules_taken(s1.caps, seq![unlink_denied()]);
            } else {
                assert(x + Seq::<Step>::empty() =~= x);
                assert(s1.caps.rules + Seq::<Seq<char>>::empty() =~= s1.caps.rules);
            }
        },
        None => {
            let none = denied_by(group, host);
            assert(none.map_values(f) =~= Seq::empty());
            assert(denials(none, host) =~= Seq::empty());
            assert(r.deny_paths + none =~= r.deny_paths);
            assert(r.caps.rules + denials(none, host) + Seq::<Seq<char>>::empty()
                =~= r.caps.rules);
        },
    }
}

/// What a group that is for the platform does where it is resolved without an error,
/// by what it lists: its paths become capabilities, its denied paths are noted, the
/// network is blocked where it says so, and on macOS there are rules for the denied
/// paths, for the removal of files, and for its symbolic links, in this order. With
/// `lemma_resolution_composes` this says what any list of groups does.
pub proof fn lemma_what_a_group_does(
    policy: RustPolicy,
    name: Seq<char>,
    caps: CapabilitiesView,
    host: &Host,
)
    requires
        policy.groups@.contains_key(name),
        policy.groups@[name].platform matches Some(p) ==> p@ == match host.platform {
            Platform::MacOs => "macos"@,
            Platform::Linux => "linux"@,
            Platform::Other => "unknown"@,
        },
        resolution(policy, seq![name], caps, host).error is None,
    ensures
        ({
            let group = policy.groups@[name];
            let out = resolution(policy, seq![name], caps, host);
            let denied = denied_by(group, host);
            &&& out.names == seq![name]
            &&& out.needs_unlink_overrides == (group.deny is Some
                && group.deny->0.unlink_override_for_user_writable)
            &&& out.deny_paths == denied
            &&& out.caps.fs == caps.fs + match group.allow {
                Some(allow) => grants(name, texts(allow.read@), AccessMode::Read, host) + grants(
                    name,
                    texts(allow.write@),
                    AccessMode::Write,
                    host,
                ) + grants(name, texts(allow.readwrite@), AccessMode::ReadWrite, host),
                None => Seq::empty(),
            }
            &&& out.caps.rules == if host.platform == Platform::MacOs {
                caps.rules + denials(denied, host) + (if group.deny is Some && group.deny->0.unlink {
                    seq!["(deny file-write-unlink)"@]
                } else {
                    Seq::empty()
                }) + links_of(group).map_values(
                    |path: Seq<char>|
                        "(allow file-read* (subpath \""@ + escaped(host.expand(path)->Ok_0) + "\"))"@,
                )
            } else {
                caps.rules
            }
            &&& out.caps.network == if group.network is Some && group.network->0.block {
                NetworkView::Blocked
            } else {
                caps.network
            }
            &&& out.caps.rest == caps.rest
        }),
        forall|path: Seq<char>, access: AccessMode| #[trigger]
            lists(policy.groups@[name], path, access) ==> (host.expand(path) matches Ok(p)
                && host.facts@.contains_key(encode_utf8(p))),
        policy.groups@[name].deny matches Some(deny) ==> forall|path: Seq<char>|
            texts(deny.access@).contains(path) ==> #[trigger] deny_targets(path, host) is Ok,
{
    let group = policy.groups@[name];
    let platform = host.platform;
    let start = Resolution::start(caps);
    let all = named_steps(policy, name, platform);
    lemma_steps_of_one(policy, name, platform);
    let a = allow_steps(name, group);
    let d = deny_steps(group, platform);
    let n = network_steps(group);
    let l = symlink_steps(group, platform);
    let body = a + d + n + l;
    let last = Step::Finish {
        group: name,
        overrides: group.deny is Some && group.deny->0.unlink_override_for_user_writable,
    };
    assert(all =~= body.push(last));
    lemma_last_step(start, body, last, host);
    lemma_run_splits(start, a + d + n, l, host);
    lemma_run_splits(start, a + d, n, host);
    lemma_run_splits(start, a, d, host);
    let r1 = run(start, a, host);
    let r2 = run(r1, d, host);
    let r3 = run(r2, n, host);
    let r4 = run(r3, l, host);
    if r3.error is Some {
        lemma_run_stops(r3, l, host);
    }
    if r2.error is Some {
        lemma_run_stops(r2, n, host);
    }
    if r1.error is Some {
        lemma_run_stops(r1, d, host);
    }
    lemma_run_allow(start, name, group, host);
    lemma_run_deny(r1, group, host);
    assert(r1.deny_paths + denied_by(group, host) =~= denied_by(group, host));
    if group.network is Some && group.network->0.block {
        assert(n =~= Seq::<Step>::empty().push(Step::BlockNetwork));
        lemma_last_step(r2, Seq::empty(), Step::BlockNetwork, host);
    } else {
        assert(n =~= Seq::empty());
    }
    if platform == Platform::MacOs {
        assert(l =~= links_of(group).map_values(|path: Seq<char>| Step::Symlink { path }));
        lemma_run_symlinks(r3, links_of(group), host);
    } else {
        assert(l =~= Seq::empty());
    }
    assert(seq![name] =~= Seq::<Seq<char>>::empty().push(name));
}

/// A group that is for another platform does nothing, and one that the policy does not
/// have is an error that names it and changes nothing.
pub proof fn lemma_other_groups_do_nothing(
    policy: RustPolicy,
    name: Seq<char>,
    caps: CapabilitiesView,
    host: &Host,
)
    ensures
        !policy.groups@.contains_key(name) ==> resolution(policy, seq![name], caps, host) == (
        Resolution {
            error: Some(PolicyErrorView::UnknownGroup(name)),
            caps,
            deny_paths: Seq::empty(),
            names: Seq::empty(),
            needs_unlink_overrides: false,
        }),
        policy.groups@.contains_key(name) && (policy.groups@[name].platform matches Some(p) && p@
            != match host.platform {
            Platform::MacOs => "macos"@,
            Platform::Linux => "linux"@,
            Platform::Other => "unknown"@,
        }) ==> resolution(policy, seq![name], caps, host) == (Resolution {
            error: None,
            caps,
            deny_paths: Seq::empty(),
            names: Seq::empty(),
            needs_unlink_overrides: false,
        }),
{
    let start = Resolution::start(caps);
    let all = named_steps(policy, name, host.platform);
    lemma_steps_of_one(policy, name, host.platform);
    if !policy.groups@.contains_key(name) {
        assert(all =~= Seq::<Step>::empty().push(Step::Unknown { group: name }));
        lemma_last_step(start, Seq::empty(), Step::Unknown { group: name }, host);
    }
}

/// The path that leads from `dir` down by names has the directory's components and
/// then the names, and begins with the directory.
proof fn lemma_descend_components(dir: Seq<u8>, names: Seq<Seq<u8>>)
    requires
        forall|i: int| 0 <= i < names.len() ==> is_name(#[trigger] names[i]),
    ensures
        components(descend(dir, names)) == components(dir) + names.map_values(
            |n: Seq<u8>| PathPartView::Name(n),
        ),
        dir.is_prefix_of(descend(dir, names)),
    decreases names.len(),
{
    let view = |n: Seq<u8>| PathPartView::Name(n);
    if names.len() == 0 {
        assert(components(dir) + names.map_values(view) =~= components(dir));
        assert(dir.take(dir.len() as int) =~= dir);
    } else {
        let less = names.drop_last();
        assert forall|i: int| 0 <= i < less.len() implies is_name(#[trigger] less[i]) by {
            assert(less[i] == names[i]);
        }
        lemma_descend_components(dir, less);
        let mid = descend(dir, less);
        let all = descend(dir, names);
        assert(is_name(names[names.len() - 1]));
        lemma_below_components(mid, names.last());
        assert(components(all) =~= components(dir) + names.map_values(view));
        assert(dir =~= all.take(dir.len() as int)) by {
            assert(all.take(mid.len() as int).take(dir.len() as int) =~= all.take(
                dir.len() as int,
            ));
        }
    }
}

/// Whether `chain` leads from a path up to the nearest directory that exists: each is
/// the parent of the one before it, all are known, only the last one exists, and
/// `names` are the file names on the way up.
pub open spec fn is_way_up(chain: Seq<Seq<u8>>, names: Seq<Seq<u8>>, host: &Host) -> bool {
    &&& chain.len() == names.len() + 1
    &&& forall|i: int|
        0 <= i < chain.len() ==> host.facts@.contains_key(#[trigger] chain[i])
            && host.facts@[chain[i]].exists == (i == chain.len() - 1)
    &&& forall|i: int|
        0 <= i < names.len() ==> parent_of(#[trigger] chain[i]) == Some(chain[i + 1]) && last_name(
            chain[i],
        ) == Some(names[i])
}

proof fn lemma_nearest(chain: Seq<Seq<u8>>, names: Seq<Seq<u8>>, path: Seq<u8>, host: &Host)
    requires
        is_way_up(chain, names, host),
    ensures
        nearest_existing(chain[0], path, host) == Ok::<(Seq<u8>, Seq<Seq<u8>>), PolicyErrorView>(
            (chain.last(), names.reverse()),
        ),
        forall|i: int| 0 <= i < names.len() ==> is_name(#[trigger] names[i]),
    decreases names.len(),
{
    if names.len() == 0 {
        assert(host.facts@.contains_key(chain[0]));
        assert(names.reverse() =~= Seq::empty());
    } else {
        let up = chain.drop_first();
        let rest = names.drop_first();
        assert forall|i: int| 0 <= i < up.len() implies host.facts@.contains_key(#[trigger] up[i])
            && host.facts@[up[i]].exists == (i == up.len() - 1) by {
            assert(up[i] == chain[i + 1]);
        }
        assert forall|i: int| 0 <= i < rest.len() implies parent_of(#[trigger] up[i]) == Some(
            up[i + 1],
        ) && last_name(up[i]) == Some(rest[i]) by {
            assert(up[i] == chain[i + 1]);
        }
        lemma_nearest(up, rest, path, host);
        lemma_parent_and_name(chain[0]);
        assert(host.facts@.contains_key(chain[0]));
        assert(rest.reverse() + seq![names[0]] =~= names.reverse());
        assert forall|i: int| 0 <= i < names.len() implies is_name(#[trigger] names[i]) by {
            if i > 0 {
                assert(names[i] == rest[i - 1]);
            }
        }
    }
}

/// Where a path that does not exist would be, once the links above it are followed: at
/// the canonical path of the nearest directory above that exists, and then by the
/// names that lead down from it; it comes back wherever its components are not those
/// of the path itself, however many names there are.
pub proof fn lemma_behind_links(
    path: Seq<u8>,
    chain: Seq<Seq<u8>>,
    names: Seq<Seq<u8>>,
    host: &Host,
) -> (target: Seq<u8>)
    requires
        is_way_up(chain, names, host),
        chain[0] == path,
        host.facts@[chain.last()].canonical is Resolved,
    ensures
        ({
            let canonical = host.facts@[chain.last()].canonical->Resolved_0@;
            &&& canonical.is_prefix_of(target)
            &&& components(target) == components(canonical) + names.reverse().map_values(
                |n: Seq<u8>| PathPartView::Name(n),
            )
            &&& components(target) != components(path) ==> behind_symlinks(path, host) == Ok::<
                Option<Seq<u8>>,
                PolicyErrorView,
            >(Some(target))
            &&& components(target) == components(path) ==> behind_symlinks(path, host) == Ok::<
                Option<Seq<u8>>,
                PolicyErrorView,
            >(None)
        }),
{
    lemma_nearest(chain, names, path, host);
    let canonical = host.facts@[chain.last()].canonical->Resolved_0@;
    let down = names.reverse();
    assert forall|i: int| 0 <= i < down.len() implies is_name(#[trigger] down[i]) by {
        assert(down[i] == names[names.len() - 1 - i]);
    }
    assert(host.facts@.contains_key(chain[chain.len() - 1]));
    lemma_descend_components(canonical, down);
    descend(canonical, down)
}

/// Where the way up ends without an existing directory, because a path has no parent
/// or no file name, or where the directory has no canonical path, that is an error.
pub proof fn lemma_no_way_up(path: Seq<u8>, host: &Host)
    ensures
        host.facts@.contains_key(path) && !host.facts@[path].exists && (parent_of(path) is None
            || last_name(path) is None) ==> behind_symlinks(path, host) == Err::<
            Option<Seq<u8>>,
            PolicyErrorView,
        >(PolicyErrorView::NoParent(path)),
        host.facts@.contains_key(path) && host.facts@[path].exists ==> match host.facts@[path].canonical {
            Canonical::Resolved(c) => behind_symlinks(path, host) is Ok,
            Canonical::NotFound(m) => behind_symlinks(path, host) == Err::<
                Option<Seq<u8>>,
                PolicyErrorView,
            >(PolicyErrorView::ParentNotCanonical { path, reason: m@ }),
            Canonical::Failed(m) => behind_symlinks(path, host) == Err::<
                Option<Seq<u8>>,
                PolicyErrorView,
            >(PolicyErrorView::ParentNotCanonical { path, reason: m@ }),
        },
        !host.facts@.contains_key(path) ==> behind_symlinks(path, host) == Err::<
            Option<Seq<u8>>,
            PolicyErrorView,
        >(PolicyErrorView::ProbeNeeded(path)),
{
}

/// What denying a path denies: the path as the policy means it, and behind it the
/// canonical path of a path that exists, where its components are others. A path that
/// is not found is followed up to a directory that exists, and any other failure is an
/// error with the system's reason.
pub proof fn lemma_deny_targets(path: Seq<char>, host: &Host)
    ensures
        match host.expand(path) {
            Err(e) => deny_targets(path, host) == Err::<Seq<Seq<u8>>, PolicyErrorView>(e),
            Ok(text) => {
                let p = encode_utf8(text);
                if !host.facts@.contains_key(p) {
                    deny_targets(path, host) == Err::<Seq<Seq<u8>>, PolicyErrorView>(
                        PolicyErrorView::ProbeNeeded(p),
                    )
                } else {
                    match host.facts@[p].canonical {
                        Canonical::Resolved(c) => deny_targets(path, host) == Ok::<
                            Seq<Seq<u8>>,
                            PolicyErrorView,
                        >(
                            if components(c@) == components(p) {
                                seq![p]
                            } else {
                                seq![p, c@]
                            },
                        ),
                        Canonical::NotFound(_) => match behind_symlinks(p, host) {
                            Ok(Some(t)) => deny_targets(path, host) == Ok::<
                                Seq<Seq<u8>>,
                                PolicyErrorView,
                            >(seq![p, t]),
                            Ok(None) => deny_targets(path, host) == Ok::<
                                Seq<Seq<u8>>,
                                PolicyErrorView,
                            >(seq![p]),
                            Err(e) => deny_targets(path, host) == Err::<
                                Seq<Seq<u8>>,
                                PolicyErrorView,
                            >(e),
                        },
                        Canonical::Failed(m) => deny_targets(path, host) == Err::<
                            Seq<Seq<u8>>,
                            PolicyErrorView,
                        >(PolicyErrorView::NotCanonical { path: p, reason: m@ }),
                    }
                }
            },
        },
{
}

proof fn lemma_filter_map_has<A, B>(s: Seq<A>, f: spec_fn(A) -> Option<B>, i: int)
    requires
        0 <= i < s.len(),
        f(s[i]) is Some,
    ensures
        s.filter_map(f).contains(f(s[i])->0),
    decreases s.len(),
{
    let less = s.drop_last();
    s.lemma_filter_map_take_succ(f, s.len() - 1);
    assert(s.take(s.len() as int) =~= s);
    assert(s.take(s.len() - 1) =~= less);
    let x = f(s[i])->0;
    if i < less.len() {
        assert(less[i] == s[i]);
        lemma_filter_map_has(less, f, i);
        let k = less.filter_map(f).index_of(x);
        assert(s.filter_map(f)[k] == x);
    } else {
        assert(s.filter_map(f)[less.filter_map(f).len() as int] == x);
    }
}

proof fn lemma_flat_map_has<A, B>(s: Seq<A>, f: spec_fn(A) -> Seq<B>, i: int, x: B)
    requires
        0 <= i < s.len(),
        f(s[i]).contains(x),
    ensures
        s.flat_map(f).contains(x),
    decreases s.len(),
{
    let less = s.drop_last();
    less.lemma_flat_map_push(f, s.last());
    assert(less.push(s.last()) =~= s);
    if i < less.len() {
        assert(less[i] == s[i]);
        lemma_flat_map_has(less, f, i, x);
        let k = less.flat_map(f).index_of(x);
        assert(s.flat_map(f)[k] == x);
    } else {
        let k = f(s[i]).index_of(x);
        assert(s.flat_map(f)[less.flat_map(f).len() + k] == x);
    }
}

/// Resolving a list of groups, one group more.
proof fn lemma_one_group_more(
    policy: RustPolicy,
    names: Seq<Seq<char>>,
    caps: CapabilitiesView,
    host: &Host,
)
    requires
        names.len() > 0,
        resolution(policy, names, caps, host).error is None,
    ensures
        ({
            let a = resolution(policy, names.drop_last(), caps, host);
            let b = resolution(policy, seq![names.last()], a.caps, host);
            let out = resolution(policy, names, caps, host);
            &&& a.error is None
            &&& b.error is None
            &&& out.caps == b.caps
            &&& out.deny_paths == a.deny_paths + b.deny_paths
        }),
{
    assert(names.drop_last() + seq![names.last()] =~= names);
    lemma_resolution_composes(policy, names.drop_last(), seq![names.last()], caps, host);
}

/// Each path that a group lists gets a capability: where resolving groups succeeds,
/// every path that a group for the platform lists under an access mode, that exists on
/// the host and for which a capability can be made, has one in the set that was not
/// there before: the path as the group's, its canonical path, that access, for a file
/// alone exactly where it is no directory, and marked as the group's.
pub proof fn lemma_listed_paths_are_granted(
    policy: RustPolicy,
    names: Seq<Seq<char>>,
    k: int,
    path: Seq<char>,
    access: AccessMode,
    caps: CapabilitiesView,
    host: &Host,
)
    requires
        resolution(policy, names, caps, host).error is None,
        0 <= k < names.len(),
        policy.groups@.contains_key(names[k]),
        policy.groups@[names[k]].platform matches Some(p) ==> p@ == match host.platform {
            Platform::MacOs => "macos"@,
            Platform::Linux => "linux"@,
            Platform::Other => "unknown"@,
        },
        policy.groups@[names[k]].allow matches Some(allow) && match access {
            AccessMode::Read => texts(allow.read@).contains(path),
            AccessMode::Write => texts(allow.write@).contains(path),
            AccessMode::ReadWrite => texts(allow.readwrite@).contains(path),
        },
    ensures
        host.expand(path) matches Ok(text) && host.facts@.contains_key(encode_utf8(text)) && ({
            let p = encode_utf8(text);
            let fact = host.facts@[p];
            fact.exists ==> (fact.grant matches Grant::Path(resolved) ==> resolution(
                policy,
                names,
                caps,
                host,
            ).caps.fs.skip(caps.fs.len() as int).contains(
                FsCapabilityView {
                    original: p,
                    resolved: path_bytes(resolved),
                    access,
                    is_file: !fact.is_dir,
                    source: CapabilitySourceView::Group(names[k]),
                },
            ))
        }),
    decreases names.len(),
{
    let less = names.drop_last();
    let last = names.last();
    let a = resolution(policy, less, caps, host);
    let b = resolution(policy, seq![last], a.caps, host);
    lemma_one_group_more(policy, names, caps, host);
    lemma_resolution_extends(policy, less, caps, host);
    lemma_resolution_extends(policy, seq![last], a.caps, host);
    let old_len = caps.fs.len() as int;
    let mid = a.caps.fs;
    let end = b.caps.fs;
    if k < names.len() - 1 {
        assert(less[k] == names[k]);
        lemma_listed_paths_are_granted(policy, less, k, path, access, caps, host);
        let text = host.expand(path)->Ok_0;
        let p = encode_utf8(text);
        let fact = host.facts@[p];
        if fact.exists && fact.grant is Path {
            let cap = FsCapabilityView {
                original: p,
                resolved: path_bytes(fact.grant->Path_0),
                access,
                is_file: !fact.is_dir,
                source: CapabilitySourceView::Group(names[k]),
            };
            let i = mid.skip(old_len).index_of(cap);
            assert(mid[old_len + i] == cap);
            assert(end.take(mid.len() as int)[old_len + i] == cap);
            assert(end.skip(old_len)[i] == cap);
        }
    } else {
        let group = policy.groups@[last];
        lemma_what_a_group_does(policy, last, a.caps, host);
        assert(lists(group, path, access));
        let text = host.expand(path)->Ok_0;
        let p = encode_utf8(text);
        let fact = host.facts@[p];
        if fact.exists && fact.grant is Path {
            let allow = group.allow->0;
            let x = grants(last, texts(allow.read@), AccessMode::Read, host);
            let y = grants(last, texts(allow.write@), AccessMode::Write, host);
            let z = grants(last, texts(allow.readwrite@), AccessMode::ReadWrite, host);
            let list = match access {
                AccessMode::Read => texts(allow.read@),
                AccessMode::Write => texts(allow.write@),
                AccessMode::ReadWrite => texts(allow.readwrite@),
            };
            let f = |path: Seq<char>|
                {
                    let p = encode_utf8(host.expand(path)->Ok_0);
                    let fact = host.facts@[p];
                    if fact.exists && fact.grant is Path {
                        Some(
                            FsCapabilityView {
                                original: p,
                                resolved: path_bytes(fact.grant->Path_0),
                                access,
                                is_file: !fact.is_dir,
                                source: CapabilitySourceView::Group(last),
                            },
                        )
                    } else {
                        None
                    }
                };
            let j = list.index_of(path);
            lemma_filter_map_has(list, f, j);
            let cap = f(path)->0;
            let g = grants(last, list, access, host);
            assert(g.contains(cap));
            let i = g.index_of(cap);
            let offset = match access {
                AccessMode::Read => 0,
                AccessMode::Write => x.len() as int,
                AccessMode::ReadWrite => (x + y).len() as int,
            };
            assert((x + y + z)[offset + i] == cap);
            assert(end[mid.len() + offset + i] == cap);
            assert(end.skip(old_len)[mid.len() + offset + i - old_len] == cap);
        }
    }
}

/// What a group denies is denied: where resolving groups succeeds, each path that
/// denying one of the paths of a group for the platform denies is among the denied
/// paths, and on macOS the set holds its four rules.
pub proof fn lemma_denials_are_complete(
    policy: RustPolicy,
    names: Seq<Seq<char>>,
    k: int,
    path: Seq<char>,
    target: Seq<u8>,
    caps: CapabilitiesView,
    host: &Host,
)
    requires
        resolution(policy, names, caps, host).error is None,
        0 <= k < names.len(),
        policy.groups@.contains_key(names[k]),
        policy.groups@[names[k]].platform matches Some(p) ==> p@ == match host.platform {
            Platform::MacOs => "macos"@,
            Platform::Linux => "linux"@,
            Platform::Other => "unknown"@,
        },
        policy.groups@[names[k]].deny matches Some(deny) && texts(deny.access@).contains(path),
        deny_targets(path, host) matches Ok(targets) ==> targets.contains(target),
    ensures
        deny_targets(path, host) is Ok,
        resolution(policy, names, caps, host).deny_paths.contains(target),
        host.platform == Platform::MacOs ==> forall|i: int|
            0 <= i < 4 ==> resolution(policy, names, caps, host).caps.rules.contains(
                #[trigger] rules_for(target, host)[i],
            ),
    decreases names.len(),
{
    let less = names.drop_last();
    let last = names.last();
    let a = resolution(policy, less, caps, host);
    let b = resolution(policy, seq![last], a.caps, host);
    let out = resolution(policy, names, caps, host);
    lemma_one_group_more(policy, names, caps, host);
    lemma_resolution_extends(policy, seq![last], a.caps, host);
    let f = |t: Seq<u8>|
        deny_rules(
            escaped(decode_utf8(t)),
            host.facts@[t].exists && host.facts@[t].is_file,
        );
    if k < names.len() - 1 {
        assert(less[k] == names[k]);
        lemma_denials_are_complete(policy, less, k, path, target, caps, host);
        let i = a.deny_paths.index_of(target);
        assert(out.deny_paths[i] == target);
        if host.platform == Platform::MacOs {
            assert forall|i: int| 0 <= i < 4 implies out.caps.rules.contains(
                #[trigger] rules_for(target, host)[i],
            ) by {
                let rule = rules_for(target, host)[i];
                let m = a.caps.rules.index_of(rule);
                assert(out.caps.rules.take(a.caps.rules.len() as int)[m] == rule);
                assert(out.caps.rules[m] == rule);
            }
        }
    } else {
        let group = policy.groups@[last];
        lemma_what_a_group_does(policy, last, a.caps, host);
        let g = |path: Seq<char>| deny_targets(path, host)->Ok_0;
        let list = texts(group.deny->0.access@);
        let denied = denied_by(group, host);
        assert(deny_targets(path, host) is Ok);
        let j = list.index_of(path);
        lemma_flat_map_has(list, g, j, target);
        assert(denied.contains(target));
        let i = denied.index_of(target);
        assert(out.deny_paths[a.deny_paths.len() + i] == target);
        if host.platform == Platform::MacOs {
            assert forall|m: int| 0 <= m < 4 implies out.caps.rules.contains(
                #[trigger] rules_for(target, host)[m],
            ) by {
                let rule = rules_for(target, host)[m];
                assert(f(target).len() == 4);
                assert(f(denied[i]).contains(rule));
                lemma_flat_map_has(denied, f, i, rule);
                let n = denials(denied, host).index_of(rule);
                assert(out.caps.rules[a.caps.rules.len() + n] == rule);
            }
        }
    }
}

/// A link cannot be used to get round a denial: for a denied path that is not found,
/// the path behind the links above it, which is the canonical path of the nearest
/// directory above that exists and then the names that lead down from it, is denied
/// too wherever its components are not those of the path itself; and for a denied path
/// that exists its canonical path is, wherever that differs. On macOS the set holds
/// the rules for it.
pub proof fn lemma_links_are_denied(
    policy: RustPolicy,
    names: Seq<Seq<char>>,
    k: int,
    path: Seq<char>,
    chain: Seq<Seq<u8>>,
    ups: Seq<Seq<u8>>,
    caps: CapabilitiesView,
    host: &Host,
) -> (target: Seq<u8>)
    requires
        resolution(policy, names, caps, host).error is None,
        0 <= k < names.len(),
        policy.groups@.contains_key(names[k]),
        policy.groups@[names[k]].platform matches Some(p) ==> p@ == match host.platform {
            Platform::MacOs => "macos"@,
            Platform::Linux => "linux"@,
            Platform::Other => "unknown"@,
        },
        policy.groups@[names[k]].deny matches Some(deny) && texts(deny.access@).contains(path),
        is_way_up(chain, ups, host),
        host.expand(path) == Ok::<Seq<char>, PolicyErrorView>(decode_utf8(chain[0])),
        chain[0] == encode_utf8(decode_utf8(chain[0])),
        ups.len() > 0 ==> host.facts@[chain[0]].canonical is NotFound,
        host.facts@[chain.last()].canonical is Resolved,
    ensures
        components(target) == components(host.facts@[chain.last()].canonical->Resolved_0@)
            + ups.reverse().map_values(|n: Seq<u8>| PathPartView::Name(n)),
        components(target) != components(chain[0]) ==> resolution(
            policy,
            names,
            caps,
            host,
        ).deny_paths.contains(target),
        resolution(policy, names, caps, host).deny_paths.contains(chain[0]),
        components(target) != components(chain[0]) && host.platform == Platform::MacOs ==> forall|
            i: int,
        |
            0 <= i < 4 ==> resolution(policy, names, caps, host).caps.rules.contains(
                #[trigger] rules_for(target, host)[i],
            ),
{
    let target = lemma_behind_links(chain[0], chain, ups, host);
    let canonical = host.facts@[chain.last()].canonical->Resolved_0@;
    assert(host.facts@.contains_key(chain[0]));
    let result = if ups.len() == 0 {
        assert(ups.reverse().map_values(|n: Seq<u8>| PathPartView::Name(n)) =~= Seq::empty());
        assert(components(canonical) + Seq::<PathPartView>::empty() =~= components(canonical));
        assert(chain.last() == chain[0]);
        canonical
    } else {
        target
    };
    let targets = deny_targets(path, host)->Ok_0;
    assert(targets[0] == chain[0]);
    lemma_denials_are_complete(policy, names, k, path, chain[0], caps, host);
    if components(result) != components(chain[0]) {
        assert(targets[1] == result);
        lemma_denials_are_complete(policy, names, k, path, result, caps, host);
    }
    result
}

} // verus!
