//! What each thing that resolving a policy does comes to, errors too, and when
//! resolving succeeds.

use vstd::prelude::*;
use vstd::utf8::{decode_utf8, encode_utf8, valid_utf8};

use crate::bytes::path_bytes;
use crate::caps::{
    rule_refusal, AccessMode, CapabilitiesView, CapabilitySourceView, FsCapabilityView, NetworkView,
};
use crate::error::PolicyErrorView;
use crate::group_laws::{lemma_deny_targets, lemma_first_refusal, rules_for};
use crate::host::{Canonical, Grant, Host, Platform};
use crate::path::{last_name, parent_of};
use crate::policy::{Group, RustPolicy};
use crate::resolve::{
    allow_steps, behind_symlinks, deny_steps, deny_targets, grant_steps, granted, group_steps,
    named_steps, nearest_existing, network_steps, none_applies, policy_steps, resolution, run, step,
    symlink_steps, with_all_denied, Resolution, Step,
};
use crate::seatbelt::{deny_rules, escaped, rule_path, seatbelt_path, with_rules, Outcome};
use crate::text::texts;

verus! {

/// What comes of letting a group's path be used. The path has to be known to the host:
/// a path that cannot be expanded, or of which nothing is known, is an error. A path
/// that exists and for which a capability can be made brings exactly that one, and any
/// other path brings nothing; neither is an error.
pub proof fn lemma_granting(
    caps: CapabilitiesView,
    group: Seq<char>,
    path: Seq<char>,
    access: AccessMode,
    host: &Host,
)
    ensures
        match host.expand(path) {
            Err(e) => granted(caps, group, path, access, host) == (Outcome { caps, error: Some(e) }),
            Ok(text) => {
                let p = encode_utf8(text);
                let out = granted(caps, group, path, access, host);
                if !host.facts@.contains_key(p) {
                    out == (Outcome { caps, error: Some(PolicyErrorView::ProbeNeeded(p)) })
                } else {
                    let fact = host.facts@[p];
                    &&& out.error is None
                    &&& fact.exists ==> (fact.grant matches Grant::Path(resolved) ==> out.caps == (
                    CapabilitiesView {
                        fs: caps.fs.push(
                            FsCapabilityView {
                                original: p,
                                resolved: path_bytes(resolved),
                                access,
                                is_file: !fact.is_dir,
                                source: CapabilitySourceView::Group(group),
                            },
                        ),
                        ..caps
                    }))
                    &&& !fact.exists || fact.grant is Refused ==> out.caps == caps
                }
            },
        },
{
}

/// A path that is denied is noted as the policy means it, also where it is an error to
/// find out what else is denied; only a path that cannot be expanded is not. Off macOS
/// the set stays as it is.
pub proof fn lemma_denying(r: Resolution, path: Seq<char>, host: &Host)
    requires
        r.error is None,
    ensures
        ({
            let out = step(r, Step::Deny { path }, host);
            &&& out.names == r.names
            &&& out.needs_unlink_overrides == r.needs_unlink_overrides
            &&& host.expand(path) matches Err(e) ==> out == (Resolution { error: Some(e), ..r })
            &&& host.expand(path) matches Ok(text) ==> match deny_targets(path, host) {
                Err(e) => out == (Resolution {
                    error: Some(e),
                    deny_paths: r.deny_paths.push(encode_utf8(text)),
                    ..r
                }),
                Ok(targets) => {
                    &&& out.deny_paths == r.deny_paths + targets
                    &&& host.platform != Platform::MacOs ==> out.caps == r.caps && out.error is None
                    &&& host.platform == Platform::MacOs ==> out.caps == with_all_denied(
                        r.caps,
                        targets,
                        host,
                    ).caps && out.error == with_all_denied(r.caps, targets, host).error
                },
            }
        }),
{
    lemma_deny_targets(path, host);
}

/// Paths are denied by rules one after the other, until one cannot be: it is not UTF-8,
/// it holds a control character, nothing is known of it, or one of its rules is
/// refused.
pub proof fn lemma_denied_in_order(
    caps: CapabilitiesView,
    paths: Seq<Seq<u8>>,
    t: Seq<u8>,
    host: &Host,
)
    ensures
        with_all_denied(caps, Seq::empty(), host) == (Outcome { caps, error: None }),
        ({
            let before = with_all_denied(caps, paths, host);
            let out = with_all_denied(caps, paths.push(t), host);
            &&& before.error is Some ==> out == before
            &&& before.error is None ==> match rule_path(t) {
                Err(e) => out == (Outcome { error: Some(e), ..before }),
                Ok(text) => if host.facts@.contains_key(t) {
                    out == with_rules(
                        before.caps,
                        deny_rules(text, host.facts@[t].exists && host.facts@[t].is_file),
                    )
                } else {
                    out == (Outcome { error: Some(PolicyErrorView::ProbeNeeded(t)), ..before })
                },
            }
        }),
{
    assert(paths.push(t).drop_last() =~= paths);
}

/// What the ban on removing files, a block of the network, the end of a group and a
/// group that the policy does not have come to.
pub proof fn lemma_plain_steps(r: Resolution, group: Seq<char>, overrides: bool, host: &Host)
    requires
        r.error is None,
    ensures
        rule_refusal("(deny file-write-unlink)"@) is None ==> step(r, Step::DenyUnlink, host) == (
        Resolution {
            caps: CapabilitiesView {
                rules: r.caps.rules.push("(deny file-write-unlink)"@),
                ..r.caps
            },
            ..r
        }),
        rule_refusal("(deny file-write-unlink)"@) matches Some(m) ==> step(
            r,
            Step::DenyUnlink,
            host,
        ) == (Resolution { error: Some(PolicyErrorView::RuleRefused(m)), ..r }),
        step(r, Step::BlockNetwork, host) == (Resolution {
            caps: CapabilitiesView { network: NetworkView::Blocked, ..r.caps },
            ..r
        }),
        step(r, Step::Finish { group, overrides }, host) == (Resolution {
            names: r.names.push(group),
            needs_unlink_overrides: r.needs_unlink_overrides || overrides,
            ..r
        }),
        step(r, Step::Unknown { group }, host) == (Resolution {
            error: Some(PolicyErrorView::UnknownGroup(group)),
            ..r
        }),
{
    lemma_one_rule(r.caps, "(deny file-write-unlink)"@);
}

proof fn lemma_one_rule(caps: CapabilitiesView, rule: Seq<char>)
    ensures
        rule_refusal(rule) is None ==> with_rules(caps, seq![rule]) == (Outcome {
            caps: CapabilitiesView { rules: caps.rules.push(rule), ..caps },
            error: None,
        }),
        rule_refusal(rule) matches Some(m) ==> with_rules(caps, seq![rule]) == (Outcome {
            caps,
            error: Some(PolicyErrorView::RuleRefused(m)),
        }),
{
    reveal_with_fuel(with_rules, 2);
    assert(seq![rule].drop_first() =~= Seq::empty());
}

/// What letting a symbolic link be read comes to: a rule for the path that it stands
/// for, unless the path cannot be expanded or stand in a rule, or the rule is refused.
pub proof fn lemma_link_step(r: Resolution, path: Seq<char>, host: &Host)
    requires
        r.error is None,
    ensures
        ({
            let out = step(r, Step::Symlink { path }, host);
            &&& host.expand(path) matches Err(e) ==> out == (Resolution { error: Some(e), ..r })
            &&& host.expand(path) matches Ok(p) ==> match seatbelt_path(p) {
                Err(e) => out == (Resolution { error: Some(e), ..r }),
                Ok(text) => {
                    let rule = "(allow file-read* (subpath \""@ + text + "\"))"@;
                    match rule_refusal(rule) {
                        Some(m) => out == (Resolution {
                            error: Some(PolicyErrorView::RuleRefused(m)),
                            ..r
                        }),
                        None => out == (Resolution {
                            caps: CapabilitiesView { rules: r.caps.rules.push(rule), ..r.caps },
                            ..r
                        }),
                    }
                },
            }
        }),
{
    if let Ok(p) = host.expand(path) {
        if let Ok(text) = seatbelt_path(p) {
            lemma_one_rule(r.caps, "(allow file-read* (subpath \""@ + text + "\"))"@);
        }
    }
}

/// Things are done one after the other, and after the first error nothing is done.
pub proof fn lemma_steps_in_order(r: Resolution, steps: Seq<Step>, s: Step, host: &Host)
    ensures
        run(r, Seq::empty(), host) == r,
        run(r, steps.push(s), host) == step(run(r, steps, host), s, host),
        r.error is Some ==> step(r, s, host) == r,
{
    assert(steps.push(s).drop_last() =~= steps);
}

/// What is done for a group, in order: its paths are let be used, those to be read
/// first, then those to be written, then those for both; its paths are denied; on macOS
/// the removal of files is banned where it says so; the network is blocked where it
/// says so; and on macOS its links are let be read.
pub proof fn lemma_order_in_a_group(name: Seq<char>, group: Group, platform: Platform)
    ensures
        group_steps(name, group, platform) == (match group.allow {
            Some(allow) => texts(allow.read@).map_values(
                |path: Seq<char>| Step::Grant { group: name, path, access: AccessMode::Read },
            ) + texts(allow.write@).map_values(
                |path: Seq<char>| Step::Grant { group: name, path, access: AccessMode::Write },
            ) + texts(allow.readwrite@).map_values(
                |path: Seq<char>| Step::Grant { group: name, path, access: AccessMode::ReadWrite },
            ),
            None => Seq::empty(),
        }) + (match group.deny {
            Some(deny) => texts(deny.access@).map_values(|path: Seq<char>| Step::Deny { path })
                + if deny.unlink && platform == Platform::MacOs {
                seq![Step::DenyUnlink]
            } else {
                Seq::empty()
            },
            None => Seq::empty(),
        }) + (if group.network is Some && group.network->0.block {
            seq![Step::BlockNetwork]
        } else {
            Seq::empty()
        }) + (if group.symlink_pairs is Some && platform == Platform::MacOs {
            group.symlink_pairs->0.rows().map_values(
                |row: (Seq<char>, String)| Step::Symlink { path: row.0 },
            )
        } else {
            Seq::empty()
        }),
{
    let read = |path: Seq<char>| Step::Grant { group: name, path, access: AccessMode::Read };
    let write = |path: Seq<char>| Step::Grant { group: name, path, access: AccessMode::Write };
    let both = |path: Seq<char>| Step::Grant { group: name, path, access: AccessMode::ReadWrite };
    if let Some(allow) = group.allow {
        assert(grant_steps(name, texts(allow.read@), AccessMode::Read) =~= texts(
            allow.read@,
        ).map_values(read));
        assert(grant_steps(name, texts(allow.write@), AccessMode::Write) =~= texts(
            allow.write@,
        ).map_values(write));
        assert(grant_steps(name, texts(allow.readwrite@), AccessMode::ReadWrite) =~= texts(
            allow.readwrite@,
        ).map_values(both));
    }
}

/// What is done for groups, in order: for one that the policy has and that is for the
/// platform what it says, and then it is noted; for one for another platform nothing;
/// and one that the policy does not have is met.
pub proof fn lemma_order_of_groups(
    policy: RustPolicy,
    names: Seq<Seq<char>>,
    name: Seq<char>,
    caps: CapabilitiesView,
    host: &Host,
)
    ensures
        resolution(policy, names, caps, host) == run(
            Resolution {
                caps,
                deny_paths: Seq::empty(),
                names: Seq::empty(),
                needs_unlink_overrides: false,
                error: None,
            },
            policy_steps(policy, names, host.platform),
            host,
        ),
        policy_steps(policy, Seq::empty(), host.platform) == Seq::<Step>::empty(),
        policy_steps(policy, names.push(name), host.platform) == policy_steps(
            policy,
            names,
            host.platform,
        ) + if !policy.groups@.contains_key(name) {
            seq![Step::Unknown { group: name }]
        } else if policy.groups@[name].platform is Some && policy.groups@[name].platform->0@ != (
        match host.platform {
            Platform::MacOs => "macos"@,
            Platform::Linux => "linux"@,
            Platform::Other => "unknown"@,
        }) {
            Seq::empty()
        } else {
            group_steps(name, policy.groups@[name], host.platform).push(
                Step::Finish {
                    group: name,
                    overrides: policy.groups@[name].deny is Some
                        && policy.groups@[name].deny->0.unlink_override_for_user_writable,
                },
            )
        },
{
    assert(names.push(name).drop_last() =~= names);
}

/// Whether none of the groups is for the platform, up to the first that the policy
/// does not have.
pub proof fn lemma_none_applies(
    policy: RustPolicy,
    names: Seq<Seq<char>>,
    n: int,
    platform: Platform,
)
    requires
        0 <= n <= names.len(),
        forall|i: int|
            0 <= i < n ==> policy.groups@.contains_key(#[trigger] names[i])
                && policy.groups@[names[i]].platform is Some
                && policy.groups@[names[i]].platform->0@ != (match platform {
                Platform::MacOs => "macos"@,
                Platform::Linux => "linux"@,
                Platform::Other => "unknown"@,
            }),
        n < names.len() ==> !policy.groups@.contains_key(names[n]),
    ensures
        none_applies(policy, names, platform),
    decreases names.len(),
{
    if n > 0 {
        let rest = names.drop_first();
        assert forall|i: int| 0 <= i < n - 1 implies policy.groups@.contains_key(#[trigger] rest[i])
            && policy.groups@[rest[i]].platform is Some && policy.groups@[rest[i]].platform->0@ != (
        match platform {
            Platform::MacOs => "macos"@,
            Platform::Linux => "linux"@,
            Platform::Other => "unknown"@,
        }) by {
            assert(rest[i] == names[i + 1]);
        }
        assert(n < names.len() ==> rest[n - 1] == names[n]);
        lemma_none_applies(policy, rest, n - 1, platform);
        assert(policy.groups@.contains_key(names[0]));
    }
}

/// Whether `chain` leads from a path up by parents, none of which exists before the
/// last one, which may or may not: each is the parent of the one before it.
pub open spec fn goes_up(chain: Seq<Seq<u8>>, host: &Host) -> bool {
    &&& chain.len() > 0
    &&& forall|i: int|
        0 <= i < chain.len() - 1 ==> host.facts@.contains_key(#[trigger] chain[i])
            && !host.facts@[chain[i]].exists && last_name(chain[i]) is Some && parent_of(chain[i])
            == Some(chain[i + 1])
}

proof fn lemma_nearest_of_chain(chain: Seq<Seq<u8>>, path: Seq<u8>, host: &Host)
    requires
        goes_up(chain, host),
    ensures
        match nearest_existing(chain.last(), path, host) {
            Ok(found) => nearest_existing(chain[0], path, host) matches Ok(f) && f.0 == found.0,
            Err(e) => nearest_existing(chain[0], path, host) == Err::<
                (Seq<u8>, Seq<Seq<u8>>),
                PolicyErrorView,
            >(e),
        },
    decreases chain.len(),
{
    if chain.len() > 1 {
        let up = chain.drop_first();
        assert forall|i: int| 0 <= i < up.len() - 1 implies host.facts@.contains_key(
            #[trigger] up[i],
        ) && !host.facts@[up[i]].exists && last_name(up[i]) is Some && parent_of(up[i]) == Some(
            up[i + 1],
        ) by {
            assert(up[i] == chain[i + 1]);
        }
        lemma_nearest_of_chain(up, path, host);
        assert(host.facts@.contains_key(chain[0]));
        assert(up[0] == chain[1]);
        assert(up.last() == chain.last());
    }
}

/// Why the way up from a path that does not exist can end in an error: nothing is known
/// of a directory on it, no directory on it exists, or the first one that exists has no
/// canonical path; the error names that directory, or the path.
pub proof fn lemma_errors_on_the_way_up(path: Seq<u8>, chain: Seq<Seq<u8>>, host: &Host)
    requires
        goes_up(chain, host),
        chain[0] == path,
    ensures
        !host.facts@.contains_key(chain.last()) ==> behind_symlinks(path, host) == Err::<
            Option<Seq<u8>>,
            PolicyErrorView,
        >(PolicyErrorView::ProbeNeeded(chain.last())),
        host.facts@.contains_key(chain.last()) && !host.facts@[chain.last()].exists && (parent_of(
            chain.last(),
        ) is None || last_name(chain.last()) is None) ==> behind_symlinks(path, host) == Err::<
            Option<Seq<u8>>,
            PolicyErrorView,
        >(PolicyErrorView::NoParent(path)),
        host.facts@.contains_key(chain.last()) && host.facts@[chain.last()].exists ==> (
        host.facts@[chain.last()].canonical matches Canonical::NotFound(m) ==> behind_symlinks(
            path,
            host,
        ) == Err::<Option<Seq<u8>>, PolicyErrorView>(
            PolicyErrorView::ParentNotCanonical { path: chain.last(), reason: m@ },
        )),
        host.facts@.contains_key(chain.last()) && host.facts@[chain.last()].exists ==> (
        host.facts@[chain.last()].canonical matches Canonical::Failed(m) ==> behind_symlinks(
            path,
            host,
        ) == Err::<Option<Seq<u8>>, PolicyErrorView>(
            PolicyErrorView::ParentNotCanonical { path: chain.last(), reason: m@ },
        )),
{
    lemma_nearest_of_chain(chain, path, host);
}

/// Whether all is known that letting a path be used takes: it can be expanded, and the
/// host knows it.
pub open spec fn can_be_used(path: Seq<char>, host: &Host) -> bool {
    host.expand(path) matches Ok(p) && host.facts@.contains_key(encode_utf8(p))
}

/// Whether a path can be denied by rules: it is UTF-8, none of its characters is a
/// control character, the host knows it, and its rules are taken.
pub open spec fn can_be_ruled(path: Seq<u8>, host: &Host) -> bool {
    &&& valid_utf8(path)
    &&& forall|i: int|
        0 <= i < decode_utf8(path).len() ==> (#[trigger] decode_utf8(path)[i] >= ' ' && (decode_utf8(
            path,
        )[i] <= '~' || decode_utf8(path)[i] >= '\u{a0}'))
    &&& host.facts@.contains_key(path)
    &&& forall|i: int| 0 <= i < 4 ==> rule_refusal(#[trigger] rules_for(path, host)[i]) is None
}

/// Whether a path can be denied: what it denies is found out, and on macOS each of
/// these paths can be denied by rules.
pub open spec fn can_be_denied(path: Seq<char>, host: &Host) -> bool {
    deny_targets(path, host) matches Ok(targets) && (host.platform == Platform::MacOs ==> forall|
        i: int,
    |
        0 <= i < targets.len() ==> can_be_ruled(#[trigger] targets[i], host))
}

/// Whether a link can be let be read: it can be expanded, none of the characters of
/// what it stands for is a control character, and the rule is taken.
pub open spec fn can_be_linked(path: Seq<char>, host: &Host) -> bool {
    host.expand(path) matches Ok(p) && (forall|i: int|
        0 <= i < p.len() ==> (#[trigger] p[i] >= ' ' && (p[i] <= '~' || p[i] >= '\u{a0}')))
        && rule_refusal("(allow file-read* (subpath \""@ + escaped(p) + "\"))"@) is None
}

/// Whether nothing that a group lists gives trouble.
pub open spec fn gives_no_trouble(group: Group, host: &Host) -> bool {
    &&& group.allow matches Some(allow) ==> {
        &&& forall|i: int|
            0 <= i < allow.read@.len() ==> can_be_used((#[trigger] allow.read@[i])@, host)
        &&& forall|i: int|
            0 <= i < allow.write@.len() ==> can_be_used((#[trigger] allow.write@[i])@, host)
        &&& forall|i: int|
            0 <= i < allow.readwrite@.len() ==> can_be_used((#[trigger] allow.readwrite@[i])@, host)
    }
    &&& group.deny matches Some(deny) ==> {
        &&& forall|i: int|
            0 <= i < deny.access@.len() ==> can_be_denied((#[trigger] deny.access@[i])@, host)
        &&& deny.unlink && host.platform == Platform::MacOs ==> rule_refusal(
            "(deny file-write-unlink)"@,
        ) is None
    }
    &&& group.symlink_pairs matches Some(pairs) ==> (host.platform == Platform::MacOs ==> forall|
        i: int,
    |
        0 <= i < pairs.rows().len() ==> can_be_linked((#[trigger] pairs.rows()[i]).0, host))
}

/// Whether a step brings no error, however far a resolution has come.
spec fn goes_well(s: Step, host: &Host) -> bool {
    forall|r: Resolution| r.error is None ==> (#[trigger] step(r, s, host)).error is None
}

proof fn lemma_ruled(caps: CapabilitiesView, paths: Seq<Seq<u8>>, host: &Host)
    requires
        forall|i: int| 0 <= i < paths.len() ==> can_be_ruled(#[trigger] paths[i], host),
    ensures
        with_all_denied(caps, paths, host).error is None,
    decreases paths.len(),
{
    if paths.len() > 0 {
        let less = paths.drop_last();
        let t = paths.last();
        assert forall|i: int| 0 <= i < less.len() implies can_be_ruled(#[trigger] less[i], host) by {
            assert(less[i] == paths[i]);
        }
        lemma_ruled(caps, less, host);
        assert(can_be_ruled(paths[paths.len() - 1], host));
        crate::rule_laws::lemma_rule_path(t);
        crate::rule_laws::lemma_seatbelt_path(decode_utf8(t));
        let rules = rules_for(t, host);
        lemma_first_refusal(with_all_denied(caps, less, host).caps, rules, 4);
    }
}

proof fn lemma_denial_goes_well(path: Seq<char>, host: &Host)
    requires
        can_be_denied(path, host),
    ensures
        goes_well(Step::Deny { path }, host),
{
    assert forall|r: Resolution| r.error is None implies (#[trigger] step(
        r,
        Step::Deny { path },
        host,
    )).error is None by {
        let targets = deny_targets(path, host)->Ok_0;
        lemma_denying(r, path, host);
        if host.platform == Platform::MacOs {
            lemma_ruled(r.caps, targets, host);
        }
    }
}

proof fn lemma_link_goes_well(path: Seq<char>, host: &Host)
    requires
        can_be_linked(path, host),
    ensures
        goes_well(Step::Symlink { path }, host),
{
    assert forall|r: Resolution| r.error is None implies (#[trigger] step(
        r,
        Step::Symlink { path },
        host,
    )).error is None by {
        lemma_link_step(r, path, host);
        crate::rule_laws::lemma_seatbelt_path(host.expand(path)->Ok_0);
    }
}

proof fn lemma_group_goes_well(name: Seq<char>, group: Group, host: &Host)
    requires
        gives_no_trouble(group, host),
    ensures
        forall|i: int|
            0 <= i < group_steps(name, group, host.platform).len() ==> goes_well(
                #[trigger] group_steps(name, group, host.platform)[i],
                host,
            ),
{
    let allowed = allow_steps(name, group);
    let denied = deny_steps(group, host.platform);
    let network = network_steps(group);
    let links = symlink_steps(group, host.platform);
    assert forall|i: int| 0 <= i < allowed.len() implies goes_well(#[trigger] allowed[i], host) by {
        let allow = group.allow->0;
        let a = texts(allow.read@).len();
        let b = texts(allow.write@).len();
        if i < a {
            assert(can_be_used(allow.read@[i]@, host));
        } else if i < a + b {
            assert(can_be_used(allow.write@[i - a]@, host));
        } else {
            assert(can_be_used(allow.readwrite@[i - a - b]@, host));
        }
    }
    assert forall|i: int| 0 <= i < denied.len() implies goes_well(#[trigger] denied[i], host) by {
        let deny = group.deny->0;
        if i < deny.access@.len() {
            assert(can_be_denied(deny.access@[i]@, host));
            lemma_denial_goes_well(deny.access@[i]@, host);
        } else {
            assert forall|r: Resolution| r.error is None implies (#[trigger] step(
                r,
                Step::DenyUnlink,
                host,
            )).error is None by {
                lemma_plain_steps(r, name, false, host);
            }
        }
    }
    assert forall|i: int| 0 <= i < links.len() implies goes_well(#[trigger] links[i], host) by {
        let pairs = group.symlink_pairs->0;
        assert(can_be_linked(pairs.rows()[i].0, host));
        lemma_link_goes_well(pairs.rows()[i].0, host);
    }
    let all = group_steps(name, group, host.platform);
    assert forall|i: int| 0 <= i < all.len() implies goes_well(#[trigger] all[i], host) by {
        let a = allowed.len();
        let b = denied.len();
        let c = network.len();
        if i < a {
            assert(all[i] == allowed[i]);
        } else if i < a + b {
            assert(all[i] == denied[i - a]);
        } else if i < a + b + c {
            assert(all[i] == network[i - a - b]);
        } else {
            assert(all[i] == links[i - a - b - c]);
        }
    }
}

proof fn lemma_run_goes_well(r: Resolution, steps: Seq<Step>, host: &Host)
    requires
        r.error is None,
        forall|i: int| 0 <= i < steps.len() ==> goes_well(#[trigger] steps[i], host),
    ensures
        run(r, steps, host).error is None,
    decreases steps.len(),
{
    if steps.len() > 0 {
        let less = steps.drop_last();
        assert forall|i: int| 0 <= i < less.len() implies goes_well(#[trigger] less[i], host) by {
            assert(less[i] == steps[i]);
        }
        lemma_run_goes_well(r, less, host);
        assert(goes_well(steps[steps.len() - 1], host));
    }
}

proof fn lemma_groups_go_well(policy: RustPolicy, names: Seq<Seq<char>>, host: &Host)
    requires
        forall|k: int|
            0 <= k < names.len() ==> policy.groups@.contains_key(#[trigger] names[k]) && ((
            policy.groups@[names[k]].platform matches Some(p) ==> p@ == match host.platform {
                Platform::MacOs => "macos"@,
                Platform::Linux => "linux"@,
                Platform::Other => "unknown"@,
            }) ==> gives_no_trouble(policy.groups@[names[k]], host)),
    ensures
        forall|i: int|
            0 <= i < policy_steps(policy, names, host.platform).len() ==> goes_well(
                #[trigger] policy_steps(policy, names, host.platform)[i],
                host,
            ),
    decreases names.len(),
{
    if names.len() > 0 {
        let less = names.drop_last();
        let name = names.last();
        assert forall|k: int| 0 <= k < less.len() implies policy.groups@.contains_key(
            #[trigger] less[k],
        ) && ((policy.groups@[less[k]].platform matches Some(p) ==> p@ == match host.platform {
            Platform::MacOs => "macos"@,
            Platform::Linux => "linux"@,
            Platform::Other => "unknown"@,
        }) ==> gives_no_trouble(policy.groups@[less[k]], host)) by {
            assert(less[k] == names[k]);
        }
        lemma_groups_go_well(policy, less, host);
        assert(policy.groups@.contains_key(names[names.len() - 1]));
        let group = policy.groups@[name];
        let before = policy_steps(policy, less, host.platform);
        let here = named_steps(policy, name, host.platform);
        let all = policy_steps(policy, names, host.platform);
        assert(all == before + here);
        assert forall|i: int| 0 <= i < here.len() implies goes_well(#[trigger] here[i], host) by {
            lemma_group_goes_well(name, group, host);
            let steps = group_steps(name, group, host.platform);
            if i < steps.len() {
                assert(here[i] == steps[i]);
            }
        }
        assert forall|i: int| 0 <= i < all.len() implies goes_well(#[trigger] all[i], host) by {
            if i < before.len() {
                assert(all[i] == before[i]);
            } else {
                assert(all[i] == here[i - before.len()]);
            }
        }
    }
}

/// Resolving groups succeeds where the policy has each of them and nothing that one of
/// those for the platform lists gives trouble; whether a listed path exists, and
/// whether a capability can be made for it, does not matter.
pub proof fn lemma_resolving_succeeds(
    policy: RustPolicy,
    names: Seq<Seq<char>>,
    caps: CapabilitiesView,
    host: &Host,
)
    requires
        forall|k: int|
            0 <= k < names.len() ==> policy.groups@.contains_key(#[trigger] names[k]) && ((
            policy.groups@[names[k]].platform matches Some(p) ==> p@ == match host.platform {
                Platform::MacOs => "macos"@,
                Platform::Linux => "linux"@,
                Platform::Other => "unknown"@,
            }) ==> gives_no_trouble(policy.groups@[names[k]], host)),
    ensures
        resolution(policy, names, caps, host).error is None,
{
    lemma_groups_go_well(policy, names, host);
    lemma_run_goes_well(
        Resolution::start(caps),
        policy_steps(policy, names, host.platform),
        host,
    );
}

} // verus!
