//! What holds of every resolution of policy groups.

use vstd::prelude::*;

use crate::caps::{
    extends, network_if, AccessMode, CapabilitiesView, CapabilitySourceView, FsCapabilityView,
};
use crate::error::PolicyErrorView;
use crate::host::{Host, Platform};
use crate::overlap::{any_conflict, lemma_group_grants_never_conflict};
use crate::path::{components, last_name, lemma_parent_components, parent_of};
use crate::policy::{group_named, matches_platform, Group, RustPolicy};
use crate::resolve::{
    allow_steps, deny_steps, deny_targets, grant_steps, group_steps, is_active, lemma_run_splits,
    lemma_run_stops, named_steps, nearest_existing, network_steps, path_deny_steps, policy_steps,
    resolution, run, step, symlink_steps, wants_overrides, with_all_denied, Resolution, Step,
};
use crate::seatbelt::{
    deny_rules, rule_path, seatbelt_path, symlink_allowed, unlink_allowed, unlink_denied, with_rules,
    with_unlink_allowed, with_unlink_overrides, writable_dirs,
};
use crate::text::texts;

verus! {

/// Adding rules appends them, and does nothing else.
pub proof fn lemma_rules_are_appended(caps: CapabilitiesView, rules: Seq<Seq<char>>)
    ensures
        ({
            let out = with_rules(caps, rules);
            &&& out.caps.fs == caps.fs
            &&& out.caps.network == caps.network
            &&& out.caps.rest == caps.rest
            &&& caps.rules.is_prefix_of(out.caps.rules)
            &&& out.error is None ==> out.caps.rules == caps.rules + rules
        }),
    decreases rules.len(),
{
    if rules.len() == 0 {
        assert(caps.rules + rules == caps.rules);
    } else {
        let next = CapabilitiesView { rules: caps.rules.push(rules[0]), ..caps };
        lemma_rules_are_appended(next, rules.drop_first());
        let out = with_rules(next, rules.drop_first());
        assert(next.rules + rules.drop_first() == caps.rules + rules);
        assert(caps.rules.is_prefix_of(next.rules));
        if next.rules.is_prefix_of(out.caps.rules) {
            assert(out.caps.rules.take(caps.rules.len() as int) == out.caps.rules.take(
                next.rules.len() as int,
            ).take(caps.rules.len() as int));
        }
    }
}

/// Whether each of `wanted` is among `rules`.
pub open spec fn holds_all(rules: Seq<Seq<char>>, wanted: Seq<Seq<char>>) -> bool {
    forall|i: int| 0 <= i < wanted.len() ==> rules.contains(#[trigger] wanted[i])
}

/// Whether the rules of `caps` deny access to `path`.
pub open spec fn denied_by_rules(path: Seq<u8>, caps: CapabilitiesView, host: &Host) -> bool {
    match (rule_path(path), host.fact(path)) {
        (Ok(text), Ok(fact)) => holds_all(
            caps.rules,
            deny_rules(text, fact.exists && fact.is_file),
        ),
        _ => false,
    }
}

proof fn lemma_denied_stays_denied(
    path: Seq<u8>,
    before: CapabilitiesView,
    after: CapabilitiesView,
    host: &Host,
)
    requires
        denied_by_rules(path, before, host),
        before.rules.is_prefix_of(after.rules),
    ensures
        denied_by_rules(path, after, host),
{
    let text = rule_path(path)->Ok_0;
    let fact = host.fact(path)->Ok_0;
    let rules = deny_rules(text, fact.exists && fact.is_file);
    assert forall|i: int| 0 <= i < rules.len() implies after.rules.contains(#[trigger] rules[i]) by {
        let k = before.rules.index_of(rules[i]);
        assert(after.rules[k] == after.rules.take(before.rules.len() as int)[k]);
    }
}

/// Denying paths by rules appends rules, and denies each of the paths.
proof fn lemma_all_denied(caps: CapabilitiesView, paths: Seq<Seq<u8>>, host: &Host)
    ensures
        ({
            let out = with_all_denied(caps, paths, host);
            &&& out.caps.fs == caps.fs
            &&& out.caps.network == caps.network
            &&& out.caps.rest == caps.rest
            &&& caps.rules.is_prefix_of(out.caps.rules)
            &&& out.error is None ==> forall|i: int|
                0 <= i < paths.len() ==> denied_by_rules(#[trigger] paths[i], out.caps, host)
        }),
    decreases paths.len(),
{
    if paths.len() > 0 {
        let before = with_all_denied(caps, paths.drop_last(), host);
        let out = with_all_denied(caps, paths, host);
        lemma_all_denied(caps, paths.drop_last(), host);
        if before.error is None {
            let path = paths.last();
            match (rule_path(path), host.fact(path)) {
                (Ok(text), Ok(fact)) => {
                    let rules = deny_rules(text, fact.exists && fact.is_file);
                    lemma_rules_are_appended(before.caps, rules);
                    assert(out.caps.rules.take(caps.rules.len() as int) == out.caps.rules.take(
                        before.caps.rules.len() as int,
                    ).take(caps.rules.len() as int));
                    if out.error is None {
                        assert forall|i: int| 0 <= i < rules.len() implies out.caps.rules.contains(
                            #[trigger] rules[i],
                        ) by {
                            assert(out.caps.rules[before.caps.rules.len() + i] == rules[i]);
                        }
                        assert forall|i: int| 0 <= i < paths.len() implies denied_by_rules(
                            #[trigger] paths[i],
                            out.caps,
                            host,
                        ) by {
                            if i < paths.len() - 1 {
                                assert(paths[i] == paths.drop_last()[i]);
                                lemma_denied_stays_denied(paths[i], before.caps, out.caps, host);
                            }
                        }
                    }
                },
                _ => {},
            }
        }
    }
}

/// A step takes nothing away: what was granted, ruled, blocked and denied stays.
proof fn lemma_step_extends(r: Resolution, s: Step, host: &Host)
    ensures
        extends(step(r, s, host).caps, r.caps),
        r.deny_paths.is_prefix_of(step(r, s, host).deny_paths),
{
    let after = step(r, s, host);
    assert(r.caps.fs.take(r.caps.fs.len() as int) == r.caps.fs);
    assert(r.caps.rules.take(r.caps.rules.len() as int) == r.caps.rules);
    assert(r.deny_paths.take(r.deny_paths.len() as int) == r.deny_paths);
    if r.error is None {
        match s {
            Step::Grant { group, path, access } => {
                assert(r.caps.fs.is_prefix_of(after.caps.fs));
            },
            Step::Deny { path } => {
                if let Ok(targets) = deny_targets(path, host) {
                    lemma_all_denied(r.caps, targets, host);
                    assert(r.deny_paths.is_prefix_of(r.deny_paths + targets));
                }
            },
            Step::DenyUnlink => {
                lemma_rules_are_appended(r.caps, seq![unlink_denied()]);
            },
            Step::Symlink { path } => {
                if let Ok(p) = host.expand(path) {
                    if let Ok(text) = seatbelt_path(p) {
                        lemma_rules_are_appended(
                            r.caps,
                            seq![symlink_allowed(text)],
                        );
                    }
                }
            },
            _ => {},
        }
    }
}

proof fn lemma_prefix_transitive<A>(a: Seq<A>, b: Seq<A>, c: Seq<A>)
    requires
        a.is_prefix_of(b),
        b.is_prefix_of(c),
    ensures
        a.is_prefix_of(c),
{
    assert(c.take(a.len() as int) == c.take(b.len() as int).take(a.len() as int));
}

proof fn lemma_run_extends(r: Resolution, steps: Seq<Step>, host: &Host)
    ensures
        extends(run(r, steps, host).caps, r.caps),
        r.deny_paths.is_prefix_of(run(r, steps, host).deny_paths),
    decreases steps.len(),
{
    if steps.len() == 0 {
        assert(r.caps.fs.take(r.caps.fs.len() as int) == r.caps.fs);
        assert(r.caps.rules.take(r.caps.rules.len() as int) == r.caps.rules);
        assert(r.deny_paths.take(r.deny_paths.len() as int) == r.deny_paths);
    } else {
        let before = run(r, steps.drop_last(), host);
        let after = run(r, steps, host);
        lemma_run_extends(r, steps.drop_last(), host);
        lemma_step_extends(before, steps.last(), host);
        lemma_prefix_transitive(r.caps.fs, before.caps.fs, after.caps.fs);
        lemma_prefix_transitive(r.caps.rules, before.caps.rules, after.caps.rules);
        lemma_prefix_transitive(r.deny_paths, before.deny_paths, after.deny_paths);
    }
}

/// Resolving groups takes nothing out of a capability set, whether it succeeds
/// or not.
pub proof fn lemma_resolution_extends(
    policy: RustPolicy,
    names: Seq<Seq<char>>,
    caps: CapabilitiesView,
    host: &Host,
)
    ensures
        extends(resolution(policy, names, caps, host).caps, caps),
{
    lemma_run_extends(Resolution::start(caps), policy_steps(policy, names, host.platform), host);
}

/// Whether `s` is one of the steps of a group `name` on `platform`.
spec fn step_is_of(s: Step, name: Seq<char>, group: Group, platform: Platform) -> bool {
    match s {
        Step::Grant { group: g, path, access } => g == name && group.allow is Some && match access {
            AccessMode::Read => texts(group.allow->0.read@).contains(path),
            AccessMode::Write => texts(group.allow->0.write@).contains(path),
            AccessMode::ReadWrite => texts(group.allow->0.readwrite@).contains(path),
        },
        Step::Deny { path } => group.deny is Some && texts(group.deny->0.access@).contains(path),
        Step::DenyUnlink => platform == Platform::MacOs && group.deny is Some
            && group.deny->0.unlink,
        Step::BlockNetwork => group.network is Some && group.network->0.block,
        Step::Symlink { path } => platform == Platform::MacOs,
        Step::Finish { group: g, overrides } => g == name && overrides == wants_overrides(group),
        Step::Unknown { group: g } => false,
    }
}

proof fn lemma_group_steps(name: Seq<char>, group: Group, platform: Platform)
    ensures
        forall|i: int|
            0 <= i < group_steps(name, group, platform).len() ==> step_is_of(
                #[trigger] group_steps(name, group, platform)[i],
                name,
                group,
                platform,
            ) && !(group_steps(name, group, platform)[i] is Finish),
{
    let a = allow_steps(name, group);
    let d = deny_steps(group, platform);
    let n = network_steps(group);
    let l = symlink_steps(group, platform);
    let all = group_steps(name, group, platform);
    assert(all == a + d + n + l);
    assert forall|i: int| 0 <= i < a.len() implies step_is_of(
        #[trigger] a[i],
        name,
        group,
        platform,
    ) && !(a[i] is Finish) by {
        let allow = group.allow->0;
        let x = grant_steps(name, texts(allow.read@), AccessMode::Read);
        let y = grant_steps(name, texts(allow.write@), AccessMode::Write);
        let z = grant_steps(name, texts(allow.readwrite@), AccessMode::ReadWrite);
        assert(a == x + y + z);
        if i < x.len() {
            assert(a[i] == x[i]);
            assert(texts(allow.read@).contains(texts(allow.read@)[i]));
        } else if i < x.len() + y.len() {
            let k = i - x.len();
            assert(a[i] == y[k]);
            assert(texts(allow.write@).contains(texts(allow.write@)[k]));
        } else {
            let k = i - x.len() - y.len();
            assert(a[i] == z[k]);
            assert(texts(allow.readwrite@).contains(texts(allow.readwrite@)[k]));
        }
    }
    assert forall|i: int| 0 <= i < d.len() implies step_is_of(
        #[trigger] d[i],
        name,
        group,
        platform,
    ) && !(d[i] is Finish) by {
        let access = texts(group.deny->0.access@);
        let x = path_deny_steps(access);
        if i < x.len() {
            assert(d[i] == x[i]);
            assert(access.contains(access[i]));
        } else {
            assert(d[i] == Step::DenyUnlink);
        }
    }
    assert forall|i: int| 0 <= i < all.len() implies step_is_of(
        #[trigger] all[i],
        name,
        group,
        platform,
    ) && !(all[i] is Finish) by {
        if i < a.len() {
            assert(all[i] == a[i]);
        } else if i < a.len() + d.len() {
            assert(all[i] == d[i - a.len()]);
        } else if i < a.len() + d.len() + n.len() {
            assert(all[i] == n[i - a.len() - d.len()]);
        } else {
            assert(all[i] == l[i - a.len() - d.len() - n.len()]);
        }
    }
}

/// Whether `s` is a step that the groups `names` can bring.
spec fn step_is_brought(
    s: Step,
    policy: RustPolicy,
    names: Seq<Seq<char>>,
    platform: Platform,
) -> bool {
    exists|i: int|
        0 <= i < names.len() && match group_named(policy, #[trigger] names[i]) {
            None => s == (Step::Unknown { group: names[i] }),
            Some(group) => matches_platform(group, platform) && step_is_of(
                s,
                names[i],
                group,
                platform,
            ),
        }
}

proof fn lemma_policy_steps(policy: RustPolicy, names: Seq<Seq<char>>, platform: Platform)
    ensures
        forall|i: int|
            0 <= i < policy_steps(policy, names, platform).len() ==> step_is_brought(
                #[trigger] policy_steps(policy, names, platform)[i],
                policy,
                names,
                platform,
            ),
    decreases names.len(),
{
    if names.len() > 0 {
        let less = names.drop_last();
        let front = policy_steps(policy, less, platform);
        let here = named_steps(policy, names.last(), platform);
        let all = policy_steps(policy, names, platform);
        lemma_policy_steps(policy, less, platform);
        assert forall|i: int| 0 <= i < all.len() implies step_is_brought(
            #[trigger] all[i],
            policy,
            names,
            platform,
        ) by {
            if i < front.len() {
                assert(all[i] == front[i]);
                let k = choose|k: int|
                    0 <= k < less.len() && match group_named(policy, #[trigger] less[k]) {
                        None => front[i] == (Step::Unknown { group: less[k] }),
                        Some(group) => matches_platform(group, platform) && step_is_of(
                            front[i],
                            less[k],
                            group,
                            platform,
                        ),
                    };
                assert(names[k] == less[k]);
            } else {
                let j = i - front.len();
                assert(all[i] == here[j]);
                let last = names[names.len() - 1];
                match group_named(policy, last) {
                    None => {},
                    Some(group) => {
                        lemma_group_steps(last, group, platform);
                        let body = group_steps(last, group, platform);
                        if j < body.len() {
                            assert(here[j] == body[j]);
                        }
                    },
                }
            }
        }
    }
}

/// Whether a capability is one that the groups `names` may bring: it comes from
/// one of them that is active, is marked as that group's, and has the access
/// under which the group lists its path.
pub open spec fn is_group_grant(
    cap: FsCapabilityView,
    policy: RustPolicy,
    names: Seq<Seq<char>>,
    host: &Host,
) -> bool {
    exists|i: int, path: Seq<char>|
        0 <= i < names.len() && #[trigger] lists_path(
            policy,
            names[i],
            path,
            cap.access,
            host.platform,
        ) && cap.source == CapabilitySourceView::Group(names[i]) && host.locate(path) == Ok::<
            Seq<u8>,
            PolicyErrorView,
        >(cap.original)
}

/// Whether the group `name` is active and allows `path` under `access`.
pub open spec fn lists_path(
    policy: RustPolicy,
    name: Seq<char>,
    path: Seq<char>,
    access: AccessMode,
    platform: Platform,
) -> bool {
    is_active(policy, name, platform) && match group_named(policy, name)->0.allow {
        None => false,
        Some(allow) => match access {
            AccessMode::Read => texts(allow.read@).contains(path),
            AccessMode::Write => texts(allow.write@).contains(path),
            AccessMode::ReadWrite => texts(allow.readwrite@).contains(path),
        },
    }
}

proof fn lemma_run_grants(
    r: Resolution,
    steps: Seq<Step>,
    policy: RustPolicy,
    names: Seq<Seq<char>>,
    host: &Host,
)
    requires
        forall|i: int|
            0 <= i < steps.len() ==> step_is_brought(
                #[trigger] steps[i],
                policy,
                names,
                host.platform,
            ),
    ensures
        forall|j: int|
            r.caps.fs.len() <= j < run(r, steps, host).caps.fs.len() ==> is_group_grant(
                #[trigger] run(r, steps, host).caps.fs[j],
                policy,
                names,
                host,
            ),
    decreases steps.len(),
{
    if steps.len() > 0 {
        let front = steps.drop_last();
        assert forall|i: int| 0 <= i < front.len() implies step_is_brought(
            #[trigger] front[i],
            policy,
            names,
            host.platform,
        ) by {
            assert(front[i] == steps[i]);
        }
        lemma_run_grants(r, front, policy, names, host);
        lemma_run_extends(r, front, host);
        let before = run(r, front, host);
        let after = run(r, steps, host);
        let s = steps.last();
        assert(s == steps[steps.len() - 1]);
        lemma_step_extends(before, s, host);
        assert(step_is_brought(s, policy, names, host.platform));
        match s {
            Step::Grant { group, path, access } => {
                let k = choose|k: int|
                    0 <= k < names.len() && match group_named(policy, #[trigger] names[k]) {
                        None => s == (Step::Unknown { group: names[k] }),
                        Some(g) => matches_platform(g, host.platform) && step_is_of(
                            s,
                            names[k],
                            g,
                            host.platform,
                        ),
                    };
                assert(lists_path(policy, names[k], path, access, host.platform));
                if after.caps.fs != before.caps.fs {
                    let cap = after.caps.fs.last();
                    assert(after.caps.fs == before.caps.fs.push(cap));
                    assert(is_group_grant(cap, policy, names, host));
                }
            },
            Step::Deny { path } => {
                if let Ok(targets) = deny_targets(path, host) {
                    lemma_all_denied(before.caps, targets, host);
                }
            },
            Step::DenyUnlink => {
                lemma_rules_are_appended(before.caps, seq![unlink_denied()]);
            },
            Step::Symlink { path } => {
                if let Ok(p) = host.expand(path) {
                    if let Ok(text) = seatbelt_path(p) {
                        lemma_rules_are_appended(
                            before.caps,
                            seq![symlink_allowed(text)],
                        );
                    }
                }
            },
            _ => {},
        }
    }
}

/// Every capability that resolving groups adds comes from one of the groups
/// that were asked for and is marked as that group's; so none of them counts as
/// the user's own wish.
pub proof fn lemma_grants_come_from_groups(
    policy: RustPolicy,
    names: Seq<Seq<char>>,
    caps: CapabilitiesView,
    host: &Host,
)
    ensures
        forall|j: int|
            caps.fs.len() <= j < resolution(policy, names, caps, host).caps.fs.len()
                ==> is_group_grant(
                #[trigger] resolution(policy, names, caps, host).caps.fs[j],
                policy,
                names,
                host,
            ) && !resolution(policy, names, caps, host).caps.fs[j].source.is_user_intent(),
{
    lemma_policy_steps(policy, names, host.platform);
    lemma_run_grants(
        Resolution::start(caps),
        policy_steps(policy, names, host.platform),
        policy,
        names,
        host,
    );
}

/// Where macOS is not the platform, resolving groups adds no rules.
pub proof fn lemma_rules_only_on_macos(
    policy: RustPolicy,
    names: Seq<Seq<char>>,
    caps: CapabilitiesView,
    host: &Host,
)
    requires
        host.platform != Platform::MacOs,
    ensures
        resolution(policy, names, caps, host).caps.rules == caps.rules,
{
    lemma_policy_steps(policy, names, host.platform);
    lemma_run_no_rules(
        Resolution::start(caps),
        policy_steps(policy, names, host.platform),
        policy,
        names,
        host,
    );
}

proof fn lemma_run_no_rules(
    r: Resolution,
    steps: Seq<Step>,
    policy: RustPolicy,
    names: Seq<Seq<char>>,
    host: &Host,
)
    requires
        host.platform != Platform::MacOs,
        forall|i: int|
            0 <= i < steps.len() ==> step_is_brought(
                #[trigger] steps[i],
                policy,
                names,
                host.platform,
            ),
    ensures
        run(r, steps, host).caps.rules == r.caps.rules,
    decreases steps.len(),
{
    if steps.len() > 0 {
        let front = steps.drop_last();
        assert forall|i: int| 0 <= i < front.len() implies step_is_brought(
            #[trigger] front[i],
            policy,
            names,
            host.platform,
        ) by {
            assert(front[i] == steps[i]);
        }
        lemma_run_no_rules(r, front, policy, names, host);
        assert(step_is_brought(steps[steps.len() - 1], policy, names, host.platform));
    }
}

/// Two resolutions that differ in nothing but their capability sets.
pub open spec fn same_but_caps(a: Resolution, b: Resolution) -> bool {
    a == (Resolution { caps: a.caps, ..b })
}

/// Whether a rule is taken depends on the rule alone.
proof fn lemma_rules_same_error(a: CapabilitiesView, b: CapabilitiesView, rules: Seq<Seq<char>>)
    ensures
        with_rules(a, rules).error == with_rules(b, rules).error,
    decreases rules.len(),
{
    if rules.len() > 0 {
        lemma_rules_same_error(
            CapabilitiesView { rules: a.rules.push(rules[0]), ..a },
            CapabilitiesView { rules: b.rules.push(rules[0]), ..b },
            rules.drop_first(),
        );
    }
}

proof fn lemma_denied_same_error(
    a: CapabilitiesView,
    b: CapabilitiesView,
    paths: Seq<Seq<u8>>,
    host: &Host,
)
    ensures
        with_all_denied(a, paths, host).error == with_all_denied(b, paths, host).error,
    decreases paths.len(),
{
    if paths.len() > 0 {
        lemma_denied_same_error(a, b, paths.drop_last(), host);
        let x = with_all_denied(a, paths.drop_last(), host);
        let y = with_all_denied(b, paths.drop_last(), host);
        match (rule_path(paths.last()), host.fact(paths.last())) {
            (Ok(text), Ok(fact)) => {
                lemma_rules_same_error(
                    x.caps,
                    y.caps,
                    deny_rules(text, fact.exists && fact.is_file),
                );
            },
            _ => {},
        }
    }
}

proof fn lemma_run_same_but_caps(a: Resolution, b: Resolution, steps: Seq<Step>, host: &Host)
    requires
        same_but_caps(a, b),
    ensures
        same_but_caps(run(a, steps, host), run(b, steps, host)),
    decreases steps.len(),
{
    if steps.len() > 0 {
        let front = steps.drop_last();
        lemma_run_same_but_caps(a, b, front, host);
        let x = run(a, front, host);
        let y = run(b, front, host);
        match steps.last() {
            Step::Deny { path } => {
                if let Ok(targets) = deny_targets(path, host) {
                    lemma_denied_same_error(x.caps, y.caps, targets, host);
                }
            },
            Step::DenyUnlink => {
                lemma_rules_same_error(x.caps, y.caps, seq![unlink_denied()]);
            },
            Step::Symlink { path } => {
                if let Ok(p) = host.expand(path) {
                    if let Ok(text) = seatbelt_path(p) {
                        lemma_rules_same_error(
                            x.caps,
                            y.caps,
                            seq![symlink_allowed(text)],
                        );
                    }
                }
            },
            _ => {},
        }
    }
}

/// What groups deny, which of them are resolved, and whether and why that fails
/// do not depend on the capability set that they are resolved into. So the
/// denied paths that are asked for on their own are those that resolving the
/// same groups into any set gives.
pub proof fn lemma_denials_do_not_depend_on_caps(
    policy: RustPolicy,
    names: Seq<Seq<char>>,
    a: CapabilitiesView,
    b: CapabilitiesView,
    host: &Host,
)
    ensures
        same_but_caps(resolution(policy, names, a, host), resolution(policy, names, b, host)),
{
    lemma_run_same_but_caps(
        Resolution::start(a),
        Resolution::start(b),
        policy_steps(policy, names, host.platform),
        host,
    );
}

/// `b` behind `a`: what was gathered until `a` stays in front.
pub open spec fn after(a: Resolution, b: Resolution) -> Resolution {
    Resolution {
        caps: b.caps,
        deny_paths: a.deny_paths + b.deny_paths,
        names: a.names + b.names,
        needs_unlink_overrides: a.needs_unlink_overrides || b.needs_unlink_overrides,
        error: b.error,
    }
}

proof fn lemma_run_shifts(r: Resolution, steps: Seq<Step>, host: &Host)
    requires
        r.error is None,
    ensures
        run(r, steps, host) == after(r, run(Resolution::start(r.caps), steps, host)),
    decreases steps.len(),
{
    if steps.len() == 0 {
        assert(r.deny_paths + Seq::<Seq<u8>>::empty() == r.deny_paths);
        assert(r.names + Seq::<Seq<char>>::empty() == r.names);
    } else {
        lemma_run_shifts(r, steps.drop_last(), host);
        let x = run(Resolution::start(r.caps), steps.drop_last(), host);
        match steps.last() {
            Step::Deny { path } => {
                if let Ok(targets) = deny_targets(path, host) {
                    assert((r.deny_paths + x.deny_paths) + targets == r.deny_paths + (x.deny_paths
                        + targets));
                }
            },
            Step::Finish { group, overrides } => {
                assert((r.names + x.names).push(group) == r.names + x.names.push(group));
            },
            _ => {},
        }
    }
}

proof fn lemma_policy_steps_split(
    policy: RustPolicy,
    a: Seq<Seq<char>>,
    b: Seq<Seq<char>>,
    platform: Platform,
)
    ensures
        policy_steps(policy, a + b, platform) == policy_steps(policy, a, platform) + policy_steps(
            policy,
            b,
            platform,
        ),
    decreases b.len(),
{
    if b.len() == 0 {
        assert(a + b == a);
        assert(policy_steps(policy, a, platform) + Seq::<Step>::empty() == policy_steps(
            policy,
            a,
            platform,
        ));
    } else {
        assert((a + b).drop_last() == a + b.drop_last());
        assert((a + b).last() == b.last());
        lemma_policy_steps_split(policy, a, b.drop_last(), platform);
        let x = policy_steps(policy, a, platform);
        let y = policy_steps(policy, b.drop_last(), platform);
        let z = named_steps(policy, b.last(), platform);
        assert((x + y) + z == x + (y + z));
    }
}

/// Resolving some groups and then others is resolving all of them at once: it gives
/// the same groups, denied paths and overrides, and leaves all that the set holds the
/// same.
pub proof fn lemma_resolution_composes(
    policy: RustPolicy,
    first: Seq<Seq<char>>,
    second: Seq<Seq<char>>,
    caps: CapabilitiesView,
    host: &Host,
)
    ensures
        ({
            let a = resolution(policy, first, caps, host);
            let b = resolution(policy, second, a.caps, host);
            resolution(policy, first + second, caps, host) == if a.error is Some {
                a
            } else {
                after(a, b)
            }
        }),
{
    let x = policy_steps(policy, first, host.platform);
    let y = policy_steps(policy, second, host.platform);
    lemma_policy_steps_split(policy, first, second, host.platform);
    lemma_run_splits(Resolution::start(caps), x, y, host);
    let a = resolution(policy, first, caps, host);
    if a.error is Some {
        lemma_run_stops(a, y, host);
    } else {
        lemma_run_shifts(a, y, host);
    }
}

/// Whether the group `name` is active and blocks the network.
pub open spec fn blocks(policy: RustPolicy, name: Seq<char>, platform: Platform) -> bool {
    is_active(policy, name, platform) && match group_named(policy, name)->0.network {
        Some(network) => network.block,
        None => false,
    }
}

/// Whether the group `name` is active and wants directories that may be written
/// to be exempt from the ban on removing files.
pub open spec fn overrides(policy: RustPolicy, name: Seq<char>, platform: Platform) -> bool {
    is_active(policy, name, platform) && wants_overrides(group_named(policy, name)->0)
}

/// What `run` does to the things that only whole groups decide.
proof fn lemma_run_group(
    r: Resolution,
    name: Seq<char>,
    group: Group,
    host: &Host,
)
    requires
        r.error is None,
        run(r, group_steps(name, group, host.platform), host).error is None,
    ensures
        ({
            let out = run(r, group_steps(name, group, host.platform), host);
            &&& out.names == r.names
            &&& out.needs_unlink_overrides == r.needs_unlink_overrides
            &&& out.caps.network == if group.network is Some && group.network->0.block {
                network_if(true)
            } else {
                r.caps.network
            }
        }),
{
    let a = allow_steps(name, group);
    let d = deny_steps(group, host.platform);
    let n = network_steps(group);
    let l = symlink_steps(group, host.platform);
    lemma_group_steps(name, group, host.platform);
    let all = group_steps(name, group, host.platform);
    assert forall|i: int| 0 <= i < (a + d).len() implies keeps_network(#[trigger] (a + d)[i]) by {
        assert(all[i] == (a + d)[i]);
        if i < a.len() {
            assert((a + d)[i] == a[i]);
        } else {
            assert((a + d)[i] == d[i - a.len()]);
        }
    }
    assert forall|i: int| 0 <= i < l.len() implies keeps_network(#[trigger] l[i]) by {
    }
    lemma_run_splits(r, a + d + n, l, host);
    lemma_run_splits(r, a + d, n, host);
    let r1 = run(r, a + d, host);
    let r2 = run(r, a + d + n, host);
    if r2.error is Some {
        lemma_run_stops(r2, l, host);
    }
    if r1.error is Some {
        lemma_run_stops(r1, n, host);
    }
    lemma_run_keeps_network(r, a + d, host);
    lemma_run_keeps_network(r2, l, host);
    if n.len() > 0 {
        assert(n.drop_last() == Seq::<Step>::empty());
        assert(run(r1, n.drop_last(), host) == r1);
        assert(n.last() == Step::BlockNetwork);
    } else {
        assert(run(r1, n, host) == r1);
    }
}

/// Whether a step neither blocks the network nor ends a group.
spec fn keeps_network(s: Step) -> bool {
    !(s is BlockNetwork) && !(s is Finish)
}

proof fn lemma_run_keeps_network(r: Resolution, steps: Seq<Step>, host: &Host)
    requires
        forall|i: int| 0 <= i < steps.len() ==> keeps_network(#[trigger] steps[i]),
    ensures
        run(r, steps, host).caps.network == r.caps.network,
        run(r, steps, host).names == r.names,
        run(r, steps, host).needs_unlink_overrides == r.needs_unlink_overrides,
    decreases steps.len(),
{
    if steps.len() > 0 {
        let front = steps.drop_last();
        assert forall|i: int| 0 <= i < front.len() implies keeps_network(#[trigger] front[i]) by {
            assert(front[i] == steps[i]);
        }
        lemma_run_keeps_network(r, front, host);
        let before = run(r, front, host);
        let s = steps.last();
        assert(s == steps[steps.len() - 1]);
        match s {
            Step::Deny { path } => {
                if let Ok(targets) = deny_targets(path, host) {
                    lemma_all_denied(before.caps, targets, host);
                }
            },
            Step::DenyUnlink => {
                lemma_rules_are_appended(before.caps, seq![unlink_denied()]);
            },
            Step::Symlink { path } => {
                if let Ok(p) = host.expand(path) {
                    if let Ok(text) = seatbelt_path(p) {
                        lemma_rules_are_appended(
                            before.caps,
                            seq![symlink_allowed(text)],
                        );
                    }
                }
            },
            _ => {},
        }
    }
}

/// Where resolving groups succeeds, each of them is known to the policy; those
/// that came back are the active ones among them, in order; the network is
/// blocked where one of the active ones blocks it, and as it was before otherwise;
/// and overrides are needed exactly where one of the active ones wants them.
pub proof fn lemma_what_active_groups_decide(
    policy: RustPolicy,
    names: Seq<Seq<char>>,
    caps: CapabilitiesView,
    host: &Host,
)
    requires
        resolution(policy, names, caps, host).error is None,
    ensures
        ({
            let out = resolution(policy, names, caps, host);
            let platform = host.platform;
            &&& forall|i: int|
                0 <= i < names.len() ==> group_named(policy, #[trigger] names[i]) is Some
            &&& out.names == names.filter(|name: Seq<char>| is_active(policy, name, platform))
            &&& out.caps.network == if exists|i: int|
                0 <= i < names.len() && blocks(policy, #[trigger] names[i], platform) {
                network_if(true)
            } else {
                caps.network
            }
            &&& out.needs_unlink_overrides == exists|i: int|
                0 <= i < names.len() && overrides(policy, #[trigger] names[i], platform)
        }),
    decreases names.len(),
{
    let platform = host.platform;
    let active = |name: Seq<char>| is_active(policy, name, platform);
    reveal(Seq::filter);
    if names.len() > 0 {
        let less = names.drop_last();
        let name = names.last();
        let start = Resolution::start(caps);
        let front = policy_steps(policy, less, platform);
        let here = named_steps(policy, name, platform);
        lemma_run_splits(start, front, here, host);
        let before = resolution(policy, less, caps, host);
        let out = resolution(policy, names, caps, host);
        if before.error is Some {
            lemma_run_stops(before, here, host);
        }
        lemma_what_active_groups_decide(policy, less, caps, host);
        assert(forall|i: int| 0 <= i < less.len() ==> less[i] == names[i]);
        assert(name == names[names.len() - 1]);
        match group_named(policy, name) {
            None => {
                assert(here.drop_last() == Seq::<Step>::empty());
                assert(run(before, here.drop_last(), host) == before);
                assert(here.last() == Step::Unknown { group: name });
            },
            Some(group) => {
                if matches_platform(group, platform) {
                    let body = group_steps(name, group, platform);
                    assert(here.drop_last() == body);
                    let mid = run(before, body, host);
                    assert(out == step(mid, here.last(), host));
                    lemma_run_group(before, name, group, host);
                } else {
                    assert(run(before, here, host) == before);
                }
            },
        }
        assert forall|i: int| 0 <= i < names.len() implies group_named(
            policy,
            #[trigger] names[i],
        ) is Some by {
            if i < less.len() {
                assert(group_named(policy, less[i]) is Some);
            }
        }
        assert((exists|i: int| 0 <= i < names.len() && blocks(policy, #[trigger] names[i], platform))
            == ((exists|i: int| 0 <= i < less.len() && blocks(policy, #[trigger] less[i], platform))
            || blocks(policy, name, platform))) by {
            if exists|i: int| 0 <= i < less.len() && blocks(policy, #[trigger] less[i], platform) {
                let i = choose|i: int|
                    0 <= i < less.len() && blocks(policy, #[trigger] less[i], platform);
                assert(blocks(policy, names[i], platform));
            }
            if exists|i: int| 0 <= i < names.len() && blocks(policy, #[trigger] names[i], platform) {
                let i = choose|i: int|
                    0 <= i < names.len() && blocks(policy, #[trigger] names[i], platform);
                if i < less.len() {
                    assert(blocks(policy, less[i], platform));
                }
            }
        }
        assert((exists|i: int|
            0 <= i < names.len() && overrides(policy, #[trigger] names[i], platform)) == ((exists|
            i: int,
        | 0 <= i < less.len() && overrides(policy, #[trigger] less[i], platform)) || overrides(
            policy,
            name,
            platform,
        ))) by {
            if exists|i: int| 0 <= i < less.len() && overrides(policy, #[trigger] less[i], platform) {
                let i = choose|i: int|
                    0 <= i < less.len() && overrides(policy, #[trigger] less[i], platform);
                assert(overrides(policy, names[i], platform));
            }
            if exists|i: int|
                0 <= i < names.len() && overrides(policy, #[trigger] names[i], platform) {
                let i = choose|i: int|
                    0 <= i < names.len() && overrides(policy, #[trigger] names[i], platform);
                if i < less.len() {
                    assert(overrides(policy, less[i], platform));
                }
            }
        }
    }
}

/// Whether the group `name` is active and denies access to `path`.
pub open spec fn denies(
    policy: RustPolicy,
    name: Seq<char>,
    path: Seq<char>,
    platform: Platform,
) -> bool {
    is_active(policy, name, platform) && match group_named(policy, name)->0.deny {
        Some(deny) => texts(deny.access@).contains(path),
        None => false,
    }
}

/// A step that the run takes without an error leaves its mark.
proof fn lemma_run_denies(r: Resolution, steps: Seq<Step>, i: int, path: Seq<char>, host: &Host)
    requires
        run(r, steps, host).error is None,
        0 <= i < steps.len(),
        steps[i] == (Step::Deny { path }),
    ensures
        host.locate(path) is Ok,
        run(r, steps, host).deny_paths.contains(host.locate(path)->Ok_0),
    decreases steps.len(),
{
    let front = steps.drop_last();
    let before = run(r, front, host);
    let out = run(r, steps, host);
    lemma_step_extends(before, steps.last(), host);
    if i == steps.len() - 1 {
        let targets = deny_targets(path, host)->Ok_0;
        let p = host.locate(path)->Ok_0;
        assert(targets[0] == p);
        assert(out.deny_paths[before.deny_paths.len() as int] == p);
    } else {
        assert(front[i] == steps[i]);
        lemma_run_denies(r, front, i, path, host);
        let k = before.deny_paths.index_of(host.locate(path)->Ok_0);
        assert(out.deny_paths[k] == out.deny_paths.take(before.deny_paths.len() as int)[k]);
    }
}

proof fn lemma_steps_hold_denial(
    policy: RustPolicy,
    names: Seq<Seq<char>>,
    k: int,
    path: Seq<char>,
    platform: Platform,
) -> (i: int)
    requires
        0 <= k < names.len(),
        denies(policy, names[k], path, platform),
    ensures
        0 <= i < policy_steps(policy, names, platform).len(),
        policy_steps(policy, names, platform)[i] == (Step::Deny { path }),
    decreases names.len(),
{
    let front = policy_steps(policy, names.drop_last(), platform);
    let all = policy_steps(policy, names, platform);
    if k < names.len() - 1 {
        let i = lemma_steps_hold_denial(policy, names.drop_last(), k, path, platform);
        assert(all[i] == front[i]);
        i
    } else {
        let name = names.last();
        let group = group_named(policy, name)->0;
        let access = texts(group.deny->0.access@);
        let j = access.index_of(path);
        let a = allow_steps(name, group);
        let d = deny_steps(group, platform);
        assert(d[j] == path_deny_steps(access)[j]);
        let body = group_steps(name, group, platform);
        assert(body[a.len() + j] == d[j]);
        let here = named_steps(policy, name, platform);
        assert(here[a.len() + j] == body[a.len() + j]);
        let i = front.len() + a.len() + j;
        assert(all[i] == here[a.len() + j]);
        i
    }
}

/// Where resolving groups succeeds, each path that one of the active ones
/// denies is among the denied paths.
pub proof fn lemma_denied_paths_are_listed(
    policy: RustPolicy,
    names: Seq<Seq<char>>,
    k: int,
    path: Seq<char>,
    caps: CapabilitiesView,
    host: &Host,
)
    requires
        resolution(policy, names, caps, host).error is None,
        0 <= k < names.len(),
        denies(policy, names[k], path, host.platform),
    ensures
        host.locate(path) is Ok,
        resolution(policy, names, caps, host).deny_paths.contains(host.locate(path)->Ok_0),
{
    let i = lemma_steps_hold_denial(policy, names, k, path, host.platform);
    lemma_run_denies(
        Resolution::start(caps),
        policy_steps(policy, names, host.platform),
        i,
        path,
        host,
    );
}

proof fn lemma_run_rules_deny(r: Resolution, steps: Seq<Step>, host: &Host)
    requires
        host.platform == Platform::MacOs,
        run(r, steps, host).error is None,
        forall|i: int|
            0 <= i < r.deny_paths.len() ==> denied_by_rules(#[trigger] r.deny_paths[i], r.caps, host),
    ensures
        forall|i: int|
            0 <= i < run(r, steps, host).deny_paths.len() ==> denied_by_rules(
                #[trigger] run(r, steps, host).deny_paths[i],
                run(r, steps, host).caps,
                host,
            ),
    decreases steps.len(),
{
    if steps.len() > 0 {
        let front = steps.drop_last();
        let before = run(r, front, host);
        let out = run(r, steps, host);
        lemma_run_rules_deny(r, front, host);
        lemma_step_extends(before, steps.last(), host);
        if let Step::Deny { path } = steps.last() {
            let targets = deny_targets(path, host)->Ok_0;
            lemma_all_denied(before.caps, targets, host);
        }
        assert forall|i: int| 0 <= i < out.deny_paths.len() implies denied_by_rules(
            #[trigger] out.deny_paths[i],
            out.caps,
            host,
        ) by {
            if i < before.deny_paths.len() {
                assert(out.deny_paths[i] == out.deny_paths.take(before.deny_paths.len() as int)[i]);
                lemma_denied_stays_denied(before.deny_paths[i], before.caps, out.caps, host);
            }
        }
    }
}

/// On macOS, where resolving groups succeeds, each denied path is denied by the
/// rules that the capability set then holds.
pub proof fn lemma_macos_rules_deny(
    policy: RustPolicy,
    names: Seq<Seq<char>>,
    caps: CapabilitiesView,
    host: &Host,
)
    requires
        host.platform == Platform::MacOs,
        resolution(policy, names, caps, host).error is None,
    ensures
        forall|i: int|
            0 <= i < resolution(policy, names, caps, host).deny_paths.len() ==> denied_by_rules(
                #[trigger] resolution(policy, names, caps, host).deny_paths[i],
                resolution(policy, names, caps, host).caps,
                host,
            ),
{
    lemma_run_rules_deny(
        Resolution::start(caps),
        policy_steps(policy, names, host.platform),
        host,
    );
}

/// Whether an error asks for the filesystem to be looked at.
pub open spec fn asks_probe(error: Option<PolicyErrorView>) -> bool {
    error matches Some(PolicyErrorView::ProbeNeeded(_))
}

/// Whether an error asks only for what the host does not know.
spec fn asks_only_new(error: Option<PolicyErrorView>, host: &Host) -> bool {
    match error {
        Some(PolicyErrorView::ProbeNeeded(p)) => !host.facts@.contains_key(p),
        _ => true,
    }
}

proof fn lemma_nearest_asks_new(current: Seq<u8>, path: Seq<u8>, host: &Host)
    ensures
        match nearest_existing(current, path, host) {
            Ok((dir, _)) => host.fact(dir) is Ok,
            Err(e) => asks_only_new(Some(e), host),
        },
    decreases components(current).len(),
{
    if let (Some(_), Some(parent)) = (last_name(current), parent_of(current)) {
        lemma_parent_components(current);
        lemma_nearest_asks_new(parent, path, host);
    }
}

proof fn lemma_rules_ask_nothing(caps: CapabilitiesView, rules: Seq<Seq<char>>)
    ensures
        !asks_probe(with_rules(caps, rules).error),
    decreases rules.len(),
{
    if rules.len() > 0 {
        lemma_rules_ask_nothing(
            CapabilitiesView { rules: caps.rules.push(rules[0]), ..caps },
            rules.drop_first(),
        );
    }
}

proof fn lemma_denied_asks_new(caps: CapabilitiesView, paths: Seq<Seq<u8>>, host: &Host)
    ensures
        asks_only_new(with_all_denied(caps, paths, host).error, host),
    decreases paths.len(),
{
    if paths.len() > 0 {
        lemma_denied_asks_new(caps, paths.drop_last(), host);
        let before = with_all_denied(caps, paths.drop_last(), host);
        match (rule_path(paths.last()), host.fact(paths.last())) {
            (Ok(text), Ok(fact)) => {
                lemma_rules_ask_nothing(
                    before.caps,
                    deny_rules(text, fact.exists && fact.is_file),
                );
            },
            _ => {},
        }
    }
}

proof fn lemma_step_asks_new(r: Resolution, s: Step, host: &Host)
    requires
        asks_only_new(r.error, host),
    ensures
        asks_only_new(step(r, s, host).error, host),
{
    match s {
        Step::Deny { path } => {
            if let Ok(p) = host.locate(path) {
                lemma_nearest_asks_new(p, p, host);
            }
            if let Ok(targets) = deny_targets(path, host) {
                lemma_denied_asks_new(r.caps, targets, host);
            }
        },
        Step::DenyUnlink => {
            lemma_rules_ask_nothing(r.caps, seq![unlink_denied()]);
        },
        Step::Symlink { path } => {
            if let Ok(p) = host.expand(path) {
                if let Ok(text) = seatbelt_path(p) {
                    lemma_rules_ask_nothing(r.caps, seq![symlink_allowed(text)]);
                }
            }
        },
        _ => {},
    }
}

proof fn lemma_run_asks_new(r: Resolution, steps: Seq<Step>, host: &Host)
    requires
        asks_only_new(r.error, host),
    ensures
        asks_only_new(run(r, steps, host).error, host),
    decreases steps.len(),
{
    if steps.len() > 0 {
        lemma_run_asks_new(r, steps.drop_last(), host);
        lemma_step_asks_new(run(r, steps.drop_last(), host), steps.last(), host);
    }
}

/// A resolution that asks for a path to be looked at asks for one of which the
/// host knows nothing yet, so that each look brings it further.
pub proof fn lemma_probe_is_new(
    policy: RustPolicy,
    names: Seq<Seq<char>>,
    caps: CapabilitiesView,
    path: Seq<u8>,
    host: &Host,
)
    requires
        resolution(policy, names, caps, host).error == Some(PolicyErrorView::ProbeNeeded(path)),
    ensures
        !host.facts@.contains_key(path),
{
    lemma_run_asks_new(
        Resolution::start(caps),
        policy_steps(policy, names, host.platform),
        host,
    );
}

/// Whether `more` is the same host, of which at least as much is known.
pub open spec fn knows_more(more: &Host, host: &Host) -> bool {
    &&& more.platform == host.platform
    &&& more.home == host.home
    &&& more.tmpdir == host.tmpdir
    &&& forall|p: Seq<u8>| #[trigger]
        host.facts@.contains_key(p) ==> more.facts@.contains_key(p) && more.facts@[p]
            == host.facts@[p]
}

proof fn lemma_nearest_same(current: Seq<u8>, path: Seq<u8>, host: &Host, more: &Host)
    requires
        knows_more(more, host),
        nearest_existing(current, path, host) matches Err(e) ==> !asks_probe(Some(e)),
    ensures
        nearest_existing(current, path, more) == nearest_existing(current, path, host),
    decreases components(current).len(),
{
    if let (Some(_), Some(parent)) = (last_name(current), parent_of(current)) {
        lemma_parent_components(current);
        if host.fact(current) is Ok && !(host.fact(current)->Ok_0).exists {
            lemma_nearest_same(parent, path, host, more);
        }
    }
}

proof fn lemma_targets_same(path: Seq<char>, host: &Host, more: &Host)
    requires
        knows_more(more, host),
        deny_targets(path, host) matches Err(e) ==> !asks_probe(Some(e)),
    ensures
        deny_targets(path, more) == deny_targets(path, host),
{
    if let Ok(p) = host.locate(path) {
        if let Ok(fact) = host.fact(p) {
            if fact.canonical is NotFound {
                lemma_nearest_asks_new(p, p, host);
                lemma_nearest_same(p, p, host, more);
            }
        }
    }
}

proof fn lemma_denied_same(
    caps: CapabilitiesView,
    paths: Seq<Seq<u8>>,
    host: &Host,
    more: &Host,
)
    requires
        knows_more(more, host),
        !asks_probe(with_all_denied(caps, paths, host).error),
    ensures
        with_all_denied(caps, paths, more) == with_all_denied(caps, paths, host),
    decreases paths.len(),
{
    if paths.len() > 0 {
        lemma_denied_same(caps, paths.drop_last(), host, more);
    }
}

proof fn lemma_run_same(r: Resolution, steps: Seq<Step>, host: &Host, more: &Host)
    requires
        knows_more(more, host),
        !asks_probe(run(r, steps, host).error),
    ensures
        run(r, steps, more) == run(r, steps, host),
    decreases steps.len(),
{
    if steps.len() > 0 {
        let front = steps.drop_last();
        let before = run(r, front, host);
        lemma_run_same(r, front, host, more);
        if before.error is None {
            if let Step::Deny { path } = steps.last() {
                lemma_targets_same(path, host, more);
                if host.platform == Platform::MacOs {
                    if let Ok(targets) = deny_targets(path, host) {
                        lemma_denied_same(before.caps, targets, host, more);
                    }
                }
            }
        }
    }
}

/// Once a resolution does not ask for a path to be looked at, it is final:
/// knowing more paths changes nothing.
pub proof fn lemma_resolution_is_final(
    policy: RustPolicy,
    names: Seq<Seq<char>>,
    caps: CapabilitiesView,
    host: &Host,
    more: &Host,
)
    requires
        knows_more(more, host),
        !asks_probe(resolution(policy, names, caps, host).error),
    ensures
        resolution(policy, names, caps, more) == resolution(policy, names, caps, host),
{
    lemma_run_same(
        Resolution::start(caps),
        policy_steps(policy, names, host.platform),
        host,
        more,
    );
}

proof fn lemma_unlink_allowed(caps: CapabilitiesView, dirs: Seq<FsCapabilityView>)
    ensures
        ({
            let out = with_unlink_allowed(caps, dirs);
            &&& out.caps.fs == caps.fs
            &&& out.caps.network == caps.network
            &&& out.caps.rest == caps.rest
            &&& out.error is None ==> out.caps.rules.len() == caps.rules.len() + dirs.len()
                && caps.rules.is_prefix_of(out.caps.rules) && forall|i: int|
                0 <= i < dirs.len() ==> rule_path((#[trigger] dirs[i]).resolved) is Ok
                    && out.caps.rules[caps.rules.len() + i] == unlink_allowed(
                    rule_path(dirs[i].resolved)->Ok_0,
                )
        }),
    decreases dirs.len(),
{
    if dirs.len() == 0 {
        assert(caps.rules.take(caps.rules.len() as int) == caps.rules);
    } else if let Ok(text) = rule_path(dirs[0].resolved) {
        let rule = unlink_allowed(text);
        lemma_rules_are_appended(caps, seq![rule]);
        let next = with_rules(caps, seq![rule]);
        if next.error is None {
            let rest = dirs.drop_first();
            lemma_unlink_allowed(next.caps, rest);
            let out = with_unlink_allowed(next.caps, rest);
            if out.error is None {
                lemma_prefix_transitive(caps.rules, next.caps.rules, out.caps.rules);
                assert forall|i: int| 0 <= i < dirs.len() implies rule_path(
                    (#[trigger] dirs[i]).resolved,
                ) is Ok && out.caps.rules[caps.rules.len() + i] == unlink_allowed(
                    rule_path(dirs[i].resolved)->Ok_0,
                ) by {
                    if i == 0 {
                        let k = caps.rules.len() as int;
                        assert(out.caps.rules[k] == out.caps.rules.take(
                            next.caps.rules.len() as int,
                        )[k]);
                    } else {
                        assert(dirs[i] == rest[i - 1]);
                    }
                }
            }
        }
    }
}

/// The overrides touch nothing but the rules, and on Linux nothing at all;
/// where they succeed elsewhere they append one rule for each directory that
/// may be written, in order.
pub proof fn lemma_overrides_append_rules(caps: CapabilitiesView, platform: Platform)
    ensures
        ({
            let out = with_unlink_overrides(caps, platform);
            let dirs = writable_dirs(caps);
            &&& out.caps.fs == caps.fs
            &&& out.caps.network == caps.network
            &&& out.caps.rest == caps.rest
            &&& platform == Platform::Linux ==> out.error is None && out.caps == caps
            &&& platform != Platform::Linux && out.error is None ==> out.caps.rules.len()
                == caps.rules.len() + dirs.len() && caps.rules.is_prefix_of(out.caps.rules)
                && forall|i: int|
                0 <= i < dirs.len() ==> rule_path((#[trigger] dirs[i]).resolved) is Ok
                    && out.caps.rules[caps.rules.len() + i] == unlink_allowed(
                    rule_path(dirs[i].resolved)->Ok_0,
                )
        }),
{
    lemma_unlink_allowed(caps, writable_dirs(caps));
}

/// Resolving groups, whether it succeeds or not, neither brings nor takes away a
/// conflict between denied paths and allowed directories.
pub proof fn lemma_resolution_keeps_conflicts(
    policy: RustPolicy,
    names: Seq<Seq<char>>,
    caps: CapabilitiesView,
    host: &Host,
    paths: Seq<Seq<u8>>,
)
    ensures
        any_conflict(paths, resolution(policy, names, caps, host).caps.fs) == any_conflict(
            paths,
            caps.fs,
        ),
{
    let out = resolution(policy, names, caps, host).caps.fs;
    lemma_resolution_extends(policy, names, caps, host);
    lemma_grants_come_from_groups(policy, names, caps, host);
    let added = out.skip(caps.fs.len() as int);
    assert(out == caps.fs + added);
    assert forall|j: int| 0 <= j < added.len() implies !(
    #[trigger] added[j]).source.is_user_intent() by {
        assert(added[j] == out[caps.fs.len() + j]);
    }
    lemma_group_grants_never_conflict(paths, caps.fs, added);
}

} // verus!
