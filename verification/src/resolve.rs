//! Resolution: what the groups of a policy do to a capability set, and the
//! paths that they deny.

use vstd::prelude::*;

use crate::bytes::{
    below_bytes, byte_views, bytes_of, copy_bytes, copy_path, join_bytes, path_bytes, path_of_text,
    show_all, shown,
};
use crate::caps::{
    grown, lemma_grown_on, lemma_grown_same, network_if, AccessMode, Capabilities,
    CapabilitiesView, CapabilitySource, CapabilitySourceView, FsCapability, FsCapabilityView,
};
use crate::error::{PolicyError, PolicyErrorView};
use crate::host::{expand_path, Canonical, Grant, Host, Platform};
use crate::path::{
    components, file_name, last_name, lemma_parent_components, parent_of, path_eq, path_parent,
    same_path,
};
use crate::policy::{
    find_group, group_matches_platform, group_named, matches_platform, Group, Policy, RustPolicy,
};
use crate::seatbelt::{
    add_unlink_denied, allow_symlink, emit_deny_rules, reports, unlink_denied, with_deny_rules,
    with_rules, with_symlink, Outcome,
};
use crate::table::Table;
use crate::text::{bool_text, copy_strings, decimal, texts, write_bool, write_decimal};

verus! {

/// One thing that resolving a policy does.
pub enum Step {
    /// Lets a group's path be used.
    Grant { group: Seq<char>, path: Seq<char>, access: AccessMode },
    /// Denies a path.
    Deny { path: Seq<char> },
    /// Keeps files from being removed.
    DenyUnlink,
    /// Blocks the network.
    BlockNetwork,
    /// Lets a symbolic link be read.
    Symlink { path: Seq<char> },
    /// Ends a group.
    Finish { group: Seq<char>, overrides: bool },
    /// Meets a group that the policy does not have.
    Unknown { group: Seq<char> },
}

/// How far a resolution has come. The first error ends it.
#[verifier::ext_equal]
pub struct Resolution {
    pub caps: CapabilitiesView,
    pub deny_paths: Seq<Seq<u8>>,
    pub names: Seq<Seq<char>>,
    pub needs_unlink_overrides: bool,
    pub error: Option<PolicyErrorView>,
}

impl Resolution {
    /// A resolution that has not begun.
    pub open spec fn start(caps: CapabilitiesView) -> Resolution {
        Resolution {
            caps,
            deny_paths: Seq::empty(),
            names: Seq::empty(),
            needs_unlink_overrides: false,
            error: None,
        }
    }
}

/// What comes of letting `path` be used: a path that exists, and for which a
/// capability can be made, gets one; another one is passed over.
pub open spec fn granted(
    caps: CapabilitiesView,
    group: Seq<char>,
    path: Seq<char>,
    access: AccessMode,
    host: &Host,
) -> Outcome {
    match host.locate(path) {
        Err(e) => Outcome { caps, error: Some(e) },
        Ok(p) => match host.fact(p) {
            Err(e) => Outcome { caps, error: Some(e) },
            Ok(fact) => if !fact.exists {
                Outcome { caps, error: None }
            } else {
                match fact.grant {
                    Grant::Refused => Outcome { caps, error: None },
                    Grant::Path(resolved) => {
                        let cap = FsCapabilityView {
                            original: p,
                            resolved: path_bytes(resolved),
                            access,
                            is_file: !fact.is_dir,
                            source: CapabilitySourceView::Group(group),
                        };
                        Outcome {
                            caps: CapabilitiesView { fs: caps.fs.push(cap), ..caps },
                            error: None,
                        }
                    },
                }
            },
        },
    }
}

/// The nearest directory at or above `current` that exists, and the names that
/// lead from it down to `current`. `path` is what an error speaks of.
pub open spec fn nearest_existing(current: Seq<u8>, path: Seq<u8>, host: &Host) -> Result<
    (Seq<u8>, Seq<Seq<u8>>),
    PolicyErrorView,
>
    decreases components(current).len(),
{
    match host.fact(current) {
        Err(e) => Err(e),
        Ok(fact) => if fact.exists {
            Ok((current, Seq::empty()))
        } else {
            match (last_name(current), parent_of(current)) {
                (Some(name), Some(parent)) => {
                    proof {
                        lemma_parent_components(current);
                    }
                    with_tail(nearest_existing(parent, path, host), seq![name])
                },
                _ => Err(PolicyErrorView::NoParent(path)),
            }
        },
    }
}

/// What was found, with more names behind it.
pub open spec fn with_tail(
    found: Result<(Seq<u8>, Seq<Seq<u8>>), PolicyErrorView>,
    tail: Seq<Seq<u8>>,
) -> Result<(Seq<u8>, Seq<Seq<u8>>), PolicyErrorView> {
    match found {
        Ok((dir, names)) => Ok((dir, names + tail)),
        Err(e) => Err(e),
    }
}

/// The path that leads from `dir` down by `names`.
pub open spec fn descend(dir: Seq<u8>, names: Seq<Seq<u8>>) -> Seq<u8>
    decreases names.len(),
{
    if names.len() == 0 {
        dir
    } else {
        below_bytes(descend(dir, names.drop_last()), names.last())
    }
}

/// Where a path that does not exist would be, once the symbolic links above it
/// are followed; `None` where that is the path itself.
pub open spec fn behind_symlinks(path: Seq<u8>, host: &Host) -> Result<
    Option<Seq<u8>>,
    PolicyErrorView,
> {
    match nearest_existing(path, path, host) {
        Err(e) => Err(e),
        Ok((dir, names)) => match host.fact(dir)->Ok_0.canonical {
            Canonical::Resolved(canonical) => {
                let resolved = descend(canonical@, names);
                if same_path(resolved, path) {
                    Ok(None)
                } else {
                    Ok(Some(resolved))
                }
            },
            Canonical::NotFound(reason) => Err(
                PolicyErrorView::ParentNotCanonical { path: dir, reason: reason@ },
            ),
            Canonical::Failed(reason) => Err(
                PolicyErrorView::ParentNotCanonical { path: dir, reason: reason@ },
            ),
        },
    }
}

/// The paths that denying `path` denies: the path as the policy means it, and
/// the path behind the symbolic links that it goes through, where they differ.
pub open spec fn deny_targets(path: Seq<char>, host: &Host) -> Result<
    Seq<Seq<u8>>,
    PolicyErrorView,
> {
    match host.locate(path) {
        Err(e) => Err(e),
        Ok(p) => match host.fact(p) {
            Err(e) => Err(e),
            Ok(fact) => match fact.canonical {
                Canonical::Resolved(canonical) => if same_path(canonical@, p) {
                    Ok(seq![p])
                } else {
                    Ok(seq![p, canonical@])
                },
                Canonical::NotFound(_) => match behind_symlinks(p, host) {
                    Err(e) => Err(e),
                    Ok(None) => Ok(seq![p]),
                    Ok(Some(resolved)) => Ok(seq![p, resolved]),
                },
                Canonical::Failed(reason) => Err(
                    PolicyErrorView::NotCanonical { path: p, reason: reason@ },
                ),
                },
        },
    }
}

/// The paths that denying `path` puts on the list of denied paths: all that it
/// denies, or the path as the policy means it where the others are not found out.
pub open spec fn deny_listed(path: Seq<char>, host: &Host) -> Seq<Seq<u8>> {
    match host.locate(path) {
        Err(_) => Seq::empty(),
        Ok(p) => match deny_targets(path, host) {
            Ok(targets) => targets,
            Err(_) => seq![p],
        },
    }
}

/// What comes of denying access to each of `paths` by rules, in order.
pub open spec fn with_all_denied(
    caps: CapabilitiesView,
    paths: Seq<Seq<u8>>,
    host: &Host,
) -> Outcome
    decreases paths.len(),
{
    if paths.len() == 0 {
        Outcome { caps, error: None }
    } else {
        let before = with_all_denied(caps, paths.drop_last(), host);
        if before.error is Some {
            before
        } else {
            with_deny_rules(before.caps, paths.last(), host)
        }
    }
}

/// What one step does.
pub open spec fn step(r: Resolution, s: Step, host: &Host) -> Resolution {
    if r.error is Some {
        r
    } else {
        match s {
            Step::Grant { group, path, access } => {
                let out = granted(r.caps, group, path, access, host);
                Resolution { caps: out.caps, error: out.error, ..r }
            },
            Step::Deny { path } => match deny_targets(path, host) {
                Err(e) => Resolution {
                    error: Some(e),
                    deny_paths: r.deny_paths + deny_listed(path, host),
                    ..r
                },
                Ok(targets) => {
                    let out = if host.platform == Platform::MacOs {
                        with_all_denied(r.caps, targets, host)
                    } else {
                        Outcome { caps: r.caps, error: None }
                    };
                    Resolution {
                        caps: out.caps,
                        error: out.error,
                        deny_paths: r.deny_paths + deny_listed(path, host),
                        ..r
                    }
                },
            },
            Step::DenyUnlink => {
                let out = with_rules(r.caps, seq![unlink_denied()]);
                Resolution { caps: out.caps, error: out.error, ..r }
            },
            Step::BlockNetwork => Resolution {
                caps: CapabilitiesView { network: network_if(true), ..r.caps },
                ..r
            },
            Step::Symlink { path } => match host.expand(path) {
                Err(e) => Resolution { error: Some(e), ..r },
                Ok(p) => {
                    let out = with_symlink(r.caps, p);
                    Resolution { caps: out.caps, error: out.error, ..r }
                },
            },
            Step::Finish { group, overrides } => Resolution {
                names: r.names.push(group),
                needs_unlink_overrides: r.needs_unlink_overrides || overrides,
                ..r
            },
            Step::Unknown { group } => Resolution {
                error: Some(PolicyErrorView::UnknownGroup(group)),
                ..r
            },
        }
    }
}

/// What the steps do, one after the other.
pub open spec fn run(r: Resolution, steps: Seq<Step>, host: &Host) -> Resolution
    decreases steps.len(),
{
    if steps.len() == 0 {
        r
    } else {
        step(run(r, steps.drop_last(), host), steps.last(), host)
    }
}

/// The steps that let a group's paths be used.
pub open spec fn grant_steps(group: Seq<char>, paths: Seq<Seq<char>>, access: AccessMode) -> Seq<
    Step,
> {
    paths.map_values(|path: Seq<char>| Step::Grant { group, path, access })
}

/// The steps for what a group allows.
pub open spec fn allow_steps(name: Seq<char>, group: Group) -> Seq<Step> {
    match group.allow {
        Some(allow) => grant_steps(name, texts(allow.read@), AccessMode::Read) + grant_steps(
            name,
            texts(allow.write@),
            AccessMode::Write,
        ) + grant_steps(name, texts(allow.readwrite@), AccessMode::ReadWrite),
        None => Seq::empty(),
    }
}

/// The steps that deny paths.
pub open spec fn path_deny_steps(paths: Seq<Seq<char>>) -> Seq<Step> {
    paths.map_values(|path: Seq<char>| Step::Deny { path })
}

/// The steps for what a group denies.
pub open spec fn deny_steps(group: Group, platform: Platform) -> Seq<Step> {
    match group.deny {
        Some(deny) => path_deny_steps(texts(deny.access@)) + (if deny.unlink && platform
            == Platform::MacOs {
            seq![Step::DenyUnlink]
        } else {
            Seq::empty()
        }),
        None => Seq::empty(),
    }
}

/// The steps for what a group says of the network.
pub open spec fn network_steps(group: Group) -> Seq<Step> {
    match group.network {
        Some(network) => if network.block {
            seq![Step::BlockNetwork]
        } else {
            Seq::empty()
        },
        None => Seq::empty(),
    }
}

/// The steps for a group's symbolic links, which only macOS needs.
pub open spec fn symlink_steps(group: Group, platform: Platform) -> Seq<Step> {
    match group.symlink_pairs {
        Some(pairs) => if platform == Platform::MacOs {
            pairs.rows().map_values(|row: (Seq<char>, String)| Step::Symlink { path: row.0 })
        } else {
            Seq::empty()
        },
        None => Seq::empty(),
    }
}

/// The steps for one group.
pub open spec fn group_steps(name: Seq<char>, group: Group, platform: Platform) -> Seq<Step> {
    allow_steps(name, group) + deny_steps(group, platform) + network_steps(group) + symlink_steps(
        group,
        platform,
    )
}

/// Whether a group wants directories that may be written to be exempt from the
/// ban on removing files.
pub open spec fn wants_overrides(group: Group) -> bool {
    match group.deny {
        Some(deny) => deny.unlink_override_for_user_writable,
        None => false,
    }
}

/// The steps for the group that the policy has under `name`; a group for
/// another platform has none.
pub open spec fn named_steps(policy: RustPolicy, name: Seq<char>, platform: Platform) -> Seq<Step> {
    match group_named(policy, name) {
        None => seq![Step::Unknown { group: name }],
        Some(group) => if matches_platform(group, platform) {
            group_steps(name, group, platform).push(
                Step::Finish { group: name, overrides: wants_overrides(group) },
            )
        } else {
            Seq::empty()
        },
    }
}

/// The steps for the groups `names`, in order.
pub open spec fn policy_steps(policy: RustPolicy, names: Seq<Seq<char>>, platform: Platform) -> Seq<
    Step,
>
    decreases names.len(),
{
    if names.len() == 0 {
        Seq::empty()
    } else {
        policy_steps(policy, names.drop_last(), platform) + named_steps(
            policy,
            names.last(),
            platform,
        )
    }
}

/// What resolving the groups `names` comes to.
pub open spec fn resolution(
    policy: RustPolicy,
    names: Seq<Seq<char>>,
    caps: CapabilitiesView,
    host: &Host,
) -> Resolution {
    run(Resolution::start(caps), policy_steps(policy, names, host.platform), host)
}

/// Running steps in two parts is running them at once.
pub proof fn lemma_run_splits(r: Resolution, a: Seq<Step>, b: Seq<Step>, host: &Host)
    ensures
        run(r, a + b, host) == run(run(r, a, host), b, host),
    decreases b.len(),
{
    if b.len() == 0 {
        assert(a + b == a);
    } else {
        lemma_run_splits(r, a, b.drop_last(), host);
        assert((a + b).drop_last() == a + b.drop_last());
        assert((a + b).last() == b.last());
    }
}

/// After an error nothing more happens.
pub proof fn lemma_run_stops(r: Resolution, steps: Seq<Step>, host: &Host)
    requires
        r.error is Some,
    ensures
        run(r, steps, host) == r,
    decreases steps.len(),
{
    if steps.len() > 0 {
        lemma_run_stops(r, steps.drop_last(), host);
    }
}

/// Lets a group's path be used.
pub fn add_fs_capability(
    path_str: &str,
    mode: AccessMode,
    group_name: &str,
    caps: &mut Capabilities,
    host: &Host,
) -> (r: Result<(), PolicyError>)
    ensures
        grown(*old(caps), *final(caps)),
        final(caps)@ == granted(old(caps)@, group_name@, path_str@, mode, host).caps,
        reports(r, granted(old(caps)@, group_name@, path_str@, mode, host).error),
{
    proof {
        lemma_grown_same(*caps);
    }
    let path = expand_path(path_str, host)?;
    let fact = host.look_up(bytes_of(path.as_str()).as_slice())?;
    if !fact.exists {
        return Ok(());
    }
    match &fact.grant {
        Grant::Refused => Ok(()),
        Grant::Path(resolved) => {
            caps.add_fs(
                FsCapability {
                    original: path_of_text(path),
                    resolved: copy_path(resolved),
                    access: mode,
                    is_file: !fact.is_dir,
                    source: CapabilitySource::Group(group_name.to_owned()),
                },
            );
            Ok(())
        },
    }
}

/// Where a path that does not exist would be, once the symbolic links above it
/// are followed; `None` where that is the path itself.
pub fn resolve_parent_symlinks(path: &[u8], host: &Host) -> (r: Result<Option<Vec<u8>>, PolicyError>)
    ensures
        match r {
            Ok(None) => behind_symlinks(path@, host) == Ok::<Option<Seq<u8>>, PolicyErrorView>(
                None,
            ),
            Ok(Some(p)) => behind_symlinks(path@, host) == Ok::<Option<Seq<u8>>, PolicyErrorView>(
                Some(p@),
            ),
            Err(e) => behind_symlinks(path@, host) == Err::<Option<Seq<u8>>, PolicyErrorView>(e@),
        },
{
    let mut suffix: Vec<Vec<u8>> = Vec::new();
    let mut current: Vec<u8> = copy_bytes(path);
    let ghost whole = nearest_existing(path@, path@, host);
    proof {
        let here = nearest_existing(current@, path@, host);
        assert(byte_views(suffix@).reverse() =~= Seq::empty());
        if here is Ok {
            assert((here->Ok_0).1 + Seq::<Seq<u8>>::empty() =~= (here->Ok_0).1);
        }
    }
    loop
        invariant
            whole == nearest_existing(path@, path@, host),
            whole == with_tail(
                nearest_existing(current@, path@, host),
                byte_views(suffix@).reverse(),
            ),
        ensures
            host.fact(current@) is Ok,
            (host.fact(current@)->Ok_0).exists,
            whole == Ok::<(Seq<u8>, Seq<Seq<u8>>), PolicyErrorView>(
                (current@, byte_views(suffix@).reverse()),
            ),
        decreases components(current@).len(),
    {
        let fact = host.look_up(current.as_slice())?;
        if fact.exists {
            assert(Seq::<Seq<u8>>::empty() + byte_views(suffix@).reverse() =~= byte_views(
                suffix@,
            ).reverse());
            break ;
        }
        let name = match file_name(current.as_slice()) {
            Some(name) => name,
            None => {
                return Err(PolicyError::NoParent(copy_bytes(path)));
            },
        };
        let parent = match path_parent(current.as_slice()) {
            Some(parent) => parent,
            None => {
                return Err(PolicyError::NoParent(copy_bytes(path)));
            },
        };
        let ghost had = byte_views(suffix@);
        let ghost word = name@;
        suffix.push(name);
        proof {
            assert(byte_views(suffix@) == had.push(word));
            assert(byte_views(suffix@).reverse() =~= seq![word] + had.reverse());
            let above = nearest_existing(parent@, path@, host);
            if above is Ok {
                let ns = (above->Ok_0).1;
                assert((ns + seq![word]) + had.reverse() =~= ns + (seq![word] + had.reverse()));
            }
        }
        current = parent;
    }
    let fact = host.look_up(current.as_slice())?;
    let mut resolved: Vec<u8> = match &fact.canonical {
        Canonical::Resolved(canonical) => copy_bytes(canonical.as_slice()),
        Canonical::NotFound(reason) => {
            return Err(
                PolicyError::ParentNotCanonical { path: current, reason: reason.clone() },
            );
        },
        Canonical::Failed(reason) => {
            return Err(
                PolicyError::ParentNotCanonical { path: current, reason: reason.clone() },
            );
        },
    };
    let ghost base = resolved@;
    let ghost names = byte_views(suffix@).reverse();
    let mut i: usize = suffix.len();
    while i > 0
        invariant
            i <= suffix@.len(),
            names == byte_views(suffix@).reverse(),
            resolved@ == descend(base, names.take(suffix@.len() - i)),
        decreases i,
    {
        i -= 1;
        resolved = join_bytes(resolved.as_slice(), suffix[i].as_slice());
        proof {
            let now = names.take(suffix@.len() - i);
            assert(now.drop_last() == names.take(suffix@.len() - i - 1));
            assert(now.last() == suffix@[i as int]@);
        }
    }
    assert(names.take(suffix@.len() as int) == names);
    if path_eq(resolved.as_slice(), path) {
        Ok(None)
    } else {
        Ok(Some(resolved))
    }
}

/// The other path that denying `path` denies, if there is one. `path_str` is how
/// the policy writes it.
fn other_deny_target(
    path: &[u8],
    host: &Host,
    Ghost(path_str): Ghost<Seq<char>>,
) -> (r: Result<Option<Vec<u8>>, PolicyError>)
    requires
        host.locate(path_str) == Ok::<Seq<u8>, PolicyErrorView>(path@),
    ensures
        match r {
            Ok(None) => deny_targets(path_str, host) == Ok::<Seq<Seq<u8>>, PolicyErrorView>(
                seq![path@],
            ),
            Ok(Some(other)) => deny_targets(path_str, host) == Ok::<
                Seq<Seq<u8>>,
                PolicyErrorView,
            >(seq![path@, other@]),
            Err(e) => deny_targets(path_str, host) == Err::<Seq<Seq<u8>>, PolicyErrorView>(e@),
        },
{
    let fact = host.look_up(path)?;
    match &fact.canonical {
        Canonical::Resolved(canonical) => if path_eq(canonical.as_slice(), path) {
            Ok(None)
        } else {
            Ok(Some(copy_bytes(canonical.as_slice())))
        },
        Canonical::NotFound(_) => resolve_parent_symlinks(path, host),
        Canonical::Failed(reason) => Err(
            PolicyError::NotCanonical { path: copy_bytes(path), reason: reason.clone() },
        ),
    }
}

/// Denies access to each of `targets` by rules, in order.
fn deny_by_rules(targets: &[Vec<u8>], caps: &mut Capabilities, host: &Host) -> (r: Result<
    (),
    PolicyError,
>)
    ensures
        grown(*old(caps), *final(caps)),
        final(caps)@ == with_all_denied(old(caps)@, byte_views(targets@), host).caps,
        reports(r, with_all_denied(old(caps)@, byte_views(targets@), host).error),
{
    let ghost all = byte_views(targets@);
    assert(all.take(0) =~= Seq::empty());
    proof {
        lemma_grown_same(*caps);
    }
    for i in 0..targets.len()
        invariant
            grown(*old(caps), *caps),
            all == byte_views(targets@),
            with_all_denied(old(caps)@, all.take(i as int), host) == (Outcome {
                caps: caps@,
                error: None,
            }),
    {
        proof {
            assert(all.take(i + 1).drop_last() == all.take(i as int));
            assert(all.take(i + 1).last() == targets@[i as int]@);
        }
        let ghost earlier = *caps;
        let emitted = emit_deny_rules(targets[i].as_slice(), caps, host);
        proof {
            lemma_grown_on(*old(caps), earlier, *caps);
        }
        if let Err(e) = emitted {
            proof {
                lemma_denial_stops(old(caps)@, all, i + 1, host);
            }
            return Err(e);
        }
    }
    assert(all.take(all.len() as int) == all);
    Ok(())
}

/// Denies a path: everywhere by noting what is denied, and on macOS by rules too.
/// What was noted until an error stays. Off macOS, and where it is not found out
/// which paths are denied, the set stays as it is.
pub fn add_deny_access_rules(
    path_str: &str,
    caps: &mut Capabilities,
    deny_paths: &mut Vec<Vec<u8>>,
    host: &Host,
) -> (r: Result<(), PolicyError>)
    ensures
        grown(*old(caps), *final(caps)),
        host.platform != Platform::MacOs || deny_targets(path_str@, host) is Err ==> *final(caps)
            == *old(caps),
        ({
            let before = Resolution {
                deny_paths: byte_views(old(deny_paths)@),
                ..Resolution::start(old(caps)@)
            };
            let after = step(before, Step::Deny { path: path_str@ }, host);
            &&& final(caps)@ == after.caps
            &&& reports(r, after.error)
            &&& byte_views(final(deny_paths)@) == after.deny_paths
        }),
{
    let ghost had = byte_views(deny_paths@);
    proof {
        lemma_grown_same(*caps);
    }
    let path = match expand_path(path_str, host) {
        Ok(path) => bytes_of(path.as_str()),
        Err(e) => {
            assert(had + Seq::<Seq<u8>>::empty() =~= had);
            return Err(e);
        },
    };
    let ghost first = path@;
    deny_paths.push(copy_bytes(path.as_slice()));
    assert(byte_views(deny_paths@) =~= had + seq![first]);
    let other = other_deny_target(path.as_slice(), host, Ghost(path_str@))?;
    let mut targets: Vec<Vec<u8>> = Vec::new();
    targets.push(path);
    assert(byte_views(targets@) =~= seq![first]);
    if let Some(second) = other {
        let ghost word = second@;
        deny_paths.push(copy_bytes(second.as_slice()));
        targets.push(second);
        assert(byte_views(deny_paths@) =~= had + seq![first, word]);
        assert(byte_views(targets@) =~= seq![first, word]);
    }
    if host.platform == Platform::MacOs {
        deny_by_rules(targets.as_slice(), caps, host)?;
    }
    Ok(())
}

proof fn lemma_denial_stops(
    caps: CapabilitiesView,
    paths: Seq<Seq<u8>>,
    n: int,
    host: &Host,
)
    requires
        0 <= n <= paths.len(),
        with_all_denied(caps, paths.take(n), host).error is Some,
    ensures
        with_all_denied(caps, paths, host) == with_all_denied(caps, paths.take(n), host),
    decreases paths.len() - n,
{
    if n == paths.len() {
        assert(paths.take(n) == paths);
    } else {
        assert(paths.take(n + 1).drop_last() == paths.take(n));
        lemma_denial_stops(caps, paths, n + 1, host);
    }
}

/// Where some of the steps end in an error, so do all of them.
pub proof fn lemma_error_ends_run(r: Resolution, steps: Seq<Step>, n: int, host: &Host)
    requires
        0 <= n <= steps.len(),
        run(r, steps.take(n), host).error is Some,
    ensures
        run(r, steps, host) == run(r, steps.take(n), host),
{
    assert(steps.take(n) + steps.skip(n) == steps);
    lemma_run_splits(r, steps.take(n), steps.skip(n), host);
    lemma_run_stops(run(r, steps.take(n), host), steps.skip(n), host);
}

proof fn lemma_one_step(r: Resolution, s: Step, host: &Host)
    ensures
        run(r, seq![s], host) == step(r, s, host),
{
    assert(seq![s].drop_last() == Seq::<Step>::empty());
    assert(run(r, Seq::<Step>::empty(), host) == r);
}

/// Lets each of a group's `paths` be used.
fn grant_all(
    paths: &Vec<String>,
    mode: AccessMode,
    group_name: &str,
    caps: &mut Capabilities,
    host: &Host,
    Ghost(before): Ghost<Resolution>,
) -> (r: Result<(), PolicyError>)
    requires
        before.caps == old(caps)@,
        before.error is None,
    ensures
        grown(*old(caps), *final(caps)),
        ({
            let after = run(before, grant_steps(group_name@, texts(paths@), mode), host);
            &&& after == Resolution { caps: final(caps)@, error: after.error, ..before }
            &&& reports(r, after.error)
        }),
{
    let ghost steps = grant_steps(group_name@, texts(paths@), mode);
    assert(steps.take(0) =~= Seq::empty());
    proof {
        lemma_grown_same(*caps);
    }
    for i in 0..paths.len()
        invariant
            grown(*old(caps), *caps),
            steps == grant_steps(group_name@, texts(paths@), mode),
            before.error is None,
            run(before, steps.take(i as int), host) == (Resolution { caps: caps@, ..before }),
    {
        proof {
            assert(steps.take(i + 1).drop_last() == steps.take(i as int));
            assert(steps.take(i + 1).last() == Step::Grant {
                group: group_name@,
                path: paths@[i as int]@,
                access: mode,
            });
        }
        let ghost earlier = *caps;
        let added = add_fs_capability(paths[i].as_str(), mode, group_name, caps, host);
        proof {
            lemma_grown_on(*old(caps), earlier, *caps);
        }
        if let Err(e) = added {
            proof {
                lemma_error_ends_run(before, steps, i + 1, host);
            }
            return Err(e);
        }
    }
    assert(steps.take(steps.len() as int) == steps);
    Ok(())
}

/// Denies each of `paths`.
fn deny_all(
    paths: &Vec<String>,
    caps: &mut Capabilities,
    deny_paths: &mut Vec<Vec<u8>>,
    host: &Host,
    Ghost(before): Ghost<Resolution>,
) -> (r: Result<(), PolicyError>)
    requires
        before.caps == old(caps)@,
        before.deny_paths == byte_views(old(deny_paths)@),
        before.error is None,
    ensures
        grown(*old(caps), *final(caps)),
        ({
            let after = run(before, path_deny_steps(texts(paths@)), host);
            &&& reports(r, after.error)
            &&& after == Resolution {
                caps: final(caps)@,
                deny_paths: byte_views(final(deny_paths)@),
                error: after.error,
                ..before
            }
        }),
{
    let ghost steps = path_deny_steps(texts(paths@));
    assert(steps.take(0) =~= Seq::empty());
    proof {
        lemma_grown_same(*caps);
    }
    for i in 0..paths.len()
        invariant
            grown(*old(caps), *caps),
            steps == path_deny_steps(texts(paths@)),
            before.error is None,
            run(before, steps.take(i as int), host) == (Resolution {
                caps: caps@,
                deny_paths: byte_views(deny_paths@),
                ..before
            }),
    {
        proof {
            assert(steps.take(i + 1).drop_last() == steps.take(i as int));
            assert(steps.take(i + 1).last() == Step::Deny { path: paths@[i as int]@ });
        }
        let ghost earlier = *caps;
        let denied = add_deny_access_rules(paths[i].as_str(), caps, deny_paths, host);
        proof {
            lemma_grown_on(*old(caps), earlier, *caps);
        }
        if let Err(e) = denied {
            proof {
                lemma_error_ends_run(before, steps, i + 1, host);
            }
            return Err(e);
        }
    }
    assert(steps.take(steps.len() as int) == steps);
    Ok(())
}

/// Lets each symbolic link of a group be read.
fn allow_symlinks(
    pairs: &Table<String>,
    caps: &mut Capabilities,
    host: &Host,
    Ghost(before): Ghost<Resolution>,
) -> (r: Result<(), PolicyError>)
    requires
        before.caps == old(caps)@,
        before.error is None,
    ensures
        grown(*old(caps), *final(caps)),
        ({
            let steps = pairs.rows().map_values(
                |row: (Seq<char>, String)| Step::Symlink { path: row.0 },
            );
            let after = run(before, steps, host);
            &&& after == Resolution { caps: final(caps)@, error: after.error, ..before }
            &&& reports(r, after.error)
        }),
{
    let ghost steps = pairs.rows().map_values(
        |row: (Seq<char>, String)| Step::Symlink { path: row.0 },
    );
    assert(steps.take(0) =~= Seq::empty());
    proof {
        lemma_grown_same(*caps);
    }
    let n: usize = pairs.len();
    for i in 0..n
        invariant
            grown(*old(caps), *caps),
            n == pairs.rows().len(),
            steps == pairs.rows().map_values(
                |row: (Seq<char>, String)| Step::Symlink { path: row.0 },
            ),
            before.error is None,
            run(before, steps.take(i as int), host) == (Resolution { caps: caps@, ..before }),
    {
        proof {
            assert(steps.take(i + 1).drop_last() == steps.take(i as int));
            assert(steps.take(i + 1).last() == Step::Symlink { path: pairs.rows()[i as int].0 });
        }
        let link = pairs.key_at(i);
        match expand_path(link.as_str(), host) {
            Ok(path) => {
                let ghost earlier = *caps;
                let allowed = allow_symlink(path.as_str(), caps);
                proof {
                    lemma_grown_on(*old(caps), earlier, *caps);
                }
                if let Err(e) = allowed {
                    proof {
                        lemma_error_ends_run(before, steps, i + 1, host);
                    }
                    return Err(e);
                }
            },
            Err(e) => {
                proof {
                    lemma_error_ends_run(before, steps, i + 1, host);
                }
                return Err(e);
            },
        }
    }
    assert(steps.take(steps.len() as int) == steps);
    Ok(())
}

/// Resolves what a group allows.
fn resolve_allow(
    group_name: &str,
    group: &Group,
    caps: &mut Capabilities,
    host: &Host,
    Ghost(before): Ghost<Resolution>,
) -> (r: Result<(), PolicyError>)
    requires
        before.caps == old(caps)@,
        before.error is None,
    ensures
        grown(*old(caps), *final(caps)),
        ({
            let after = run(before, allow_steps(group_name@, *group), host);
            &&& after == Resolution { caps: final(caps)@, error: after.error, ..before }
            &&& reports(r, after.error)
        }),
{
    proof {
        lemma_grown_same(*caps);
    }
    if let Some(allow) = &group.allow {
        let ghost a = grant_steps(group_name@, texts(allow.read@), AccessMode::Read);
        let ghost b = grant_steps(group_name@, texts(allow.write@), AccessMode::Write);
        let ghost c = grant_steps(group_name@, texts(allow.readwrite@), AccessMode::ReadWrite);
        proof {
            lemma_run_splits(before, a, b, host);
            lemma_run_splits(before, a + b, c, host);
            assert((a + b + c).take(a.len() as int) == a);
            assert((a + b + c).take((a + b).len() as int) == a + b);
        }
        let read = grant_all(&allow.read, AccessMode::Read, group_name, caps, host, Ghost(before));
        if let Err(e) = read {
            proof {
                lemma_error_ends_run(before, a + b + c, a.len() as int, host);
            }
            return Err(e);
        }
        let ghost mid = run(before, a, host);
        let ghost first = *caps;
        let write = grant_all(&allow.write, AccessMode::Write, group_name, caps, host, Ghost(mid));
        proof {
            lemma_grown_on(*old(caps), first, *caps);
        }
        if let Err(e) = write {
            proof {
                lemma_error_ends_run(before, a + b + c, (a + b).len() as int, host);
            }
            return Err(e);
        }
        let ghost late = run(before, a + b, host);
        let ghost second = *caps;
        let both = grant_all(
            &allow.readwrite,
            AccessMode::ReadWrite,
            group_name,
            caps,
            host,
            Ghost(late),
        );
        proof {
            lemma_grown_on(*old(caps), second, *caps);
        }
        both
    } else {
        Ok(())
    }
}

/// Resolves what a group denies.
fn resolve_deny(
    group: &Group,
    caps: &mut Capabilities,
    deny_paths: &mut Vec<Vec<u8>>,
    host: &Host,
    Ghost(before): Ghost<Resolution>,
) -> (r: Result<bool, PolicyError>)
    requires
        before.caps == old(caps)@,
        before.deny_paths == byte_views(old(deny_paths)@),
        before.error is None,
    ensures
        grown(*old(caps), *final(caps)),
        ({
            let after = run(before, deny_steps(*group, host.platform), host);
            &&& after == Resolution {
                caps: final(caps)@,
                deny_paths: byte_views(final(deny_paths)@),
                error: after.error,
                ..before
            }
            &&& match r {
                Ok(overrides) => overrides == wants_overrides(*group) && after.error is None,
                Err(e) => after.error == Some(e@),
            }
        }),
{
    proof {
        lemma_grown_same(*caps);
    }
    if let Some(deny) = &group.deny {
        let ghost a = path_deny_steps(texts(deny.access@));
        let ghost b = if deny.unlink && host.platform == Platform::MacOs {
            seq![Step::DenyUnlink]
        } else {
            Seq::<Step>::empty()
        };
        proof {
            lemma_run_splits(before, a, b, host);
            assert((a + b).take(a.len() as int) == a);
            lemma_one_step(run(before, a, host), Step::DenyUnlink, host);
        }
        if let Err(e) = deny_all(&deny.access, caps, deny_paths, host, Ghost(before)) {
            proof {
                lemma_error_ends_run(before, a + b, a.len() as int, host);
            }
            return Err(e);
        }
        if deny.unlink && host.platform == Platform::MacOs {
            let ghost earlier = *caps;
            let added = add_unlink_denied(caps);
            proof {
                lemma_grown_on(*old(caps), earlier, *caps);
            }
            added?;
        }
        Ok(deny.unlink_override_for_user_writable)
    } else {
        Ok(false)
    }
}

/// Resolves one group, and says whether it wants directories that may be
/// written to be exempt from the ban on removing files.
fn resolve_single_group(
    group_name: &str,
    group: &Group,
    caps: &mut Capabilities,
    deny_paths: &mut Vec<Vec<u8>>,
    host: &Host,
    Ghost(before): Ghost<Resolution>,
) -> (r: Result<bool, PolicyError>)
    requires
        before.caps == old(caps)@,
        before.deny_paths == byte_views(old(deny_paths)@),
        before.error is None,
    ensures
        grown(*old(caps), *final(caps)),
        ({
            let after = run(before, group_steps(group_name@, *group, host.platform), host);
            &&& after == Resolution {
                caps: final(caps)@,
                deny_paths: byte_views(final(deny_paths)@),
                error: after.error,
                ..before
            }
            &&& match r {
                Ok(overrides) => overrides == wants_overrides(*group) && after.error is None,
                Err(e) => after.error == Some(e@),
            }
        }),
{
    let ghost a = allow_steps(group_name@, *group);
    let ghost d = deny_steps(*group, host.platform);
    let ghost n = network_steps(*group);
    let ghost l = symlink_steps(*group, host.platform);
    let ghost all = a + d + n + l;
    proof {
        lemma_run_splits(before, a, d, host);
        lemma_run_splits(before, a + d, n, host);
        lemma_run_splits(before, a + d + n, l, host);
        assert(all.take(a.len() as int) == a);
        assert(all.take((a + d).len() as int) == a + d);
        lemma_one_step(run(before, a + d, host), Step::BlockNetwork, host);
    }
    if let Err(e) = resolve_allow(group_name, group, caps, host, Ghost(before)) {
        proof {
            lemma_error_ends_run(before, all, a.len() as int, host);
        }
        return Err(e);
    }
    let ghost mid = run(before, a, host);
    let ghost first = *caps;
    let denied = resolve_deny(group, caps, deny_paths, host, Ghost(mid));
    proof {
        lemma_grown_on(*old(caps), first, *caps);
    }
    let overrides = match denied {
        Ok(overrides) => overrides,
        Err(e) => {
            proof {
                lemma_error_ends_run(before, all, (a + d).len() as int, host);
            }
            return Err(e);
        },
    };
    if let Some(network) = &group.network {
        if network.block {
            let ghost second = *caps;
            caps.set_network_blocked(true);
            proof {
                lemma_grown_on(*old(caps), second, *caps);
            }
        }
    }
    let ghost late = run(before, a + d + n, host);
    assert(late == Resolution { caps: caps@, deny_paths: byte_views(deny_paths@), ..before });
    if host.platform == Platform::MacOs {
        if let Some(pairs) = &group.symlink_pairs {
            let ghost third = *caps;
            let linked = allow_symlinks(pairs, caps, host, Ghost(late));
            proof {
                lemma_grown_on(*old(caps), third, *caps);
            }
            linked?;
        }
    }
    Ok(overrides)
}

/// Whether a group of the policy is meant for the platform.
pub open spec fn is_active(policy: RustPolicy, name: Seq<char>, platform: Platform) -> bool {
    group_named(policy, name) matches Some(group) && matches_platform(group, platform)
}

/// Whether no group applies before the end of `names`, or before one that the policy
/// does not have.
pub open spec fn none_applies(policy: RustPolicy, names: Seq<Seq<char>>, platform: Platform) -> bool
    decreases names.len(),
{
    ||| names.len() == 0
    ||| group_named(policy, names[0]) is None
    ||| !is_active(policy, names[0], platform) && none_applies(policy, names.drop_first(), platform)
}

/// Whether none of the first `n` groups applies.
spec fn none_before(
    policy: RustPolicy,
    names: Seq<Seq<char>>,
    n: int,
    platform: Platform,
) -> bool {
    &&& 0 <= n <= names.len()
    &&& forall|i: int| 0 <= i < n ==> !is_active(policy, #[trigger] names[i], platform)
}

/// What resolving the groups of a policy gave.
#[derive(Debug)]
pub struct ResolvedPolicy {
    /// The groups that are for the host's platform, as they were asked for.
    pub names: Vec<String>,
    /// Whether one of them wants directories that may be written to be exempt
    /// from the ban on removing files.
    pub needs_unlink_overrides: bool,
    /// The paths that are denied.
    pub deny_paths: Vec<Vec<u8>>,
}

/// Resolves the groups `group_names`, in order: adds what they bring to `caps`
/// and gives back what they deny. An error ends it where it comes; what was
/// added until then stays. Where no group applies the set stays as it is.
pub fn resolve_groups_impl(
    policy: &RustPolicy,
    group_names: &[String],
    caps: &mut Capabilities,
    host: &Host,
) -> (r: Result<ResolvedPolicy, PolicyError>)
    ensures
        grown(*old(caps), *final(caps)),
        none_applies(*policy, texts(group_names@), host.platform) ==> *final(caps) == *old(caps),
        ({
            let out = resolution(*policy, texts(group_names@), old(caps)@, host);
            &&& final(caps)@ == out.caps
            &&& match r {
                Ok(p) => {
                    &&& out.error is None
                    &&& texts(p.names@) == out.names
                    &&& p.needs_unlink_overrides == out.needs_unlink_overrides
                    &&& byte_views(p.deny_paths@) == out.deny_paths
                },
                Err(e) => out.error == Some(e@),
            }
        }),
{
    let mut resolved_groups: Vec<String> = Vec::new();
    let mut needs_unlink_overrides = false;
    let mut deny_paths: Vec<Vec<u8>> = Vec::new();
    let ghost start = Resolution::start(caps@);
    let ghost all = texts(group_names@);
    assert(all.take(0) =~= Seq::empty());
    assert(texts(resolved_groups@) =~= Seq::empty());
    assert(byte_views(deny_paths@) =~= Seq::empty());
    proof {
        lemma_grown_same(*caps);
        if none_applies(*policy, all, host.platform) {
            lemma_none_applies(*policy, all, caps@, host);
        }
    }
    for i in 0..group_names.len()
        invariant
            grown(*old(caps), *caps),
            all == texts(group_names@),
            start == Resolution::start(old(caps)@),
            none_applies(*policy, all, host.platform) ==> resolution(
                *policy,
                all,
                old(caps)@,
                host,
            ).caps == old(caps)@,
            run(start, policy_steps(*policy, all.take(i as int), host.platform), host) == (
            Resolution {
                caps: caps@,
                deny_paths: byte_views(deny_paths@),
                names: texts(resolved_groups@),
                needs_unlink_overrides,
                error: None,
            }),
    {
        let name = &group_names[i];
        let ghost before = run(
            start,
            policy_steps(*policy, all.take(i as int), host.platform),
            host,
        );
        let ghost prefix = policy_steps(*policy, all.take(i as int), host.platform);
        let ghost here = named_steps(*policy, name@, host.platform);
        proof {
            assert(all.take(i + 1).drop_last() == all.take(i as int));
            assert(all.take(i + 1).last() == name@);
            lemma_run_splits(start, prefix, here, host);
        }
        let group = match find_group(policy, name) {
            Ok(group) => group,
            Err(e) => {
                proof {
                    lemma_one_step(before, Step::Unknown { group: name@ }, host);
                    lemma_error_ends_groups(*policy, all, i + 1, start, host);
                }
                return Err(e);
            },
        };
        if group_matches_platform(group, host.platform) {
            let ghost body = group_steps(name@, *group, host.platform);
            let ghost last = Step::Finish { group: name@, overrides: wants_overrides(*group) };
            proof {
                assert(here.drop_last() == body);
                assert(here.last() == last);
            }
            let ghost earlier = *caps;
            let resolved = resolve_single_group(
                name.as_str(),
                group,
                caps,
                &mut deny_paths,
                host,
                Ghost(before),
            );
            proof {
                lemma_grown_on(*old(caps), earlier, *caps);
            }
            match resolved {
                Ok(overrides) => {
                    if overrides {
                        needs_unlink_overrides = true;
                    }
                },
                Err(e) => {
                    proof {
                        lemma_error_ends_groups(*policy, all, i + 1, start, host);
                    }
                    return Err(e);
                },
            }
            let ghost had = resolved_groups@;
            resolved_groups.push(name.clone());
            assert(texts(resolved_groups@) =~= texts(had).push(name@));
        }
    }
    assert(all.take(all.len() as int) == all);
    Ok(ResolvedPolicy { names: resolved_groups, needs_unlink_overrides, deny_paths })
}

/// The steps of a list of groups are those of its front part, and then others.
proof fn lemma_steps_of_front(policy: RustPolicy, names: Seq<Seq<char>>, n: int, platform: Platform)
    requires
        0 <= n <= names.len(),
    ensures
        policy_steps(policy, names.take(n), platform).len() <= policy_steps(
            policy,
            names,
            platform,
        ).len(),
        policy_steps(policy, names, platform).take(
            policy_steps(policy, names.take(n), platform).len() as int,
        ) == policy_steps(policy, names.take(n), platform),
    decreases names.len() - n,
{
    if n == names.len() {
        assert(names.take(n) == names);
        let all = policy_steps(policy, names, platform);
        assert(all.take(all.len() as int) == all);
    } else {
        lemma_steps_of_front(policy, names, n + 1, platform);
        assert(names.take(n + 1).drop_last() == names.take(n));
        let all = policy_steps(policy, names, platform);
        let more = policy_steps(policy, names.take(n + 1), platform);
        let less = policy_steps(policy, names.take(n), platform);
        assert(more.take(less.len() as int) == less);
        assert(all.take(less.len() as int) == all.take(more.len() as int).take(less.len() as int));
    }
}

proof fn lemma_error_ends_groups(
    policy: RustPolicy,
    names: Seq<Seq<char>>,
    n: int,
    start: Resolution,
    host: &Host,
)
    requires
        0 <= n <= names.len(),
        run(start, policy_steps(policy, names.take(n), host.platform), host).error is Some,
    ensures
        run(start, policy_steps(policy, names, host.platform), host) == run(
            start,
            policy_steps(policy, names.take(n), host.platform),
            host,
        ),
{
    lemma_steps_of_front(policy, names, n, host.platform);
    let part = policy_steps(policy, names.take(n), host.platform);
    lemma_error_ends_run(
        start,
        policy_steps(policy, names, host.platform),
        part.len() as int,
        host,
    );
}

/// Groups that do not apply leave the set as it is.
proof fn lemma_none_before(
    policy: RustPolicy,
    names: Seq<Seq<char>>,
    n: int,
    caps: CapabilitiesView,
    host: &Host,
)
    requires
        none_before(policy, names, n, host.platform),
    ensures
        resolution(policy, names.take(n), caps, host).caps == caps,
    decreases n,
{
    if n > 0 {
        lemma_none_before(policy, names, n - 1, caps, host);
        let name = names[n - 1];
        assert(names.take(n).drop_last() == names.take(n - 1));
        assert(names.take(n).last() == name);
        let front = policy_steps(policy, names.take(n - 1), host.platform);
        let here = named_steps(policy, name, host.platform);
        lemma_run_splits(Resolution::start(caps), front, here, host);
        let before = run(Resolution::start(caps), front, host);
        if group_named(policy, name) is None {
            lemma_one_step(before, Step::Unknown { group: name }, host);
        } else {
            assert(here == Seq::<Step>::empty());
        }
    }
}

/// Where no group applies, none does before the end or before one that the policy does
/// not have.
proof fn lemma_none_before_end(policy: RustPolicy, names: Seq<Seq<char>>, platform: Platform) -> (n:
    int)
    requires
        none_applies(policy, names, platform),
    ensures
        none_before(policy, names, n, platform),
        n == names.len() || group_named(policy, names[n]) is None,
    decreases names.len(),
{
    if names.len() == 0 || group_named(policy, names[0]) is None {
        0
    } else {
        let rest = names.drop_first();
        let n = lemma_none_before_end(policy, rest, platform) + 1;
        assert forall|i: int| 0 <= i < n implies !is_active(policy, #[trigger] names[i], platform) by {
            if i > 0 {
                assert(names[i] == rest[i - 1]);
            }
        }
        if n < names.len() {
            assert(names[n] == rest[n - 1]);
        }
        n
    }
}

/// Where no group applies the set stays as it is.
proof fn lemma_none_applies(
    policy: RustPolicy,
    names: Seq<Seq<char>>,
    caps: CapabilitiesView,
    host: &Host,
)
    requires
        none_applies(policy, names, host.platform),
    ensures
        resolution(policy, names, caps, host).caps == caps,
{
    let n = lemma_none_before_end(policy, names, host.platform);
    if n == names.len() {
        lemma_none_before(policy, names, n, caps, host);
        assert(names.take(n) == names);
    } else {
        assert(none_before(policy, names, n + 1, host.platform));
        lemma_none_before(policy, names, n + 1, caps, host);
        let name = names[n];
        assert(names.take(n + 1).drop_last() == names.take(n));
        assert(names.take(n + 1).last() == name);
        let front = policy_steps(policy, names.take(n), host.platform);
        let before = run(Resolution::start(caps), front, host);
        lemma_run_splits(
            Resolution::start(caps),
            front,
            named_steps(policy, name, host.platform),
            host,
        );
        lemma_one_step(before, Step::Unknown { group: name }, host);
        lemma_error_ends_groups(policy, names, n + 1, Resolution::start(caps), host);
    }
}

/// The paths that the groups `group_names` deny, resolved on a set of their own.
pub fn resolve_deny_paths_for_groups(
    policy: &RustPolicy,
    group_names: &[String],
    host: &Host,
) -> (r: Result<Vec<Vec<u8>>, PolicyError>)
    ensures
        ({
            let out = resolution(*policy, texts(group_names@), CapabilitiesView::empty(), host);
            match r {
                Ok(paths) => out.error is None && byte_views(paths@) == out.deny_paths,
                Err(e) => out.error == Some(e@),
            }
        }),
{
    let mut scratch = Capabilities::new();
    let resolved = resolve_groups_impl(policy, group_names, &mut scratch, host)?;
    Ok(resolved.deny_paths)
}

impl ResolvedPolicy {
    /// The groups that were resolved.
    pub fn names(&self) -> (r: Vec<String>)
        ensures
            texts(r@) == texts(self.names@),
    {
        copy_strings(self.names.as_slice())
    }

    /// Whether directories that may be written want to be exempt from the ban
    /// on removing files.
    pub fn needs_unlink_overrides(&self) -> (r: bool)
        ensures
            r == self.needs_unlink_overrides,
    {
        self.needs_unlink_overrides
    }

    /// The paths that are denied, as they are displayed.
    pub fn deny_paths(&self) -> (r: Vec<String>)
        ensures
            texts(r@) == byte_views(self.deny_paths@).map_values(|path: Seq<u8>| shown(path)),
    {
        show_all(self.deny_paths.as_slice())
    }

    /// A short text for what was resolved.
    pub fn __repr__(&self) -> (r: String)
        ensures
            r@ == "ResolvedPolicy(names="@ + decimal(self.names@.len()) + ", deny_paths="@
                + decimal(self.deny_paths@.len()) + ", needs_unlink_overrides="@ + bool_text(
                self.needs_unlink_overrides,
            ) + ")"@,
    {
        String::from_str("ResolvedPolicy(names=").concat(
            write_decimal(self.names.len() as u64).as_str(),
        ).concat(", deny_paths=").concat(
            write_decimal(self.deny_paths.len() as u64).as_str(),
        ).concat(", needs_unlink_overrides=").concat(
            write_bool(self.needs_unlink_overrides).as_str(),
        ).concat(")")
    }
}

impl Policy {
    /// Resolves the groups `group_names`, in order, into `caps`.
    pub fn resolve_groups(
        &self,
        group_names: Vec<String>,
        caps: &mut Capabilities,
        host: &Host,
    ) -> (r: Result<ResolvedPolicy, PolicyError>)
        ensures
            grown(*old(caps), *final(caps)),
            none_applies(self.inner, texts(group_names@), host.platform) ==> *final(caps)
                == *old(caps),
            ({
                let out = resolution(self.inner, texts(group_names@), old(caps)@, host);
                &&& final(caps)@ == out.caps
                &&& match r {
                    Ok(p) => {
                        &&& out.error is None
                        &&& texts(p.names@) == out.names
                        &&& p.needs_unlink_overrides == out.needs_unlink_overrides
                        &&& byte_views(p.deny_paths@) == out.deny_paths
                    },
                    Err(e) => out.error == Some(e@),
                }
            }),
    {
        resolve_groups_impl(&self.inner, group_names.as_slice(), caps, host)
    }

    /// The paths that the groups `group_names` deny, as they are displayed.
    pub fn resolve_deny_paths(&self, group_names: Vec<String>, host: &Host) -> (r: Result<
        Vec<String>,
        PolicyError,
    >)
        ensures
            ({
                let out = resolution(
                    self.inner,
                    texts(group_names@),
                    CapabilitiesView::empty(),
                    host,
                );
                match r {
                    Ok(paths) => out.error is None && texts(paths@) == out.deny_paths.map_values(
                        |path: Seq<u8>| shown(path),
                    ),
                    Err(e) => out.error == Some(e@),
                }
            }),
    {
        let paths = resolve_deny_paths_for_groups(&self.inner, group_names.as_slice(), host)?;
        Ok(show_all(paths.as_slice()))
    }
}

} // verus!
