//! What the rules of a set say: how paths stand in them, and which directories are
//! exempt from the ban on removing files.

use vstd::prelude::*;
use vstd::utf8::{decode_utf8, valid_utf8};

use crate::caps::{rule_refusal, AccessMode, CapabilitiesView, FsCapabilityView};
use crate::error::{PolicyError, PolicyErrorView};
use crate::host::Platform;
use crate::path_laws::lemma_same_filter;
use crate::seatbelt::{
    debug_text, escaped, reports, rule_path, seatbelt_path, with_rules, with_unlink_allowed,
    with_unlink_overrides, writable_dirs,
};

verus! {

/// Escaping goes character by character: a backslash and a quote get a backslash in
/// front, and every other character stands for itself.
pub proof fn lemma_escaping(a: Seq<char>, c: char)
    ensures
        escaped(Seq::empty()) == Seq::<char>::empty(),
        escaped(a.push(c)) == escaped(a) + if c == '\\' {
            seq!['\\', '\\']
        } else if c == '"' {
            seq!['\\', '"']
        } else {
            seq![c]
        },
    decreases a.len(),
{
    if a.len() == 0 {
        reveal_with_fuel(escaped, 2);
        assert(a.push(c).drop_first() =~= Seq::empty());
        assert(escaped(a.push(c)) =~= escaped(a) + if c == '\\' {
            seq!['\\', '\\']
        } else if c == '"' {
            seq!['\\', '"']
        } else {
            seq![c]
        });
    } else {
        let rest = a.drop_first();
        lemma_escaping(rest, c);
        assert(a.push(c).drop_first() =~= rest.push(c));
        assert(escaped(a.push(c)) =~= escaped(a) + if c == '\\' {
            seq!['\\', '\\']
        } else if c == '"' {
            seq!['\\', '"']
        } else {
            seq![c]
        });
    }
}

/// A path can stand in a rule exactly where it is UTF-8 and none of its characters is
/// a control character; it stands there escaped.
pub proof fn lemma_rule_path(path: Seq<u8>)
    ensures
        !valid_utf8(path) ==> rule_path(path) == Err::<Seq<char>, PolicyErrorView>(
            PolicyErrorView::NotUtf8(path),
        ),
        valid_utf8(path) ==> rule_path(path) == seatbelt_path(decode_utf8(path)),
{
}

/// A text can stand in a rule exactly where none of its characters is below a space,
/// or one of the control characters from `DEL` on; it stands there escaped.
pub proof fn lemma_seatbelt_path(path: Seq<char>)
    ensures
        (forall|i: int|
            0 <= i < path.len() ==> (#[trigger] path[i] >= ' ' && (path[i] <= '~' || path[i]
                >= '\u{a0}'))) ==> seatbelt_path(path) == Ok::<Seq<char>, PolicyErrorView>(
            escaped(path),
        ),
        (exists|i: int|
            0 <= i < path.len() && (#[trigger] path[i] < ' ' || '\u{7f}' <= path[i] <= '\u{9f}'))
            ==> seatbelt_path(path) == Err::<Seq<char>, PolicyErrorView>(
            PolicyErrorView::ControlCharacter(debug_text(path)),
        ),
{
    if exists|i: int|
        0 <= i < path.len() && (#[trigger] path[i] < ' ' || '\u{7f}' <= path[i] <= '\u{9f}') {
        let i = choose|i: int|
            0 <= i < path.len() && (#[trigger] path[i] < ' ' || '\u{7f}' <= path[i] <= '\u{9f}');
        assert(crate::seatbelt::is_control_char(path[i]));
    }
}

/// One rule.
proof fn lemma_one_rule(caps: CapabilitiesView, rule: Seq<char>)
    ensures
        rule_refusal(rule) is None ==> with_rules(caps, seq![rule]).error is None && with_rules(
            caps,
            seq![rule],
        ).caps == (CapabilitiesView { rules: caps.rules.push(rule), ..caps }),
        rule_refusal(rule) matches Some(m) ==> with_rules(caps, seq![rule]).error == Some(
            PolicyErrorView::RuleRefused(m),
        ) && with_rules(caps, seq![rule]).caps == caps,
{
    reveal_with_fuel(with_rules, 2);
    assert(seq![rule].drop_first() =~= Seq::<Seq<char>>::empty());
}

/// The rule that lets files below a path be removed.
pub open spec fn removal_rule(path: Seq<u8>) -> Seq<char> {
    "(allow file-write-unlink (subpath \""@ + escaped(decode_utf8(path)) + "\"))"@
}

/// Exempting directories goes in order: those before the first that cannot stand in a
/// rule, or whose rule is refused, get their rules, and that one is the error.
proof fn lemma_allowed_up_to(caps: CapabilitiesView, dirs: Seq<FsCapabilityView>, n: int)
    requires
        0 <= n <= dirs.len(),
        forall|i: int|
            0 <= i < n ==> rule_path((#[trigger] dirs[i]).resolved) is Ok && rule_refusal(
                removal_rule(dirs[i].resolved),
            ) is None,
    ensures
        ({
            let out = with_unlink_allowed(caps, dirs);
            let rules = caps.rules + dirs.take(n).map_values(
                |cap: FsCapabilityView| removal_rule(cap.resolved),
            );
            &&& n == dirs.len() ==> out.error is None && out.caps == (CapabilitiesView {
                rules,
                ..caps
            })
            &&& n < dirs.len() ==> (rule_path(dirs[n].resolved) matches Err(e) ==> out.error
                == Some(e) && out.caps == (CapabilitiesView { rules, ..caps }))
            &&& n < dirs.len() && rule_path(dirs[n].resolved) is Ok ==> (rule_refusal(
                removal_rule(dirs[n].resolved),
            ) matches Some(m) ==> out.error == Some(PolicyErrorView::RuleRefused(m)) && out.caps
                == (CapabilitiesView { rules, ..caps }))
        }),
    decreases dirs.len(),
{
    let view = |cap: FsCapabilityView| removal_rule(cap.resolved);
    if n == 0 {
        assert(dirs.take(0).map_values(view) =~= Seq::empty());
        assert(caps.rules + dirs.take(0).map_values(view) =~= caps.rules);
        if dirs.len() > 0 && rule_path(dirs[0].resolved) is Ok {
            lemma_one_rule(caps, removal_rule(dirs[0].resolved));
        }
    } else {
        let rule = removal_rule(dirs[0].resolved);
        lemma_one_rule(caps, rule);
        let next = CapabilitiesView { rules: caps.rules.push(rule), ..caps };
        let rest = dirs.drop_first();
        assert forall|i: int| 0 <= i < n - 1 implies rule_path((#[trigger] rest[i]).resolved) is Ok
            && rule_refusal(removal_rule(rest[i].resolved)) is None by {
            assert(rest[i] == dirs[i + 1]);
        }
        lemma_allowed_up_to(next, rest, n - 1);
        assert(next.rules + rest.take(n - 1).map_values(view) =~= caps.rules + dirs.take(
            n,
        ).map_values(view));
        if n < dirs.len() {
            assert(rest[n - 1] == dirs[n]);
        }
    }
}

proof fn lemma_all_allowed(caps: CapabilitiesView, dirs: Seq<FsCapabilityView>)
    requires
        with_unlink_allowed(caps, dirs).error is None,
    ensures
        with_unlink_allowed(caps, dirs).caps == (CapabilitiesView {
            rules: caps.rules + dirs.map_values(
                |cap: FsCapabilityView| removal_rule(cap.resolved),
            ),
            ..caps
        }),
        forall|i: int| 0 <= i < dirs.len() ==> rule_path((#[trigger] dirs[i]).resolved) is Ok,
    decreases dirs.len(),
{
    let view = |cap: FsCapabilityView| removal_rule(cap.resolved);
    if dirs.len() == 0 {
        assert(caps.rules + dirs.map_values(view) =~= caps.rules);
    } else {
        let rule = removal_rule(dirs[0].resolved);
        lemma_one_rule(caps, rule);
        let next = CapabilitiesView { rules: caps.rules.push(rule), ..caps };
        let rest = dirs.drop_first();
        lemma_all_allowed(next, rest);
        assert(next.rules + rest.map_values(view) =~= caps.rules + dirs.map_values(view));
        assert forall|i: int| 0 <= i < dirs.len() implies rule_path(
            (#[trigger] dirs[i]).resolved,
        ) is Ok by {
            if i > 0 {
                assert(dirs[i] == rest[i - 1]);
            }
        }
    }
}

/// Which directories are exempt from the ban on removing files: on Linux none, and
/// elsewhere, where this succeeds, each that may be written, whoever brought it. The
/// set gets one rule for each of them, in order, and nothing else changes.
pub proof fn lemma_exempt_directories(caps: CapabilitiesView, platform: Platform)
    ensures
        platform == Platform::Linux ==> with_unlink_overrides(caps, platform).error is None
            && with_unlink_overrides(caps, platform).caps == caps,
        platform != Platform::Linux && with_unlink_overrides(caps, platform).error is None ==> {
            let out = with_unlink_overrides(caps, platform).caps;
            &&& out == CapabilitiesView {
                rules: caps.rules + caps.fs.filter(
                    |cap: FsCapabilityView|
                        (cap.access == AccessMode::Write || cap.access == AccessMode::ReadWrite)
                            && !cap.is_file,
                ).map_values(|cap: FsCapabilityView| removal_rule(cap.resolved)),
                ..caps
            }
            &&& forall|i: int|
                0 <= i < caps.fs.len() && caps.fs[i].access != AccessMode::Read
                    && !caps.fs[i].is_file ==> out.rules.contains(
                    "(allow file-write-unlink (subpath \""@ + escaped(
                        decode_utf8((#[trigger] caps.fs[i]).resolved),
                    ) + "\"))"@,
                )
        },
{
    let keep = |cap: FsCapabilityView|
        (cap.access == AccessMode::Write || cap.access == AccessMode::ReadWrite) && !cap.is_file;
    let view = |cap: FsCapabilityView| removal_rule(cap.resolved);
    let dirs = caps.fs.filter(keep);
    lemma_same_filter(caps.fs, |cap: FsCapabilityView| crate::seatbelt::is_writable_dir(cap), keep);
    assert(writable_dirs(caps) == dirs);
    if platform != Platform::Linux && with_unlink_overrides(caps, platform).error is None {
        let out = with_unlink_overrides(caps, platform).caps;
        lemma_all_allowed(caps, dirs);
        assert forall|i: int|
            0 <= i < caps.fs.len() && caps.fs[i].access != AccessMode::Read
                && !caps.fs[i].is_file implies out.rules.contains(
            "(allow file-write-unlink (subpath \""@ + escaped(
                decode_utf8((#[trigger] caps.fs[i]).resolved),
            ) + "\"))"@,
        ) by {
            let cap = caps.fs[i];
            caps.fs.lemma_filter_contains(keep, i);
            let k = dirs.index_of(cap);
            assert(dirs.map_values(view)[k] == removal_rule(cap.resolved));
            assert(out.rules[caps.rules.len() + k] == removal_rule(cap.resolved));
        }
    }
}

/// Where exempting directories fails, those that may be written and stand before the
/// first whose path cannot stand in a rule, or whose rule is refused, have their rules,
/// and that one is the error.
pub proof fn lemma_exempt_until_error(caps: CapabilitiesView, platform: Platform, n: int)
    requires
        platform != Platform::Linux,
        ({
            let dirs = caps.fs.filter(
                |cap: FsCapabilityView|
                    (cap.access == AccessMode::Write || cap.access == AccessMode::ReadWrite)
                        && !cap.is_file,
            );
            &&& 0 <= n < dirs.len()
            &&& forall|i: int|
                0 <= i < n ==> rule_path((#[trigger] dirs[i]).resolved) is Ok && rule_refusal(
                    removal_rule(dirs[i].resolved),
                ) is None
            &&& rule_path(dirs[n].resolved) is Err || rule_refusal(
                removal_rule(dirs[n].resolved),
            ) is Some
        }),
    ensures
        ({
            let dirs = caps.fs.filter(
                |cap: FsCapabilityView|
                    (cap.access == AccessMode::Write || cap.access == AccessMode::ReadWrite)
                        && !cap.is_file,
            );
            let out = with_unlink_overrides(caps, platform);
            &&& out.caps == CapabilitiesView {
                rules: caps.rules + dirs.take(n).map_values(
                    |cap: FsCapabilityView| removal_rule(cap.resolved),
                ),
                ..caps
            }
            &&& out.error == Some(
                match rule_path(dirs[n].resolved) {
                    Err(e) => e,
                    Ok(_) => PolicyErrorView::RuleRefused(
                        rule_refusal(removal_rule(dirs[n].resolved))->0,
                    ),
                },
            )
        }),
{
    let keep = |cap: FsCapabilityView|
        (cap.access == AccessMode::Write || cap.access == AccessMode::ReadWrite) && !cap.is_file;
    let dirs = caps.fs.filter(keep);
    lemma_same_filter(caps.fs, |cap: FsCapabilityView| crate::seatbelt::is_writable_dir(cap), keep);
    assert(writable_dirs(caps) == dirs);
    lemma_allowed_up_to(caps, dirs, n);
}

/// Exempting directories succeeds where each that may be written can stand in a rule
/// and its rule is taken; it does so too where there is none.
pub proof fn lemma_exempting_succeeds(caps: CapabilitiesView, platform: Platform)
    requires
        forall|i: int|
            0 <= i < caps.fs.len() && caps.fs[i].access != AccessMode::Read && !caps.fs[i].is_file
                ==> rule_path((#[trigger] caps.fs[i]).resolved) is Ok && rule_refusal(
                removal_rule(caps.fs[i].resolved),
            ) is None,
    ensures
        with_unlink_overrides(caps, platform).error is None,
{
    let keep = |cap: FsCapabilityView|
        (cap.access == AccessMode::Write || cap.access == AccessMode::ReadWrite) && !cap.is_file;
    let dirs = caps.fs.filter(keep);
    lemma_same_filter(caps.fs, |cap: FsCapabilityView| crate::seatbelt::is_writable_dir(cap), keep);
    assert(writable_dirs(caps) == dirs);
    assert forall|i: int| 0 <= i < dirs.len() implies rule_path((#[trigger] dirs[i]).resolved) is Ok
        && rule_refusal(removal_rule(dirs[i].resolved)) is None by {
        caps.fs.lemma_filter_pred(keep, i);
        assert(keep(dirs[i]));
        crate::path_laws::lemma_filtered_is_there(caps.fs, keep, i);
        let k = caps.fs.index_of(dirs[i]);
        assert(caps.fs[k] == dirs[i]);
    }
    lemma_allowed_up_to(caps, dirs, dirs.len() as int);
}

/// What is reported of an outcome: its error, or that there was none.
pub proof fn lemma_reported(r: Result<(), PolicyError>, error: Option<PolicyErrorView>)
    ensures
        reports(r, error) <==> (r is Ok && error is None) || (r matches Err(e) && error == Some(
            e@,
        )),
{
}

} // verus!
