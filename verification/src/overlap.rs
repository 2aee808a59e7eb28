//! Denied paths inside of allowed directories, which Landlock cannot enforce.

use vstd::prelude::*;

use crate::bytes::{byte_views, bytes_of_path, show, shown};
use crate::caps::{fs_views, Capabilities, FsCapability, FsCapabilityView};
use crate::error::{PolicyError, PolicyErrorView};
use crate::host::Platform;
use crate::order::{sort_unique, strictly_sorted};
use crate::path::{is_under, path_eq, path_starts_with, same_path};
use crate::text::texts;

verus! {

/// Whether denying `path` cannot be enforced beside `cap`: the path lies inside
/// of a directory that the user explicitly allowed.
pub open spec fn conflicts(path: Seq<u8>, cap: FsCapabilityView) -> bool {
    &&& !cap.is_file
    &&& is_under(path, cap.resolved)
    &&& !same_path(path, cap.resolved)
    &&& cap.source.is_user_intent()
}

/// The line that reports a conflict.
pub open spec fn conflict_line(path: Seq<u8>, cap: FsCapabilityView) -> Seq<char> {
    "deny '"@ + shown(path) + "' overlaps allowed parent '"@ + shown(cap.resolved) + "' (source: "@
        + cap.source.label() + ")"@
}

/// Whether `line` reports one of the conflicts between `paths` and `fs`.
pub open spec fn reports_conflict(
    line: Seq<char>,
    paths: Seq<Seq<u8>>,
    fs: Seq<FsCapabilityView>,
) -> bool {
    exists|i: int, j: int|
        0 <= i < paths.len() && 0 <= j < fs.len() && #[trigger] conflicts(paths[i], fs[j]) && line
            == conflict_line(paths[i], fs[j])
}

/// Whether denying `paths` conflicts with any of `fs`.
pub open spec fn any_conflict(paths: Seq<Seq<u8>>, fs: Seq<FsCapabilityView>) -> bool {
    exists|i: int, j: int|
        0 <= i < paths.len() && 0 <= j < fs.len() && #[trigger] conflicts(paths[i], fs[j])
}

/// Whether `lines` reports all the conflicts, each once, sorted.
pub open spec fn is_conflict_report(
    lines: Seq<Seq<char>>,
    paths: Seq<Seq<u8>>,
    fs: Seq<FsCapabilityView>,
) -> bool {
    &&& strictly_sorted(lines)
    &&& forall|line: Seq<char>| #[trigger]
        lines.contains(line) <==> reports_conflict(line, paths, fs)
}

/// Tells whether denying `path` conflicts with `cap`.
fn is_conflict(path: &[u8], cap: &FsCapability) -> (r: bool)
    ensures
        r == conflicts(path@, cap@),
{
    let dir = bytes_of_path(&cap.resolved);
    !cap.is_file && path_starts_with(path, dir.as_slice()) && !path_eq(path, dir.as_slice())
        && cap.source.is_user_intent()
}

/// Writes the line that reports a conflict.
fn write_conflict(path: &[u8], cap: &FsCapability) -> (r: String)
    ensures
        r@ == conflict_line(path@, cap@),
{
    let dir = bytes_of_path(&cap.resolved);
    String::from_str("deny '").concat(show(path).as_str()).concat(
        "' overlaps allowed parent '",
    ).concat(show(dir.as_slice()).as_str()).concat("' (source: ").concat(cap.source.label().as_str()).concat(")")
}

/// Checks that the denied paths can be enforced beside the capabilities. On
/// macOS rules do that; elsewhere a denied path must not lie inside of a
/// directory that the user allowed.
pub fn validate_deny_overlaps(
    deny_paths: &[Vec<u8>],
    caps: &Capabilities,
    platform: Platform,
) -> (r: Result<(), PolicyError>)
    ensures
        r is Err <==> platform != Platform::MacOs && any_conflict(byte_views(deny_paths@), caps@.fs),
        r matches Err(e) ==> (e@ matches PolicyErrorView::DenyOverlap(lines)
            && is_conflict_report(lines, byte_views(deny_paths@), caps@.fs)),
{
    if platform == Platform::MacOs {
        return Ok(());
    }
    let fs = caps.fs_capabilities();
    let ghost paths = byte_views(deny_paths@);
    let mut fatal: Vec<String> = Vec::new();
    for i in 0..deny_paths.len()
        invariant
            paths == byte_views(deny_paths@),
            forall|line: Seq<char>| #[trigger]
                texts(fatal@).contains(line) <==> reports_conflict(
                    line,
                    paths.take(i as int),
                    fs_views(fs@),
                ),
    {
        let ghost done = paths.take(i as int);
        for k in 0..fs.len()
            invariant
                i < deny_paths.len(),
                paths == byte_views(deny_paths@),
                done == paths.take(i as int),
                forall|line: Seq<char>| #[trigger]
                    texts(fatal@).contains(line) <==> (reports_conflict(line, done, fs_views(fs@))
                        || reports_conflict(
                        line,
                        seq![paths[i as int]],
                        fs_views(fs@).take(k as int),
                    )),
        {
            let ghost had = texts(fatal@);
            let ghost here = seq![paths[i as int]];
            let ghost views = fs_views(fs@);
            let conflict = is_conflict(deny_paths[i].as_slice(), &fs[k]);
            proof {
                assert forall|line: Seq<char>| #[trigger]
                    reports_conflict(line, here, views.take(k + 1)) <==> (reports_conflict(
                        line,
                        here,
                        views.take(k as int),
                    ) || (conflict && line == conflict_line(paths[i as int], views[k as int]))) by {
                    let more = views.take(k + 1);
                    let less = views.take(k as int);
                    if reports_conflict(line, here, more) {
                        let (a, b) = choose|a: int, b: int|
                            0 <= a < here.len() && 0 <= b < more.len() && #[trigger] conflicts(
                                here[a],
                                more[b],
                            ) && line == conflict_line(here[a], more[b]);
                        if b < k {
                            assert(conflicts(here[a], less[b]));
                        }
                    }
                    if reports_conflict(line, here, less) {
                        let (a, b) = choose|a: int, b: int|
                            0 <= a < here.len() && 0 <= b < less.len() && #[trigger] conflicts(
                                here[a],
                                less[b],
                            ) && line == conflict_line(here[a], less[b]);
                        assert(conflicts(here[a], more[b]));
                    }
                    if conflict {
                        assert(conflicts(here[0], more[k as int]));
                    }
                }
            }
            if conflict {
                fatal.push(write_conflict(deny_paths[i].as_slice(), &fs[k]));
                proof {
                    let line = conflict_line(paths[i as int], views[k as int]);
                    let now = texts(fatal@);
                    assert(now == had.push(line));
                    assert forall|t: Seq<char>| #[trigger]
                        now.contains(t) <==> (had.contains(t) || t == line) by {
                        if had.contains(t) {
                            let a = had.index_of(t);
                            assert(now[a] == t);
                        }
                        assert(now[now.len() - 1] == line);
                    }
                }
            }
        }
        proof {
            let views = fs_views(fs@);
            let here = seq![paths[i as int]];
            let more = paths.take(i + 1);
            assert(views.take(views.len() as int) == views);
            assert forall|line: Seq<char>| #[trigger]
                reports_conflict(line, more, views) <==> (reports_conflict(line, done, views)
                    || reports_conflict(line, here, views)) by {
                if reports_conflict(line, more, views) {
                    let (a, b) = choose|a: int, b: int|
                        0 <= a < more.len() && 0 <= b < views.len() && #[trigger] conflicts(
                            more[a],
                            views[b],
                        ) && line == conflict_line(more[a], views[b]);
                    if a < i {
                        assert(conflicts(done[a], views[b]));
                    } else {
                        assert(conflicts(here[0], views[b]));
                    }
                }
                if reports_conflict(line, done, views) {
                    let (a, b) = choose|a: int, b: int|
                        0 <= a < done.len() && 0 <= b < views.len() && #[trigger] conflicts(
                            done[a],
                            views[b],
                        ) && line == conflict_line(done[a], views[b]);
                    assert(conflicts(more[a], views[b]));
                }
                if reports_conflict(line, here, views) {
                    let (a, b) = choose|a: int, b: int|
                        0 <= a < here.len() && 0 <= b < views.len() && #[trigger] conflicts(
                            here[a],
                            views[b],
                        ) && line == conflict_line(here[a], views[b]);
                    assert(conflicts(more[i as int], views[b]));
                }
            }
        }
    }
    proof {
        assert(paths.take(paths.len() as int) == paths);
        lemma_lines_and_conflicts(texts(fatal@), paths, fs_views(fs@));
    }
    if fatal.len() == 0 {
        assert(texts(fatal@).len() == 0);
        return Ok(());
    }
    let lines = sort_unique(fatal.as_slice());
    assert(texts(fatal@).len() > 0);
    Err(PolicyError::DenyOverlap(lines))
}

/// There are lines if and only if there is a conflict.
proof fn lemma_lines_and_conflicts(
    lines: Seq<Seq<char>>,
    paths: Seq<Seq<u8>>,
    fs: Seq<FsCapabilityView>,
)
    requires
        forall|line: Seq<char>| #[trigger]
            lines.contains(line) <==> reports_conflict(line, paths, fs),
    ensures
        lines.len() > 0 <==> any_conflict(paths, fs),
{
    if lines.len() > 0 {
        assert(lines.contains(lines[0]));
    }
    if any_conflict(paths, fs) {
        let (i, j) = choose|i: int, j: int|
            0 <= i < paths.len() && 0 <= j < fs.len() && #[trigger] conflicts(paths[i], fs[j]);
        assert(reports_conflict(conflict_line(paths[i], fs[j]), paths, fs));
        assert(lines.contains(conflict_line(paths[i], fs[j])));
    }
}

/// A capability that no user asked for, such as one that a policy group
/// brought, never conflicts with a denied path.
pub proof fn lemma_group_grants_never_conflict(
    paths: Seq<Seq<u8>>,
    fs: Seq<FsCapabilityView>,
    added: Seq<FsCapabilityView>,
)
    requires
        forall|j: int| 0 <= j < added.len() ==> !(#[trigger] added[j]).source.is_user_intent(),
    ensures
        any_conflict(paths, fs + added) == any_conflict(paths, fs),
        forall|lines: Seq<Seq<char>>|
            is_conflict_report(lines, paths, fs + added) == #[trigger] is_conflict_report(
                lines,
                paths,
                fs,
            ),
{
    let all = fs + added;
    assert forall|i: int, j: int| 0 <= j < all.len() && #[trigger] conflicts(
        paths[i],
        all[j],
    ) implies j < fs.len() && conflicts(paths[i], fs[j]) by {
        if j >= fs.len() {
            assert(all[j] == added[j - fs.len()]);
        }
    }
    assert forall|i: int, j: int| 0 <= j < fs.len() && #[trigger] conflicts(
        paths[i],
        fs[j],
    ) implies conflicts(paths[i], all[j]) by {
        assert(all[j] == fs[j]);
    }
    assert forall|line: Seq<char>|
        reports_conflict(line, paths, all) == #[trigger] reports_conflict(line, paths, fs) by {
        if reports_conflict(line, paths, all) {
            let (i, j) = choose|i: int, j: int|
                0 <= i < paths.len() && 0 <= j < all.len() && #[trigger] conflicts(
                    paths[i],
                    all[j],
                ) && line == conflict_line(paths[i], all[j]);
            assert(conflicts(paths[i], fs[j]));
        }
        if reports_conflict(line, paths, fs) {
            let (i, j) = choose|i: int, j: int|
                0 <= i < paths.len() && 0 <= j < fs.len() && #[trigger] conflicts(
                    paths[i],
                    fs[j],
                ) && line == conflict_line(paths[i], fs[j]);
            assert(conflicts(paths[i], all[j]));
        }
    }
}

} // verus!
