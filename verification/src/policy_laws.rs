//! What is promised of texts, of hosts and policies, of errors, and of denied paths
//! inside of allowed directories.

use vstd::prelude::*;
use vstd::utf8::{decode_utf8, encode_utf8, valid_utf8};

use crate::bytes::{below_bytes, shown};
use crate::caps::{
    extends, fs_views, grown, network_if, Capabilities, CapabilitiesView, CapabilitySource,
    CapabilitySourceView, FsCapability, FsCapabilityView,
};
use crate::error::{ErrorKind, PolicyError, PolicyErrorView};
use crate::host::{env_path, facts_of, platform_name, Host, PathFact, Platform};
use crate::order::{sorted, strictly_sorted, text_le};
use crate::overlap::{any_conflict, conflict_line, conflicts, is_conflict_report, reports_conflict};
use crate::path::components;
use crate::path_laws::lemma_same_filter;
use crate::policy::{group_named, is_required, required_among, RustPolicy};
use crate::table::{ascending, has_key, mapping, place_of};
use crate::text::{
    after_prefix, all_digits, before_suffix, bool_text, bounded_number, decimal, joined, number,
    opt_text, pieces, signed_decimal, texts, unsigned_part, written_number, zero_padded,
};

verus! {

/// How numbers are written: a digit alone, and otherwise the number without its last
/// digit and then that digit; with a minus sign in front where it is negative.
pub proof fn lemma_decimals(n: nat)
    ensures
        decimal(0) == seq!['0'],
        decimal(1) == seq!['1'],
        decimal(2) == seq!['2'],
        decimal(3) == seq!['3'],
        decimal(4) == seq!['4'],
        decimal(5) == seq!['5'],
        decimal(6) == seq!['6'],
        decimal(7) == seq!['7'],
        decimal(8) == seq!['8'],
        decimal(9) == seq!['9'],
        n >= 10 ==> decimal(n) == decimal(n / 10) + decimal(n % 10),
        signed_decimal(n as int) == decimal(n),
        n > 0 ==> signed_decimal(-n) == seq!['-'] + decimal(n),
{
    reveal_strlit("-");
    assert("-"@ =~= seq!['-']);
    if n >= 10 {
        assert(decimal(n % 10).len() == 1);
        assert(decimal(n) =~= decimal(n / 10) + decimal(n % 10));
    }
}

/// How numbers are read: digits, at least one, each worth ten times less than the one
/// in front of it, with a plus sign in front or without.
pub proof fn lemma_numbers(front: Seq<char>, d: char, max: nat)
    ensures
        number(Seq::empty()) == 0,
        '0' <= d <= '9' ==> number(front.push(d)) == number(front) * 10 + (d as int - 48),
        all_digits(front) <==> front.len() > 0 && forall|i: int|
            0 <= i < front.len() ==> '0' <= #[trigger] front[i] <= '9',
        all_digits(front) ==> written_number(front) == Some(number(front)) && written_number(
            seq!['+'] + front,
        ) == Some(number(front)),
        !all_digits(front) ==> written_number(seq!['+'] + front) is None,
        !all_digits(front) && (front.len() == 0 || front[0] != '+') ==> written_number(
            front,
        ) is None,
        match written_number(front) {
            Some(n) => bounded_number(front, max) == if n <= max {
                Some(n)
            } else {
                None::<nat>
            },
            None => bounded_number(front, max) is None,
        },
{
    assert(front.push(d).drop_last() =~= front);
    assert((seq!['+'] + front).skip(1) =~= front);
    assert(unsigned_part(seq!['+'] + front) == front);
    if all_digits(front) {
        assert('0' <= front[0] <= '9');
        assert(unsigned_part(front) == front);
    }
}

/// How texts are put together and taken apart.
pub proof fn lemma_texts(parts: Seq<Seq<char>>, last: Seq<char>, sep: Seq<char>, width: nat)
    ensures
        joined(Seq::empty(), sep) == Seq::<char>::empty(),
        joined(seq![last], sep) == last,
        parts.len() > 0 ==> joined(parts.push(last), sep) == joined(parts, sep) + sep + last,
        after_prefix(sep + last, sep) == Some(last),
        !sep.is_prefix_of(last) ==> after_prefix(last, sep) is None,
        before_suffix(last + sep, sep) == Some(last),
        !sep.is_suffix_of(last) ==> before_suffix(last, sep) is None,
        bool_text(true) == "true"@,
        bool_text(false) == "false"@,
        last.len() >= width ==> zero_padded(last, width) == last,
        last.len() < width ==> zero_padded(last, width) == zero_padded(
            seq!['0'] + last,
            width,
        ),
{
    if parts.len() > 0 {
        assert(parts.push(last).drop_last() =~= parts);
    }
    assert((sep + last).take(sep.len() as int) =~= sep);
    assert((sep + last).skip(sep.len() as int) =~= last);
    assert((last + sep).skip(last.len() as int) =~= sep);
    assert((last + sep).take(last.len() as int) =~= last);
    if last.len() < width {
        assert(zero_padded(last, width) =~= zero_padded(seq!['0'] + last, width));
    }
}

/// Splitting a text at a character and joining the pieces with it gives the text back,
/// and no piece holds the character.
pub proof fn lemma_pieces_join(s: Seq<char>, sep: char)
    ensures
        joined(pieces(s, sep), seq![sep]) == s,
        forall|i: int| 0 <= i < pieces(s, sep).len() ==> !(#[trigger] pieces(s, sep)[i]).contains(sep),
    decreases s.len(),
{
    crate::path_laws::lemma_pieces_hold_none(s, sep);
    if s.len() > 0 {
        let less = s.drop_last();
        lemma_pieces_join(less, sep);
        crate::text::lemma_pieces_not_empty(less, sep);
        let before = pieces(less, sep);
        let now = pieces(s, sep);
        assert(s =~= less.push(s.last()));
        if s.last() == sep {
            assert(now.drop_last() =~= before);
            assert(joined(now, seq![sep]) =~= s);
        } else if before.len() == 1 {
            assert(joined(before, seq![sep]) == before[0]);
            assert(joined(now, seq![sep]) =~= s);
        } else {
            assert(now.drop_last() =~= before.drop_last());
            assert(joined(now, seq![sep]) =~= joined(before, seq![sep]).push(s.last()));
        }
    } else {
        assert(joined(pieces(s, sep), seq![sep]) =~= s);
    }
}

/// One text comes before another one where it is its beginning, or where at the first
/// place at which they differ its character is the smaller one.
pub proof fn lemma_text_order(a: Seq<char>, b: Seq<char>, k: int)
    ensures
        a.is_prefix_of(b) ==> text_le(a, b),
        b.is_prefix_of(a) && a != b ==> !text_le(a, b),
        0 <= k < a.len() && k < b.len() && a.take(k) == b.take(k) && a[k] != b[k] ==> text_le(a, b)
            == (a[k] < b[k]),
    decreases a.len(),
{
    if a.len() > 0 && b.len() > 0 {
        let x = a.drop_first();
        let y = b.drop_first();
        lemma_text_order(x, y, k - 1);
        if a.is_prefix_of(b) {
            assert(a[0] == b[0]);
            assert(forall|i: int| 0 <= i < x.len() ==> x[i] == a[i + 1] && b[i + 1] == y[i]);
            assert(x =~= y.subrange(0, x.len() as int));
        }
        if b.is_prefix_of(a) && a != b {
            assert(a[0] == b[0]);
            assert(forall|i: int| 0 <= i < y.len() ==> y[i] == b[i + 1] && a[i + 1] == x[i]);
            assert(y =~= x.subrange(0, y.len() as int));
            assert(x != y) by {
                if x == y {
                    assert(a =~= seq![a[0]] + x);
                    assert(b =~= seq![b[0]] + y);
                }
            }
        }
        if 0 < k < a.len() && k < b.len() && a.take(k) == b.take(k) {
            assert(a.take(k)[0] == b.take(k)[0]);
            assert(x.take(k - 1) =~= a.take(k).drop_first());
            assert(y.take(k - 1) =~= b.take(k).drop_first());
        }
    } else if b.len() == 0 && b.is_prefix_of(a) && a != b {
        assert(a.len() > 0) by {
            if a.len() == 0 {
                assert(a =~= b);
            }
        }
    }
}

/// What it means that texts are sorted.
pub proof fn lemma_sorted(s: Seq<Seq<char>>)
    ensures
        sorted(s) <==> forall|i: int, j: int|
            0 <= i < j < s.len() ==> text_le(#[trigger] s[i], #[trigger] s[j]),
        strictly_sorted(s) <==> forall|i: int, j: int|
            0 <= i < j < s.len() ==> text_le(#[trigger] s[i], #[trigger] s[j]) && s[i] != s[j],
{
    if forall|i: int, j: int|
        0 <= i < j < s.len() ==> text_le(#[trigger] s[i], #[trigger] s[j]) && s[i] != s[j] {
        assert forall|i: int, j: int| 0 <= i < s.len() && 0 <= j < s.len() && i != j implies s[i]
            != s[j] by {
            if i < j {
                assert(s[i] != s[j]);
            } else {
                assert(s[j] != s[i]);
            }
        }
    }
}

/// What the rows of a table say: each key has the value of its row, and nothing else
/// is a key.
pub proof fn lemma_rows<V>(rows: Seq<(Seq<char>, V)>, i: int, key: Seq<char>)
    requires
        forall|a: int, b: int|
            0 <= a < b < rows.len() ==> (#[trigger] rows[a]).0 != (#[trigger] rows[b]).0,
    ensures
        0 <= i < rows.len() ==> mapping(rows).contains_key(rows[i].0) && mapping(rows)[rows[i].0]
            == rows[i].1,
        (forall|j: int| 0 <= j < rows.len() ==> (#[trigger] rows[j]).0 != key) ==> !mapping(
            rows,
        ).contains_key(key),
{
    if 0 <= i < rows.len() {
        assert(has_key(rows, rows[i].0));
        let j = place_of(rows, rows[i].0);
        assert(rows[j].0 == rows[i].0);
        if j < i {
            assert(rows[j].0 != rows[i].0);
        } else if i < j {
            assert(rows[i].0 != rows[j].0);
        }
    }
}

/// The keys of rows ascend where each comes before all behind it and is not one of
/// them.
pub proof fn lemma_ascending<V>(rows: Seq<(Seq<char>, V)>)
    ensures
        ascending(rows) <==> forall|i: int, j: int|
            0 <= i < j < rows.len() ==> text_le((#[trigger] rows[i]).0, (#[trigger] rows[j]).0)
                && rows[i].0 != rows[j].0,
{
}

/// What an environment variable that has to be an absolute path stands for.
pub proof fn lemma_variable(name: Seq<char>, value: Seq<char>)
    ensures
        env_path(name, None) == Err::<Seq<char>, PolicyErrorView>(
            PolicyErrorView::VariableNotSet(name),
        ),
        value.len() > 0 && value[0] == '/' ==> env_path(name, Some(value)) == Ok::<
            Seq<char>,
            PolicyErrorView,
        >(value),
        value.len() == 0 || value[0] != '/' ==> env_path(name, Some(value)) == Err::<
            Seq<char>,
            PolicyErrorView,
        >(PolicyErrorView::VariableNotAbsolute { name, value }),
{
}

/// What a path in a policy stands for: `~` and `$HOME` for the home directory,
/// `$TMPDIR` for the directory of temporary files, each alone or with a slash and more
/// behind it, and any other path for itself.
pub proof fn lemma_expansion(host: &Host, path: Seq<char>, rest: Seq<char>)
    ensures
        path == "~"@ || path == "$HOME"@ ==> host.expand(path) == env_path(
            "HOME"@,
            opt_text(host.home),
        ),
        path == "$TMPDIR"@ ==> host.expand(path) == env_path("TMPDIR"@, opt_text(host.tmpdir)),
        path == "~/"@ + rest || path == "$HOME/"@ + rest ==> host.expand(path) == match env_path(
            "HOME"@,
            opt_text(host.home),
        ) {
            Ok(dir) => Ok::<Seq<char>, PolicyErrorView>(dir + "/"@ + rest),
            Err(e) => Err(e),
        },
        path == "$TMPDIR/"@ + rest ==> host.expand(path) == match env_path(
            "TMPDIR"@,
            opt_text(host.tmpdir),
        ) {
            Ok(dir) => Ok::<Seq<char>, PolicyErrorView>(dir + "/"@ + rest),
            Err(e) => Err(e),
        },
        path != "~"@ && path != "$HOME"@ && path != "$TMPDIR"@ && !"~/"@.is_prefix_of(path)
            && !"$HOME/"@.is_prefix_of(path) && !"$TMPDIR/"@.is_prefix_of(path) ==> host.expand(
            path,
        ) == Ok::<Seq<char>, PolicyErrorView>(path),
        host.expand(path) matches Ok(p) ==> host.locate(path) == Ok::<Seq<u8>, PolicyErrorView>(
            encode_utf8(p),
        ),
        host.expand(path) matches Err(e) ==> host.locate(path) == Err::<Seq<u8>, PolicyErrorView>(
            e,
        ),
{
    reveal_strlit("~");
    reveal_strlit("~/");
    reveal_strlit("$HOME");
    reveal_strlit("$HOME/");
    reveal_strlit("$TMPDIR");
    reveal_strlit("$TMPDIR/");
    if path.len() > 0 && path[0] != '~' {
        assert(!"~/"@.is_prefix_of(path)) by {
            if "~/"@.is_prefix_of(path) {
                assert(path[0] == "~/"@[0]);
            }
        }
    }
    if path.len() > 1 && path[1] != 'H' {
        assert(!"$HOME/"@.is_prefix_of(path)) by {
            if "$HOME/"@.is_prefix_of(path) {
                assert(path[1] == "$HOME/"@[1]);
            }
        }
    }
    if path == "~/"@ + rest {
        assert(path.take(2) =~= "~/"@);
        assert(path.skip(2) =~= rest);
    }
    if path == "$HOME/"@ + rest {
        assert(path[0] == '$' && path[5] == '/');
        assert(path.take(6) =~= "$HOME/"@);
        assert(path.skip(6) =~= rest);
    }
    if path == "$TMPDIR/"@ + rest {
        assert(path[0] == '$' && path[1] == 'T' && path[7] == '/');
        assert(path.take(8) =~= "$TMPDIR/"@);
        assert(path.skip(8) =~= rest);
    }
}

/// What was learned last of a path is what is known of it, and of a path of which
/// nothing was learned nothing is known.
pub proof fn lemma_last_learned(learned: Seq<(Vec<u8>, PathFact)>, path: Seq<u8>, i: int)
    requires
        -1 <= i < learned.len(),
        i >= 0 ==> learned[i].0@ == path,
        forall|j: int| i < j < learned.len() ==> (#[trigger] learned[j]).0@ != path,
    ensures
        i >= 0 ==> facts_of(learned).contains_key(path) && facts_of(learned)[path] == learned[i].1,
        i < 0 ==> !facts_of(learned).contains_key(path),
    decreases learned.len(),
{
    if learned.len() > 0 && i < learned.len() - 1 {
        assert(learned[learned.len() - 1].0@ != path);
        lemma_last_learned(learned.drop_last(), path, i);
    }
}

/// What is known of a host's files, and what has to be looked at first.
pub proof fn lemma_known(host: &Host, path: Seq<u8>)
    ensures
        host.facts@ == facts_of(host.facts.learned@),
        host.facts@.contains_key(path) ==> host.fact(path) == Ok::<PathFact, PolicyErrorView>(
            host.facts@[path],
        ),
        !host.facts@.contains_key(path) ==> host.fact(path) == Err::<PathFact, PolicyErrorView>(
            PolicyErrorView::ProbeNeeded(path),
        ),
{
}

/// The names of the platforms.
pub proof fn lemma_platforms()
    ensures
        platform_name(Platform::MacOs) == "macos"@,
        platform_name(Platform::Linux) == "linux"@,
        platform_name(Platform::Other) == "unknown"@,
{
}

/// Which of the groups that are to be left out must not be, in order: those that the
/// policy has and that are marked as required.
pub proof fn lemma_required(policy: RustPolicy, excluded: Seq<Seq<char>>)
    ensures
        required_among(policy, excluded) == excluded.filter(
            |name: Seq<char>| policy.groups@.contains_key(name) && policy.groups@[name].required,
        ),
{
    let a = |name: Seq<char>| is_required(policy, name);
    let b = |name: Seq<char>| policy.groups@.contains_key(name) && policy.groups@[name].required;
    lemma_same_filter(excluded, a, b);
}

/// Under each name a policy has the group of that name, if it has one.
pub proof fn lemma_groups(policy: RustPolicy, name: Seq<char>)
    ensures
        policy.groups@.contains_key(name) ==> group_named(policy, name) == Some(
            policy.groups@[name],
        ),
        !policy.groups@.contains_key(name) ==> group_named(policy, name) is None,
{
}

/// The kinds of errors.
pub proof fn lemma_error_kinds(e: PolicyError)
    ensures
        e@.kind() == ErrorKind::SandboxInit <==> e is DenyOverlap || e is RuleRefused,
        e@.kind() == ErrorKind::PathCanonicalization <==> e is NotCanonical,
        e@.kind() == ErrorKind::Probe <==> e is ProbeNeeded,
{
}

/// What errors in policies say.
pub proof fn lemma_policy_error_texts(e: PolicyError)
    ensures
        e matches PolicyError::Unparsable(m) ==> e@.message() == "Failed to parse policy.json: "@
            + m@,
        e matches PolicyError::UnknownGroup(n) ==> e@.message() == "Unknown policy group: "@ + ("'"@
            + n@ + "'"@),
        e matches PolicyError::RequiredGroups(v) ==> e@.message()
            == "Cannot exclude required groups: "@ + joined(
            v@.map_values(|n: String| "'"@ + n@ + "'"@),
            ", "@,
        ),
        e is NamedCredentials ==> e@.message()
            == "network.credentials requires built-in network-policy resolution, which nono-py does not expose yet"@,
        e matches PolicyError::UpstreamConflict { first_group, first_proxy, group, proxy }
            ==> e@.message() == "Conflicting upstream_proxy values in policy groups: "@ + ("'"@
            + first_group@ + "'"@) + " sets "@ + ("'"@ + first_proxy@ + "'"@) + ", but "@ + ("'"@
            + group@ + "'"@) + " sets "@ + ("'"@ + proxy@ + "'"@),
        e matches PolicyError::VariableNotSet(n) ==> e@.message() == n@ + " is not set"@,
        e matches PolicyError::VariableNotAbsolute { name, value } ==> e@.message() == name@
            + " must be an absolute path, got: "@ + value@,
        e matches PolicyError::DenyOverlap(v) ==> e@.message()
            == "Landlock deny-overlap is not enforceable on Linux. Refusing to start with conflicting policy.\n"@
            + joined(v@.map_values(|line: String| line@), "\n"@),
        e matches PolicyError::RuleRefused(m) ==> e@.message() == m@,
{
    if let PolicyError::RequiredGroups(v) = e {
        assert(texts(v@).map_values(|n: Seq<char>| crate::error::quoted(n)) =~= v@.map_values(
            |n: String| "'"@ + n@ + "'"@,
        ));
    }
    if let PolicyError::DenyOverlap(v) = e {
        assert(texts(v@) =~= v@.map_values(|line: String| line@));
    }
}

/// What errors about paths say. Bytes that are not UTF-8 are displayed with
/// something else in their place.
pub proof fn lemma_path_error_texts(e: PolicyError)
    ensures
        e matches PolicyError::ControlCharacter(p) ==> e@.message()
            == "Path contains control character: "@ + p@,
        e matches PolicyError::NotUtf8(p) ==> e@.message() == "Path contains non-UTF-8 bytes: "@
            + shown(p@),
        e matches PolicyError::NoParent(p) ==> e@.message()
            == "cannot resolve parent symlinks for "@ + shown(p@),
        e matches PolicyError::ParentNotCanonical { path, reason } ==> e@.message()
            == "canonicalize "@ + shown(path@) + ": "@ + reason@,
        e matches PolicyError::NotCanonical { path, reason } ==> e@.message()
            == "Failed to canonicalize path "@ + shown(path@) + ": "@ + reason@,
        e matches PolicyError::ProbeNeeded(p) ==> e@.message()
            == "nothing is known of the path "@ + shown(p@),
        forall|b: Seq<u8>| valid_utf8(b) ==> #[trigger] shown(b) == decode_utf8(b),
{
}

/// A name put below a directory: the directory, a slash unless it ends in one or is
/// empty, and the name.
pub proof fn lemma_put_below(dir: Seq<u8>, name: Seq<u8>)
    ensures
        dir.len() == 0 ==> below_bytes(dir, name) == name,
        dir.len() > 0 && dir.last() == 47 ==> below_bytes(dir, name) == dir + name,
        dir.len() > 0 && dir.last() != 47 ==> below_bytes(dir, name) == dir + seq![47u8] + name,
{
    assert(dir.push(47u8) + name =~= dir + seq![47u8] + name);
    if dir.len() == 0 {
        assert(dir + name =~= name);
    }
}

/// Where a capability came from, how that is shown, and that only users and profiles
/// ask for something explicitly.
pub proof fn lemma_sources(source: CapabilitySource)
    ensures
        source@.is_user_intent() <==> source is User || source is Profile,
        source is User ==> source@ is User && source@.label() == "user"@,
        source is Profile ==> source@ is Profile && source@.label() == "profile"@,
        source is System ==> source@ is System && source@.label() == "system"@,
        source matches CapabilitySource::Group(name) ==> source@ == CapabilitySourceView::Group(
            name@,
        ) && source@.label() == "group:"@ + name@,
{
}

/// What is seen of capabilities: all that they hold, in order.
pub proof fn lemma_capabilities_are_seen(v: Seq<FsCapability>)
    ensures
        fs_views(v).len() == v.len(),
        forall|i: int|
            0 <= i < v.len() ==> (#[trigger] fs_views(v)[i]).original == crate::bytes::path_bytes(
                v[i].original,
            ) && fs_views(v)[i].resolved == crate::bytes::path_bytes(v[i].resolved)
                && fs_views(v)[i].access == v[i].access && fs_views(v)[i].is_file == v[i].is_file
                && fs_views(v)[i].source == v[i].source@,
{
}

/// What it means that a set extends another one, and how the network is used where it
/// is blocked or not.
pub proof fn lemma_extension(b: CapabilitiesView, a: CapabilitiesView)
    ensures
        network_if(true) is Blocked,
        network_if(false) is AllowAll,
        extends(b, a) <==> a.fs.is_prefix_of(b.fs) && a.rules.is_prefix_of(b.rules) && b.rest
            == a.rest && (b.network == a.network || b.network is Blocked),
{
}

/// What it means that a set has grown: it extends what it was, and where it holds the
/// same it is the same.
pub proof fn lemma_growth(a: Capabilities, b: Capabilities)
    ensures
        grown(a, b) <==> extends(b@, a@) && (b@ == a@ ==> b == a),
{
}

/// A denied path conflicts with a capability exactly where this is a directory, was
/// asked for by the user or by a profile, and has fewer components than the path, with
/// which the path begins.
pub proof fn lemma_conflict(path: Seq<u8>, cap: FsCapabilityView)
    ensures
        conflicts(path, cap) <==> !cap.is_file && (cap.source is User || cap.source is Profile)
            && components(cap.resolved).len() < components(path).len() && (forall|i: int|
            0 <= i < components(cap.resolved).len() ==> components(cap.resolved)[i]
                == #[trigger] components(path)[i]),
{
    let a = components(path);
    let b = components(cap.resolved);
    crate::path_laws::lemma_under(path, cap.resolved);
    if b.len() == a.len() && (forall|i: int|
        0 <= i < b.len() ==> b[i] == #[trigger] a[i]) {
        assert(a =~= b);
    }
}

/// Each denied path inside of a directory that the user or a profile allowed is found,
/// and reported by a line that names both.
pub proof fn lemma_overlaps_are_found(
    paths: Seq<Seq<u8>>,
    fs: Seq<FsCapabilityView>,
    i: int,
    j: int,
    lines: Seq<Seq<char>>,
)
    requires
        0 <= i < paths.len(),
        0 <= j < fs.len(),
        !fs[j].is_file,
        fs[j].source is User || fs[j].source is Profile,
        components(fs[j].resolved).len() < components(paths[i]).len(),
        forall|k: int|
            0 <= k < components(fs[j].resolved).len() ==> components(fs[j].resolved)[k]
                == #[trigger] components(paths[i])[k],
        is_conflict_report(lines, paths, fs),
    ensures
        any_conflict(paths, fs),
        lines.contains(
            "deny '"@ + shown(paths[i]) + "' overlaps allowed parent '"@ + shown(fs[j].resolved)
                + "' (source: "@ + (if fs[j].source is User {
                "user"@
            } else {
                "profile"@
            }) + ")"@,
        ),
{
    lemma_conflict(paths[i], fs[j]);
    assert(conflicts(paths[i], fs[j]));
    let line = conflict_line(paths[i], fs[j]);
    assert(reports_conflict(line, paths, fs));
    assert(lines.contains(line));
}

/// What is found is there: each line of a report names a denied path and a directory
/// above it that the user or a profile allowed; no line occurs twice, and they are
/// sorted.
pub proof fn lemma_only_overlaps_are_found(
    paths: Seq<Seq<u8>>,
    fs: Seq<FsCapabilityView>,
    lines: Seq<Seq<char>>,
    l: int,
) -> (r: (int, int))
    requires
        is_conflict_report(lines, paths, fs),
        0 <= l < lines.len(),
    ensures
        0 <= r.0 < paths.len(),
        0 <= r.1 < fs.len(),
        !fs[r.1].is_file,
        fs[r.1].source is User || fs[r.1].source is Profile,
        components(fs[r.1].resolved).len() < components(paths[r.0]).len(),
        forall|k: int|
            0 <= k < components(fs[r.1].resolved).len() ==> components(fs[r.1].resolved)[k]
                == #[trigger] components(paths[r.0])[k],
        lines[l] == "deny '"@ + shown(paths[r.0]) + "' overlaps allowed parent '"@ + shown(
            fs[r.1].resolved,
        ) + "' (source: "@ + (if fs[r.1].source is User {
            "user"@
        } else {
            "profile"@
        }) + ")"@,
        forall|a: int, b: int|
            0 <= a < b < lines.len() ==> text_le(#[trigger] lines[a], #[trigger] lines[b])
                && lines[a] != lines[b],
{
    lemma_sorted(lines);
    assert(lines.contains(lines[l]));
    let (i, j) = choose|i: int, j: int|
        0 <= i < paths.len() && 0 <= j < fs.len() && #[trigger] conflicts(paths[i], fs[j])
            && lines[l] == conflict_line(paths[i], fs[j]);
    lemma_conflict(paths[i], fs[j]);
    (i, j)
}

/// Denied paths conflict with capabilities only where one of them lies inside of a
/// directory that the user or a profile allowed.
pub proof fn lemma_no_overlap(paths: Seq<Seq<u8>>, fs: Seq<FsCapabilityView>)
    requires
        forall|i: int, j: int|
            0 <= i < paths.len() && 0 <= j < fs.len() && !(#[trigger] fs[j]).is_file && (
            fs[j].source is User || fs[j].source is Profile) ==> !(components(
                fs[j].resolved,
            ).is_prefix_of(components(#[trigger] paths[i])) && components(fs[j].resolved)
                != components(paths[i])),
    ensures
        !any_conflict(paths, fs),
{
    assert forall|i: int, j: int| 0 <= i < paths.len() && 0 <= j < fs.len() implies !(
    #[trigger] conflicts(paths[i], fs[j])) by {
        assert(!fs[j].is_file || fs[j].is_file);
        assert(paths[i] == paths[i]);
    }
}

} // verus!
