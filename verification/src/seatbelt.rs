//! Seatbelt rules: the S-expressions by which macOS confines a process.

use vstd::prelude::*;
use vstd::utf8::{decode_utf8, valid_utf8};

use crate::bytes::{as_text, bytes_of_path, copy_bytes};
use crate::caps::{
    fs_views, grown, lemma_grown_on, lemma_grown_same, rule_refusal, AccessMode, Capabilities,
    CapabilitiesView, FsCapability, FsCapabilityView,
};
use crate::error::{PolicyError, PolicyErrorView};
use crate::host::{Host, Platform};
use crate::text::{chars_of, texts};

verus! {

/// Whether `c` is a control character (the general category Cc).
pub open spec fn is_control_char(c: char) -> bool {
    c <= '\u{1f}' || '\u{7f}' <= c <= '\u{9f}'
}

/// Whether `s` holds a control character.
pub open spec fn has_control(s: Seq<char>) -> bool {
    exists|i: int| 0 <= i < s.len() && is_control_char(#[trigger] s[i])
}

/// How a character stands inside of a quoted string.
pub open spec fn escaped_char(c: char) -> Seq<char> {
    if c == '\\' {
        seq!['\\', '\\']
    } else if c == '"' {
        seq!['\\', '"']
    } else {
        seq![c]
    }
}

/// How a text stands inside of a quoted string.
pub open spec fn escaped(s: Seq<char>) -> Seq<char>
    decreases s.len(),
{
    if s.len() == 0 {
        Seq::empty()
    } else {
        escaped_char(s[0]) + escaped(s.drop_first())
    }
}

/// What a reader of quoted strings gets from the text behind an opening quote:
/// the string up to the closing quote, and the rest. A backslash makes the
/// character behind it part of the string.
pub open spec fn read_quoted(t: Seq<char>) -> Option<(Seq<char>, Seq<char>)>
    decreases t.len(),
{
    if t.len() == 0 {
        None
    } else if t[0] == '"' {
        Some((Seq::empty(), t.drop_first()))
    } else if t[0] == '\\' {
        if t.len() == 1 {
            None
        } else {
            match read_quoted(t.skip(2)) {
                Some((s, rest)) => Some((seq![t[1]] + s, rest)),
                None => None,
            }
        }
    } else {
        match read_quoted(t.drop_first()) {
            Some((s, rest)) => Some((seq![t[0]] + s, rest)),
            None => None,
        }
    }
}

/// An escaped path cannot leave the quotes that it stands in: whatever follows
/// the closing quote, a reader gets the path itself back, and then what follows.
pub proof fn lemma_escaped_stays_quoted(s: Seq<char>, rest: Seq<char>)
    ensures
        read_quoted(escaped(s) + seq!['"'] + rest) == Some((s, rest)),
    decreases s.len(),
{
    let t = escaped(s) + seq!['"'] + rest;
    if s.len() == 0 {
        assert(t == seq!['"'] + rest);
        assert(t.drop_first() == rest);
    } else {
        let tail = s.drop_first();
        let u = escaped(tail) + seq!['"'] + rest;
        lemma_escaped_stays_quoted(tail, rest);
        assert(t == escaped_char(s[0]) + u);
        assert(seq![s[0]] + tail == s);
        if s[0] == '\\' || s[0] == '"' {
            assert(t[0] == '\\' && t[1] == s[0]);
            assert(t.skip(2) == u);
        } else {
            assert(t[0] == s[0]);
            assert(t.drop_first() == u);
        }
    }
}

/// Two paths that are escaped to the same text are the same path.
pub proof fn lemma_escaped_is_injective(a: Seq<char>, b: Seq<char>)
    requires
        escaped(a) == escaped(b),
    ensures
        a == b,
{
    lemma_escaped_stays_quoted(a, Seq::empty());
    lemma_escaped_stays_quoted(b, Seq::empty());
}

/// How the standard library quotes a text for debugging.
pub uninterp spec fn debug_text(s: Seq<char>) -> Seq<char>;

/// Formats a string with `std::fmt::Debug`. The result depends on the string
/// alone; how it quotes and escapes is not said here.
#[verifier::external_body]
fn debug_quote(s: &str) -> (r: String)
    ensures
        r@ == debug_text(s@),
{
    format!("{:?}", s)
}

/// A path as it stands between the quotes of a rule; there is none for a path
/// with a control character.
pub open spec fn seatbelt_path(path: Seq<char>) -> Result<Seq<char>, PolicyErrorView> {
    if has_control(path) {
        Err(PolicyErrorView::ControlCharacter(debug_text(path)))
    } else {
        Ok(escaped(path))
    }
}

/// A path as it stands between the quotes of a rule.
pub fn escape_seatbelt_path(path: &str) -> (r: Result<String, PolicyError>)
    ensures
        match r {
            Ok(text) => seatbelt_path(path@) == Ok::<Seq<char>, PolicyErrorView>(text@),
            Err(e) => seatbelt_path(path@) == Err::<Seq<char>, PolicyErrorView>(e@),
        },
{
    let v = chars_of(path);
    let mut result = String::new();
    assert(path@.skip(0) == path@);
    for i in 0..v.len()
        invariant
            v@ == path@,
            forall|j: int| 0 <= j < i ==> !is_control_char(#[trigger] path@[j]),
            escaped(path@) == result@ + escaped(path@.skip(i as int)),
    {
        let c = v[i];
        if c <= '\u{1f}' || ('\u{7f}' <= c && c <= '\u{9f}') {
            assert(is_control_char(path@[i as int]));
            return Err(PolicyError::ControlCharacter(debug_quote(path)));
        }
        assert(path@.skip(i as int).drop_first() == path@.skip(i + 1));
        assert(path@.skip(i as int)[0] == c);
        let ghost before = result@;
        if c == '\\' {
            result.push('\\');
            result.push('\\');
            assert(result@ == before + seq!['\\', '\\']);
        } else if c == '"' {
            result.push('\\');
            result.push('"');
            assert(result@ == before + seq!['\\', '"']);
        } else {
            result.push(c);
            assert(result@ == before + seq![c]);
        }
        assert(result@ == before + escaped_char(c));
        assert(before + (escaped_char(c) + escaped(path@.skip(i + 1))) == result@ + escaped(
            path@.skip(i + 1),
        ));
    }
    assert(result@ + escaped(path@.skip(path@.len() as int)) == result@);
    Ok(result)
}

/// The rule that keeps files from being removed.
pub open spec fn unlink_denied() -> Seq<char> {
    "(deny file-write-unlink)"@
}

/// The rule that lets files below a directory be removed.
pub open spec fn unlink_allowed(escaped_path: Seq<char>) -> Seq<char> {
    "(allow file-write-unlink (subpath \""@ + escaped_path + "\"))"@
}

/// The rule that lets files below a symbolic link be read.
pub open spec fn symlink_allowed(escaped_path: Seq<char>) -> Seq<char> {
    "(allow file-read* (subpath \""@ + escaped_path + "\"))"@
}

/// What a rule on a path applies to: the file alone, or all below the path.
pub open spec fn path_filter(escaped_path: Seq<char>, is_file: bool) -> Seq<char> {
    if is_file {
        "literal \""@ + escaped_path + "\""@
    } else {
        "subpath \""@ + escaped_path + "\""@
    }
}

/// The rules that deny access to a path: its metadata stay readable, its data
/// can be neither read nor written, and no socket there can be reached.
pub open spec fn deny_rules(escaped_path: Seq<char>, is_file: bool) -> Seq<Seq<char>> {
    let filter = path_filter(escaped_path, is_file);
    seq![
        "(allow file-read-metadata ("@ + filter + "))"@,
        "(deny file-read-data ("@ + filter + "))"@,
        "(deny file-write* ("@ + filter + "))"@,
        "(deny network-outbound (path \""@ + escaped_path + "\"))"@,
    ]
}

/// A capability set after some work on it, and the error that ended the work.
#[verifier::ext_equal]
pub struct Outcome {
    pub caps: CapabilitiesView,
    pub error: Option<PolicyErrorView>,
}

/// What comes of adding `rules` in order: the first one that the set refuses
/// ends it.
pub open spec fn with_rules(caps: CapabilitiesView, rules: Seq<Seq<char>>) -> Outcome
    decreases rules.len(),
{
    if rules.len() == 0 {
        Outcome { caps, error: None }
    } else {
        match rule_refusal(rules[0]) {
            Some(message) => Outcome { caps, error: Some(PolicyErrorView::RuleRefused(message)) },
            None => with_rules(
                CapabilitiesView { rules: caps.rules.push(rules[0]), ..caps },
                rules.drop_first(),
            ),
        }
    }
}

/// A path as it stands between the quotes of a rule; there is none for a path that
/// is not UTF-8, or with a control character.
pub open spec fn rule_path(path: Seq<u8>) -> Result<Seq<char>, PolicyErrorView> {
    if valid_utf8(path) {
        seatbelt_path(decode_utf8(path))
    } else {
        Err(PolicyErrorView::NotUtf8(path))
    }
}

/// What comes of denying access to a path by rules.
pub open spec fn with_deny_rules(caps: CapabilitiesView, path: Seq<u8>, host: &Host) -> Outcome {
    match rule_path(path) {
        Err(e) => Outcome { caps, error: Some(e) },
        Ok(text) => match host.fact(path) {
            Err(e) => Outcome { caps, error: Some(e) },
            Ok(fact) => with_rules(caps, deny_rules(text, fact.exists && fact.is_file)),
        },
    }
}

/// Whether `r` is the error of an outcome, if it has one.
pub open spec fn reports(r: Result<(), PolicyError>, error: Option<PolicyErrorView>) -> bool {
    match r {
        Ok(_) => error is None,
        Err(e) => error == Some(e@),
    }
}

/// What a set's answer to a rule means: a refusal is an error with its message.
pub fn rule_answer(answer: Result<(), String>) -> (r: Result<(), PolicyError>)
    ensures
        match answer {
            Ok(_) => r is Ok,
            Err(message) => r matches Err(e) && e@ == PolicyErrorView::RuleRefused(message@),
        },
{
    match answer {
        Ok(_) => Ok(()),
        Err(message) => Err(PolicyError::RuleRefused(message)),
    }
}

/// Adds `rules` in order; the first one that the set refuses ends it.
pub fn add_rules(caps: &mut Capabilities, rules: &[String]) -> (r: Result<(), PolicyError>)
    ensures
        grown(*old(caps), *final(caps)),
        final(caps)@ == with_rules(old(caps)@, texts(rules@)).caps,
        reports(r, with_rules(old(caps)@, texts(rules@)).error),
{
    let ghost all = texts(rules@);
    assert(all.skip(0) == all);
    proof {
        lemma_grown_same(*caps);
    }
    for i in 0..rules.len()
        invariant
            grown(*old(caps), *caps),
            all == texts(rules@),
            with_rules(old(caps)@, all) == with_rules(caps@, all.skip(i as int)),
    {
        assert(all.skip(i as int)[0] == rules@[i as int]@);
        assert(all.skip(i as int).drop_first() == all.skip(i + 1));
        let ghost before = *caps;
        let answer = caps.add_platform_rule(rules[i].as_str());
        proof {
            lemma_grown_on(*old(caps), before, *caps);
        }
        rule_answer(answer)?;
    }
    Ok(())
}

/// Adds the rule that keeps files from being removed.
pub fn add_unlink_denied(caps: &mut Capabilities) -> (r: Result<(), PolicyError>)
    ensures
        grown(*old(caps), *final(caps)),
        final(caps)@ == with_rules(old(caps)@, seq![unlink_denied()]).caps,
        reports(r, with_rules(old(caps)@, seq![unlink_denied()]).error),
{
    let mut rules: Vec<String> = Vec::new();
    rules.push(String::from_str("(deny file-write-unlink)"));
    assert(texts(rules@) == seq![unlink_denied()]);
    add_rules(caps, rules.as_slice())
}

/// Puts `text` between `front` and `back`.
fn enclose(front: &str, text: &str, back: &str) -> (r: String)
    ensures
        r@ == front@ + text@ + back@,
{
    String::from_str(front).concat(text).concat(back)
}

/// Writes a path as it stands between the quotes of a rule.
pub fn write_rule_path(path: &[u8]) -> (r: Result<String, PolicyError>)
    ensures
        match r {
            Ok(text) => rule_path(path@) == Ok::<Seq<char>, PolicyErrorView>(text@),
            Err(e) => rule_path(path@) == Err::<Seq<char>, PolicyErrorView>(e@),
        },
{
    match as_text(path) {
        Some(text) => escape_seatbelt_path(text.as_str()),
        None => Err(PolicyError::NotUtf8(copy_bytes(path))),
    }
}

/// Denies access to `path` by rules. A path that cannot stand in a rule leaves the
/// set as it is.
pub fn emit_deny_rules(path: &[u8], caps: &mut Capabilities, host: &Host) -> (r: Result<
    (),
    PolicyError,
>)
    ensures
        grown(*old(caps), *final(caps)),
        rule_path(path@) is Err || host.fact(path@) is Err ==> *final(caps) == *old(caps),
        final(caps)@ == with_deny_rules(old(caps)@, path@, host).caps,
        reports(r, with_deny_rules(old(caps)@, path@, host).error),
{
    proof {
        lemma_grown_same(*caps);
    }
    let text = write_rule_path(path)?;
    let fact = host.look_up(path)?;
    let filter = if fact.exists && fact.is_file {
        enclose("literal \"", text.as_str(), "\"")
    } else {
        enclose("subpath \"", text.as_str(), "\"")
    };
    let mut rules: Vec<String> = Vec::new();
    rules.push(enclose("(allow file-read-metadata (", filter.as_str(), "))"));
    rules.push(enclose("(deny file-read-data (", filter.as_str(), "))"));
    rules.push(enclose("(deny file-write* (", filter.as_str(), "))"));
    rules.push(enclose("(deny network-outbound (path \"", text.as_str(), "\"))"));
    assert(texts(rules@) == deny_rules(text@, fact.exists && fact.is_file));
    add_rules(caps, rules.as_slice())
}

/// What comes of letting files below a symbolic link be read.
pub open spec fn with_symlink(caps: CapabilitiesView, path: Seq<char>) -> Outcome {
    match seatbelt_path(path) {
        Err(e) => Outcome { caps, error: Some(e) },
        Ok(text) => with_rules(caps, seq![symlink_allowed(text)]),
    }
}

/// Lets files below a symbolic link be read.
pub fn allow_symlink(path: &str, caps: &mut Capabilities) -> (r: Result<(), PolicyError>)
    ensures
        grown(*old(caps), *final(caps)),
        seatbelt_path(path@) is Err ==> *final(caps) == *old(caps),
        final(caps)@ == with_symlink(old(caps)@, path@).caps,
        reports(r, with_symlink(old(caps)@, path@).error),
{
    proof {
        lemma_grown_same(*caps);
    }
    let text = escape_seatbelt_path(path)?;
    let mut rules: Vec<String> = Vec::new();
    rules.push(enclose("(allow file-read* (subpath \"", text.as_str(), "\"))"));
    assert(texts(rules@) == seq![symlink_allowed(text@)]);
    add_rules(caps, rules.as_slice())
}

/// Whether a capability lets files below a directory be written.
pub open spec fn is_writable_dir(cap: FsCapabilityView) -> bool {
    (cap.access == AccessMode::Write || cap.access == AccessMode::ReadWrite) && !cap.is_file
}

/// The capabilities of a set that let directories be written.
pub open spec fn writable_dirs(caps: CapabilitiesView) -> Seq<FsCapabilityView> {
    caps.fs.filter(|cap: FsCapabilityView| is_writable_dir(cap))
}

/// What comes of letting files below each of `dirs` be removed: the first path
/// that cannot stand in a rule, and the first rule that is refused, ends it.
pub open spec fn with_unlink_allowed(caps: CapabilitiesView, dirs: Seq<FsCapabilityView>) -> Outcome
    decreases dirs.len(),
{
    if dirs.len() == 0 {
        Outcome { caps, error: None }
    } else {
        match rule_path(dirs[0].resolved) {
            Err(e) => Outcome { caps, error: Some(e) },
            Ok(text) => {
                let next = with_rules(caps, seq![unlink_allowed(text)]);
                if next.error is Some {
                    next
                } else {
                    with_unlink_allowed(next.caps, dirs.drop_first())
                }
            },
        }
    }
}

/// What comes of the overrides for directories that may be written; Linux has
/// no need of them.
pub open spec fn with_unlink_overrides(caps: CapabilitiesView, platform: Platform) -> Outcome {
    if platform == Platform::Linux {
        Outcome { caps, error: None }
    } else {
        with_unlink_allowed(caps, writable_dirs(caps))
    }
}

/// The capabilities of `caps` that let directories be written.
fn list_writable_dirs(caps: &Capabilities) -> (r: Vec<FsCapability>)
    ensures
        fs_views(r@) == writable_dirs(caps@),
{
    let all = caps.fs_capabilities();
    let ghost pred = |cap: FsCapabilityView| is_writable_dir(cap);
    let ghost views = fs_views(all@);
    let mut r: Vec<FsCapability> = Vec::new();
    assert(views.take(0).filter(pred) =~= Seq::empty()) by {
        reveal(Seq::filter);
    }
    assert(fs_views(r@) =~= Seq::empty());
    for cap in it: all
        invariant
            it.seq() == all@,
            views == fs_views(all@),
            pred == (|cap: FsCapabilityView| is_writable_dir(cap)),
            fs_views(r@) == views.take(it.index() as int).filter(pred),
    {
        let writable = match cap.access {
            AccessMode::Read => false,
            AccessMode::Write => true,
            AccessMode::ReadWrite => true,
        };
        let ghost had = r@;
        let ghost seen = cap@;
        proof {
            reveal(Seq::filter);
            let i = it.index() as int;
            assert(views.take(i + 1).drop_last() == views.take(i));
            assert(views.take(i + 1).last() == seen);
        }
        if writable && !cap.is_file {
            r.push(cap);
            assert(fs_views(r@) =~= fs_views(had).push(seen));
        }
    }
    assert(views.take(all@.len() as int) == views);
    r
}

/// Lets files below each directory that `caps` lets be written be removed. Linux
/// leaves the set as it is.
pub fn apply_unlink_overrides(caps: &mut Capabilities, platform: Platform) -> (r: Result<
    (),
    PolicyError,
>)
    ensures
        grown(*old(caps), *final(caps)),
        platform == Platform::Linux ==> *final(caps) == *old(caps),
        final(caps)@ == with_unlink_overrides(old(caps)@, platform).caps,
        reports(r, with_unlink_overrides(old(caps)@, platform).error),
{
    proof {
        lemma_grown_same(*caps);
    }
    if platform == Platform::Linux {
        return Ok(());
    }
    let dirs = list_writable_dirs(caps);
    let ghost all = fs_views(dirs@);
    assert(all.skip(0) == all);
    for i in 0..dirs.len()
        invariant
            grown(*old(caps), *caps),
            all == fs_views(dirs@),
            with_unlink_allowed(old(caps)@, all) == with_unlink_allowed(
                caps@,
                all.skip(i as int),
            ),
            with_unlink_overrides(old(caps)@, platform) == with_unlink_allowed(old(caps)@, all),
    {
        assert(all.skip(i as int)[0] == dirs@[i as int]@);
        assert(all.skip(i as int).drop_first() == all.skip(i + 1));
        let path = bytes_of_path(&dirs[i].resolved);
        let text = write_rule_path(path.as_slice())?;
        let mut rules: Vec<String> = Vec::new();
        rules.push(enclose("(allow file-write-unlink (subpath \"", text.as_str(), "\"))"));
        assert(texts(rules@) == seq![unlink_allowed(text@)]);
        let ghost before = *caps;
        let added = add_rules(caps, rules.as_slice());
        proof {
            lemma_grown_on(*old(caps), before, *caps);
        }
        added?;
    }
    Ok(())
}

} // verus!
