//! The host that a policy is resolved on: its platform, the environment
//! variables that paths may name, and what is known of its files.

use std::path::PathBuf;

use vstd::prelude::*;
use vstd::utf8::encode_utf8;

use crate::bytes::{copy_bytes, same_bytes};
use crate::error::{PolicyError, PolicyErrorView};
use crate::path::{is_absolute, is_absolute_path};
use crate::text::{after_prefix, opt_text, same_text, strip_prefix};

verus! {

/// The platforms that policies tell apart.
#[derive(Clone, Copy, Debug, PartialEq, Eq, Structural)]
pub enum Platform {
    MacOs,
    Linux,
    Other,
}

/// The name by which policy groups call a platform.
pub open spec fn platform_name(platform: Platform) -> Seq<char> {
    match platform {
        Platform::MacOs => "macos"@,
        Platform::Linux => "linux"@,
        Platform::Other => "unknown"@,
    }
}

impl Platform {
    /// The name by which policy groups call the platform.
    pub fn name(&self) -> (r: &'static str)
        ensures
            r@ == platform_name(*self),
    {
        match self {
            Platform::MacOs => "macos",
            Platform::Linux => "linux",
            Platform::Other => "unknown",
        }
    }
}

/// What came of making a path canonical.
#[derive(Debug)]
pub enum Canonical {
    /// The canonical path.
    Resolved(Vec<u8>),
    /// There is no such file; holds the system's message.
    NotFound(String),
    /// It failed for another reason; holds the system's message.
    Failed(String),
}

/// What came of making a capability for a path.
#[derive(Debug)]
pub enum Grant {
    /// None can be made.
    Refused,
    /// One can be made, for this canonical path.
    Path(PathBuf),
}

/// What is known of a path.
#[derive(Debug)]
pub struct PathFact {
    /// Whether something is there.
    pub exists: bool,
    /// Whether it is a directory.
    pub is_dir: bool,
    /// Whether it is a regular file.
    pub is_file: bool,
    /// What came of making it canonical.
    pub canonical: Canonical,
    /// What came of making a capability for it.
    pub grant: Grant,
}

/// What is known of paths. What was learned last of a path is what is known of it.
pub struct Facts {
    pub learned: Vec<(Vec<u8>, PathFact)>,
}

/// What is known of paths after the facts `learned`, in order.
pub open spec fn facts_of(learned: Seq<(Vec<u8>, PathFact)>) -> Map<Seq<u8>, PathFact>
    decreases learned.len(),
{
    if learned.len() == 0 {
        Map::empty()
    } else {
        facts_of(learned.drop_last()).insert(learned.last().0@, learned.last().1)
    }
}

impl View for Facts {
    type V = Map<Seq<u8>, PathFact>;

    open spec fn view(&self) -> Map<Seq<u8>, PathFact> {
        facts_of(self.learned@)
    }
}

impl Facts {
    /// Nothing is known.
    pub fn new() -> (r: Facts)
        ensures
            r@ == Map::<Seq<u8>, PathFact>::empty(),
    {
        Facts { learned: Vec::new() }
    }

    /// Notes what was found out of a path.
    pub fn insert(&mut self, path: Vec<u8>, fact: PathFact)
        ensures
            final(self)@ == old(self)@.insert(path@, fact),
    {
        let ghost had = self.learned@;
        self.learned.push((path, fact));
        assert(self.learned@.drop_last() == had);
    }

    /// What is known of a path, if anything is.
    pub fn get(&self, path: &[u8]) -> (r: Option<&PathFact>)
        ensures
            match r {
                Some(fact) => self@.contains_key(path@) && self@[path@] == *fact,
                None => !self@.contains_key(path@),
            },
    {
        let ghost all = self.learned@;
        let mut i: usize = self.learned.len();
        assert(all.take(i as int) == all);
        while i > 0
            invariant
                all == self.learned@,
                i <= all.len(),
                facts_of(all).contains_key(path@) == facts_of(all.take(i as int)).contains_key(
                    path@,
                ),
                facts_of(all).contains_key(path@) ==> facts_of(all)[path@] == facts_of(
                    all.take(i as int),
                )[path@],
            decreases i,
        {
            i -= 1;
            assert(all.take(i + 1).drop_last() == all.take(i as int));
            assert(all.take(i + 1).last() == all[i as int]);
            if same_bytes(self.learned[i].0.as_slice(), path) {
                return Some(&self.learned[i].1);
            }
        }
        None
    }
}

/// The host that a policy is resolved on.
pub struct Host {
    pub platform: Platform,
    /// The variable `HOME`.
    pub home: Option<String>,
    /// The variable `TMPDIR`.
    pub tmpdir: Option<String>,
    /// What is known of paths.
    pub facts: Facts,
}

impl Host {
    /// A host of which nothing is known yet but its environment.
    pub fn new(platform: Platform, home: Option<String>, tmpdir: Option<String>) -> (r: Host)
        ensures
            r.platform == platform,
            r.home == home,
            r.tmpdir == tmpdir,
            r.facts@ == Map::<Seq<u8>, PathFact>::empty(),
    {
        Host { platform, home, tmpdir, facts: Facts::new() }
    }

    /// Notes what was found out of a path.
    pub fn learn(&mut self, path: Vec<u8>, fact: PathFact)
        ensures
            final(self).facts@ == old(self).facts@.insert(path@, fact),
            final(self).platform == old(self).platform,
            final(self).home == old(self).home,
            final(self).tmpdir == old(self).tmpdir,
    {
        self.facts.insert(path, fact);
    }

    /// What is known of a path.
    pub open spec fn fact(&self, path: Seq<u8>) -> Result<PathFact, PolicyErrorView> {
        if self.facts@.contains_key(path) {
            Ok(self.facts@[path])
        } else {
            Err(PolicyErrorView::ProbeNeeded(path))
        }
    }

    /// Looks up what is known of a path.
    pub fn look_up(&self, path: &[u8]) -> (r: Result<&PathFact, PolicyError>)
        ensures
            match r {
                Ok(fact) => self.fact(path@) == Ok::<PathFact, PolicyErrorView>(*fact),
                Err(e) => self.fact(path@) == Err::<PathFact, PolicyErrorView>(e@),
            },
    {
        match self.facts.get(path) {
            Some(fact) => Ok(fact),
            None => Err(PolicyError::ProbeNeeded(copy_bytes(path))),
        }
    }
}

/// The value of an environment variable that has to be an absolute path.
pub open spec fn env_path(name: Seq<char>, value: Option<Seq<char>>) -> Result<
    Seq<char>,
    PolicyErrorView,
> {
    match value {
        None => Err(PolicyErrorView::VariableNotSet(name)),
        Some(v) => if is_absolute_path(v) {
            Ok(v)
        } else {
            Err(PolicyErrorView::VariableNotAbsolute { name, value: v })
        },
    }
}

/// Checks the value of an environment variable that has to be an absolute path.
pub fn validated_env_path(name: &str, value: &Option<String>) -> (r: Result<String, PolicyError>)
    ensures
        match r {
            Ok(v) => env_path(name@, opt_text(*value)) == Ok::<Seq<char>, PolicyErrorView>(v@),
            Err(e) => env_path(name@, opt_text(*value)) == Err::<Seq<char>, PolicyErrorView>(e@),
        },
{
    match value {
        None => Err(PolicyError::VariableNotSet(name.to_owned())),
        Some(v) => if is_absolute(v.as_str()) {
            Ok(v.clone())
        } else {
            Err(PolicyError::VariableNotAbsolute { name: name.to_owned(), value: v.clone() })
        },
    }
}

/// `rest` below the directory that an environment variable names.
pub open spec fn below_env(dir: Result<Seq<char>, PolicyErrorView>, rest: Seq<char>) -> Result<
    Seq<char>,
    PolicyErrorView,
> {
    match dir {
        Ok(d) => Ok(d + "/"@ + rest),
        Err(e) => Err(e),
    }
}

/// The path that a policy means by `path`: `~` and `$HOME` stand for the home
/// directory and `$TMPDIR` for the directory of temporary files, alone or with
/// a slash and more behind them; all else stands for itself.
pub open spec fn expanded(path: Seq<char>, home: Option<Seq<char>>, tmpdir: Option<Seq<char>>) -> Result<
    Seq<char>,
    PolicyErrorView,
> {
    let home_dir = env_path("HOME"@, home);
    let tmp_dir = env_path("TMPDIR"@, tmpdir);
    if after_prefix(path, "~/"@) is Some {
        below_env(home_dir, after_prefix(path, "~/"@)->0)
    } else if path == "~"@ || path == "$HOME"@ {
        home_dir
    } else if after_prefix(path, "$HOME/"@) is Some {
        below_env(home_dir, after_prefix(path, "$HOME/"@)->0)
    } else if path == "$TMPDIR"@ {
        tmp_dir
    } else if after_prefix(path, "$TMPDIR/"@) is Some {
        below_env(tmp_dir, after_prefix(path, "$TMPDIR/"@)->0)
    } else {
        Ok(path)
    }
}

impl Host {
    /// The path that a policy means by `path` on this host.
    pub open spec fn expand(&self, path: Seq<char>) -> Result<Seq<char>, PolicyErrorView> {
        expanded(path, opt_text(self.home), opt_text(self.tmpdir))
    }

    /// The bytes of the path that a policy means by `path` on this host.
    pub open spec fn locate(&self, path: Seq<char>) -> Result<Seq<u8>, PolicyErrorView> {
        match self.expand(path) {
            Ok(p) => Ok(encode_utf8(p)),
            Err(e) => Err(e),
        }
    }
}

/// Puts `rest` below the directory that an environment variable names.
fn join_env(name: &str, value: &Option<String>, rest: String) -> (r: Result<String, PolicyError>)
    ensures
        match r {
            Ok(v) => below_env(env_path(name@, opt_text(*value)), rest@) == Ok::<
                Seq<char>,
                PolicyErrorView,
            >(v@),
            Err(e) => below_env(env_path(name@, opt_text(*value)), rest@) == Err::<
                Seq<char>,
                PolicyErrorView,
            >(e@),
        },
{
    let dir = validated_env_path(name, value)?;
    Ok(dir.concat("/").concat(rest.as_str()))
}

/// The path that a policy means by `path_str` on `host`.
pub fn expand_path(path_str: &str, host: &Host) -> (r: Result<String, PolicyError>)
    ensures
        match r {
            Ok(p) => host.expand(path_str@) == Ok::<Seq<char>, PolicyErrorView>(p@),
            Err(e) => host.expand(path_str@) == Err::<Seq<char>, PolicyErrorView>(e@),
        },
{
    if let Some(rest) = strip_prefix(path_str, "~/") {
        join_env("HOME", &host.home, rest)
    } else if same_text(path_str, "~") || same_text(path_str, "$HOME") {
        validated_env_path("HOME", &host.home)
    } else if let Some(rest) = strip_prefix(path_str, "$HOME/") {
        join_env("HOME", &host.home, rest)
    } else if same_text(path_str, "$TMPDIR") {
        validated_env_path("TMPDIR", &host.tmpdir)
    } else if let Some(rest) = strip_prefix(path_str, "$TMPDIR/") {
        join_env("TMPDIR", &host.tmpdir, rest)
    } else {
        Ok(path_str.to_owned())
    }
}

} // verus!
