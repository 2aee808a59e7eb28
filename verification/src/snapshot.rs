//! Snapshots: the states of files, the changes between them, and the bookkeeping
//! of a session's snapshots.

use vstd::prelude::*;

use crate::hash::ContentHash;
use crate::table::Table;
use crate::text::{
    before_suffix, bool_text, bounded_number, copy_strings, decimal, lemma_decimal_reads_back,
    lemma_padded_reads_back, numeral, parse_number, strip_suffix, texts, write_bool, write_decimal,
    write_numeral, zero_padded,
};

verus! {

/// The state of a file in a snapshot.
#[derive(Clone, Copy, Debug)]
pub struct FileState {
    /// The digest of its content.
    pub hash: ContentHash,
    /// Its size in bytes.
    pub size: u64,
    /// When it was last modified, in seconds since 1970.
    pub mtime: i64,
    /// Its permission bits.
    pub permissions: u32,
}

impl FileState {
    /// The digest of the file's content.
    pub fn hash(&self) -> (r: ContentHash)
        ensures
            r == self.hash,
    {
        self.hash
    }

    /// The file's size in bytes.
    pub fn size(&self) -> (r: u64)
        ensures
            r == self.size,
    {
        self.size
    }

    /// When the file was last modified, in seconds since 1970.
    pub fn mtime(&self) -> (r: i64)
        ensures
            r == self.mtime,
    {
        self.mtime
    }

    /// The file's permission bits.
    pub fn permissions(&self) -> (r: u32)
        ensures
            r == self.permissions,
    {
        self.permissions
    }

    /// A short text for the state; the permissions are in octal.
    pub fn __repr__(&self) -> (r: String)
        ensures
            r@ == "FileState(size="@ + decimal(self.size as nat) + ", permissions="@ + numeral(
                self.permissions as nat,
                8,
            ) + ")"@,
    {
        String::from_str("FileState(size=").concat(write_decimal(self.size).as_str()).concat(
            ", permissions=",
        ).concat(write_numeral(self.permissions as u64, 8).as_str()).concat(")")
    }
}

/// What happened to a file.
#[derive(Clone, Copy, Debug, PartialEq, Eq, Structural)]
pub enum ChangeType {
    Created,
    Modified,
    Deleted,
    PermissionsChanged,
}

/// The text for what happened to a file.
pub open spec fn change_text(change: ChangeType) -> Seq<char> {
    match change {
        ChangeType::Created => "created"@,
        ChangeType::Modified => "modified"@,
        ChangeType::Deleted => "deleted"@,
        ChangeType::PermissionsChanged => "permissions_changed"@,
    }
}

/// A change between two snapshots.
#[derive(Debug)]
pub struct Change {
    pub path: String,
    pub change_type: ChangeType,
    /// By how many bytes the file grew, where that applies.
    pub size_delta: Option<i64>,
}

impl Change {
    /// The path of the file.
    pub fn path(&self) -> (r: String)
        ensures
            r@ == self.path@,
    {
        self.path.clone()
    }

    /// What happened to the file.
    pub fn change_type(&self) -> (r: &'static str)
        ensures
            r@ == change_text(self.change_type),
    {
        match self.change_type {
            ChangeType::Created => "created",
            ChangeType::Modified => "modified",
            ChangeType::Deleted => "deleted",
            ChangeType::PermissionsChanged => "permissions_changed",
        }
    }

    /// By how many bytes the file grew, where that applies.
    pub fn size_delta(&self) -> (r: Option<i64>)
        ensures
            r == self.size_delta,
    {
        self.size_delta
    }

    /// A short text for the change.
    pub fn __repr__(&self) -> (r: String)
        ensures
            r@ == "Change(path='"@ + self.path@ + "', type="@ + change_text(self.change_type) + ")"@,
    {
        String::from_str("Change(path='").concat(self.path.as_str()).concat("', type=").concat(
            self.change_type(),
        ).concat(")")
    }
}

/// What happened to a file is told by its text.
pub proof fn lemma_change_text_is_injective(a: ChangeType, b: ChangeType)
    requires
        change_text(a) == change_text(b),
    ensures
        a == b,
{
    reveal_strlit("created");
    reveal_strlit("modified");
    reveal_strlit("deleted");
    reveal_strlit("permissions_changed");
    assert("created"@[0] == 'c');
    assert("deleted"@[0] == 'd');
    assert("modified"@[0] == 'm');
    assert("permissions_changed"@[0] == 'p');
}

/// A snapshot: the states of all files that are tracked.
pub struct SnapshotManifest {
    /// Its number; the baseline has 0.
    pub number: u32,
    /// When it was made.
    pub timestamp: String,
    /// The number of the snapshot before it; the baseline has none.
    pub parent: Option<u32>,
    /// The root of the hash tree over all states.
    pub merkle_root: ContentHash,
    /// The states of the files, by path.
    pub files: Table<FileState>,
}

/// The view of a snapshot.
pub struct ManifestView {
    pub number: u32,
    pub timestamp: Seq<char>,
    pub parent: Option<u32>,
    pub merkle_root: ContentHash,
    pub files: Seq<(Seq<char>, FileState)>,
}

impl View for SnapshotManifest {
    type V = ManifestView;

    open spec fn view(&self) -> ManifestView {
        ManifestView {
            number: self.number,
            timestamp: self.timestamp@,
            parent: self.parent,
            merkle_root: self.merkle_root,
            files: self.files.rows(),
        }
    }
}

impl SnapshotManifest {
    /// The snapshot's number; the baseline has 0.
    pub fn number(&self) -> (r: u32)
        ensures
            r == self.number,
    {
        self.number
    }

    /// When the snapshot was made.
    pub fn timestamp(&self) -> (r: &str)
        ensures
            r@ == self.timestamp@,
    {
        self.timestamp.as_str()
    }

    /// The number of the snapshot before it; the baseline has none.
    pub fn parent(&self) -> (r: Option<u32>)
        ensures
            r == self.parent,
    {
        self.parent
    }

    /// The root of the hash tree over all states.
    pub fn merkle_root(&self) -> (r: ContentHash)
        ensures
            r == self.merkle_root,
    {
        self.merkle_root
    }

    /// The states of the files, by path.
    pub fn files(&self) -> (r: &Table<FileState>)
        ensures
            *r == self.files,
    {
        &self.files
    }

    /// A short text for the snapshot.
    pub fn __repr__(&self) -> (r: String)
        ensures
            r@ == "SnapshotManifest(number="@ + decimal(self.number as nat) + ", files="@ + decimal(
                self.files.rows().len(),
            ) + ")"@,
    {
        String::from_str("SnapshotManifest(number=").concat(
            write_decimal(self.number as u64).as_str(),
        ).concat(", files=").concat(write_decimal(self.files.len() as u64).as_str()).concat(")")
    }

    /// A copy of the snapshot.
    pub fn copy(&self) -> (r: SnapshotManifest)
        ensures
            r@ == self@,
    {
        SnapshotManifest {
            number: self.number,
            timestamp: self.timestamp.clone(),
            parent: self.parent,
            merkle_root: self.merkle_root,
            files: self.files.copy(),
        }
    }
}

/// Which files are left out of snapshots.
#[derive(Debug)]
pub struct ExclusionConfig {
    /// Whether files that git ignores are left out.
    pub use_gitignore: bool,
    /// Names and parts of paths that are left out.
    pub exclude_patterns: Vec<String>,
    /// Patterns for names that are left out.
    pub exclude_globs: Vec<String>,
    /// Patterns for what is kept all the same.
    pub force_include: Vec<String>,
}

/// Calls `nono::undo::ExclusionConfig::default`, which leaves out what git
/// ignores, and nothing else.
#[verifier::external_body]
fn default_exclusion() -> (r: ExclusionConfig)
    ensures
        r.use_gitignore,
        r.exclude_patterns@.len() == 0,
        r.exclude_globs@.len() == 0,
        r.force_include@.len() == 0,
{
    let c = nono::undo::ExclusionConfig::default();
    ExclusionConfig {
        use_gitignore: c.use_gitignore,
        exclude_patterns: c.exclude_patterns,
        exclude_globs: c.exclude_globs,
        force_include: c.force_include,
    }
}

impl ExclusionConfig {
    /// Says which files are left out.
    pub fn new(
        use_gitignore: bool,
        exclude_patterns: Vec<String>,
        exclude_globs: Vec<String>,
        force_include: Vec<String>,
    ) -> (r: ExclusionConfig)
        ensures
            r == (ExclusionConfig {
                use_gitignore,
                exclude_patterns,
                exclude_globs,
                force_include,
            }),
    {
        ExclusionConfig { use_gitignore, exclude_patterns, exclude_globs, force_include }
    }

    /// Whether files that git ignores are left out.
    pub fn use_gitignore(&self) -> (r: bool)
        ensures
            r == self.use_gitignore,
    {
        self.use_gitignore
    }

    /// Names and parts of paths that are left out.
    pub fn exclude_patterns(&self) -> (r: Vec<String>)
        ensures
            texts(r@) == texts(self.exclude_patterns@),
    {
        copy_strings(self.exclude_patterns.as_slice())
    }

    /// Patterns for names that are left out.
    pub fn exclude_globs(&self) -> (r: Vec<String>)
        ensures
            texts(r@) == texts(self.exclude_globs@),
    {
        copy_strings(self.exclude_globs.as_slice())
    }

    /// Patterns for what is kept all the same.
    pub fn force_include(&self) -> (r: Vec<String>)
        ensures
            texts(r@) == texts(self.force_include@),
    {
        copy_strings(self.force_include.as_slice())
    }

    /// A short text for what is left out.
    pub fn __repr__(&self) -> (r: String)
        ensures
            r@ == "ExclusionConfig(gitignore="@ + bool_text(self.use_gitignore) + ", patterns="@
                + decimal(self.exclude_patterns@.len()) + ", globs="@ + decimal(
                self.exclude_globs@.len(),
            ) + ")"@,
    {
        String::from_str("ExclusionConfig(gitignore=").concat(
            write_bool(self.use_gitignore).as_str(),
        ).concat(", patterns=").concat(
            write_decimal(self.exclude_patterns.len() as u64).as_str(),
        ).concat(", globs=").concat(write_decimal(self.exclude_globs.len() as u64).as_str()).concat(
            ")",
        )
    }

    /// What is left out where `given` says it, and by default elsewhere.
    pub fn or_default(given: Option<&ExclusionConfig>) -> (r: ExclusionConfig)
        ensures
            match given {
                Some(config) => r.use_gitignore == config.use_gitignore && texts(
                    r.exclude_patterns@,
                ) == texts(config.exclude_patterns@) && texts(r.exclude_globs@) == texts(
                    config.exclude_globs@,
                ) && texts(r.force_include@) == texts(config.force_include@),
                None => r.use_gitignore && r.exclude_patterns@.len() == 0 && r.exclude_globs@.len()
                    == 0 && r.force_include@.len() == 0,
            },
    {
        match given {
            Some(config) => ExclusionConfig {
                use_gitignore: config.use_gitignore,
                exclude_patterns: config.exclude_patterns(),
                exclude_globs: config.exclude_globs(),
                force_include: config.force_include(),
            },
            None => default_exclusion(),
        }
    }
}

/// The number of the snapshot that a file of the name `name` holds, if it holds
/// one.
pub open spec fn manifest_number(name: Seq<char>) -> Option<nat> {
    match before_suffix(name, ".json"@) {
        Some(stem) => bounded_number(stem, u32::MAX as nat),
        None => None,
    }
}

/// Whether `n` is the greatest number of a snapshot among `names`.
pub open spec fn is_latest(n: nat, names: Seq<Seq<char>>) -> bool {
    &&& exists|i: int| 0 <= i < names.len() && manifest_number(#[trigger] names[i]) == Some(n)
    &&& forall|i: int|
        0 <= i < names.len() ==> (manifest_number(#[trigger] names[i]) matches Some(m) ==> m <= n)
}

/// The number of the latest snapshot among the files `names`, if there is one.
pub fn latest_number(names: &[String]) -> (r: Option<u32>)
    ensures
        match r {
            Some(n) => is_latest(n as nat, texts(names@)),
            None => forall|i: int|
                0 <= i < names@.len() ==> manifest_number(#[trigger] texts(names@)[i]) is None,
        },
{
    let mut max: Option<u32> = None;
    let ghost all = texts(names@);
    for i in 0..names.len()
        invariant
            all == texts(names@),
            match max {
                Some(n) => is_latest(n as nat, all.take(i as int)),
                None => forall|k: int| 0 <= k < i ==> manifest_number(#[trigger] all[k]) is None,
            },
    {
        let ghost before = max;
        let ghost front = all.take(i as int);
        let ghost now = all.take(i + 1);
        assert(names@[i as int]@ == all[i as int]);
        let found: Option<u64> = match strip_suffix(names[i].as_str(), ".json") {
            Some(stem) => parse_number(stem.as_str(), 0xffff_ffff),
            None => None,
        };
        if let Some(n) = found {
            let n: u32 = n as u32;
            max = match max {
                Some(m) => Some(if m >= n { m } else { n }),
                None => Some(n),
            };
        }
        proof {
            assert(forall|k: int| 0 <= k < i ==> front[k] == now[k] && now[k] == all[k]);
            assert(now[i as int] == all[i as int]);
            match max {
                Some(n) => {
                    if before is Some && before->0 == n {
                        let k = choose|k: int|
                            0 <= k < front.len() && manifest_number(#[trigger] front[k]) == Some(
                                n as nat,
                            );
                        assert(manifest_number(now[k]) == Some(n as nat));
                    } else {
                        assert(manifest_number(now[i as int]) == Some(n as nat));
                    }
                    assert forall|k: int| 0 <= k < now.len() implies (manifest_number(
                        #[trigger] now[k],
                    ) matches Some(m) ==> m <= n) by {
                        if k < i {
                            assert(front[k] == now[k]);
                        }
                    }
                },
                None => {
                    assert forall|k: int| 0 <= k < i + 1 implies manifest_number(
                        #[trigger] all[k],
                    ) is None by {
                    }
                },
            }
        }
    }
    assert(all.take(all.len() as int) == all);
    max
}

/// The name of the file that holds the snapshot `number`.
pub open spec fn manifest_name(number: nat) -> Seq<char> {
    zero_padded(decimal(number), 3) + ".json"@
}

/// The number of a snapshot is found again in the name of its file.
pub proof fn lemma_manifest_name_reads_back(number: nat)
    requires
        number <= u32::MAX,
    ensures
        manifest_number(manifest_name(number)) == Some(number),
{
    let stem = zero_padded(decimal(number), 3);
    let name = manifest_name(number);
    reveal_strlit(".json");
    assert(name.skip(stem.len() as int) == ".json"@);
    assert(name.take(stem.len() as int) == stem);
    lemma_decimal_reads_back(number);
    assert(crate::text::all_digits(stem)) by {
        assert forall|i: int| 0 <= i < stem.len() implies crate::text::is_digit(
            #[trigger] stem[i],
        ) by {
            let gap = stem.len() - decimal(number).len();
            if i >= gap {
                assert(stem[i] == decimal(number)[i - gap]);
            }
        }
    }
    if decimal(number).len() < 3 {
        reveal_with_fuel(crate::text::power_of_ten, 4);
        crate::text::lemma_short_decimal(number, 3);
        lemma_padded_reads_back(number, 3);
    }
    assert(stem[0] != '+') by {
        assert(crate::text::is_digit(stem[0]));
    }
}

/// Where the snapshots 0 to `last` are the ones in a directory, the latest one
/// is `last`.
pub proof fn lemma_latest_of_all(last: nat, n: nat, names: Seq<Seq<char>>)
    requires
        last <= u32::MAX,
        names.contains(manifest_name(last)),
        forall|i: int|
            0 <= i < names.len() ==> exists|k: nat|
                k <= last && #[trigger] names[i] == #[trigger] manifest_name(k),
    ensures
        is_latest(n, names) <==> n == last,
{
    assert forall|i: int| 0 <= i < names.len() implies (manifest_number(
        #[trigger] names[i],
    ) matches Some(m) && m <= last) by {
        let k = choose|k: nat| k <= last && names[i] == #[trigger] manifest_name(k);
        lemma_manifest_name_reads_back(k);
    }
    lemma_manifest_name_reads_back(last);
    let i = names.index_of(manifest_name(last));
    assert(manifest_number(names[i]) == Some(last));
}

/// Why a snapshot could not be taken on top of another.
#[derive(Debug)]
pub enum IncrementalError<E> {
    /// There is no snapshot yet.
    NoBaseline,
    /// Taking the snapshot failed.
    Failed(E),
}

impl<E> IncrementalError<E> {
    /// What the error says, where it is not that of taking the snapshot.
    pub fn message(&self) -> (r: Option<&'static str>)
        ensures
            match *self {
                IncrementalError::NoBaseline => r matches Some(m) && m@
                    == "No previous snapshot. Call create_baseline() first."@,
                IncrementalError::Failed(_) => r is None,
            },
    {
        match self {
            IncrementalError::NoBaseline => Some(
                "No previous snapshot. Call create_baseline() first.",
            ),
            IncrementalError::Failed(_) => None,
        }
    }
}

/// The bookkeeping of a session's snapshots. Files are read and written
/// elsewhere; what came of that is handed in.
pub struct SnapshotManager {
    /// The latest snapshot.
    pub latest_manifest: Option<SnapshotManifest>,
    /// How many snapshots there were when the session was taken up.
    pub resumed_count: u32,
}

/// The view of a snapshot that may be missing.
pub open spec fn opt_manifest(m: Option<SnapshotManifest>) -> Option<ManifestView> {
    match m {
        Some(manifest) => Some(manifest@),
        None => None,
    }
}

/// How many snapshots a session has whose latest one has the number `latest`.
pub open spec fn count_up_to(latest: Option<u32>) -> int {
    match latest {
        Some(number) => if number < u32::MAX {
            number + 1
        } else {
            number as int
        },
        None => 0,
    }
}

/// The greater one of two counts.
pub open spec fn greater(a: int, b: int) -> int {
    if a >= b {
        a
    } else {
        b
    }
}

impl SnapshotManager {
    /// The bookkeeping of a session whose latest snapshot is `latest`; a new
    /// session has none.
    pub fn new(latest: Option<SnapshotManifest>) -> (r: SnapshotManager)
        ensures
            r.latest_manifest == latest,
            r.resumed_count == count_up_to(
                match latest {
                    Some(manifest) => Some(manifest.number),
                    None => None,
                },
            ),
    {
        let resumed_count: u32 = match &latest {
            Some(manifest) => manifest.number.saturating_add(1),
            None => 0,
        };
        SnapshotManager { latest_manifest: latest, resumed_count }
    }

    /// Notes what came of taking a baseline: it is the latest snapshot then.
    pub fn create_baseline<E>(&mut self, outcome: Result<SnapshotManifest, E>) -> (r: Result<
        SnapshotManifest,
        E,
    >)
        ensures
            final(self).resumed_count == old(self).resumed_count,
            match outcome {
                Ok(manifest) => {
                    &&& r matches Ok(m) && m@ == manifest@
                    &&& opt_manifest(final(self).latest_manifest) == Some(manifest@)
                },
                Err(e) => {
                    &&& r == Err::<SnapshotManifest, E>(e)
                    &&& *final(self) == *old(self)
                },
            },
    {
        match outcome {
            Ok(manifest) => {
                self.latest_manifest = Some(manifest.copy());
                Ok(manifest)
            },
            Err(e) => Err(e),
        }
    }

    /// The snapshot that the next one is taken on top of.
    pub fn previous<E>(&self) -> (r: Result<&SnapshotManifest, IncrementalError<E>>)
        ensures
            match self.latest_manifest {
                Some(manifest) => r == Ok::<&SnapshotManifest, IncrementalError<E>>(&manifest),
                None => r == Err::<&SnapshotManifest, IncrementalError<E>>(
                    IncrementalError::NoBaseline,
                ),
            },
    {
        match &self.latest_manifest {
            Some(manifest) => Ok(manifest),
            None => Err(IncrementalError::NoBaseline),
        }
    }

    /// Notes what came of taking a snapshot on top of the latest one: it is the
    /// latest one then. Without a latest one there is nothing to note.
    pub fn create_incremental<E>(
        &mut self,
        outcome: Result<(SnapshotManifest, Vec<Change>), E>,
    ) -> (r: Result<(SnapshotManifest, Vec<Change>), IncrementalError<E>>)
        ensures
            final(self).resumed_count == old(self).resumed_count,
            if old(self).latest_manifest is None {
                &&& r == Err::<(SnapshotManifest, Vec<Change>), IncrementalError<E>>(
                    IncrementalError::NoBaseline,
                )
                &&& *final(self) == *old(self)
            } else {
                match outcome {
                    Ok(pair) => {
                        &&& r matches Ok(p) && p.0@ == pair.0@ && p.1 == pair.1
                        &&& opt_manifest(final(self).latest_manifest) == Some(pair.0@)
                    },
                    Err(e) => {
                        &&& r == Err::<(SnapshotManifest, Vec<Change>), IncrementalError<E>>(
                            IncrementalError::Failed(e),
                        )
                        &&& *final(self) == *old(self)
                    },
                }
            },
    {
        if self.latest_manifest.is_none() {
            return Err(IncrementalError::NoBaseline);
        }
        match outcome {
            Ok((manifest, changes)) => {
                self.latest_manifest = Some(manifest.copy());
                Ok((manifest, changes))
            },
            Err(e) => Err(IncrementalError::Failed(e)),
        }
    }

    /// How many snapshots the session has. `inner_count` is the count of whoever
    /// takes them, which starts at 0 also where the session is taken up again.
    pub fn snapshot_count(&self, inner_count: u32) -> (r: u32)
        ensures
            r == greater(inner_count as int, self.resumed_count as int),
    {
        if inner_count >= self.resumed_count {
            inner_count
        } else {
            self.resumed_count
        }
    }

    /// A short text for the bookkeeping, with the count of whoever takes the
    /// snapshots.
    pub fn __repr__(&self, inner_count: u32) -> (r: String)
        ensures
            r@ == "SnapshotManager(snapshots="@ + decimal(inner_count as nat) + ")"@,
    {
        String::from_str("SnapshotManager(snapshots=").concat(
            write_decimal(inner_count as u64).as_str(),
        ).concat(")")
    }
}

/// A session that is taken up again knows how many snapshots it has before it
/// takes another one, and the count goes on from there with the next one.
pub proof fn lemma_resumed_count(last: u32, manager: SnapshotManager)
    requires
        last + 2 <= u32::MAX,
        manager.latest_manifest matches Some(m) && m.number == last,
        manager.resumed_count == count_up_to(Some(last)),
    ensures
        greater(0, manager.resumed_count as int) == last + 1,
        greater(count_up_to(Some((last + 1) as u32)), manager.resumed_count as int) == last + 2,
{
}

} // verus!
