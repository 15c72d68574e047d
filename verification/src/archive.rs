//! The archive of a backup: which entries it gets, under which names, and
//! the writing of them.

use vstd::prelude::*;
use vstd::string::StringExecFns;
use vstd::string::StringSliceAdditionalSpecFns;
use vstd::utf8::encode_utf8;

use crate::laws::lemma_survivors_are_the_unshadowed;
use crate::options::{archive_path_of, texts, BackUpOptions};
use crate::text::chars_of;
use crate::writer::{
    archive_entries, archive_image, finish_archive, holds_name, open_archive, start_stored_entry,
    write_entry, MAX_ENTRY_BYTES,
};

verus! {

/// Why a backup run failed.
///
/// The first two kinds end a run only where the caller asks for a strict
/// one: otherwise a directory that cannot be read is passed over, and a file
/// whose size cannot be had counts with no bytes.
#[derive(Debug, Clone, Copy, PartialEq, Eq, Structural)]
pub enum ArchiveError {
    /// The directory of a selected folder could not be read.
    FolderUnreadable,
    /// The size of a file could not be had.
    MetadataUnavailable,
    /// The metadata file or the archive could not be created at the destination.
    DestinationUnwritable,
    /// An entry could not be written into the archive.
    ArchiveWriteFailure,
    /// The archive could not be closed: it was assembled, and could not be
    /// written out in full.
    ArchiveFinalizeFailure,
}

/// The steps of a backup run that touch the disk, in the order in which a
/// run takes them.
#[derive(Debug, Clone, Copy, PartialEq, Eq, Structural)]
pub enum RunStep {
    /// Reading the directory of a selected folder.
    ListFolder,
    /// Asking for the size of a file.
    MeasureFile,
    /// Writing the metadata file.
    WriteMetadata,
    /// Creating the archive file.
    CreateArchive,
    /// Reading a file that the backup takes.
    ReadFile,
    /// Reading the metadata file back for its entry.
    ReadMetadata,
    /// Removing the metadata file, once the archive holds it.
    RemoveMetadata,
    /// Writing the archive out and closing it.
    CloseArchive,
}

impl RunStep {
    /// What the failure of a step means for the run: `None` where the run
    /// goes on, and the error that ends it where it does not.
    ///
    /// What concerns one folder or one file is passed over unless the run is
    /// strict. What concerns the destination or the archive ends the run.
    pub open spec fn failure(self, strict: bool) -> Option<ArchiveError> {
        match self {
            RunStep::ListFolder => if strict {
                Some(ArchiveError::FolderUnreadable)
            } else {
                None
            },
            RunStep::MeasureFile => if strict {
                Some(ArchiveError::MetadataUnavailable)
            } else {
                None
            },
            RunStep::WriteMetadata | RunStep::CreateArchive => Some(
                ArchiveError::DestinationUnwritable,
            ),
            RunStep::ReadFile | RunStep::ReadMetadata | RunStep::RemoveMetadata => Some(
                ArchiveError::ArchiveWriteFailure,
            ),
            RunStep::CloseArchive => Some(ArchiveError::ArchiveFinalizeFailure),
        }
    }

    /// What the failure of this step means for the run.
    pub fn failure_at(self, strict: bool) -> (r: Option<ArchiveError>)
        ensures
            r == self.failure(strict),
    {
        match self {
            RunStep::ListFolder => if strict {
                Some(ArchiveError::FolderUnreadable)
            } else {
                None
            },
            RunStep::MeasureFile => if strict {
                Some(ArchiveError::MetadataUnavailable)
            } else {
                None
            },
            RunStep::WriteMetadata | RunStep::CreateArchive => Some(
                ArchiveError::DestinationUnwritable,
            ),
            RunStep::ReadFile | RunStep::ReadMetadata | RunStep::RemoveMetadata => Some(
                ArchiveError::ArchiveWriteFailure,
            ),
            RunStep::CloseArchive => Some(ArchiveError::ArchiveFinalizeFailure),
        }
    }
}

/// A file that the backup takes: its path, and what it holds.
#[derive(Clone, Debug)]
pub struct SourceFile {
    pub path: String,
    pub contents: Vec<u8>,
}

/// A finished archive.
#[derive(Clone, Debug)]
pub struct ArchiveSummary {
    /// Where the archive belongs on disk.
    pub archive_path: String,
    /// The names of its entries, in the order in which they were written.
    pub entry_names: Vec<String>,
    /// The bytes of the archive.
    pub contents: Vec<u8>,
}

/// The assembly of archives.
pub struct BackupManager;

/// The longest entry name in bytes that an archive can hold.
pub const MAX_NAME_BYTES: usize = 0xFFFF;

/// The name of the entry that holds the metadata record.
pub open spec fn metadata_entry_name() -> Seq<char> {
    "backup_data.json"@
}

/// Whether `path` lies under the directory `base`: it begins with `base`, and
/// a separator stands between the two parts.
pub open spec fn is_under(base: Seq<char>, path: Seq<char>) -> bool {
    &&& base.is_prefix_of(path)
    &&& path.len() > base.len()
    &&& (path[base.len() as int] == '/' || (base.len() > 0 && base.last() == '/'))
}

/// The number of separators that `s` begins with.
pub open spec fn leading_slashes(s: Seq<char>) -> nat
    decreases s.len(),
{
    if s.len() > 0 && s[0] == '/' {
        1 + leading_slashes(s.skip(1))
    } else {
        0
    }
}

/// The name of a file's entry: the path without the base directory and the
/// separators that follow it, or the whole path where the file is not under
/// the base directory.
pub open spec fn entry_name_of(base: Seq<char>, path: Seq<char>) -> Seq<char> {
    if is_under(base, path) {
        let rest = path.skip(base.len() as int);
        rest.skip(leading_slashes(rest) as int)
    } else {
        path
    }
}

/// The files as pairs of path and contents.
pub open spec fn files_view(files: Seq<SourceFile>) -> Seq<(Seq<char>, Seq<u8>)> {
    Seq::new(files.len(), |i: int| (files[i].path@, files[i].contents@))
}

/// The metadata as a sequence of bytes.
pub open spec fn metadata_view(metadata: Option<&Vec<u8>>) -> Option<Seq<u8>> {
    match metadata {
        Some(bytes) => Some(bytes@),
        None => None,
    }
}

/// The entries as asked for, each a pair of name and contents: one for each
/// file, in order, and after them the metadata record where there is one.
pub open spec fn requested_entries(
    base: Seq<char>,
    files: Seq<(Seq<char>, Seq<u8>)>,
    metadata: Option<Seq<u8>>,
) -> Seq<(Seq<char>, Seq<u8>)> {
    Seq::new(files.len(), |i: int| (entry_name_of(base, files[i].0), files[i].1)) + match metadata {
        Some(bytes) => seq![(metadata_entry_name(), bytes)],
        None => Seq::empty(),
    }
}

/// Whether a later entry has the name of the entry at `i`.
pub open spec fn shadowed(entries: Seq<(Seq<char>, Seq<u8>)>, i: int) -> bool {
    exists|j: int| i < j < entries.len() && #[trigger] entries[j].0 == entries[i].0
}

/// Those of the first `n` entries that no later entry shadows, in order.
pub open spec fn survivors(entries: Seq<(Seq<char>, Seq<u8>)>, n: nat) -> Seq<(Seq<char>, Seq<u8>)>
    decreases n,
{
    if n == 0 || n > entries.len() {
        Seq::empty()
    } else if shadowed(entries, n - 1) {
        survivors(entries, (n - 1) as nat)
    } else {
        survivors(entries, (n - 1) as nat).push(entries[n - 1])
    }
}

/// The entries that the archive gets: of the requested entries with one name
/// the last one only.
pub open spec fn planned_entries(
    base: Seq<char>,
    files: Seq<(Seq<char>, Seq<u8>)>,
    metadata: Option<Seq<u8>>,
) -> Seq<(Seq<char>, Seq<u8>)> {
    let requested = requested_entries(base, files, metadata);
    survivors(requested, requested.len())
}

/// The names of entries.
pub open spec fn names_of(entries: Seq<(Seq<char>, Seq<u8>)>) -> Seq<Seq<char>> {
    Seq::new(entries.len(), |i: int| entries[i].0)
}

/// Whether every entry holds no more than an archive can take.
pub open spec fn contents_fit(entries: Seq<(Seq<char>, Seq<u8>)>) -> bool {
    forall|i: int| 0 <= i < entries.len() ==> (#[trigger] entries[i]).1.len() <= MAX_ENTRY_BYTES
}

/// Whether an archive can take the entries: every name and all that every
/// entry holds fit into it.
pub open spec fn entries_fit(entries: Seq<(Seq<char>, Seq<u8>)>) -> bool {
    names_fit(entries) && contents_fit(entries)
}

/// Whether every name fits into an archive.
pub open spec fn names_fit(entries: Seq<(Seq<char>, Seq<u8>)>) -> bool {
    forall|i: int| 0 <= i < entries.len() ==> encode_utf8(#[trigger] entries[i].0).len() <= MAX_NAME_BYTES
}

/// The name of a file's entry in the archive.
fn relative_name(base: &str, path: &str) -> (name: String)
    ensures
        name@ == entry_name_of(base@, path@),
{
    let b = chars_of(base);
    let p = chars_of(path);
    let mut name = String::new();
    if p.len() <= b.len() {
        name.append(path);
        return name;
    }
    let mut i: usize = 0;
    while i < b.len() && b[i] == p[i]
        invariant
            i <= b.len() < p.len(),
            forall|j: int| 0 <= j < i ==> b@[j] == p@[j],
        decreases b.len() - i,
    {
        i += 1;
    }
    let under = i == b.len() && (p[i] == '/' || (i > 0 && b[i - 1] == '/'));
    proof {
        if i == b.len() {
            assert(b@ =~= p@.subrange(0, b.len() as int));
        } else {
            assert(p@.subrange(0, b.len() as int)[i as int] == p@[i as int]);
        }
    }
    assert(under == is_under(base@, path@));
    if !under {
        name.append(path);
        return name;
    }
    let ghost rest = p@.skip(b.len() as int);
    let mut k: usize = b.len();
    assert(rest.skip(0) == rest);
    while k < p.len() && p[k] == '/'
        invariant
            b.len() <= k <= p.len(),
            rest == p@.skip(b.len() as int),
            leading_slashes(rest) == (k - b.len()) + leading_slashes(rest.skip(k - b.len())),
        decreases p.len() - k,
    {
        assert(rest.skip(k - b.len()).skip(1) == rest.skip(k + 1 - b.len()));
        k += 1;
    }
    assert(leading_slashes(rest) == k - b.len());
    let ghost start = k;
    while k < p.len()
        invariant
            start <= k <= p.len(),
            name@ == p@.subrange(start as int, k as int),
        decreases p.len() - k,
    {
        name.push(p[k]);
        k += 1;
        assert(p@.subrange(start as int, k as int) == p@.subrange(start as int, k - 1).push(
            p@[k - 1],
        ));
    }
    assert(name@ =~= rest.skip(leading_slashes(rest) as int));
    name
}

/// The names of the requested entries: one for each file, and the name of
/// the metadata entry where there is a record.
fn requested_names(base: &str, files: &Vec<SourceFile>, metadata: Option<&Vec<u8>>) -> (names: Vec<
    String,
>)
    ensures
        texts(names@) == names_of(
            requested_entries(base@, files_view(files@), metadata_view(metadata)),
        ),
{
    let ghost requested = requested_entries(base@, files_view(files@), metadata_view(metadata));
    let mut names: Vec<String> = Vec::new();
    let mut i: usize = 0;
    while i < files.len()
        invariant
            i <= files.len(),
            names.len() == i,
            forall|j: int| 0 <= j < i ==> names@[j]@ == entry_name_of(base@, files@[j].path@),
        decreases files.len() - i,
    {
        names.push(relative_name(base, files[i].path.as_str()));
        i += 1;
    }
    if metadata.is_some() {
        let mut name = String::new();
        name.append("backup_data.json");
        names.push(name);
    }
    assert(texts(names@) =~= names_of(requested));
    names
}

/// Whether one of the names after position `i` equals the name at `i`.
fn has_later_twin(names: &Vec<String>, i: usize) -> (found: bool)
    requires
        i < names.len(),
    ensures
        found == exists|j: int| i < j < names.len() && #[trigger] names@[j]@ == names@[i as int]@,
{
    let mut j: usize = i + 1;
    while j < names.len()
        invariant
            i < j <= names.len(),
            forall|k: int| i < k < j ==> names@[k]@ != names@[i as int]@,
        decreases names.len() - j,
    {
        if names[j] == names[i] {
            return true;
        }
        j += 1;
    }
    false
}

impl BackupManager {
    /// The name of a file's entry in the archive: its path without the base
    /// directory and the separators that follow it. A file that is not under
    /// the base directory keeps its whole path as its name.
    pub fn entry_name(base: &str, path: &str) -> (name: String)
        ensures
            name@ == entry_name_of(base@, path@),
    {
        relative_name(base, path)
    }

    /// The summary of a run whose archive was closed: `image` holds the bytes
    /// of the archive, or `None` where closing it failed.
    pub fn conclude(options: &BackUpOptions, entry_names: Vec<String>, image: Option<Vec<u8>>) -> (r:
        Result<ArchiveSummary, ArchiveError>)
        ensures
            image is None ==> r == Err::<ArchiveSummary, ArchiveError>(
                ArchiveError::ArchiveFinalizeFailure,
            ),
            image matches Some(bytes) ==> {
                &&& r matches Ok(summary)
                &&& summary.archive_path@ == archive_path_of(
                    options.destination_path@,
                    options.compress,
                )
                &&& summary.entry_names == entry_names
                &&& summary.contents == bytes
            },
    {
        match image {
            Some(contents) => Ok(
                ArchiveSummary { archive_path: options.archive_path(), entry_names, contents },
            ),
            None => Err(ArchiveError::ArchiveFinalizeFailure),
        }
    }

    /// Builds the archive of a backup in memory.
    ///
    /// `files` are the files to take, each with what it holds, and `metadata`
    /// is what the metadata file holds, where there is one. Each file gets an
    /// entry named by its path relative to the base directory of the options,
    /// in the order given; the metadata record gets the last entry. Where
    /// several entries would have one name, only the last of them is written.
    /// Entries are stored as they are, whether or not compression was asked
    /// for: the option decides the archive's file name alone.
    ///
    /// The run succeeds where every entry that is written has a name of at
    /// most [`MAX_NAME_BYTES`] bytes and holds at most [`MAX_ENTRY_BYTES`]
    /// bytes, and ends with `ArchiveWriteFailure` where one has not.
    pub fn zip_backup(options: &BackUpOptions, files: &Vec<SourceFile>, metadata: Option<&Vec<u8>>) -> (r:
        Result<ArchiveSummary, ArchiveError>)
        ensures
            r is Ok <==> entries_fit(
                planned_entries(
                    options.default_minecraft_path@,
                    files_view(files@),
                    metadata_view(metadata),
                ),
            ),
            r matches Ok(summary) ==> {
                let planned = planned_entries(
                    options.default_minecraft_path@,
                    files_view(files@),
                    metadata_view(metadata),
                );
                &&& summary.archive_path@ == archive_path_of(
                    options.destination_path@,
                    options.compress,
                )
                &&& texts(summary.entry_names@) == names_of(planned)
                &&& summary.contents@ == archive_image(planned)
            },
            r matches Err(e) ==> e == ArchiveError::ArchiveWriteFailure,
    {
        let ghost requested = requested_entries(
            options.default_minecraft_path@,
            files_view(files@),
            metadata_view(metadata),
        );
        let names = requested_names(options.default_minecraft_path.as_str(), files, metadata);
        assert(names.len() == requested.len()) by {
            assert(texts(names@).len() == names_of(requested).len());
        }
        let mut writer = open_archive();
        let mut written: Vec<String> = Vec::new();
        let mut i: usize = 0;
        assert(texts(written@) =~= names_of(survivors(requested, 0)));
        while i < names.len()
            invariant
                i <= names.len(),
                names.len() == requested.len(),
                requested == requested_entries(
                    options.default_minecraft_path@,
                    files_view(files@),
                    metadata_view(metadata),
                ),
                texts(names@) == names_of(requested),
                archive_entries(writer) == survivors(requested, i as nat),
                texts(written@) == names_of(survivors(requested, i as nat)),
                entries_fit(survivors(requested, i as nat)),
            decreases names.len() - i,
        {
            let twin = has_later_twin(&names, i);
            proof {
                assert forall|j: int| 0 <= j < names.len() implies names@[j]@ == requested[j].0 by {
                    assert(texts(names@)[j] == names_of(requested)[j]);
                }
                if twin {
                    let j = choose|j: int|
                        i < j < names.len() && #[trigger] names@[j]@ == names@[i as int]@;
                    assert(requested[j].0 == requested[i as int].0);
                }
                assert(twin == shadowed(requested, i as int));
            }
            if !twin {
                let name = &names[i];
                proof {
                    lemma_unshadowed_is_planned(requested, i as int);
                    lemma_name_is_new(requested, i as int);
                }
                if name.as_str().as_bytes().len() > MAX_NAME_BYTES {
                    return Err(ArchiveError::ArchiveWriteFailure);
                }
                let data: &Vec<u8> = if i < files.len() {
                    &files[i].contents
                } else {
                    metadata.unwrap()
                };
                assert(data@ == requested[i as int].1);
                writer =
                match start_stored_entry(writer, name.as_str()) {
                    Ok(next) => next,
                    Err(_) => {
                        return Err(ArchiveError::ArchiveWriteFailure);
                    },
                };
                writer =
                match write_entry(writer, data) {
                    Ok(next) => next,
                    Err(_) => {
                        return Err(ArchiveError::ArchiveWriteFailure);
                    },
                };
                let ghost before = texts(written@);
                written.push(name.clone());
                proof {
                    let kept = survivors(requested, i as nat);
                    assert(Seq::<u8>::empty() + data@ =~= data@);
                    assert(kept.push((name@, Seq::<u8>::empty())).drop_last() =~= kept);
                    assert(texts(written@) =~= before.push(name@));
                    assert(names_of(kept.push(requested[i as int])) =~= names_of(kept).push(
                        name@,
                    ));
                }
            }
            i += 1;
        }
        let image = match finish_archive(writer) {
            Ok(bytes) => Some(bytes),
            Err(_) => None,
        };
        Self::conclude(options, written, image)
    }
}

/// An entry that no later entry shadows is written: it stands among the
/// planned entries, after those that were written before it.
pub proof fn lemma_unshadowed_is_planned(entries: Seq<(Seq<char>, Seq<u8>)>, i: int)
    requires
        0 <= i < entries.len(),
        !shadowed(entries, i),
    ensures
        survivors(entries, i as nat).len() < survivors(entries, entries.len()).len(),
        survivors(entries, entries.len())[survivors(entries, i as nat).len() as int] == entries[i],
{
    lemma_survivors_stay(entries, (i + 1) as nat, entries.len());
    let all = survivors(entries, entries.len());
    let at = survivors(entries, i as nat).len() as int;
    let next = survivors(entries, (i + 1) as nat);
    assert(next == survivors(entries, i as nat).push(entries[i]));
    assert(next[at] == entries[i]);
    assert(all.subrange(0, next.len() as int)[at] == all[at]);
}

/// None of the entries that were written before the entry at `i` has its name.
pub proof fn lemma_name_is_new(entries: Seq<(Seq<char>, Seq<u8>)>, i: int)
    requires
        0 <= i < entries.len(),
    ensures
        !holds_name(survivors(entries, i as nat), entries[i].0),
{
    let kept = survivors(entries, i as nat);
    if holds_name(kept, entries[i].0) {
        let k = choose|k: int| 0 <= k < kept.len() && (#[trigger] kept[k]).0 == entries[i].0;
        assert(kept.contains(kept[k]));
        lemma_survivors_are_the_unshadowed(entries, i as nat, kept[k]);
        let j = choose|j: int|
            0 <= j < i && !shadowed(entries, j) && #[trigger] entries[j] == kept[k];
        assert(entries[i].0 == entries[j].0);
        assert(shadowed(entries, j));
    }
}

/// What survives among the first `m` entries stays, in its place, among the
/// survivors of the first `n`.
pub proof fn lemma_survivors_stay(entries: Seq<(Seq<char>, Seq<u8>)>, m: nat, n: nat)
    requires
        m <= n <= entries.len(),
    ensures
        survivors(entries, m).is_prefix_of(survivors(entries, n)),
    decreases n,
{
    if m < n {
        lemma_survivors_stay(entries, m, (n - 1) as nat);
    }
}

} // verus!
