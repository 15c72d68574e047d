//! The options of a backup run, and what follows from them alone: the
//! directories to read, the files to take, and their total size.

use vstd::prelude::*;
use vstd::string::StringExecFns;

use crate::archive::ArchiveError;
use crate::folders::Folders;
use crate::text::chars_of;

verus! {

/// What the caller chose for a backup run.
///
/// Excluded extensions are written without a leading dot and compared exactly,
/// case included. An extension never holds a dot, so an excluded entry that
/// holds one matches no file.
#[derive(Clone, Debug)]
pub struct BackUpOptions {
    pub default_minecraft_path: String,
    pub folder_options: Vec<Folders>,
    pub destination_path: String,
    pub compress: bool,
    pub excluded_extensions: Vec<String>,
}

/// One entry of a directory, as the caller found it there.
#[derive(Clone, Debug)]
pub struct FolderEntry {
    /// The entry's name within its directory.
    pub name: String,
    /// Whether the entry is a regular file.
    pub is_file: bool,
}

/// A directory entry as the contracts see it.
pub struct EntryView {
    pub name: Seq<char>,
    pub is_file: bool,
}

impl View for FolderEntry {
    type V = EntryView;

    open spec fn view(&self) -> EntryView {
        EntryView { name: self.name@, is_file: self.is_file }
    }
}

/// The entries of a listing as the contracts see them.
pub open spec fn entries_view(entries: Seq<FolderEntry>) -> Seq<EntryView> {
    Seq::new(entries.len(), |i: int| entries[i]@)
}

/// The listings of all selected folders as the contracts see them: `None`
/// stands for a directory that could not be read.
pub open spec fn listings_view(listings: Seq<Option<Vec<FolderEntry>>>) -> Seq<Option<Seq<EntryView>>> {
    Seq::new(
        listings.len(),
        |i: int|
            match listings[i] {
                Some(entries) => Some(entries_view(entries@)),
                None => None,
            },
    )
}

/// The strings of a vector as sequences of characters.
pub open spec fn texts(v: Seq<String>) -> Seq<Seq<char>> {
    Seq::new(v.len(), |i: int| v[i]@)
}

/// The directory that a folder stands for under `base`.
pub open spec fn folder_path(base: Seq<char>, folder: Folders) -> Seq<char> {
    base + seq!['/'] + folder.dir_name()
}

/// The directories of the selected folders, one for each selection, in order.
pub open spec fn folder_paths(base: Seq<char>, folders: Seq<Folders>) -> Seq<Seq<char>> {
    Seq::new(folders.len(), |i: int| folder_path(base, folders[i]))
}

/// Where the archive of a run belongs: its name tells whether compression
/// was asked for.
pub open spec fn archive_path_of(destination: Seq<char>, compress: bool) -> Seq<char> {
    if compress {
        destination + "/backup.zip"@
    } else {
        destination + "/backup"@
    }
}

/// Where the metadata file of a run belongs until it is part of the archive.
pub open spec fn metadata_path_of(destination: Seq<char>) -> Seq<char> {
    destination + "/backup_data.json"@
}

/// The position of the last dot of a name, if it has one.
pub open spec fn last_dot(name: Seq<char>) -> Option<int>
    decreases name.len(),
{
    if name.len() == 0 {
        None
    } else if name.last() == '.' {
        Some(name.len() - 1)
    } else {
        last_dot(name.drop_last())
    }
}

/// The extension of a file name: what follows its last dot, and nothing
/// where the name has no dot.
pub open spec fn extension_of(name: Seq<char>) -> Seq<char> {
    match last_dot(name) {
        Some(i) => name.skip(i + 1),
        None => Seq::empty(),
    }
}

/// Whether an entry is taken into the backup: it is a regular file, and its
/// extension is not excluded.
pub open spec fn eligible(entry: EntryView, excluded: Seq<Seq<char>>) -> bool {
    entry.is_file && !excluded.contains(extension_of(entry.name))
}

/// The path of the entry `name` of the directory `folder`.
pub open spec fn file_path(folder: Seq<char>, name: Seq<char>) -> Seq<char> {
    folder + seq!['/'] + name
}

/// The paths of the eligible ones among the first `n` entries of a directory,
/// in the order of the listing.
pub open spec fn folder_files(
    folder: Seq<char>,
    entries: Seq<EntryView>,
    excluded: Seq<Seq<char>>,
    n: nat,
) -> Seq<Seq<char>>
    decreases n,
{
    if n == 0 || n > entries.len() {
        Seq::empty()
    } else {
        let before = folder_files(folder, entries, excluded, (n - 1) as nat);
        if eligible(entries[n - 1], excluded) {
            before.push(file_path(folder, entries[n - 1].name))
        } else {
            before
        }
    }
}

/// What the listing of the directory at position `i` adds to the files: its
/// eligible entries, or nothing where no listing stands for it.
pub open spec fn listed_files(
    paths: Seq<Seq<char>>,
    listings: Seq<Option<Seq<EntryView>>>,
    excluded: Seq<Seq<char>>,
    i: int,
) -> Seq<Seq<char>> {
    if 0 <= i < paths.len() && i < listings.len() && listings[i] is Some {
        folder_files(paths[i], listings[i]->0, excluded, listings[i]->0.len())
    } else {
        Seq::empty()
    }
}

/// The files of the first `n` directories: folder by folder in the order of
/// `paths`, and within a folder in the order of its listing.
pub open spec fn enumerated_files(
    paths: Seq<Seq<char>>,
    listings: Seq<Option<Seq<EntryView>>>,
    excluded: Seq<Seq<char>>,
    n: nat,
) -> Seq<Seq<char>>
    decreases n,
{
    if n == 0 || n > paths.len() {
        Seq::empty()
    } else {
        enumerated_files(paths, listings, excluded, (n - 1) as nat) + listed_files(
            paths,
            listings,
            excluded,
            n - 1,
        )
    }
}

/// Whether each of the first `n` directories has a listing.
pub open spec fn all_listed(listings: Seq<Option<Seq<EntryView>>>, n: nat) -> bool {
    forall|i: int| 0 <= i < n ==> i < listings.len() && (#[trigger] listings[i]) is Some
}

/// Whether every size is known.
pub open spec fn all_sized(sizes: Seq<Option<u64>>) -> bool {
    forall|i: int| 0 <= i < sizes.len() ==> (#[trigger] sizes[i]) is Some
}

/// The sum of the sizes that are known among the first `n`.
pub open spec fn total_size(sizes: Seq<Option<u64>>, n: nat) -> nat
    decreases n,
{
    if n == 0 || n > sizes.len() {
        0
    } else {
        total_size(sizes, (n - 1) as nat) + match sizes[n - 1] {
            Some(size) => size as nat,
            None => 0,
        }
    }
}

/// The extension of a file name.
pub fn extension(name: &str) -> (ext: String)
    ensures
        ext@ == extension_of(name@),
{
    let chars = chars_of(name);
    let mut i: usize = chars.len();
    assert(chars@.take(i as int) == chars@);
    while i > 0 && chars[i - 1] != '.'
        invariant
            i <= chars.len(),
            chars@ == name@,
            last_dot(chars@) == last_dot(chars@.take(i as int)),
            forall|j: int| i <= j < chars.len() ==> chars@[j] != '.',
        decreases i,
    {
        assert(chars@.take(i as int).drop_last() == chars@.take(i - 1));
        i -= 1;
    }
    let mut ext = String::new();
    if i == 0 {
        assert(chars@.take(0).len() == 0);
        return ext;
    }
    assert(chars@.take(i as int).last() == '.');
    let mut k: usize = i;
    while k < chars.len()
        invariant
            i <= k <= chars.len(),
            ext@ == chars@.subrange(i as int, k as int),
        decreases chars.len() - k,
    {
        ext.push(chars[k]);
        k += 1;
        assert(chars@.subrange(i as int, k as int) == chars@.subrange(i as int, k - 1).push(
            chars@[k - 1],
        ));
    }
    assert(chars@.subrange(i as int, chars.len() as int) == chars@.skip(i as int));
    ext
}

/// Whether `ext` is one of the excluded extensions.
pub fn is_excluded(excluded: &Vec<String>, ext: &String) -> (found: bool)
    ensures
        found == texts(excluded@).contains(ext@),
{
    let mut i: usize = 0;
    while i < excluded.len()
        invariant
            i <= excluded.len(),
            forall|j: int| 0 <= j < i ==> texts(excluded@)[j] != ext@,
        decreases excluded.len() - i,
    {
        if excluded[i] == *ext {
            assert(texts(excluded@)[i as int] == ext@);
            return true;
        }
        i += 1;
    }
    false
}

/// Appends to `files` the paths of the eligible entries of one directory.
fn push_folder_files(
    files: &mut Vec<String>,
    folder: &String,
    entries: &Vec<FolderEntry>,
    excluded: &Vec<String>,
)
    ensures
        texts(final(files)@) == texts(old(files)@) + folder_files(
            folder@,
            entries_view(entries@),
            texts(excluded@),
            entries.len() as nat,
        ),
{
    let ghost before = texts(files@);
    let ghost listed = entries_view(entries@);
    let mut j: usize = 0;
    assert(texts(files@) =~= before + folder_files(folder@, listed, texts(excluded@), 0));
    while j < entries.len()
        invariant
            j <= entries.len(),
            listed == entries_view(entries@),
            texts(files@) == before + folder_files(folder@, listed, texts(excluded@), j as nat),
        decreases entries.len() - j,
    {
        let entry = &entries[j];
        assert(listed[j as int] == entry@);
        let mut taken = false;
        if entry.is_file {
            let ext = extension(entry.name.as_str());
            taken = !is_excluded(excluded, &ext);
        }
        if taken {
            let mut path = folder.clone();
            path.push('/');
            path.append(entry.name.as_str());
            assert(path@ =~= file_path(folder@, entry.name@));
            let ghost so_far = texts(files@);
            files.push(path);
            assert(texts(files@) =~= so_far.push(file_path(folder@, entry.name@)));
        }
        j += 1;
        assert(texts(files@) =~= before + folder_files(folder@, listed, texts(excluded@), j as nat));
    }
}

impl BackUpOptions {
    /// Options with no excluded extension.
    pub fn new(
        minecraft_path: String,
        folder_options: Vec<Folders>,
        destination_path: String,
        compress: bool,
    ) -> (options: Self)
        ensures
            options.default_minecraft_path == minecraft_path,
            options.folder_options == folder_options,
            options.destination_path == destination_path,
            options.compress == compress,
            options.excluded_extensions@ == Seq::<String>::empty(),
    {
        BackUpOptions {
            default_minecraft_path: minecraft_path,
            folder_options,
            destination_path,
            compress,
            excluded_extensions: Vec::new(),
        }
    }

    /// The excluded extensions as sequences of characters.
    pub open spec fn excluded(&self) -> Seq<Seq<char>> {
        texts(self.excluded_extensions@)
    }

    /// The directories of the selected folders under the base directory.
    pub open spec fn paths(&self) -> Seq<Seq<char>> {
        folder_paths(self.default_minecraft_path@, self.folder_options@)
    }

    /// The directory of each selected folder, in the order of selection. A
    /// folder that was selected twice is given twice. Nothing is read from
    /// disk, so a directory need not exist.
    pub fn get_all_paths(&self) -> (paths: Vec<String>)
        ensures
            texts(paths@) == self.paths(),
            paths.len() == self.folder_options.len(),
            forall|i: int|
                0 <= i < paths.len() ==> (#[trigger] paths@[i])@ == self.default_minecraft_path@
                    + seq!['/'] + self.folder_options@[i].dir_name(),
    {
        let mut paths: Vec<String> = Vec::new();
        let mut i: usize = 0;
        while i < self.folder_options.len()
            invariant
                i <= self.folder_options.len(),
                paths.len() == i,
                forall|j: int|
                    0 <= j < i ==> paths@[j]@ == folder_path(
                        self.default_minecraft_path@,
                        self.folder_options@[j],
                    ),
            decreases self.folder_options.len() - i,
        {
            let mut path = self.default_minecraft_path.clone();
            path.push('/');
            path.append(self.folder_options[i].subdirectory());
            paths.push(path);
            i += 1;
        }
        assert(texts(paths@) =~= self.paths());
        paths
    }

    /// The path of the archive: `backup.zip` in the destination directory
    /// where compression was asked for, and `backup` there where it was not.
    pub fn archive_path(&self) -> (path: String)
        ensures
            path@ == archive_path_of(self.destination_path@, self.compress),
    {
        let mut path = self.destination_path.clone();
        if self.compress {
            path.append("/backup.zip");
        } else {
            path.append("/backup");
        }
        path
    }

    /// The path of the metadata file: `backup_data.json` in the destination directory.
    pub fn metadata_path(&self) -> (path: String)
        ensures
            path@ == metadata_path_of(self.destination_path@),
    {
        let mut path = self.destination_path.clone();
        path.append("/backup_data.json");
        path
    }

    /// Sets whether the archive is named as a compressed one.
    pub fn set_compress(&mut self, compress: bool)
        ensures
            final(self).compress == compress,
            final(self).default_minecraft_path == old(self).default_minecraft_path,
            final(self).folder_options == old(self).folder_options,
            final(self).destination_path == old(self).destination_path,
            final(self).excluded_extensions == old(self).excluded_extensions,
    {
        self.compress = compress;
    }

    /// Excludes one more extension. It is kept as given: write it without a
    /// leading dot.
    pub fn add_excluded_extension(&mut self, extension: String)
        ensures
            final(self).excluded_extensions@ == old(self).excluded_extensions@.push(extension),
            final(self).excluded() == old(self).excluded().push(extension@),
            final(self).compress == old(self).compress,
            final(self).default_minecraft_path == old(self).default_minecraft_path,
            final(self).folder_options == old(self).folder_options,
            final(self).destination_path == old(self).destination_path,
    {
        self.excluded_extensions.push(extension);
        assert(final(self).excluded() =~= old(self).excluded().push(extension@));
    }
    /// The files that the backup takes, given what the caller found in the
    /// directories of the selected folders: `listings[i]` is the listing of
    /// the directory of the selection at position `i`, and `None` where that
    /// directory could not be read.
    ///
    /// A directory without a listing adds nothing and is no error. Of a
    /// listed directory every regular file is taken whose extension is not
    /// excluded, and nothing else; subdirectories are not entered. The files
    /// come folder by folder in the order of selection, and within a folder
    /// in the order of its listing. A listing beyond the last selection is
    /// not read.
    pub fn get_all_files(&self, listings: &Vec<Option<Vec<FolderEntry>>>) -> (files: Vec<String>)
        ensures
            texts(files@) == enumerated_files(
                self.paths(),
                listings_view(listings@),
                self.excluded(),
                self.folder_options.len() as nat,
            ),
    {
        let folders = self.get_all_paths();
        assert(texts(folders@).len() == self.paths().len());
        let ghost listed = listings_view(listings@);
        let mut files: Vec<String> = Vec::new();
        let mut i: usize = 0;
        assert(texts(files@) =~= enumerated_files(self.paths(), listed, self.excluded(), 0));
        while i < folders.len()
            invariant
                i <= folders.len(),
                folders.len() == self.folder_options.len(),
                texts(folders@) == self.paths(),
                listed == listings_view(listings@),
                texts(files@) == enumerated_files(self.paths(), listed, self.excluded(), i as nat),
            decreases folders.len() - i,
        {
            assert(texts(folders@)[i as int] == folders@[i as int]@);
            if i < listings.len() {
                match &listings[i] {
                    Some(entries) => {
                        push_folder_files(&mut files, &folders[i], entries, &self.excluded_extensions);
                    },
                    None => {},
                }
            }
            i += 1;
            assert(texts(files@) =~= enumerated_files(self.paths(), listed, self.excluded(), i as nat));
        }
        files
    }

    /// The files that the backup takes, where every selected folder must be
    /// readable: as [`BackUpOptions::get_all_files`], but a selected folder
    /// without a listing ends the run.
    pub fn get_all_files_strict(&self, listings: &Vec<Option<Vec<FolderEntry>>>) -> (r: Result<
        Vec<String>,
        ArchiveError,
    >)
        ensures
            all_listed(listings_view(listings@), self.folder_options.len() as nat) ==> {
                &&& r matches Ok(files)
                &&& texts(files@) == enumerated_files(
                    self.paths(),
                    listings_view(listings@),
                    self.excluded(),
                    self.folder_options.len() as nat,
                )
            },
            !all_listed(listings_view(listings@), self.folder_options.len() as nat) ==> r == Err::<
                Vec<String>,
                ArchiveError,
            >(ArchiveError::FolderUnreadable),
    {
        let ghost listed = listings_view(listings@);
        let mut i: usize = 0;
        while i < self.folder_options.len()
            invariant
                i <= self.folder_options.len(),
                listed == listings_view(listings@),
                all_listed(listed, i as nat),
            decreases self.folder_options.len() - i,
        {
            if i >= listings.len() || listings[i].is_none() {
                assert(!(i < listed.len() && listed[i as int] is Some));
                return Err(ArchiveError::FolderUnreadable);
            }
            assert(listed[i as int] is Some);
            i += 1;
        }
        Ok(self.get_all_files(listings))
    }

    /// Whether the total of the sizes can be held: whether
    /// [`BackUpOptions::get_backup_size`] can be asked for it.
    pub fn size_fits(sizes: &Vec<Option<u64>>) -> (fits: bool)
        ensures
            fits == (total_size(sizes@, sizes.len() as nat) <= u64::MAX),
    {
        let mut total: u64 = 0;
        let mut i: usize = 0;
        while i < sizes.len()
            invariant
                i <= sizes.len(),
                total == total_size(sizes@, i as nat),
            decreases sizes.len() - i,
        {
            match sizes[i] {
                Some(size) => {
                    if size > u64::MAX - total {
                        proof {
                            lemma_total_size_grows(sizes@, (i + 1) as nat, sizes.len() as nat);
                        }
                        return false;
                    }
                    total += size;
                },
                None => {},
            }
            i += 1;
        }
        true
    }

    /// The total size in bytes of the files of a backup: `sizes` holds for
    /// each file its size, or `None` where the size could not be had. Such a
    /// file adds nothing to the total.
    pub fn get_backup_size(sizes: &Vec<Option<u64>>) -> (total: u64)
        requires
            total_size(sizes@, sizes.len() as nat) <= u64::MAX,
        ensures
            total == total_size(sizes@, sizes.len() as nat),
    {
        let mut total: u64 = 0;
        let mut i: usize = 0;
        while i < sizes.len()
            invariant
                i <= sizes.len(),
                total == total_size(sizes@, i as nat),
                total_size(sizes@, sizes.len() as nat) <= u64::MAX,
            decreases sizes.len() - i,
        {
            proof {
                lemma_total_size_grows(sizes@, (i + 1) as nat, sizes.len() as nat);
            }
            match sizes[i] {
                Some(size) => {
                    total += size;
                },
                None => {},
            }
            i += 1;
        }
        total
    }

    /// The total size in bytes of the files of a backup, where the size of
    /// every file must be known: as [`BackUpOptions::get_backup_size`], but a
    /// size that could not be had ends the run.
    pub fn get_backup_size_strict(sizes: &Vec<Option<u64>>) -> (r: Result<u64, ArchiveError>)
        requires
            all_sized(sizes@) ==> total_size(sizes@, sizes.len() as nat) <= u64::MAX,
        ensures
            all_sized(sizes@) ==> r == Ok::<u64, ArchiveError>(
                total_size(sizes@, sizes.len() as nat) as u64,
            ),
            !all_sized(sizes@) ==> r == Err::<u64, ArchiveError>(ArchiveError::MetadataUnavailable),
    {
        let mut i: usize = 0;
        while i < sizes.len()
            invariant
                i <= sizes.len(),
                forall|j: int| 0 <= j < i ==> (#[trigger] sizes@[j]) is Some,
            decreases sizes.len() - i,
        {
            if sizes[i].is_none() {
                return Err(ArchiveError::MetadataUnavailable);
            }
            i += 1;
        }
        Ok(Self::get_backup_size(sizes))
    }
}

/// A total over more sizes is no smaller.
pub proof fn lemma_total_size_grows(sizes: Seq<Option<u64>>, m: nat, n: nat)
    requires
        m <= n <= sizes.len(),
    ensures
        total_size(sizes, m) <= total_size(sizes, n),
    decreases n,
{
    if m < n {
        lemma_total_size_grows(sizes, m, (n - 1) as nat);
    }
}

} // verus!
