//! Laws that relate the functions of the library to one another.

use vstd::prelude::*;
use vstd::utf8::encode_utf8;

use crate::archive::{
    entries_fit, entry_name_of, is_under, leading_slashes, metadata_entry_name, planned_entries,
    requested_entries, shadowed, survivors, MAX_NAME_BYTES,
};
use crate::folders::Folders;
use crate::json::{
    count_label, record_text, size_label, text_from_count, text_from_folders, text_from_size,
    timestamp_label, Record,
};
use crate::options::{
    eligible, enumerated_files, extension_of, file_path, folder_files, folder_path, folder_paths,
    last_dot, listed_files, EntryView,
};
use crate::reading::{lemma_after_label, lemma_read_nat, lemma_read_options, read_record};
use crate::text::decimal;
use crate::writer::MAX_ENTRY_BYTES;

verus! {

/// Each selected folder gives one directory, in the order of selection: the
/// base directory, a separator and the folder's fixed name.
pub proof fn lemma_one_path_for_each_folder(base: Seq<char>, folders: Seq<Folders>)
    ensures
        folder_paths(base, folders).len() == folders.len(),
        forall|i: int|
            0 <= i < folders.len() ==> #[trigger] folder_paths(base, folders)[i] == base + seq![
                '/',
            ] + folders[i].dir_name(),
{
}

/// The extension of a name is what follows its last dot.
pub proof fn lemma_extension_follows_last_dot(name: Seq<char>, i: int)
    requires
        0 <= i < name.len(),
        name[i] == '.',
        forall|j: int| i < j < name.len() ==> name[j] != '.',
    ensures
        last_dot(name) == Some(i),
        extension_of(name) == name.skip(i + 1),
    decreases name.len(),
{
    if name.last() != '.' {
        assert(name.drop_last()[i] == name[i]);
        lemma_extension_follows_last_dot(name.drop_last(), i);
    }
}

/// A name without a dot has the empty extension.
pub proof fn lemma_extension_without_dot(name: Seq<char>)
    requires
        forall|j: int| 0 <= j < name.len() ==> name[j] != '.',
    ensures
        last_dot(name) is None,
        extension_of(name) == Seq::<char>::empty(),
    decreases name.len(),
{
    if name.len() > 0 {
        lemma_extension_without_dot(name.drop_last());
    }
}

/// An extension holds no dot.
pub proof fn lemma_extension_has_no_dot(name: Seq<char>)
    ensures
        forall|j: int| 0 <= j < extension_of(name).len() ==> extension_of(name)[j] != '.',
    decreases name.len(),
{
    if name.len() > 0 && name.last() != '.' {
        lemma_extension_has_no_dot(name.drop_last());
        match last_dot(name.drop_last()) {
            Some(i) => {
                lemma_last_dot_in_range(name.drop_last());
                assert(extension_of(name) =~= extension_of(name.drop_last()).push(name.last()));
            },
            None => {},
        }
    }
}

/// The last dot of a name, where it has one, is a position of the name.
pub proof fn lemma_last_dot_in_range(name: Seq<char>)
    ensures
        last_dot(name) matches Some(i) ==> 0 <= i < name.len() && name[i] == '.',
    decreases name.len(),
{
    if name.len() > 0 && name.last() != '.' {
        lemma_last_dot_in_range(name.drop_last());
    }
}

/// Whether `path` is the path of an eligible entry among the first `n` of a listing.
pub open spec fn taken_from_folder(
    folder: Seq<char>,
    entries: Seq<EntryView>,
    excluded: Seq<Seq<char>>,
    n: nat,
    path: Seq<char>,
) -> bool {
    exists|j: int|
        0 <= j < n && j < entries.len() && eligible(#[trigger] entries[j], excluded) && path
            == file_path(folder, entries[j].name)
}

/// Whether `path` is the path of an eligible entry of the listing of one of
/// the first `n` directories.
pub open spec fn taken(
    paths: Seq<Seq<char>>,
    listings: Seq<Option<Seq<EntryView>>>,
    excluded: Seq<Seq<char>>,
    n: nat,
    path: Seq<char>,
) -> bool {
    exists|i: int|
        0 <= i < n && i < paths.len() && i < listings.len() && (#[trigger] listings[i]) is Some
            && taken_from_folder(paths[i], listings[i]->0, excluded, listings[i]->0.len(), path)
}

/// The files of one listing are the paths of its eligible entries, and no others.
pub proof fn lemma_folder_files_are_the_eligible(
    folder: Seq<char>,
    entries: Seq<EntryView>,
    excluded: Seq<Seq<char>>,
    n: nat,
    path: Seq<char>,
)
    requires
        n <= entries.len(),
    ensures
        folder_files(folder, entries, excluded, n).contains(path) <==> taken_from_folder(
            folder,
            entries,
            excluded,
            n,
            path,
        ),
    decreases n,
{
    if n > 0 {
        let before = folder_files(folder, entries, excluded, (n - 1) as nat);
        let all = folder_files(folder, entries, excluded, n);
        lemma_folder_files_are_the_eligible(folder, entries, excluded, (n - 1) as nat, path);
        let last = entries[n - 1];
        if eligible(last, excluded) {
            assert(all == before.push(file_path(folder, last.name)));
            if all.contains(path) {
                let k = choose|k: int| 0 <= k < all.len() && all[k] == path;
                if k < before.len() {
                    assert(before[k] == path);
                    assert(before.contains(path));
                } else {
                    assert(eligible(entries[n - 1], excluded));
                }
            }
            if taken_from_folder(folder, entries, excluded, n, path) {
                let j = choose|j: int|
                    0 <= j < n && j < entries.len() && eligible(#[trigger] entries[j], excluded)
                        && path == file_path(folder, entries[j].name);
                if j < n - 1 {
                    assert(taken_from_folder(folder, entries, excluded, (n - 1) as nat, path));
                    let k = choose|k: int| 0 <= k < before.len() && before[k] == path;
                    assert(all[k] == path);
                } else {
                    assert(all[before.len() as int] == path);
                }
            }
        } else {
            if taken_from_folder(folder, entries, excluded, n, path) {
                let j = choose|j: int|
                    0 <= j < n && j < entries.len() && eligible(#[trigger] entries[j], excluded)
                        && path == file_path(folder, entries[j].name);
                assert(j < n - 1);
            }
        }
    }
}

/// The files of a backup are the regular files of the listed directories
/// whose extension is not excluded, and no others: an entry that is no
/// regular file, or whose extension is excluded, is never among them, and
/// every other entry of a listed directory is.
pub proof fn lemma_files_are_the_eligible(
    paths: Seq<Seq<char>>,
    listings: Seq<Option<Seq<EntryView>>>,
    excluded: Seq<Seq<char>>,
    n: nat,
    path: Seq<char>,
)
    requires
        n <= paths.len(),
    ensures
        enumerated_files(paths, listings, excluded, n).contains(path) <==> taken(
            paths,
            listings,
            excluded,
            n,
            path,
        ),
    decreases n,
{
    if n > 0 {
        let before = enumerated_files(paths, listings, excluded, (n - 1) as nat);
        let added = listed_files(paths, listings, excluded, n - 1);
        let all = enumerated_files(paths, listings, excluded, n);
        assert(all == before + added);
        lemma_files_are_the_eligible(paths, listings, excluded, (n - 1) as nat, path);
        let listed = n - 1 < listings.len() && listings[n - 1] is Some;
        if listed {
            let entries = listings[n - 1]->0;
            lemma_folder_files_are_the_eligible(paths[n - 1], entries, excluded, entries.len(), path);
        }
        if all.contains(path) {
            let k = choose|k: int| 0 <= k < all.len() && all[k] == path;
            if k < before.len() {
                assert(before[k] == path);
                assert(before.contains(path));
                assert(taken(paths, listings, excluded, (n - 1) as nat, path));
                let i = choose|i: int|
                    0 <= i < n - 1 && i < paths.len() && i < listings.len() && (
                    #[trigger] listings[i]) is Some && taken_from_folder(
                        paths[i],
                        listings[i]->0,
                        excluded,
                        listings[i]->0.len(),
                        path,
                    );
                assert(listings[i] is Some);
            } else {
                assert(added[k - before.len()] == path);
                assert(added.contains(path));
                assert(listings[n - 1] is Some);
            }
        }
        if taken(paths, listings, excluded, n, path) {
            let i = choose|i: int|
                0 <= i < n && i < paths.len() && i < listings.len() && (#[trigger] listings[i])
                    is Some && taken_from_folder(
                    paths[i],
                    listings[i]->0,
                    excluded,
                    listings[i]->0.len(),
                    path,
                );
            if i < n - 1 {
                assert(listings[i] is Some);
                assert(taken(paths, listings, excluded, (n - 1) as nat, path));
                let k = choose|k: int| 0 <= k < before.len() && before[k] == path;
                assert(all[k] == path);
            } else {
                let k = choose|k: int| 0 <= k < added.len() && added[k] == path;
                assert(all[before.len() + k] == path);
            }
        }
    }
}

/// A directory without a listing adds no file and takes none away: the
/// files are those of the directories before it.
pub proof fn lemma_unlisted_folder_adds_nothing(
    paths: Seq<Seq<char>>,
    listings: Seq<Option<Seq<EntryView>>>,
    excluded: Seq<Seq<char>>,
    n: nat,
)
    requires
        0 < n <= paths.len(),
        n - 1 >= listings.len() || listings[n - 1] is None,
    ensures
        enumerated_files(paths, listings, excluded, n) == enumerated_files(
            paths,
            listings,
            excluded,
            (n - 1) as nat,
        ),
{
    assert(listed_files(paths, listings, excluded, n - 1) =~= Seq::<Seq<char>>::empty());
    assert(enumerated_files(paths, listings, excluded, n) =~= enumerated_files(
        paths,
        listings,
        excluded,
        (n - 1) as nat,
    ));
}

/// The text of a record is read back as the record that it was written from.
pub proof fn lemma_record_round_trip(r: Record)
    ensures
        read_record(record_text(r)) == Some(r),
{
    reveal_strlit(",\n  \"size_in_bytes\": ");
    reveal_strlit(",\n  \"file_count\": ");
    reveal_strlit(",\n  \"options\": {\n    \"folder_options\": ");
    assert(text_from_size(r)[0] == ',');
    assert(text_from_count(r)[0] == ',');
    assert(text_from_folders(r)[0] == ',');
    lemma_after_label(timestamp_label(), decimal(r.timestamp) + text_from_size(r));
    lemma_read_nat(r.timestamp, text_from_size(r));
    lemma_after_label(size_label(), decimal(r.size_in_bytes) + text_from_count(r));
    lemma_read_nat(r.size_in_bytes, text_from_count(r));
    lemma_after_label(count_label(), decimal(r.file_count) + text_from_folders(r));
    lemma_read_nat(r.file_count, text_from_folders(r));
    lemma_read_options(r);
}

/// Records with one text are one record: the text loses nothing of what a
/// record says.
pub proof fn lemma_record_text_tells_records_apart(a: Record, b: Record)
    requires
        record_text(a) == record_text(b),
    ensures
        a == b,
{
    lemma_record_round_trip(a);
    lemma_record_round_trip(b);
}

/// The name of the entry of a file under the base directory is its path
/// without the base directory and the separators after it, and so no
/// absolute path.
pub proof fn lemma_entry_name_is_relative(base: Seq<char>, path: Seq<char>)
    requires
        is_under(base, path),
    ensures
        ({
            let name = entry_name_of(base, path);
            let between = path.subrange(base.len() as int, path.len() - name.len());
            &&& name.len() <= path.len() - base.len()
            &&& path == base + between + name
            &&& forall|i: int| 0 <= i < between.len() ==> between[i] == '/'
            &&& name.len() == 0 || name[0] != '/'
        }),
{
    let rest = path.skip(base.len() as int);
    lemma_leading_slashes(rest);
    let name = entry_name_of(base, path);
    let between = path.subrange(base.len() as int, path.len() - name.len());
    assert(base =~= path.subrange(0, base.len() as int));
    assert(path =~= base + between + name);
    assert forall|i: int| 0 <= i < between.len() implies between[i] == '/' by {
        assert(between[i] == rest[i]);
    }
}

/// The leading separators of a text are separators, and what follows them
/// does not begin with one.
pub proof fn lemma_leading_slashes(s: Seq<char>)
    ensures
        leading_slashes(s) <= s.len(),
        forall|i: int| 0 <= i < leading_slashes(s) ==> s[i] == '/',
        leading_slashes(s) < s.len() ==> s[leading_slashes(s) as int] != '/',
    decreases s.len(),
{
    if s.len() > 0 && s[0] == '/' {
        lemma_leading_slashes(s.skip(1));
        assert forall|i: int| 0 <= i < leading_slashes(s) implies s[i] == '/' by {
            if i > 0 {
                assert(s.skip(1)[i - 1] == s[i]);
            }
        }
        if leading_slashes(s) < s.len() {
            assert(s.skip(1)[leading_slashes(s.skip(1)) as int] == s[leading_slashes(s) as int]);
        }
    }
}

/// The entry of a file that was found in the directory of a selected folder
/// is named by the folder's fixed name, a separator and the file's name:
/// its path without the base directory.
pub proof fn lemma_entry_name_of_listed_file(base: Seq<char>, folder: Folders, name: Seq<char>)
    ensures
        entry_name_of(base, file_path(folder_path(base, folder), name)) == folder.dir_name() + seq![
            '/',
        ] + name,
        entry_name_of(base, file_path(folder_path(base, folder), name))[0] != '/',
{
    reveal_strlit("saves");
    reveal_strlit("config");
    reveal_strlit("screenshots");
    reveal_strlit("mods");
    reveal_strlit("logs");
    reveal_strlit("backups");
    let dir = folder.dir_name();
    assert(dir.len() > 0 && dir[0] != '/');
    let path = file_path(folder_path(base, folder), name);
    let kept = dir + seq!['/'] + name;
    assert(path =~= base + (seq!['/'] + kept));
    assert(base =~= path.subrange(0, base.len() as int));
    assert(path[base.len() as int] == '/');
    let rest = path.skip(base.len() as int);
    assert(rest =~= seq!['/'] + kept);
    assert(rest.skip(1) =~= kept);
    assert(kept[0] == dir[0]);
    assert(leading_slashes(kept) == 0);
    assert(leading_slashes(rest) == 1);
}

/// Where there is a metadata record, it is the last entry of the archive,
/// under its fixed name.
pub proof fn lemma_metadata_is_last_entry(
    base: Seq<char>,
    files: Seq<(Seq<char>, Seq<u8>)>,
    bytes: Seq<u8>,
)
    ensures
        planned_entries(base, files, Some(bytes)).len() > 0,
        planned_entries(base, files, Some(bytes)).last() == (metadata_entry_name(), bytes),
{
    let requested = requested_entries(base, files, Some(bytes));
    assert(requested.last() == (metadata_entry_name(), bytes));
    assert(!shadowed(requested, requested.len() - 1));
}

/// What is written is what was requested and not shadowed, and nothing else.
pub proof fn lemma_survivors_are_the_unshadowed(
    entries: Seq<(Seq<char>, Seq<u8>)>,
    n: nat,
    entry: (Seq<char>, Seq<u8>),
)
    requires
        n <= entries.len(),
    ensures
        survivors(entries, n).contains(entry) <==> exists|i: int|
            0 <= i < n && !shadowed(entries, i) && #[trigger] entries[i] == entry,
    decreases n,
{
    if n > 0 {
        let before = survivors(entries, (n - 1) as nat);
        let all = survivors(entries, n);
        lemma_survivors_are_the_unshadowed(entries, (n - 1) as nat, entry);
        if all.contains(entry) {
            let k = choose|k: int| 0 <= k < all.len() && all[k] == entry;
            if k < before.len() {
                assert(before[k] == entry);
                assert(before.contains(entry));
            } else {
                assert(!shadowed(entries, n - 1) && entries[n - 1] == entry);
            }
        }
        if exists|i: int| 0 <= i < n && !shadowed(entries, i) && #[trigger] entries[i] == entry {
            let i = choose|i: int|
                0 <= i < n && !shadowed(entries, i) && #[trigger] entries[i] == entry;
            if i < n - 1 {
                assert(before.contains(entry));
                let k = choose|k: int| 0 <= k < before.len() && before[k] == entry;
                assert(all[k] == entry);
            } else {
                assert(all[before.len() as int] == entry);
            }
        }
    }
}

/// No two entries that are written have one name.
pub proof fn lemma_written_names_differ(entries: Seq<(Seq<char>, Seq<u8>)>, n: nat)
    requires
        n <= entries.len(),
    ensures
        forall|a: int, b: int|
            0 <= a < b < survivors(entries, n).len() ==> survivors(entries, n)[a].0 != survivors(
                entries,
                n,
            )[b].0,
    decreases n,
{
    if n > 0 {
        let before = survivors(entries, (n - 1) as nat);
        let all = survivors(entries, n);
        lemma_written_names_differ(entries, (n - 1) as nat);
        if !shadowed(entries, n - 1) {
            assert forall|a: int, b: int| 0 <= a < b < all.len() implies all[a].0 != all[b].0 by {
                if b == before.len() {
                    lemma_survivors_are_the_unshadowed(entries, (n - 1) as nat, before[a]);
                    assert(before.contains(before[a]));
                    let i = choose|i: int|
                        0 <= i < n - 1 && !shadowed(entries, i) && #[trigger] entries[i]
                            == before[a];
                    if all[a].0 == all[b].0 {
                        assert(entries[n - 1].0 == entries[i].0);
                        assert(shadowed(entries, i));
                    }
                }
            }
        }
    }
}

/// Where an archive can take every requested entry, it can take those that
/// are written: that two requested entries have one name is no reason for a
/// run to fail.
pub proof fn lemma_written_fit_where_requested_fit(entries: Seq<(Seq<char>, Seq<u8>)>, n: nat)
    requires
        n <= entries.len(),
        entries_fit(entries),
    ensures
        entries_fit(survivors(entries, n)),
    decreases n,
{
    if n > 0 {
        lemma_written_fit_where_requested_fit(entries, (n - 1) as nat);
        let before = survivors(entries, (n - 1) as nat);
        let all = survivors(entries, n);
        if !shadowed(entries, n - 1) {
            assert forall|i: int| 0 <= i < all.len() implies encode_utf8(#[trigger] all[i].0).len()
                <= MAX_NAME_BYTES && all[i].1.len() <= MAX_ENTRY_BYTES by {
                if i < before.len() {
                    assert(all[i] == before[i]);
                } else {
                    assert(all[i] == entries[n - 1]);
                }
            }
        }
    }
}

/// Of the requested entries with one name the last one is written: for each
/// requested entry an entry with its name is written, and it holds what the
/// last requested entry with that name holds.
pub proof fn lemma_last_entry_wins(entries: Seq<(Seq<char>, Seq<u8>)>, i: int)
    requires
        0 <= i < entries.len(),
    ensures
        exists|j: int|
            i <= j < entries.len() && (#[trigger] entries[j]).0 == entries[i].0 && !shadowed(
                entries,
                j,
            ) && survivors(entries, entries.len()).contains(entries[j]),
    decreases entries.len() - i,
{
    if shadowed(entries, i) {
        let j = choose|j: int| i < j < entries.len() && #[trigger] entries[j].0 == entries[i].0;
        lemma_last_entry_wins(entries, j);
        let k = choose|k: int|
            j <= k < entries.len() && (#[trigger] entries[k]).0 == entries[j].0 && !shadowed(
                entries,
                k,
            ) && survivors(entries, entries.len()).contains(entries[k]);
        assert(entries[k].0 == entries[i].0);
    } else {
        lemma_survivors_are_the_unshadowed(entries, entries.len(), entries[i]);
    }
}

} // verus!
