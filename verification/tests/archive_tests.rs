use std::io::Read;

use mc_backup::{ArchiveError, BackUpOptions, BackupManager, Folders, SourceFile};

fn options(base: &str, compress: bool) -> BackUpOptions {
    BackUpOptions::new(base.to_string(), vec![Folders::Saves], "/out".to_string(), compress)
}

fn source(path: &str, contents: &[u8]) -> SourceFile {
    SourceFile { path: path.to_string(), contents: contents.to_vec() }
}

fn entries_of(bytes: &[u8]) -> Vec<(String, Vec<u8>)> {
    let mut archive = zip::ZipArchive::new(std::io::Cursor::new(bytes.to_vec())).unwrap();
    let mut entries = Vec::new();
    for i in 0..archive.len() {
        let mut entry = archive.by_index(i).unwrap();
        let mut contents = Vec::new();
        entry.read_to_end(&mut contents).unwrap();
        entries.push((entry.name().to_string(), contents));
    }
    entries
}

#[test]
fn entry_name_drops_the_base_directory() {
    assert_eq!(BackupManager::entry_name("/mc", "/mc/saves/a.txt"), "saves/a.txt");
    assert_eq!(BackupManager::entry_name("/mc/", "/mc//saves/a.txt"), "saves/a.txt");
    assert_eq!(BackupManager::entry_name("/mc/", "/mc/saves/a.txt"), "saves/a.txt");
    assert_eq!(BackupManager::entry_name("", "/saves/a.txt"), "saves/a.txt");
    assert_eq!(BackupManager::entry_name("/mc", "/mc///saves/a.txt"), "saves/a.txt");
}

#[test]
fn entry_name_of_a_file_elsewhere_is_its_path() {
    assert_eq!(BackupManager::entry_name("/mc", "/other/a.txt"), "/other/a.txt");
    assert_eq!(BackupManager::entry_name("/mc", "/mcx/saves/a.txt"), "/mcx/saves/a.txt");
    assert_eq!(BackupManager::entry_name("/mc", "/mc"), "/mc");
    assert_eq!(BackupManager::entry_name("/mc", "/m"), "/m");
    assert_eq!(BackupManager::entry_name("/mc", "relative/a.txt"), "relative/a.txt");
    assert_eq!(BackupManager::entry_name("", "relative/a.txt"), "relative/a.txt");
}

#[test]
fn entry_names_of_listed_files_are_relative() {
    let o = BackUpOptions::new(
        "/home/me/.minecraft".to_string(),
        vec![Folders::Saves, Folders::Config, Folders::Screenshots, Folders::Mods, Folders::Logs, Folders::Backups],
        "/out".to_string(),
        false,
    );
    let expected = ["saves", "config", "screenshots", "mods", "logs", "backups"];
    for (path, dir) in o.get_all_paths().iter().zip(expected.iter()) {
        let file = format!("{}/some file.dat", path);
        let name = BackupManager::entry_name(&o.default_minecraft_path, &file);
        assert_eq!(name, format!("{}/some file.dat", dir));
        assert!(!name.starts_with('/'));
    }
}

#[test]
fn archive_holds_the_files_and_the_record() {
    let o = options("/mc", true);
    let files = vec![source("/mc/saves/a.txt", b"0123456789"), source("/mc/saves/b.dat", b"")];
    let record = b"{\"timestamp\": 1}".to_vec();
    let summary = BackupManager::zip_backup(&o, &files, Some(&record)).unwrap();
    assert_eq!(summary.archive_path, "/out/backup.zip");
    assert_eq!(summary.entry_names, vec!["saves/a.txt", "saves/b.dat", "backup_data.json"]);
    assert_eq!(
        entries_of(&summary.contents),
        vec![
            ("saves/a.txt".to_string(), b"0123456789".to_vec()),
            ("saves/b.dat".to_string(), Vec::new()),
            ("backup_data.json".to_string(), record.clone()),
        ]
    );
}

#[test]
fn archive_without_compression_is_named_backup() {
    let o = options("/mc", false);
    let summary = BackupManager::zip_backup(&o, &vec![source("/mc/saves/a", b"x")], None).unwrap();
    assert_eq!(summary.archive_path, "/out/backup");
    assert_eq!(entries_of(&summary.contents), vec![("saves/a".to_string(), b"x".to_vec())]);
}

#[test]
fn compression_flag_does_not_change_the_entries() {
    let files = vec![source("/mc/saves/a.txt", b"aaaaaaaaaaaaaaaaaaaaaaaaaaaaaaaa")];
    let stored = BackupManager::zip_backup(&options("/mc", false), &files, None).unwrap();
    let named = BackupManager::zip_backup(&options("/mc", true), &files, None).unwrap();
    assert_eq!(stored.contents, named.contents);
    assert_eq!(stored.entry_names, named.entry_names);
    let mut archive = zip::ZipArchive::new(std::io::Cursor::new(named.contents)).unwrap();
    let entry = archive.by_index(0).unwrap();
    assert_eq!(entry.compression(), zip::CompressionMethod::Stored);
    assert_eq!(entry.size(), 32);
    assert_eq!(entry.compressed_size(), 32);
}

#[test]
fn same_input_gives_the_same_archive() {
    let files = vec![source("/mc/saves/a.txt", b"abc"), source("/mc/saves/b.txt", b"def")];
    let record = b"{}".to_vec();
    let first = BackupManager::zip_backup(&options("/mc", true), &files, Some(&record)).unwrap();
    let second = BackupManager::zip_backup(&options("/mc", true), &files, Some(&record)).unwrap();
    assert_eq!(first.contents, second.contents);
}

#[test]
fn empty_backup_is_an_empty_archive() {
    let summary = BackupManager::zip_backup(&options("/mc", true), &vec![], None).unwrap();
    assert!(summary.entry_names.is_empty());
    assert!(entries_of(&summary.contents).is_empty());
}

#[test]
fn record_alone_is_archived() {
    let record = b"meta".to_vec();
    let summary = BackupManager::zip_backup(&options("/mc", true), &vec![], Some(&record)).unwrap();
    assert_eq!(summary.entry_names, vec!["backup_data.json"]);
    assert_eq!(entries_of(&summary.contents), vec![("backup_data.json".to_string(), record)]);
}

#[test]
fn file_outside_the_base_keeps_its_path() {
    let files = vec![source("/elsewhere/a.txt", b"abc")];
    let summary = BackupManager::zip_backup(&options("/mc", true), &files, None).unwrap();
    assert_eq!(summary.entry_names, vec!["/elsewhere/a.txt"]);
}

#[test]
fn last_file_with_a_name_wins() {
    let files = vec![
        source("/mc/saves/a.txt", b"first"),
        source("/mc/saves/b.txt", b"other"),
        source("/mc/saves/a.txt", b"second"),
    ];
    let summary = BackupManager::zip_backup(&options("/mc", true), &files, None).unwrap();
    assert_eq!(summary.entry_names, vec!["saves/b.txt", "saves/a.txt"]);
    assert_eq!(
        entries_of(&summary.contents),
        vec![
            ("saves/b.txt".to_string(), b"other".to_vec()),
            ("saves/a.txt".to_string(), b"second".to_vec()),
        ]
    );
}

#[test]
fn record_wins_over_a_file_with_its_name() {
    let files = vec![source("/mc/backup_data.json", b"file"), source("/mc/saves/a", b"a")];
    let record = b"record".to_vec();
    let summary = BackupManager::zip_backup(&options("/mc", true), &files, Some(&record)).unwrap();
    assert_eq!(summary.entry_names, vec!["saves/a", "backup_data.json"]);
    assert_eq!(
        entries_of(&summary.contents),
        vec![("saves/a".to_string(), b"a".to_vec()), ("backup_data.json".to_string(), record)]
    );
}

#[test]
fn three_files_with_one_name_leave_one_entry() {
    let files = vec![source("/mc/x", b"1"), source("/mc/x", b"2"), source("/mc/x", b"3")];
    let summary = BackupManager::zip_backup(&options("/mc", false), &files, None).unwrap();
    assert_eq!(entries_of(&summary.contents), vec![("x".to_string(), b"3".to_vec())]);
}

#[test]
fn name_that_is_too_long_fails_the_write() {
    let long = format!("/mc/saves/{}", "n".repeat(65536));
    let files = vec![source("/mc/saves/a", b"a"), source(&long, b"b")];
    let result = BackupManager::zip_backup(&options("/mc", true), &files, None);
    assert_eq!(result.err(), Some(ArchiveError::ArchiveWriteFailure));
}

#[test]
fn longest_name_is_written() {
    let name = "n".repeat(65535);
    let files = vec![source(&format!("/mc/{}", name), b"b")];
    let summary = BackupManager::zip_backup(&options("/mc", true), &files, None).unwrap();
    assert_eq!(summary.entry_names, vec![name.clone()]);
    assert_eq!(entries_of(&summary.contents), vec![(name, b"b".to_vec())]);
}

#[test]
fn name_length_is_counted_in_bytes() {
    let name = "ñ".repeat(32768);
    let files = vec![source(&format!("/mc/{}", name), b"b")];
    let result = BackupManager::zip_backup(&options("/mc", true), &files, None);
    assert_eq!(result.err(), Some(ArchiveError::ArchiveWriteFailure));
}

#[test]
fn shadowed_long_name_does_no_harm() {
    let long = format!("/elsewhere/{}", "n".repeat(70000));
    let files = vec![source(&long, b"a"), source(&long, b"b")];
    let result = BackupManager::zip_backup(&options("/mc", true), &files, None);
    assert_eq!(result.err(), Some(ArchiveError::ArchiveWriteFailure));
    let kept = vec![source("/mc/a", b"a"), source("/mc/a", b"b")];
    assert!(BackupManager::zip_backup(&options("/mc", true), &kept, None).is_ok());
}

#[test]
fn names_with_other_alphabets_are_kept() {
    let files = vec![source("/mc/saves/мир.dat", b"w")];
    let summary = BackupManager::zip_backup(&options("/mc", true), &files, None).unwrap();
    assert_eq!(entries_of(&summary.contents), vec![("saves/мир.dat".to_string(), b"w".to_vec())]);
}

#[test]
fn conclude_with_an_image_gives_the_summary() {
    let o = options("/mc", true);
    let summary =
        BackupManager::conclude(&o, vec!["saves/a".to_string()], Some(vec![1, 2, 3])).unwrap();
    assert_eq!(summary.archive_path, "/out/backup.zip");
    assert_eq!(summary.entry_names, vec!["saves/a"]);
    assert_eq!(summary.contents, vec![1, 2, 3]);
}

#[test]
fn conclude_without_an_image_is_a_finalize_failure() {
    let o = options("/mc", true);
    let result = BackupManager::conclude(&o, vec!["saves/a".to_string()], None);
    assert_eq!(result.err(), Some(ArchiveError::ArchiveFinalizeFailure));
}

#[test]
fn whole_run_on_listed_files() {
    let mut o = BackUpOptions::new(
        "/base".to_string(),
        vec![Folders::Saves, Folders::Mods],
        "/out".to_string(),
        false,
    );
    o.add_excluded_extension("tmp".to_string());
    let listings = vec![
        Some(vec![
            mc_backup::FolderEntry { name: "a.txt".to_string(), is_file: true },
            mc_backup::FolderEntry { name: "b.tmp".to_string(), is_file: true },
        ]),
        None,
    ];
    let paths = o.get_all_files(&listings);
    assert_eq!(paths, vec!["/base/saves/a.txt"]);
    let size = BackUpOptions::get_backup_size(&vec![Some(10)]);
    let mut data = mc_backup::BackUpData::at_time(o.clone(), size, paths.len() as u32, Some(42));
    let file = data.create_json_file();
    assert_eq!(file.path, "/out/backup_data.json");
    let files = vec![source(&paths[0], b"0123456789")];
    let record = file.contents.clone().into_bytes();
    let summary = BackupManager::zip_backup(&o, &files, Some(&record)).unwrap();
    assert_eq!(summary.archive_path, "/out/backup");
    let entries = entries_of(&summary.contents);
    assert_eq!(entries.len(), 2);
    assert_eq!(entries[0], ("saves/a.txt".to_string(), b"0123456789".to_vec()));
    assert_eq!(entries[1].0, "backup_data.json");
    let value: serde_json::Value = serde_json::from_slice(&entries[1].1).unwrap();
    assert_eq!(value.get("size_in_bytes").unwrap().as_u64(), Some(10));
    assert_eq!(value.get("file_count").unwrap().as_u64(), Some(1));
    assert_eq!(value.get("timestamp").unwrap().as_u64(), Some(42));
}

#[test]
fn failures_of_one_folder_or_file_are_passed_over() {
    assert_eq!(mc_backup::RunStep::ListFolder.failure_at(false), None);
    assert_eq!(mc_backup::RunStep::MeasureFile.failure_at(false), None);
}

#[test]
fn strict_run_ends_on_every_failure() {
    assert_eq!(
        mc_backup::RunStep::ListFolder.failure_at(true),
        Some(ArchiveError::FolderUnreadable)
    );
    assert_eq!(
        mc_backup::RunStep::MeasureFile.failure_at(true),
        Some(ArchiveError::MetadataUnavailable)
    );
}

#[test]
fn failures_of_the_destination_and_the_archive_end_the_run() {
    for strict in [false, true] {
        assert_eq!(
            mc_backup::RunStep::WriteMetadata.failure_at(strict),
            Some(ArchiveError::DestinationUnwritable)
        );
        assert_eq!(
            mc_backup::RunStep::CreateArchive.failure_at(strict),
            Some(ArchiveError::DestinationUnwritable)
        );
        assert_eq!(
            mc_backup::RunStep::ReadFile.failure_at(strict),
            Some(ArchiveError::ArchiveWriteFailure)
        );
        assert_eq!(
            mc_backup::RunStep::ReadMetadata.failure_at(strict),
            Some(ArchiveError::ArchiveWriteFailure)
        );
        assert_eq!(
            mc_backup::RunStep::RemoveMetadata.failure_at(strict),
            Some(ArchiveError::ArchiveWriteFailure)
        );
        assert_eq!(
            mc_backup::RunStep::CloseArchive.failure_at(strict),
            Some(ArchiveError::ArchiveFinalizeFailure)
        );
    }
}

#[test]
fn folder_selected_twice_does_not_fail_the_run() {
    let o = BackUpOptions::new(
        "/mc".to_string(),
        vec![Folders::Saves, Folders::Saves],
        "/out".to_string(),
        true,
    );
    let listing = vec![mc_backup::FolderEntry { name: "a.txt".to_string(), is_file: true }];
    let paths = o.get_all_files(&vec![Some(listing.clone()), Some(listing)]);
    assert_eq!(paths, vec!["/mc/saves/a.txt", "/mc/saves/a.txt"]);
    let files = vec![source(&paths[0], b"read first"), source(&paths[1], b"read last")];
    let summary = BackupManager::zip_backup(&o, &files, None).unwrap();
    assert_eq!(summary.entry_names, vec!["saves/a.txt"]);
    let mut archive = zip::ZipArchive::new(std::io::Cursor::new(summary.contents)).unwrap();
    let mut contents = Vec::new();
    archive.by_name("saves/a.txt").unwrap().read_to_end(&mut contents).unwrap();
    assert_eq!(contents, b"read last".to_vec());
}

#[test]
fn every_entry_bears_the_fixed_date() {
    let files = vec![source("/mc/saves/a.txt", b"abc")];
    let record = b"{}".to_vec();
    let summary = BackupManager::zip_backup(&options("/mc", true), &files, Some(&record)).unwrap();
    let mut archive = zip::ZipArchive::new(std::io::Cursor::new(summary.contents)).unwrap();
    for i in 0..archive.len() {
        let date = archive.by_index(i).unwrap().last_modified().unwrap();
        assert_eq!((date.year(), date.month(), date.day()), (1980, 1, 1));
        assert_eq!((date.hour(), date.minute(), date.second()), (0, 0, 0));
    }
}

#[test]
fn many_entries_are_written() {
    let files: Vec<SourceFile> =
        (0..300).map(|i| source(&format!("/mc/saves/f{}.dat", i), &[i as u8])).collect();
    let summary = BackupManager::zip_backup(&options("/mc", false), &files, None).unwrap();
    let entries = entries_of(&summary.contents);
    assert_eq!(entries.len(), 300);
    assert_eq!(entries[299], ("saves/f299.dat".to_string(), vec![43u8]));
}

#[test]
fn empty_entry_name_is_written() {
    let files = vec![source("/mc/", b"x"), source("/mc/saves/a", b"y")];
    let summary = BackupManager::zip_backup(&options("/mc", true), &files, None).unwrap();
    assert_eq!(summary.entry_names, vec!["", "saves/a"]);
}
