use mc_backup::{BackUpData, BackUpOptions, Folders};

fn sample_options() -> BackUpOptions {
    let mut o = BackUpOptions::new(
        "/mc".to_string(),
        vec![Folders::Saves, Folders::Config],
        "/out".to_string(),
        true,
    );
    o.add_excluded_extension("tmp".to_string());
    o.add_excluded_extension("bak".to_string());
    o
}

#[test]
fn at_time_keeps_the_seconds() {
    let d = BackUpData::at_time(sample_options(), 15, 2, Some(1_700_000_000));
    assert_eq!(d.timestamp, 1_700_000_000);
    assert_eq!(d.size_in_bytes, 15);
    assert_eq!(d.file_count, 2);
    assert_eq!(d.json_size_in_bytes, 0);
    assert_eq!(d.options.destination_path, "/out");
}

#[test]
fn unknown_time_is_recorded_as_zero() {
    let d = BackUpData::at_time(sample_options(), 15, 2, None);
    assert_eq!(d.timestamp, 0);
}

#[test]
fn new_reads_the_clock() {
    let before = std::time::SystemTime::now()
        .duration_since(std::time::UNIX_EPOCH)
        .unwrap()
        .as_secs();
    let d = BackUpData::new(sample_options(), 99, 3);
    let after = std::time::SystemTime::now()
        .duration_since(std::time::UNIX_EPOCH)
        .unwrap()
        .as_secs();
    assert!(before <= d.timestamp && d.timestamp <= after);
    assert_eq!(d.size_in_bytes, 99);
    assert_eq!(d.file_count, 3);
    assert_eq!(d.json_size_in_bytes, 0);
    assert_eq!(d.options.folder_options, vec![Folders::Saves, Folders::Config]);
}

#[test]
fn record_text_has_the_fixed_layout() {
    let d = BackUpData::at_time(sample_options(), 15, 2, Some(1_700_000_000));
    let expected = "{\n  \"timestamp\": 1700000000,\n  \"size_in_bytes\": 15,\n  \"file_count\": 2,\n  \"options\": {\n    \"folder_options\": [\"Saves\", \"Config\"],\n    \"destination_path\": \"/out\",\n    \"compress\": true,\n    \"excluded_extensions\": [\"tmp\", \"bak\"]\n  }\n}";
    assert_eq!(d.format_json(), expected);
}

#[test]
fn record_text_with_nothing_selected() {
    let o = BackUpOptions::new("".to_string(), vec![], "".to_string(), false);
    let d = BackUpData::at_time(o, 0, 0, None);
    let expected = "{\n  \"timestamp\": 0,\n  \"size_in_bytes\": 0,\n  \"file_count\": 0,\n  \"options\": {\n    \"folder_options\": [],\n    \"destination_path\": \"\",\n    \"compress\": false,\n    \"excluded_extensions\": []\n  }\n}";
    assert_eq!(d.format_json(), expected);
}

#[test]
fn record_text_with_the_largest_numbers() {
    let o = BackUpOptions::new("/mc".to_string(), vec![Folders::Logs], "d".to_string(), false);
    let d = BackUpData::at_time(o, u64::MAX, u32::MAX, Some(u64::MAX));
    let text = d.format_json();
    assert!(text.contains("\"timestamp\": 18446744073709551615,"));
    assert!(text.contains("\"size_in_bytes\": 18446744073709551615,"));
    assert!(text.contains("\"file_count\": 4294967295,"));
}

#[test]
fn quotes_backslashes_and_control_characters_are_escaped() {
    let mut o = BackUpOptions::new(
        "/mc".to_string(),
        vec![],
        "C:\\out \"x\"\n\t\u{1f}\u{0}".to_string(),
        false,
    );
    o.add_excluded_extension("a\"b".to_string());
    let d = BackUpData::at_time(o, 1, 1, Some(1));
    let text = d.format_json();
    assert!(text.contains("\"destination_path\": \"C:\\\\out \\\"x\\\"\\u000a\\u0009\\u001f\\u0000\","));
    assert!(text.contains("\"excluded_extensions\": [\"a\\\"b\"]"));
}

#[test]
fn every_folder_is_written_by_its_name() {
    let o = BackUpOptions::new(
        "/mc".to_string(),
        vec![
            Folders::Saves,
            Folders::Config,
            Folders::Screenshots,
            Folders::Mods,
            Folders::Logs,
            Folders::Backups,
        ],
        "/out".to_string(),
        false,
    );
    let text = BackUpData::at_time(o, 0, 0, None).format_json();
    assert!(text.contains(
        "\"folder_options\": [\"Saves\", \"Config\", \"Screenshots\", \"Mods\", \"Logs\", \"Backups\"],"
    ));
}

fn strings_of(value: &serde_json::Value) -> Vec<String> {
    value.as_array().unwrap().iter().map(|v| v.as_str().unwrap().to_string()).collect()
}

#[test]
fn record_text_is_read_back_by_a_json_reader() {
    let mut o = BackUpOptions::new(
        "/mc".to_string(),
        vec![Folders::Mods, Folders::Backups, Folders::Mods],
        "/tmp/\"quoted\"\\dir\u{7}/ñ/\u{1F600}".to_string(),
        true,
    );
    o.add_excluded_extension("tmp".to_string());
    o.add_excluded_extension("".to_string());
    o.add_excluded_extension("we\"ird\\\n".to_string());
    let d = BackUpData::at_time(o, 123_456_789_012, 4_000_000_000, Some(1_722_000_000));
    let text = d.format_json();
    let value: serde_json::Value = serde_json::from_str(&text).unwrap();
    assert_eq!(value.get("timestamp").unwrap().as_u64(), Some(1_722_000_000));
    assert_eq!(value.get("size_in_bytes").unwrap().as_u64(), Some(123_456_789_012));
    assert_eq!(value.get("file_count").unwrap().as_u64(), Some(4_000_000_000));
    let options = value.get("options").unwrap();
    assert_eq!(strings_of(options.get("folder_options").unwrap()), vec!["Mods", "Backups", "Mods"]);
    assert_eq!(
        options.get("destination_path").unwrap().as_str(),
        Some("/tmp/\"quoted\"\\dir\u{7}/ñ/\u{1F600}")
    );
    assert_eq!(options.get("compress").unwrap().as_bool(), Some(true));
    assert_eq!(
        strings_of(options.get("excluded_extensions").unwrap()),
        vec!["tmp", "", "we\"ird\\\n"]
    );
    assert_eq!(value.as_object().unwrap().len(), 4);
    assert_eq!(options.as_object().unwrap().len(), 4);
}

#[test]
fn every_control_character_gives_valid_json() {
    for code in 0u32..0x20 {
        let c = char::from_u32(code).unwrap();
        let o = BackUpOptions::new("/mc".to_string(), vec![], format!("a{}b", c), false);
        let text = BackUpData::at_time(o, 0, 0, None).format_json();
        let value: serde_json::Value = serde_json::from_str(&text).unwrap();
        let read = value.get("options").unwrap().get("destination_path").unwrap();
        assert_eq!(read.as_str(), Some(format!("a{}b", c).as_str()));
    }
}

#[test]
fn count_files_is_the_number_of_files() {
    let mut d = BackUpData::at_time(sample_options(), 15, 0, Some(5));
    let files = vec!["/mc/saves/a".to_string(), "/mc/saves/b".to_string(), "/gone".to_string()];
    d.count_files(&files);
    assert_eq!(d.file_count, 3);
    assert_eq!(d.size_in_bytes, 15);
    assert_eq!(d.timestamp, 5);
    assert_eq!(d.json_size_in_bytes, 0);
    d.count_files(&vec![]);
    assert_eq!(d.file_count, 0);
}

#[test]
fn count_does_not_depend_on_sizes() {
    let files = vec!["/mc/saves/a".to_string(), "/mc/saves/b".to_string()];
    let sizes = vec![Some(10), None];
    let mut d =
        BackUpData::at_time(sample_options(), BackUpOptions::get_backup_size(&sizes), 0, Some(5));
    d.count_files(&files);
    assert_eq!(d.file_count, 2);
    assert_eq!(d.size_in_bytes, 10);
}

#[test]
fn create_json_file_gives_path_text_and_size() {
    let mut d = BackUpData::at_time(sample_options(), 15, 2, Some(1_700_000_000));
    let expected = d.format_json();
    let file = d.create_json_file();
    assert_eq!(file.path, "/out/backup_data.json");
    assert_eq!(file.contents, expected);
    assert_eq!(d.json_size_in_bytes, expected.len() as u64);
    assert_eq!(d.file_count, 2);
    assert_eq!(d.size_in_bytes, 15);
    assert_eq!(d.timestamp, 1_700_000_000);
}

#[test]
fn json_size_is_counted_in_bytes() {
    let o = BackUpOptions::new("/mc".to_string(), vec![], "ñ".to_string(), false);
    let mut d = BackUpData::at_time(o, 0, 0, None);
    let file = d.create_json_file();
    assert_eq!(d.json_size_in_bytes, file.contents.chars().count() as u64 + 1);
}

#[test]
fn decimal_numerals() {
    let mut s = String::from("n=");
    mc_backup::text::push_decimal(&mut s, 0);
    s.push(' ');
    mc_backup::text::push_decimal(&mut s, 9);
    s.push(' ');
    mc_backup::text::push_decimal(&mut s, 10);
    s.push(' ');
    mc_backup::text::push_decimal(&mut s, 1_002_003);
    assert_eq!(s, "n=0 9 10 1002003");
}

#[test]
fn hex_digits_are_lower_case() {
    let digits: String = (0u8..16).map(mc_backup::text::hex_digit).collect();
    assert_eq!(digits, "0123456789abcdef");
}

#[test]
fn control_codes() {
    assert_eq!(mc_backup::text::control_code('\n'), Some(10));
    assert_eq!(mc_backup::text::control_code('\u{0}'), Some(0));
    assert_eq!(mc_backup::text::control_code('\u{1f}'), Some(31));
    assert_eq!(mc_backup::text::control_code(' '), None);
    assert_eq!(mc_backup::text::control_code('a'), None);
}

#[test]
fn chars_of_gives_the_characters() {
    assert_eq!(mc_backup::text::chars_of("añ\u{1F600}"), vec!['a', 'ñ', '\u{1F600}']);
    assert!(mc_backup::text::chars_of("").is_empty());
}

#[test]
fn quoted_strings_and_lists() {
    let mut s = String::new();
    mc_backup::json::push_quoted(&mut s, "a\"b\\c");
    assert_eq!(s, "\"a\\\"b\\\\c\"");
    let mut s = String::from(">");
    mc_backup::json::push_string_list(&mut s, &vec!["x".to_string(), "".to_string()]);
    assert_eq!(s, ">[\"x\", \"\"]");
    let mut s = String::new();
    mc_backup::json::push_tag_list(&mut s, &vec![Folders::Logs]);
    assert_eq!(s, "[\"Logs\"]");
}
