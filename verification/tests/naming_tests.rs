use csv2json::naming::file_stem;
use csv2json::naming::generate_output_file_name;
use csv2json::naming::is_timestamp;
use csv2json::naming::output_file_name;
use csv2json::naming::NameError;

#[test]
fn stem_of_simple_file() {
    assert_eq!(file_stem("shelters.csv").as_deref(), Some("shelters"));
}

#[test]
fn stem_of_nested_path() {
    assert_eq!(file_stem("/data/in/shelters.csv").as_deref(), Some("shelters"));
}

#[test]
fn stem_keeps_inner_dots() {
    assert_eq!(file_stem("archive.tar.gz").as_deref(), Some("archive.tar"));
}

#[test]
fn stem_of_hidden_file_is_whole_name() {
    assert_eq!(file_stem(".bashrc").as_deref(), Some(".bashrc"));
}

#[test]
fn stem_without_extension_is_whole_name() {
    assert_eq!(file_stem("noext").as_deref(), Some("noext"));
}

#[test]
fn stem_of_trailing_dot_drops_it() {
    assert_eq!(file_stem("name.").as_deref(), Some("name"));
}

#[test]
fn no_stem_for_dot_only_names() {
    assert_eq!(file_stem("."), None);
    assert_eq!(file_stem(".."), None);
    assert_eq!(file_stem("foo/.."), None);
}

#[test]
fn no_stem_for_empty_path() {
    assert_eq!(file_stem(""), None);
}

#[test]
fn no_stem_for_path_ending_in_separator() {
    assert_eq!(file_stem("some/dir/"), None);
}

#[test]
fn output_name_concatenates_stem_timestamp_extension() {
    assert_eq!(
        output_file_name("shelters", "20240101120000"),
        "shelters_20240101120000.json"
    );
}

#[test]
fn timestamp_shape() {
    assert!(is_timestamp("20240101120000"));
    assert!(!is_timestamp("2024010112000"));
    assert!(!is_timestamp("202401011200000"));
    assert!(!is_timestamp("2024010112000x"));
    assert!(!is_timestamp(""));
}

#[test]
fn generated_name_matches_pattern() {
    let name = generate_output_file_name("input/shelters.csv").unwrap();
    assert!(name.starts_with("shelters_"));
    assert!(name.ends_with(".json"));
    let middle = &name["shelters_".len()..name.len() - ".json".len()];
    assert_eq!(middle.len(), 14);
    assert!(middle.chars().all(|c| c.is_ascii_digit()));
}

#[test]
fn generated_name_fails_without_stem() {
    assert_eq!(
        generate_output_file_name("dir/"),
        Err(NameError::NoStem)
    );
}

#[test]
fn name_error_messages() {
    assert!(NameError::NoStem.message().contains("file name"));
    assert!(NameError::ClockFormat.message().contains("timestamp"));
}
