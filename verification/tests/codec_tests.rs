use file_store::codec::{extension_of, format_of_path, Format};

#[test]
fn extension_follows_the_last_dot_of_the_file_name() {
    assert_eq!(extension_of("config.json"), Some("json".to_string()));
    assert_eq!(extension_of("etc/app/config.yaml"), Some("yaml".to_string()));
    assert_eq!(extension_of("a.tar.gz"), Some("gz".to_string()));
    assert_eq!(extension_of("trailing."), Some("".to_string()));
}

#[test]
fn paths_without_a_usable_extension_have_none() {
    assert_eq!(extension_of("noext"), None);
    assert_eq!(extension_of(".gitignore"), None);
    assert_eq!(extension_of("dir.d/file"), None);
    assert_eq!(extension_of(""), None);
    assert_eq!(extension_of("dir/"), None);
}

#[test]
fn format_selection_recognizes_json_and_yaml() {
    assert!(matches!(format_of_path("a/b.json"), Ok(Format::Json)));
    assert!(matches!(format_of_path("a/b.yaml"), Ok(Format::Yaml)));
    assert!(matches!(format_of_path("a/b.yml"), Ok(Format::Yaml)));
    assert_eq!(format_of_path("a/b.txt").unwrap_err(), "txt");
    assert_eq!(format_of_path("a/b").unwrap_err(), "no extension");
}
