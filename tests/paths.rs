use tomltojson::paths::{
    is_toml_name, join, json_file_name, parse_source, parse_target, set_json_extension,
    PathError, PathType,
};

fn parts(items: &[&str]) -> Vec<String> {
    items.iter().map(|s| s.to_string()).collect()
}

#[test]
fn json_names() {
    assert_eq!(json_file_name("a.toml"), "a.json");
    assert_eq!(json_file_name("a"), "a.json");
    assert_eq!(json_file_name("a.b.toml"), "a.b.json");
    assert_eq!(json_file_name(".cfg"), ".cfg.json");
    assert_eq!(json_file_name("a."), "a.json");
    assert_eq!(json_file_name("é.toml"), "é.json");
}

#[test]
fn toml_names() {
    assert!(is_toml_name("a.toml"));
    assert!(is_toml_name("x.y.toml"));
    assert!(!is_toml_name("a.TOML"));
    assert!(!is_toml_name(".toml"));
    assert!(!is_toml_name("toml"));
    assert!(!is_toml_name("a.toml.bak"));
    assert!(!is_toml_name("a.tom"));
    assert!(!is_toml_name(""));
}

#[test]
fn json_extension_on_paths() {
    assert_eq!(set_json_extension(&parts(&["dir", "config.toml"])), parts(&["dir", "config.json"]));
    assert_eq!(set_json_extension(&parts(&["dir", ".."])), parts(&["dir", ".."]));
    assert_eq!(set_json_extension(&parts(&[])), parts(&[]));
    assert_eq!(join(&parts(&["a"]), &parts(&["b", "c"])), parts(&["a", "b", "c"]));
}

#[test]
fn single_file_without_target_goes_beside_it() {
    let source = parts(&["config.toml"]);
    let kind = parse_source(true, false).unwrap();
    assert_eq!(kind, PathType::File);
    assert_eq!(parse_target(&source, kind, None, PathType::Absent), Ok(parts(&["config.json"])));
}

#[test]
fn folder_without_target_writes_into_itself() {
    let source = parts(&["data"]);
    assert_eq!(parse_target(&source, PathType::Folder, None, PathType::Absent), Ok(parts(&["data"])));
}

#[test]
fn file_into_existing_folder() {
    let source = parts(&["in", "config.toml"]);
    let target = parts(&["out"]);
    assert_eq!(
        parse_target(&source, PathType::File, Some(&target), PathType::Folder),
        Ok(parts(&["out", "config.json"]))
    );
    assert_eq!(
        parse_target(&parts(&["in", ".."]), PathType::File, Some(&target), PathType::Folder),
        Err(PathError::NoFileName)
    );
}

#[test]
fn file_to_file_target_is_taken_as_given() {
    let source = parts(&["foo.toml"]);
    let target = parts(&["bar.json"]);
    assert_eq!(parse_target(&source, PathType::File, Some(&target), PathType::File), Ok(target.clone()));
    assert_eq!(parse_target(&source, PathType::File, Some(&target), PathType::Absent), Ok(target));
}

#[test]
fn folder_to_missing_folder_is_accepted() {
    let source = parts(&["src_dir"]);
    let target = parts(&["new_dir"]);
    assert_eq!(
        parse_target(&source, PathType::Folder, Some(&target), PathType::Absent),
        Ok(parts(&["new_dir"]))
    );
}

#[test]
fn folder_to_file_is_refused() {
    let source = parts(&["src_dir"]);
    let target = parts(&["out.json"]);
    assert_eq!(
        parse_target(&source, PathType::Folder, Some(&target), PathType::File),
        Err(PathError::KindMismatch)
    );
}

#[test]
fn missing_source_is_refused() {
    assert_eq!(parse_source(false, false), Err(PathError::SourceNotFound));
    assert_eq!(parse_source(false, true), Ok(PathType::Folder));
    assert_eq!(
        parse_target(&parts(&["x"]), PathType::Absent, None, PathType::Absent),
        Err(PathError::SourceNotFound)
    );
}
