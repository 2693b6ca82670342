use zcode_cleaner::paths::{
    db_path, home_variable, rollout_name, settings_path, wal_path, zcode_root, FilePath,
    ROLLOUT_DIR,
};

fn parts(p: &FilePath) -> (&str, Vec<&str>) {
    (p.base.as_str(), p.parts.iter().map(|s| s.as_str()).collect())
}

#[test]
fn root_is_zcode_home_or_in_the_home_directory() {
    let set = zcode_root(Some("/data".to_string()), None);
    assert_eq!(parts(&set), ("/data", vec![]));
    let both = zcode_root(Some("/data".to_string()), Some("/home/u".to_string()));
    assert_eq!(parts(&both), ("/data", vec![]));
    let unset = zcode_root(None, Some("/home/u".to_string()));
    assert_eq!(parts(&unset), ("/home/u", vec![".zcode"]));
}

#[test]
fn files_have_their_places() {
    let root = zcode_root(None, Some("/home/u".to_string()));
    assert_eq!(parts(&db_path(&root)), ("/home/u", vec![".zcode", "cli/db/db.sqlite"]));
    assert_eq!(parts(&wal_path(&root)), ("/home/u", vec![".zcode", "cli/db/db.sqlite-wal"]));
    let home = FilePath::new("/home/u".to_string());
    assert_eq!(parts(&settings_path(&home)), ("/home/u", vec![".zcode-cleaner.json"]));
    assert_eq!(rollout_name("sess_1"), "model-io-sess_1.jsonl");
    assert_eq!(ROLLOUT_DIR, "cli/rollout");
}

#[test]
fn wal_is_the_database_with_another_extension() {
    let db = std::path::Path::new("cli/db/db.sqlite").with_extension("sqlite-wal");
    let wal = wal_path(&FilePath::new(String::new()));
    assert_eq!(db.to_str().unwrap(), wal.parts[0]);
}

#[test]
fn home_is_named_by_platform() {
    assert_eq!(home_variable(true), "USERPROFILE");
    assert_eq!(home_variable(false), "HOME");
}
