use codex_quota::paths::{
    app_data_dir, app_data_dir_in, cache_path, cache_path_in, diagnostics_path, executable_in,
    file_paths, file_paths_in, official_root_in, path_label, session_path, session_path_in,
    settings_path, settings_path_in, standalone_path_in, StoredFile,
};
use codex_quota::storage::AppSettings;
use std::path::{Path, PathBuf};

#[test]
fn files_stand_in_the_directory_of_the_application() {
    let dir = app_data_dir_in(Some(PathBuf::from("base")));
    assert_eq!(dir, Path::new("base").join("Codex Quota"));
    assert_eq!(settings_path_in(&dir), dir.join("settings.json"));
    assert_eq!(cache_path_in(&dir), dir.join("quota-cache.json"));
    assert_eq!(app_data_dir_in(None), Path::new(".").join("Codex Quota"));
}

#[test]
fn files_of_the_user() {
    let dir = app_data_dir();
    assert!(dir.ends_with("Codex Quota"));
    assert_eq!(settings_path(), dir.join("settings.json"));
    assert_eq!(cache_path(), dir.join("quota-cache.json"));
    assert_eq!(diagnostics_path(), dir.join("diagnostics.json"));
}

#[test]
fn sessions_are_below_the_home_directory() {
    let settings = AppSettings::default();
    assert_eq!(
        session_path_in(&settings, Some(PathBuf::from("home"))),
        Path::new("home").join(".codex").join("sessions")
    );
    assert_eq!(session_path_in(&settings, None), Path::new(".codex").join("sessions"));
    assert!(session_path(&settings).ends_with(".codex/sessions"));
}

#[test]
fn sessions_are_where_the_settings_say() {
    let settings = AppSettings {
        custom_session_path: Some("/elsewhere".into()),
        ..Default::default()
    };
    assert_eq!(session_path(&settings), PathBuf::from("/elsewhere"));
    assert_eq!(path_label(&session_path(&settings)), "/elsewhere");
}

const FILES: [StoredFile; 3] = [StoredFile::Settings, StoredFile::Cache, StoredFile::Diagnostics];

#[test]
fn files_have_siblings_with_other_extensions() {
    let dir = PathBuf::from("base");
    let mut all = Vec::new();
    for file in FILES {
        let paths = file_paths_in(&dir, file);
        assert_eq!(paths.temp, paths.target.with_extension("tmp"));
        assert_eq!(paths.backup, paths.target.with_extension("bak"));
        for path in [paths.target, paths.temp, paths.backup] {
            assert_eq!(path.parent(), Some(dir.as_path()));
            assert!(!all.contains(&path));
            all.push(path);
        }
    }
    assert_eq!(all.len(), 9);
}

#[test]
fn files_of_the_user_have_their_siblings() {
    assert_eq!(file_paths(StoredFile::Settings).target, settings_path());
    assert_eq!(file_paths(StoredFile::Cache).target, cache_path());
    assert_eq!(file_paths(StoredFile::Diagnostics).target, diagnostics_path());
    assert_eq!(cache_path().parent(), settings_path().parent());
}

#[test]
fn executables_have_their_places() {
    let base = PathBuf::from("base");
    assert_eq!(official_root_in(&base), base.join("OpenAI").join("Codex").join("bin"));
    assert_eq!(executable_in(&base), base.join("codex.exe"));
    assert_eq!(standalone_path_in(&base), base.join(".codex").join("bin").join("codex.exe"));
}
