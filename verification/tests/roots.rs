use iznik_kit::claims::registry::toml_files;
use iznik_kit::claims::selection::tasks_with_a_claims_file;
use iznik_kit::distribution::{flag_value, workspace_root};
use iznik_kit::paths::parent;
use iznik_kit::repository_root;

#[test]
fn roots_the_repository_is_the_parent_of_the_task_runner() {
    assert_eq!(repository_root("/home/me/iznik/xtask"), "/home/me/iznik");
    assert_eq!(repository_root("/"), "/");
    assert_eq!(workspace_root("/home/me/iznik/xtask"), "/home/me/iznik");
    assert_eq!(workspace_root("/"), ".");
}

#[test]
fn roots_a_parent_is_what_path_parent_gives() {
    for path in ["/a/b", "/a", "a/b", "a", "/a/b/", "a//b", "a/./b", ""] {
        let expected = std::path::Path::new(path).parent().map(|held| held.display().to_string());
        let got = parent(path);
        match (&expected, &got) {
            (Some(want), Some(have)) => assert_eq!(
                std::path::Path::new(want).components().collect::<Vec<_>>(),
                std::path::Path::new(have).components().collect::<Vec<_>>(),
                "{path}"
            ),
            (None, None) => {}
            _ => panic!("{path}: {expected:?} against {got:?}"),
        }
    }
}

#[test]
fn roots_claims_files_are_the_toml_entries_in_order() {
    let entries = vec!["/r/claims/b.toml".to_owned(), "/r/claims/a.toml".to_owned(), "/r/claims/notes.md".to_owned()];
    assert_eq!(toml_files(&entries), vec!["/r/claims/a.toml", "/r/claims/b.toml"]);
    assert_eq!(tasks_with_a_claims_file(&entries), vec!["b", "a"]);
}

#[test]
fn roots_a_flag_value_is_what_follows_the_flag() {
    let arguments: Vec<String> = ["app-bundle", "--target", "aarch64-apple-darwin", "--binary"].iter().map(|held| held.to_string()).collect();
    assert_eq!(flag_value(&arguments, "--target"), Some("aarch64-apple-darwin".to_owned()));
    assert_eq!(flag_value(&arguments, "--binary"), None);
    assert_eq!(flag_value(&arguments, "--output"), None);
}
