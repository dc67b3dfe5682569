use backlog::paths::{get_global_index_path, get_repo_backlog_path, register_repo, GlobalIndex};

#[test]
fn the_backlog_file_lives_under_the_repo_root() {
    assert_eq!(get_repo_backlog_path("/home/u/proj"), "/home/u/proj/.todo/backlog.json");
    assert_eq!(get_repo_backlog_path(""), "/.todo/backlog.json");
}

#[test]
fn the_index_file_lives_under_the_home_directory() {
    assert_eq!(get_global_index_path("/home/u"), "/home/u/.backlog/index.json");
}

#[test]
fn registering_a_new_repo_appends_it() {
    let mut index = GlobalIndex::new();
    assert!(register_repo(&mut index, "/a"));
    assert!(register_repo(&mut index, "/b"));
    assert_eq!(index.repos, vec!["/a".to_string(), "/b".to_string()]);
}

#[test]
fn registering_a_known_repo_changes_nothing() {
    let mut index = GlobalIndex::new();
    assert!(register_repo(&mut index, "/a"));
    assert!(!register_repo(&mut index, "/a"));
    assert_eq!(index.repos, vec!["/a".to_string()]);
}
