use unity_adapter::paths::{
    ancestors, find_unity_root, get_unity_adapter_pipe, join_path, marker_path, parent_dir,
};

fn marks_for(dirs: &[String], existing: &[&str]) -> Vec<bool> {
    dirs.iter().map(|d| existing.contains(&marker_path(d).as_str())).collect()
}

#[test]
fn join_inserts_one_separator() {
    assert_eq!(join_path("a", "b"), "a/b");
    assert_eq!(join_path("a/", "b"), "a/b");
    assert_eq!(join_path("/", "b"), "/b");
    assert_eq!(join_path("", "b"), "b");
}

#[test]
fn parent_of_paths() {
    assert_eq!(parent_dir("/a/b"), Some("/a".to_string()));
    assert_eq!(parent_dir("/a/b/"), Some("/a".to_string()));
    assert_eq!(parent_dir("/a//b"), Some("/a".to_string()));
    assert_eq!(parent_dir("/a"), Some("/".to_string()));
    assert_eq!(parent_dir("a"), Some("".to_string()));
    assert_eq!(parent_dir("/"), None);
    assert_eq!(parent_dir(""), None);
}

#[test]
fn ancestors_closest_first() {
    assert_eq!(ancestors("/proj/sub/dir"), vec!["/proj/sub/dir", "/proj/sub", "/proj", "/"]);
    assert_eq!(ancestors("rel/x"), vec!["rel/x", "rel", ""]);
}

#[test]
fn marker_and_pipe_paths() {
    assert_eq!(marker_path("/proj"), "/proj/ProjectSettings/ProjectVersion.txt");
    assert_eq!(get_unity_adapter_pipe("/proj"), "/proj/Temp/adapter_pipe");
    assert_eq!(get_unity_adapter_pipe("/proj/"), "/proj/Temp/adapter_pipe");
}

#[test]
fn no_marker_anywhere_is_not_found() {
    let dirs = ancestors("/home/user/code");
    let marks = marks_for(&dirs, &["/elsewhere/ProjectSettings/ProjectVersion.txt"]);
    assert_eq!(find_unity_root(&dirs, &marks), None);
}

#[test]
fn closest_marked_ancestor_wins() {
    let dirs = ancestors("/outer/inner/src");
    let marks = marks_for(
        &dirs,
        &[
            "/outer/ProjectSettings/ProjectVersion.txt",
            "/outer/inner/ProjectSettings/ProjectVersion.txt",
        ],
    );
    assert_eq!(find_unity_root(&dirs, &marks), Some("/outer/inner".to_string()));
}

#[test]
fn start_directory_itself_can_be_the_root() {
    let dirs = ancestors("/proj");
    let marks = marks_for(&dirs, &["/proj/ProjectSettings/ProjectVersion.txt"]);
    assert_eq!(find_unity_root(&dirs, &marks), Some("/proj".to_string()));
}
