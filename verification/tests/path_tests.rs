use http_file_server::paths::{
    components, contains_parent_dir, is_absolute, join_components, path_key, push_path,
    starts_with_components, strip_components,
};

fn segs(items: &[&str]) -> Vec<String> {
    items.iter().map(|s| s.to_string()).collect()
}

#[test]
fn components_skip_empty_and_current_dir() {
    assert_eq!(components("a/b/c"), segs(&["a", "b", "c"]));
    assert_eq!(components("./a//b/./c/"), segs(&["a", "b", "c"]));
    assert_eq!(components("/srv/files"), segs(&["srv", "files"]));
    assert_eq!(components(""), segs(&[]));
    assert_eq!(components("a/../b"), segs(&["a", "..", "b"]));
}

#[test]
fn parent_dir_is_found_only_as_whole_component() {
    assert!(contains_parent_dir(".."));
    assert!(contains_parent_dir("a/../b"));
    assert!(contains_parent_dir("a/.."));
    assert!(!contains_parent_dir("a/..b"));
    assert!(!contains_parent_dir("...")); 
    assert!(!contains_parent_dir("a.b/c"));
}

#[test]
fn absolute_paths_start_with_separator() {
    assert!(is_absolute("/a"));
    assert!(!is_absolute("a/b"));
    assert!(!is_absolute(""));
}

#[test]
fn pushing_follows_separator_rules() {
    assert_eq!(push_path("/srv", "a.txt"), "/srv/a.txt");
    assert_eq!(push_path("/", "a.txt"), "/a.txt");
    assert_eq!(push_path("/srv", "/etc/passwd"), "/etc/passwd");
    assert_eq!(push_path("/srv", ""), "/srv/");
}

#[test]
fn keys_are_absolute_paths() {
    assert_eq!(path_key(&segs(&["srv", "a.txt"])), "/srv/a.txt");
    assert_eq!(path_key(&segs(&[])), "/");
    assert_eq!(join_components(&segs(&["a", "b"])), "a/b");
}

#[test]
fn prefix_is_compared_by_component() {
    assert!(starts_with_components(&segs(&["srv", "a"]), &segs(&["srv"])));
    assert!(!starts_with_components(&segs(&["srvx", "a"]), &segs(&["srv"])));
    assert!(!starts_with_components(&segs(&["etc"]), &segs(&["srv"])));
    assert!(starts_with_components(&segs(&["etc"]), &segs(&[])));
    assert_eq!(
        strip_components(&segs(&["srv", "a", "b"]), &segs(&["srv"])),
        segs(&["a", "b"])
    );
}
