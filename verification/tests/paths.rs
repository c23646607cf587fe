use http_dir::fs::disk::DiskFilesystem;

fn validate(path: &str) -> Option<String> {
    DiskFilesystem::new("assets".to_string()).build_and_validate_path(&path.to_string())
}

#[test]
fn plain_paths_join_under_the_base() {
    assert_eq!(validate("hello.txt"), Some("assets/hello.txt".to_string()));
    assert_eq!(validate("a/b/c.txt"), Some("assets/a/b/c.txt".to_string()));
    assert_eq!(validate(""), Some("assets".to_string()));
}

#[test]
fn current_dir_components_are_skipped() {
    assert_eq!(validate("./a/./b"), Some("assets/a/b".to_string()));
    assert_eq!(validate("a//b"), Some("assets/a/b".to_string()));
    assert_eq!(validate("a/b/"), Some("assets/a/b".to_string()));
}

#[test]
fn parent_dir_components_are_rejected() {
    assert_eq!(validate(".."), None);
    assert_eq!(validate("../etc/passwd"), None);
    assert_eq!(validate("a/../b"), None);
    assert_eq!(validate("a/b/.."), None);
}

#[test]
fn absolute_and_host_like_components_are_rejected() {
    assert_eq!(validate("/etc/passwd"), None);
    assert_eq!(validate("c:/windows"), None);
    assert_eq!(validate("a/c:/b"), None);
    assert_eq!(validate("a\\b"), None);
}
