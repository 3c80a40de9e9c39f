//! Paths as text: joining, resolving and final components.

use qubit_infra_pages::path::file_name;
use qubit_infra_pages::path::join;
use qubit_infra_pages::path::resolve_from_project;

#[test]
fn joins_with_one_separator() {
    assert_eq!(join("/project", "README.md"), "/project/README.md");
    assert_eq!(join("/project/", "README.md"), "/project/README.md");
    assert_eq!(join("", "README.md"), "README.md");
    assert_eq!(join("/project", ""), "/project/");
}

#[test]
fn absolute_paths_replace_the_base() {
    assert_eq!(join("/project", "/tmp/out"), "/tmp/out");
}

#[test]
fn resolves_relative_and_preserves_absolute_paths() {
    assert_eq!(resolve_from_project("/work/site", "public"), "/work/site/public");
    assert_eq!(resolve_from_project("/work/site", "/srv/public"), "/srv/public");
}

#[test]
fn final_components() {
    assert_eq!(file_name("assets"), Some("assets".to_string()));
    assert_eq!(file_name("docs/assets/"), Some("assets".to_string()));
    assert_eq!(file_name("foo.txt/."), Some("foo.txt".to_string()));
    assert_eq!(file_name("foo.txt/.//"), Some("foo.txt".to_string()));
    assert_eq!(file_name("target/llvm-cov/html"), Some("html".to_string()));
    assert_eq!(file_name("foo.txt/.."), None);
    assert_eq!(file_name("/"), None);
    assert_eq!(file_name("."), None);
    assert_eq!(file_name(""), None);
    assert_eq!(file_name(".."), None);
}

#[test]
fn final_components_agree_with_std() {
    for p in ["a/b", "a/b/", "a/./", "./a", "/a", "a/..", "..", ".", "/", "", "a//b", "..a", "a.."] {
        let expected = std::path::Path::new(p)
            .file_name()
            .map(|n| n.to_string_lossy().into_owned());
        assert_eq!(file_name(p), expected, "path {p:?}");
    }
}

#[test]
fn joins_agree_with_std() {
    for (b, p) in [("/a", "b"), ("/a/", "b"), ("", "b"), ("a", ""), ("a", "/b"), ("a/b", "c/d")] {
        let expected = std::path::Path::new(b).join(p).to_string_lossy().into_owned();
        assert_eq!(join(b, p), expected, "join {b:?} {p:?}");
    }
}
