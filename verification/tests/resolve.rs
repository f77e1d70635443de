use rolldown::hook_driver::built_in::resolve_id;
use rolldown::hook_driver::HookDriver;
use rolldown::nodejs::{join, normalize_path, resolve};

#[test]
fn absolute() {
    let left = resolve_id("/foo/bar/index", None, "/work");
    let right = "/foo/bar/index.js";
    assert_eq!(left, Some(right.to_owned()));
}

#[test]
fn relative_contains_dot() {
    let left = resolve_id(".././baz", Some("/foo/bar/index.js"), "/work");
    let right = "/foo/baz.js";
    assert_eq!(left, Some(right.to_owned()));
}

#[test]
fn bare_specifier_is_left_to_others() {
    assert_eq!(resolve_id("react", Some("/foo/bar/index.js"), "/work"), None);
}

#[test]
fn entry_is_seen_from_working_directory() {
    assert_eq!(resolve_id("./src/main", None, "/work"), Some("/work/src/main.js".to_owned()));
    let driver = HookDriver::new("/work".to_owned());
    assert_eq!(driver.resolve_id("main.js", None), Some("/work/main.js".to_owned()));
}

#[test]
fn normalize_steps_back_and_stays() {
    assert_eq!(normalize_path("/a/b/../c/./d"), "/a/c/d");
    assert_eq!(normalize_path("a//b/"), "a/b");
    assert_eq!(normalize_path("/.."), "/");
    assert_eq!(normalize_path("../a"), "a");
    assert_eq!(join("/a/b", "../c"), "/a/c");
    assert_eq!(join("/a/b", "/c/d"), "/c/d");
    assert_eq!(resolve("/cwd", "x/./y"), "/cwd/x/y");
}
