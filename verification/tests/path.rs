use std::path::{Component, Path, PathBuf};

use httpd::path::{join, starts_with, stays_inside};

#[test]
fn joined_paths() {
    assert_eq!(join("./static/", "index.html"), "./static/index.html");
    assert_eq!(join("static", "a/b"), "static/a/b");
    assert_eq!(join("static", ""), "static/");
    assert_eq!(join("", "a"), "a");
    assert_eq!(join("./static/", "/etc/hosts"), "/etc/hosts");
}

#[test]
fn first_components() {
    assert!(starts_with("./static/index.html", "./static/"));
    assert!(starts_with("./static", "./static/"));
    assert!(starts_with("./static//a/./b", "./static/a"));
    assert!(!starts_with("./statics/a", "./static"));
    assert!(!starts_with("/etc/hosts", "./static/"));
    assert!(!starts_with("static/a", "./static/"));
    assert!(starts_with("/", "/"));
    assert!(!starts_with("/a", "/a/b"));
}

#[test]
fn paths_agree_with_std() {
    let texts = [
        "", ".", "..", "/", "//", "./", "./a", "a", "a/", "a/.", "a/./b", "a//b", "/a", "/./a",
        "/a/../b", "././a", "./.", ".a", "a.", "../a", "a/b/c", "\u{e9}/x",
    ];
    for base in texts {
        for path in texts {
            let joined = join(base, path);
            assert_eq!(joined.as_str(), Path::new(base).join(path).to_str().unwrap());
            assert_eq!(starts_with(path, base), Path::new(path).starts_with(base));
            assert_eq!(starts_with(&joined, base), Path::new(&joined).starts_with(base));
        }
    }
}

#[test]
fn paths_inside() {
    for path in ["", "a", "a/b", "a/../b", "a/b/../../c", "./a/..", "a/./.././b", "a/..", "..a/x"] {
        for base in ["", ".", "./static/", "static", "/srv/www", "/", "a/.."] {
            assert!(stays_inside(&join(base, path), base));
        }
    }
}

#[test]
fn paths_that_lead_out() {
    for path in ["..", "../x", "a/../../x", "./../x", "a/.././..", "a/b/../../../c/d/e"] {
        for base in ["", ".", "./static/", "static", "/srv/www", "a/..", "..", "../.."] {
            assert!(starts_with(&join(base, path), base));
            assert!(!stays_inside(&join(base, path), base));
        }
    }
}

#[test]
fn nothing_is_above_the_root() {
    for path in ["..", "../x", "a/../../x", "./../x", "a/.././..", "a/b/../../../c/d/e"] {
        assert!(stays_inside(&join("/", path), "/"));
        assert!(stays_inside(&join("/..", path), "/.."));
    }
}

#[test]
fn paths_that_go_up_and_come_back() {
    assert!(stays_inside(&join("static", "../static/x"), "static"));
    assert!(stays_inside(&join("./static/", "../static"), "./static/"));
    assert!(stays_inside(&join("/srv/www", "../../srv/www/a"), "/srv/www"));
    assert!(stays_inside(&join("../www", "../www/x"), "../www"));
    assert!(!stays_inside(&join("static", "../static/../x"), "static"));
    assert!(!stays_inside(&join("static", "../statics/x"), "static"));
    assert!(!stays_inside(&join("../www", "../../www/x"), "../www"));
}

#[test]
fn absolute_paths_inside() {
    assert!(stays_inside("/srv/www/a", "/srv/www"));
    assert!(stays_inside("/srv/www/a/../b", "/srv/www/"));
    assert!(!stays_inside("/srv/www/../../etc/hosts", "/srv/www"));
    assert!(!stays_inside("/srv/other", "/srv/www"));
    assert!(!stays_inside("/etc/hosts", ""));
    assert!(!stays_inside("/etc/hosts", "./static/"));
}

/// What a path leads to when each `..` takes back the name before it.
fn resolve(path: &str) -> PathBuf {
    let mut out = PathBuf::new();
    for component in Path::new(path).components() {
        match component {
            Component::CurDir => {}
            Component::ParentDir => match out.components().next_back() {
                Some(Component::Normal(_)) => {
                    out.pop();
                }
                Some(Component::RootDir) => {}
                _ => out.push(".."),
            },
            other => out.push(other),
        }
    }
    out
}

#[test]
fn what_is_inside_is_what_resolves_to_the_inside() {
    let paths = ["a", "a/../b", "../a", "a/../../b", "/a/../b", "/", "..", "a/b/../..", "./..", "/a/b/.."];
    for base in ["", ".", "./static/", "../www", "/a", "/", "/.."] {
        for path in paths {
            let joined = join(base, path);
            let (inner, outer) = (resolve(&joined), resolve(base));
            let leads_up = match inner.strip_prefix(&outer) {
                Ok(rest) => rest.components().any(|c| c == Component::ParentDir),
                Err(_) => true,
            };
            let expected = starts_with(&joined, base)
                && !leads_up
                && (!joined.starts_with('/') || base.starts_with('/'));
            assert_eq!(stays_inside(&joined, base), expected);
        }
    }
}

#[test]
fn relative_path_begins_with_its_base() {
    for base in ["", ".", "./static/", "static", "/srv/www", "/"] {
        for path in ["", "a", "a/b", "./a", "a//"] {
            assert!(starts_with(&join(base, path), base));
        }
    }
}
