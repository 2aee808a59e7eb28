use nono_guard::bytes::join_bytes;
use nono_guard::path::{
    file_name, is_absolute, join_below, path_components, path_eq, path_parent, path_starts_with,
    PathPart,
};
use std::path::{Component, Path};

const SAMPLES: [&str; 32] = [
    "", "/", "//", ".", "./", "./.", "..", "../a", "a", "a/", "a//b", "a/./b", "a/../b", "./a",
    "/a", "/a/", "/a/.", "/a/b", "/ab", "/a/b/c", "/./a", "/..",
    "//a", "///a/b", "a/.", "a/./", "./..", "../.", ".x", "/.x/..y", "a/.../b", " /\u{e4}",
];

#[test]
fn paths_are_equal_where_their_components_are() {
    for a in SAMPLES {
        for b in SAMPLES {
            assert_eq!(path_eq(a.as_bytes(), b.as_bytes()), Path::new(a) == Path::new(b), "{} {}", a, b);
        }
    }
    assert!(path_eq(b"/a//b/./c/", b"/a/b/c"));
    assert!(!path_eq(b"/a/b/../c", b"/a/c"));
}

#[test]
fn a_path_starts_with_whole_components() {
    for a in SAMPLES {
        for b in SAMPLES {
            assert_eq!(path_starts_with(a.as_bytes(), b.as_bytes()), Path::new(a).starts_with(b), "{} {}", a, b);
        }
    }
    assert!(path_starts_with(b"/data/x", b"/data"));
    assert!(!path_starts_with(b"/database", b"/data"));
}

#[test]
fn file_names_are_as_in_std() {
    for a in SAMPLES {
        let expected = Path::new(a).file_name().map(|n| n.as_encoded_bytes().to_vec());
        assert_eq!(file_name(a.as_bytes()), expected, "{}", a);
    }
    assert_eq!(file_name(b"/a/b.txt"), Some(b"b.txt".to_vec()));
    assert_eq!(file_name(b"/a/.."), None);
}

#[test]
fn joining_is_as_in_std() {
    for dir in SAMPLES {
        for name in ["", "x", "x.y", ".."] {
            let expected = Path::new(dir).join(name).display().to_string();
            assert_eq!(join_below(dir, name), expected, "{} {}", dir, name);
        }
    }
    assert_eq!(join_below("/bin", "ls"), "/bin/ls");
    assert_eq!(join_below("/", "ls"), "/ls");
    assert_eq!(join_below("", "ls"), "ls");
}

#[test]
fn absolute_paths_start_with_a_slash() {
    for a in SAMPLES {
        assert_eq!(is_absolute(a), Path::new(a).is_absolute(), "{}", a);
    }
}

#[test]
fn components_are_as_in_std() {
    for a in SAMPLES {
        let expected: Vec<String> = Path::new(a)
            .components()
            .map(|c| match c {
                Component::RootDir => String::from("root"),
                Component::CurDir => String::from("current"),
                Component::ParentDir => String::from("parent"),
                Component::Normal(n) => format!("name {}", n.to_string_lossy()),
                Component::Prefix(_) => unreachable!(),
            })
            .collect();
        let found: Vec<String> = path_components(a.as_bytes())
            .into_iter()
            .map(|c| match c {
                PathPart::Root => String::from("root"),
                PathPart::Current => String::from("current"),
                PathPart::Parent => String::from("parent"),
                PathPart::Name(n) => format!("name {}", String::from_utf8_lossy(&n)),
            })
            .collect();
        assert_eq!(found, expected, "{}", a);
    }
}

#[test]
fn parents_are_as_in_std() {
    for a in SAMPLES {
        let expected =
            Path::new(a).parent().map(|p| p.as_os_str().as_encoded_bytes().to_vec());
        assert_eq!(path_parent(a.as_bytes()), expected, "{}", a);
    }
    assert_eq!(path_parent(b"/a//b/./c/"), Some(b"/a//b".to_vec()));
    assert_eq!(path_parent(b"/"), None);
    assert_eq!(path_parent(b"x"), Some(Vec::new()));
}

#[test]
fn paths_need_not_be_text() {
    assert_eq!(file_name(b"/a/\xff"), Some(b"\xff".to_vec()));
    assert_eq!(path_parent(b"/\xfe/\xff/"), Some(b"/\xfe".to_vec()));
    assert!(path_starts_with(b"/\xfe/\xff", b"/\xfe"));
    assert!(!path_eq(b"/\xfe", b"/\xff"));
    assert_eq!(join_bytes(b"/\xfe", b"x"), b"/\xfe/x".to_vec());
}
