use capnpc_embedded::{to_guest, PathStyle};

#[test]
fn to_guest_unix() {
    assert_eq!(to_guest("/a/b/c.capnp", PathStyle::Unix), "/a/b/c.capnp");
    assert_eq!(to_guest("/", PathStyle::Unix), "/");
}

#[test]
fn to_guest_windows() {
    // Verbatim (canonicalized) and plain drive paths both drop the prefix.
    assert_eq!(to_guest(r"\\?\C:\a\b\c.capnp", PathStyle::Windows), "/a/b/c.capnp");
    assert_eq!(to_guest(r"C:\a\b", PathStyle::Windows), "/a/b");
    assert_eq!(to_guest(r"C:\", PathStyle::Windows), "/");
}

#[test]
fn unix_components_are_normalized() {
    assert_eq!(to_guest("./a/../b//c/", PathStyle::Unix), "/a/../b/c");
    assert_eq!(to_guest("", PathStyle::Unix), "/");
    assert_eq!(to_guest("a\\b", PathStyle::Unix), "/a\\b");
    assert_eq!(to_guest("/./x/.", PathStyle::Unix), "/x");
}

#[test]
fn windows_prefixes_are_dropped() {
    assert_eq!(to_guest(r"\\server\share\x\y.capnp", PathStyle::Windows), "/x/y.capnp");
    assert_eq!(to_guest(r"\\?\UNC\server\share\x", PathStyle::Windows), "/x");
    assert_eq!(to_guest(r"\\.\COM1", PathStyle::Windows), "/");
    assert_eq!(to_guest(r"\\?\pictures\cat", PathStyle::Windows), "/cat");
    assert_eq!(to_guest("d:relative\\file", PathStyle::Windows), "/relative/file");
    assert_eq!(to_guest("//server/share/z", PathStyle::Windows), "/z");
}

#[test]
fn windows_separators_both_count_outside_verbatim() {
    assert_eq!(to_guest(r"C:\a/.\b", PathStyle::Windows), "/a/b");
    assert_eq!(to_guest(r"a\..\b", PathStyle::Windows), "/a/../b");
    // After a verbatim prefix only `\` separates; `/` stays in the name.
    assert_eq!(to_guest(r"\\?\C:\a/b", PathStyle::Windows), "/a/b");
    assert_eq!(to_guest(r"\\?\C:\a/./b", PathStyle::Windows), "/a/./b");
}

#[test]
fn guest_paths_are_absolute() {
    for p in ["", "a", ".", "..", "C:", r"\\?\C:", "/x/", r"x\y"] {
        for style in [PathStyle::Unix, PathStyle::Windows] {
            assert!(to_guest(p, style).starts_with('/'), "{p:?}");
        }
    }
}

#[test]
fn windows_guest_paths_have_no_backslash() {
    for p in [r"C:\a\b", r"\\?\C:\a\b", r"a\b\c", r"\\server\share\q"] {
        assert!(!to_guest(p, PathStyle::Windows).contains('\\'));
    }
}

#[test]
fn canonical_unix_paths_are_unchanged() {
    for p in ["/", "/usr", "/usr/include/capnp/rust.capnp", "/a/../b", "/x y/z"] {
        assert_eq!(to_guest(p, PathStyle::Unix), p);
    }
    assert_eq!(to_guest("/a/b", PathStyle::Windows), "/a/b");
}

#[test]
fn guest_rewriting_is_idempotent() {
    for p in ["./a//b/", "/x/./y", "rel", ""] {
        let once = to_guest(p, PathStyle::Unix);
        assert_eq!(to_guest(&once, PathStyle::Unix), once);
    }
    for p in [r"\\?\C:\a\b", r"C:a\b", r"\\server\share\x\.\y", r"..\q", r"\\?\C:\a/b"] {
        let once = to_guest(p, PathStyle::Windows);
        assert_eq!(to_guest(&once, PathStyle::Windows), once);
    }
    // A `/` inside a verbatim component is where it can fail.
    let once = to_guest(r"\\?\C:\a/./b", PathStyle::Windows);
    assert_eq!(once, "/a/./b");
    assert_eq!(to_guest(&once, PathStyle::Windows), "/a/b");
}

/// The guest path that the host's own path grammar gives: the normal and
/// `..` components, each as `/name`.
fn guest_from_std(p: &str) -> String {
    use_components(std::path::Path::new(p))
}

fn use_components(p: &std::path::Path) -> String {
    let mut out = String::new();
    for c in p.components() {
        match c {
            std::path::Component::Prefix(_)
            | std::path::Component::RootDir
            | std::path::Component::CurDir => {}
            std::path::Component::ParentDir => out.push_str("/.."),
            std::path::Component::Normal(s) => {
                out.push('/');
                out.push_str(&s.to_string_lossy());
            }
        }
    }
    if out.is_empty() {
        out.push('/');
    }
    out
}

#[test]
fn to_guest_agrees_with_host_components() {
    let host = if std::path::MAIN_SEPARATOR == '\\' { PathStyle::Windows } else { PathStyle::Unix };
    let samples = [
        "",
        "/",
        "//",
        ".",
        "..",
        "./a",
        "a/./b/",
        "/a//b/../c",
        "a\\b",
        "x/.../y",
        r"C:\a\b",
        r"C:a",
        r"\\?\C:\a\b",
        r"\\?\C:/a",
        r"\\?\UNC\srv\sh\x",
        r"\\?\UNC/srv/sh",
        r"\\srv\sh\x",
        "//srv/sh/x",
        r"\\.\COM1\x",
        r"\\?\pics\cat/dog",
        r"\\?\C:\a\.\b\..\c",
    ];
    for p in samples {
        assert_eq!(to_guest(p, host), guest_from_std(p), "{p:?}");
    }
}

#[test]
fn guest_path_depends_only_on_components() {
    let w = PathStyle::Windows;
    assert_eq!(to_guest(r"\\?\C:\x", w), to_guest(r"C:\x", w));
    assert_eq!(to_guest(r"D:\.\x", w), to_guest(r"C:\x", w));
    assert_eq!(to_guest(r"\\srv\sh\x\", w), "/x");
    assert_eq!(to_guest("/x/./", PathStyle::Unix), to_guest("x", PathStyle::Unix));
}
