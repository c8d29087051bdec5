use capnpc_embedded::{abs, join_paths, preopen_root, to_guest, PathStyle};

#[test]
fn preopen_root_unix_is_slash() {
    assert_eq!(preopen_root("/home/u/p", "/home/u/p", PathStyle::Unix).unwrap(), "/");
}

#[test]
fn preopen_root_windows_is_drive_root() {
    assert_eq!(preopen_root(r"C:\p", r"\\?\C:\p", PathStyle::Windows).unwrap(), r"C:\");
    assert_eq!(preopen_root(r"d:\p", r"d:\p", PathStyle::Windows).unwrap(), r"D:\");
}

#[test]
fn preopen_root_windows_refuses_unc() {
    let e = preopen_root(r"\\srv\sh\p", r"\\?\UNC\srv\sh\p", PathStyle::Windows).unwrap_err();
    assert_eq!(
        e.message(),
        r"could not determine the drive root of `\\srv\sh\p`; UNC paths are not supported"
    );
}

#[test]
fn unix_join_and_abs() {
    assert_eq!(join_paths("/home/u", "a.capnp", PathStyle::Unix), "/home/u/a.capnp");
    assert_eq!(join_paths("/home/u/", "a", PathStyle::Unix), "/home/u/a");
    assert_eq!(join_paths("/home/u", "/etc/x", PathStyle::Unix), "/etc/x");
    assert_eq!(join_paths("/home/u", "", PathStyle::Unix), "/home/u/");
    assert_eq!(join_paths("", "a", PathStyle::Unix), "a");
    assert_eq!(abs("/w", "schema/x.capnp", PathStyle::Unix), "/w/schema/x.capnp");
    assert_eq!(abs("/w", "/abs/x.capnp", PathStyle::Unix), "/abs/x.capnp");
}

#[test]
fn windows_join_and_abs() {
    assert_eq!(join_paths(r"C:\x", "a", PathStyle::Windows), r"C:\x\a");
    assert_eq!(join_paths(r"C:\x\", "a", PathStyle::Windows), r"C:\x\a");
    assert_eq!(join_paths("C:", "a", PathStyle::Windows), "C:a");
    assert_eq!(join_paths(r"C:\x", r"\y", PathStyle::Windows), r"C:\y");
    assert_eq!(join_paths(r"C:\x", r"D:\y", PathStyle::Windows), r"D:\y");
    assert_eq!(join_paths(r"C:\x", "D:y", PathStyle::Windows), "D:y");
    assert_eq!(abs(r"C:\w", r"s\x.capnp", PathStyle::Windows), r"C:\w\s\x.capnp");
    assert_eq!(abs(r"C:\w", r"\\srv\sh\x", PathStyle::Windows), r"\\srv\sh\x");
}

#[test]
fn windows_join_below_verbatim_resolves_dots() {
    assert_eq!(join_paths(r"\\?\C:\x\y", r"..\z", PathStyle::Windows), r"\\?\C:\x\z");
    assert_eq!(join_paths(r"\\?\C:\x", ".", PathStyle::Windows), r"\\?\C:\x");
    assert_eq!(join_paths(r"\\?\C:\x", r"a/b", PathStyle::Windows), r"\\?\C:\x\a\b");
    assert_eq!(join_paths(r"\\?\C:\x", r"\r", PathStyle::Windows), r"\\?\C:\r");
    assert_eq!(join_paths(r"\\?\C:\", "..", PathStyle::Windows), r"\\?\C:\");
}

#[test]
fn joined_paths_rewrite_component_wise() {
    let u = PathStyle::Unix;
    assert_eq!(to_guest(&join_paths("/w", "s/x.capnp", u), u), "/w/s/x.capnp");
    assert_eq!(to_guest(&join_paths("/w/", "./s//x.capnp", u), u), "/w/s/x.capnp");
    assert_eq!(to_guest(&join_paths("", "a/../b", u), u), "/a/../b");
}

#[test]
fn joining_a_name_extends_the_guest_path() {
    let w = PathStyle::Windows;
    let u = PathStyle::Unix;
    assert_eq!(to_guest(&join_paths(r"C:\x", "n", w), w), "/x/n");
    assert_eq!(to_guest(&join_paths(r"C:\", "n", w), w), "/n");
    assert_eq!(to_guest(&join_paths("C:", "n", w), w), "/n");
    assert_eq!(to_guest(&join_paths(r"\\?\C:\x\.\y", "n", w), w), "/x/y/n");
    assert_eq!(to_guest(&join_paths(r"\\srv\sh", "n", w), w), "/n");
    assert_eq!(to_guest(&join_paths("/a/b", "n", u), u), "/a/b/n");
    assert_eq!(to_guest(&join_paths("", "n", u), u), "/n");
    // `\\srv` joined with `sh` completes the prefix `\\srv\sh`: the law
    // leaves this case out.
    assert_eq!(to_guest(&join_paths(r"\\srv", "sh", w), w), "/");
}

#[test]
fn abs_ignores_the_directory_for_absolute_paths() {
    for style in [PathStyle::Unix, PathStyle::Windows] {
        let p = if style == PathStyle::Unix { "/etc/x" } else { r"C:\etc\x" };
        assert_eq!(abs("/one", p, style), p);
        assert_eq!(abs(r"D:\two", p, style), p);
    }
}

#[test]
fn abs_is_idempotent() {
    let u = PathStyle::Unix;
    let once = abs("/w", "a/b", u);
    assert_eq!(abs("/w", &once, u), once);
    assert_eq!(abs("/w", &join_paths("/w", "a/b", u), u), once);
    let w = PathStyle::Windows;
    for (cwd, p) in [(r"C:\w", r"a\b"), (r"\\?\C:\w", r"..\b"), (r"\\srv\sh", "q"), (r"C:\w", r"\r"), (r"C:\w", "D:z")] {
        let once = abs(cwd, p, w);
        assert_eq!(abs(cwd, &once, w), once, "{cwd:?} {p:?}");
    }
}
