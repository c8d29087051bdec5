use capnpc_embedded::{
    compiler_args, decimal_string, finish_run, is_within_preopened_root, staging_location, Error,
    GuestExit, PathStyle, Staging,
};

fn strings(v: &[&str]) -> Vec<String> {
    v.iter().map(|s| s.to_string()).collect()
}

#[test]
fn command_line_with_standard_imports() {
    let args = compiler_args(
        PathStyle::Unix,
        Some("/tmp/capnpc-embedded-std-x"),
        &strings(&["/usr/include"]),
        &strings(&["/p/tests/schema"]),
        &strings(&["/p/tests/schema/shapes.capnp", "/p/tests/schema/types.capnp"]),
    );
    assert_eq!(
        args,
        [
            "capnp",
            "compile",
            "-o",
            "-",
            "--no-standard-import",
            "--import-path=/tmp/capnpc-embedded-std-x",
            "--import-path=/usr/include",
            "--src-prefix=/p/tests/schema",
            "/p/tests/schema/shapes.capnp",
            "/p/tests/schema/types.capnp",
        ]
    );
}

#[test]
fn command_line_without_standard_imports_on_windows() {
    let args = compiler_args(
        PathStyle::Windows,
        None,
        &[],
        &strings(&[r"\\?\C:\p\schema"]),
        &strings(&[r"\\?\C:\p\schema\point.capnp"]),
    );
    assert_eq!(
        args,
        ["capnp", "compile", "-o", "-", "--no-standard-import", "--src-prefix=/p/schema", "/p/schema/point.capnp"]
    );
}

#[test]
fn decimal_rendering() {
    assert_eq!(decimal_string(0), "0");
    assert_eq!(decimal_string(7), "7");
    assert_eq!(decimal_string(42), "42");
    assert_eq!(decimal_string(-1), "-1");
    assert_eq!(decimal_string(i32::MAX), "2147483647");
    assert_eq!(decimal_string(i32::MIN), "-2147483648");
}

#[test]
fn successful_runs_return_the_request() {
    assert_eq!(finish_run(GuestExit::Completed, Some(vec![1, 2, 3])).unwrap(), vec![1, 2, 3]);
    assert_eq!(finish_run(GuestExit::Exited(0), Some(vec![9])).unwrap(), vec![9]);
}

#[test]
fn failed_runs_are_errors() {
    let e = finish_run(GuestExit::Exited(1), Some(vec![1])).unwrap_err();
    assert_eq!(e.message(), "capnp compiler exited with code 1 (see stderr above)");
    let e = finish_run(GuestExit::Exited(-3), None).unwrap_err();
    assert_eq!(e.message(), "capnp compiler exited with code -3 (see stderr above)");
    let e = finish_run(GuestExit::Trapped("unreachable".to_string()), Some(vec![1])).unwrap_err();
    assert_eq!(e.message(), "capnp compiler trapped: unreachable");
    let e = finish_run(GuestExit::Completed, None).unwrap_err();
    assert_eq!(e.message(), "stdout pipe still had other references");
    let e = finish_run(GuestExit::Exited(0), Some(Vec::new())).unwrap_err();
    assert_eq!(
        e.message(),
        "capnp compiler produced no output; see stderr above for schema errors"
    );
}

#[test]
fn staging_prefers_out_dir() {
    match staging_location(Some("/build/out".to_string()), "/w", PathStyle::Unix) {
        Staging::Below(d) => assert_eq!(d, "/build/out"),
        _ => panic!("expected OUT_DIR"),
    }
    assert!(matches!(staging_location(None, "/w", PathStyle::Unix), Staging::SystemTemp));
    assert!(matches!(
        staging_location(None, r"C:\w", PathStyle::Windows),
        Staging::BelowWorkingDirectory
    ));
    match staging_location(Some(r"c:\t".to_string()), r"\\?\C:\w", PathStyle::Windows) {
        Staging::Below(d) => assert_eq!(d, r"c:\t"),
        _ => panic!("expected OUT_DIR on the working directory's drive"),
    }
    match staging_location(Some(r"\t".to_string()), r"C:\w", PathStyle::Windows) {
        Staging::Below(d) => assert_eq!(d, r"\t"),
        _ => panic!("expected OUT_DIR without a drive"),
    }
}

#[test]
fn staging_avoids_out_dir_on_another_drive() {
    assert!(matches!(
        staging_location(Some(r"D:\t".to_string()), r"C:\w", PathStyle::Windows),
        Staging::BelowWorkingDirectory
    ));
    assert!(matches!(
        staging_location(Some(r"\\srv\sh\t".to_string()), r"C:\w", PathStyle::Windows),
        Staging::BelowWorkingDirectory
    ));
    assert!(is_within_preopened_root(r"C:\x", r"\\?\c:\w", PathStyle::Windows));
    assert!(!is_within_preopened_root(r"D:\x", r"C:\w", PathStyle::Windows));
    assert!(is_within_preopened_root(r"D:\x", "/w", PathStyle::Unix));
}

#[test]
fn error_messages() {
    assert_eq!(Error::new("boom".to_string()).message(), "boom");
    let e = Error::context("error running embedded capnp compiler", Error::new("x".to_string()));
    assert_eq!(e.message(), "error running embedded capnp compiler: x");
    assert_eq!(
        Error::unreadable_input("a.capnp", "No such file or directory").message(),
        "unable to read capnp input file `a.capnp`: No such file or directory"
    );
    assert_eq!(
        Error::unresolvable_path("b", "denied").message(),
        "could not resolve path `b`: denied"
    );
}
