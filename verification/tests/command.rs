use capnpc_embedded::CompileCommand;

#[test]
fn new_command_is_empty() {
    let cmd = CompileCommand::new();
    assert!(cmd.files().is_empty());
    assert!(cmd.src_prefixes().is_empty());
    assert!(cmd.import_paths().is_empty());
    assert!(cmd.parent_module().is_empty());
    assert!(cmd.use_standard_import());
}

#[test]
fn builder_options_accumulate_in_order() {
    let mut cmd = CompileCommand::new();
    cmd.file("tests/schema/shapes.capnp")
        .file("tests/schema/types.capnp")
        .src_prefix("tests/schema")
        .import_path("/usr/include")
        .import_path("vendor")
        .default_parent_module(vec!["generated".to_string()])
        .no_standard_import();
    assert_eq!(cmd.files(), ["tests/schema/shapes.capnp", "tests/schema/types.capnp"]);
    assert_eq!(cmd.src_prefixes(), ["tests/schema"]);
    assert_eq!(cmd.import_paths(), ["/usr/include", "vendor"]);
    assert_eq!(cmd.parent_module(), ["generated"]);
    assert!(!cmd.use_standard_import());
}

#[test]
fn output_directory_prefers_the_chosen_one() {
    let mut cmd = CompileCommand::new();
    cmd.output_path("out/gen");
    let d = cmd.output_directory(Ok("/build/out".to_string())).unwrap();
    assert_eq!(d, "out/gen");
    let d = cmd.output_directory(Err("environment variable not found".to_string())).unwrap();
    assert_eq!(d, "out/gen");
}

#[test]
fn output_directory_falls_back_to_out_dir() {
    let cmd = CompileCommand::new();
    assert_eq!(cmd.output_directory(Ok("/build/out".to_string())).unwrap(), "/build/out");
    let e = cmd.output_directory(Err("environment variable not found".to_string())).unwrap_err();
    assert_eq!(
        e.message(),
        "Could not access `OUT_DIR` environment variable: environment variable not found. \
         Set it up, or call `output_path` to choose an output directory."
    );
}

#[test]
fn standard_import_stays_off_once_disabled() {
    let mut cmd = CompileCommand::new();
    cmd.file("a.capnp").src_prefix("s");
    assert!(cmd.use_standard_import());
    cmd.no_standard_import().import_path("i").output_path("o").file("b.capnp");
    assert!(!cmd.use_standard_import());
    cmd.default_parent_module(Vec::new());
    assert!(!cmd.use_standard_import());
}
