//! The decisions around one run of the embedded compiler: its command line,
//! where the standard schemas are staged, and what the run's end means.

use vstd::prelude::*;
use crate::error::Error;
use crate::command::strings_view;
use crate::host::{drive_of, is_within_preopened_root, within_preopened_root};
use crate::path::{
    guest_path, law_windows_guest_path_has_no_backslash, to_guest, windows_prefix, PathStyle,
};

verus! {

// ---------------------------------------------------------------------------
// The command line
// ---------------------------------------------------------------------------

/// `flag` followed by the guest path of each of `paths`.
pub open spec fn flagged(flag: Seq<char>, paths: Seq<Seq<char>>, style: PathStyle) -> Seq<Seq<char>> {
    paths.map_values(|p: Seq<char>| flag + guest_path(p, style))
}

/// The compiler's command line: `capnp compile -o - --no-standard-import`,
/// then the staged standard-schema directory as the first import path (when
/// there is one), the import paths, the source prefixes and the schema files,
/// every path in its guest form. All paths are resolved host paths.
pub open spec fn compiler_command_line(
    style: PathStyle,
    std_dir: Option<Seq<char>>,
    import_paths: Seq<Seq<char>>,
    src_prefixes: Seq<Seq<char>>,
    files: Seq<Seq<char>>,
) -> Seq<Seq<char>> {
    seq!["capnp"@, "compile"@, "-o"@, "-"@, "--no-standard-import"@] + match std_dir {
        Some(d) => seq!["--import-path="@ + guest_path(d, style)],
        None => Seq::empty(),
    } + flagged("--import-path="@, import_paths, style) + flagged(
        "--src-prefix="@,
        src_prefixes,
        style,
    ) + files.map_values(|f: Seq<char>| guest_path(f, style))
}

/// Law: the compiler never consults its own built-in include directory
/// (`--no-standard-import` is always passed, right after the output flags),
/// and staged standard schemas, when there are any, are the first import
/// path, searched before the user's.
pub proof fn law_command_line_imports(
    style: PathStyle,
    std_dir: Option<Seq<char>>,
    import_paths: Seq<Seq<char>>,
    src_prefixes: Seq<Seq<char>>,
    files: Seq<Seq<char>>,
)
    ensures
        ({
            let line = compiler_command_line(style, std_dir, import_paths, src_prefixes, files);
            &&& line.len() >= 5
            &&& line[4] == "--no-standard-import"@
            &&& (std_dir matches Some(d) ==> line[5] == "--import-path="@ + guest_path(d, style))
        }),
{
    let head = seq!["capnp"@, "compile"@, "-o"@, "-"@, "--no-standard-import"@];
    let staged = match std_dir {
        Some(d) => seq!["--import-path="@ + guest_path(d, style)],
        None => Seq::<Seq<char>>::empty(),
    };
    let line = compiler_command_line(style, std_dir, import_paths, src_prefixes, files);
    assert(line[4] == (head + staged)[4]);
    if std_dir is Some {
        assert(line[5] == (head + staged)[5]);
    }
}

/// Law: the schema files close the command line, in the order they were
/// given, each as its guest path; the line holds exactly one argument per
/// path besides the five fixed ones.
pub proof fn law_command_line_files_last(
    style: PathStyle,
    std_dir: Option<Seq<char>>,
    import_paths: Seq<Seq<char>>,
    src_prefixes: Seq<Seq<char>>,
    files: Seq<Seq<char>>,
)
    ensures
        ({
            let line = compiler_command_line(style, std_dir, import_paths, src_prefixes, files);
            let staged: int = if std_dir is Some { 1 } else { 0 };
            &&& line.len() == 5 + staged + import_paths.len() + src_prefixes.len() + files.len()
            &&& forall|k: int|
                0 <= k < files.len() ==> #[trigger] line[line.len() - files.len() + k]
                    == guest_path(files[k], style)
        }),
{
    let line = compiler_command_line(style, std_dir, import_paths, src_prefixes, files);
    let tail = files.map_values(|f: Seq<char>| guest_path(f, style));
    assert forall|k: int| 0 <= k < files.len() implies #[trigger] line[line.len() - files.len()
        + k] == guest_path(files[k], style) by {
        assert(line[line.len() - files.len() + k] == tail[k]);
    }
}

/// Law: every user path on the command line appears in guest form, under
/// the host's own path grammar: the `k`-th import path as
/// `--import-path=<guest path>`, the `k`-th source prefix as
/// `--src-prefix=<guest path>`, each right after the fixed arguments and the
/// staged directory, in the order given.
pub proof fn law_command_line_paths_in_guest_form(
    style: PathStyle,
    std_dir: Option<Seq<char>>,
    import_paths: Seq<Seq<char>>,
    src_prefixes: Seq<Seq<char>>,
    files: Seq<Seq<char>>,
)
    ensures
        ({
            let line = compiler_command_line(style, std_dir, import_paths, src_prefixes, files);
            let staged: int = if std_dir is Some { 1 } else { 0 };
            &&& forall|k: int|
                0 <= k < import_paths.len() ==> #[trigger] line[5 + staged + k] == "--import-path="@
                    + guest_path(import_paths[k], style)
            &&& forall|k: int|
                0 <= k < src_prefixes.len() ==> #[trigger] line[5 + staged + import_paths.len() + k]
                    == "--src-prefix="@ + guest_path(src_prefixes[k], style)
        }),
{
    let line = compiler_command_line(style, std_dir, import_paths, src_prefixes, files);
    let staged: int = if std_dir is Some { 1 } else { 0 };
    let head = seq!["capnp"@, "compile"@, "-o"@, "-"@, "--no-standard-import"@] + match std_dir {
        Some(d) => seq!["--import-path="@ + guest_path(d, style)],
        None => Seq::<Seq<char>>::empty(),
    };
    let a = flagged("--import-path="@, import_paths, style);
    let b = flagged("--src-prefix="@, src_prefixes, style);
    assert(head.len() == 5 + staged);
    assert forall|k: int| 0 <= k < import_paths.len() implies #[trigger] line[5 + staged + k]
        == "--import-path="@ + guest_path(import_paths[k], style) by {
        assert(line[5 + staged + k] == (head + a)[5 + staged + k]);
        assert(a[k] == "--import-path="@ + guest_path(import_paths[k], style));
    }
    assert forall|k: int| 0 <= k < src_prefixes.len() implies #[trigger] line[5 + staged
        + import_paths.len() + k] == "--src-prefix="@ + guest_path(src_prefixes[k], style) by {
        assert(line[5 + staged + import_paths.len() + k] == (head + a + b)[5 + staged
            + import_paths.len() + k]);
        assert(b[k] == "--src-prefix="@ + guest_path(src_prefixes[k], style));
    }
}

/// Law: on Windows the command line holds no `\` at all: every path on it,
/// the staged directory, the import paths, the source prefixes and the
/// schema files, is in POSIX form, whatever prefixes and separators the host
/// paths were written with.
pub proof fn law_windows_command_line_has_no_backslash(
    std_dir: Option<Seq<char>>,
    import_paths: Seq<Seq<char>>,
    src_prefixes: Seq<Seq<char>>,
    files: Seq<Seq<char>>,
)
    ensures
        ({
            let line = compiler_command_line(
                PathStyle::Windows,
                std_dir,
                import_paths,
                src_prefixes,
                files,
            );
            forall|k: int, i: int| 0 <= k < line.len() && 0 <= i < line[k].len() ==> #[trigger] line[k][i] != '\\'
        }),
{
    let w = PathStyle::Windows;
    reveal_strlit("capnp");
    reveal_strlit("compile");
    reveal_strlit("-o");
    reveal_strlit("-");
    reveal_strlit("--no-standard-import");
    reveal_strlit("--import-path=");
    reveal_strlit("--src-prefix=");
    let line = compiler_command_line(w, std_dir, import_paths, src_prefixes, files);
    let staged: int = if std_dir is Some { 1 } else { 0 };
    law_command_line_paths_in_guest_form(w, std_dir, import_paths, src_prefixes, files);
    law_command_line_files_last(w, std_dir, import_paths, src_prefixes, files);
    assert forall|k: int, i: int| 0 <= k < line.len() && 0 <= i < line[k].len() implies #[trigger] line[k][i]
        != '\\' by {
        let head = seq!["capnp"@, "compile"@, "-o"@, "-"@, "--no-standard-import"@];
        if k < 5 {
            assert(line[k] == head[k]);
        } else if k < 5 + staged {
            let d = std_dir.unwrap();
            assert(line[k] == "--import-path="@ + guest_path(d, w));
            law_windows_guest_path_has_no_backslash(d);
            if i >= 14 {
                assert(line[k][i] == guest_path(d, w)[i - 14]);
            }
        } else if k < 5 + staged + import_paths.len() {
            let j = k - 5 - staged;
            assert(line[5 + staged + j] == "--import-path="@ + guest_path(import_paths[j], w));
            law_windows_guest_path_has_no_backslash(import_paths[j]);
            if i >= 14 {
                assert(line[k][i] == guest_path(import_paths[j], w)[i - 14]);
            }
        } else if k < 5 + staged + import_paths.len() + src_prefixes.len() {
            let j = k - 5 - staged - import_paths.len();
            assert(line[5 + staged + import_paths.len() + j] == "--src-prefix="@ + guest_path(
                src_prefixes[j],
                w,
            ));
            law_windows_guest_path_has_no_backslash(src_prefixes[j]);
            if i >= 13 {
                assert(line[k][i] == guest_path(src_prefixes[j], w)[i - 13]);
            }
        } else {
            let j = k - (line.len() - files.len());
            assert(line[line.len() - files.len() + j] == guest_path(files[j], w));
            law_windows_guest_path_has_no_backslash(files[j]);
        }
    }
}

fn flagged_guest(flag: &str, path: &str, style: PathStyle) -> (r: String)
    ensures
        r@ == flag@ + guest_path(path@, style),
{
    let mut r = flag.to_owned();
    let g = to_guest(path, style);
    r.append(g.as_str());
    r
}

/// Appends `flag` + guest path for each of `paths` to `args`.
fn push_flagged(args: &mut Vec<String>, flag: &str, paths: &[String], style: PathStyle)
    ensures
        strings_view(final(args)@) == strings_view(old(args)@) + flagged(
            flag@,
            strings_view(paths@),
            style,
        ),
{
    let ghost start = strings_view(args@);
    let ghost ps = strings_view(paths@);
    let mut i: usize = 0;
    while i < paths.len()
        invariant
            i <= paths.len(),
            ps == strings_view(paths@),
            strings_view(args@) == start + flagged(flag@, ps.take(i as int), style),
        decreases paths.len() - i,
    {
        let ghost before = args@;
        let a = flagged_guest(flag, paths[i].as_str(), style);
        args.push(a);
        proof {
            assert(strings_view(args@) =~= strings_view(before).push(a@));
            assert(flagged(flag@, ps.take(i + 1), style) =~= flagged(flag@, ps.take(i as int), style).push(
                flag@ + guest_path(ps[i as int], style),
            ));
        }
        i = i + 1;
    }
    assert(ps.take(paths.len() as int) =~= ps);
}

fn owned(s: &str) -> (r: String)
    ensures
        r@ == s@,
{
    s.to_owned()
}

/// The compiler's command line (see [`compiler_command_line`]). `std_dir` is
/// the resolved directory of the staged standard schemas, if they are used;
/// the other lists are resolved host paths of the command's import paths,
/// source prefixes and files.
pub fn compiler_args(
    style: PathStyle,
    std_dir: Option<&str>,
    import_paths: &[String],
    src_prefixes: &[String],
    files: &[String],
) -> (args: Vec<String>)
    ensures
        strings_view(args@) == compiler_command_line(
            style,
            match std_dir {
                Some(d) => Some(d@),
                None => None,
            },
            strings_view(import_paths@),
            strings_view(src_prefixes@),
            strings_view(files@),
        ),
{
    let mut args: Vec<String> = Vec::new();
    args.push(owned("capnp"));
    args.push(owned("compile"));
    args.push(owned("-o"));
    args.push(owned("-"));
    args.push(owned("--no-standard-import"));
    let ghost fixed = strings_view(args@);
    assert(fixed =~= seq!["capnp"@, "compile"@, "-o"@, "-"@, "--no-standard-import"@]);
    match std_dir {
        Some(d) => {
            let a = flagged_guest("--import-path=", d, style);
            args.push(a);
            assert(strings_view(args@) =~= fixed + seq!["--import-path="@ + guest_path(d@, style)]);
        },
        None => {
            assert(strings_view(args@) =~= fixed + Seq::<Seq<char>>::empty());
        },
    }
    push_flagged(&mut args, "--import-path=", import_paths, style);
    push_flagged(&mut args, "--src-prefix=", src_prefixes, style);
    let ghost before_files = strings_view(args@);
    let ghost fs = strings_view(files@);
    let mut i: usize = 0;
    while i < files.len()
        invariant
            i <= files.len(),
            fs == strings_view(files@),
            strings_view(args@) == before_files + fs.take(i as int).map_values(
                |f: Seq<char>| guest_path(f, style),
            ),
        decreases files.len() - i,
    {
        let ghost before = args@;
        let g = to_guest(files[i].as_str(), style);
        args.push(g);
        proof {
            assert(strings_view(args@) =~= strings_view(before).push(g@));
            assert(fs.take(i + 1).map_values(|f: Seq<char>| guest_path(f, style)) =~= fs.take(
                i as int,
            ).map_values(|f: Seq<char>| guest_path(f, style)).push(guest_path(fs[i as int], style)));
        }
        i = i + 1;
    }
    assert(fs.take(files.len() as int) =~= fs);
    args
}

// ---------------------------------------------------------------------------
// Decimal numbers
// ---------------------------------------------------------------------------

/// The decimal digit for `d` (below ten).
pub open spec fn digit_char(d: nat) -> char {
    ((d + 48) as u8) as char
}

/// The decimal digits of `n`, most significant first, without leading zeros.
pub open spec fn digits(n: nat) -> Seq<char>
    decreases n,
{
    if n < 10 {
        seq![digit_char(n)]
    } else {
        digits(n / 10).push(digit_char(n % 10))
    }
}

/// `n` written in decimal, with a leading `-` when negative.
pub open spec fn decimal(n: int) -> Seq<char> {
    if n < 0 {
        seq!['-'] + digits((-n) as nat)
    } else {
        digits(n as nat)
    }
}

fn digits_exec(n: u64) -> (r: Vec<char>)
    ensures
        r@ == digits(n as nat),
    decreases n,
{
    if n < 10 {
        let mut r: Vec<char> = Vec::new();
        r.push(((n as u8) + 48) as char);
        assert(r@ =~= seq![digit_char(n as nat)]);
        r
    } else {
        let mut r = digits_exec(n / 10);
        r.push((((n % 10) as u8) + 48) as char);
        r
    }
}

/// `n` written in decimal (see [`decimal`]).
pub fn decimal_string(n: i32) -> (r: String)
    ensures
        r@ == decimal(n as int),
{
    let wide = n as i64;
    let magnitude: u64 = if wide < 0 { (-wide) as u64 } else { wide as u64 };
    let ds = digits_exec(magnitude);
    let mut r = String::new();
    if wide < 0 {
        r.push('-');
    }
    let ghost head = r@;
    let mut j: usize = 0;
    while j < ds.len()
        invariant
            j <= ds.len(),
            r@ == head + ds@.take(j as int),
        decreases ds.len() - j,
    {
        r.push(ds[j]);
        assert(ds@.take(j + 1) =~= ds@.take(j as int).push(ds@[j as int]));
        j = j + 1;
    }
    assert(ds@.take(ds.len() as int) =~= ds@);
    assert(r@ =~= decimal(n as int));
    r
}

// ---------------------------------------------------------------------------
// The end of a run
// ---------------------------------------------------------------------------

/// How the compiler's run ended, as the host saw it.
#[derive(Debug)]
pub enum GuestExit {
    /// The entry point returned.
    Completed,
    /// The guest called `proc_exit` with this status.
    Exited(i32),
    /// The guest trapped; the trap's description.
    Trapped(String),
}

/// The error message of a run that ended as `exit` with captured output
/// `output` (`None` when the output pipe could not be taken back), or `None`
/// when the run succeeded: it must have completed or exited with status 0,
/// and have written something.
pub open spec fn run_failure(exit: GuestExit, output: Option<Seq<u8>>) -> Option<Seq<char>> {
    match exit {
        GuestExit::Exited(code) if code != 0 => Some(
            "capnp compiler exited with code "@ + decimal(code as int) + " (see stderr above)"@,
        ),
        GuestExit::Trapped(why) => Some("capnp compiler trapped: "@ + why@),
        _ => match output {
            None => Some("stdout pipe still had other references"@),
            Some(bytes) => if bytes.len() == 0 {
                Some("capnp compiler produced no output; see stderr above for schema errors"@)
            } else {
                None
            },
        },
    }
}

/// The result of a compiler run: the captured `CodeGeneratorRequest` when the
/// run succeeded (see [`run_failure`]), otherwise an error saying why not.
pub fn finish_run(exit: GuestExit, output: Option<Vec<u8>>) -> (r: Result<Vec<u8>, Error>)
    ensures
        ({
            let out = match output {
                Some(b) => Some(b@),
                None => None,
            };
            match run_failure(exit, out) {
                None => r matches Ok(bytes) && output == Some(bytes) && bytes@.len() > 0,
                Some(m) => r matches Err(e) && e@ == m,
            }
        }),
{
    match exit {
        GuestExit::Exited(code) if code != 0 => {
            let mut m = "capnp compiler exited with code ".to_owned();
            let d = decimal_string(code);
            m.append(d.as_str());
            m.append(" (see stderr above)");
            return Err(Error::new(m));
        },
        GuestExit::Trapped(why) => {
            let mut m = "capnp compiler trapped: ".to_owned();
            m.append(why.as_str());
            return Err(Error::new(m));
        },
        _ => {},
    }
    match output {
        None => Err(Error::new("stdout pipe still had other references".to_owned())),
        Some(bytes) => {
            if bytes.len() == 0 {
                Err(
                    Error::new(
                        "capnp compiler produced no output; see stderr above for schema errors".to_owned(),
                    ),
                )
            } else {
                Ok(bytes)
            }
        },
    }
}

// ---------------------------------------------------------------------------
// Staging the standard schemas
// ---------------------------------------------------------------------------

/// Where the bundled standard schemas are written before a run.
#[derive(Debug)]
pub enum Staging {
    /// In a fresh directory below this one (the build's `OUT_DIR`).
    Below(String),
    /// In a fresh directory below the working directory.
    BelowWorkingDirectory,
    /// In a fresh directory below the system's temporary directory.
    SystemTemp,
}

/// The view of a [`Staging`].
pub enum StagingPlace {
    Below(Seq<char>),
    BelowWorkingDirectory,
    SystemTemp,
}

impl View for Staging {
    type V = StagingPlace;

    open spec fn view(&self) -> StagingPlace {
        match self {
            Staging::Below(d) => StagingPlace::Below(d@),
            Staging::BelowWorkingDirectory => StagingPlace::BelowWorkingDirectory,
            Staging::SystemTemp => StagingPlace::SystemTemp,
        }
    }
}

/// Where to stage the standard schemas, for the build's `OUT_DIR` (if set)
/// and the canonical working directory `canonical_cwd`. The staged schemas
/// must be reachable through the compiler's one preopened root, on the
/// working directory's drive. So: below `OUT_DIR` when it is set and
/// reachable (during a build script it is on the project's drive and outside
/// the watched source tree); otherwise on Windows below the working
/// directory, and elsewhere in the system's temporary directory.
pub open spec fn staging_place(out_dir: Option<Seq<char>>, canonical_cwd: Seq<char>, style: PathStyle) -> StagingPlace {
    match out_dir {
        Some(d) if within_preopened_root(d, canonical_cwd, style) => StagingPlace::Below(d),
        _ => if style == PathStyle::Windows {
            StagingPlace::BelowWorkingDirectory
        } else {
            StagingPlace::SystemTemp
        },
    }
}

/// Where to stage the standard schemas (see [`staging_place`]).
pub fn staging_location(out_dir: Option<String>, canonical_cwd: &str, style: PathStyle) -> (r: Staging)
    ensures
        r@ == staging_place(
            match out_dir {
                Some(d) => Some(d@),
                None => None,
            },
            canonical_cwd@,
            style,
        ),
{
    match out_dir {
        Some(d) => {
            if is_within_preopened_root(d.as_str(), canonical_cwd, style) {
                return Staging::Below(d);
            }
        },
        None => {},
    }
    match style {
        PathStyle::Windows => Staging::BelowWorkingDirectory,
        PathStyle::Unix => Staging::SystemTemp,
    }
}

/// Law: the standard schemas are always staged where the compiler can see
/// them, below its one preopened root: below `OUT_DIR` only when that is
/// reachable through the root (on Windows: on the working directory's drive,
/// the drive of `preopen_root`, or without a drive of its own); below the
/// working directory itself otherwise on Windows; and only on Unix, where the
/// root is `/`, in the system's temporary directory.
pub proof fn law_staging_within_preopened_root(
    out_dir: Option<Seq<char>>,
    canonical_cwd: Seq<char>,
    style: PathStyle,
)
    ensures
        match staging_place(out_dir, canonical_cwd, style) {
            StagingPlace::Below(d) => out_dir == Some(d) && within_preopened_root(
                d,
                canonical_cwd,
                style,
            ),
            StagingPlace::BelowWorkingDirectory => style == PathStyle::Windows,
            StagingPlace::SystemTemp => style == PathStyle::Unix,
        },
        style == PathStyle::Windows ==> match staging_place(out_dir, canonical_cwd, style) {
            StagingPlace::Below(d) => windows_prefix(d) is None || drive_of(d) == drive_of(
                canonical_cwd,
            ),
            _ => true,
        },
{
}

/// Law: `OUT_DIR` is preferred: whenever it is set and reachable through the
/// preopened root, the schemas are staged below it, wherever it lies
/// (inside the project's target directory too). On Unix, where the root is
/// `/`, a set `OUT_DIR` is therefore always used.
pub proof fn law_staging_prefers_out_dir(out_dir: Seq<char>, canonical_cwd: Seq<char>, style: PathStyle)
    ensures
        within_preopened_root(out_dir, canonical_cwd, style) ==> staging_place(
            Some(out_dir),
            canonical_cwd,
            style,
        ) == StagingPlace::Below(out_dir),
        style == PathStyle::Unix ==> staging_place(Some(out_dir), canonical_cwd, style)
            == StagingPlace::Below(out_dir),
{
}

// ---------------------------------------------------------------------------
// The guest's filesystem
// ---------------------------------------------------------------------------

/// The guest path at which the host root is mounted. The compiler has no
/// working directory of its own, so this is also the working directory it is
/// given (`PWD`).
pub fn guest_root() -> (r: String)
    ensures
        r@ == seq!['/'],
{
    let mut r = String::new();
    r.push('/');
    assert(r@ =~= seq!['/']);
    r
}

} // verus!
