//! The compile command builder.

use vstd::prelude::*;
use crate::error::Error;

verus! {

/// The views of a list of strings.
pub open spec fn strings_view(v: Seq<String>) -> Seq<Seq<char>> {
    v.map_values(|s: String| s@)
}

/// What a [`CompileCommand`] holds.
#[verifier::ext_equal]
pub struct CommandView {
    /// Schema files to compile, in the order they were added.
    pub files: Seq<Seq<char>>,
    /// `--src-prefix` directories, in order.
    pub src_prefixes: Seq<Seq<char>>,
    /// `--import-path` directories, in order.
    pub import_paths: Seq<Seq<char>>,
    /// The output directory, when one was chosen.
    pub output_path: Option<Seq<char>>,
    /// The default parent module of generated code.
    pub default_parent_module: Seq<Seq<char>>,
    /// Whether the embedded standard import schemas are used.
    pub standard_import: bool,
}

/// The view of a fresh command: nothing added, standard imports on.
pub open spec fn empty_command() -> CommandView {
    CommandView {
        files: Seq::empty(),
        src_prefixes: Seq::empty(),
        import_paths: Seq::empty(),
        output_path: None,
        default_parent_module: Seq::empty(),
        standard_import: true,
    }
}

/// One call of a builder method, with its argument's view.
pub enum BuilderCall {
    File(Seq<char>),
    SrcPrefix(Seq<char>),
    ImportPath(Seq<char>),
    OutputPath(Seq<char>),
    DefaultParentModule(Seq<Seq<char>>),
    NoStandardImport,
}

/// What one builder call makes of a command's view.
pub open spec fn apply(v: CommandView, call: BuilderCall) -> CommandView {
    match call {
        BuilderCall::File(p) => CommandView { files: v.files.push(p), ..v },
        BuilderCall::SrcPrefix(p) => CommandView { src_prefixes: v.src_prefixes.push(p), ..v },
        BuilderCall::ImportPath(p) => CommandView { import_paths: v.import_paths.push(p), ..v },
        BuilderCall::OutputPath(p) => CommandView { output_path: Some(p), ..v },
        BuilderCall::DefaultParentModule(m) => CommandView { default_parent_module: m, ..v },
        BuilderCall::NoStandardImport => CommandView { standard_import: false, ..v },
    }
}

/// What a sequence of builder calls, in order, makes of a command's view.
pub open spec fn apply_all(v: CommandView, calls: Seq<BuilderCall>) -> CommandView
    decreases calls.len(),
{
    if calls.len() == 0 {
        v
    } else {
        apply(apply_all(v, calls.drop_last()), calls.last())
    }
}

/// Law: a command built from [`CompileCommand::new`] by any sequence of
/// builder calls uses the standard imports exactly when
/// [`CompileCommand::no_standard_import`] is not among the calls: the flag
/// starts on, only that call turns it off, and nothing turns it on again.
pub proof fn law_standard_import_flag(calls: Seq<BuilderCall>)
    ensures
        apply_all(empty_command(), calls).standard_import == !calls.contains(
            BuilderCall::NoStandardImport,
        ),
    decreases calls.len(),
{
    if calls.len() > 0 {
        let init = calls.drop_last();
        law_standard_import_flag(init);
        if init.contains(BuilderCall::NoStandardImport) {
            let k = choose|k: int| 0 <= k < init.len() && init[k] == BuilderCall::NoStandardImport;
            assert(calls[k] == init[k]);
        }
        if calls.contains(BuilderCall::NoStandardImport) && calls.last() != BuilderCall::NoStandardImport {
            let k = choose|k: int| 0 <= k < calls.len() && calls[k] == BuilderCall::NoStandardImport;
            assert(k < calls.len() - 1);
            assert(init[k] == calls[k]);
        }
        if calls.last() == BuilderCall::NoStandardImport {
            assert(calls[calls.len() - 1] == BuilderCall::NoStandardImport);
        }
    }
}

/// A builder for compiling Cap'n Proto schemas.
///
/// The options mirror the corresponding `capnp compile` flags; the output
/// directory and the default parent module are handed on to code generation.
#[derive(Debug)]
pub struct CompileCommand {
    files: Vec<String>,
    src_prefixes: Vec<String>,
    import_paths: Vec<String>,
    output_path: Option<String>,
    default_parent_module: Vec<String>,
    no_standard_import: bool,
}

impl View for CompileCommand {
    type V = CommandView;

    closed spec fn view(&self) -> CommandView {
        CommandView {
            files: strings_view(self.files@),
            src_prefixes: strings_view(self.src_prefixes@),
            import_paths: strings_view(self.import_paths@),
            output_path: match self.output_path {
                Some(p) => Some(p@),
                None => None,
            },
            default_parent_module: strings_view(self.default_parent_module@),
            standard_import: !self.no_standard_import,
        }
    }
}

proof fn lemma_strings_view_push(v: Seq<String>, s: String)
    ensures
        strings_view(v.push(s)) == strings_view(v).push(s@),
{
    assert(strings_view(v.push(s)) =~= strings_view(v).push(s@));
}

impl CompileCommand {
    /// Creates a new, empty command: no files, no prefixes, no import paths,
    /// no output directory, no parent module, standard imports on.
    pub fn new() -> (c: CompileCommand)
        ensures
            c@.files == Seq::<Seq<char>>::empty(),
            c@.src_prefixes == Seq::<Seq<char>>::empty(),
            c@.import_paths == Seq::<Seq<char>>::empty(),
            c@.output_path is None,
            c@.default_parent_module == Seq::<Seq<char>>::empty(),
            c@.standard_import,
            c@ == empty_command(),
    {
        let c = CompileCommand {
            files: Vec::new(),
            src_prefixes: Vec::new(),
            import_paths: Vec::new(),
            output_path: None,
            default_parent_module: Vec::new(),
            no_standard_import: false,
        };
        assert(strings_view(c.files@) =~= Seq::<Seq<char>>::empty());
        assert(strings_view(c.src_prefixes@) =~= Seq::<Seq<char>>::empty());
        assert(strings_view(c.import_paths@) =~= Seq::<Seq<char>>::empty());
        assert(strings_view(c.default_parent_module@) =~= Seq::<Seq<char>>::empty());
        c
    }

    /// Adds a schema file to compile. Paths are resolved relative to the
    /// current working directory (typically the crate root during a build
    /// script).
    pub fn file(&mut self, path: &str) -> (r: &mut Self)
        ensures
            r@ == (CommandView { files: old(self)@.files.push(path@), ..old(self)@ }),
            r@ == apply(old(self)@, BuilderCall::File(path@)),
            *final(self) == *final(r),
    {
        let path = path.to_owned();
        proof {
            lemma_strings_view_push(self.files@, path);
        }
        self.files.push(path);
        self
    }

    /// Adds a `--src-prefix`: a prefix stripped from schema paths when the
    /// compiler computes each file's display name (which in turn drives the
    /// generated file names).
    pub fn src_prefix(&mut self, prefix: &str) -> (r: &mut Self)
        ensures
            r@ == (CommandView {
                src_prefixes: old(self)@.src_prefixes.push(prefix@),
                ..old(self)@
            }),
            r@ == apply(old(self)@, BuilderCall::SrcPrefix(prefix@)),
            *final(self) == *final(r),
    {
        let prefix = prefix.to_owned();
        proof {
            lemma_strings_view_push(self.src_prefixes@, prefix);
        }
        self.src_prefixes.push(prefix);
        self
    }

    /// Adds an `--import-path` directory searched for absolute (`/foo.capnp`)
    /// imports.
    pub fn import_path(&mut self, dir: &str) -> (r: &mut Self)
        ensures
            r@ == (CommandView { import_paths: old(self)@.import_paths.push(dir@), ..old(self)@ }),
            r@ == apply(old(self)@, BuilderCall::ImportPath(dir@)),
            *final(self) == *final(r),
    {
        let dir = dir.to_owned();
        proof {
            lemma_strings_view_push(self.import_paths@, dir);
        }
        self.import_paths.push(dir);
        self
    }

    /// Sets the output directory of generated code. Without it the
    /// `OUT_DIR` environment variable is used.
    pub fn output_path(&mut self, path: &str) -> (r: &mut Self)
        ensures
            r@ == (CommandView { output_path: Some(path@), ..old(self)@ }),
            r@ == apply(old(self)@, BuilderCall::OutputPath(path@)),
            *final(self) == *final(r),
    {
        self.output_path = Some(path.to_owned());
        self
    }

    /// Sets the default parent module for generated code.
    pub fn default_parent_module(&mut self, default_parent_module: Vec<String>) -> (r: &mut Self)
        ensures
            r@ == (CommandView {
                default_parent_module: strings_view(default_parent_module@),
                ..old(self)@
            }),
            r@ == apply(
                old(self)@,
                BuilderCall::DefaultParentModule(strings_view(default_parent_module@)),
            ),
            *final(self) == *final(r),
    {
        self.default_parent_module = default_parent_module;
        self
    }

    /// Disables the embedded standard import schemas. Only set this if you
    /// are providing your own copies of `capnp/*.capnp` via an import path.
    pub fn no_standard_import(&mut self) -> (r: &mut Self)
        ensures
            r@ == (CommandView { standard_import: false, ..old(self)@ }),
            r@ == apply(old(self)@, BuilderCall::NoStandardImport),
            *final(self) == *final(r),
    {
        self.no_standard_import = true;
        self
    }

    /// The schema files, in the order they were added.
    pub fn files(&self) -> (r: &[String])
        ensures
            strings_view(r@) == self@.files,
    {
        self.files.as_slice()
    }

    /// The `--src-prefix` directories, in order.
    pub fn src_prefixes(&self) -> (r: &[String])
        ensures
            strings_view(r@) == self@.src_prefixes,
    {
        self.src_prefixes.as_slice()
    }

    /// The `--import-path` directories, in order.
    pub fn import_paths(&self) -> (r: &[String])
        ensures
            strings_view(r@) == self@.import_paths,
    {
        self.import_paths.as_slice()
    }

    /// Whether the embedded standard import schemas are staged for the
    /// compiler.
    pub fn use_standard_import(&self) -> (b: bool)
        ensures
            b == self@.standard_import,
    {
        !self.no_standard_import
    }

    /// The default parent module of generated code.
    pub fn parent_module(&self) -> (r: &[String])
        ensures
            strings_view(r@) == self@.default_parent_module,
    {
        self.default_parent_module.as_slice()
    }

    /// The directory that generated code goes to: the one chosen with
    /// [`Self::output_path`], or else `out_dir`, the value of the `OUT_DIR`
    /// environment variable (`Err` carries why it could not be read).
    pub fn output_directory(&self, out_dir: core::result::Result<String, String>) -> (r: crate::error::Result<String>)
        ensures
            match self@.output_path {
                Some(p) => r matches Ok(d) && d@ == p,
                None => match out_dir {
                    Ok(v) => r matches Ok(d) && d@ == v@,
                    Err(why) => r matches Err(e) && e@ == "Could not access `OUT_DIR` environment variable: "@
                        + why@ + ". Set it up, or call `output_path` to choose an output directory."@,
                },
            },
    {
        match &self.output_path {
            Some(p) => Ok(p.clone()),
            None => match out_dir {
                Ok(v) => Ok(v),
                Err(why) => {
                    let mut message = "Could not access `OUT_DIR` environment variable: ".to_owned();
                    message.append(why.as_str());
                    message.append(". Set it up, or call `output_path` to choose an output directory.");
                    Err(Error::new(message))
                },
            },
        }
    }
}

impl Default for CompileCommand {
    /// The empty command, as [`CompileCommand::new`] makes it.
    fn default() -> (c: CompileCommand)
        ensures
            c@.files == Seq::<Seq<char>>::empty(),
            c@.src_prefixes == Seq::<Seq<char>>::empty(),
            c@.import_paths == Seq::<Seq<char>>::empty(),
            c@.output_path is None,
            c@.default_parent_module == Seq::<Seq<char>>::empty(),
            c@.standard_import,
            c@ == empty_command(),
    {
        CompileCommand::new()
    }
}

} // verus!
