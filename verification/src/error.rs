use vstd::prelude::*;

verus! {

/// An error produced while compiling schemas: a human-readable message.
#[derive(Debug)]
pub struct Error {
    message: String,
}

impl View for Error {
    type V = Seq<char>;

    closed spec fn view(&self) -> Seq<char> {
        self.message@
    }
}

/// Result alias for schema compilation.
pub type Result<T> = core::result::Result<T, Error>;

impl Error {
    /// An error carrying exactly `message`.
    pub fn new(message: String) -> (e: Error)
        ensures
            e@ == message@,
    {
        Error { message }
    }

    /// The error's message.
    pub fn message(&self) -> (m: &str)
        ensures
            m@ == self@,
    {
        self.message.as_str()
    }

    /// The error `cause`, explained by `context`: the message reads
    /// `"<context>: <cause>"`.
    pub fn context(context: &str, cause: Error) -> (e: Error)
        ensures
            e@ == context@ + ": "@ + cause@,
    {
        let mut message = context.to_owned();
        message.append(": ");
        message.append(cause.message.as_str());
        Error { message }
    }

    /// The error for a schema file that cannot be read, with the reason.
    pub fn unreadable_input(file: &str, reason: &str) -> (e: Error)
        ensures
            e@ == "unable to read capnp input file `"@ + file@ + "`: "@ + reason@,
    {
        let mut message = "unable to read capnp input file `".to_owned();
        message.append(file);
        message.append("`: ");
        message.append(reason);
        Error { message }
    }

    /// The error for a path that cannot be resolved on the host, with the
    /// reason.
    pub fn unresolvable_path(path: &str, reason: &str) -> (e: Error)
        ensures
            e@ == "could not resolve path `"@ + path@ + "`: "@ + reason@,
    {
        let mut message = "could not resolve path `".to_owned();
        message.append(path);
        message.append("`: ");
        message.append(reason);
        Error { message }
    }
}

} // verus!
