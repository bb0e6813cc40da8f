//! The resolved settings of one search run, built from plain values that
//! the caller has already taken from its command line and environment.
use vstd::prelude::*;

verus! {

/// What one run searches for, where, and how.
pub struct Config {
    /// The substring to look for.
    pub query: String,
    /// The path of the file whose contents are searched.
    pub filename: String,
    /// Whether matching compares characters exactly; when false, both the
    /// query and each line are lowercased before the containment test.
    pub case_sensitive: bool,
}

/// The positional argument that was absent.
#[derive(Debug, PartialEq, Eq, Structural)]
pub enum MissingArgument {
    /// No argument at all was given, so the query is missing.
    Query,
    /// Only the query was given, so the filename is missing.
    Filename,
}

impl MissingArgument {
    /// A human-readable description of which argument was absent; the two
    /// variants yield distinguishable messages.
    pub fn message(&self) -> (r: &'static str)
        ensures
            *self == MissingArgument::Query ==> r@ == "Didn't get a query string"@,
            *self == MissingArgument::Filename ==> r@ == "Didn't get a file name"@,
    {
        match self {
            MissingArgument::Query => "Didn't get a query string",
            MissingArgument::Filename => "Didn't get a file name",
        }
    }
}

impl Config {
    /// Builds the configuration from the positional arguments (with the
    /// program name already removed) and from whether the environment asked
    /// for case-insensitive matching. Arguments beyond the first two are
    /// ignored.
    pub fn new(args: Vec<String>, case_insensitive: bool) -> (r: Result<Config, MissingArgument>)
        ensures
            match r {
                Ok(c) => args@.len() >= 2 && c.query@ == args@[0]@ && c.filename@ == args@[1]@
                    && c.case_sensitive == !case_insensitive,
                Err(e) => match e {
                    MissingArgument::Query => args@.len() == 0,
                    MissingArgument::Filename => args@.len() == 1,
                },
            },
    {
        let mut args = args;
        if args.len() == 0 {
            return Err(MissingArgument::Query);
        }
        if args.len() == 1 {
            return Err(MissingArgument::Filename);
        }
        let query = args.remove(0);
        let filename = args.remove(0);
        Ok(
            Config {
                query,
                filename,
                case_sensitive: !case_insensitive,
            },
        )
    }
}

} // verus!
