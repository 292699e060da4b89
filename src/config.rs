//! The configuration of a search, validated from command-line arguments.
use vstd::prelude::*;
use vstd::std_specs::iter::IteratorSpec;

verus! {

/// What to search for, where, and whether case matters.
#[derive(PartialEq, Eq, Debug)]
pub struct Config {
    pub query: String,
    pub filename: String,
    pub case_sensitive: bool,
}

/// Why a configuration could not be made from the arguments.
#[derive(PartialEq, Eq, Debug, Clone, Copy, Structural)]
pub enum ConfigError {
    /// No query follows the program name.
    MissingQuery,
    /// A query is given, but no name of a text source after it.
    MissingSource,
}

impl ConfigError {
    /// The message shown to a user for this error.
    pub fn message(&self) -> (r: &'static str)
        ensures
            *self == ConfigError::MissingQuery ==> r@ == "A query string must be specified"@,
            *self == ConfigError::MissingSource ==> r@ == "A filename must be specified"@,
    {
        match self {
            ConfigError::MissingQuery => "A query string must be specified",
            ConfigError::MissingSource => "A filename must be specified",
        }
    }
}

impl Config {
    /// Validates the arguments of a run: the program name, which is skipped,
    /// then the query, then the name of the text source; later arguments are
    /// never read. Case matters unless the case-insensitivity flag is set.
    pub fn new<I: Iterator<Item = String>>(mut args: I, case_insensitive: bool) -> (r: Result<
        Config,
        ConfigError,
    >)
        ensures
            args.obeys_prophetic_iter_laws() ==> match r {
                Ok(c) => {
                    &&& args.remaining().len() >= 3
                    &&& c.query == args.remaining()[1]
                    &&& c.filename == args.remaining()[2]
                    &&& c.case_sensitive == !case_insensitive
                },
                Err(e) => {
                    &&& e == ConfigError::MissingQuery <==> args.remaining().len() < 2
                    &&& e == ConfigError::MissingSource <==> args.remaining().len() == 2
                },
            },
    {
        args.next();
        let query = match args.next() {
            Some(arg) => arg,
            None => return Err(ConfigError::MissingQuery),
        };
        let filename = match args.next() {
            Some(arg) => arg,
            None => return Err(ConfigError::MissingSource),
        };
        Ok(Config { query, filename, case_sensitive: !case_insensitive })
    }
}

} // verus!
