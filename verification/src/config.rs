//! Configuration resolution: turning the positional command-line arguments
//! (program name excluded) and the presence of the `CASE_INSENSITIVE`
//! environment variable into a validated search configuration.

use vstd::prelude::*;

use crate::search::{results_match, search, search_case_insensitive, spec_search, spec_search_ci};
use crate::text::str_eq;

verus! {

/// The resolved run parameters: what to search for, where, and whether the
/// match is case-sensitive.
pub struct Config<'a> {
    pub query: &'a str,
    pub filename: &'a str,
    pub case_sensitive: bool,
}

/// Why a configuration could not be resolved.
#[derive(Debug, PartialEq, Eq)]
pub enum ConfigError<'a> {
    /// Fewer than the two mandatory positional arguments (query and
    /// filename) were supplied.
    MissingArgument,
    /// A third positional argument was supplied but is neither `-i` nor
    /// `-s`; the offending token is carried along.
    InvalidFlag(&'a str),
}

/// The case sensitivity a resolved configuration carries: an explicit third
/// argument decides; otherwise the search is case-sensitive unless the
/// `CASE_INSENSITIVE` environment variable is present.
pub open spec fn spec_case_sensitive(args: Seq<String>, env_case_insensitive: bool) -> bool {
    if args.len() > 2 {
        args[2]@ == "-s"@
    } else {
        !env_case_insensitive
    }
}

impl<'a> Config<'a> {
    /// Resolve a configuration from `args`, the positional arguments with
    /// the program name already removed, and `env_case_insensitive`,
    /// whether the `CASE_INSENSITIVE` environment variable is present (with
    /// any value, including the empty one).
    pub fn new(args: &'a [String], env_case_insensitive: bool) -> (r: Result<
        Config<'a>,
        ConfigError<'a>,
    >)
        ensures
            match r {
                Ok(c) => {
                    &&& args@.len() >= 2
                    &&& c.query@ == args@[0]@
                    &&& c.filename@ == args@[1]@
                    &&& (args@.len() > 2 ==> args@[2]@ == "-i"@ || args@[2]@ == "-s"@)
                    &&& c.case_sensitive == spec_case_sensitive(args@, env_case_insensitive)
                },
                Err(ConfigError::MissingArgument) => args@.len() < 2,
                Err(ConfigError::InvalidFlag(t)) => {
                    &&& args@.len() > 2
                    &&& t@ == args@[2]@
                    &&& args@[2]@ != "-i"@
                    &&& args@[2]@ != "-s"@
                },
            },
    {
        if args.len() < 2 {
            return Err(ConfigError::MissingArgument);
        }
        let a0: &'a String = &args[0];
        let a1: &'a String = &args[1];
        let query: &'a str = a0.as_str();
        let filename: &'a str = a1.as_str();
        let case_sensitive: bool;
        if args.len() > 2 {
            let a2: &'a String = &args[2];
            let flag: &'a str = a2.as_str();
            proof {
                reveal_strlit("-i");
                reveal_strlit("-s");
                assert("-i"@[1] != "-s"@[1]);
            }
            if str_eq(flag, "-i") {
                case_sensitive = false;
            } else if str_eq(flag, "-s") {
                case_sensitive = true;
            } else {
                return Err(ConfigError::InvalidFlag(flag));
            }
        } else {
            case_sensitive = !env_case_insensitive;
        }
        Ok(Config { query, filename, case_sensitive })
    }
}

/// Run the search variant the configuration selects on `contents`.
pub fn search_with_config<'a, 'b>(config: &Config<'b>, contents: &'a str) -> (r: Vec<
    (usize, &'a str),
>)
    ensures
        config.case_sensitive ==> results_match(r@, spec_search(config.query@, contents@)),
        !config.case_sensitive ==> results_match(r@, spec_search_ci(config.query@, contents@)),
{
    if config.case_sensitive {
        search(config.query, contents)
    } else {
        search_case_insensitive(config.query, contents)
    }
}

} // verus!
