//! What a run is asked to do, as its arguments say it.
//!
//! The arguments are the words of a command line, the program's own name
//! first: the query, the path of the file to search, and, if wanted, a flag
//! that settles whether case counts. Without a flag the caller's own
//! setting decides.
use vstd::prelude::*;
use vstd::string::*;
use crate::substring::same_text;

verus! {

/// The error for a command line that names no query.
pub const MISSING_QUERY: &'static str = "Didn't get a query string";

/// The error for a command line that names no file.
pub const MISSING_FILE_PATH: &'static str = "Didn't get a file path ";

/// The flag that asks for a search that ignores case.
pub const IGNORE_CASE_FLAG: &'static str = "/i";

/// The flag that asks for an exact search.
pub const EXACT_CASE_FLAG: &'static str = "/s";

/// A query, the file to search for it, and whether case is ignored.
pub struct Config {
    pub query: String,
    pub file_path: String,
    pub ignore_case: bool,
}

/// Whether a run with the arguments `args` ignores case: the fourth
/// argument decides where it is one of the two flags, and `otherwise` does
/// where it is anything else or missing.
pub open spec fn ignores_case(args: Seq<Seq<char>>, otherwise: bool) -> bool {
    if args.len() > 3 && args[3] == IGNORE_CASE_FLAG@ {
        true
    } else if args.len() > 3 && args[3] == EXACT_CASE_FLAG@ {
        false
    } else {
        otherwise
    }
}

impl Config {
    /// Reads a configuration off the arguments of a command line.
    ///
    /// `args[0]` is the program's name and is passed over; `args[1]` is the
    /// query and `args[2]` the file's path. A command line without a query,
    /// or with a query and no path, is refused, each with its own message.
    /// `otherwise` says whether case is ignored where no flag settles it.
    /// Arguments behind the fourth are not looked at.
    pub fn build(args: &Vec<String>, otherwise: bool) -> (built: Result<Config, &'static str>)
        ensures
            args.len() < 2 ==> built == Err::<Config, &'static str>(MISSING_QUERY),
            args.len() == 2 ==> built == Err::<Config, &'static str>(MISSING_FILE_PATH),
            args.len() > 2 ==> ({
                &&& built matches Ok(config)
                &&& config.query@ == args[1]@
                &&& config.file_path@ == args[2]@
                &&& config.ignore_case == ignores_case(args.deep_view(), otherwise)
            }),
    {
        if args.len() < 2 {
            return Err(MISSING_QUERY);
        }
        if args.len() < 3 {
            return Err(MISSING_FILE_PATH);
        }
        let ignore_case = if args.len() > 3 && same_text(args[3].as_str(), IGNORE_CASE_FLAG) {
            true
        } else if args.len() > 3 && same_text(args[3].as_str(), EXACT_CASE_FLAG) {
            false
        } else {
            otherwise
        };
        Ok(Config { query: args[1].clone(), file_path: args[2].clone(), ignore_case })
    }
}

} // verus!
