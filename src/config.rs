//! Resolving a search configuration and choosing the search mode.

use vstd::prelude::*;
use crate::lines::views;
use crate::matching::{matching, matching_folded, search, search_case_insensitive};

verus! {

/// The error reported when the arguments hold no query.
pub const MISSING_QUERY: &'static str = "Didn't get a query string";

/// The error reported when the arguments hold a query but no file path.
pub const MISSING_FILE_PATH: &'static str = "Didn't get a file path";

/// What one search run needs: the text to look for, where to read the
/// buffer from, and whether case is ignored.
pub struct Config {
    pub query: String,
    pub file_path: String,
    pub ignore_case: bool,
}

impl Config {
    /// Builds a configuration from invocation arguments: the program name
    /// first, then the query, then the file path; anything after is ignored.
    /// A query or file path that is absent or empty is a configuration error.
    /// Whether case is ignored comes in separately, as a plain flag.
    pub fn build(args: &Vec<String>, ignore_case: bool) -> (r: Result<Config, &'static str>)
        ensures
            (args@.len() < 2 || args@[1]@.len() == 0) ==> r == Err::<Config, &'static str>(
                MISSING_QUERY,
            ),
            (args@.len() >= 2 && args@[1]@.len() > 0) && (args@.len() < 3 || args@[2]@.len()
                == 0) ==> r == Err::<Config, &'static str>(MISSING_FILE_PATH),
            r is Ok <==> args@.len() >= 3 && args@[1]@.len() > 0 && args@[2]@.len() > 0,
            r is Ok ==> r->Ok_0.query@ == args@[1]@ && r->Ok_0.file_path@ == args@[2]@
                && r->Ok_0.ignore_case == ignore_case,
    {
        if args.len() < 2 || args[1].as_str().is_empty() {
            return Err(MISSING_QUERY);
        }
        if args.len() < 3 || args[2].as_str().is_empty() {
            return Err(MISSING_FILE_PATH);
        }
        let query = args[1].clone();
        let file_path = args[2].clone();
        Ok(Config { query, file_path, ignore_case })
    }
}

/// The lines of `contents` that the configuration asks for: matched with
/// case ignored when `ignore_case` is set, exactly otherwise.
pub fn find_matches<'a>(config: &Config, contents: &'a str) -> (r: Vec<&'a str>)
    ensures
        config.ignore_case ==> views(r@) == matching_folded(config.query@, contents@),
        !config.ignore_case ==> views(r@) == matching(config.query@, contents@),
{
    if config.ignore_case {
        search_case_insensitive(config.query.as_str(), contents)
    } else {
        search(config.query.as_str(), contents)
    }
}

} // verus!
