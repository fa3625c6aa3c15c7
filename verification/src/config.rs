//! The configuration of one search run, as the argument-parsing boundary
//! hands it over: a query, a file name, and the resolved case policy.

use vstd::prelude::*;

verus! {

/// One run's immutable configuration. Matching is case-sensitive unless
/// `case_insensitive` is set.
#[derive(Debug)]
pub struct Config {
    pub query: String,
    pub filename: String,
    pub case_insensitive: bool,
}

impl Config {
    /// Builds the configuration from the raw optional arguments, rejecting a
    /// run that lacks the query or the file name.
    pub fn new(query: Option<String>, filename: Option<String>, case_insensitive: bool) -> (r:
        Result<Config, &'static str>)
        ensures
            r is Ok <==> (query is Some && filename is Some),
            r matches Ok(c) ==> {
                &&& query matches Some(q) && c.query@ == q@
                &&& filename matches Some(f) && c.filename@ == f@
                &&& c.case_insensitive == case_insensitive
            },
            r matches Err(e) ==> {
                &&& query is None ==> e@ == "query must be specified."@
                &&& query is Some ==> e@ == "file must be specified."@
            },
    {
        if query.is_none() {
            return Err("query must be specified.");
        }
        if filename.is_none() {
            return Err("file must be specified.");
        }
        Ok(
            Config {
                query: query.unwrap(),
                filename: filename.unwrap(),
                case_insensitive,
            },
        )
    }
}

} // verus!
