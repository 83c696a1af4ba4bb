//! Rewrite rules between filenames and aliases, each a pair of patterns.
use vstd::prelude::*;
use crate::pattern::{compile, regex_replace_all_of, regex_valid, replace_all, CompiledRegex};

verus! {

#[derive(Clone, Debug, PartialEq, Eq)]
pub enum ReplacePairCompilationError {
    /// The 'from' pattern is not a valid regex
    FromError(String),
    /// The 'to' pattern is not a valid regex
    ToError(String),
}

/// A pattern to search for and the text that replaces each match;
/// the replacement may name capture groups of the search pattern.
#[derive(Debug)]
pub struct ReplacePair {
    from: CompiledRegex,
    to: CompiledRegex,
}

impl ReplacePair {
    pub closed spec fn from_spec(&self) -> Seq<char> {
        self.from@
    }

    pub closed spec fn to_spec(&self) -> Seq<char> {
        self.to@
    }

    /// Compiles both patterns; the search pattern is checked first.
    pub fn new(from: &str, to: &str) -> (r: Result<ReplacePair, ReplacePairCompilationError>)
        ensures
            !regex_valid(from@) ==> (r matches Err(ReplacePairCompilationError::FromError(p))
                && p@ == from@),
            regex_valid(from@) && !regex_valid(to@) ==> (r matches Err(
                ReplacePairCompilationError::ToError(p),
            ) && p@ == to@),
            regex_valid(from@) && regex_valid(to@) ==> (r matches Ok(pair) && pair.from_spec()
                == from@ && pair.to_spec() == to@),
    {
        let from_re = match compile(from) {
            Some(p) => p,
            None => return Err(ReplacePairCompilationError::FromError(from.to_string())),
        };
        let to_re = match compile(to) {
            Some(p) => p,
            None => return Err(ReplacePairCompilationError::ToError(to.to_string())),
        };
        Ok(ReplacePair { from: from_re, to: to_re })
    }

    /// Replaces every match of the search pattern in `input`.
    pub fn apply(&self, input: &str) -> (r: String)
        ensures
            r@ == regex_replace_all_of(self.from_spec(), input@, self.to_spec()),
    {
        replace_all(&self.from, input, self.to.as_str())
    }

    /// The two patterns, as text.
    pub fn patterns(&self) -> (r: (String, String))
        ensures
            r.0@ == self.from_spec(),
            r.1@ == self.to_spec(),
    {
        (self.from.as_str().to_string(), self.to.as_str().to_string())
    }
}

} // verus!
