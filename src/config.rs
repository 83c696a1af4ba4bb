//! The settings that a run reads, and their defaults.
use vstd::prelude::*;
use crate::pattern::views;
use crate::rules::ErrorCode;
use crate::sed::{ReplacePair, ReplacePairCompilationError};

verus! {

/// Everything a check or fix run reads.
#[derive(Debug)]
pub struct Config {
    /// The pages to analyse.
    pub files: Vec<String>,
    /// Where a fix creates missing pages.
    pub new_files_directory: String,
    /// Filenames yield n-grams of 1 to this many words.
    pub ngram_size: usize,
    /// Where filenames are cut into segments.
    pub boundary_pattern: String,
    /// What separates words within a filename segment.
    pub filename_spacing_pattern: String,
    /// Scores must exceed this for two n-grams to be similar.
    pub filename_match_threshold: i64,
    /// Reports whose id one of these glob patterns matches are dropped.
    pub exclude: Vec<ErrorCode>,
    pub filename_to_alias: ReplacePair,
    pub alias_to_filename: ReplacePair,
    pub fix: bool,
    pub allow_dirty: bool,
    /// N-gram pairs that are never reported as similar.
    pub ignore_word_pairs: Vec<(String, String)>,
    pub ignore_remaining: bool,
}

impl Config {
    /// A configuration for these pages with the default settings: new pages
    /// in `.`, n-grams of up to 2 words, boundary `___`, spacing `-|_|\s`,
    /// threshold 100, no excludes, `___` in a filename read as `/` in an
    /// alias and back.
    pub fn with_files(files: Vec<String>) -> (r: Result<Config, ReplacePairCompilationError>)
        ensures
            r matches Ok(c) ==> views(c.files@) == views(files@) && c.ngram_size == 2
                && c.filename_match_threshold == 100 && c.exclude@.len() == 0 && !c.fix,
    {
        let filename_to_alias = ReplacePair::new("___", "/")?;
        let alias_to_filename = ReplacePair::new("/", "___")?;
        Ok(Config {
            files,
            new_files_directory: String::from_str("."),
            ngram_size: 2,
            boundary_pattern: String::from_str("___"),
            filename_spacing_pattern: String::from_str("-|_|\\s"),
            filename_match_threshold: 100,
            exclude: Vec::new(),
            filename_to_alias,
            alias_to_filename,
            fix: false,
            allow_dirty: false,
            ignore_word_pairs: Vec::new(),
            ignore_remaining: false,
        })
    }

    pub fn files(&self) -> (r: &Vec<String>)
        ensures
            r == &self.files,
    {
        &self.files
    }

    /// Records a report's id as excluded, so that later runs drop it.
    pub fn add_report_to_ignore(&mut self, id: &ErrorCode)
        ensures
            final(self).exclude@.len() == old(self).exclude@.len() + 1,
            final(self).exclude@.last()@ == id@,
            final(self).exclude@.drop_last() == old(self).exclude@,
    {
        self.exclude.push(ErrorCode::new(id.as_str().to_string()));
    }
}

/// The directories searched when a configuration file names none.
pub fn directories() -> (r: Vec<String>)
    ensures
        r@.len() == 1,
        r@[0]@ == seq!['.'],
{
    let d = String::from_str(".");
    proof {
        reveal_strlit(".");
    }
    vec![d]
}

pub fn ngram_size() -> (r: usize)
    ensures
        r == 2,
{
    2
}

pub fn boundary_pattern() -> (r: String)
    ensures
        r@ == seq!['[', ',', '.', '/', '_', ']'],
{
    proof {
        reveal_strlit("[,./_]");
    }
    String::from_str("[,./_]")
}

pub fn filename_spacing_pattern() -> (r: String)
    ensures
        r@ == seq!['_', '_', '_', '|', '_', '_', '|', '-', '|', '_', '|', '\\', 's'],
{
    proof {
        reveal_strlit("___|__|-|_|\\s");
    }
    String::from_str("___|__|-|_|\\s")
}

pub fn filename_match_threshold() -> (r: i64)
    ensures
        r == 0,
{
    0
}

pub fn exclude() -> (r: Vec<String>)
    ensures
        r@.len() == 0,
{
    Vec::new()
}

/// Rewrites from a wikilink title to the path of its page: the link text
/// with `.md`, `/` made `___`, under `../pages/`.
pub fn title_to_filepath() -> (r: Result<Vec<Vec<ReplacePair>>, ReplacePairCompilationError>)
    ensures
        r matches Ok(v) ==> v@.len() == 1 && v@[0]@.len() == 3
            && v@[0]@[0].from_spec() == "\\[\\[(.*?)\\]\\]"@ && v@[0]@[0].to_spec() == "$1.md"@
            && v@[0]@[1].from_spec() == "/"@ && v@[0]@[1].to_spec() == "___"@
            && v@[0]@[2].from_spec() == "(.*)"@ && v@[0]@[2].to_spec() == "../pages/$1"@,
{
    let a = ReplacePair::new("\\[\\[(.*?)\\]\\]", "$1.md")?;
    let b = ReplacePair::new("/", "___")?;
    let c = ReplacePair::new("(.*)", "../pages/$1")?;
    Ok(vec![vec![a, b, c]])
}

/// Rewrites from the path of a page to its wikilink title.
pub fn filepath_to_title() -> (r: Result<Vec<Vec<ReplacePair>>, ReplacePairCompilationError>)
    ensures
        r matches Ok(v) ==> v@.len() == 1 && v@[0]@.len() == 2
            && v@[0]@[0].from_spec() == "([A-Za-z0-1_-]+).md"@ && v@[0]@[0].to_spec() == "\\[\\[$1\\]\\]"@
            && v@[0]@[1].from_spec() == "___"@ && v@[0]@[1].to_spec() == "/"@,
{
    let a = ReplacePair::new("([A-Za-z0-1_-]+).md", "\\[\\[$1\\]\\]")?;
    let b = ReplacePair::new("___", "/")?;
    Ok(vec![vec![a, b]])
}

} // verus!
