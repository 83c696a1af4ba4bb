//! Compiled regular expressions, as the configuration names them.
use vstd::prelude::*;

verus! {

#[verifier::external_type_specification]
#[verifier::external_body]
pub struct ExRegex(regex::Regex);

/// Whether `regex::Regex::new` accepts this pattern.
pub uninterp spec fn regex_valid(pattern: Seq<char>) -> bool;

/// The pieces that `regex::Regex::split` cuts `text` into.
pub uninterp spec fn regex_split_of(pattern: Seq<char>, text: Seq<char>) -> Seq<Seq<char>>;

/// What `regex::Regex::replace_all` makes of `text`.
pub uninterp spec fn regex_replace_all_of(
    pattern: Seq<char>,
    text: Seq<char>,
    replacement: Seq<char>,
) -> Seq<char>;

/// Whether `regex::Regex::is_match` finds the pattern in `text`.
pub uninterp spec fn regex_is_match_of(pattern: Seq<char>, text: Seq<char>) -> bool;

/// The characters that have a meaning in a regex.
pub open spec fn is_meta(c: char) -> bool {
    c == '\\' || c == '.' || c == '+' || c == '*' || c == '?' || c == '(' || c == ')' || c == '|' || c
        == '[' || c == ']' || c == '{' || c == '}' || c == '^' || c == '$' || c == '#' || c == '&' || c
        == '-' || c == '~'
}

/// `text` with a backslash before each meta character, as `regex::escape` writes it.
pub open spec fn regex_escape_of(text: Seq<char>) -> Seq<char>
    decreases text.len(),
{
    if text.len() == 0 {
        seq![]
    } else if is_meta(text.last()) {
        regex_escape_of(text.drop_last()) + seq!['\\', text.last()]
    } else {
        regex_escape_of(text.drop_last()) + seq![text.last()]
    }
}

/// A regular expression together with the text it was compiled from.
#[derive(Debug)]
pub struct CompiledRegex {
    source: String,
    re: regex::Regex,
}

impl View for CompiledRegex {
    type V = Seq<char>;

    closed spec fn view(&self) -> Seq<char> {
        self.source@
    }
}

pub open spec fn views(v: Seq<String>) -> Seq<Seq<char>> {
    v.map_values(|s: String| s@)
}

/// Relies on `regex::Regex::new`: it accepts the pattern or reports why not.
#[verifier::external_body]
pub(crate) fn compile(pattern: &str) -> (r: Option<CompiledRegex>)
    ensures
        r.is_some() == regex_valid(pattern@),
        r matches Some(p) ==> p@ == pattern@,
{
    match regex::Regex::new(pattern) {
        Ok(re) => Some(CompiledRegex { source: pattern.to_string(), re }),
        Err(_) => None,
    }
}

impl CompiledRegex {
    /// Compiles `pattern`; none when it is not a valid regex.
    pub fn new(pattern: &str) -> (r: Option<CompiledRegex>)
        ensures
            r.is_some() == regex_valid(pattern@),
            r matches Some(p) ==> p@ == pattern@,
    {
        compile(pattern)
    }

    pub fn as_str(&self) -> (r: &str)
        ensures
            r@ == self@,
    {
        self.source.as_str()
    }
}

/// Relies on `regex::Regex::split`: the pieces of `text` between matches.
#[verifier::external_body]
pub(crate) fn split(p: &CompiledRegex, text: &str) -> (r: Vec<String>)
    ensures
        views(r@) == regex_split_of(p@, text@),
{
    p.re.split(text).map(|s| s.to_string()).collect()
}

/// Relies on `regex::Regex::replace_all`: every match replaced by `replacement`.
#[verifier::external_body]
pub(crate) fn replace_all(p: &CompiledRegex, text: &str, replacement: &str) -> (r: String)
    ensures
        r@ == regex_replace_all_of(p@, text@, replacement@),
{
    p.re.replace_all(text, replacement).to_string()
}

/// Relies on `regex::Regex::is_match`: whether the pattern matches somewhere in `text`.
#[verifier::external_body]
pub(crate) fn is_match(p: &CompiledRegex, text: &str) -> (r: bool)
    ensures
        r == regex_is_match_of(p@, text@),
{
    p.re.is_match(text)
}

/// Relies on `regex::escape` (regex-syntax `escape_into`): a backslash before
/// each meta character, every character kept in order.
#[verifier::external_body]
pub(crate) fn escape(text: &str) -> (r: String)
    ensures
        r@ == regex_escape_of(text@),
{
    regex::escape(text)
}

} // verus!
