//! Filenames, as the rules see them: no directory, no extension.
use vstd::prelude::*;
use crate::ngrams::{ngram_views, up_to_n, up_to_n_spec};
use crate::pattern::CompiledRegex;
use crate::strmap::{str_map_entries, StrMap};
use crate::text::{chars_of, lower_of, lowercase, string_of};

verus! {

/// Where the last `/`-separated component of `p[..i]` starts.
pub open spec fn component_start(p: Seq<char>, i: int) -> int
    decreases i,
{
    if i <= 0 {
        0
    } else if p[i - 1] == '/' {
        i
    } else {
        component_start(p, i - 1)
    }
}

/// The first `.` at or after `i`, or the end of `p`.
pub open spec fn dot_end(p: Seq<char>, i: int) -> int
    decreases p.len() - i,
{
    if i >= p.len() || p[i] == '.' {
        i
    } else {
        dot_end(p, i + 1)
    }
}

/// The last component of the path, up to its first `.`.
pub open spec fn filename_of(p: Seq<char>) -> Seq<char> {
    let start = component_start(p, p.len() as int);
    p.subrange(start, dot_end(p, start))
}

proof fn lemma_component_start_bounds(p: Seq<char>, i: int)
    requires
        0 <= i <= p.len(),
    ensures
        0 <= component_start(p, i) <= i,
    decreases i,
{
    if i > 0 && p[i - 1] != '/' {
        lemma_component_start_bounds(p, i - 1);
    }
}

proof fn lemma_dot_end_bounds(p: Seq<char>, i: int)
    requires
        0 <= i <= p.len(),
    ensures
        i <= dot_end(p, i) <= p.len(),
    decreases p.len() - i,
{
    if i < p.len() && p[i] != '.' {
        lemma_dot_end_bounds(p, i + 1);
    }
}

/// A file name in its original casing and with its original separators,
/// but without its extension and its directory: `asdf/Foo___Bar.md` gives
/// `Foo___Bar`.
#[derive(Clone, Debug, Eq, PartialEq, Hash, PartialOrd, Ord)]
pub struct Filename(String);

impl View for Filename {
    type V = Seq<char>;

    closed spec fn view(&self) -> Seq<char> {
        self.0@
    }
}

impl Filename {
    pub fn new(filename: &str) -> (r: Filename)
        ensures
            r@ == filename@,
    {
        Filename(filename.to_string())
    }

    /// A second filename with the same text.
    pub fn clone_name(&self) -> (r: Filename)
        ensures
            r == *self,
    {
        Filename(self.0.clone())
    }

    pub fn lowercase(&self) -> (r: FilenameLowercase)
        ensures
            r@ == lower_of(self@),
    {
        FilenameLowercase::new(self.0.as_str())
    }

    pub fn as_str(&self) -> (r: &str)
        ensures
            r@ == self@,
    {
        self.0.as_str()
    }
}

/// A [`Filename`] known only in lowercase.
#[derive(Clone, Debug, Eq, PartialEq, Hash, PartialOrd, Ord)]
pub struct FilenameLowercase(String);

impl View for FilenameLowercase {
    type V = Seq<char>;

    closed spec fn view(&self) -> Seq<char> {
        self.0@
    }
}

impl FilenameLowercase {
    pub fn new(filename: &str) -> (r: FilenameLowercase)
        ensures
            r@ == lower_of(filename@),
    {
        FilenameLowercase(lowercase(filename))
    }

    pub fn as_str(&self) -> (r: &str)
        ensures
            r@ == self@,
    {
        self.0.as_str()
    }
}

/// The name of the file at `path`, without directory and extension. A path
/// with no file name (empty, or ending in `/`) gives the empty name.
pub fn get_filename(path: &str) -> (r: Filename)
    ensures
        r@ == filename_of(path@),
        path@.len() == 0 || path@.last() == '/' ==> r@.len() == 0,
{
    let cs = chars_of(path);
    let ghost p = path@;
    let mut start: usize = cs.len();
    while start > 0 && cs[start - 1] != '/'
        invariant
            cs@ == p,
            start <= cs@.len(),
            component_start(p, start as int) == component_start(p, p.len() as int),
        decreases start,
    {
        start -= 1;
    }
    let mut end: usize = start;
    while end < cs.len() && cs[end] != '.'
        invariant
            cs@ == p,
            start <= end <= cs@.len(),
            dot_end(p, end as int) == dot_end(p, start as int),
        decreases cs@.len() - end,
    {
        end += 1;
    }
    let mut piece: Vec<char> = Vec::new();
    let mut i: usize = start;
    while i < end
        invariant
            cs@ == p,
            start <= i <= end,
            end <= cs@.len(),
            piece@ == p.subrange(start as int, i as int),
        decreases end - i,
    {
        piece.push(cs[i]);
        assert(piece@ =~= p.subrange(start as int, i + 1));
        i += 1;
    }
    Filename(string_of(piece.as_slice()))
}

/// The table after each n-gram of `grams` is made to point at `path`, in order.
pub open spec fn insert_all(m: Map<Seq<char>, Seq<char>>, grams: Seq<Seq<char>>, path: Seq<char>) -> Map<
    Seq<char>,
    Seq<char>,
>
    decreases grams.len(),
{
    if grams.len() == 0 {
        m
    } else {
        insert_all(m, grams.drop_last(), path).insert(grams.last(), path)
    }
}

/// Every n-gram of every file's name, mapped to the last file in `files` that has it.
pub open spec fn ngram_table(
    files: Seq<Seq<char>>,
    n: int,
    boundary: Seq<char>,
    spacing: Seq<char>,
) -> Map<Seq<char>, Seq<char>>
    decreases files.len(),
{
    if files.len() == 0 {
        Map::empty()
    } else {
        insert_all(
            ngram_table(files.drop_last(), n, boundary, spacing),
            up_to_n_spec(filename_of(files.last()), n, boundary, spacing),
            files.last(),
        )
    }
}

/// The n-grams of the names of `files`, each mapped to the path of a file that has it.
pub fn ngrams(files: &Vec<String>, ngram_size: usize, boundary_regex: &CompiledRegex, filename_spacing_regex: &CompiledRegex) -> (r: StrMap)
    ensures
        str_map_entries(r) == ngram_table(
            crate::pattern::views(files@),
            ngram_size as int,
            boundary_regex@,
            filename_spacing_regex@,
        ),
{
    let ghost fs = crate::pattern::views(files@);
    let mut table = StrMap::new();
    let mut f: usize = 0;
    while f < files.len()
        invariant
            f <= files@.len(),
            fs == crate::pattern::views(files@),
            table@ == ngram_table(fs.take(f as int), ngram_size as int, boundary_regex@, filename_spacing_regex@),
        decreases files@.len() - f,
    {
        let filename = get_filename(files[f].as_str());
        let grams = up_to_n(filename.as_str(), ngram_size, boundary_regex, filename_spacing_regex);
        let ghost gs = ngram_views(grams@);
        let ghost base = table@;
        let mut g: usize = 0;
        while g < grams.len()
            invariant
                g <= grams@.len(),
                f < files@.len(),
                gs == ngram_views(grams@),
                table@ == insert_all(base, gs.take(g as int), files@[f as int]@),
            decreases grams@.len() - g,
        {
            table.insert(grams[g].as_str().to_string(), files[f].clone());
            assert(gs.take(g + 1).drop_last() =~= gs.take(g as int));
            g += 1;
        }
        assert(gs.take(grams@.len() as int) =~= gs);
        assert(fs.take(f + 1).drop_last() =~= fs.take(f as int));
        f += 1;
    }
    assert(fs.take(files@.len() as int) =~= fs);
    table
}

} // verus!
