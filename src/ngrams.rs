//! Word n-grams of filenames, the unit that the similarity engine compares.
use vstd::prelude::*;
use crate::pattern::{regex_replace_all_of, regex_split_of, replace_all, split, views, CompiledRegex};
use crate::text::{chars_of, is_space, is_space_char, lower_of, lowercase, string_of};

verus! {

/// The one-word sequence `cur`, or nothing when `cur` is empty.
pub open spec fn flush(cur: Seq<char>) -> Seq<Seq<char>> {
    if cur.len() > 0 {
        seq![cur]
    } else {
        seq![]
    }
}

/// The words of `s` from index `i` on, where `cur` is the word read so far.
pub open spec fn words_scan(s: Seq<char>, i: int, cur: Seq<char>) -> Seq<Seq<char>>
    decreases s.len() - i,
{
    if i >= s.len() {
        flush(cur)
    } else if is_space(s[i]) {
        flush(cur) + words_scan(s, i + 1, seq![])
    } else {
        words_scan(s, i + 1, cur.push(s[i]))
    }
}

/// The maximal runs of non-space characters of `s`, in order.
pub open spec fn words_of(s: Seq<char>) -> Seq<Seq<char>> {
    words_scan(s, 0, seq![])
}

/// The words joined by single spaces.
pub open spec fn join_words(ws: Seq<Seq<char>>) -> Seq<char>
    decreases ws.len(),
{
    if ws.len() == 0 {
        seq![]
    } else if ws.len() == 1 {
        ws[0]
    } else {
        join_words(ws.drop_last()) + seq![' '] + ws.last()
    }
}

pub open spec fn lower_all(ws: Seq<Seq<char>>) -> Seq<Seq<char>> {
    ws.map_values(|w: Seq<char>| lower_of(w))
}

/// Length of the UTF-8 encoding of `s`.
pub open spec fn utf8_len(s: Seq<char>) -> usize {
    vstd::utf8::encode_utf8(s).len() as usize
}

/// Splits `s` into its words, as `str::split_whitespace` does.
pub fn split_whitespace(s: &str) -> (r: Vec<String>)
    ensures
        views(r@) == words_of(s@),
{
    let cs = chars_of(s);
    let mut out: Vec<String> = Vec::new();
    let mut cur: Vec<char> = Vec::new();
    let mut i: usize = 0;
    while i < cs.len()
        invariant
            cs@ == s@,
            i <= cs@.len(),
            views(out@) + words_scan(s@, i as int, cur@) == words_of(s@),
        decreases cs@.len() - i,
    {
        let c = cs[i];
        let ghost before = views(out@);
        if is_space_char(c) {
            if cur.len() > 0 {
                let w = string_of(cur.as_slice());
                out.push(w);
                assert(views(out@) =~= before.push(cur@));
                assert(before + (seq![cur@] + words_scan(s@, i + 1, seq![])) =~= before.push(
                    cur@,
                ) + words_scan(s@, i + 1, seq![]));
                cur = Vec::new();
            } else {
                assert(flush(cur@) =~= seq![]);
                assert(seq![] + words_scan(s@, i + 1, seq![]) =~= words_scan(
                    s@,
                    i + 1,
                    seq![],
                ));
                cur = Vec::new();
                assert(cur@ =~= seq![]);
            }
        } else {
            cur.push(c);
        }
        i += 1;
    }
    if cur.len() > 0 {
        let ghost before = views(out@);
        out.push(string_of(cur.as_slice()));
        assert(views(out@) =~= before + seq![cur@]);
    } else {
        assert(views(out@) + seq![] =~= views(out@));
    }
    out
}

/// A path was expected to contain an n-gram and does not.
#[derive(Clone, Debug, PartialEq, Eq)]
pub struct MissingSubstringError {
    pub path: String,
    pub ngram: String,
}

/// A word n-gram: lowercase words separated by single spaces.
#[derive(Clone, Debug, Eq, PartialEq, Hash, PartialOrd, Ord)]
pub struct Ngram(String);

impl View for Ngram {
    type V = Seq<char>;

    closed spec fn view(&self) -> Seq<char> {
        self.0@
    }
}

impl Ngram {
    /// The n-gram of these words, each lowercased.
    pub fn new(ngram: &[String]) -> (r: Ngram)
        ensures
            r@ == join_words(lower_all(views(ngram@))),
    {
        let ghost ws = lower_all(views(ngram@));
        let mut acc = String::new();
        let mut i: usize = 0;
        while i < ngram.len()
            invariant
                i <= ngram@.len(),
                ws == lower_all(views(ngram@)),
                acc@ == join_words(ws.take(i as int)),
            decreases ngram@.len() - i,
        {
            let w = lowercase(ngram[i].as_str());
            assert(ws.take(i + 1).drop_last() =~= ws.take(i as int));
            assert(ws[i as int] == w@);
            if i > 0 {
                acc.append(" ");
                proof {
                    reveal_strlit(" ");
                }
            } else {
                assert(ws.take(0) =~= seq![]);
            }
            acc.append(w.as_str());
            assert(acc@ =~= join_words(ws.take(i + 1)));
            i += 1;
        }
        assert(ws.take(ngram@.len() as int) =~= ws);
        Ngram(acc)
    }

    /// How many words the n-gram holds.
    pub fn nb_words(&self) -> (r: usize)
        ensures
            r == words_of(self@).len(),
    {
        split_whitespace(self.0.as_str()).len()
    }

    /// The words of the n-gram.
    pub fn to_vec(&self) -> (r: Vec<String>)
        ensures
            views(r@) == words_of(self@),
    {
        split_whitespace(self.0.as_str())
    }

    /// Length in bytes.
    pub fn len(&self) -> (r: usize)
        ensures
            r == utf8_len(self@),
    {
        self.0.as_str().len()
    }

    pub fn is_empty(&self) -> (r: bool)
        ensures
            r == (self@.len() == 0),
    {
        self.0.as_str().is_empty()
    }

    /// The n-gram whose text is `text`, as kept in an n-gram table.
    pub(crate) fn from_text(text: String) -> (r: Ngram)
        ensures
            r@ == text@,
    {
        Ngram(text)
    }

    /// A second n-gram with the same text.
    pub fn clone_ngram(&self) -> (r: Ngram)
        ensures
            r == *self,
            r@ == self@,
    {
        Ngram(self.0.clone())
    }

    /// The n-gram as text.
    pub fn as_str(&self) -> (r: &str)
        ensures
            r@ == self@,
    {
        self.0.as_str()
    }
}

pub open spec fn ngram_views(v: Seq<Ngram>) -> Seq<Seq<char>> {
    v.map_values(|g: Ngram| g@)
}

/// The runs of `k` consecutive words, in order.
pub open spec fn windows(ws: Seq<Seq<char>>, k: int) -> Seq<Seq<Seq<char>>> {
    if 0 < k <= ws.len() {
        Seq::new((ws.len() - k + 1) as nat, |i: int| ws.subrange(i, i + k))
    } else {
        seq![]
    }
}

pub open spec fn gram_texts(wins: Seq<Seq<Seq<char>>>) -> Seq<Seq<char>> {
    wins.map_values(|w: Seq<Seq<char>>| join_words(lower_all(w)))
}

/// The n-grams of 1 to `n` words: first those of one word, then of two, and so on.
pub open spec fn grams_up_to(ws: Seq<Seq<char>>, n: int) -> Seq<Seq<char>>
    decreases n,
{
    if n <= 0 {
        seq![]
    } else {
        grams_up_to(ws, n - 1) + gram_texts(windows(ws, n))
    }
}

/// The words of a segment once each spacing match is made a space.
pub open spec fn segment_words(segment: Seq<char>, spacing: Seq<char>) -> Seq<Seq<char>> {
    words_of(regex_replace_all_of(spacing, segment, seq![' ']))
}

pub open spec fn segments_grams(segments: Seq<Seq<char>>, n: int, spacing: Seq<char>) -> Seq<
    Seq<char>,
>
    decreases segments.len(),
{
    if segments.len() == 0 {
        seq![]
    } else {
        segments_grams(segments.drop_last(), n, spacing) + grams_up_to(
            segment_words(segments.last(), spacing),
            n,
        )
    }
}

/// The n-grams of `text`: it is cut into segments at each boundary match, and
/// each segment yields its n-grams of 1 to `n` words.
pub open spec fn up_to_n_spec(text: Seq<char>, n: int, boundary: Seq<char>, spacing: Seq<char>) -> Seq<
    Seq<char>,
> {
    segments_grams(regex_split_of(boundary, text), n, spacing)
}

proof fn lemma_grams_beyond(ws: Seq<Seq<char>>, m: int, n: int)
    requires
        0 <= m <= n,
        m >= ws.len(),
    ensures
        grams_up_to(ws, n) == grams_up_to(ws, m),
    decreases n - m,
{
    if n > m {
        lemma_grams_beyond(ws, m, n - 1);
        assert(windows(ws, n) =~= seq![]);
        assert(gram_texts(windows(ws, n)) =~= seq![]);
        assert(grams_up_to(ws, n) =~= grams_up_to(ws, n - 1));
    }
}

fn copy_range(words: &Vec<String>, from: usize, to: usize) -> (r: Vec<String>)
    requires
        from <= to <= words@.len(),
    ensures
        views(r@) == views(words@).subrange(from as int, to as int),
{
    let mut out: Vec<String> = Vec::new();
    let mut j: usize = from;
    while j < to
        invariant
            from <= j <= to,
            to <= words@.len(),
            views(out@) == views(words@).subrange(from as int, j as int),
        decreases to - j,
    {
        let w = words[j].clone();
        let ghost before = out@;
        out.push(w);
        assert(views(out@) =~= views(before).push(w@));
        assert(views(out@) =~= views(words@).subrange(from as int, j + 1));
        j += 1;
    }
    out
}

/// Gives the n-grams of 1 to `n` words of `text`, stopping at each boundary.
pub fn up_to_n(text: &str, n: usize, boundary_regex: &CompiledRegex, spacing_regex: &CompiledRegex) -> (r: Vec<
    Ngram,
>)
    ensures
        ngram_views(r@) == up_to_n_spec(text@, n as int, boundary_regex@, spacing_regex@),
{
    let segments = split(boundary_regex, text);
    let ghost segs = views(segments@);
    let mut out: Vec<Ngram> = Vec::new();
    let mut s: usize = 0;
    while s < segments.len()
        invariant
            s <= segments@.len(),
            segs == views(segments@),
            segs == regex_split_of(boundary_regex@, text@),
            ngram_views(out@) == segments_grams(segs.take(s as int), n as int, spacing_regex@),
        decreases segments@.len() - s,
    {
        let seg = replace_all(spacing_regex, segments[s].as_str(), " ");
        proof {
            reveal_strlit(" ");
        }
        assert(" "@ =~= seq![' ']);
        let words = split_whitespace(seg.as_str());
        let ghost ws = views(words@);
        let ghost prefix = ngram_views(out@);
        assert(ws == segment_words(segs[s as int], spacing_regex@));
        let mut k: usize = 0;
        while k < n && k < words.len()
            invariant
                k <= n,
                k <= words@.len(),
                ws == views(words@),
                ngram_views(out@) == prefix + grams_up_to(ws, k as int),
            decreases n - k,
        {
            let size: usize = k + 1;
            let mut i: usize = 0;
            let ghost base = ngram_views(out@);
            while i < words.len() - k
                invariant
                    size == k + 1,
                    size <= words@.len(),
                    k < words@.len(),
                    i <= words@.len() - k,
                    ws == views(words@),
                    ngram_views(out@) == base + gram_texts(windows(ws, size as int)).take(
                        i as int,
                    ),
                decreases words@.len() - k - i,
            {
                let piece = copy_range(&words, i, i + size);
                let g = Ngram::new(piece.as_slice());
                let ghost before = ngram_views(out@);
                out.push(g);
                assert(ngram_views(out@) =~= before.push(g@));
                assert(gram_texts(windows(ws, size as int)).take(i + 1) =~= gram_texts(
                    windows(ws, size as int),
                ).take(i as int).push(g@));
                i += 1;
            }
            assert(gram_texts(windows(ws, size as int)).take(i as int) =~= gram_texts(
                windows(ws, size as int),
            ));
            assert(prefix + grams_up_to(ws, size as int) =~= base + gram_texts(
                windows(ws, size as int),
            ));
            k += 1;
        }
        proof {
            if k < n {
                lemma_grams_beyond(ws, k as int, n as int);
            }
            assert(segs.take(s + 1).drop_last() =~= segs.take(s as int));
        }
        s += 1;
    }
    assert(segs.take(segments@.len() as int) =~= segs);
    out
}

} // verus!
