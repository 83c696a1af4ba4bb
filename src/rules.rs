//! Reports, their identities, and the exclude and dedup step that every
//! rule's reports go through before they are shown.
use vstd::prelude::*;
use vstd::multiset::Multiset;
use crate::name::Filename;
use crate::ngrams::Ngram;
use crate::text::{lower_of, lowercase, same_text};
use crate::wikilink::Alias;

pub mod broken_wikilink;
pub mod duplicate_alias;
pub mod similar_filename;
pub mod unlinked_text;

verus! {

#[verifier::external_type_specification]
#[verifier::external_body]
pub struct ExGlobPattern(glob::Pattern);

/// Whether `glob::Pattern::new` accepts this pattern.
pub uninterp spec fn glob_valid(pattern: Seq<char>) -> bool;

/// Whether `glob::Pattern::matches` accepts `text` under this pattern.
pub uninterp spec fn glob_matches_of(pattern: Seq<char>, text: Seq<char>) -> bool;

/// A glob pattern together with the text it was compiled from.
struct GlobPattern {
    source: String,
    pat: glob::Pattern,
}

/// Relies on `glob::Pattern::new`: it accepts the pattern or reports why not.
#[verifier::external_body]
fn glob_compile(pattern: &str) -> (r: Option<GlobPattern>)
    ensures
        r.is_some() == glob_valid(pattern@),
        r matches Some(p) ==> p.source@ == pattern@,
{
    match glob::Pattern::new(pattern) {
        Ok(pat) => Some(GlobPattern { source: pattern.to_string(), pat }),
        Err(_) => None,
    }
}

/// Relies on `glob::Pattern::matches`: whether the whole of `text` matches.
#[verifier::external_body]
fn glob_matches(p: &GlobPattern, text: &str) -> (r: bool)
    ensures
        r == glob_matches_of(p.source@, text@),
{
    p.pat.matches(text)
}

/// The identity of one violation, usually like `rule::scope::detail`.
/// Compared case-insensitively when excluding and deduplicating.
#[derive(Clone, Debug, PartialEq, Eq, PartialOrd, Ord)]
pub struct ErrorCode(pub String);

impl View for ErrorCode {
    type V = Seq<char>;

    open spec fn view(&self) -> Seq<char> {
        self.0@
    }
}

impl ErrorCode {
    pub fn new(code: String) -> (r: ErrorCode)
        ensures
            r@ == code@,
    {
        ErrorCode(code)
    }

    pub fn as_str(&self) -> (r: &str)
        ensures
            r@ == self@,
    {
        self.0.as_str()
    }
}

pub open spec fn code_views(codes: Seq<ErrorCode>) -> Seq<Seq<char>> {
    codes.map_values(|c: ErrorCode| c@)
}

/// A byte range in a source text.
#[derive(Clone, Copy, Debug, PartialEq, Eq, Structural)]
pub struct Span {
    pub offset: usize,
    pub len: usize,
}

/// A source text and the name it is shown under.
#[derive(Clone, Debug, PartialEq, Eq)]
pub struct NamedSource {
    pub name: String,
    pub content: String,
}

/// Two filenames share a similar n-gram.
#[derive(Clone, Debug)]
pub struct SimilarFilename {
    pub id: ErrorCode,
    pub file1_ngram: Ngram,
    pub file2_ngram: Ngram,
    pub score: i64,
    /// The two lowercased paths, one per line.
    pub filepaths: String,
    pub file1_ngram_span: Span,
    pub file2_ngram_span: Span,
    pub advice: String,
}

/// The side of a duplicate told from the other file.
#[derive(Clone, Debug)]
pub struct RelatedDuplicate {
    pub id: ErrorCode,
    /// The file that the first side names.
    pub other_filename: Filename,
    pub src: NamedSource,
    pub alias: Span,
}

/// An alias is claimed twice.
#[derive(Clone, Debug)]
pub enum DuplicateAlias {
    /// A file declares an alias that is another file's name.
    FileNameContentDuplicate {
        id: ErrorCode,
        /// The file whose name the alias repeats.
        other_filename: Filename,
        /// The file that declares the alias.
        src: NamedSource,
        /// Where the alias stands in `src`.
        alias: Span,
        advice: String,
    },
    /// Two files declare the same alias.
    FileContentContentDuplicate {
        id: ErrorCode,
        /// The other file that declares the alias.
        other_filename: Filename,
        src: NamedSource,
        alias: Span,
        /// The same report, told from the other file.
        other: Vec<RelatedDuplicate>,
    },
}

impl DuplicateAlias {
    pub open spec fn id_view(&self) -> Seq<char> {
        match self {
            DuplicateAlias::FileNameContentDuplicate { id, .. } => id@,
            DuplicateAlias::FileContentContentDuplicate { id, .. } => id@,
        }
    }

    pub fn id(&self) -> (r: &ErrorCode)
        ensures
            r@ == self.id_view(),
    {
        match self {
            DuplicateAlias::FileNameContentDuplicate { id, .. } => id,
            DuplicateAlias::FileContentContentDuplicate { id, .. } => id,
        }
    }

    /// Where the alias stands in the report's source.
    pub fn alias_span(&self) -> (r: Span)
        ensures
            r == match self {
                DuplicateAlias::FileNameContentDuplicate { alias, .. } => *alias,
                DuplicateAlias::FileContentContentDuplicate { alias, .. } => *alias,
            },
    {
        match self {
            DuplicateAlias::FileNameContentDuplicate { alias, .. } => *alias,
            DuplicateAlias::FileContentContentDuplicate { alias, .. } => *alias,
        }
    }
}

/// A wikilink or tag whose alias no page owns.
#[derive(Clone, Debug)]
pub struct BrokenWikilink {
    pub id: ErrorCode,
    pub alias: Alias,
    pub src: NamedSource,
    pub wikilink: Span,
    pub advice: String,
}

/// Plain text that matches an alias and could be a wikilink.
#[derive(Clone, Debug)]
pub struct UnlinkedText {
    pub id: ErrorCode,
    pub alias: Alias,
    pub src: NamedSource,
    pub span: Span,
    pub advice: String,
}

/// The reports of the rules that run once the alias table is complete.
#[derive(Clone, Debug)]
pub enum ThirdPassReport {
    BrokenWikilink(BrokenWikilink),
    UnlinkedText(UnlinkedText),
}

/// One rule violation.
#[derive(Clone, Debug)]
pub enum Report {
    SimilarFilename(SimilarFilename),
    DuplicateAlias(DuplicateAlias),
    ThirdPass(ThirdPassReport),
}

impl Report {
    pub open spec fn id_view(&self) -> Seq<char> {
        match self {
            Report::SimilarFilename(x) => x.id@,
            Report::DuplicateAlias(x) => x.id_view(),
            Report::ThirdPass(ThirdPassReport::BrokenWikilink(x)) => x.id@,
            Report::ThirdPass(ThirdPassReport::UnlinkedText(x)) => x.id@,
        }
    }

    /// The value reports are ordered by, highest first: the score of a
    /// similar-filename report, and the same for every other report.
    pub open spec fn rank_spec(&self) -> i64 {
        match self {
            Report::SimilarFilename(x) => x.score,
            _ => 0,
        }
    }

    pub fn id(&self) -> (r: &ErrorCode)
        ensures
            r@ == self.id_view(),
    {
        match self {
            Report::SimilarFilename(x) => &x.id,
            Report::DuplicateAlias(x) => x.id(),
            Report::ThirdPass(ThirdPassReport::BrokenWikilink(x)) => &x.id,
            Report::ThirdPass(ThirdPassReport::UnlinkedText(x)) => &x.id,
        }
    }

    pub fn rank(&self) -> (r: i64)
        ensures
            r == self.rank_spec(),
    {
        match self {
            Report::SimilarFilename(x) => x.score,
            _ => 0,
        }
    }
}

#[verifier::opaque]
pub open spec fn lower_id(r: Report) -> Seq<char> {
    lower_of(r.id_view())
}

/// The exclude pattern, lowercased, matches the lowercased id; a pattern
/// that glob cannot parse matches nothing.
pub open spec fn exclude_hits(exclude: Seq<char>, id: Seq<char>) -> bool {
    glob_valid(lower_of(exclude)) && glob_matches_of(lower_of(exclude), lower_of(id))
}

pub open spec fn excluded(id: Seq<char>, excludes: Seq<Seq<char>>) -> bool {
    exists|i: int| 0 <= i < excludes.len() && #[trigger] exclude_hits(excludes[i], id)
}

/// The reports that no exclude pattern matches, in their order.
pub open spec fn keep_unexcluded(s: Seq<Report>, excludes: Seq<Seq<char>>) -> Seq<Report>
    decreases s.len(),
{
    if s.len() == 0 {
        s
    } else {
        let rest = keep_unexcluded(s.drop_last(), excludes);
        if excluded(s.last().id_view(), excludes) {
            rest
        } else {
            rest.push(s.last())
        }
    }
}

/// Whether some exclude pattern matches `id`.
pub fn is_excluded(id: &str, excludes: &[ErrorCode]) -> (r: bool)
    ensures
        r == excluded(id@, code_views(excludes@)),
{
    let ghost ex = code_views(excludes@);
    let lid = lowercase(id);
    let mut i: usize = 0;
    while i < excludes.len()
        invariant
            i <= excludes@.len(),
            ex == code_views(excludes@),
            lid@ == lower_of(id@),
            forall|j: int| 0 <= j < i ==> !#[trigger] exclude_hits(ex[j], id@),
        decreases excludes@.len() - i,
    {
        let le = lowercase(excludes[i].as_str());
        match glob_compile(le.as_str()) {
            Some(p) => {
                if glob_matches(&p, lid.as_str()) {
                    assert(exclude_hits(ex[i as int], id@));
                    return true;
                }
            },
            None => {},
        }
        i += 1;
    }
    false
}

/// The same items in the opposite order.
fn reversed<T>(v: Vec<T>) -> (r: Vec<T>)
    ensures
        r@.len() == v@.len(),
        forall|i: int| 0 <= i < v@.len() ==> r@[i] == v@[v@.len() - 1 - i],
{
    let ghost orig = v@;
    let mut v = v;
    let mut out: Vec<T> = Vec::new();
    while v.len() > 0
        invariant
            v@ == orig.take(v@.len() as int),
            v@.len() <= orig.len(),
            out@.len() == orig.len() - v@.len(),
            forall|i: int| 0 <= i < out@.len() ==> out@[i] == orig[orig.len() - 1 - i],
        decreases v@.len(),
    {
        let x = v.pop().unwrap();
        out.push(x);
        assert(v@ =~= orig.take(v@.len() as int));
    }
    out
}

/// Drops every report whose id an exclude pattern matches.
pub fn filter_by_excludes(reports: Vec<Report>, excludes: &[ErrorCode]) -> (r: Vec<Report>)
    ensures
        r@ == keep_unexcluded(reports@, code_views(excludes@)),
{
    let ghost orig = reports@;
    let ghost ex = code_views(excludes@);
    let n = reports.len();
    let mut rev = reversed(reports);
    let mut out: Vec<Report> = Vec::new();
    while rev.len() > 0
        invariant
            rev@.len() <= n,
            n == orig.len(),
            forall|i: int| 0 <= i < rev@.len() ==> rev@[i] == orig[n - 1 - i],
            ex == code_views(excludes@),
            out@ == keep_unexcluded(orig.take(n - rev@.len()), ex),
        decreases rev@.len(),
    {
        let ghost k = n - rev@.len();
        let x = rev.pop().unwrap();
        assert(x == orig[k]);
        assert(orig.take(k + 1).drop_last() =~= orig.take(k));
        assert(orig.take(k + 1).last() == x);
        if !is_excluded(x.id().as_str(), excludes) {
            out.push(x);
        }
    }
    assert(orig.take(n as int) =~= orig);
    out
}

pub open spec fn sorted_by_rank(s: Seq<Report>) -> bool {
    forall|i: int, j: int| 0 <= i < j < s.len() ==> s[i].rank_spec() >= s[j].rank_spec()
}

/// Orders the reports by rank, highest first.
fn sort_by_rank(reports: Vec<Report>) -> (r: Vec<Report>)
    ensures
        r@.to_multiset() == reports@.to_multiset(),
        sorted_by_rank(r@),
{
    broadcast use vstd::seq_lib::group_to_multiset_ensures, vstd::multiset::group_multiset_axioms;

    let ghost orig = reports@;
    let mut rest = reports;
    let mut out: Vec<Report> = Vec::new();
    assert(out@.to_multiset() =~= Multiset::empty());
    assert(out@.to_multiset().add(rest@.to_multiset()) =~= orig.to_multiset());
    while rest.len() > 0
        invariant
            out@.to_multiset().add(rest@.to_multiset()) == orig.to_multiset(),
            sorted_by_rank(out@),
        decreases rest@.len(),
    {
        let ghost before = rest@;
        let x = rest.pop().unwrap();
        assert(before =~= rest@.push(x));
        let key = x.rank();
        let mut p: usize = 0;
        while p < out.len() && out[p].rank() > key
            invariant
                p <= out@.len(),
                forall|i: int| 0 <= i < p ==> out@[i].rank_spec() > key,
            decreases out@.len() - p,
        {
            p += 1;
        }
        let ghost old_out = out@;
        out.insert(p, x);
        proof {
            old_out.insert_ensures(p as int, x);
            vstd::seq_lib::to_multiset_insert(old_out, p as int, x);
            vstd::seq_lib::to_multiset_build(rest@, x);
            assert(out@.to_multiset() =~= old_out.to_multiset().insert(x));
            assert(before.to_multiset() =~= rest@.to_multiset().insert(x));
            assert(out@.to_multiset().add(rest@.to_multiset()) =~= old_out.to_multiset().add(
                before.to_multiset(),
            ));
            assert forall|i: int, j: int| 0 <= i < j < out@.len() implies out@[i].rank_spec()
                >= out@[j].rank_spec() by {
                if j < p {
                } else if j == p {
                } else if i < p {
                    assert(out@[j] == old_out[j - 1]);
                } else if i == p {
                    assert(out@[j] == old_out[j - 1]);
                } else {
                    assert(out@[j] == old_out[j - 1]);
                    assert(out@[i] == old_out[i - 1]);
                }
            }
        }
    }
    assert(rest@.to_multiset() =~= Multiset::empty());
    assert(out@.to_multiset() =~= out@.to_multiset().add(rest@.to_multiset()));
    out
}

/// What the exclude and dedup step promises of its output `r`, given the
/// reports `f` that no exclude pattern matches: each report of `r` is one of
/// `f`; each lowercased id of `f` appears in `r` exactly once, on a report
/// ranked at least as high as every report of `f` with that id; and `r` is
/// ordered by rank, highest first.
/// Some report of `r` has this lowercased id.
pub open spec fn has_id(r: Seq<Report>, id: Seq<char>) -> bool {
    exists|i: int| 0 <= i < r.len() && lower_id(r[i]) == id
}

/// Some report of `r`, taken from a position at most `q`, has this lowercased id.
pub open spec fn has_id_by(r: Seq<Report>, pos: Seq<int>, id: Seq<char>, q: int) -> bool {
    exists|i: int| 0 <= i < r.len() && lower_id(r[i]) == id && pos[i] <= q
}

pub open spec fn deduped_from(r: Seq<Report>, f: Seq<Report>) -> bool {
    &&& (forall|i: int| #![trigger r[i]] 0 <= i < r.len() ==> f.contains(r[i]))
    &&& (forall|j: int| #![trigger f[j]] 0 <= j < f.len() ==> has_id(r, lower_id(f[j])))
    &&& (forall|i: int, k: int|
        #![trigger r[i], r[k]]
        0 <= i < k < r.len() ==> lower_id(r[i]) != lower_id(r[k]))
    &&& (forall|i: int, j: int|
        #![trigger r[i], f[j]]
        0 <= i < r.len() && 0 <= j < f.len() && lower_id(r[i]) == lower_id(f[j]) ==> r[i].rank_spec()
            >= f[j].rank_spec())
    &&& sorted_by_rank(r)
}

/// Whether one of `keys` holds the text `key`.
fn holds_text(keys: &Vec<String>, key: &str) -> (r: bool)
    ensures
        r == exists|t: int| 0 <= t < keys@.len() && keys@[t]@ == key@,
{
    let mut j: usize = 0;
    while j < keys.len()
        invariant
            j <= keys@.len(),
            forall|t: int| 0 <= t < j ==> keys@[t]@ != key@,
        decreases keys@.len() - j,
    {
        if same_text(keys[j].as_str(), key) {
            return true;
        }
        j += 1;
    }
    false
}

proof fn lemma_first_of_each(out: Seq<Report>, orig: Seq<Report>, pos: Seq<int>)
    requires
        sorted_by_rank(orig),
        pos.len() == out.len(),
        forall|i: int| 0 <= i < out.len() ==> 0 <= #[trigger] pos[i] < orig.len() && out[i] == orig[pos[i]],
        forall|i: int, k: int| 0 <= i < k < out.len() ==> pos[i] < pos[k],
        forall|i: int, k: int|
            #![trigger out[i], out[k]]
            0 <= i < k < out.len() ==> lower_id(out[i]) != lower_id(out[k]),
        forall|q: int|
            #![trigger orig[q]]
            0 <= q < orig.len() ==> has_id_by(out, pos, lower_id(orig[q]), q),
    ensures
        deduped_from(out, orig),
{
        assert forall|i: int, j: int|
            0 <= i < out.len() && 0 <= j < orig.len() && lower_id(out[i]) == lower_id(
                orig[j],
            ) implies out[i].rank_spec() >= orig[j].rank_spec() by {
            assert(has_id_by(out, pos, lower_id(orig[j]), j));
            let i2 = choose|i2: int|
                0 <= i2 < out.len() && lower_id(out[i2]) == lower_id(orig[j]) && pos[i2] <= j;
            if i2 != i {
                if i2 < i {
                    assert(lower_id(out[i2]) != lower_id(out[i]));
                } else {
                    assert(lower_id(out[i]) != lower_id(out[i2]));
                }
            }
            if pos[i] < j {
                assert(orig[pos[i]].rank_spec() >= orig[j].rank_spec());
            }
        }
        assert forall|i: int| 0 <= i < out.len() implies orig.contains(#[trigger] out[i]) by {
            assert(orig[pos[i]] == out[i]);
        }
        assert forall|j: int| #![trigger orig[j]] 0 <= j < orig.len() implies has_id(
            out,
            lower_id(orig[j]),
        ) by {
            assert(has_id_by(out, pos, lower_id(orig[j]), j));
            let i = choose|i: int|
                0 <= i < out.len() && lower_id(out[i]) == lower_id(orig[j]) && pos[i] <= j;
            assert(0 <= i < out.len() && lower_id(out[i]) == lower_id(orig[j]));
        }
        assert forall|i: int, t: int| 0 <= i < t < out.len() implies out[i].rank_spec()
            >= out[t].rank_spec() by {
            assert(orig[pos[i]].rank_spec() >= orig[pos[t]].rank_spec());
        }
    }

/// Keeps the first report of each lowercased id.
#[verifier::rlimit(40)]
fn keep_first_of_each_id(sorted: Vec<Report>) -> (r: Vec<Report>)
    requires
        sorted_by_rank(sorted@),
    ensures
        deduped_from(r@, sorted@),
{
    let ghost orig = sorted@;
    let n = sorted.len();
    let mut rev = reversed(sorted);
    let mut out: Vec<Report> = Vec::new();
    let mut keys: Vec<String> = Vec::new();
    let ghost mut pos: Seq<int> = seq![];
    while rev.len() > 0
        invariant
            n == orig.len(),
            sorted_by_rank(orig),
            rev@.len() <= n,
            forall|i: int| 0 <= i < rev@.len() ==> rev@[i] == orig[n - 1 - i],
            keys@.len() == out@.len(),
            pos.len() == out@.len(),
            forall|i: int| 0 <= i < out@.len() ==> #[trigger] keys@[i]@ == lower_id(out@[i]),
            forall|i: int|
                0 <= i < out@.len() ==> 0 <= #[trigger] pos[i] < n - rev@.len() && out@[i]
                    == orig[pos[i]],
            forall|i: int, k: int| 0 <= i < k < out@.len() ==> pos[i] < pos[k],
            forall|i: int, k: int|
                #![trigger out@[i], out@[k]]
                0 <= i < k < out@.len() ==> lower_id(out@[i]) != lower_id(out@[k]),
            forall|q: int|
                #![trigger orig[q]]
                0 <= q < n - rev@.len() ==> has_id_by(out@, pos, lower_id(orig[q]), q),
        decreases rev@.len(),
    {
        let ghost k = n - rev@.len();
        let x = rev.pop().unwrap();
        assert(x == orig[k]);
        let lid = lowercase(x.id().as_str());
        proof {
            reveal(lower_id);
        }
        assert(lid@ == lower_id(x));
        let seen = holds_text(&keys, lid.as_str());
        if seen {
            let ghost t = choose|t: int| 0 <= t < keys@.len() && keys@[t]@ == lid@;
            assert(lower_id(out@[t]) == lower_id(orig[k]) && pos[t] <= k);
            assert(has_id_by(out@, pos, lower_id(orig[k as int]), k));
        } else {
            let ghost old_out = out@;
            let ghost old_keys = keys@;
            out.push(x);
            keys.push(lid);
            let ghost old_pos = pos;
            proof {
                pos = pos.push(k);
                assert forall|i: int| 0 <= i < out@.len() implies #[trigger] keys@[i]@ == lower_id(
                    out@[i],
                ) by {
                    if i < old_out.len() {
                        assert(keys@[i] == old_keys[i]);
                        assert(out@[i] == old_out[i]);
                    }
                }
                assert forall|i: int, t: int|
                    #![trigger out@[i], out@[t]]
                    0 <= i < t < out@.len() implies lower_id(out@[i]) != lower_id(out@[t]) by {
                    if t == old_out.len() {
                        assert(keys@[i]@ != lid@);
                    } else {
                        assert(out@[i] == old_out[i]);
                        assert(out@[t] == old_out[t]);
                    }
                }
                assert forall|q: int|
                    #![trigger orig[q]]
                    0 <= q < n - rev@.len() implies has_id_by(out@, pos, lower_id(orig[q]), q) by {
                    if q < k {
                        let i = choose|i: int|
                            0 <= i < old_out.len() && lower_id(old_out[i]) == lower_id(orig[q])
                                && old_pos[i] <= q;
                        assert(out@[i] == old_out[i]);
                        assert(pos[i] == old_pos[i]);
                    } else {
                        let i = old_out.len() as int;
                        assert(out@[i] == orig[q]);
                        assert(pos[i] == q);
                    }
                }
            }
        }
    }
    proof {
        assert(n - rev@.len() == orig.len());
        lemma_first_of_each(out@, orig, pos);
    }
    out
}

#[verifier::rlimit(40)]
proof fn lemma_deduped_same_members(r: Seq<Report>, s: Seq<Report>, f: Seq<Report>)
    requires
        deduped_from(r, s),
        forall|x: Report| #![trigger s.contains(x)] #![trigger f.contains(x)] s.contains(x) <==> f.contains(x),
    ensures
        deduped_from(r, f),
{
    assert forall|j: int| #![trigger f[j]] 0 <= j < f.len() implies has_id(r, lower_id(f[j])) by {
        assert(f.contains(f[j]));
        let q = choose|q: int| 0 <= q < s.len() && s[q] == f[j];
        assert(has_id(r, lower_id(s[q])));
    }
    assert forall|i: int, j: int|
        0 <= i < r.len() && 0 <= j < f.len() && lower_id(r[i]) == lower_id(
            f[j],
        ) implies r[i].rank_spec() >= f[j].rank_spec() by {
        assert(f.contains(f[j]));
        let q = choose|q: int| 0 <= q < s.len() && s[q] == f[j];
    }
    assert forall|i: int| 0 <= i < r.len() implies f.contains(#[trigger] r[i]) by {
        assert(s.contains(r[i]));
    }
    assert forall|i: int, k: int|
        #![trigger r[i], r[k]]
        0 <= i < k < r.len() implies lower_id(r[i]) != lower_id(r[k]) by {}
}

proof fn lemma_kept_unexcluded(s: Seq<Report>, excludes: Seq<Seq<char>>)
    ensures
        forall|x: Report|
            #[trigger] keep_unexcluded(s, excludes).contains(x) ==> s.contains(x) && !excluded(
                x.id_view(),
                excludes,
            ),
    decreases s.len(),
{
    if s.len() > 0 {
        lemma_kept_unexcluded(s.drop_last(), excludes);
        let rest = keep_unexcluded(s.drop_last(), excludes);
        assert forall|x: Report| #[trigger]
            keep_unexcluded(s, excludes).contains(x) implies s.contains(x) && !excluded(
            x.id_view(),
            excludes,
        ) by {
            let k = keep_unexcluded(s, excludes);
            let t = choose|t: int| 0 <= t < k.len() && k[t] == x;
            if t < rest.len() {
                assert(rest[t] == x);
                assert(rest.contains(x));
                let u = choose|u: int| 0 <= u < s.drop_last().len() && s.drop_last()[u] == x;
                assert(s[u] == x);
            } else {
                assert(x == s.last());
                assert(s[s.len() - 1] == x);
            }
        }
    }
}

/// Drops the excluded reports, then keeps one report per lowercased id: the
/// highest ranked; the result is ordered by rank, highest first.
pub fn finalize(reports: Vec<Report>, excludes: &[ErrorCode]) -> (r: Vec<Report>)
    ensures
        deduped_from(r@, keep_unexcluded(reports@, code_views(excludes@))),
        forall|i: int|
            0 <= i < r@.len() ==> !excluded(#[trigger] r@[i].id_view(), code_views(excludes@)),
{
    broadcast use vstd::seq_lib::group_to_multiset_ensures;

    let ghost f = keep_unexcluded(reports@, code_views(excludes@));
    let kept = filter_by_excludes(reports, excludes);
    let sorted = sort_by_rank(kept);
    let r = keep_first_of_each_id(sorted);
    proof {
        lemma_kept_unexcluded(reports@, code_views(excludes@));
        assert forall|x: Report| sorted@.contains(x) <==> f.contains(x) by {
            assert(sorted@.contains(x) <==> sorted@.to_multiset().count(x) > 0);
            assert(f.contains(x) <==> f.to_multiset().count(x) > 0);
        }
        lemma_deduped_same_members(r@, sorted@, f);
        assert forall|i: int| 0 <= i < r@.len() implies !excluded(
            #[trigger] r@[i].id_view(),
            code_views(excludes@),
        ) by {
            assert(f.contains(r@[i]));
        }
    }
    r
}

/// What every kind of report offers: its id.
pub trait ReportTrait: Sized {
    spec fn id_spec(&self) -> Seq<char>;

    fn report_id(&self) -> (r: &ErrorCode)
        ensures
            r@ == self.id_spec(),
    ;
}

impl ReportTrait for SimilarFilename {
    open spec fn id_spec(&self) -> Seq<char> {
        self.id@
    }

    fn report_id(&self) -> (r: &ErrorCode) {
        &self.id
    }
}

impl ReportTrait for DuplicateAlias {
    open spec fn id_spec(&self) -> Seq<char> {
        self.id_view()
    }

    fn report_id(&self) -> (r: &ErrorCode) {
        self.id()
    }
}

impl ReportTrait for BrokenWikilink {
    open spec fn id_spec(&self) -> Seq<char> {
        self.id@
    }

    fn report_id(&self) -> (r: &ErrorCode) {
        &self.id
    }
}

impl ReportTrait for UnlinkedText {
    open spec fn id_spec(&self) -> Seq<char> {
        self.id@
    }

    fn report_id(&self) -> (r: &ErrorCode) {
        &self.id
    }
}

pub open spec fn starts_with(s: Seq<char>, prefix: Seq<char>) -> bool {
    prefix.len() <= s.len() && s.take(prefix.len() as int) == prefix
}

pub(crate) fn starts_with_text(s: &str, prefix: &str) -> (r: bool)
    ensures
        r == starts_with(s@, prefix@),
{
    let cs = crate::text::chars_of(s);
    let cp = crate::text::chars_of(prefix);
    if cp.len() > cs.len() {
        return false;
    }
    let mut i: usize = 0;
    while i < cp.len()
        invariant
            cs@ == s@,
            cp@ == prefix@,
            cp@.len() <= cs@.len(),
            i <= cp@.len(),
            forall|j: int| 0 <= j < i ==> cs@[j] == cp@[j],
        decreases cp@.len() - i,
    {
        if cs[i] != cp[i] {
            assert(s@.take(prefix@.len() as int)[i as int] != prefix@[i as int]);
            return false;
        }
        i += 1;
    }
    assert(s@.take(prefix@.len() as int) =~= prefix@);
    true
}

/// The reports whose id starts with `code`, in order.
pub open spec fn with_code<T: ReportTrait>(s: Seq<T>, code: Seq<char>) -> Seq<T>
    decreases s.len(),
{
    if s.len() == 0 {
        s
    } else {
        let rest = with_code(s.drop_last(), code);
        if starts_with(s.last().id_spec(), code) {
            rest.push(s.last())
        } else {
            rest
        }
    }
}

/// Keeps the reports whose id starts with `code`.
pub fn filter_code<T: ReportTrait>(errors: Vec<T>, code: &ErrorCode) -> (r: Vec<T>)
    ensures
        r@ == with_code(errors@, code@),
{
    let ghost orig = errors@;
    let n = errors.len();
    let mut rev = reversed(errors);
    let mut out: Vec<T> = Vec::new();
    while rev.len() > 0
        invariant
            rev@.len() <= n,
            n == orig.len(),
            forall|i: int| 0 <= i < rev@.len() ==> rev@[i] == orig[n - 1 - i],
            out@ == with_code(orig.take(n - rev@.len()), code@),
        decreases rev@.len(),
    {
        let ghost k = n - rev@.len();
        let x = rev.pop().unwrap();
        assert(x == orig[k]);
        assert(orig.take(k + 1).drop_last() =~= orig.take(k));
        assert(orig.take(k + 1).last() == x);
        if starts_with_text(x.report_id().as_str(), code.as_str()) {
            out.push(x);
        }
    }
    assert(orig.take(n as int) =~= orig);
    out
}

/// The exclude and dedup step, for any list of reports.
pub trait VecHasIdExtensions: Sized {
    fn finalize(self, excludes: &[ErrorCode]) -> Self;
}

impl VecHasIdExtensions for Vec<Report> {
    fn finalize(self, excludes: &[ErrorCode]) -> Vec<Report> {
        finalize(self, excludes)
    }
}

} // verus!
