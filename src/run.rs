//! One check run over a set of pages, the report it produces, and the
//! decisions of the fix loop.
use vstd::prelude::*;
use crate::config::Config;
use crate::document::SourceFile;
use crate::name::{filename_of, ngrams};
use crate::pattern::{compile, regex_valid};
use crate::document::{declared_aliases, MdNode};
use crate::rules::broken_wikilink::{broken_entries, broken_views, fallback_table, third_pass_broken, BrokenWikilinkVisitor};
use crate::wikilink::node_links;
use crate::strmap::str_map_entries;
use crate::rules::{deduped_from, keep_unexcluded};
use crate::rules::duplicate_alias::{
    seed_table, claim_all, DuplicateAliasVisitor, NewDuplicateAliasError,
};
use crate::rules::similar_filename::CalculateError;
use crate::rules::unlinked_text::{mention_reports, node_mentions, pending_views, third_pass_unlinked, unlinked_views, wrap_in_wikilink, wrapped, UnlinkedTextVisitor, VisitError};
use crate::rules::{
    code_views, excluded, finalize, BrokenWikilink, DuplicateAlias, ErrorCode, NamedSource,
    RelatedDuplicate, Report, SimilarFilename, ThirdPassReport, UnlinkedText,
};
use crate::strmap::StrMap;
use crate::text::{all_ascii, is_all_ascii, lower_of, lowercase};
use crate::wikilink::alias_of_filename;

verus! {

/// The surviving reports of a run, every rule together.
#[derive(Clone, Debug)]
pub struct OutputReport {
    pub reports: Vec<Report>,
}

pub open spec fn brokens(s: Seq<Report>) -> Seq<BrokenWikilink>
    decreases s.len(),
{
    if s.len() == 0 {
        seq![]
    } else {
        let rest = brokens(s.drop_last());
        match s.last() {
            Report::ThirdPass(ThirdPassReport::BrokenWikilink(x)) => rest.push(x),
            _ => rest,
        }
    }
}

pub open spec fn unlinkeds(s: Seq<Report>) -> Seq<UnlinkedText>
    decreases s.len(),
{
    if s.len() == 0 {
        seq![]
    } else {
        let rest = unlinkeds(s.drop_last());
        match s.last() {
            Report::ThirdPass(ThirdPassReport::UnlinkedText(x)) => rest.push(x),
            _ => rest,
        }
    }
}

pub open spec fn duplicates(s: Seq<Report>) -> Seq<DuplicateAlias>
    decreases s.len(),
{
    if s.len() == 0 {
        seq![]
    } else {
        let rest = duplicates(s.drop_last());
        match s.last() {
            Report::DuplicateAlias(x) => rest.push(x),
            _ => rest,
        }
    }
}

pub open spec fn similars(s: Seq<Report>) -> Seq<SimilarFilename>
    decreases s.len(),
{
    if s.len() == 0 {
        seq![]
    } else {
        let rest = similars(s.drop_last());
        match s.last() {
            Report::SimilarFilename(x) => rest.push(x),
            _ => rest,
        }
    }
}

fn copy_code(c: &ErrorCode) -> (r: ErrorCode)
    ensures
        r == *c,
{
    ErrorCode(c.0.clone())
}

fn copy_source(s: &NamedSource) -> (r: NamedSource)
    ensures
        r == *s,
{
    NamedSource { name: s.name.clone(), content: s.content.clone() }
}

fn copy_broken(b: &BrokenWikilink) -> (r: BrokenWikilink)
    ensures
        r == *b,
{
    BrokenWikilink {
        id: copy_code(&b.id),
        alias: b.alias.copied(),
        src: copy_source(&b.src),
        wikilink: b.wikilink,
        advice: b.advice.clone(),
    }
}

fn copy_unlinked(b: &UnlinkedText) -> (r: UnlinkedText)
    ensures
        r == *b,
{
    UnlinkedText {
        id: copy_code(&b.id),
        alias: b.alias.copied(),
        src: copy_source(&b.src),
        span: b.span,
        advice: b.advice.clone(),
    }
}

fn copy_similar(b: &SimilarFilename) -> (r: SimilarFilename)
    ensures
        r == *b,
{
    SimilarFilename {
        id: copy_code(&b.id),
        file1_ngram: b.file1_ngram.clone_ngram(),
        file2_ngram: b.file2_ngram.clone_ngram(),
        score: b.score,
        filepaths: b.filepaths.clone(),
        file1_ngram_span: b.file1_ngram_span,
        file2_ngram_span: b.file2_ngram_span,
        advice: b.advice.clone(),
    }
}

/// A duplicate report as plain values: whether it names a filename, its id,
/// the other file, the source, the span, the related side and the advice.
pub open spec fn dup_view(d: DuplicateAlias) -> (bool, ErrorCode, crate::name::Filename, NamedSource, crate::rules::Span, Seq<RelatedDuplicate>, Option<String>) {
    match d {
        DuplicateAlias::FileNameContentDuplicate { id, other_filename, src, alias, advice } => (true, id, other_filename, src, alias, seq![], Some(advice)),
        DuplicateAlias::FileContentContentDuplicate { id, other_filename, src, alias, other } => (false, id, other_filename, src, alias, other@, None),
    }
}

pub open spec fn dup_views(s: Seq<DuplicateAlias>) -> Seq<(bool, ErrorCode, crate::name::Filename, NamedSource, crate::rules::Span, Seq<RelatedDuplicate>, Option<String>)> {
    s.map_values(|d: DuplicateAlias| dup_view(d))
}

fn copy_duplicate(d: &DuplicateAlias) -> (r: DuplicateAlias)
    ensures
        dup_view(r) == dup_view(*d),
{
    match d {
        DuplicateAlias::FileNameContentDuplicate { id, other_filename, src, alias, advice } => {
            DuplicateAlias::FileNameContentDuplicate {
                id: copy_code(id),
                other_filename: other_filename.clone_name(),
                src: copy_source(src),
                alias: *alias,
                advice: advice.clone(),
            }
        },
        DuplicateAlias::FileContentContentDuplicate { id, other_filename, src, alias, other } => {
            let mut others: Vec<RelatedDuplicate> = Vec::new();
            let mut i: usize = 0;
            while i < other.len()
                invariant
                    i <= other@.len(),
                    others@ == other@.take(i as int),
                decreases other@.len() - i,
            {
                let o = &other[i];
                others.push(RelatedDuplicate {
                    id: copy_code(&o.id),
                    other_filename: o.other_filename.clone_name(),
                    src: copy_source(&o.src),
                    alias: o.alias,
                });
                assert(others@ =~= other@.take(i + 1));
                i += 1;
            }
            assert(others@ =~= other@);
            DuplicateAlias::FileContentContentDuplicate {
                id: copy_code(id),
                other_filename: other_filename.clone_name(),
                src: copy_source(src),
                alias: *alias,
                other: others,
            }
        },
    }
}

impl OutputReport {
    /// No rule was violated.
    pub fn is_empty(&self) -> (r: bool)
        ensures
            r == (self.reports@.len() == 0),
    {
        self.reports.len() == 0
    }

    pub fn broken_wikilinks(&self) -> (r: Vec<BrokenWikilink>)
        ensures
            r@ == brokens(self.reports@),
    {
        let mut out: Vec<BrokenWikilink> = Vec::new();
        let mut i: usize = 0;
        while i < self.reports.len()
            invariant
                i <= self.reports@.len(),
                out@ == brokens(self.reports@.take(i as int)),
            decreases self.reports@.len() - i,
        {
            assert(self.reports@.take(i + 1).drop_last() =~= self.reports@.take(i as int));
            match &self.reports[i] {
                Report::ThirdPass(ThirdPassReport::BrokenWikilink(x)) => out.push(copy_broken(x)),
                _ => {},
            }
            i += 1;
        }
        assert(self.reports@.take(self.reports@.len() as int) =~= self.reports@);
        out
    }

    pub fn unlinked_texts(&self) -> (r: Vec<UnlinkedText>)
        ensures
            r@ == unlinkeds(self.reports@),
    {
        let mut out: Vec<UnlinkedText> = Vec::new();
        let mut i: usize = 0;
        while i < self.reports.len()
            invariant
                i <= self.reports@.len(),
                out@ == unlinkeds(self.reports@.take(i as int)),
            decreases self.reports@.len() - i,
        {
            assert(self.reports@.take(i + 1).drop_last() =~= self.reports@.take(i as int));
            match &self.reports[i] {
                Report::ThirdPass(ThirdPassReport::UnlinkedText(x)) => out.push(copy_unlinked(x)),
                _ => {},
            }
            i += 1;
        }
        assert(self.reports@.take(self.reports@.len() as int) =~= self.reports@);
        out
    }

    pub fn duplicate_aliases(&self) -> (r: Vec<DuplicateAlias>)
        ensures
            dup_views(r@) == dup_views(duplicates(self.reports@)),
    {
        let mut out: Vec<DuplicateAlias> = Vec::new();
        let mut i: usize = 0;
        while i < self.reports.len()
            invariant
                i <= self.reports@.len(),
                dup_views(out@) == dup_views(duplicates(self.reports@.take(i as int))),
            decreases self.reports@.len() - i,
        {
            assert(self.reports@.take(i + 1).drop_last() =~= self.reports@.take(i as int));
            match &self.reports[i] {
                Report::DuplicateAlias(x) => {
                    let c = copy_duplicate(x);
                    let ghost prev = out@;
                    out.push(c);
                    assert(dup_views(out@) =~= dup_views(prev).push(dup_view(c)));
                    assert(dup_views(duplicates(self.reports@.take(i + 1))) =~= dup_views(duplicates(self.reports@.take(i as int))).push(dup_view(*x)));
                },
                _ => {},
            }
            i += 1;
        }
        assert(self.reports@.take(self.reports@.len() as int) =~= self.reports@);
        out
    }

    pub fn similar_filenames(&self) -> (r: Vec<SimilarFilename>)
        ensures
            r@ == similars(self.reports@),
    {
        let mut out: Vec<SimilarFilename> = Vec::new();
        let mut i: usize = 0;
        while i < self.reports.len()
            invariant
                i <= self.reports@.len(),
                out@ == similars(self.reports@.take(i as int)),
            decreases self.reports@.len() - i,
        {
            assert(self.reports@.take(i + 1).drop_last() =~= self.reports@.take(i as int));
            match &self.reports[i] {
                Report::SimilarFilename(x) => out.push(copy_similar(x)),
                _ => {},
            }
            i += 1;
        }
        assert(self.reports@.take(self.reports@.len() as int) =~= self.reports@);
        out
    }
}

/// Why a run could not finish.
#[derive(Clone, Debug)]
pub enum OutputErrors {
    /// A configured pattern is not a valid regex.
    RegexError { pattern: String },
    CalculateError(CalculateError),
    ParseError(ParseError),
    FinalizeError(NewDuplicateAliasError),
    FixError(FixError),
}

#[derive(Clone, Debug)]
pub enum ParseError {
    /// The page holds characters outside ASCII.
    MultibyteError { file: String },
    VisitError { file: String, source: VisitError },
}

#[derive(Clone, Debug, PartialEq, Eq)]
pub enum FixError {
    /// The working tree has changes and fixing it was not allowed.
    DirtyRepo,
    /// Fixing went on for more rounds than the cap allows.
    TooManyRounds,
}

pub open spec fn all_clean(v: Seq<Report>, excludes: Seq<Seq<char>>) -> bool {
    forall|i: int| 0 <= i < v.len() ==> !excluded(#[trigger] v[i].id_view(), excludes)
}

fn append_clean(out: &mut Vec<Report>, more: Vec<Report>, excludes: Ghost<Seq<Seq<char>>>)
    requires
        all_clean(old(out)@, excludes@),
        all_clean(more@, excludes@),
    ensures
        all_clean(final(out)@, excludes@),
        final(out)@ == old(out)@ + more@,
{
    let mut more = more;
    let ghost a = out@;
    let ghost b = more@;
    out.append(&mut more);
    assert forall|i: int| 0 <= i < out@.len() implies !excluded(#[trigger] out@[i].id_view(), excludes@) by {
        if i < a.len() {
            assert(out@[i] == a[i]);
        } else {
            assert(out@[i] == b[i - a.len()]);
        }
    }
}

pub open spec fn paths_of(files: Seq<SourceFile>) -> Seq<Seq<char>> {
    files.map_values(|f: SourceFile| f.path@)
}

/// The alias table once each page, in order, has claimed the aliases its
/// front matter declares, starting from `base`.
pub open spec fn claimed_table(files: Seq<SourceFile>, base: Map<Seq<char>, Seq<char>>) -> Map<Seq<char>, Seq<char>>
    decreases files.len(),
{
    if files.len() == 0 {
        base
    } else {
        claim_all(
            claimed_table(files.drop_last(), base),
            declared_aliases(files.last().front_matter.alias@),
            files.last().path@,
        )
    }
}

/// The finished alias table of a run: filename aliases first, then the
/// pages' own claims.
pub open spec fn alias_table_of(files: Seq<SourceFile>, from: Seq<char>, to: Seq<char>) -> Map<Seq<char>, Seq<char>> {
    claimed_table(files, seed_table(paths_of(files), from, to))
}

/// The references of a page, node by node.
pub open spec fn page_links(nodes: Seq<MdNode>, source: Seq<char>) -> Seq<(Seq<char>, int, int)>
    decreases nodes.len(),
{
    if nodes.len() == 0 {
        seq![]
    } else {
        page_links(nodes.drop_last(), source) + node_links(nodes.last(), source)
    }
}

/// The broken references of the pages, page by page, as (id, alias,
/// offset, length).
pub open spec fn broken_in(
    files: Seq<SourceFile>,
    table: Map<Seq<char>, Seq<char>>,
    fallback: Map<Seq<char>, Seq<char>>,
) -> Seq<(Seq<char>, Seq<char>, int, int)>
    decreases files.len(),
{
    if files.len() == 0 {
        seq![]
    } else {
        broken_in(files.drop_last(), table, fallback) + broken_entries(
            page_links(files.last().nodes@, files.last().source@),
            table,
            fallback,
            lower_of(filename_of(files.last().path@)),
        )
    }
}

/// The broken-wikilink part of a run's output: the broken references of
/// every page against the finished alias table and the path table, through
/// the exclude and dedup step.
pub open spec fn broken_part(part: Seq<Report>, files: Seq<SourceFile>, config: Config) -> bool {
    exists|found: Seq<BrokenWikilink>|
        broken_views(found) == broken_in(
            files,
            alias_table_of(files, config.filename_to_alias.from_spec(), config.filename_to_alias.to_spec()),
            fallback_table(paths_of(files)),
        ) && #[trigger] deduped_from(part, keep_unexcluded(third_pass_broken(found), code_views(config.exclude@)))
}

/// The output is the similar-filename part, the duplicate-alias part, the
/// broken-wikilink part and the unlinked-text part, in this order.
pub open spec fn run_shape(
    reports: Seq<Report>,
    a: Seq<Report>,
    b: Seq<Report>,
    c: Seq<Report>,
    d: Seq<Report>,
    files: Seq<SourceFile>,
    config: Config,
) -> bool {
    reports == a + b + c + d && similar_part(a, files, config) && duplicate_part(b, files, config)
        && broken_part(c, files, config) && unlinked_part(d, files, config)
}

/// The claims that pages make on aliases already taken, page by page.
pub open spec fn collisions_in(files: Seq<SourceFile>, base: Map<Seq<char>, Seq<char>>) -> Seq<Seq<char>>
    decreases files.len(),
{
    if files.len() == 0 {
        seq![]
    } else {
        collisions_in(files.drop_last(), base) + crate::rules::duplicate_alias::collisions(
            claimed_table(files.drop_last(), base),
            declared_aliases(files.last().front_matter.alias@),
            files.last().path@,
        )
    }
}

pub open spec fn wrap_dups(found: Seq<DuplicateAlias>) -> Seq<Report> {
    found.map_values(|d: DuplicateAlias| Report::DuplicateAlias(d))
}

/// The duplicate-alias part of a run's output: one report per refused
/// claim, identified by its alias, through the exclude and dedup step.
pub open spec fn duplicate_part(part: Seq<Report>, files: Seq<SourceFile>, config: Config) -> bool {
    exists|found: Seq<DuplicateAlias>|
        found.map_values(|d: DuplicateAlias| d.id_view()) == collisions_in(
            files,
            seed_table(paths_of(files), config.filename_to_alias.from_spec(), config.filename_to_alias.to_spec()),
        ).map_values(|a: Seq<char>| crate::rules::duplicate_alias::duplicate_id(a)) && #[trigger] deduped_from(
            part,
            keep_unexcluded(wrap_dups(found), code_views(config.exclude@)),
        )
}

fn wrap_duplicates(found: Vec<DuplicateAlias>) -> (r: Vec<Report>)
    ensures
        r@ == wrap_dups(found@),
{
    let ghost fv = found@;
    let mut rest = found;
    let mut back: Vec<Report> = Vec::new();
    while rest.len() > 0
        invariant
            back@.len() + rest@.len() == fv.len(),
            rest@ == fv.take(rest@.len() as int),
            forall|j: int| 0 <= j < back@.len() ==> back@[j] == Report::DuplicateAlias(fv[fv.len() - 1 - j]),
        decreases rest@.len(),
    {
        let d = rest.pop().unwrap();
        back.push(Report::DuplicateAlias(d));
        assert(rest@ =~= fv.take(rest@.len() as int));
    }
    let mut out: Vec<Report> = Vec::new();
    while back.len() > 0
        invariant
            back@.len() + out@.len() == fv.len(),
            forall|j: int| 0 <= j < back@.len() ==> back@[j] == Report::DuplicateAlias(fv[fv.len() - 1 - j]),
            out@ == wrap_dups(fv.take(out@.len() as int)),
        decreases back@.len(),
    {
        let x = back.pop().unwrap();
        let ghost k: int = out@.len() as int;
        out.push(x);
        assert(out@ =~= wrap_dups(fv.take(k + 1)));
    }
    assert(fv.take(fv.len() as int) =~= fv);
    out
}

pub open spec fn wrap_similars(found: Seq<SimilarFilename>) -> Seq<Report> {
    found.map_values(|d: SimilarFilename| Report::SimilarFilename(d))
}

/// The similar-filename part of a run's output: what comparing the n-grams
/// of the pages' filenames yields, through the exclude and dedup step.
pub open spec fn similar_part(part: Seq<Report>, files: Seq<SourceFile>, config: Config) -> bool {
    exists|found: Seq<SimilarFilename>|
        crate::rules::similar_filename::calculated_in_order(
            found,
            crate::name::ngram_table(
                paths_of(files),
                config.ngram_size as int,
                config.boundary_pattern@,
                config.filename_spacing_pattern@,
            ),
            config.filename_match_threshold,
            config.filename_spacing_pattern@,
            crate::rules::similar_filename::pair_views(config.ignore_word_pairs@),
        ) && crate::rules::similar_filename::calculated(
            found,
            crate::name::ngram_table(
                paths_of(files),
                config.ngram_size as int,
                config.boundary_pattern@,
                config.filename_spacing_pattern@,
            ),
            config.filename_match_threshold,
            config.filename_spacing_pattern@,
            crate::rules::similar_filename::pair_views(config.ignore_word_pairs@),
        ) && #[trigger] deduped_from(part, keep_unexcluded(wrap_similars(found), code_views(config.exclude@)))
}

fn wrap_similar_reports(found: Vec<SimilarFilename>) -> (r: Vec<Report>)
    ensures
        r@ == wrap_similars(found@),
{
    let ghost fv = found@;
    let mut rest = found;
    let mut back: Vec<Report> = Vec::new();
    while rest.len() > 0
        invariant
            back@.len() + rest@.len() == fv.len(),
            rest@ == fv.take(rest@.len() as int),
            forall|j: int| 0 <= j < back@.len() ==> back@[j] == Report::SimilarFilename(fv[fv.len() - 1 - j]),
        decreases rest@.len(),
    {
        let d = rest.pop().unwrap();
        back.push(Report::SimilarFilename(d));
        assert(rest@ =~= fv.take(rest@.len() as int));
    }
    let mut out: Vec<Report> = Vec::new();
    while back.len() > 0
        invariant
            back@.len() + out@.len() == fv.len(),
            forall|j: int| 0 <= j < back@.len() ==> back@[j] == Report::SimilarFilename(fv[fv.len() - 1 - j]),
            out@ == wrap_similars(fv.take(out@.len() as int)),
        decreases back@.len(),
    {
        let x = back.pop().unwrap();
        let ghost k: int = out@.len() as int;
        out.push(x);
        assert(out@ =~= wrap_similars(fv.take(k + 1)));
    }
    assert(fv.take(fv.len() as int) =~= fv);
    out
}

/// The mentions in the first `n` nodes of a page.
pub open spec fn page_mentions(nodes: Seq<MdNode>, n: int, source: Seq<char>, pats: Seq<Seq<char>>) -> Seq<(Seq<char>, int, int)>
    decreases n,
{
    if n <= 0 {
        seq![]
    } else {
        page_mentions(nodes, n - 1, source, pats) + node_mentions(nodes, n - 1, source, pats)->Some_0
    }
}

/// The unlinked mentions of the pages, page by page, as (id, alias,
/// offset, length), searching for `pats`.
pub open spec fn unlinked_in(files: Seq<SourceFile>, pats: Seq<Seq<char>>) -> Seq<(Seq<char>, Seq<char>, int, int)>
    decreases files.len(),
{
    if files.len() == 0 {
        seq![]
    } else {
        unlinked_in(files.drop_last(), pats) + mention_reports(
            page_mentions(files.last().nodes@, files.last().nodes@.len() as int, files.last().source@, pats),
            filename_of(files.last().path@),
        )
    }
}

/// The aliases searched for: each alias of the table once, in increasing order.
pub open spec fn alias_patterns(pats: Seq<Seq<char>>, table: Map<Seq<char>, Seq<char>>) -> bool {
    pats.to_set() == table.dom() && forall|i: int, j: int|
        0 <= i < j < pats.len() ==> crate::text::seq_lt(#[trigger] pats[i], #[trigger] pats[j])
}

/// `found` holds the mentions of the finished table's aliases `pats`.
pub open spec fn unlinked_found(pats: Seq<Seq<char>>, found: Seq<UnlinkedText>, files: Seq<SourceFile>, config: Config) -> bool {
    alias_patterns(
        pats,
        alias_table_of(files, config.filename_to_alias.from_spec(), config.filename_to_alias.to_spec()),
    ) && unlinked_views(found) == unlinked_in(files, pats)
}

/// The unlinked-text part of a run's output: the whole-word mentions of the
/// finished table's aliases in every page, through the exclude and dedup step.
pub open spec fn unlinked_part(part: Seq<Report>, files: Seq<SourceFile>, config: Config) -> bool {
    exists|pats: Seq<Seq<char>>, found: Seq<UnlinkedText>|
        #[trigger] unlinked_found(pats, found, files, config) && deduped_from(
            part,
            keep_unexcluded(third_pass_unlinked(found), code_views(config.exclude@)),
        )
}

/// The output splits into the four parts of a run, the broken-wikilink
/// part as `broken_part` says.
pub open spec fn shaped_output(reports: Seq<Report>, files: Seq<SourceFile>, config: Config) -> bool {
    exists|a: Seq<Report>, b: Seq<Report>, c: Seq<Report>, d: Seq<Report>|
        #[trigger] run_shape(reports, a, b, c, d, files, config)
}

/// The text of each page by path; a later page with the same path wins.
pub open spec fn contents_table(files: Seq<SourceFile>) -> Map<Seq<char>, Seq<char>>
    decreases files.len(),
{
    if files.len() == 0 {
        Map::empty()
    } else {
        contents_table(files.drop_last()).insert(files.last().path@, files.last().source@)
    }
}

/// Every page's claims, in order, can be reported where refused.
pub open spec fn pass1_ok(
    files: Seq<SourceFile>,
    base: Map<Seq<char>, Seq<char>>,
    contents: Map<Seq<char>, Seq<char>>,
    pair: &crate::sed::ReplacePair,
) -> bool
    decreases files.len(),
{
    if files.len() == 0 {
        true
    } else {
        pass1_ok(files.drop_last(), base, contents, pair) && crate::rules::duplicate_alias::claims_ok(
            claimed_table(files.drop_last(), base),
            declared_aliases(files.last().front_matter.alias@),
            files.last().path@,
            files.last().source@,
            contents,
            pair,
        )
    }
}

proof fn lemma_pass1_ok_prefix(
    files: Seq<SourceFile>,
    k: int,
    base: Map<Seq<char>, Seq<char>>,
    contents: Map<Seq<char>, Seq<char>>,
    pair: &crate::sed::ReplacePair,
)
    requires
        0 <= k <= files.len(),
        pass1_ok(files, base, contents, pair),
    ensures
        pass1_ok(files.take(k), base, contents, pair),
    decreases files.len(),
{
    if k < files.len() {
        lemma_pass1_ok_prefix(files.drop_last(), k, base, contents, pair);
        assert(files.drop_last().take(k) =~= files.take(k));
    } else {
        assert(files.take(k) =~= files);
    }
}

/// Searching every text node of every page for `pats` meets no error.
pub open spec fn mentions_ok(files: Seq<SourceFile>, pats: Seq<Seq<char>>) -> bool {
    forall|f: int, i: int|
        0 <= f < files.len() && 0 <= i < files[f].nodes@.len() ==> (#[trigger] node_mentions(
            files[f].nodes@,
            i,
            files[f].source@,
            pats,
        )) is Some
}

/// Searching for the aliases of `table` meets no error.
pub open spec fn unlinked_ok(files: Seq<SourceFile>, table: Map<Seq<char>, Seq<char>>) -> bool {
    forall|pats: Seq<Seq<char>>| #[trigger] alias_patterns(pats, table) ==> mentions_ok(files, pats)
}

/// The n-gram comparison of a run meets no error.
pub open spec fn similar_ok(files: Seq<SourceFile>, config: Config) -> bool {
    crate::rules::similar_filename::calculation_ok(
        crate::name::ngram_table(
            paths_of(files),
            config.ngram_size as int,
            config.boundary_pattern@,
            config.filename_spacing_pattern@,
        ),
        config.filename_match_threshold,
        config.filename_spacing_pattern@,
        crate::rules::similar_filename::pair_views(config.ignore_word_pairs@),
    )
}

pub open spec fn claims_all_ok(files: Seq<SourceFile>, config: Config) -> bool {
    pass1_ok(
        files,
        seed_table(paths_of(files), config.filename_to_alias.from_spec(), config.filename_to_alias.to_spec()),
        contents_table(files),
        &config.filename_to_alias,
    )
}

/// Both configured patterns compile.
pub open spec fn patterns_valid(config: Config) -> bool {
    regex_valid(config.boundary_pattern@) && regex_valid(config.filename_spacing_pattern@)
}

pub open spec fn sources_ascii(files: Seq<SourceFile>) -> bool {
    forall|k: int| 0 <= k < files.len() ==> all_ascii(#[trigger] files[k].source@)
}

/// Builds the alias table from the filenames, then lets each page claim the
/// aliases its front matter declares, recording the refused claims.
#[verifier::rlimit(40)]
fn first_pass(paths: &Vec<String>, files: &Vec<SourceFile>, contents: &StrMap, config: &Config) -> (r: Result<DuplicateAliasVisitor, NewDuplicateAliasError>)
    requires
        crate::pattern::views(paths@) == paths_of(files@),
    ensures
        r is Ok <==> pass1_ok(
            files@,
            seed_table(paths_of(files@), config.filename_to_alias.from_spec(), config.filename_to_alias.to_spec()),
            str_map_entries(*contents),
            &config.filename_to_alias,
        ),
        r matches Ok(dup) ==> str_map_entries(dup.alias_table) == alias_table_of(
            files@,
            config.filename_to_alias.from_spec(),
            config.filename_to_alias.to_spec(),
        ),
        r matches Ok(dup) ==> crate::document::alias_views(dup.duplicate_aliases@) == collisions_in(
            files@,
            seed_table(paths_of(files@), config.filename_to_alias.from_spec(), config.filename_to_alias.to_spec()),
        ),
        r matches Ok(dup) ==> dup.duplicate_alias_errors@.len() == dup.duplicate_aliases@.len(),
        r matches Ok(dup) ==> forall|k: int|
            0 <= k < dup.duplicate_alias_errors@.len() ==> (#[trigger] dup.duplicate_alias_errors@[k]).id_view()
                == crate::rules::duplicate_alias::duplicate_id(crate::document::alias_views(dup.duplicate_aliases@)[k]),
{
    let ghost seed = seed_table(paths_of(files@), config.filename_to_alias.from_spec(), config.filename_to_alias.to_spec());
    let mut dup = DuplicateAliasVisitor::new(paths, &config.filename_to_alias);
    assert(crate::document::alias_views(dup.duplicate_aliases@) =~= seq![]);
    assert(files@.take(0) =~= seq![]);
    let mut f: usize = 0;
    while f < files.len()
        invariant
            f <= files@.len(),
            dup.front_matter_visitor.aliases@.len() == 0,
            str_map_entries(dup.alias_table) == claimed_table(files@.take(f as int), seed),
            crate::document::alias_views(dup.duplicate_aliases@) == collisions_in(files@.take(f as int), seed),
            dup.duplicate_alias_errors@.len() == dup.duplicate_aliases@.len(),
            forall|k: int|
                0 <= k < dup.duplicate_alias_errors@.len() ==> (#[trigger] dup.duplicate_alias_errors@[k]).id_view()
                    == crate::rules::duplicate_alias::duplicate_id(crate::document::alias_views(dup.duplicate_aliases@)[k]),
            pass1_ok(files@.take(f as int), seed, str_map_entries(*contents), &config.filename_to_alias),
            seed == seed_table(paths_of(files@), config.filename_to_alias.from_spec(), config.filename_to_alias.to_spec()),
        decreases files@.len() - f,
    {
        assert(files@.take(f + 1).drop_last() =~= files@.take(f as int));
        assert(files@.take(f + 1).last() == files@[f as int]);
        assert(crate::document::alias_views(dup.front_matter_visitor.aliases@) =~= seq![]);
        dup.visit_front_matter(&files[f].front_matter);
        assert(crate::document::alias_views(dup.front_matter_visitor.aliases@) =~= declared_aliases(files@[f as int].front_matter.alias@));
        let ghost olde = dup.duplicate_alias_errors@;
        let ghost olda = crate::document::alias_views(dup.duplicate_aliases@);
        let ghost oldt = str_map_entries(dup.alias_table);
        let ghost decl = crate::document::alias_views(dup.front_matter_visitor.aliases@);
        match dup.finalize_file(files[f].source.as_str(), files[f].path.as_str(), contents, &config.filename_to_alias) {
            Ok(()) => {},
            Err(e) => {
                proof {
                    assert(!pass1_ok(files@.take(f + 1), seed, str_map_entries(*contents), &config.filename_to_alias));
                    if pass1_ok(files@, seed, str_map_entries(*contents), &config.filename_to_alias) {
                        lemma_pass1_ok_prefix(files@, f + 1, seed, str_map_entries(*contents), &config.filename_to_alias);
                    }
                }
                return Err(e);
            },
        }
        proof {
            let coll = crate::rules::duplicate_alias::collisions(oldt, decl, files@[f as int].path@);
            assert(crate::document::alias_views(dup.duplicate_aliases@) == olda + coll);
            assert(collisions_in(files@.take(f + 1), seed) == collisions_in(files@.take(f as int), seed) + coll);
            assert forall|k: int|
                0 <= k < dup.duplicate_alias_errors@.len() implies (#[trigger] dup.duplicate_alias_errors@[k]).id_view()
                    == crate::rules::duplicate_alias::duplicate_id(crate::document::alias_views(dup.duplicate_aliases@)[k]) by {
                if k < olde.len() {
                    assert(dup.duplicate_alias_errors@[k] == olde[k]);
                    assert(crate::document::alias_views(dup.duplicate_aliases@)[k] == olda[k]);
                }
            }
        }
        f += 1;
    }
    assert(files@.take(files@.len() as int) =~= files@);
    Ok(dup)
}

/// Runs every rule over the pages: similar filenames over the paths; the
/// alias table from filenames and front matter, with duplicate aliases; then
/// broken wikilinks and unlinked mentions against the finished table. Each
/// rule's reports go through the exclude and dedup step.
pub fn check(config: &Config, files: &Vec<SourceFile>) -> (r: Result<OutputReport, OutputErrors>)
    ensures
        r matches Ok(o) ==> all_clean(o.reports@, code_views(config.exclude@)),
        !patterns_valid(*config) <==> r matches Err(OutputErrors::RegexError { .. }),
        patterns_valid(*config) && !sources_ascii(files@) <==> r matches Err(
            OutputErrors::ParseError(ParseError::MultibyteError { .. }),
        ),
        r matches Ok(o) ==> shaped_output(o.reports@, files@, *config),
        patterns_valid(*config) && sources_ascii(files@) ==> (r matches Err(OutputErrors::CalculateError(_))
            <==> !similar_ok(files@, *config)),
        patterns_valid(*config) && sources_ascii(files@) && similar_ok(files@, *config) ==> (r matches Err(
            OutputErrors::FinalizeError(_),
        ) <==> !claims_all_ok(files@, *config)),
        patterns_valid(*config) && sources_ascii(files@) && similar_ok(files@, *config) && claims_all_ok(files@, *config)
            ==> (r matches Err(OutputErrors::ParseError(ParseError::VisitError { .. })) <==> !unlinked_ok(
            files@,
            alias_table_of(files@, config.filename_to_alias.from_spec(), config.filename_to_alias.to_spec()),
        )),
        r is Ok <==> patterns_valid(*config) && sources_ascii(files@) && similar_ok(files@, *config) && claims_all_ok(
            files@,
            *config,
        ) && unlinked_ok(
            files@,
            alias_table_of(files@, config.filename_to_alias.from_spec(), config.filename_to_alias.to_spec()),
        ),
        r is Err && sources_ascii(files@) && patterns_valid(*config) ==> (r matches Err(OutputErrors::CalculateError(_))) || (r matches Err(
            OutputErrors::FinalizeError(_),
        )) || (r matches Err(OutputErrors::ParseError(ParseError::VisitError { .. }))),
{
    let ghost ex = code_views(config.exclude@);
    let boundary = match compile(config.boundary_pattern.as_str()) {
        Some(p) => p,
        None => return Err(OutputErrors::RegexError { pattern: config.boundary_pattern.clone() }),
    };
    let spacing = match compile(config.filename_spacing_pattern.as_str()) {
        Some(p) => p,
        None => return Err(OutputErrors::RegexError { pattern: config.filename_spacing_pattern.clone() }),
    };
    let mut k: usize = 0;
    while k < files.len()
        invariant
            k <= files@.len(),
            regex_valid(config.boundary_pattern@),
            regex_valid(config.filename_spacing_pattern@),
            forall|j: int| 0 <= j < k ==> all_ascii(#[trigger] files@[j].source@),
        decreases files@.len() - k,
    {
        if !is_all_ascii(files[k].source.as_str()) {
            return Err(OutputErrors::ParseError(ParseError::MultibyteError { file: files[k].path.clone() }));
        }
        k += 1;
    }
    let mut paths: Vec<String> = Vec::new();
    let mut contents = StrMap::new();
    let mut f: usize = 0;
    while f < files.len()
        invariant
            f <= files@.len(),
            crate::pattern::views(paths@) == paths_of(files@.take(f as int)),
            str_map_entries(contents) == contents_table(files@.take(f as int)),
        decreases files@.len() - f,
    {
        assert(files@.take(f + 1).drop_last() =~= files@.take(f as int));
        assert(paths_of(files@.take(f + 1)) =~= paths_of(files@.take(f as int)).push(files@[f as int].path@));
        let ghost pv = crate::pattern::views(paths@);
        paths.push(files[f].path.clone());
        assert(crate::pattern::views(paths@) =~= pv.push(files@[f as int].path@));
        contents.insert(files[f].path.clone(), files[f].source.clone());
        f += 1;
    }
    assert(files@.take(files@.len() as int) =~= files@);
    let ghost seed = seed_table(paths_of(files@), config.filename_to_alias.from_spec(), config.filename_to_alias.to_spec());

    // Filenames alone.
    let table = ngrams(&paths, config.ngram_size, &boundary, &spacing);
    let similar = match SimilarFilename::calculate(&table, config.filename_match_threshold, &spacing, &config.ignore_word_pairs) {
        Ok(v) => v,
        Err(e) => return Err(OutputErrors::CalculateError(e)),
    };
    let wrapped_similar = wrap_similar_reports(similar);
    let mut reports = finalize(wrapped_similar, config.exclude.as_slice());
    assert(similar_part(reports@, files@, *config));
    let ghost part_a = reports@;

    // First pass: the alias table.
    let mut dup = match first_pass(&paths, files, &contents, config) {
        Ok(d) => d,
        Err(e) => return Err(OutputErrors::FinalizeError(e)),
    };
    let mut found: Vec<DuplicateAlias> = Vec::new();
    std::mem::swap(&mut found, &mut dup.duplicate_alias_errors);
    let ghost fd = found@;
    assert(fd.map_values(|d: DuplicateAlias| d.id_view()) =~= collisions_in(files@, seed).map_values(
        |a: Seq<char>| crate::rules::duplicate_alias::duplicate_id(a),
    ));
    let wrapped_dups = wrap_duplicates(found);
    let dups = finalize(wrapped_dups, config.exclude.as_slice());
    let ghost part_b = dups@;
    assert(duplicate_part(part_b, files@, *config));
    append_clean(&mut reports, dups, Ghost(ex));
    let ghost table = str_map_entries(dup.alias_table);
    assert(table == alias_table_of(files@, config.filename_to_alias.from_spec(), config.filename_to_alias.to_spec()));

    // Second pass: links against the finished table.
    let mut broken = BrokenWikilinkVisitor::new(&paths);
    let mut unlinked = UnlinkedTextVisitor::new(&dup.alias_table);
    let ghost pats = crate::pattern::views(unlinked.patterns@);
    assert(alias_patterns(pats, table));
    let mut f: usize = 0;
    while f < files.len()
        invariant
            f <= files@.len(),
            all_clean(reports@, ex),
            ex == code_views(config.exclude@),
            sources_ascii(files@),
            regex_valid(config.boundary_pattern@),
            regex_valid(config.filename_spacing_pattern@),
            reports@ == part_a + part_b,
            str_map_entries(dup.alias_table) == table,
            broken.fallback() == fallback_table(paths_of(files@)),
            broken.pending().len() == 0,
            broken_views(broken.broken_wikilinks@) == broken_in(files@.take(f as int), table, fallback_table(paths_of(files@))),
            crate::pattern::views(unlinked.patterns@) == pats,
            unlinked.new_unlinked_texts@.len() == 0,
            unlinked_views(unlinked.unlinked_texts@) == unlinked_in(files@.take(f as int), pats),
            similar_ok(files@, *config),
            claims_all_ok(files@, *config),
            alias_patterns(pats, table),
            table == alias_table_of(files@, config.filename_to_alias.from_spec(), config.filename_to_alias.to_spec()),
            forall|g: int, i: int|
                0 <= g < f && 0 <= i < files@[g].nodes@.len() ==> (#[trigger] node_mentions(files@[g].nodes@, i, files@[g].source@, pats)) is Some,
        decreases files@.len() - f,
    {
        let file = &files[f];
        assert(files@.take(f + 1).drop_last() =~= files@.take(f as int));
        assert(files@.take(f + 1).last() == *file);
        assert(pending_views(unlinked.new_unlinked_texts@) =~= seq![]);
        let mut idx: usize = 0;
        while idx < file.nodes.len()
            invariant
                idx <= file.nodes@.len(),
                broken.fallback() == fallback_table(paths_of(files@)),
                broken.pending() == page_links(file.nodes@.take(idx as int), file.source@),
                broken_views(broken.broken_wikilinks@) == broken_in(files@.take(f as int), table, fallback_table(paths_of(files@))),
                crate::pattern::views(unlinked.patterns@) == pats,
                pending_views(unlinked.new_unlinked_texts@) == page_mentions(file.nodes@, idx as int, file.source@, pats),
                unlinked_views(unlinked.unlinked_texts@) == unlinked_in(files@.take(f as int), pats),
                sources_ascii(files@),
                regex_valid(config.boundary_pattern@),
                regex_valid(config.filename_spacing_pattern@),
                similar_ok(files@, *config),
                claims_all_ok(files@, *config),
                alias_patterns(pats, table),
                table == alias_table_of(files@, config.filename_to_alias.from_spec(), config.filename_to_alias.to_spec()),
                f < files@.len(),
                *file == files@[f as int],
                forall|g: int, i: int|
                    0 <= g < f && 0 <= i < files@[g].nodes@.len() ==> (#[trigger] node_mentions(files@[g].nodes@, i, files@[g].source@, pats)) is Some,
                forall|i: int| 0 <= i < idx ==> (#[trigger] node_mentions(file.nodes@, i, file.source@, pats)) is Some,
            decreases file.nodes@.len() - idx,
        {
            match unlinked.visit(&file.nodes, idx, file.source.as_str()) {
                Ok(()) => {},
                Err(e) => {
                    proof {
                        assert(node_mentions(files@[f as int].nodes@, idx as int, files@[f as int].source@, pats) is None);
                        assert(!mentions_ok(files@, pats));
                        assert(alias_patterns(pats, alias_table_of(files@, config.filename_to_alias.from_spec(), config.filename_to_alias.to_spec())));
                    }
                    return Err(OutputErrors::ParseError(ParseError::VisitError { file: file.path.clone(), source: e }));
                },
            }
            broken.visit(&file.nodes[idx], file.source.as_str());
            assert(file.nodes@.take(idx + 1).drop_last() =~= file.nodes@.take(idx as int));
            idx += 1;
        }
        assert(file.nodes@.take(file.nodes@.len() as int) =~= file.nodes@);
        broken.finalize_file(file.source.as_str(), file.path.as_str(), &dup.alias_table);
        unlinked.finalize_file(file.source.as_str(), file.path.as_str());
        f += 1;
    }
    assert(files@.take(files@.len() as int) =~= files@);
    proof {
        assert(mentions_ok(files@, pats));
        assert forall|p2: Seq<Seq<char>>| #[trigger] alias_patterns(p2, table) implies mentions_ok(files@, p2) by {
            crate::text::lemma_sorted_unique(pats, p2);
        }
    }
    let ghost found = broken.broken_wikilinks@;
    let b = broken.finalize(config.exclude.as_slice());
    let ghost part_c = b@;
    assert(broken_part(part_c, files@, *config));
    append_clean(&mut reports, b, Ghost(ex));
    let ghost found_u = unlinked.unlinked_texts@;
    let u = unlinked.finalize(config.exclude.as_slice());
    assert(unlinked_found(pats, found_u, files@, *config));
    assert(unlinked_part(u@, files@, *config));
    let ghost part_d = u@;
    append_clean(&mut reports, u, Ghost(ex));
    assert(reports@ == part_a + part_b + part_c + part_d);
    let out = OutputReport { reports };
    assert(run_shape(out.reports@, part_a, part_b, part_c, part_d, files@, *config));
    assert(shaped_output(out.reports@, files@, *config));
    let result: Result<OutputReport, OutputErrors> = Ok(out);
    result
}

/// What a fix asks the outer layer to do to the files.
#[derive(Clone, Debug, PartialEq, Eq)]
pub enum FixAction {
    /// Create an empty page.
    CreateFile { path: String },
    /// Replace a page's text.
    WriteFile { path: String, contents: String },
}

/// The most check passes one fix run makes before it gives up.
pub const MAX_FIX_ROUNDS: usize = 10;

/// What the fix loop does after a round of fixes.
#[derive(Clone, Copy, Debug, PartialEq, Eq, Structural)]
pub enum FixStep {
    CheckAgain,
    Done,
}

/// Fixing starts only on a clean working tree, or where a dirty one is allowed.
pub fn fix_gate(repo_dirty: bool, allow_dirty: bool) -> (r: Result<(), FixError>)
    ensures
        r is Err <==> repo_dirty && !allow_dirty,
        r matches Err(e) ==> e == FixError::DirtyRepo,
{
    if repo_dirty && !allow_dirty {
        Err(FixError::DirtyRepo)
    } else {
        Ok(())
    }
}

/// After round `round` (counted from 0): nothing changed, so the last check
/// stands; or check again, unless the cap is reached.
pub fn after_fixes(round: usize, any_fixes: bool) -> (r: Result<FixStep, FixError>)
    ensures
        !any_fixes ==> r == Ok::<FixStep, FixError>(FixStep::Done),
        any_fixes && round + 1 < MAX_FIX_ROUNDS ==> r == Ok::<FixStep, FixError>(FixStep::CheckAgain),
        any_fixes && round + 1 >= MAX_FIX_ROUNDS ==> r == Err::<FixStep, FixError>(FixError::TooManyRounds),
{
    if !any_fixes {
        Ok(FixStep::Done)
    } else if round < MAX_FIX_ROUNDS - 1 {
        Ok(FixStep::CheckAgain)
    } else {
        Err(FixError::TooManyRounds)
    }
}

/// `dir/name`, as `Path::join` puts a relative name under a directory.
pub open spec fn join_dir(dir: Seq<char>, name: Seq<char>) -> Seq<char> {
    if dir.len() == 0 {
        name
    } else if dir.last() == '/' {
        dir + name
    } else {
        dir + seq!['/'] + name
    }
}

/// The page that a fix creates for `alias`: the rewritten, lowercased alias
/// with `.md`, under the new-files directory.
pub open spec fn new_page_path(alias: Seq<char>, dir: Seq<char>, from: Seq<char>, to: Seq<char>) -> Seq<char> {
    join_dir(dir, lower_of(crate::pattern::regex_replace_all_of(from, alias, to)) + seq!['.', 'm', 'd'])
}

impl BrokenWikilink {
    /// Creates an empty page for the alias.
    pub fn fix(&self, config: &Config) -> (r: FixAction)
        ensures
            r matches FixAction::CreateFile { path } && path@ == new_page_path(
                self.alias@,
                config.new_files_directory@,
                config.alias_to_filename.from_spec(),
                config.alias_to_filename.to_spec(),
            ),
    {
        let mut name = lowercase(config.alias_to_filename.apply(self.alias.as_str()).as_str());
        name.append(".md");
        proof {
            reveal_strlit(".md");
        }
        let dir = &config.new_files_directory;
        let n = dir.as_str().unicode_len();
        let path = if n == 0 {
            name
        } else {
            let mut p = dir.clone();
            if dir.as_str().get_char(n - 1) != '/' {
                p.append("/");
                proof {
                    reveal_strlit("/");
                }
            }
            p.append(name.as_str());
            p
        };
        assert(path@ =~= new_page_path(self.alias@, config.new_files_directory@, config.alias_to_filename.from_spec(), config.alias_to_filename.to_spec()));
        FixAction::CreateFile { path }
    }
}

impl UnlinkedText {
    /// Puts the mention between `[[` and `]]` in its page.
    pub fn fix(&self) -> (r: FixAction)
        ensures
            r matches FixAction::WriteFile { path, contents } && path@ == self.src.name@ && contents@
                == wrapped(self.src.content@, self.span.offset as int, crate::wikilink::sat_add(self.span.offset as int, self.span.len as int)),
    {
        let end = crate::wikilink::sat_add_exec(self.span.offset, self.span.len);
        let contents = wrap_in_wikilink(self.src.content.as_str(), self.span.offset, end);
        FixAction::WriteFile { path: self.src.name.clone(), contents }
    }
}

/// The fixes of the reports that have one, in order.
pub open spec fn fixable(s: Seq<Report>) -> nat
    decreases s.len(),
{
    if s.len() == 0 {
        0
    } else {
        fixable(s.drop_last()) + match s.last() {
            Report::ThirdPass(_) => 1nat,
            _ => 0nat,
        }
    }
}

/// The broken-wikilink and unlinked-text reports, in order.
pub open spec fn fixable_reports(s: Seq<Report>) -> Seq<Report>
    decreases s.len(),
{
    if s.len() == 0 {
        seq![]
    } else {
        let rest = fixable_reports(s.drop_last());
        match s.last() {
            Report::ThirdPass(_) => rest.push(s.last()),
            _ => rest,
        }
    }
}

/// The fix for one report: a broken wikilink creates the page for its
/// alias; an unlinked mention wraps the mention in its page.
pub open spec fn fix_for(a: FixAction, r: Report, config: Config) -> bool {
    match r {
        Report::ThirdPass(ThirdPassReport::BrokenWikilink(b)) => a matches FixAction::CreateFile { path } && path@
            == new_page_path(
            b.alias@,
            config.new_files_directory@,
            config.alias_to_filename.from_spec(),
            config.alias_to_filename.to_spec(),
        ),
        Report::ThirdPass(ThirdPassReport::UnlinkedText(u)) => a matches FixAction::WriteFile { path, contents }
            && path@ == u.src.name@ && contents@ == wrapped(
            u.src.content@,
            u.span.offset as int,
            crate::wikilink::sat_add(u.span.offset as int, u.span.len as int),
        ),
        _ => false,
    }
}

/// One fix for each broken wikilink and each unlinked mention of the report.
pub fn fix_actions(report: &OutputReport, config: &Config) -> (r: Vec<FixAction>)
    ensures
        r@.len() == fixable(report.reports@),
        r@.len() == fixable_reports(report.reports@).len(),
        forall|k: int| 0 <= k < r@.len() ==> fix_for(#[trigger] r@[k], fixable_reports(report.reports@)[k], *config),
{
    let mut out: Vec<FixAction> = Vec::new();
    let mut i: usize = 0;
    while i < report.reports.len()
        invariant
            i <= report.reports@.len(),
            out@.len() == fixable(report.reports@.take(i as int)),
            out@.len() == fixable_reports(report.reports@.take(i as int)).len(),
            forall|k: int| 0 <= k < out@.len() ==> fix_for(#[trigger] out@[k], fixable_reports(report.reports@.take(i as int))[k], *config),
        decreases report.reports@.len() - i,
    {
        assert(report.reports@.take(i + 1).drop_last() =~= report.reports@.take(i as int));
        assert(report.reports@.take(i + 1).last() == report.reports@[i as int]);
        let ghost prev = out@;
        match &report.reports[i] {
            Report::ThirdPass(ThirdPassReport::BrokenWikilink(b)) => {
                let a = b.fix(config);
                out.push(a);
                assert(fix_for(a, report.reports@[i as int], *config));
            },
            Report::ThirdPass(ThirdPassReport::UnlinkedText(u)) => {
                let a = u.fix();
                out.push(a);
                assert(fix_for(a, report.reports@[i as int], *config));
            },
            _ => {},
        }
        assert forall|k: int| 0 <= k < out@.len() implies fix_for(#[trigger] out@[k], fixable_reports(report.reports@.take(i + 1))[k], *config) by {
            if k < prev.len() {
                assert(out@[k] == prev[k]);
            }
        }
        i += 1;
    }
    assert(report.reports@.take(report.reports@.len() as int) =~= report.reports@);
    out
}

/// A page created for an alias resolves it once its filename gives that
/// alias back: the alias table of the next run holds the alias, whatever the
/// other pages and whatever they declare.
pub proof fn lemma_new_page_resolves(
    files: Seq<Seq<char>>,
    new_path: Seq<char>,
    from: Seq<char>,
    to: Seq<char>,
    alias: Seq<char>,
    declared: Seq<Seq<char>>,
    declaring: Seq<char>,
)
    requires
        alias_of_filename(filename_of(new_path), from, to) == alias,
    ensures
        seed_table(files.push(new_path), from, to).contains_key(alias),
        claim_all(seed_table(files.push(new_path), from, to), declared, declaring).contains_key(alias),
{
    assert(files.push(new_path).drop_last() =~= files);
    crate::rules::duplicate_alias::lemma_claim_keeps_owner(seed_table(files.push(new_path), from, to), declared, declaring, alias);
}

pub open spec fn report_ids(s: Seq<Report>) -> Seq<Seq<char>> {
    s.map_values(|r: Report| r.id_view())
}

/// Which reports survive the exclude step depends on their ids alone.
proof fn lemma_kept_ids(s1: Seq<Report>, s2: Seq<Report>, ex: Seq<Seq<char>>)
    requires
        report_ids(s1) == report_ids(s2),
    ensures
        report_ids(keep_unexcluded(s1, ex)) == report_ids(keep_unexcluded(s2, ex)),
    decreases s1.len(),
{
    if s1.len() > 0 {
        assert(report_ids(s1.drop_last()) =~= report_ids(s1).drop_last());
        assert(report_ids(s2.drop_last()) =~= report_ids(s2).drop_last());
        lemma_kept_ids(s1.drop_last(), s2.drop_last(), ex);
        assert(s1.last().id_view() == report_ids(s1)[s1.len() - 1]);
        assert(s2.last().id_view() == report_ids(s2)[s2.len() - 1]);
        let k1 = keep_unexcluded(s1.drop_last(), ex);
        let k2 = keep_unexcluded(s2.drop_last(), ex);
        assert(report_ids(k1.push(s1.last())) =~= report_ids(k1).push(s1.last().id_view()));
        assert(report_ids(k2.push(s2.last())) =~= report_ids(k2).push(s2.last().id_view()));
    }
}

/// The lowercased ids of a deduplicated part are those of what it was made from.
proof fn lemma_deduped_ids(part: Seq<Report>, f: Seq<Report>, id: Seq<char>)
    requires
        deduped_from(part, f),
    ensures
        crate::rules::has_id(part, id) <==> exists|j: int| 0 <= j < f.len() && crate::rules::lower_id(f[j]) == id,
{
    if crate::rules::has_id(part, id) {
        let i = choose|i: int| 0 <= i < part.len() && crate::rules::lower_id(part[i]) == id;
        assert(f.contains(part[i]));
        let j = choose|j: int| 0 <= j < f.len() && f[j] == part[i];
    }
    if exists|j: int| 0 <= j < f.len() && crate::rules::lower_id(f[j]) == id {
        let j = choose|j: int| 0 <= j < f.len() && crate::rules::lower_id(f[j]) == id;
        assert(crate::rules::has_id(part, crate::rules::lower_id(f[j])));
    }
}

proof fn lemma_same_ids_same_lower(f1: Seq<Report>, f2: Seq<Report>, id: Seq<char>)
    requires
        report_ids(f1) == report_ids(f2),
    ensures
        (exists|j: int| 0 <= j < f1.len() && crate::rules::lower_id(f1[j]) == id) <==> (exists|j: int|
            0 <= j < f2.len() && crate::rules::lower_id(f2[j]) == id),
{
    reveal(crate::rules::lower_id);
    assert(f1.len() == report_ids(f1).len() && f2.len() == report_ids(f2).len());
    if exists|j: int| 0 <= j < f1.len() && crate::rules::lower_id(f1[j]) == id {
        let j = choose|j: int| 0 <= j < f1.len() && crate::rules::lower_id(f1[j]) == id;
        assert(report_ids(f1)[j] == report_ids(f2)[j]);
        assert(crate::rules::lower_id(f2[j]) == id);
    }
    if exists|j: int| 0 <= j < f2.len() && crate::rules::lower_id(f2[j]) == id {
        let j = choose|j: int| 0 <= j < f2.len() && crate::rules::lower_id(f2[j]) == id;
        assert(report_ids(f1)[j] == report_ids(f2)[j]);
        assert(crate::rules::lower_id(f1[j]) == id);
    }
}

proof fn lemma_similar_repeat(files: Seq<SourceFile>, config: Config, a1: Seq<Report>, a2: Seq<Report>)
    requires
        similar_part(a1, files, config),
        similar_part(a2, files, config),
    ensures
        forall|id: Seq<char>| crate::rules::has_id(a1, id) <==> crate::rules::has_id(a2, id),
{
    let ex = code_views(config.exclude@);
    // Similar filenames.
    let nt = crate::name::ngram_table(paths_of(files), config.ngram_size as int, config.boundary_pattern@, config.filename_spacing_pattern@);
    let th = config.filename_match_threshold;
    let sp = config.filename_spacing_pattern@;
    let pv = crate::rules::similar_filename::pair_views(config.ignore_word_pairs@);
    let fa1 = choose|found: Seq<SimilarFilename>|
        crate::rules::similar_filename::calculated_in_order(found, nt, th, sp, pv) && crate::rules::similar_filename::calculated(
            found, nt, th, sp, pv) && #[trigger] deduped_from(a1, keep_unexcluded(wrap_similars(found), ex));
    let fa2 = choose|found: Seq<SimilarFilename>|
        crate::rules::similar_filename::calculated_in_order(found, nt, th, sp, pv) && crate::rules::similar_filename::calculated(
            found, nt, th, sp, pv) && #[trigger] deduped_from(a2, keep_unexcluded(wrap_similars(found), ex));
    let ks1 = choose|ks: Seq<Seq<char>>| #[trigger] crate::rules::similar_filename::strictly_sorted(ks) && ks.to_set() == nt.dom()
        && crate::rules::similar_filename::match_pairs(fa1) == crate::rules::similar_filename::canonical_pairs(nt, ks, ks.len() as int, th, sp, pv);
    let ks2 = choose|ks: Seq<Seq<char>>| #[trigger] crate::rules::similar_filename::strictly_sorted(ks) && ks.to_set() == nt.dom()
        && crate::rules::similar_filename::match_pairs(fa2) == crate::rules::similar_filename::canonical_pairs(nt, ks, ks.len() as int, th, sp, pv);
    crate::text::lemma_sorted_unique(ks1, ks2);
    assert(report_ids(wrap_similars(fa1)) =~= report_ids(wrap_similars(fa2))) by {
        let m1 = crate::rules::similar_filename::match_pairs(fa1);
        let m2 = crate::rules::similar_filename::match_pairs(fa2);
        assert(m1 == m2);
        assert(fa1.len() == m1.len() && fa2.len() == m2.len());
        assert forall|i: int| 0 <= i < fa1.len() implies report_ids(wrap_similars(fa1))[i] == report_ids(wrap_similars(fa2))[i] by {
            assert(m1[i] == m2[i]);
            assert(m1[i] == (fa1[i].file1_ngram@, fa1[i].file2_ngram@));
            assert(m2[i] == (fa2[i].file1_ngram@, fa2[i].file2_ngram@));
            assert(wrap_similars(fa1)[i] == Report::SimilarFilename(fa1[i]));
            assert(wrap_similars(fa2)[i] == Report::SimilarFilename(fa2[i]));
            assert(fa1[i].id@ == crate::rules::similar_filename::similar_id(filename_of(nt[fa1[i].file1_ngram@]), filename_of(nt[fa1[i].file2_ngram@])));
            assert(fa2[i].id@ == crate::rules::similar_filename::similar_id(filename_of(nt[fa2[i].file1_ngram@]), filename_of(nt[fa2[i].file2_ngram@])));
        }
    }
    lemma_kept_ids(wrap_similars(fa1), wrap_similars(fa2), ex);
    assert forall|id: Seq<char>| crate::rules::has_id(a1, id) <==> crate::rules::has_id(a2, id) by {
        lemma_deduped_ids(a1, keep_unexcluded(wrap_similars(fa1), ex), id);
        lemma_deduped_ids(a2, keep_unexcluded(wrap_similars(fa2), ex), id);
        lemma_same_ids_same_lower(keep_unexcluded(wrap_similars(fa1), ex), keep_unexcluded(wrap_similars(fa2), ex), id);
    }
}

proof fn lemma_duplicate_repeat(files: Seq<SourceFile>, config: Config, b1: Seq<Report>, b2: Seq<Report>)
    requires
        duplicate_part(b1, files, config),
        duplicate_part(b2, files, config),
    ensures
        forall|id: Seq<char>| crate::rules::has_id(b1, id) <==> crate::rules::has_id(b2, id),
{
    let ex = code_views(config.exclude@);
    // Duplicate aliases.
    let fb1 = choose|found: Seq<DuplicateAlias>| found.map_values(|d: DuplicateAlias| d.id_view()) == collisions_in(
        files,
        seed_table(paths_of(files), config.filename_to_alias.from_spec(), config.filename_to_alias.to_spec()),
    ).map_values(|a: Seq<char>| crate::rules::duplicate_alias::duplicate_id(a)) && #[trigger] deduped_from(
        b1,
        keep_unexcluded(wrap_dups(found), ex),
    );
    let fb2 = choose|found: Seq<DuplicateAlias>| found.map_values(|d: DuplicateAlias| d.id_view()) == collisions_in(
        files,
        seed_table(paths_of(files), config.filename_to_alias.from_spec(), config.filename_to_alias.to_spec()),
    ).map_values(|a: Seq<char>| crate::rules::duplicate_alias::duplicate_id(a)) && #[trigger] deduped_from(
        b2,
        keep_unexcluded(wrap_dups(found), ex),
    );
    assert(report_ids(wrap_dups(fb1)) =~= fb1.map_values(|d: DuplicateAlias| d.id_view()));
    assert(report_ids(wrap_dups(fb2)) =~= fb2.map_values(|d: DuplicateAlias| d.id_view()));
    lemma_kept_ids(wrap_dups(fb1), wrap_dups(fb2), ex);
    assert forall|id: Seq<char>| crate::rules::has_id(b1, id) <==> crate::rules::has_id(b2, id) by {
        lemma_deduped_ids(b1, keep_unexcluded(wrap_dups(fb1), ex), id);
        lemma_deduped_ids(b2, keep_unexcluded(wrap_dups(fb2), ex), id);
        lemma_same_ids_same_lower(keep_unexcluded(wrap_dups(fb1), ex), keep_unexcluded(wrap_dups(fb2), ex), id);
    }
}

proof fn lemma_broken_repeat(files: Seq<SourceFile>, config: Config, c1: Seq<Report>, c2: Seq<Report>)
    requires
        broken_part(c1, files, config),
        broken_part(c2, files, config),
    ensures
        forall|id: Seq<char>| crate::rules::has_id(c1, id) <==> crate::rules::has_id(c2, id),
{
    let ex = code_views(config.exclude@);
    // Broken wikilinks.
    let table = alias_table_of(files, config.filename_to_alias.from_spec(), config.filename_to_alias.to_spec());
    let fc1 = choose|found: Seq<BrokenWikilink>| broken_views(found) == broken_in(files, table, fallback_table(paths_of(files)))
        && #[trigger] deduped_from(c1, keep_unexcluded(third_pass_broken(found), ex));
    let fc2 = choose|found: Seq<BrokenWikilink>| broken_views(found) == broken_in(files, table, fallback_table(paths_of(files)))
        && #[trigger] deduped_from(c2, keep_unexcluded(third_pass_broken(found), ex));
    assert(report_ids(third_pass_broken(fc1)) =~= report_ids(third_pass_broken(fc2))) by {
        assert(fc1.len() == broken_views(fc1).len() && fc2.len() == broken_views(fc2).len());
        assert forall|i: int| 0 <= i < fc1.len() implies report_ids(third_pass_broken(fc1))[i] == report_ids(third_pass_broken(fc2))[i] by {
            assert(broken_views(fc1)[i] == broken_views(fc2)[i]);
            assert(broken_views(fc1)[i].0 == fc1[i].id@);
            assert(broken_views(fc2)[i].0 == fc2[i].id@);
            assert(third_pass_broken(fc1)[i] == Report::ThirdPass(ThirdPassReport::BrokenWikilink(fc1[i])));
            assert(third_pass_broken(fc2)[i] == Report::ThirdPass(ThirdPassReport::BrokenWikilink(fc2[i])));
        }
    }
    lemma_kept_ids(third_pass_broken(fc1), third_pass_broken(fc2), ex);
    assert forall|id: Seq<char>| crate::rules::has_id(c1, id) <==> crate::rules::has_id(c2, id) by {
        lemma_deduped_ids(c1, keep_unexcluded(third_pass_broken(fc1), ex), id);
        lemma_deduped_ids(c2, keep_unexcluded(third_pass_broken(fc2), ex), id);
        lemma_same_ids_same_lower(keep_unexcluded(third_pass_broken(fc1), ex), keep_unexcluded(third_pass_broken(fc2), ex), id);
    }
}

proof fn lemma_unlinked_repeat(files: Seq<SourceFile>, config: Config, d1: Seq<Report>, d2: Seq<Report>)
    requires
        unlinked_part(d1, files, config),
        unlinked_part(d2, files, config),
    ensures
        forall|id: Seq<char>| crate::rules::has_id(d1, id) <==> crate::rules::has_id(d2, id),
{
    let ex = code_views(config.exclude@);
    // Unlinked mentions.
    let (p1, fd1) = choose|pats: Seq<Seq<char>>, found: Seq<UnlinkedText>|
        #[trigger] unlinked_found(pats, found, files, config) && deduped_from(d1, keep_unexcluded(third_pass_unlinked(found), ex));
    let (p2, fd2) = choose|pats: Seq<Seq<char>>, found: Seq<UnlinkedText>|
        #[trigger] unlinked_found(pats, found, files, config) && deduped_from(d2, keep_unexcluded(third_pass_unlinked(found), ex));
    crate::text::lemma_sorted_unique(p1, p2);
    assert(report_ids(third_pass_unlinked(fd1)) =~= report_ids(third_pass_unlinked(fd2))) by {
        assert(fd1.len() == unlinked_views(fd1).len() && fd2.len() == unlinked_views(fd2).len());
        assert forall|i: int| 0 <= i < fd1.len() implies report_ids(third_pass_unlinked(fd1))[i] == report_ids(third_pass_unlinked(fd2))[i] by {
            assert(unlinked_views(fd1)[i] == unlinked_views(fd2)[i]);
            assert(unlinked_views(fd1)[i].0 == fd1[i].id@);
            assert(unlinked_views(fd2)[i].0 == fd2[i].id@);
            assert(third_pass_unlinked(fd1)[i] == Report::ThirdPass(ThirdPassReport::UnlinkedText(fd1[i])));
            assert(third_pass_unlinked(fd2)[i] == Report::ThirdPass(ThirdPassReport::UnlinkedText(fd2[i])));
        }
    }
    lemma_kept_ids(third_pass_unlinked(fd1), third_pass_unlinked(fd2), ex);
    assert forall|id: Seq<char>| crate::rules::has_id(d1, id) <==> crate::rules::has_id(d2, id) by {
        lemma_deduped_ids(d1, keep_unexcluded(third_pass_unlinked(fd1), ex), id);
        lemma_deduped_ids(d2, keep_unexcluded(third_pass_unlinked(fd2), ex), id);
        lemma_same_ids_same_lower(keep_unexcluded(third_pass_unlinked(fd1), ex), keep_unexcluded(third_pass_unlinked(fd2), ex), id);
    }
}

/// Two runs on the same pages and settings report the same similar
/// filenames, the same duplicate aliases, the same broken wikilinks and the
/// same unlinked mentions: their parts hold the same ids.
pub proof fn lemma_runs_repeat(
    files: Seq<SourceFile>,
    config: Config,
    a1: Seq<Report>,
    a2: Seq<Report>,
    b1: Seq<Report>,
    b2: Seq<Report>,
    c1: Seq<Report>,
    c2: Seq<Report>,
    d1: Seq<Report>,
    d2: Seq<Report>,
)
    requires
        similar_part(a1, files, config),
        similar_part(a2, files, config),
        duplicate_part(b1, files, config),
        duplicate_part(b2, files, config),
        broken_part(c1, files, config),
        broken_part(c2, files, config),
        unlinked_part(d1, files, config),
        unlinked_part(d2, files, config),
    ensures
        forall|id: Seq<char>| crate::rules::has_id(a1, id) <==> crate::rules::has_id(a2, id),
        forall|id: Seq<char>| crate::rules::has_id(b1, id) <==> crate::rules::has_id(b2, id),
        forall|id: Seq<char>| crate::rules::has_id(c1, id) <==> crate::rules::has_id(c2, id),
        forall|id: Seq<char>| crate::rules::has_id(d1, id) <==> crate::rules::has_id(d2, id),
{
    lemma_similar_repeat(files, config, a1, a2);
    lemma_duplicate_repeat(files, config, b1, b2);
    lemma_broken_repeat(files, config, c1, c2);
    lemma_unlinked_repeat(files, config, d1, d2);
}

proof fn lemma_has_id_concat(x: Seq<Report>, y: Seq<Report>, id: Seq<char>)
    ensures
        crate::rules::has_id(x + y, id) <==> crate::rules::has_id(x, id) || crate::rules::has_id(y, id),
{
    if crate::rules::has_id(x + y, id) {
        let i = choose|i: int| 0 <= i < (x + y).len() && crate::rules::lower_id((x + y)[i]) == id;
        if i < x.len() {
            assert((x + y)[i] == x[i]);
        } else {
            assert((x + y)[i] == y[i - x.len()]);
        }
    }
    if crate::rules::has_id(x, id) {
        let i = choose|i: int| 0 <= i < x.len() && crate::rules::lower_id(x[i]) == id;
        assert((x + y)[i] == x[i]);
    }
    if crate::rules::has_id(y, id) {
        let i = choose|i: int| 0 <= i < y.len() && crate::rules::lower_id(y[i]) == id;
        assert((x + y)[i + x.len()] == y[i]);
    }
}

/// Two check runs on unchanged pages and settings report the same
/// violations: every id that one run reports, the other reports too.
pub proof fn lemma_check_idempotent(r1: Seq<Report>, r2: Seq<Report>, files: Seq<SourceFile>, config: Config)
    requires
        shaped_output(r1, files, config),
        shaped_output(r2, files, config),
    ensures
        forall|id: Seq<char>| crate::rules::has_id(r1, id) <==> crate::rules::has_id(r2, id),
{
    let (a1, b1, c1, d1) = choose|a: Seq<Report>, b: Seq<Report>, c: Seq<Report>, d: Seq<Report>|
        #[trigger] run_shape(r1, a, b, c, d, files, config);
    let (a2, b2, c2, d2) = choose|a: Seq<Report>, b: Seq<Report>, c: Seq<Report>, d: Seq<Report>|
        #[trigger] run_shape(r2, a, b, c, d, files, config);
    lemma_runs_repeat(files, config, a1, a2, b1, b2, c1, c2, d1, d2);
    assert forall|id: Seq<char>| crate::rules::has_id(r1, id) <==> crate::rules::has_id(r2, id) by {
        lemma_has_id_concat(a1 + b1 + c1, d1, id);
        lemma_has_id_concat(a1 + b1, c1, id);
        lemma_has_id_concat(a1, b1, id);
        lemma_has_id_concat(a2 + b2 + c2, d2, id);
        lemma_has_id_concat(a2 + b2, c2, id);
        lemma_has_id_concat(a2, b2, id);
    }
}

} // verus!
