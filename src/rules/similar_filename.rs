//! Filenames that share a near-identical n-gram.
use vstd::prelude::*;
use fuzzy_matcher::FuzzyMatcher;
use crate::name::{filename_of, get_filename};
use crate::ngrams::{words_of, MissingSubstringError, Ngram};
use crate::pattern::{
    compile, escape, is_match, regex_escape_of, regex_is_match_of, regex_replace_all_of,
    regex_valid, replace_all, CompiledRegex,
};
use crate::rules::{ErrorCode, Span, SimilarFilename};
use crate::strmap::{str_map_entries, StrMap};
use crate::text::{find_text, lower_of, lowercase, occurs_at, same_text, seq_lt, text_lt};

verus! {

pub const CODE: &'static str = "similar::name";

/// The score that `SkimMatcherV2::fuzzy_match` gives `pattern` within `choice`.
pub uninterp spec fn skim_score(choice: Seq<char>, pattern: Seq<char>) -> Option<i64>;

/// Relies on `fuzzy_matcher::skim::SkimMatcherV2::fuzzy_match` with the default
/// matcher: a score when `pattern` matches fuzzily within `choice`, else none.
#[verifier::external_body]
fn fuzzy_score(choice: &str, pattern: &str) -> (r: Option<i64>)
    ensures
        r == skim_score(choice@, pattern@),
{
    fuzzy_matcher::skim::SkimMatcherV2::default().fuzzy_match(choice, pattern)
}

#[derive(Clone, Debug, PartialEq, Eq)]
pub enum CalculateError {
    MissingSubstringError(MissingSubstringError),
    /// A pattern built from a filename and the spacing pattern did not compile.
    RegexCompilationError { compilation_string: String },
}

/// `i` is where `needle` first occurs in `hay`.
pub open spec fn first_occurrence(hay: Seq<char>, needle: Seq<char>, i: int) -> bool {
    occurs_at(hay, needle, i) && forall|j: int| 0 <= j < i ==> !occurs_at(hay, needle, j)
}

/// The pattern that tells whether a name starts with `filename` followed by spacing.
pub open spec fn prefix_pattern(filename: Seq<char>, spacing: Seq<char>) -> Seq<char> {
    seq!['^'] + regex_escape_of(filename) + seq!['('] + spacing + seq![')']
}

/// One filename is the other's group: the other starts with it and then spacing.
pub open spec fn prefix_group(file1: Seq<char>, file2: Seq<char>, spacing: Seq<char>) -> bool {
    let f1 = filename_of(file1);
    let f2 = filename_of(file2);
    regex_is_match_of(prefix_pattern(f1, spacing), f2) || regex_is_match_of(
        prefix_pattern(f2, spacing),
        f1,
    )
}

/// Both prefix patterns of the pair compile.
pub open spec fn prefix_patterns_valid(file1: Seq<char>, file2: Seq<char>, spacing: Seq<char>) -> bool {
    regex_valid(prefix_pattern(filename_of(file1), spacing)) && regex_valid(
        prefix_pattern(filename_of(file2), spacing),
    )
}

/// `similar::name::<first>::<second>`, the two names in lexicographic order.
pub open spec fn similar_id(name1: Seq<char>, name2: Seq<char>) -> Seq<char> {
    let sep = seq![':', ':'];
    let code = seq!['s', 'i', 'm', 'i', 'l', 'a', 'r', ':', ':', 'n', 'a', 'm', 'e'];
    if seq_lt(name1, name2) {
        code + sep + name1 + sep + name2
    } else {
        code + sep + name2 + sep + name1
    }
}

/// A similar-filename report names its pair the same way whichever file
/// comes first, so the two reports of one pair collapse into one.
pub proof fn lemma_similar_id_symmetric(name1: Seq<char>, name2: Seq<char>)
    ensures
        similar_id(name1, name2) == similar_id(name2, name1),
{
    crate::text::lemma_seq_lt_total(name1, name2);
}

fn build_prefix_pattern(filename: &str, spacing: &CompiledRegex) -> (r: String)
    ensures
        r@ == prefix_pattern(filename@, spacing@),
{
    let mut out = String::from_str("^");
    out.append(escape(filename).as_str());
    out.append("(");
    out.append(spacing.as_str());
    out.append(")");
    proof {
        reveal_strlit("^");
        reveal_strlit("(");
        reveal_strlit(")");
    }
    assert(out@ =~= prefix_pattern(filename@, spacing@));
    out
}

pub open spec fn pair_views(pairs: Seq<(String, String)>) -> Seq<(Seq<char>, Seq<char>)> {
    pairs.map_values(|p: (String, String)| (p.0@, p.1@))
}

/// The two n-grams form one of the ignored word pairs, in either order.
pub open spec fn ignored(a: Seq<char>, b: Seq<char>, pairs: Seq<(Seq<char>, Seq<char>)>) -> bool {
    exists|t: int| 0 <= t < pairs.len() && ((pairs[t].0 == a && pairs[t].1 == b) || (pairs[t].0 == b && pairs[t].1 == a))
}

/// `other` is a match for `ngram`: same number of words, not an ignored pair,
/// from a different file that is not its group, and scored above the threshold.
pub open spec fn qualifies(
    table: Map<Seq<char>, Seq<char>>,
    ngram: Seq<char>,
    other: Seq<char>,
    threshold: i64,
    spacing: Seq<char>,
    pairs: Seq<(Seq<char>, Seq<char>)>,
) -> bool {
    &&& words_of(ngram).len() == words_of(other).len()
    &&& !ignored(ngram, other, pairs)
    &&& table[ngram] != table[other]
    &&& !prefix_group(table[ngram], table[other], spacing)
    &&& skim_score(ngram, other) matches Some(score) && score > threshold
}

/// Some report of `v` is for the n-gram `k`.
pub open spec fn reported(v: Seq<SimilarFilename>, k: Seq<char>) -> bool {
    exists|t: int| 0 <= t < v.len() && v[t].file1_ngram@ == k
}

/// What comparing the n-grams of `table` yields: each report pairs two
/// n-grams of the table that qualify, with their score; each n-gram of the
/// table has a report, or no partner that qualifies.
pub open spec fn calculated(
    v: Seq<SimilarFilename>,
    table: Map<Seq<char>, Seq<char>>,
    threshold: i64,
    spacing: Seq<char>,
    pairs: Seq<(Seq<char>, Seq<char>)>,
) -> bool {
    &&& forall|i: int|
        0 <= i < v.len() ==> {
            let s = #[trigger] v[i];
            &&& table.contains_key(s.file1_ngram@)
            &&& table.contains_key(s.file2_ngram@)
            &&& qualifies(table, s.file1_ngram@, s.file2_ngram@, threshold, spacing, pairs)
            &&& prefix_patterns_valid(table[s.file1_ngram@], table[s.file2_ngram@], spacing)
            &&& skim_score(s.file1_ngram@, s.file2_ngram@) == Some(s.score)
        }
    &&& forall|k: Seq<char>|
        #[trigger] table.contains_key(k) ==> reported(v, k) || (forall|o: Seq<char>|
            table.contains_key(o) ==> !#[trigger] qualifies(table, k, o, threshold, spacing, pairs))
}

/// The first n-gram of `ks`, from index `j` on, that qualifies as a match for `k`.
pub open spec fn first_partner(
    table: Map<Seq<char>, Seq<char>>,
    k: Seq<char>,
    ks: Seq<Seq<char>>,
    j: int,
    threshold: i64,
    spacing: Seq<char>,
    pairs: Seq<(Seq<char>, Seq<char>)>,
) -> Option<Seq<char>>
    decreases ks.len() - j,
{
    if j < 0 || j >= ks.len() {
        None
    } else if qualifies(table, k, ks[j], threshold, spacing, pairs) {
        Some(ks[j])
    } else {
        first_partner(table, k, ks, j + 1, threshold, spacing, pairs)
    }
}

/// The matched pairs for the first `n` n-grams of `ks`: each n-gram with
/// its first qualifying partner in `ks`, if it has one.
pub open spec fn canonical_pairs(
    table: Map<Seq<char>, Seq<char>>,
    ks: Seq<Seq<char>>,
    n: int,
    threshold: i64,
    spacing: Seq<char>,
    pairs: Seq<(Seq<char>, Seq<char>)>,
) -> Seq<(Seq<char>, Seq<char>)>
    decreases n,
{
    if n <= 0 {
        seq![]
    } else {
        canonical_pairs(table, ks, n - 1, threshold, spacing, pairs) + match first_partner(
            table,
            ks[n - 1],
            ks,
            0,
            threshold,
            spacing,
            pairs,
        ) {
            Some(o) => seq![(ks[n - 1], o)],
            None => seq![],
        }
    }
}

pub open spec fn match_pairs(v: Seq<SimilarFilename>) -> Seq<(Seq<char>, Seq<char>)> {
    v.map_values(|s: SimilarFilename| (s.file1_ngram@, s.file2_ngram@))
}

pub open spec fn strictly_sorted(ks: Seq<Seq<char>>) -> bool {
    forall|i: int, j: int| 0 <= i < j < ks.len() ==> seq_lt(#[trigger] ks[i], #[trigger] ks[j])
}

/// The reports, in order, are those of the table's n-grams taken in
/// increasing order, each with its first qualifying partner in that order;
/// each names its two files' names.
pub open spec fn calculated_in_order(
    v: Seq<SimilarFilename>,
    table: Map<Seq<char>, Seq<char>>,
    threshold: i64,
    spacing: Seq<char>,
    pairs: Seq<(Seq<char>, Seq<char>)>,
) -> bool {
    &&& exists|ks: Seq<Seq<char>>|
        #[trigger] strictly_sorted(ks) && ks.to_set() == table.dom() && match_pairs(v) == canonical_pairs(
            table,
            ks,
            ks.len() as int,
            threshold,
            spacing,
            pairs,
        )
    &&& forall|i: int|
        0 <= i < v.len() ==> (#[trigger] v[i]).id@ == similar_id(
            filename_of(table[v[i].file1_ngram@]),
            filename_of(table[v[i].file2_ngram@]),
        )
}

/// The report for `k` and its partner `o` can be made: each n-gram occurs
/// in its lowercased path once spacing is made spaces.
pub open spec fn report_ok(table: Map<Seq<char>, Seq<char>>, k: Seq<char>, o: Seq<char>, spacing: Seq<char>) -> bool {
    (exists|i: int| occurs_at(regex_replace_all_of(spacing, lower_of(table[k]), seq![' ']), k, i)) && (exists|i: int|
        occurs_at(regex_replace_all_of(spacing, lower_of(table[o]), seq![' ']), o, i))
}

/// The pair reaches the group test: same number of words, not ignored,
/// different files.
pub open spec fn reaches_group_test(table: Map<Seq<char>, Seq<char>>, k: Seq<char>, o: Seq<char>, pairs: Seq<(Seq<char>, Seq<char>)>) -> bool {
    words_of(k).len() == words_of(o).len() && !ignored(k, o, pairs) && table[k] != table[o]
}

/// Scanning the partners of `k` from index `j` on meets no error: every
/// pair that reaches the group test has valid prefix patterns, and the first
/// qualifying partner's report can be made.
pub open spec fn scan_ok(
    table: Map<Seq<char>, Seq<char>>,
    k: Seq<char>,
    ks: Seq<Seq<char>>,
    j: int,
    threshold: i64,
    spacing: Seq<char>,
    pairs: Seq<(Seq<char>, Seq<char>)>,
) -> bool
    decreases ks.len() - j,
{
    if j < 0 || j >= ks.len() {
        true
    } else if reaches_group_test(table, k, ks[j], pairs) && !prefix_patterns_valid(table[k], table[ks[j]], spacing) {
        false
    } else if qualifies(table, k, ks[j], threshold, spacing, pairs) {
        report_ok(table, k, ks[j], spacing)
    } else {
        scan_ok(table, k, ks, j + 1, threshold, spacing, pairs)
    }
}

/// The scans of the first `n` n-grams of `ks` meet no error.
pub open spec fn scans_ok(
    table: Map<Seq<char>, Seq<char>>,
    ks: Seq<Seq<char>>,
    n: int,
    threshold: i64,
    spacing: Seq<char>,
    pairs: Seq<(Seq<char>, Seq<char>)>,
) -> bool
    decreases n,
{
    if n <= 0 {
        true
    } else {
        scans_ok(table, ks, n - 1, threshold, spacing, pairs) && scan_ok(table, ks[n - 1], ks, 0, threshold, spacing, pairs)
    }
}

/// Comparing the n-grams of the table, in increasing order, meets no error.
pub open spec fn calculation_ok(
    table: Map<Seq<char>, Seq<char>>,
    threshold: i64,
    spacing: Seq<char>,
    pairs: Seq<(Seq<char>, Seq<char>)>,
) -> bool {
    forall|ks: Seq<Seq<char>>|
        #[trigger] strictly_sorted(ks) && ks.to_set() == table.dom() ==> scans_ok(table, ks, ks.len() as int, threshold, spacing, pairs)
}

proof fn lemma_scans_ok_prefix(
    table: Map<Seq<char>, Seq<char>>,
    ks: Seq<Seq<char>>,
    n: int,
    m: int,
    threshold: i64,
    spacing: Seq<char>,
    pairs: Seq<(Seq<char>, Seq<char>)>,
)
    requires
        0 <= m <= n,
        scans_ok(table, ks, n, threshold, spacing, pairs),
    ensures
        scans_ok(table, ks, m, threshold, spacing, pairs),
    decreases n,
{
    if m < n {
        lemma_scans_ok_prefix(table, ks, n - 1, m, threshold, spacing, pairs);
    }
}

fn is_ignored(a: &str, b: &str, pairs: &Vec<(String, String)>) -> (r: bool)
    ensures
        r == ignored(a@, b@, pair_views(pairs@)),
{
    let ghost pv = pair_views(pairs@);
    let mut t: usize = 0;
    while t < pairs.len()
        invariant
            t <= pairs@.len(),
            pv == pair_views(pairs@),
            forall|u: int|
                0 <= u < t ==> !((pv[u].0 == a@ && pv[u].1 == b@) || (pv[u].0 == b@ && pv[u].1
                    == a@)),
        decreases pairs@.len() - t,
    {
        let (x, y) = (&pairs[t].0, &pairs[t].1);
        if (same_text(x.as_str(), a) && same_text(y.as_str(), b)) || (same_text(x.as_str(), b)
            && same_text(y.as_str(), a)) {
            assert(pv[t as int].0 == x@ && pv[t as int].1 == y@);
            return true;
        }
        t += 1;
    }
    false
}

impl SimilarFilename {
    /// Compares every two n-grams of the table, taken in increasing order:
    /// for each n-gram, the first partner that qualifies gives a report, and
    /// no further partner is sought.
    pub fn calculate(
        file_ngrams: &StrMap,
        filename_match_threshold: i64,
        spacing_regex: &CompiledRegex,
        ignore_word_pairs: &Vec<(String, String)>,
    ) -> (r: Result<Vec<SimilarFilename>, CalculateError>)
        ensures
            r matches Ok(v) ==> calculated(
                v@,
                str_map_entries(*file_ngrams),
                filename_match_threshold,
                spacing_regex@,
                pair_views(ignore_word_pairs@),
            ),
            r is Ok <==> calculation_ok(
                str_map_entries(*file_ngrams),
                filename_match_threshold,
                spacing_regex@,
                pair_views(ignore_word_pairs@),
            ),
            r matches Ok(v) ==> calculated_in_order(
                v@,
                str_map_entries(*file_ngrams),
                filename_match_threshold,
                spacing_regex@,
                pair_views(ignore_word_pairs@),
            ),
    {
        let ghost table = str_map_entries(*file_ngrams);
        let ghost pv = pair_views(ignore_word_pairs@);
        let keys = file_ngrams.sorted_keys();
        let ghost ks = crate::pattern::views(keys@);
        assert(strictly_sorted(ks)) by {
            assert forall|a: int, b: int| 0 <= a < b < ks.len() implies seq_lt(#[trigger] ks[a], #[trigger] ks[b]) by {
                assert(ks[a] == keys@[a]@ && ks[b] == keys@[b]@);
            }
        }
        let mut matches: Vec<SimilarFilename> = Vec::new();
        let mut i: usize = 0;
        while i < keys.len()
            invariant
                i <= keys@.len(),
                ks == crate::pattern::views(keys@),
                ks.to_set() == table.dom(),
                table == str_map_entries(*file_ngrams),
                pv == pair_views(ignore_word_pairs@),
                forall|t: int|
                    0 <= t < matches@.len() ==> {
                        let s = #[trigger] matches@[t];
                        &&& table.contains_key(s.file1_ngram@)
                        &&& table.contains_key(s.file2_ngram@)
                        &&& qualifies(table, s.file1_ngram@, s.file2_ngram@, filename_match_threshold, spacing_regex@, pv)
                        &&& prefix_patterns_valid(table[s.file1_ngram@], table[s.file2_ngram@], spacing_regex@)
                        &&& skim_score(s.file1_ngram@, s.file2_ngram@) == Some(s.score)
                    },
                forall|u: int|
                    0 <= u < i ==> reported(matches@, #[trigger] ks[u])
                        || (forall|o: Seq<char>| table.contains_key(o) ==> !#[trigger] qualifies(table, ks[u], o, filename_match_threshold, spacing_regex@, pv)),
                match_pairs(matches@) == canonical_pairs(table, ks, i as int, filename_match_threshold, spacing_regex@, pv),
                forall|t: int|
                    0 <= t < matches@.len() ==> (#[trigger] matches@[t]).id@ == similar_id(
                        filename_of(table[matches@[t].file1_ngram@]),
                        filename_of(table[matches@[t].file2_ngram@]),
                    ),
                strictly_sorted(ks),
                scans_ok(table, ks, i as int, filename_match_threshold, spacing_regex@, pv),
            decreases keys@.len() - i,
        {
            let ngram = &keys[i];
            assert(ngram@ == ks[i as int]);
            assert(table.contains_key(ks[i as int])) by {
                assert(ks.contains(ks[i as int]));
            }
            let path = file_ngrams.get(ngram.as_str()).unwrap();
            let ngram_words = Ngram::from_text(ngram.clone()).nb_words();
            let mut found = false;
            let mut j: usize = 0;
            while j < keys.len() && !found
                invariant
                    i < keys@.len(),
                    j <= keys@.len(),
                    ks == crate::pattern::views(keys@),
                    ks.to_set() == table.dom(),
                    table == str_map_entries(*file_ngrams),
                    pv == pair_views(ignore_word_pairs@),
                    table.contains_key(ks[i as int]),
                    path@ == table[ks[i as int]],
                    ngram@ == ks[i as int],
                    ngram_words == words_of(ks[i as int]).len(),
                    forall|t: int|
                        0 <= t < matches@.len() ==> {
                            let s = #[trigger] matches@[t];
                            &&& table.contains_key(s.file1_ngram@)
                            &&& table.contains_key(s.file2_ngram@)
                            &&& qualifies(table, s.file1_ngram@, s.file2_ngram@, filename_match_threshold, spacing_regex@, pv)
                            &&& prefix_patterns_valid(table[s.file1_ngram@], table[s.file2_ngram@], spacing_regex@)
                            &&& skim_score(s.file1_ngram@, s.file2_ngram@) == Some(s.score)
                        },
                    forall|u: int|
                        0 <= u < i ==> reported(matches@, #[trigger] ks[u])
                            || (forall|o: Seq<char>| table.contains_key(o) ==> !#[trigger] qualifies(table, ks[u], o, filename_match_threshold, spacing_regex@, pv)),
                    found ==> reported(matches@, ks[i as int]),
                    found ==> j > 0 && first_partner(table, ks[i as int], ks, 0, filename_match_threshold, spacing_regex@, pv) == Some(ks[j - 1]),
                    found ==> match_pairs(matches@) == canonical_pairs(table, ks, i as int, filename_match_threshold, spacing_regex@, pv).push((ks[i as int], ks[j - 1])),
                    !found ==> first_partner(table, ks[i as int], ks, 0, filename_match_threshold, spacing_regex@, pv)
                        == first_partner(table, ks[i as int], ks, j as int, filename_match_threshold, spacing_regex@, pv),
                    !found ==> match_pairs(matches@) == canonical_pairs(table, ks, i as int, filename_match_threshold, spacing_regex@, pv),
                    strictly_sorted(ks),
                    scans_ok(table, ks, i as int, filename_match_threshold, spacing_regex@, pv),
                    found ==> scan_ok(table, ks[i as int], ks, 0, filename_match_threshold, spacing_regex@, pv),
                    !found ==> scan_ok(table, ks[i as int], ks, 0, filename_match_threshold, spacing_regex@, pv)
                        == scan_ok(table, ks[i as int], ks, j as int, filename_match_threshold, spacing_regex@, pv),
                    forall|t: int|
                        0 <= t < matches@.len() ==> (#[trigger] matches@[t]).id@ == similar_id(
                            filename_of(table[matches@[t].file1_ngram@]),
                            filename_of(table[matches@[t].file2_ngram@]),
                        ),
                    !found ==> forall|v: int| 0 <= v < j ==> !#[trigger] qualifies(table, ks[i as int], ks[v], filename_match_threshold, spacing_regex@, pv),
                decreases keys@.len() - j,
            {
                let other = &keys[j];
                assert(other@ == ks[j as int]);
                assert(table.contains_key(ks[j as int])) by {
                    assert(ks.contains(ks[j as int]));
                }
                let other_words = Ngram::from_text(other.clone()).nb_words();
                if ngram_words == other_words && !is_ignored(ngram.as_str(), other.as_str(), ignore_word_pairs) {
                    let other_path = file_ngrams.get(other.as_str()).unwrap();
                    if !same_text(path.as_str(), other_path.as_str()) {
                        let skip = match SimilarFilename::skip_special_cases(path.as_str(), other_path.as_str(), spacing_regex) {
                            Ok(b) => b,
                            Err(e) => {
                            proof {
                                assert(!scan_ok(table, ks[i as int], ks, 0, filename_match_threshold, spacing_regex@, pv));
                                assert(!scans_ok(table, ks, i + 1, filename_match_threshold, spacing_regex@, pv));
                                if scans_ok(table, ks, ks.len() as int, filename_match_threshold, spacing_regex@, pv) {
                                    lemma_scans_ok_prefix(table, ks, ks.len() as int, i + 1, filename_match_threshold, spacing_regex@, pv);
                                }
                                assert(strictly_sorted(ks) && ks.to_set() == table.dom());
                            }
                                return Err(e);
                            },
                        };
                        if !skip {
                            match fuzzy_score(ngram.as_str(), other.as_str()) {
                                Some(score) => {
                                    if score > filename_match_threshold {
                                        let g1 = Ngram::from_text(ngram.clone());
                                        let g2 = Ngram::from_text(other.clone());
                                        assert(qualifies(table, ks[i as int], ks[j as int], filename_match_threshold, spacing_regex@, pv));
                                        let report = match SimilarFilename::new(path.as_str(), &g1, other_path.as_str(), &g2, spacing_regex, score) {
                                            Ok(x) => x,
                                            Err(e) => {
                                            proof {
                                assert(!scan_ok(table, ks[i as int], ks, 0, filename_match_threshold, spacing_regex@, pv));
                                assert(!scans_ok(table, ks, i + 1, filename_match_threshold, spacing_regex@, pv));
                                if scans_ok(table, ks, ks.len() as int, filename_match_threshold, spacing_regex@, pv) {
                                    lemma_scans_ok_prefix(table, ks, ks.len() as int, i + 1, filename_match_threshold, spacing_regex@, pv);
                                }
                                assert(strictly_sorted(ks) && ks.to_set() == table.dom());
                            }
                                                return Err(e);
                                            },
                                        };
                                        assert(ks[i as int] == ngram@);
                                        assert(report.file1_ngram@ == ngram@);
                                        let ghost before = matches@;
                                        assert(qualifies(table, ks[i as int], ks[j as int], filename_match_threshold, spacing_regex@, pv));
                                        assert(report.id@ == similar_id(filename_of(table[ks[i as int]]), filename_of(table[ks[j as int]])));
                                        matches.push(report);
                                        assert(match_pairs(matches@) =~= match_pairs(before).push((ks[i as int], ks[j as int])));
                                        found = true;
                                        proof {
                                            assert(matches@[matches@.len() - 1] == report);
                                            assert forall|k: Seq<char>| reported(before, k) implies reported(matches@, k) by {
                                                let t = choose|t: int| 0 <= t < before.len() && before[t].file1_ngram@ == k;
                                                assert(matches@[t] == before[t]);
                                            }
                                        }
                                    }
                                },
                                None => {},
                            }
                        }
                    }
                }
                j += 1;
            }
            proof {
                assert(match_pairs(matches@) == canonical_pairs(table, ks, i + 1, filename_match_threshold, spacing_regex@, pv));
                if !found {
                    assert forall|o: Seq<char>| table.contains_key(o) implies !#[trigger] qualifies(table, ks[i as int], o, filename_match_threshold, spacing_regex@, pv) by {
                        assert(ks.to_set().contains(o));
                        let v = choose|v: int| 0 <= v < ks.len() && ks[v] == o;
                    }
                }
            }
            i += 1;
        }
        proof {
            assert forall|k: Seq<char>| #[trigger] table.contains_key(k) implies reported(matches@, k)
                || (forall|o: Seq<char>| table.contains_key(o) ==> !#[trigger] qualifies(table, k, o, filename_match_threshold, spacing_regex@, pv)) by {
                assert(ks.to_set().contains(k));
                let u = choose|u: int| 0 <= u < ks.len() && ks[u] == k;
            }
        }
        assert(match_pairs(matches@) == canonical_pairs(table, ks, ks.len() as int, filename_match_threshold, spacing_regex@, pv));
        assert(strictly_sorted(ks) && ks.to_set() == table.dom());
        proof {
            assert forall|ks2: Seq<Seq<char>>|
                #[trigger] strictly_sorted(ks2) && ks2.to_set() == table.dom() implies scans_ok(table, ks2, ks2.len() as int, filename_match_threshold, spacing_regex@, pv) by {
                crate::text::lemma_sorted_unique(ks, ks2);
            }
        }
        Ok(matches)
    }

    /// Whether the pair is a group and its member (`foo` and `foo___bar`),
    /// which is a deliberate hierarchy and not a near-duplicate.
    pub fn skip_special_cases(file1: &str, file2: &str, spacing_regex: &CompiledRegex) -> (r: Result<
        bool,
        CalculateError,
    >)
        ensures
            r is Ok <==> prefix_patterns_valid(file1@, file2@, spacing_regex@),
            r matches Ok(b) ==> b == prefix_group(file1@, file2@, spacing_regex@),
    {
        let f1 = get_filename(file1);
        let f2 = get_filename(file2);
        let p1 = build_prefix_pattern(f1.as_str(), spacing_regex);
        let re1 = match compile(p1.as_str()) {
            Some(re) => re,
            None => return Err(CalculateError::RegexCompilationError { compilation_string: p1 }),
        };
        let p2 = build_prefix_pattern(f2.as_str(), spacing_regex);
        let re2 = match compile(p2.as_str()) {
            Some(re) => re,
            None => return Err(CalculateError::RegexCompilationError { compilation_string: p2 }),
        };
        let out1 = is_match(&re1, f2.as_str());
        let out2 = is_match(&re2, f1.as_str());
        Ok(out1 || out2)
    }

    /// The report for two files whose n-grams matched with `score`; each
    /// n-gram is located in its lowercased path once spacing is made spaces.
    pub fn new(
        file1_path: &str,
        file1_ngram: &Ngram,
        file2_path: &str,
        file2_ngram: &Ngram,
        spacing_regex: &CompiledRegex,
        score: i64,
    ) -> (r: Result<SimilarFilename, CalculateError>)
        ensures
            r is Ok <==> (exists|i: int|
                occurs_at(
                    regex_replace_all_of(spacing_regex@, lower_of(file1_path@), seq![' ']),
                    file1_ngram@,
                    i,
                )) && (exists|i: int|
                occurs_at(
                    regex_replace_all_of(spacing_regex@, lower_of(file2_path@), seq![' ']),
                    file2_ngram@,
                    i,
                )),
            r matches Ok(s) ==> s.id@ == similar_id(filename_of(file1_path@), filename_of(file2_path@))
                && s.score == score && s.file1_ngram@ == file1_ngram@ && s.file2_ngram@
                == file2_ngram@,
            r matches Ok(s) ==> s.filepaths@ == lower_of(file1_path@) + seq!['\n'] + lower_of(file2_path@),
            r matches Ok(s) ==> s.file1_ngram_span.len == crate::ngrams::utf8_len(file1_ngram@)
                && s.file2_ngram_span.len == crate::ngrams::utf8_len(file2_ngram@),
            r matches Ok(s) ==> forall|i: int|
                first_occurrence(regex_replace_all_of(spacing_regex@, lower_of(file1_path@), seq![' ']), file1_ngram@, i)
                    ==> s.file1_ngram_span.offset == crate::text::location_offset_spec(s.filepaths@, 1, crate::wikilink::sat_add(i, 1)),
            r matches Ok(s) ==> forall|i: int|
                first_occurrence(regex_replace_all_of(spacing_regex@, lower_of(file2_path@), seq![' ']), file2_ngram@, i)
                    ==> s.file2_ngram_span.offset == crate::text::location_offset_spec(s.filepaths@, 2, crate::wikilink::sat_add(i, 1)),
            r matches Ok(s) ==> s.advice@ == "Maybe you should combine them into a single file?\nid: "@ + s.id@,
            r is Err ==> r matches Err(CalculateError::MissingSubstringError(_)),
    {
        let file1 = lowercase(file1_path);
        let file2 = lowercase(file2_path);
        let mut source = file1.clone();
        source.append("\n");
        source.append(file2.as_str());
        let spaced1 = replace_all(spacing_regex, file1.as_str(), " ");
        let spaced2 = replace_all(spacing_regex, file2.as_str(), " ");
        proof {
            reveal_strlit(" ");
        }
        assert(" "@ =~= seq![' ']);
        let find1 = match find_text(spaced1.as_str(), file1_ngram.as_str()) {
            Some(i) => i,
            None => {
                return Err(
                    CalculateError::MissingSubstringError(
                        MissingSubstringError {
                            path: file1_path.to_string(),
                            ngram: file1_ngram.as_str().to_string(),
                        },
                    ),
                );
            },
        };
        let find2 = match find_text(spaced2.as_str(), file2_ngram.as_str()) {
            Some(i) => i,
            None => {
                return Err(
                    CalculateError::MissingSubstringError(
                        MissingSubstringError {
                            path: file2_path.to_string(),
                            ngram: file2_ngram.as_str().to_string(),
                        },
                    ),
                );
            },
        };
        assert forall|i: int| first_occurrence(spaced1@, file1_ngram@, i) implies i == find1 by {
            if i < find1 {
            } else if i > find1 {
            }
        }
        assert forall|i: int| first_occurrence(spaced2@, file2_ngram@, i) implies i == find2 by {
            if i < find2 {
            } else if i > find2 {
            }
        }
        proof {
            reveal_strlit("\n");
        }
        assert(source@ =~= lower_of(file1_path@) + seq!['\n'] + lower_of(file2_path@));
        let col1 = if find1 < usize::MAX { find1 + 1 } else { find1 };
        let col2 = if find2 < usize::MAX { find2 + 1 } else { find2 };
        let file1_ngram_span = Span {
            offset: crate::text::location_offset(source.as_str(), 1, col1),
            len: file1_ngram.len(),
        };
        let file2_ngram_span = Span {
            offset: crate::text::location_offset(source.as_str(), 2, col2),
            len: file2_ngram.len(),
        };
        let filename1 = get_filename(file1_path);
        let filename2 = get_filename(file2_path);
        let (lo, hi) = if text_lt(filename1.as_str(), filename2.as_str()) {
            (filename1, filename2)
        } else {
            (filename2, filename1)
        };
        let mut id = String::from_str(CODE);
        id.append("::");
        id.append(lo.as_str());
        id.append("::");
        id.append(hi.as_str());
        proof {
            reveal_strlit("similar::name");
            reveal_strlit("::");
        }
        assert(id@ =~= similar_id(filename_of(file1_path@), filename_of(file2_path@)));
        let mut advice = String::from_str("Maybe you should combine them into a single file?\nid: ");
        advice.append(id.as_str());
        assert(advice@ == "Maybe you should combine them into a single file?\nid: "@ + id@);
        Ok(
            SimilarFilename {
                id: ErrorCode::new(id),
                file1_ngram: file1_ngram.clone_ngram(),
                file2_ngram: file2_ngram.clone_ngram(),
                score,
                filepaths: source,
                file1_ngram_span,
                file2_ngram_span,
                advice,
            },
        )
    }
}

} // verus!
