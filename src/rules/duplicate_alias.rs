//! The alias table, and aliases that two pages claim.
use vstd::prelude::*;
use crate::document::{alias_views, declared_aliases, FrontMatterVisitor, YamlFrontMatter};
use crate::name::{filename_of, get_filename, Filename};
use crate::ngrams::MissingSubstringError;
use crate::pattern::views;
use crate::rules::broken_wikilink::add_if_absent;
use crate::rules::{DuplicateAlias, ErrorCode, NamedSource, RelatedDuplicate, Span};
use crate::sed::ReplacePair;
use crate::strmap::{str_map_entries, StrMap};
use crate::text::{find_text, lowercase, lower_of, occurs_at, same_text};
use crate::wikilink::{alias_of_filename, Alias};

verus! {

pub const CODE: &'static str = "name::alias::duplicate";

#[derive(Clone, Debug)]
pub enum NewDuplicateAliasError {
    MissingSubstringError(MissingSubstringError),
    /// A page declares the alias that its own filename gives: the alias
    /// table should never let that collide.
    AliasAndFilenameSame { filename: Filename, alias: Alias },
}

/// `name::alias::duplicate::<alias>`.
pub open spec fn duplicate_id(alias: Seq<char>) -> Seq<char> {
    seq!['n', 'a', 'm', 'e', ':', ':', 'a', 'l', 'i', 'a', 's', ':', ':', 'd', 'u', 'p', 'l', 'i', 'c', 'a', 't', 'e', ':', ':'] + alias
}

/// The table seeded with the filename alias of every file, first file first;
/// a later file whose filename gives a taken alias is left out.
pub open spec fn seed_table(files: Seq<Seq<char>>, from: Seq<char>, to: Seq<char>) -> Map<Seq<char>, Seq<char>>
    decreases files.len(),
{
    if files.len() == 0 {
        Map::empty()
    } else {
        add_if_absent(
            seed_table(files.drop_last(), from, to),
            alias_of_filename(filename_of(files.last()), from, to),
            files.last(),
        )
    }
}

/// The table once `path` claims each of `aliases` in order; a claim on a
/// taken alias is refused and the owner kept.
pub open spec fn claim_all(m: Map<Seq<char>, Seq<char>>, aliases: Seq<Seq<char>>, path: Seq<char>) -> Map<Seq<char>, Seq<char>>
    decreases aliases.len(),
{
    if aliases.len() == 0 {
        m
    } else {
        add_if_absent(claim_all(m, aliases.drop_last(), path), aliases.last(), path)
    }
}

/// The claims among `aliases` that are refused, in order.
pub open spec fn collisions(m: Map<Seq<char>, Seq<char>>, aliases: Seq<Seq<char>>, path: Seq<char>) -> Seq<Seq<char>>
    decreases aliases.len(),
{
    if aliases.len() == 0 {
        seq![]
    } else {
        let rest = collisions(m, aliases.drop_last(), path);
        if claim_all(m, aliases.drop_last(), path).contains_key(aliases.last()) {
            rest.push(aliases.last())
        } else {
            rest
        }
    }
}

/// The alias that the rewrite rule gives for the file at `path`.
pub open spec fn fa(path: Seq<char>, pair: &ReplacePair) -> Seq<char> {
    alias_of_filename(filename_of(path), pair.from_spec(), pair.to_spec())
}

/// No two of `files` have the same filename alias.
pub open spec fn distinct_filename_aliases(files: Seq<Seq<char>>, from: Seq<char>, to: Seq<char>) -> bool {
    forall|i: int, j: int|
        0 <= i < files.len() && 0 <= j < files.len() && i != j ==> alias_of_filename(
            filename_of(#[trigger] files[i]),
            from,
            to,
        ) != alias_of_filename(filename_of(#[trigger] files[j]), from, to)
}

proof fn lemma_seed_table_shape(files: Seq<Seq<char>>, from: Seq<char>, to: Seq<char>)
    requires
        distinct_filename_aliases(files, from, to),
    ensures
        forall|k: Seq<char>| #[trigger] seed_table(files, from, to).contains_key(k) <==> exists|i: int|
            0 <= i < files.len() && alias_of_filename(filename_of(files[i]), from, to) == k,
        forall|i: int|
            0 <= i < files.len() ==> seed_table(files, from, to)[alias_of_filename(filename_of(#[trigger] files[i]), from, to)]
                == files[i],
    decreases files.len(),
{
    if files.len() > 0 {
        let rest = files.drop_last();
        assert forall|i: int, j: int|
            0 <= i < rest.len() && 0 <= j < rest.len() && i != j implies alias_of_filename(
                filename_of(#[trigger] rest[i]),
                from,
                to,
            ) != alias_of_filename(filename_of(#[trigger] rest[j]), from, to) by {
            assert(rest[i] == files[i] && rest[j] == files[j]);
        }
        lemma_seed_table_shape(rest, from, to);
        let last_alias = alias_of_filename(filename_of(files.last()), from, to);
        assert(!seed_table(rest, from, to).contains_key(last_alias)) by {
            if seed_table(rest, from, to).contains_key(last_alias) {
                let i = choose|i: int| 0 <= i < rest.len() && alias_of_filename(filename_of(rest[i]), from, to) == last_alias;
                assert(files[i] == rest[i]);
                assert(alias_of_filename(filename_of(files[i]), from, to) != alias_of_filename(filename_of(files[files.len() - 1]), from, to));
            }
        }
        assert forall|k: Seq<char>| #[trigger] seed_table(files, from, to).contains_key(k) <==> exists|i: int|
            0 <= i < files.len() && alias_of_filename(filename_of(files[i]), from, to) == k by {
            if seed_table(files, from, to).contains_key(k) && k != last_alias {
                let i = choose|i: int| 0 <= i < rest.len() && alias_of_filename(filename_of(rest[i]), from, to) == k;
                assert(files[i] == rest[i]);
            }
            if exists|i: int| 0 <= i < files.len() && alias_of_filename(filename_of(files[i]), from, to) == k {
                let i = choose|i: int| 0 <= i < files.len() && alias_of_filename(filename_of(files[i]), from, to) == k;
                if i < rest.len() {
                    assert(rest[i] == files[i]);
                }
            }
        }
        assert forall|i: int| 0 <= i < files.len() implies seed_table(files, from, to)[alias_of_filename(filename_of(#[trigger] files[i]), from, to)]
            == files[i] by {
            if i < rest.len() {
                assert(rest[i] == files[i]);
                assert(alias_of_filename(filename_of(files[i]), from, to) != last_alias);
            }
        }
    }
}

/// The alias table does not depend on the order in which files are found:
/// when no two files share a filename alias, any two orders of the same
/// files seed the same table, and the pages' own claims never take a
/// filename alias from its file.
pub proof fn lemma_alias_table_order_free(
    files1: Seq<Seq<char>>,
    files2: Seq<Seq<char>>,
    from: Seq<char>,
    to: Seq<char>,
    declared: Seq<Seq<char>>,
    declaring: Seq<char>,
)
    requires
        files1.to_set() == files2.to_set(),
        distinct_filename_aliases(files1, from, to),
        distinct_filename_aliases(files2, from, to),
    ensures
        seed_table(files1, from, to) == seed_table(files2, from, to),
        forall|k: Seq<char>| #[trigger] seed_table(files1, from, to).contains_key(k) ==> claim_all(
            seed_table(files1, from, to),
            declared,
            declaring,
        )[k] == seed_table(files1, from, to)[k],
{
    lemma_seed_table_shape(files1, from, to);
    lemma_seed_table_shape(files2, from, to);
    let t1 = seed_table(files1, from, to);
    let t2 = seed_table(files2, from, to);
    assert forall|k: Seq<char>| t1.contains_key(k) implies t2.contains_key(k) && t1[k] == t2[k] by {
        let i = choose|i: int| 0 <= i < files1.len() && alias_of_filename(filename_of(files1[i]), from, to) == k;
        assert(files1.to_set().contains(files1[i]));
        assert(files2.to_set().contains(files1[i]));
        let j = choose|j: int| 0 <= j < files2.len() && files2[j] == files1[i];
        assert(t2[alias_of_filename(filename_of(files2[j]), from, to)] == files2[j]);
    }
    assert forall|k: Seq<char>| t2.contains_key(k) implies t1.contains_key(k) by {
        let j = choose|j: int| 0 <= j < files2.len() && alias_of_filename(filename_of(files2[j]), from, to) == k;
        assert(files2.to_set().contains(files2[j]));
        assert(files1.to_set().contains(files2[j]));
        let i = choose|i: int| 0 <= i < files1.len() && files1[i] == files2[j];
        assert(t1.contains_key(alias_of_filename(filename_of(files1[i]), from, to)));
    }
    assert(t1 =~= t2);
    assert forall|k: Seq<char>| #[trigger] t1.contains_key(k) implies claim_all(t1, declared, declaring)[k] == t1[k] by {
        lemma_claim_keeps_owner(t1, declared, declaring, k);
    }
}

/// A claim never takes an alias from its owner.
pub proof fn lemma_claim_keeps_owner(m: Map<Seq<char>, Seq<char>>, declared: Seq<Seq<char>>, p: Seq<char>, k: Seq<char>)
    requires
        m.contains_key(k),
    ensures
        claim_all(m, declared, p).contains_key(k),
        claim_all(m, declared, p)[k] == m[k],
    decreases declared.len(),
{
    if declared.len() > 0 {
        lemma_claim_keeps_owner(m, declared.drop_last(), p, k);
    }
}

/// The alias occurs in the lowercased content.
pub open spec fn occurs(content: Seq<char>, alias: Seq<char>) -> bool {
    exists|i: int| occurs_at(lower_of(content), alias, i)
}

/// The span is the first occurrence of the alias in the lowercased content.
pub open spec fn first_span(content: Seq<char>, alias: Seq<char>, span: Span) -> bool {
    &&& occurs_at(lower_of(content), alias, span.offset as int)
    &&& forall|j: int| 0 <= j < span.offset ==> !occurs_at(lower_of(content), alias, j)
    &&& span.len == crate::ngrams::utf8_len(alias)
}

/// The error names the file that lacks the alias, and the alias.
pub open spec fn missing_in(e: NewDuplicateAliasError, path: Seq<char>, alias: Seq<char>) -> bool {
    e matches NewDuplicateAliasError::MissingSubstringError(m) && m.path@ == path && m.ngram@ == alias
}

fn locate(alias: &Alias, path: &str, content: &str) -> (r: Result<Span, NewDuplicateAliasError>)
    ensures
        r is Ok <==> occurs(content@, alias@),
        r matches Ok(s) ==> first_span(content@, alias@, s),
        r is Err ==> missing_in(r->Err_0, path@, alias@),
{
    let lowered = lowercase(content);
    match find_text(lowered.as_str(), alias.as_str()) {
        Some(i) => Ok(Span { offset: i, len: alias.as_str().len() }),
        None => Err(
            NewDuplicateAliasError::MissingSubstringError(
                MissingSubstringError { path: path.to_string(), ngram: alias.as_str().to_string() },
            ),
        ),
    }
}

fn dup_id(alias: &Alias) -> (r: ErrorCode)
    ensures
        r@ == duplicate_id(alias@),
{
    let mut id = String::from_str(CODE);
    id.append("::");
    id.append(alias.as_str());
    proof {
        reveal_strlit("name::alias::duplicate");
        reveal_strlit("::");
    }
    assert(id@ =~= duplicate_id(alias@));
    ErrorCode::new(id)
}

/// A report that the page `content_path` declares the alias that the file
/// `name_path` is named after: it shows the first occurrence in that page
/// and advises deleting the alias there.
pub open spec fn name_content_report(d: DuplicateAlias, alias: Seq<char>, name_path: Seq<char>, content_path: Seq<char>, content: Seq<char>) -> bool {
    match d {
        DuplicateAlias::FileNameContentDuplicate { id, other_filename, src, alias: span, advice } => {
            &&& id@ == duplicate_id(alias)
            &&& other_filename@ == filename_of(name_path)
            &&& src.name@ == content_path
            &&& src.content@ == content
            &&& first_span(content, alias, span)
            &&& advice@ == "Delete the alias from "@ + content_path
        },
        _ => false,
    }
}

/// A report that two pages declare the alias: it shows the first occurrence
/// in the first page, and relates the same report told from the second.
pub open spec fn content_content_report(d: DuplicateAlias, alias: Seq<char>, p1: Seq<char>, c1: Seq<char>, p2: Seq<char>, c2: Seq<char>) -> bool {
    match d {
        DuplicateAlias::FileContentContentDuplicate { id, other_filename, src, alias: span, other } => {
            &&& id@ == duplicate_id(alias)
            &&& other_filename@ == filename_of(p2)
            &&& src.name@ == p1
            &&& src.content@ == c1
            &&& first_span(c1, alias, span)
            &&& other@.len() == 1
            &&& other@[0].id@ == duplicate_id(alias)
            &&& other@[0].other_filename@ == filename_of(p1)
            &&& other@[0].src.name@ == p2
            &&& other@[0].src.content@ == c2
            &&& first_span(c2, alias, other@[0].alias)
        },
        _ => false,
    }
}

/// Whether the report for `alias`, claimed by `p1` and owned by `p2`, can
/// be made: the two files differ and the alias occurs where it is shown.
pub open spec fn duplicate_ok(alias: Seq<char>, p1: Seq<char>, c1: Seq<char>, p2: Seq<char>, c2: Seq<char>, pair: &ReplacePair) -> bool {
    p1 != p2 && if fa(p1, pair) == alias {
        occurs(c2, alias)
    } else if fa(p2, pair) == alias {
        occurs(c1, alias)
    } else {
        occurs(c1, alias) && occurs(c2, alias)
    }
}

fn name_content_duplicate(alias: &Alias, name_path: &str, content_path: &str, content: &str) -> (r: Result<DuplicateAlias, NewDuplicateAliasError>)
    ensures
        r is Ok <==> occurs(content@, alias@),
        r is Ok ==> name_content_report(r->Ok_0, alias@, name_path@, content_path@, content@),
        r is Err ==> missing_in(r->Err_0, content_path@, alias@),
{
    let span = locate(alias, content_path, content)?;
    let mut advice = String::from_str("Delete the alias from ");
    advice.append(content_path);
    proof {
        reveal_strlit("Delete the alias from ");
    }
    Ok(DuplicateAlias::FileNameContentDuplicate {
        id: dup_id(alias),
        other_filename: get_filename(name_path),
        src: NamedSource { name: content_path.to_string(), content: content.to_string() },
        alias: span,
        advice,
    })
}

impl DuplicateAlias {
    /// The report for `alias`, claimed by `file1` and found owned by `file2`.
    /// When the alias is one file's filename alias, the report points at the
    /// other file's declaration; else both declarations are shown.
    pub fn new(
        alias: &Alias,
        file1_path: &str,
        file1_content: &str,
        file2_path: &str,
        file2_content: &str,
        filename_to_alias: &ReplacePair,
    ) -> (r: Result<DuplicateAlias, NewDuplicateAliasError>)
        ensures
            file1_path@ == file2_path@ ==> (r matches Err(NewDuplicateAliasError::AliasAndFilenameSame { filename, alias: a })
                && filename@ == filename_of(file1_path@) && a@ == alias@),
            r is Ok <==> duplicate_ok(alias@, file1_path@, file1_content@, file2_path@, file2_content@, filename_to_alias),
            r is Ok && fa(file1_path@, filename_to_alias) == alias@ ==> name_content_report(r->Ok_0, alias@, file1_path@, file2_path@, file2_content@),
            r is Ok && fa(file1_path@, filename_to_alias) != alias@ && fa(file2_path@, filename_to_alias) == alias@
                ==> name_content_report(r->Ok_0, alias@, file2_path@, file1_path@, file1_content@),
            r is Ok && fa(file1_path@, filename_to_alias) != alias@ && fa(file2_path@, filename_to_alias) != alias@
                ==> content_content_report(r->Ok_0, alias@, file1_path@, file1_content@, file2_path@, file2_content@),
            r is Err && file1_path@ != file2_path@ ==> missing_in(
                r->Err_0,
                if fa(file1_path@, filename_to_alias) == alias@ {
                    file2_path@
                } else if fa(file2_path@, filename_to_alias) == alias@ || !occurs(file1_content@, alias@) {
                    file1_path@
                } else {
                    file2_path@
                },
                alias@,
            ),
    {
        if same_text(file1_path, file2_path) {
            return Err(NewDuplicateAliasError::AliasAndFilenameSame { filename: get_filename(file1_path), alias: alias.copied() });
        }
        let a1 = Alias::from_filename(&get_filename(file1_path), filename_to_alias);
        if same_text(a1.as_str(), alias.as_str()) {
            return name_content_duplicate(alias, file1_path, file2_path, file2_content);
        }
        let a2 = Alias::from_filename(&get_filename(file2_path), filename_to_alias);
        if same_text(a2.as_str(), alias.as_str()) {
            return name_content_duplicate(alias, file2_path, file1_path, file1_content);
        }
        let span1 = locate(alias, file1_path, file1_content)?;
        let span2 = locate(alias, file2_path, file2_content)?;
        let related = RelatedDuplicate {
            id: dup_id(alias),
            other_filename: get_filename(file1_path),
            src: NamedSource { name: file2_path.to_string(), content: file2_content.to_string() },
            alias: span2,
        };
        Ok(DuplicateAlias::FileContentContentDuplicate {
            id: dup_id(alias),
            other_filename: get_filename(file2_path),
            src: NamedSource { name: file1_path.to_string(), content: file1_content.to_string() },
            alias: span1,
            other: vec![related],
        })
    }
}

/// The text held for `path`, or nothing.
pub open spec fn content_or_empty(contents: Map<Seq<char>, Seq<char>>, path: Seq<char>) -> Seq<char> {
    if contents.contains_key(path) {
        contents[path]
    } else {
        seq![]
    }
}

/// Every refused claim among `aliases` of the page `path` can be reported:
/// its owner is another file and the alias occurs where it is shown.
pub open spec fn claims_ok(
    m: Map<Seq<char>, Seq<char>>,
    aliases: Seq<Seq<char>>,
    path: Seq<char>,
    source: Seq<char>,
    contents: Map<Seq<char>, Seq<char>>,
    pair: &ReplacePair,
) -> bool
    decreases aliases.len(),
{
    if aliases.len() == 0 {
        true
    } else {
        let t = claim_all(m, aliases.drop_last(), path);
        let a = aliases.last();
        claims_ok(m, aliases.drop_last(), path, source, contents, pair) && (t.contains_key(a) ==> duplicate_ok(
            a,
            path,
            source,
            t[a],
            content_or_empty(contents, t[a]),
            pair,
        ))
    }
}

proof fn lemma_claims_ok_prefix(
    m: Map<Seq<char>, Seq<char>>,
    aliases: Seq<Seq<char>>,
    k: int,
    path: Seq<char>,
    source: Seq<char>,
    contents: Map<Seq<char>, Seq<char>>,
    pair: &ReplacePair,
)
    requires
        0 <= k <= aliases.len(),
        claims_ok(m, aliases, path, source, contents, pair),
    ensures
        claims_ok(m, aliases.take(k), path, source, contents, pair),
    decreases aliases.len(),
{
    if k < aliases.len() {
        lemma_claims_ok_prefix(m, aliases.drop_last(), k, path, source, contents, pair);
        assert(aliases.drop_last().take(k) =~= aliases.take(k));
    } else {
        assert(aliases.take(k) =~= aliases);
    }
}

/// Builds the alias table and reports aliases that two pages claim.
pub struct DuplicateAliasVisitor {
    /// Each alias and the file that owns it.
    pub alias_table: StrMap,
    pub duplicate_alias_errors: Vec<DuplicateAlias>,
    /// The aliases whose claims were refused.
    pub duplicate_aliases: Vec<Alias>,
    pub front_matter_visitor: FrontMatterVisitor,
}

impl DuplicateAliasVisitor {
    /// Seeds the table with the filename alias of every file.
    pub fn new(all_files: &Vec<String>, filename_to_alias: &ReplacePair) -> (r: DuplicateAliasVisitor)
        ensures
            str_map_entries(r.alias_table) == seed_table(views(all_files@), filename_to_alias.from_spec(), filename_to_alias.to_spec()),
            r.duplicate_alias_errors@.len() == 0,
            r.duplicate_aliases@.len() == 0,
            r.front_matter_visitor.aliases@.len() == 0,
    {
        let ghost fs = views(all_files@);
        let mut table = StrMap::new();
        let mut f: usize = 0;
        while f < all_files.len()
            invariant
                f <= all_files@.len(),
                fs == views(all_files@),
                str_map_entries(table) == seed_table(fs.take(f as int), filename_to_alias.from_spec(), filename_to_alias.to_spec()),
            decreases all_files@.len() - f,
        {
            let alias = Alias::from_filename(&get_filename(all_files[f].as_str()), filename_to_alias);
            assert(fs.take(f + 1).drop_last() =~= fs.take(f as int));
            assert(fs.take(f + 1).last() == all_files@[f as int]@);
            if !table.contains_key(alias.as_str()) {
                table.insert(alias.as_str().to_string(), all_files[f].clone());
            }
            f += 1;
        }
        assert(fs.take(all_files@.len() as int) =~= fs);
        DuplicateAliasVisitor {
            alias_table: table,
            duplicate_alias_errors: Vec::new(),
            duplicate_aliases: Vec::new(),
            front_matter_visitor: FrontMatterVisitor::new(),
        }
    }

    /// Reads the aliases that a page's front matter declares.
    pub fn visit_front_matter(&mut self, front_matter: &YamlFrontMatter)
        ensures
            alias_views(final(self).front_matter_visitor.aliases@) == alias_views(old(self).front_matter_visitor.aliases@) + declared_aliases(front_matter.alias@),
            final(self).alias_table == old(self).alias_table,
            final(self).duplicate_aliases == old(self).duplicate_aliases,
            final(self).duplicate_alias_errors == old(self).duplicate_alias_errors,
    {
        self.front_matter_visitor.visit_front_matter(front_matter);
    }

    /// Lets the page at `path` claim the aliases it declared: a free alias
    /// becomes its own, a taken one is refused and reported. `contents` holds
    /// the text of every page by path.
    pub fn finalize_file(&mut self, source: &str, path: &str, contents: &StrMap, filename_to_alias: &ReplacePair) -> (r: Result<(), NewDuplicateAliasError>)
        ensures
            r is Ok ==> str_map_entries(final(self).alias_table) == claim_all(
                str_map_entries(old(self).alias_table),
                alias_views(old(self).front_matter_visitor.aliases@),
                path@,
            ),
            r is Ok ==> alias_views(final(self).duplicate_aliases@) == alias_views(old(self).duplicate_aliases@) + collisions(
                str_map_entries(old(self).alias_table),
                alias_views(old(self).front_matter_visitor.aliases@),
                path@,
            ),
            r is Ok ==> final(self).duplicate_alias_errors@.len() == old(self).duplicate_alias_errors@.len()
                + collisions(
                str_map_entries(old(self).alias_table),
                alias_views(old(self).front_matter_visitor.aliases@),
                path@,
            ).len(),
            r is Ok ==> forall|k: int|
                old(self).duplicate_alias_errors@.len() <= k < final(self).duplicate_alias_errors@.len()
                    ==> (#[trigger] final(self).duplicate_alias_errors@[k]).id_view() == duplicate_id(
                    alias_views(final(self).duplicate_aliases@)[k - old(self).duplicate_alias_errors@.len() + old(self).duplicate_aliases@.len()],
                ),
            r is Ok ==> forall|k: int|
                0 <= k < old(self).duplicate_alias_errors@.len() ==> final(self).duplicate_alias_errors@[k]
                    == old(self).duplicate_alias_errors@[k],
            r is Ok ==> final(self).front_matter_visitor.aliases@.len() == 0,
            r is Ok <==> claims_ok(
                str_map_entries(old(self).alias_table),
                alias_views(old(self).front_matter_visitor.aliases@),
                path@,
                source@,
                str_map_entries(*contents),
                filename_to_alias,
            ),
            r is Err ==> r matches Err(NewDuplicateAliasError::MissingSubstringError(_)) || r matches Err(
                NewDuplicateAliasError::AliasAndFilenameSame { .. },
            ),
    {
        let ghost e0 = self.duplicate_alias_errors@;
        let ghost a0 = self.duplicate_aliases@;
        let ghost m0 = str_map_entries(self.alias_table);
        let ghost avs = alias_views(self.front_matter_visitor.aliases@);
        let ghost d0 = alias_views(self.duplicate_aliases@);
        let n = self.front_matter_visitor.aliases.len();
        let mut i: usize = 0;
        while i < n
            invariant
                i <= n,
                n == self.front_matter_visitor.aliases@.len(),
                avs == alias_views(self.front_matter_visitor.aliases@),
                str_map_entries(self.alias_table) == claim_all(m0, avs.take(i as int), path@),
                alias_views(self.duplicate_aliases@) == d0 + collisions(m0, avs.take(i as int), path@),
                d0 == alias_views(a0),
                m0 == str_map_entries(old(self).alias_table),
                avs == alias_views(old(self).front_matter_visitor.aliases@),
                claims_ok(m0, avs.take(i as int), path@, source@, str_map_entries(*contents), filename_to_alias),
                self.duplicate_alias_errors@.len() == e0.len() + collisions(m0, avs.take(i as int), path@).len(),
                forall|k: int| 0 <= k < e0.len() ==> self.duplicate_alias_errors@[k] == e0[k],
                forall|k: int|
                    e0.len() <= k < self.duplicate_alias_errors@.len() ==> (#[trigger] self.duplicate_alias_errors@[k]).id_view()
                        == duplicate_id(alias_views(self.duplicate_aliases@)[k - e0.len() + a0.len()]),
            decreases n - i,
        {
            let alias = self.front_matter_visitor.aliases[i].copied();
            assert(avs.take(i + 1).drop_last() =~= avs.take(i as int));
            assert(avs.take(i + 1).last() == alias@);
            match self.alias_table.get(alias.as_str()) {
                Some(owner) => {
                    let ghost prev = alias_views(self.duplicate_aliases@);
                    self.duplicate_aliases.push(alias.copied());
                    assert(alias_views(self.duplicate_aliases@) =~= prev.push(alias@));
                    let other_content = match contents.get(owner.as_str()) {
                        Some(c) => c,
                        None => String::new(),
                    };
                    assert(other_content@ == content_or_empty(str_map_entries(*contents), owner@));
                    let report = match DuplicateAlias::new(&alias, path, source, owner.as_str(), other_content.as_str(), filename_to_alias) {
                        Ok(d) => d,
                        Err(e) => {
                            proof {
                                assert(str_map_entries(self.alias_table).contains_key(alias@));
                                assert(str_map_entries(self.alias_table)[alias@] == owner@);
                                assert(!duplicate_ok(alias@, path@, source@, owner@, other_content@, filename_to_alias));
                                assert(!claims_ok(m0, avs.take(i + 1), path@, source@, str_map_entries(*contents), filename_to_alias));
                                if claims_ok(m0, avs, path@, source@, str_map_entries(*contents), filename_to_alias) {
                                    lemma_claims_ok_prefix(m0, avs, i + 1, path@, source@, str_map_entries(*contents), filename_to_alias);
                                }
                            }
                            return Err(e);
                        },
                    };
                    let ghost before = self.duplicate_alias_errors@;
                    self.duplicate_alias_errors.push(report);
                    proof {
                        assert forall|k: int|
                            e0.len() <= k < self.duplicate_alias_errors@.len() implies (#[trigger] self.duplicate_alias_errors@[k]).id_view()
                                == duplicate_id(alias_views(self.duplicate_aliases@)[k - e0.len() + a0.len()]) by {
                            if k < before.len() {
                                assert(self.duplicate_alias_errors@[k] == before[k]);
                                assert(alias_views(self.duplicate_aliases@)[k - e0.len() + a0.len()] == prev[k - e0.len() + a0.len()]);
                            } else {
                                assert(alias_views(self.duplicate_aliases@)[k - e0.len() + a0.len()] == alias@);
                            }
                        }
                    }
                },
                None => {
                    self.alias_table.insert(alias.as_str().to_string(), path.to_string());
                },
            }
            i += 1;
        }
        assert(avs.take(n as int) =~= avs);
        self.front_matter_visitor.finalize_file();
        Ok(())
    }
}

} // verus!
