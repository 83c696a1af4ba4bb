//! Plain text that names an alias and could be a wikilink.
use vstd::prelude::*;
use crate::document::{MdNode, NodeKind};
use crate::name::{filename_of, get_filename};
use crate::pattern::views;
use crate::rules::{finalize, ErrorCode, NamedSource, Report, Span, ThirdPassReport, UnlinkedText};
use crate::strmap::{str_map_entries, StrMap};
use crate::text::{chars_of, is_space, is_space_char, location_offset, location_offset_spec, lower_of};
use crate::wikilink::{sat_add, Alias};

verus! {

pub const CODE: &'static str = "content::alias::unlinked";

/// The matches that an ASCII-case-insensitive `aho_corasick::AhoCorasick`
/// built from `patterns` finds in `text`, as (start, end, pattern index);
/// none when the automaton cannot be built.
pub uninterp spec fn ac_matches_of(patterns: Seq<Seq<char>>, text: Seq<char>) -> Option<Seq<(usize, usize, usize)>>;

/// Relies on `aho_corasick::AhoCorasickBuilder::build` with ASCII case
/// insensitivity and on `AhoCorasick::find_iter`: non-overlapping matches,
/// each a range of the text and the index of the pattern it matched. On
/// ASCII text, byte offsets are character offsets.
#[verifier::external_body]
fn find_aliases(patterns: &Vec<String>, text: &str) -> (r: Option<Vec<(usize, usize, usize)>>)
    requires
        text.is_ascii(),
    ensures
        r is Some == ac_matches_of(views(patterns@), text@) is Some,
        r matches Some(v) ==> ac_matches_of(views(patterns@), text@) == Some(v@),
        r matches Some(v) ==> forall|i: int|
            0 <= i < v@.len() ==> v@[i].0 <= v@[i].1 <= text@.len() && v@[i].2 < patterns@.len(),
{
    match aho_corasick::AhoCorasick::builder().ascii_case_insensitive(true).build(patterns) {
        Ok(ac) => Some(ac.find_iter(text).map(|m| (m.start(), m.end(), m.pattern().as_usize())).collect()),
        Err(_) => None,
    }
}

pub open spec fn start_boundary(t: Seq<char>, start: int) -> bool {
    start == 0 || is_space(t[start - 1])
}

pub open spec fn start_hashtag(t: Seq<char>, start: int) -> bool {
    start > 0 && t[start - 1] == '#'
}

pub open spec fn end_boundary(t: Seq<char>, end: int) -> bool {
    end == t.len() || is_space(t[end])
}

/// The range is a whole word: white space or the edge of the text on both
/// sides, and no `#` before it.
pub open spec fn whole_word(t: Seq<char>, start: int, end: int) -> bool {
    start_boundary(t, start) && end_boundary(t, end) && !start_hashtag(t, start)
}

/// Checks that the character before `start`, if any, is white space.
pub fn is_start_boundary(text: &str, start: usize) -> (r: bool)
    requires
        start <= text@.len(),
    ensures
        r == start_boundary(text@, start as int),
{
    if start == 0 {
        true
    } else {
        is_space_char(text.get_char(start - 1))
    }
}

/// Checks that the character before `start` is `#`.
pub fn is_start_hashtag(text: &str, start: usize) -> (r: bool)
    requires
        start <= text@.len(),
    ensures
        r == start_hashtag(text@, start as int),
{
    if start == 0 {
        false
    } else {
        text.get_char(start - 1) == '#'
    }
}

/// Checks that the character at `end`, if any, is white space.
pub fn is_end_boundary(text: &str, end: usize) -> (r: bool)
    requires
        end <= text@.len(),
    ensures
        r == end_boundary(text@, end as int),
{
    if end == text.unicode_len() {
        true
    } else {
        is_space_char(text.get_char(end))
    }
}

/// Checks whether the range is a whole-word match.
pub fn is_whole_word_match(text: &str, start: usize, end: usize) -> (r: bool)
    requires
        start <= text@.len(),
        end <= text@.len(),
    ensures
        r == whole_word(text@, start as int, end as int),
{
    is_start_boundary(text, start) && is_end_boundary(text, end) && !is_start_hashtag(text, start)
}

/// The mentions among the matches: those that are whole words, as
/// (alias, offset in the source, length).
pub open spec fn mention_entries(
    ms: Seq<(usize, usize, usize)>,
    text: Seq<char>,
    pats: Seq<Seq<char>>,
    base: int,
) -> Seq<(Seq<char>, int, int)>
    decreases ms.len(),
{
    if ms.len() == 0 {
        seq![]
    } else {
        let rest = mention_entries(ms.drop_last(), text, pats, base);
        let m = ms.last();
        if whole_word(text, m.0 as int, m.1 as int) {
            rest.push((lower_of(pats[m.2 as int]), sat_add(base, m.0 as int), m.1 - m.0))
        } else {
            rest
        }
    }
}

/// Some whole-word match among `ms` starts at the source offset `off`.
pub open spec fn from_whole_word(ms: Seq<(usize, usize, usize)>, text: Seq<char>, base: int, off: int) -> bool {
    exists|j: int| 0 <= j < ms.len() && whole_word(text, ms[j].0 as int, ms[j].1 as int) && off == sat_add(base, ms[j].0 as int)
}

/// Every mention stems from a match that is a whole word: an alias inside a
/// longer word, or right after `#`, is never a mention.
pub proof fn lemma_mentions_are_whole_words(
    ms: Seq<(usize, usize, usize)>,
    text: Seq<char>,
    pats: Seq<Seq<char>>,
    base: int,
)
    ensures
        forall|k: int|
            0 <= k < mention_entries(ms, text, pats, base).len() ==> from_whole_word(
                ms,
                text,
                base,
                #[trigger] mention_entries(ms, text, pats, base)[k].1,
            ),
    decreases ms.len(),
{
    if ms.len() > 0 {
        lemma_mentions_are_whole_words(ms.drop_last(), text, pats, base);
        let rest = mention_entries(ms.drop_last(), text, pats, base);
        let all = mention_entries(ms, text, pats, base);
        assert forall|k: int| 0 <= k < all.len() implies from_whole_word(ms, text, base, #[trigger] all[k].1) by {
            if k < rest.len() {
                assert(all[k] == rest[k]);
                assert(from_whole_word(ms.drop_last(), text, base, rest[k].1));
                let j = choose|j: int|
                    0 <= j < ms.drop_last().len() && whole_word(text, ms.drop_last()[j].0 as int, ms.drop_last()[j].1 as int)
                        && rest[k].1 == sat_add(base, ms.drop_last()[j].0 as int);
                assert(ms[j] == ms.drop_last()[j]);
            } else {
                let j = ms.len() - 1;
                assert(whole_word(text, ms[j].0 as int, ms[j].1 as int));
            }
        }
    }
}

/// What visiting one node adds to the pending mentions: for a text node
/// that is not inside a wikilink, its whole-word alias matches; else nothing.
pub open spec fn node_mentions(
    nodes: Seq<MdNode>,
    idx: int,
    source: Seq<char>,
    pats: Seq<Seq<char>>,
) -> Option<Seq<(Seq<char>, int, int)>> {
    let node = nodes[idx];
    let in_link = node.parent matches Some(p) && p < nodes.len() && nodes[p as int].kind
        == NodeKind::WikiLink;
    if node.kind != NodeKind::Text || in_link || !crate::text::all_ascii(node.text@) {
        Some(seq![])
    } else {
        match ac_matches_of(pats, node.text@) {
            Some(ms) => Some(
                mention_entries(
                    ms,
                    node.text@,
                    pats,
                    location_offset_spec(source, node.line as int, node.column as int),
                ),
            ),
            None => None,
        }
    }
}

/// The automaton over the aliases could not be built.
#[derive(Clone, Debug, PartialEq, Eq)]
pub enum VisitError {
    AhoBuildError,
}

pub open spec fn pending_views(v: Seq<(Alias, Span)>) -> Seq<(Seq<char>, int, int)> {
    v.map_values(|p: (Alias, Span)| (p.0@, p.1.offset as int, p.1.len as int))
}

/// Finds plain-text mentions of known aliases.
pub struct UnlinkedTextVisitor {
    /// The aliases searched for.
    pub patterns: Vec<String>,
    pub new_unlinked_texts: Vec<(Alias, Span)>,
    pub unlinked_texts: Vec<UnlinkedText>,
}

impl UnlinkedTextVisitor {
    /// Searches for every alias of the table, in increasing order of text.
    pub fn new(alias_table: &StrMap) -> (r: UnlinkedTextVisitor)
        ensures
            views(r.patterns@).to_set() == str_map_entries(*alias_table).dom(),
            forall|i: int, j: int|
                0 <= i < j < r.patterns@.len() ==> crate::text::seq_lt(#[trigger] r.patterns@[i]@, #[trigger] r.patterns@[j]@),
            r.new_unlinked_texts@.len() == 0,
            r.unlinked_texts@.len() == 0,
    {
        UnlinkedTextVisitor {
            patterns: alias_table.sorted_keys(),
            new_unlinked_texts: Vec::new(),
            unlinked_texts: Vec::new(),
        }
    }

    /// Records the mentions in node `idx`.
    pub fn visit(&mut self, nodes: &Vec<MdNode>, idx: usize, source: &str) -> (r: Result<(), VisitError>)
        requires
            idx < nodes@.len(),
        ensures
            r is Ok == node_mentions(nodes@, idx as int, source@, views(old(self).patterns@)) is Some,
            r is Ok ==> pending_views(final(self).new_unlinked_texts@) == pending_views(
                old(self).new_unlinked_texts@,
            ) + node_mentions(nodes@, idx as int, source@, views(old(self).patterns@))->Some_0,
            final(self).patterns@ == old(self).patterns@,
            final(self).unlinked_texts@ == old(self).unlinked_texts@,
    {
        let node = &nodes[idx];
        let in_link = match node.parent {
            Some(p) => p < nodes.len() && nodes[p].kind == NodeKind::WikiLink,
            None => false,
        };
        if node.kind != NodeKind::Text || in_link || !crate::text::is_all_ascii(node.text.as_str()) {
            assert(pending_views(self.new_unlinked_texts@) + seq![] =~= pending_views(self.new_unlinked_texts@));
            return Ok(());
        }
        let found = match find_aliases(&self.patterns, node.text.as_str()) {
            Some(v) => v,
            None => return Err(VisitError::AhoBuildError),
        };
        let base = location_offset(source, node.line, node.column);
        let ghost start = pending_views(self.new_unlinked_texts@);
        let ghost pats = views(self.patterns@);
        let ghost text = node.text@;
        let ghost old_patterns = self.patterns@;
        let ghost old_texts = self.unlinked_texts@;
        let mut i: usize = 0;
        while i < found.len()
            invariant
                i <= found@.len(),
                self.patterns@ == old_patterns,
                self.unlinked_texts@ == old_texts,
                pats == views(self.patterns@),
                text == node.text@,
                forall|k: int|
                    0 <= k < found@.len() ==> found@[k].0 <= found@[k].1 <= text.len() && found@[k].2 < self.patterns@.len(),
                pending_views(self.new_unlinked_texts@) == start + mention_entries(found@.take(i as int), text, pats, base as int),
            decreases found@.len() - i,
        {
            let (s, e, p) = found[i];
            assert(found@.take(i + 1).drop_last() =~= found@.take(i as int));
            assert(found@.take(i + 1).last() == found@[i as int]);
            if is_whole_word_match(node.text.as_str(), s, e) {
                let alias = Alias::new(self.patterns[p].as_str());
                let offset = crate::wikilink::sat_add_exec(base, s);
                let ghost prev = pending_views(self.new_unlinked_texts@);
                self.new_unlinked_texts.push((alias, Span { offset, len: e - s }));
                assert(pending_views(self.new_unlinked_texts@) =~= prev.push((alias@, offset as int, (e - s) as int)));
            }
            i += 1;
        }
        assert(found@.take(found@.len() as int) =~= found@);
        Ok(())
    }

    /// Turns the mentions of the page just read into reports.
    pub fn finalize_file(&mut self, source: &str, path: &str)
        ensures
            final(self).new_unlinked_texts@.len() == 0,
            final(self).patterns@ == old(self).patterns@,
            final(self).unlinked_texts@.len() == old(self).unlinked_texts@.len() + old(self).new_unlinked_texts@.len(),
            forall|k: int|
                0 <= k < old(self).new_unlinked_texts@.len() ==> {
                    let u = #[trigger] final(self).unlinked_texts@[old(self).unlinked_texts@.len() + k];
                    &&& u.alias@ == old(self).new_unlinked_texts@[k].0@
                    &&& u.span == old(self).new_unlinked_texts@[k].1
                    &&& u.id@ == unlinked_id(filename_of(path@), u.alias@)
                    &&& u.src.name@ == path@
                    &&& u.src.content@ == source@
                },
            forall|k: int|
                0 <= k < old(self).unlinked_texts@.len() ==> final(self).unlinked_texts@[k] == old(
                    self,
                ).unlinked_texts@[k],
            unlinked_views(final(self).unlinked_texts@) == unlinked_views(old(self).unlinked_texts@)
                + mention_reports(pending_views(old(self).new_unlinked_texts@), filename_of(path@)),
    {
        let filename = get_filename(path);
        let ghost olds = self.unlinked_texts@;
        let ghost pend = self.new_unlinked_texts@;
        let ghost old_patterns = self.patterns@;
        let mut i: usize = 0;
        while i < self.new_unlinked_texts.len()
            invariant
                i <= pend.len(),
                self.patterns@ == old_patterns,
                self.new_unlinked_texts@ == pend,
                filename@ == filename_of(path@),
                self.unlinked_texts@.len() == olds.len() + i,
                forall|k: int| 0 <= k < olds.len() ==> self.unlinked_texts@[k] == olds[k],
                forall|k: int|
                    0 <= k < i ==> {
                        let u = #[trigger] self.unlinked_texts@[olds.len() + k];
                        &&& u.alias@ == pend[k].0@
                        &&& u.span == pend[k].1
                        &&& u.id@ == unlinked_id(filename_of(path@), u.alias@)
                        &&& u.src.name@ == path@
                        &&& u.src.content@ == source@
                    },
            decreases pend.len() - i,
        {
            let alias = self.new_unlinked_texts[i].0.copied();
            let span = self.new_unlinked_texts[i].1;
            let mut id = String::from_str(CODE);
            id.append("::");
            id.append(filename.as_str());
            id.append("::");
            id.append(alias.as_str());
            proof {
                reveal_strlit("content::alias::unlinked");
                reveal_strlit("::");
            }
            assert(id@ =~= unlinked_id(filename@, alias@));
            let mut advice = String::from_str("Consider wrapping it in a wikilink, like: [[");
            advice.append(alias.as_str());
            advice.append("]]\nNOTE: If running in --fix, you may need to run fix more than once to fix all unlinked text errors.\nid: ");
            advice.append(id.as_str());
            self.unlinked_texts.push(UnlinkedText {
                id: ErrorCode::new(id),
                alias,
                src: NamedSource { name: path.to_string(), content: source.to_string() },
                span,
                advice,
            });
            i += 1;
        }
        assert(unlinked_views(self.unlinked_texts@) =~= unlinked_views(olds) + mention_reports(
            pending_views(pend),
            filename_of(path@),
        )) by {
            assert forall|k: int| 0 <= k < self.unlinked_texts@.len() implies unlinked_views(self.unlinked_texts@)[k]
                == (unlinked_views(olds) + mention_reports(pending_views(pend), filename_of(path@)))[k] by {
                if k >= olds.len() {
                    let u = self.unlinked_texts@[olds.len() + (k - olds.len())];
                    assert(u == self.unlinked_texts@[k]);
                }
            }
        }
        self.new_unlinked_texts = Vec::new();
    }

    /// The exclude and dedup step over every mention found.
    pub fn finalize(&mut self, excludes: &[ErrorCode]) -> (r: Vec<Report>)
        ensures
            crate::rules::deduped_from(
                r@,
                crate::rules::keep_unexcluded(
                    third_pass_unlinked(old(self).unlinked_texts@),
                    crate::rules::code_views(excludes@),
                ),
            ),
            forall|i: int|
                0 <= i < r@.len() ==> !crate::rules::excluded(#[trigger] r@[i].id_view(), crate::rules::code_views(excludes@)),
    {
        let mut found: Vec<UnlinkedText> = Vec::new();
        std::mem::swap(&mut found, &mut self.unlinked_texts);
        let ghost fv = found@;
        let mut reports: Vec<Report> = Vec::new();
        let mut rest = found;
        let mut back: Vec<Report> = Vec::new();
        while rest.len() > 0
            invariant
                back@.len() + rest@.len() == fv.len(),
                rest@ == fv.take(rest@.len() as int),
                forall|j: int| 0 <= j < back@.len() ==> back@[j] == Report::ThirdPass(ThirdPassReport::UnlinkedText(fv[fv.len() - 1 - j])),
            decreases rest@.len(),
        {
            let b = rest.pop().unwrap();
            back.push(Report::ThirdPass(ThirdPassReport::UnlinkedText(b)));
            assert(rest@ =~= fv.take(rest@.len() as int));
        }
        while back.len() > 0
            invariant
                back@.len() + reports@.len() == fv.len(),
                forall|j: int| 0 <= j < back@.len() ==> back@[j] == Report::ThirdPass(ThirdPassReport::UnlinkedText(fv[fv.len() - 1 - j])),
                reports@ == third_pass_unlinked(fv.take(reports@.len() as int)),
            decreases back@.len(),
        {
            let x = back.pop().unwrap();
            let ghost k: int = reports@.len() as int;
            reports.push(x);
            assert(reports@ =~= third_pass_unlinked(fv.take(k + 1)));
        }
        assert(fv.take(fv.len() as int) =~= fv);
        finalize(reports, excludes)
    }
}

pub open spec fn unlinked_view(u: UnlinkedText) -> (Seq<char>, Seq<char>, int, int) {
    (u.id@, u.alias@, u.span.offset as int, u.span.len as int)
}

pub open spec fn unlinked_views(v: Seq<UnlinkedText>) -> Seq<(Seq<char>, Seq<char>, int, int)> {
    v.map_values(|u: UnlinkedText| unlinked_view(u))
}

/// The reports that pending mentions of the page `filename` become.
pub open spec fn mention_reports(pend: Seq<(Seq<char>, int, int)>, filename: Seq<char>) -> Seq<(Seq<char>, Seq<char>, int, int)> {
    pend.map_values(|p: (Seq<char>, int, int)| (unlinked_id(filename, p.0), p.0, p.1, p.2))
}

/// `content::alias::unlinked::<file>::<alias>`.
pub open spec fn unlinked_id(filename: Seq<char>, alias: Seq<char>) -> Seq<char> {
    seq!['c', 'o', 'n', 't', 'e', 'n', 't', ':', ':', 'a', 'l', 'i', 'a', 's', ':', ':', 'u', 'n', 'l', 'i', 'n', 'k', 'e', 'd']
        + seq![':', ':'] + filename + seq![':', ':'] + alias
}

pub open spec fn third_pass_unlinked(v: Seq<UnlinkedText>) -> Seq<Report> {
    v.map_values(|b: UnlinkedText| Report::ThirdPass(ThirdPassReport::UnlinkedText(b)))
}

/// `[[` and `]]` put around the range `start..end` of `content`, each end
/// clamped to the text.
pub open spec fn wrapped(content: Seq<char>, start: int, end: int) -> Seq<char> {
    let e = if end < content.len() { end } else { content.len() as int };
    let s = if start < e { start } else { e };
    content.take(s) + seq!['[', '['] + content.subrange(s, e) + seq![']', ']'] + content.skip(e)
}

/// The page's text once the mention is made a wikilink.
pub fn wrap_in_wikilink(content: &str, start: usize, end: usize) -> (r: String)
    ensures
        r@ == wrapped(content@, start as int, end as int),
{
    let cs = chars_of(content);
    let e = if end < cs.len() { end } else { cs.len() };
    let s = if start < e { start } else { e };
    proof {
        assert(wrapped(content@, start as int, end as int) == wrapped(content@, s as int, e as int));
    }
    let mut r: Vec<char> = Vec::new();
    let mut k: usize = 0;
    while k < s
        invariant
            cs@ == content@,
            s <= e <= cs@.len(),
            k <= s,
            r@ == content@.take(k as int),
        decreases s - k,
    {
        r.push(cs[k]);
        assert(r@ =~= content@.take(k + 1));
        k += 1;
    }
    r.push('[');
    r.push('[');
    while k < e
        invariant
            cs@ == content@,
            s <= k <= e,
            e <= cs@.len(),
            r@ == content@.take(s as int) + seq!['[', '['] + content@.subrange(s as int, k as int),
        decreases e - k,
    {
        r.push(cs[k]);
        assert(r@ =~= content@.take(s as int) + seq!['[', '['] + content@.subrange(s as int, k + 1));
        k += 1;
    }
    r.push(']');
    r.push(']');
    while k < cs.len()
        invariant
            cs@ == content@,
            e <= k <= cs@.len(),
            s <= e,
            r@ == content@.take(s as int) + seq!['[', '['] + content@.subrange(s as int, e as int) + seq![']', ']'] + content@.subrange(e as int, k as int),
        decreases cs@.len() - k,
    {
        r.push(cs[k]);
        assert(r@ =~= content@.take(s as int) + seq!['[', '['] + content@.subrange(s as int, e as int) + seq![']', ']'] + content@.subrange(e as int, k + 1));
        k += 1;
    }
    assert(content@.subrange(e as int, cs@.len() as int) =~= content@.skip(e as int));
    crate::text::string_of(r.as_slice())
}

} // verus!
