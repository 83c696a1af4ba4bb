//! Wikilinks and tags whose alias no page owns.
use vstd::prelude::*;
use crate::document::MdNode;
use crate::name::{dot_end, filename_of, get_filename};
use crate::pattern::views;
use crate::rules::{finalize, ErrorCode, NamedSource, Report, ThirdPassReport, BrokenWikilink};
use crate::strmap::{str_map_entries, StrMap};
use crate::text::{chars_of, lower_of, lowercase, string_of};
use crate::wikilink::{link_view, link_views, WikilinkVisitor};

verus! {

pub const CODE: &'static str = "content::wikilink::broken";

/// The non-empty `/`-separated components of `s` from index `i` on, where
/// `cur` is the component read so far.
pub open spec fn comps_scan(s: Seq<char>, i: int, cur: Seq<char>) -> Seq<Seq<char>>
    decreases s.len() - i,
{
    if i >= s.len() {
        if cur.len() > 0 { seq![cur] } else { seq![] }
    } else if s[i] == '/' {
        (if cur.len() > 0 { seq![cur] } else { seq![] }) + comps_scan(s, i + 1, seq![])
    } else {
        comps_scan(s, i + 1, cur.push(s[i]))
    }
}

pub open spec fn components_of(p: Seq<char>) -> Seq<Seq<char>> {
    comps_scan(p, 0, seq![])
}

/// The pieces joined by `/`.
pub open spec fn join_path(ws: Seq<Seq<char>>) -> Seq<char>
    decreases ws.len(),
{
    if ws.len() == 0 {
        seq![]
    } else if ws.len() == 1 {
        ws[0]
    } else {
        join_path(ws.drop_last()) + seq!['/'] + ws.last()
    }
}

/// The text before the first `.`.
pub open spec fn before_dot(w: Seq<char>) -> Seq<char> {
    w.subrange(0, dot_end(w, 0))
}

pub open spec fn add_if_absent(m: Map<Seq<char>, Seq<char>>, k: Seq<char>, v: Seq<char>) -> Map<
    Seq<char>,
    Seq<char>,
> {
    if m.contains_key(k) {
        m
    } else {
        m.insert(k, v)
    }
}

/// Registers the last 1 to `i` components of a path, joined, with and without
/// extension, each lowercased, unless already there.
pub open spec fn add_suffixes(m: Map<Seq<char>, Seq<char>>, comps: Seq<Seq<char>>, path: Seq<char>, i: int) -> Map<
    Seq<char>,
    Seq<char>,
>
    decreases i,
{
    if i <= 0 {
        m
    } else {
        let m2 = add_suffixes(m, comps, path, i - 1);
        let w = join_path(comps.subrange(comps.len() - i, comps.len() as int));
        add_if_absent(add_if_absent(m2, lower_of(w), path), lower_of(before_dot(w)), path)
    }
}

/// The table of path-shaped aliases: every path suffix of every file, first
/// registration wins.
pub open spec fn fallback_table(files: Seq<Seq<char>>) -> Map<Seq<char>, Seq<char>>
    decreases files.len(),
{
    if files.len() == 0 {
        Map::empty()
    } else {
        let comps = components_of(files.last());
        add_suffixes(fallback_table(files.drop_last()), comps, files.last(), comps.len() as int)
    }
}

/// The alias reads as a relative path: it starts with `.` or holds `..`.
pub open spec fn looks_relative(a: Seq<char>) -> bool {
    (a.len() > 0 && a[0] == '.') || exists|i: int| 0 <= i < a.len() - 1 && #[trigger] a[i] == '.' && a[i + 1] == '.'
}

/// `content::wikilink::broken::<file>::<alias>`.
pub open spec fn broken_id(filename: Seq<char>, alias: Seq<char>) -> Seq<char> {
    seq!['c', 'o', 'n', 't', 'e', 'n', 't', ':', ':', 'w', 'i', 'k', 'i', 'l', 'i', 'n', 'k', ':', ':', 'b', 'r', 'o', 'k', 'e', 'n']
        + seq![':', ':'] + filename + seq![':', ':'] + alias
}

/// A reference is broken when neither table knows its alias and it does not
/// read as a relative path.
pub open spec fn is_broken(a: Seq<char>, primary: Map<Seq<char>, Seq<char>>, fallback: Map<Seq<char>, Seq<char>>) -> bool {
    !primary.contains_key(a) && !fallback.contains_key(a) && !looks_relative(a)
}

/// The broken references among `links`, as (id, alias, offset, length).
pub open spec fn broken_entries(
    links: Seq<(Seq<char>, int, int)>,
    primary: Map<Seq<char>, Seq<char>>,
    fallback: Map<Seq<char>, Seq<char>>,
    filename: Seq<char>,
) -> Seq<(Seq<char>, Seq<char>, int, int)>
    decreases links.len(),
{
    if links.len() == 0 {
        seq![]
    } else {
        let rest = broken_entries(links.drop_last(), primary, fallback, filename);
        let l = links.last();
        if is_broken(l.0, primary, fallback) {
            rest.push((broken_id(filename, l.0), l.0, l.1, l.2))
        } else {
            rest
        }
    }
}

pub open spec fn broken_view(b: BrokenWikilink) -> (Seq<char>, Seq<char>, int, int) {
    (b.id@, b.alias@, b.wikilink.offset as int, b.wikilink.len as int)
}

pub open spec fn broken_views(v: Seq<BrokenWikilink>) -> Seq<(Seq<char>, Seq<char>, int, int)> {
    v.map_values(|b: BrokenWikilink| broken_view(b))
}

fn path_components(p: &str) -> (r: Vec<String>)
    ensures
        views(r@) == components_of(p@),
{
    let cs = chars_of(p);
    let mut out: Vec<String> = Vec::new();
    let mut cur: Vec<char> = Vec::new();
    let mut i: usize = 0;
    while i < cs.len()
        invariant
            cs@ == p@,
            i <= cs@.len(),
            views(out@) + comps_scan(p@, i as int, cur@) == components_of(p@),
        decreases cs@.len() - i,
    {
        let c = cs[i];
        let ghost before = views(out@);
        if c == '/' {
            if cur.len() > 0 {
                let w = string_of(cur.as_slice());
                out.push(w);
                assert(views(out@) =~= before.push(cur@));
                assert(before + (seq![cur@] + comps_scan(p@, i + 1, seq![])) =~= before.push(cur@)
                    + comps_scan(p@, i + 1, seq![]));
            } else {
                assert(seq![] + comps_scan(p@, i + 1, seq![]) =~= comps_scan(p@, i + 1, seq![]));
            }
            cur = Vec::new();
            assert(cur@ =~= seq![]);
        } else {
            cur.push(c);
        }
        i += 1;
    }
    if cur.len() > 0 {
        let ghost before = views(out@);
        out.push(string_of(cur.as_slice()));
        assert(views(out@) =~= before + seq![cur@]);
    } else {
        assert(views(out@) + seq![] =~= views(out@));
    }
    out
}

fn join_range(comps: &Vec<String>, from: usize, to: usize) -> (r: String)
    requires
        from < to <= comps@.len(),
    ensures
        r@ == join_path(views(comps@).subrange(from as int, to as int)),
{
    let ghost sub = views(comps@).subrange(from as int, to as int);
    let mut acc = comps[from].clone();
    let mut k: usize = from + 1;
    assert(sub.take(1).drop_last() =~= seq![]);
    assert(sub.take(1) =~= seq![sub[0]]);
    while k < to
        invariant
            from < k <= to,
            to <= comps@.len(),
            sub == views(comps@).subrange(from as int, to as int),
            acc@ == join_path(sub.take(k - from)),
        decreases to - k,
    {
        acc.append("/");
        proof {
            reveal_strlit("/");
        }
        acc.append(comps[k].as_str());
        assert(sub.take(k + 1 - from).drop_last() =~= sub.take(k - from));
        assert(acc@ =~= join_path(sub.take(k + 1 - from)));
        k += 1;
    }
    assert(sub.take(to - from) =~= sub);
    acc
}

fn text_before_dot(w: &str) -> (r: String)
    ensures
        r@ == before_dot(w@),
{
    let cs = chars_of(w);
    let mut end: usize = 0;
    while end < cs.len() && cs[end] != '.'
        invariant
            cs@ == w@,
            end <= cs@.len(),
            dot_end(w@, end as int) == dot_end(w@, 0),
        decreases cs@.len() - end,
    {
        end += 1;
    }
    let mut piece: Vec<char> = Vec::new();
    let mut i: usize = 0;
    while i < end
        invariant
            cs@ == w@,
            i <= end <= cs@.len(),
            piece@ == w@.subrange(0, i as int),
        decreases end - i,
    {
        piece.push(cs[i]);
        assert(piece@ =~= w@.subrange(0, i + 1));
        i += 1;
    }
    string_of(piece.as_slice())
}

fn insert_if_absent(m: &mut StrMap, k: String, v: String)
    ensures
        str_map_entries(*final(m)) == add_if_absent(str_map_entries(*old(m)), k@, v@),
{
    if !m.contains_key(k.as_str()) {
        m.insert(k, v);
    }
}

fn relative_looking(a: &str) -> (r: bool)
    ensures
        r == looks_relative(a@),
{
    let cs = chars_of(a);
    if cs.len() > 0 && cs[0] == '.' {
        return true;
    }
    let mut i: usize = 0;
    while i < cs.len() && i + 1 < cs.len()
        invariant
            cs@ == a@,
            i <= cs@.len(),
            !(cs@.len() > 0 && cs@[0] == '.'),
            forall|j: int| 0 <= j < i ==> !(#[trigger] a@[j] == '.' && a@[j + 1] == '.'),
        decreases cs@.len() - i,
    {
        if cs[i] == '.' && cs[i + 1] == '.' {
            return true;
        }
        i += 1;
    }
    false
}

/// Finds wikilinks and tags that resolve to no page.
pub struct BrokenWikilinkVisitor {
    pub additional_aliases_table: StrMap,
    pub wikilinks_visitor: WikilinkVisitor,
    pub broken_wikilinks: Vec<BrokenWikilink>,
}

impl BrokenWikilinkVisitor {
    pub open spec fn fallback(&self) -> Map<Seq<char>, Seq<char>> {
        str_map_entries(self.additional_aliases_table)
    }

    pub open spec fn pending(&self) -> Seq<(Seq<char>, int, int)> {
        link_views(self.wikilinks_visitor.wikilinks@)
    }

    /// Registers every path suffix of every file as a fallback alias.
    pub fn new(all_files: &Vec<String>) -> (r: BrokenWikilinkVisitor)
        ensures
            r.fallback() == fallback_table(views(all_files@)),
            r.pending().len() == 0,
            r.broken_wikilinks@.len() == 0,
    {
        let ghost fs = views(all_files@);
        let mut table = StrMap::new();
        let mut f: usize = 0;
        while f < all_files.len()
            invariant
                f <= all_files@.len(),
                fs == views(all_files@),
                str_map_entries(table) == fallback_table(fs.take(f as int)),
            decreases all_files@.len() - f,
        {
            let path = &all_files[f];
            let comps = path_components(path.as_str());
            let ghost cv = views(comps@);
            let ghost base = str_map_entries(table);
            let mut i: usize = 0;
            assert(fs.take(f + 1).drop_last() =~= fs.take(f as int));
            assert(fs.take(f + 1).last() == path@);
            while i < comps.len()
                invariant
                    i <= comps@.len(),
                    cv == views(comps@),
                    cv == components_of(path@),
                    str_map_entries(table) == add_suffixes(base, cv, path@, i as int),
                decreases comps@.len() - i,
            {
                let with_extension = join_range(&comps, comps.len() - (i + 1), comps.len());
                let without_extension = text_before_dot(with_extension.as_str());
                insert_if_absent(&mut table, lowercase(with_extension.as_str()), path.clone());
                insert_if_absent(&mut table, lowercase(without_extension.as_str()), path.clone());
                i += 1;
            }
            f += 1;
        }
        assert(fs.take(all_files@.len() as int) =~= fs);
        BrokenWikilinkVisitor {
            additional_aliases_table: table,
            wikilinks_visitor: WikilinkVisitor::new(),
            broken_wikilinks: Vec::new(),
        }
    }

    /// Reads the references of one node.
    pub fn visit(&mut self, node: &MdNode, source: &str)
        ensures
            final(self).pending() == old(self).pending() + crate::wikilink::node_links(*node, source@),
            final(self).fallback() == old(self).fallback(),
            final(self).broken_wikilinks@ == old(self).broken_wikilinks@,
    {
        self.wikilinks_visitor.visit(node, source);
    }

    /// Reports each reference of the page just read that neither the alias
    /// table nor the fallback table resolves, then forgets the references.
    pub fn finalize_file(&mut self, source: &str, path: &str, alias_table: &StrMap)
        ensures
            broken_views(final(self).broken_wikilinks@) == broken_views(old(self).broken_wikilinks@)
                + broken_entries(
                old(self).pending(),
                str_map_entries(*alias_table),
                old(self).fallback(),
                lower_of(filename_of(path@)),
            ),
            final(self).pending().len() == 0,
            final(self).fallback() == old(self).fallback(),
    {
        let filename = get_filename(path).lowercase();
        let ghost links = self.pending();
        let ghost start = broken_views(self.broken_wikilinks@);
        let ghost primary = str_map_entries(*alias_table);
        let ghost fallback = self.fallback();
        let n = self.wikilinks_visitor.wikilinks.len();
        let mut i: usize = 0;
        while i < n
            invariant
                i <= n,
                n == self.wikilinks_visitor.wikilinks@.len(),
                links == link_views(self.wikilinks_visitor.wikilinks@),
                fallback == self.fallback(),
                primary == str_map_entries(*alias_table),
                filename@ == lower_of(filename_of(path@)),
                broken_views(self.broken_wikilinks@) == start + broken_entries(links.take(i as int), primary, fallback, filename@),
            decreases n - i,
        {
            let alias = self.wikilinks_visitor.wikilinks[i].alias.copied();
            let span = self.wikilinks_visitor.wikilinks[i].span;
            assert(links[i as int] == link_view(self.wikilinks_visitor.wikilinks@[i as int]));
            assert(links.take(i + 1).drop_last() =~= links.take(i as int));
            assert(links.take(i + 1).last() == links[i as int]);
            if !alias_table.contains_key(alias.as_str())
                && !self.additional_aliases_table.contains_key(alias.as_str())
                && !relative_looking(alias.as_str()) {
                let mut id = String::from_str(CODE);
                id.append("::");
                id.append(filename.as_str());
                id.append("::");
                id.append(alias.as_str());
                proof {
                    reveal_strlit("content::wikilink::broken");
                    reveal_strlit("::");
                }
                assert(id@ =~= broken_id(filename@, alias@));
                let mut advice = String::from_str("Create a page or alias on an existing page for '");
                advice.append(alias.as_str());
                advice.append("' (case insensitive), or fix the wikilinks spelling.\nid: ");
                advice.append(id.as_str());
                let ghost prev = broken_views(self.broken_wikilinks@);
                let report = BrokenWikilink {
                    id: ErrorCode::new(id),
                    alias,
                    src: NamedSource { name: path.to_string(), content: source.to_string() },
                    wikilink: span,
                    advice,
                };
                self.broken_wikilinks.push(report);
                assert(broken_views(self.broken_wikilinks@) =~= prev.push(broken_view(report)));
            }
            i += 1;
        }
        assert(links.take(n as int) =~= links);
        self.wikilinks_visitor.finalize_file();
    }

    /// The exclude and dedup step over every broken reference found.
    pub fn finalize(&mut self, excludes: &[ErrorCode]) -> (r: Vec<Report>)
        ensures
            crate::rules::deduped_from(
                r@,
                crate::rules::keep_unexcluded(
                    third_pass_broken(old(self).broken_wikilinks@),
                    crate::rules::code_views(excludes@),
                ),
            ),
            forall|i: int|
                0 <= i < r@.len() ==> !crate::rules::excluded(#[trigger] r@[i].id_view(), crate::rules::code_views(excludes@)),
    {
        let mut found: Vec<BrokenWikilink> = Vec::new();
        std::mem::swap(&mut found, &mut self.broken_wikilinks);
        let ghost fv = found@;
        let mut reports: Vec<Report> = Vec::new();
        let mut rest = found;
        let mut back: Vec<Report> = Vec::new();
        while rest.len() > 0
            invariant
                back@.len() + rest@.len() == fv.len(),
                rest@ == fv.take(rest@.len() as int),
                forall|j: int| 0 <= j < back@.len() ==> back@[j] == Report::ThirdPass(ThirdPassReport::BrokenWikilink(fv[fv.len() - 1 - j])),
            decreases rest@.len(),
        {
            let b = rest.pop().unwrap();
            back.push(Report::ThirdPass(ThirdPassReport::BrokenWikilink(b)));
            assert(rest@ =~= fv.take(rest@.len() as int));
        }
        while back.len() > 0
            invariant
                back@.len() + reports@.len() == fv.len(),
                forall|j: int| 0 <= j < back@.len() ==> back@[j] == Report::ThirdPass(ThirdPassReport::BrokenWikilink(fv[fv.len() - 1 - j])),
                reports@ == third_pass_broken(fv.take(reports@.len() as int)),
            decreases back@.len(),
        {
            let x = back.pop().unwrap();
            let ghost k: int = reports@.len() as int;
            reports.push(x);
            assert(reports@ =~= third_pass_broken(fv.take(k + 1)));
        }
        assert(fv.take(fv.len() as int) =~= fv);
        finalize(reports, excludes)
    }
}

pub open spec fn third_pass_broken(v: Seq<BrokenWikilink>) -> Seq<Report> {
    v.map_values(|b: BrokenWikilink| Report::ThirdPass(ThirdPassReport::BrokenWikilink(b)))
}

} // verus!
