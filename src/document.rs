//! A parsed markdown document, held as an arena of nodes in visiting order,
//! and the front matter that declares a page's aliases.
use vstd::prelude::*;
use crate::pattern::views;
use crate::text::{chars_of, is_space, is_space_char, string_of};
use crate::wikilink::Alias;
use crate::text::lower_of;
use crate::rules::Span;

verus! {

/// What a node of the document tree is, as far as the rules care.
#[derive(Clone, Copy, Debug, PartialEq, Eq, Structural)]
pub enum NodeKind {
    Document,
    FrontMatter,
    Text,
    WikiLink,
    Other,
}

/// One node: its kind, its text (the literal of a text node, the target of a
/// wikilink, the raw block of front matter, the literal of any other node
/// that has one), where it starts (1-based line and column) and its parent.
#[derive(Clone, Debug)]
pub struct MdNode {
    pub kind: NodeKind,
    pub text: String,
    pub line: usize,
    pub column: usize,
    pub parent: Option<usize>,
}

/// The `alias` field of a page's YAML front matter: comma-separated aliases.
#[derive(Clone, Debug, Default, PartialEq, Eq)]
pub struct YamlFrontMatter {
    pub alias: String,
}

/// A page to analyse: its path, its text, its nodes in visiting order
/// (each parent before its children) and its decoded front matter.
#[derive(Clone, Debug)]
pub struct SourceFile {
    pub path: String,
    pub source: String,
    pub nodes: Vec<MdNode>,
    pub front_matter: YamlFrontMatter,
}

/// The pieces of `s` between occurrences of `sep`, empty ones included.
pub open spec fn split_scan(s: Seq<char>, i: int, cur: Seq<char>, sep: char) -> Seq<Seq<char>>
    decreases s.len() - i,
{
    if i >= s.len() {
        seq![cur]
    } else if s[i] == sep {
        seq![cur] + split_scan(s, i + 1, seq![], sep)
    } else {
        split_scan(s, i + 1, cur.push(s[i]), sep)
    }
}

pub open spec fn split_on(s: Seq<char>, sep: char) -> Seq<Seq<char>> {
    split_scan(s, 0, seq![], sep)
}

/// The index of the first non-space character at or after `i`.
pub open spec fn trim_start_idx(s: Seq<char>, i: int) -> int
    decreases s.len() - i,
{
    if 0 <= i < s.len() && is_space(s[i]) {
        trim_start_idx(s, i + 1)
    } else {
        i
    }
}

/// The end of `s[lo..j]` once trailing spaces are removed.
pub open spec fn trim_end_idx(s: Seq<char>, lo: int, j: int) -> int
    decreases j - lo,
{
    if j > lo && is_space(s[j - 1]) {
        trim_end_idx(s, lo, j - 1)
    } else {
        j
    }
}

/// `s` without leading and trailing white space, as `str::trim` gives it.
pub open spec fn trim(s: Seq<char>) -> Seq<char> {
    let a = trim_start_idx(s, 0);
    s.subrange(a, trim_end_idx(s, a, s.len() as int))
}

proof fn lemma_trim_start_bounds(s: Seq<char>, i: int)
    requires
        0 <= i <= s.len(),
    ensures
        i <= trim_start_idx(s, i) <= s.len(),
    decreases s.len() - i,
{
    if i < s.len() && is_space(s[i]) {
        lemma_trim_start_bounds(s, i + 1);
    }
}

proof fn lemma_trim_end_bounds(s: Seq<char>, lo: int, j: int)
    requires
        0 <= lo <= j <= s.len(),
    ensures
        lo <= trim_end_idx(s, lo, j) <= j,
    decreases j - lo,
{
    if j > lo && is_space(s[j - 1]) {
        lemma_trim_end_bounds(s, lo, j - 1);
    }
}

fn copy_chars(cs: &Vec<char>, from: usize, to: usize) -> (r: String)
    requires
        from <= to <= cs@.len(),
    ensures
        r@ == cs@.subrange(from as int, to as int),
{
    let mut piece: Vec<char> = Vec::new();
    let mut i: usize = from;
    while i < to
        invariant
            from <= i <= to,
            to <= cs@.len(),
            piece@ == cs@.subrange(from as int, i as int),
        decreases to - i,
    {
        piece.push(cs[i]);
        assert(piece@ =~= cs@.subrange(from as int, i + 1));
        i += 1;
    }
    string_of(piece.as_slice())
}

/// `s` without leading and trailing white space.
pub fn trim_text(s: &str) -> (r: String)
    ensures
        r@ == trim(s@),
{
    let cs = chars_of(s);
    let mut a: usize = 0;
    while a < cs.len() && is_space_char(cs[a])
        invariant
            cs@ == s@,
            a <= cs@.len(),
            trim_start_idx(s@, a as int) == trim_start_idx(s@, 0),
        decreases cs@.len() - a,
    {
        a += 1;
    }
    let mut b: usize = cs.len();
    while b > a && is_space_char(cs[b - 1])
        invariant
            cs@ == s@,
            a <= b <= cs@.len(),
            trim_start_idx(s@, 0) == a,
            trim_end_idx(s@, a as int, b as int) == trim_end_idx(s@, a as int, s@.len() as int),
        decreases b,
    {
        b -= 1;
    }
    copy_chars(&cs, a, b)
}

/// Splits `s` at each `sep`, keeping empty pieces.
pub fn split_text(s: &str, sep: char) -> (r: Vec<String>)
    ensures
        views(r@) == split_on(s@, sep),
{
    let cs = chars_of(s);
    let mut out: Vec<String> = Vec::new();
    let mut cur: Vec<char> = Vec::new();
    let mut i: usize = 0;
    while i < cs.len()
        invariant
            cs@ == s@,
            i <= cs@.len(),
            views(out@) + split_scan(s@, i as int, cur@, sep) == split_on(s@, sep),
        decreases cs@.len() - i,
    {
        let c = cs[i];
        let ghost before = views(out@);
        if c == sep {
            let w = string_of(cur.as_slice());
            out.push(w);
            assert(views(out@) =~= before.push(cur@));
            assert(before + (seq![cur@] + split_scan(s@, i + 1, seq![], sep)) =~= before.push(
                cur@,
            ) + split_scan(s@, i + 1, seq![], sep));
            cur = Vec::new();
            assert(cur@ =~= seq![]);
        } else {
            cur.push(c);
        }
        i += 1;
    }
    let ghost before = views(out@);
    out.push(string_of(cur.as_slice()));
    assert(views(out@) =~= before + seq![cur@]);
    out
}

pub open spec fn trim_all(ws: Seq<Seq<char>>) -> Seq<Seq<char>> {
    ws.map_values(|w: Seq<char>| trim(w))
}

/// The comma-separated values of `contents`, each trimmed.
pub fn parse_csv(contents: &str) -> (r: Vec<String>)
    ensures
        views(r@) == trim_all(split_on(contents@, ',')),
{
    let pieces = split_text(contents, ',');
    let ghost ps = views(pieces@);
    let mut out: Vec<String> = Vec::new();
    let mut i: usize = 0;
    while i < pieces.len()
        invariant
            i <= pieces@.len(),
            ps == views(pieces@),
            views(out@) == trim_all(ps).take(i as int),
        decreases pieces@.len() - i,
    {
        let t = trim_text(pieces[i].as_str());
        assert(trim_all(ps)[i as int] == t@);
        let ghost before = views(out@);
        out.push(t);
        assert(views(out@) =~= before.push(t@));
        assert(trim_all(ps).take(i + 1) =~= trim_all(ps).take(i as int).push(t@));
        i += 1;
    }
    assert(trim_all(ps).take(pieces@.len() as int) =~= trim_all(ps));
    out
}

/// The lines between the first and the last of the trimmed block, joined by
/// newlines: the YAML inside `---` delimiters. A block of fewer than two
/// lines holds nothing.
pub open spec fn front_matter_body_spec(text: Seq<char>) -> Seq<char> {
    let lines = split_on(trim(text), '\n');
    if lines.len() < 2 {
        seq![]
    } else {
        join_lines(lines.subrange(1, lines.len() - 1))
    }
}

pub open spec fn join_lines(ls: Seq<Seq<char>>) -> Seq<char>
    decreases ls.len(),
{
    if ls.len() == 0 {
        seq![]
    } else if ls.len() == 1 {
        ls[0]
    } else {
        join_lines(ls.drop_last()) + seq!['\n'] + ls.last()
    }
}

/// The YAML text inside a front matter block.
pub fn front_matter_body(text: &str) -> (r: String)
    ensures
        r@ == front_matter_body_spec(text@),
{
    let trimmed = trim_text(text);
    let lines = split_text(trimmed.as_str(), '\n');
    let ghost ls = views(lines@);
    if lines.len() < 2 {
        return String::new();
    }
    let ghost mid = ls.subrange(1, ls.len() - 1);
    let mut out = String::new();
    let mut i: usize = 1;
    while i < lines.len() - 1
        invariant
            1 <= i <= lines@.len() - 1,
            lines@.len() >= 2,
            ls == views(lines@),
            mid == ls.subrange(1, ls.len() - 1),
            out@ == join_lines(mid.take(i - 1)),
        decreases lines@.len() - i,
    {
        assert(mid.take(i as int).drop_last() =~= mid.take(i - 1));
        if i > 1 {
            out.append("\n");
            proof {
                reveal_strlit("\n");
            }
        } else {
            assert(mid.take(0) =~= seq![]);
        }
        out.append(lines[i].as_str());
        assert(out@ =~= join_lines(mid.take(i as int)));
        i += 1;
    }
    assert(mid.take(lines@.len() - 2) =~= mid);
    out
}

/// The aliases that the `alias` field declares: comma-separated, trimmed, lowercased.
pub open spec fn declared_aliases(alias: Seq<char>) -> Seq<Seq<char>> {
    if alias.len() == 0 {
        seq![]
    } else {
        trim_all(split_on(alias, ',')).map_values(|a: Seq<char>| lower_of(a))
    }
}

pub open spec fn alias_views(v: Seq<Alias>) -> Seq<Seq<char>> {
    v.map_values(|a: Alias| a@)
}

/// Collects the aliases that a page's front matter declares.
#[derive(Clone, Debug, Default)]
pub struct FrontMatterVisitor {
    pub aliases: Vec<Alias>,
}

impl FrontMatterVisitor {
    pub fn new() -> (r: FrontMatterVisitor)
        ensures
            r.aliases@.len() == 0,
    {
        FrontMatterVisitor { aliases: Vec::new() }
    }

    /// Adds the aliases of this front matter.
    pub fn visit_front_matter(&mut self, front_matter: &YamlFrontMatter)
        ensures
            alias_views(final(self).aliases@) == alias_views(old(self).aliases@) + declared_aliases(
                front_matter.alias@,
            ),
    {
        if front_matter.alias.as_str().is_empty() {
            assert(alias_views(self.aliases@) + declared_aliases(front_matter.alias@) =~= alias_views(
                self.aliases@,
            ));
            return;
        }
        let names = parse_csv(front_matter.alias.as_str());
        let ghost base = alias_views(self.aliases@);
        let ghost ds = declared_aliases(front_matter.alias@);
        let mut i: usize = 0;
        while i < names.len()
            invariant
                i <= names@.len(),
                front_matter.alias@.len() > 0,
                views(names@) == trim_all(split_on(front_matter.alias@, ',')),
                ds == declared_aliases(front_matter.alias@),
                alias_views(self.aliases@) == base + ds.take(i as int),
            decreases names@.len() - i,
        {
            let a = Alias::new(names[i].as_str());
            assert(ds[i as int] == a@);
            let ghost prev = alias_views(self.aliases@);
            self.aliases.push(a);
            assert(alias_views(self.aliases@) =~= prev.push(a@));
            assert(ds.take(i + 1) =~= ds.take(i as int).push(a@));
            assert(alias_views(self.aliases@) =~= base + ds.take(i + 1));
            i += 1;
        }
        assert(ds.take(names@.len() as int) =~= ds);
    }

    /// Forgets the aliases of the page just read.
    pub fn finalize_file(&mut self)
        ensures
            final(self).aliases@.len() == 0,
    {
        self.aliases = Vec::new();
    }
}

/// The front matter block of the document that holds node `idx`: the node
/// itself if it is one, else the first child of the document root if that is one.
pub fn get_frontmatter_from_any_node(nodes: &Vec<MdNode>, idx: usize) -> (r: Option<String>)
    requires
        idx < nodes@.len(),
    ensures
        nodes@[idx as int].kind == NodeKind::FrontMatter ==> r == Some(nodes@[idx as int].text),
        r matches Some(t) ==> exists|k: int|
            0 <= k < nodes@.len() && nodes@[k].kind == NodeKind::FrontMatter && nodes@[k].text == t,
{
    if nodes[idx].kind == NodeKind::FrontMatter {
        return Some(nodes[idx].text.clone());
    }
    let mut cur: usize = idx;
    let mut steps: usize = 0;
    while steps < nodes.len() && nodes[cur].kind != NodeKind::Document
        invariant
            cur < nodes@.len(),
            idx < nodes@.len(),
            nodes@[idx as int].kind != NodeKind::FrontMatter,
        decreases nodes@.len() - steps,
    {
        match nodes[cur].parent {
            Some(p) => {
                if p < nodes.len() {
                    cur = p;
                } else {
                    break;
                }
            },
            None => break,
        }
        steps += 1;
    }
    let mut k: usize = 0;
    while k < nodes.len()
        invariant
            cur < nodes@.len(),
            idx < nodes@.len(),
            nodes@[idx as int].kind != NodeKind::FrontMatter,
        decreases nodes@.len() - k,
    {
        if nodes[k].parent == Some(cur) {
            if nodes[k].kind == NodeKind::FrontMatter {
                assert(nodes@[k as int].kind == NodeKind::FrontMatter);
                return Some(nodes[k].text.clone());
            }
            return None;
        }
        k += 1;
    }
    None
}

/// Moves a span past the front matter, which node positions leave out.
pub fn repair_span_due_to_frontmatter(span: Span, nodes: &Vec<MdNode>, idx: usize) -> (r: Span)
    requires
        idx < nodes@.len(),
    ensures
        r.len == span.len,
        r.offset >= span.offset,
        nodes@[idx as int].kind == NodeKind::FrontMatter ==> r.offset as int == crate::wikilink::sat_add(
            span.offset as int,
            crate::ngrams::utf8_len(nodes@[idx as int].text@) as int,
        ),
{
    match get_frontmatter_from_any_node(nodes, idx) {
        Some(fm) => Span {
            offset: crate::wikilink::sat_add_exec(span.offset, fm.as_str().len()),
            len: span.len,
        },
        None => span,
    }
}

/// The source without its front matter block, if the document has one.
pub fn remove_frontmatter_from_source(source: &str, nodes: &Vec<MdNode>, idx: usize) -> (r: String)
    requires
        idx < nodes@.len(),
    ensures
        nodes@[idx as int].kind == NodeKind::FrontMatter && nodes@[idx as int].text@.len() <= source@.len()
            ==> r@ == source@.skip(nodes@[idx as int].text@.len() as int),
        r@.len() <= source@.len(),
{
    let cs = chars_of(source);
    match get_frontmatter_from_any_node(nodes, idx) {
        Some(fm) => {
            let n = fm.as_str().unicode_len();
            if n <= cs.len() {
                let r = copy_chars(&cs, n, cs.len());
                assert(r@ =~= source@.skip(n as int));
                r
            } else {
                String::new()
            }
        },
        None => source.to_string(),
    }
}

/// `s` holds `alias::` at index `i`.
pub open spec fn alias_marker_at(s: Seq<char>, i: int) -> bool {
    0 <= i && i + 7 <= s.len() && s.subrange(i, i + 7) == seq!['a', 'l', 'i', 'a', 's', ':', ':']
}

/// The first index at or after `i` that is not white space.
pub open spec fn skip_space(s: Seq<char>, i: int) -> int
    decreases s.len() - i,
{
    if 0 <= i < s.len() && is_space(s[i]) {
        skip_space(s, i + 1)
    } else {
        i
    }
}

/// The first newline at or after `i`, or the end.
pub open spec fn line_end(s: Seq<char>, i: int) -> int
    decreases s.len() - i,
{
    if 0 <= i < s.len() && s[i] != '\n' {
        line_end(s, i + 1)
    } else {
        i
    }
}

/// The value of the first `alias::` property: after the marker and any white
/// space, the rest of that line.
pub open spec fn logseq_alias_value(s: Seq<char>, marker: int) -> Seq<char> {
    let start = skip_space(s, marker + 7);
    s.subrange(start, line_end(s, start))
}

proof fn lemma_skip_space_bounds(s: Seq<char>, i: int)
    requires
        0 <= i <= s.len(),
    ensures
        i <= skip_space(s, i) <= s.len(),
    decreases s.len() - i,
{
    if i < s.len() && is_space(s[i]) {
        lemma_skip_space_bounds(s, i + 1);
    }
}

/// The aliases of a page written in the `alias:: a, b` property form: the
/// comma-separated values of its first `alias::` line, each trimmed.
pub fn logseq_aliases(contents: &str) -> (r: Vec<String>)
    ensures
        (forall|i: int| !alias_marker_at(contents@, i)) ==> r@.len() == 0,
        forall|m: int|
            alias_marker_at(contents@, m) && (forall|i: int| 0 <= i < m ==> !alias_marker_at(contents@, i))
                ==> views(r@) == trim_all(split_on(logseq_alias_value(contents@, m), ',')),
{
    proof {
        reveal_strlit("alias::");
    }
    assert("alias::"@ =~= seq!['a', 'l', 'i', 'a', 's', ':', ':']);
    let found = crate::text::find_text(contents, "alias::");
    let m = match found {
        Some(m) => m,
        None => {
            assert forall|i: int| !alias_marker_at(contents@, i) by {
                if alias_marker_at(contents@, i) {
                    assert(crate::text::occurs_at(contents@, "alias::"@, i));
                }
            }
            return Vec::new();
        },
    };
    proof {
        assert forall|i: int| 0 <= i < m implies !alias_marker_at(contents@, i) by {
            if alias_marker_at(contents@, i) {
                assert(crate::text::occurs_at(contents@, "alias::"@, i));
            }
        }
    }
    let cs = chars_of(contents);
    let mut start: usize = m + 7;
    proof {
        lemma_skip_space_bounds(contents@, m + 7);
    }
    while start < cs.len() && is_space_char(cs[start])
        invariant
            cs@ == contents@,
            m + 7 <= start <= cs@.len(),
            skip_space(contents@, start as int) == skip_space(contents@, m + 7),
        decreases cs@.len() - start,
    {
        start += 1;
    }
    let mut end: usize = start;
    while end < cs.len() && cs[end] != '\n'
        invariant
            cs@ == contents@,
            start <= end <= cs@.len(),
            line_end(contents@, end as int) == line_end(contents@, start as int),
        decreases cs@.len() - end,
    {
        end += 1;
    }
    let value = copy_chars(&cs, start, end);
    let r = parse_csv(value.as_str());
    proof {
        assert(alias_marker_at(contents@, m as int));
        assert forall|m2: int|
            alias_marker_at(contents@, m2) && (forall|i: int| 0 <= i < m2 ==> !alias_marker_at(contents@, i))
                implies views(r@) == trim_all(split_on(logseq_alias_value(contents@, m2), ',')) by {
            if m2 < m {
            } else if m2 > m {
                assert(!alias_marker_at(contents@, m as int));
            }
        }
    }
    r
}

} // verus!
