//! Aliases, and the wikilinks and tags that refer to them.
use vstd::prelude::*;
use crate::name::Filename;
use crate::pattern::regex_replace_all_of;
use crate::sed::ReplacePair;
use crate::document::{MdNode, NodeKind};
use crate::rules::Span;
use crate::text::{chars_of, location_offset, location_offset_spec, lower_of, lowercase, string_of};

verus! {

/// A linkable name, as written in a wikilink or derived from a filename.
/// Aliases are always lowercase.
#[derive(Clone, Debug, Eq, PartialEq, Hash)]
pub struct Alias(String);

impl View for Alias {
    type V = Seq<char>;

    closed spec fn view(&self) -> Seq<char> {
        self.0@
    }
}

/// The alias that a filename rewrite rule gives for a filename.
pub open spec fn alias_of_filename(filename: Seq<char>, from: Seq<char>, to: Seq<char>) -> Seq<
    char,
> {
    lower_of(regex_replace_all_of(from, filename, to))
}

impl Alias {
    pub fn new(alias: &str) -> (r: Alias)
        ensures
            r@ == lower_of(alias@),
    {
        Alias(lowercase(alias))
    }

    pub fn is_empty(&self) -> (r: bool)
        ensures
            r == (self@.len() == 0),
    {
        self.0.as_str().is_empty()
    }

    /// Length in characters.
    pub fn char_len(&self) -> (r: usize)
        ensures
            r == self@.len(),
    {
        self.0.as_str().unicode_len()
    }

    pub fn as_str(&self) -> (r: &str)
        ensures
            r@ == self@,
    {
        self.0.as_str()
    }

    /// A second alias with the same text.
    pub fn copied(&self) -> (r: Alias)
        ensures
            r == *self,
            r@ == self@,
    {
        Alias(self.0.clone())
    }

    /// The alias of a filename under the configured rewrite rule.
    pub fn from_filename(filename: &Filename, filename_to_alias: &ReplacePair) -> (r: Alias)
        ensures
            r@ == alias_of_filename(
                filename@,
                filename_to_alias.from_spec(),
                filename_to_alias.to_spec(),
            ),
    {
        Alias::new(filename_to_alias.apply(filename.as_str()).as_str())
    }
}

/// A character that may stand in a tag: `[A-Za-z0-9_/-]`.
pub open spec fn tag_char(c: char) -> bool {
    ('A' <= c && c <= 'Z') || ('a' <= c && c <= 'z') || ('0' <= c && c <= '9') || c == '_' || c
        == '/' || c == '-'
}

fn is_tag_char(c: char) -> (r: bool)
    ensures
        r == tag_char(c),
{
    ('A' <= c && c <= 'Z') || ('a' <= c && c <= 'z') || ('0' <= c && c <= '9') || c == '_' || c
        == '/' || c == '-'
}

/// The tags of `s` from index `i` on, as ranges of their names (after `#`);
/// `st` is where the tag being read starts, or -1 outside a tag. A tag is a
/// `#` followed by the longest run of tag characters, read left to right.
pub open spec fn tags_scan(s: Seq<char>, i: int, st: int) -> Seq<(int, int)>
    decreases s.len() - i,
{
    if i >= s.len() {
        if st >= 0 {
            seq![(st, s.len() as int)]
        } else {
            seq![]
        }
    } else if st >= 0 && tag_char(s[i]) {
        tags_scan(s, i + 1, st)
    } else {
        let emitted: Seq<(int, int)> = if st >= 0 {
            seq![(st, i)]
        } else {
            seq![]
        };
        let next = if s[i] == '#' && i + 1 < s.len() && tag_char(s[i + 1]) {
            i + 1
        } else {
            -1
        };
        emitted + tags_scan(s, i + 1, next)
    }
}

pub open spec fn tags_of(s: Seq<char>) -> Seq<(int, int)> {
    tags_scan(s, 0, -1)
}

/// `a + b`, or the largest `usize` where that does not fit.
pub open spec fn sat_add(a: int, b: int) -> int {
    if a + b <= usize::MAX {
        a + b
    } else {
        usize::MAX as int
    }
}

pub(crate) fn sat_add_exec(a: usize, b: usize) -> (r: usize)
    ensures
        r == sat_add(a as int, b as int),
{
    if a <= usize::MAX - b {
        a + b
    } else {
        usize::MAX
    }
}

/// A reference found in content: its alias and where it stands.
#[derive(Clone, Debug)]
pub struct Wikilink {
    pub alias: Alias,
    pub span: Span,
}

/// A reference as plain values: alias, offset and length.
pub open spec fn link_view(w: Wikilink) -> (Seq<char>, int, int) {
    (w.alias@, w.span.offset as int, w.span.len as int)
}

pub open spec fn link_views(v: Seq<Wikilink>) -> Seq<(Seq<char>, int, int)> {
    v.map_values(|w: Wikilink| link_view(w))
}

/// The tags in `text`, placed at offset `base` of the source.
pub open spec fn tag_links(text: Seq<char>, base: int) -> Seq<(Seq<char>, int, int)> {
    tags_of(text).map_values(
        |t: (int, int)|
            (
                lower_of(text.subrange(t.0, t.1)),
                sat_add(base, t.0),
                lower_of(text.subrange(t.0, t.1)).len() as int,
            ),
    )
}

/// The references that one node holds: a wikilink refers to its target and
/// spans its brackets; a text or other inline node refers to each of its
/// tags; the document and its front matter hold none.
pub open spec fn node_links(node: MdNode, source: Seq<char>) -> Seq<(Seq<char>, int, int)> {
    let base = location_offset_spec(source, node.line as int, node.column as int);
    match node.kind {
        NodeKind::WikiLink => seq![
            (
                lower_of(node.text@),
                base,
                sat_add(crate::ngrams::utf8_len(node.text@) as int, 4),
            ),
        ],
        NodeKind::Text | NodeKind::Other => tag_links(node.text@, base),
        _ => seq![],
    }
}

/// Collects the wikilinks and tags of one page.
#[derive(Clone, Debug)]
pub struct WikilinkVisitor {
    pub wikilinks: Vec<Wikilink>,
}

impl WikilinkVisitor {
    pub fn new() -> (r: WikilinkVisitor)
        ensures
            r.wikilinks@.len() == 0,
    {
        WikilinkVisitor { wikilinks: Vec::new() }
    }

    fn push_tags(&mut self, text: &str, base: usize)
        ensures
            link_views(final(self).wikilinks@) == link_views(old(self).wikilinks@) + tag_links(
                text@,
                base as int,
            ),
    {
        let cs = chars_of(text);
        let ghost s = text@;
        let ghost start = link_views(self.wikilinks@);
        let mut st: usize = 0;
        let mut in_tag = false;
        let mut i: usize = 0;
        while i < cs.len()
            invariant
                cs@ == s,
                i <= cs@.len(),
                in_tag ==> st <= i && st < s.len() && tag_char(s[st as int]),
                link_views(self.wikilinks@) + tag_links_from(s, i as int, if in_tag {
                    st as int
                } else {
                    -1
                }, base as int) == start + tag_links(s, base as int),
            decreases cs@.len() - i,
        {
            let c = cs[i];
            if in_tag && is_tag_char(c) {
                i += 1;
            } else {
                let ghost prev = link_views(self.wikilinks@);
                if in_tag {
                    self.push_tag(&cs, st, i, base);
                }
                let next = c == '#' && i + 1 < cs.len() && is_tag_char(cs[i + 1]);
                proof {
                    let em: Seq<(int, int)> = if in_tag { seq![(st as int, i as int)] } else { seq![] };
                    let nx: int = if next { i + 1 } else { -1 };
                    assert(tags_scan(s, i as int, if in_tag { st as int } else { -1 }) == em + tags_scan(s, i + 1, nx));
                    lemma_tag_links_concat(s, em, tags_scan(s, i + 1, nx), base as int);
                    assert(link_views(self.wikilinks@) == prev + tag_links_of_ranges(s, em, base as int));
                }
                if next {
                    st = i + 1;
                    in_tag = true;
                } else {
                    in_tag = false;
                }
                i += 1;
            }
        }
        if in_tag {
            let ghost prev = link_views(self.wikilinks@);
            self.push_tag(&cs, st, i, base);
            assert(tags_scan(s, i as int, st as int) == seq![(st as int, s.len() as int)]);
            assert(link_views(self.wikilinks@) =~= prev + tag_links_of_ranges(s, seq![(st as int, i as int)], base as int));
        } else {
            assert(tags_scan(s, i as int, -1) =~= seq![]);
            assert(tag_links_of_ranges(s, seq![], base as int) =~= seq![]);
        }
        assert(tag_links_from(s, i as int, if in_tag { st as int } else { -1 }, base as int) =~= tag_links_of_ranges(s, tags_scan(s, i as int, if in_tag { st as int } else { -1 }), base as int));
    }

    fn push_tag(&mut self, cs: &Vec<char>, from: usize, to: usize, base: usize)
        requires
            from < to <= cs@.len(),
        ensures
            link_views(final(self).wikilinks@) == link_views(old(self).wikilinks@) + tag_links_of_ranges(
                cs@,
                seq![(from as int, to as int)],
                base as int,
            ),
    {
        let mut piece: Vec<char> = Vec::new();
        let mut k: usize = from;
        while k < to
            invariant
                from <= k <= to,
                to <= cs@.len(),
                piece@ == cs@.subrange(from as int, k as int),
            decreases to - k,
        {
            piece.push(cs[k]);
            assert(piece@ =~= cs@.subrange(from as int, k + 1));
            k += 1;
        }
        let name = string_of(piece.as_slice());
        let alias = Alias::new(name.as_str());
        let len = alias.char_len();
        let offset = sat_add_exec(base, from);
        let ghost prev = link_views(self.wikilinks@);
        self.wikilinks.push(Wikilink { alias, span: Span { offset, len } });
        assert(link_views(self.wikilinks@) =~= prev + tag_links_of_ranges(
            cs@,
            seq![(from as int, to as int)],
            base as int,
        ));
    }

    /// Records the references that `node` holds.
    pub fn visit(&mut self, node: &MdNode, source: &str)
        ensures
            link_views(final(self).wikilinks@) == link_views(old(self).wikilinks@) + node_links(
                *node,
                source@,
            ),
    {
        let base = location_offset(source, node.line, node.column);
        match node.kind {
            NodeKind::WikiLink => {
                let alias = Alias::new(node.text.as_str());
                let len = sat_add_exec(node.text.as_str().len(), 4);
                let ghost prev = link_views(self.wikilinks@);
                self.wikilinks.push(Wikilink { alias, span: Span { offset: base, len } });
                assert(link_views(self.wikilinks@) =~= prev + node_links(*node, source@));
            },
            NodeKind::Text | NodeKind::Other => {
                self.push_tags(node.text.as_str(), base);
            },
            _ => {
                assert(link_views(self.wikilinks@) + node_links(*node, source@) =~= link_views(
                    self.wikilinks@,
                ));
            },
        }
    }

    /// Forgets the references of the page just read.
    pub fn finalize_file(&mut self)
        ensures
            final(self).wikilinks@.len() == 0,
    {
        self.wikilinks = Vec::new();
    }
}

pub open spec fn tag_links_of_ranges(text: Seq<char>, ranges: Seq<(int, int)>, base: int) -> Seq<
    (Seq<char>, int, int),
> {
    ranges.map_values(
        |t: (int, int)|
            (
                lower_of(text.subrange(t.0, t.1)),
                sat_add(base, t.0),
                lower_of(text.subrange(t.0, t.1)).len() as int,
            ),
    )
}

pub open spec fn tag_links_from(text: Seq<char>, i: int, st: int, base: int) -> Seq<
    (Seq<char>, int, int),
> {
    tag_links_of_ranges(text, tags_scan(text, i, st), base)
}

proof fn lemma_tag_links_concat(text: Seq<char>, a: Seq<(int, int)>, b: Seq<(int, int)>, base: int)
    ensures
        tag_links_of_ranges(text, a + b, base) == tag_links_of_ranges(text, a, base)
            + tag_links_of_ranges(text, b, base),
{
    assert(tag_links_of_ranges(text, a + b, base) =~= tag_links_of_ranges(text, a, base)
        + tag_links_of_ranges(text, b, base));
}

} // verus!
