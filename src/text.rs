//! Character-level helpers shared by every analysis.
use vstd::prelude::*;

verus! {

/// What `str::to_lowercase` makes of a string.
pub uninterp spec fn lower_of(s: Seq<char>) -> Seq<char>;

/// Relies on `str::to_lowercase`: the result depends on the characters alone.
#[verifier::external_body]
pub(crate) fn lowercase(s: &str) -> (r: String)
    ensures
        r@ == lower_of(s@),
{
    s.to_lowercase()
}

/// Relies on `str::chars`: the characters of `s`, in order.
#[verifier::external_body]
pub(crate) fn chars_of(s: &str) -> (r: Vec<char>)
    ensures
        r@ == s@,
{
    s.chars().collect()
}

/// Relies on `String: FromIterator<&char>`: the string made of these characters.
#[verifier::external_body]
pub(crate) fn string_of(cs: &[char]) -> (r: String)
    ensures
        r@ == cs@,
{
    cs.iter().collect()
}

/// The characters that Unicode calls white space.
pub open spec fn is_space(c: char) -> bool {
    ('\u{9}' <= c && c <= '\u{d}') || c == ' ' || c == '\u{85}' || c == '\u{a0}' || c
        == '\u{1680}' || ('\u{2000}' <= c && c <= '\u{200a}') || c == '\u{2028}' || c
        == '\u{2029}' || c == '\u{202f}' || c == '\u{205f}' || c == '\u{3000}'
}

pub fn is_space_char(c: char) -> (r: bool)
    ensures
        r == is_space(c),
{
    ('\u{9}' <= c && c <= '\u{d}') || c == ' ' || c == '\u{85}' || c == '\u{a0}' || c
        == '\u{1680}' || ('\u{2000}' <= c && c <= '\u{200a}') || c == '\u{2028}' || c
        == '\u{2029}' || c == '\u{202f}' || c == '\u{205f}' || c == '\u{3000}'
}

/// `a` and `b` hold the same characters.
pub fn same_text(a: &str, b: &str) -> (r: bool)
    ensures
        r == (a@ == b@),
{
    let ca = chars_of(a);
    let cb = chars_of(b);
    if ca.len() != cb.len() {
        return false;
    }
    let mut i: usize = 0;
    while i < ca.len()
        invariant
            ca@ == a@,
            cb@ == b@,
            ca@.len() == cb@.len(),
            i <= ca@.len(),
            forall|j: int| 0 <= j < i ==> ca@[j] == cb@[j],
        decreases ca@.len() - i,
    {
        if ca[i] != cb[i] {
            return false;
        }
        i += 1;
    }
    assert(ca@ =~= cb@);
    true
}

} // verus!

verus! {

/// `a` comes before `b` in lexicographic order of characters.
pub open spec fn seq_lt(a: Seq<char>, b: Seq<char>) -> bool
    decreases a.len(),
{
    if a.len() == 0 {
        b.len() > 0
    } else if b.len() == 0 {
        false
    } else if a[0] != b[0] {
        a[0] < b[0]
    } else {
        seq_lt(a.drop_first(), b.drop_first())
    }
}

/// Two different texts are ordered one way or the other, never both.
pub proof fn lemma_seq_lt_total(a: Seq<char>, b: Seq<char>)
    ensures
        !(seq_lt(a, b) && seq_lt(b, a)),
        a != b ==> seq_lt(a, b) || seq_lt(b, a),
    decreases a.len(),
{
    if a.len() > 0 && b.len() > 0 && a[0] == b[0] {
        lemma_seq_lt_total(a.drop_first(), b.drop_first());
        if a != b {
            assert(a =~= seq![a[0]] + a.drop_first());
            assert(b =~= seq![b[0]] + b.drop_first());
        }
    } else if a.len() == 0 && b.len() == 0 {
        assert(a =~= b);
    }
}

/// The order is transitive.
pub proof fn lemma_seq_lt_transitive(a: Seq<char>, b: Seq<char>, c: Seq<char>)
    requires
        seq_lt(a, b),
        seq_lt(b, c),
    ensures
        seq_lt(a, c),
    decreases a.len(),
{
    if a.len() > 0 && b.len() > 0 && c.len() > 0 && a[0] == b[0] && b[0] == c[0] {
        lemma_seq_lt_transitive(a.drop_first(), b.drop_first(), c.drop_first());
    }
}

/// Whether `a` comes before `b`, as `<` orders two `String`s.
pub fn text_lt(a: &str, b: &str) -> (r: bool)
    ensures
        r == seq_lt(a@, b@),
{
    let ca = chars_of(a);
    let cb = chars_of(b);
    let mut i: usize = 0;
    assert(a@.skip(0) =~= a@);
    assert(b@.skip(0) =~= b@);
    while i < ca.len() && i < cb.len() && ca[i] == cb[i]
        invariant
            ca@ == a@,
            cb@ == b@,
            i <= ca@.len(),
            i <= cb@.len(),
            seq_lt(a@.skip(i as int), b@.skip(i as int)) == seq_lt(a@, b@),
        decreases ca@.len() - i,
    {
        assert(a@.skip(i as int).drop_first() =~= a@.skip(i + 1));
        assert(b@.skip(i as int).drop_first() =~= b@.skip(i + 1));
        i += 1;
    }
    if i == ca.len() {
        i < cb.len()
    } else if i == cb.len() {
        false
    } else {
        ca[i] < cb[i]
    }
}

/// Where the first occurrence of `needle` in `hay` starts.
pub open spec fn occurs_at(hay: Seq<char>, needle: Seq<char>, i: int) -> bool {
    0 <= i && i + needle.len() <= hay.len() && hay.subrange(i, i + needle.len()) == needle
}

/// The index of the first occurrence of `needle` in `hay`, if any.
pub fn find_text(hay: &str, needle: &str) -> (r: Option<usize>)
    ensures
        r matches Some(i) ==> occurs_at(hay@, needle@, i as int) && forall|j: int|
            0 <= j < i ==> !occurs_at(hay@, needle@, j),
        r is None ==> forall|j: int| 0 <= j ==> !occurs_at(hay@, needle@, j),
{
    let h = chars_of(hay);
    let n = chars_of(needle);
    if n.len() > h.len() {
        return None;
    }
    let hl = h.len();
    let mut i: usize = 0;
    while i <= h.len() - n.len()
        invariant
            h@ == hay@,
            n@ == needle@,
            n@.len() <= h@.len(),
            hl == h@.len(),
            forall|j: int| 0 <= j < i ==> !occurs_at(hay@, needle@, j),
        decreases h@.len() - i,
    {
        let mut k: usize = 0;
        let mut same = true;
        while k < n.len() && same
            invariant
                h@ == hay@,
                n@ == needle@,
                i + n@.len() <= h@.len(),
                hl == h@.len(),
                k <= n@.len(),
                forall|t: int| 0 <= t < k ==> h@[i + t] == n@[t],
                !same ==> k < n@.len() && h@[i + k] != n@[k as int],
            decreases n@.len() - k + (if same { 1int } else { 0int }),
        {
            if h[i + k] == n[k] {
                k += 1;
            } else {
                same = false;
            }
        }
        if k == n.len() {
            assert(hay@.subrange(i as int, i + needle@.len()) =~= needle@);
            return Some(i);
        }
        assert(hay@.subrange(i as int, i + needle@.len())[k as int] != needle@[k as int]);
        i += 1;
    }
    None
}

/// The offset that a 1-based line and column point at, found by walking
/// the text: the first position whose line and column reach both, or the end.
pub open spec fn location_walk(s: Seq<char>, i: int, line: int, col: int, loc_line: int, loc_col: int) -> int
    decreases s.len() - i,
{
    if i >= s.len() || (line + 1 >= loc_line && col + 1 >= loc_col) {
        i
    } else if s[i] == '\n' {
        location_walk(s, i + 1, line + 1, 0, loc_line, loc_col)
    } else {
        location_walk(s, i + 1, line, col + 1, loc_line, loc_col)
    }
}

pub open spec fn location_offset_spec(s: Seq<char>, loc_line: int, loc_col: int) -> int {
    location_walk(s, 0, 0, 0, loc_line, loc_col)
}

/// The character offset of a 1-based line and column in `source`.
pub fn location_offset(source: &str, loc_line: usize, loc_col: usize) -> (r: usize)
    ensures
        r == location_offset_spec(source@, loc_line as int, loc_col as int),
        r <= source@.len(),
{
    let cs = chars_of(source);
    let mut line: usize = 0;
    let mut col: usize = 0;
    let mut i: usize = 0;
    while i < cs.len()
        invariant
            cs@ == source@,
            i <= cs@.len(),
            line <= i,
            col <= i,
            location_walk(source@, i as int, line as int, col as int, loc_line as int, loc_col as int)
                == location_offset_spec(source@, loc_line as int, loc_col as int),
        decreases cs@.len() - i,
    {
        if line + 1 >= loc_line && col + 1 >= loc_col {
            return i;
        }
        if cs[i] == '\n' {
            col = 0;
            line += 1;
        } else {
            col += 1;
        }
        i += 1;
    }
    i
}

} // verus!

verus! {

pub open spec fn all_ascii(s: Seq<char>) -> bool {
    vstd::utf8::is_ascii_chars(s)
}

/// Whether every character of `s` is ASCII.
pub fn is_all_ascii(s: &str) -> (r: bool)
    ensures
        r == all_ascii(s@),
        r ==> s.is_ascii(),
{
    s.is_ascii()
}

/// Two strictly increasing sequences with the same elements are equal.
pub proof fn lemma_sorted_unique(a: Seq<Seq<char>>, b: Seq<Seq<char>>)
    requires
        a.to_set() == b.to_set(),
        forall|i: int, j: int| 0 <= i < j < a.len() ==> seq_lt(#[trigger] a[i], #[trigger] a[j]),
        forall|i: int, j: int| 0 <= i < j < b.len() ==> seq_lt(#[trigger] b[i], #[trigger] b[j]),
    ensures
        a == b,
    decreases a.len(),
{
    if a.len() == 0 {
        if b.len() > 0 {
            assert(b.to_set().contains(b[0]));
        }
        return;
    }
    if b.len() == 0 {
        assert(a.to_set().contains(a[0]));
        return;
    }
    assert(a.to_set().contains(a[0]));
    assert(b.to_set().contains(b[0]));
    let k = choose|k: int| 0 <= k < b.len() && b[k] == a[0];
    let m = choose|m: int| 0 <= m < a.len() && a[m] == b[0];
    if a[0] != b[0] {
        assert(k > 0 && m > 0);
        assert(seq_lt(b[0], b[k]));
        assert(seq_lt(a[0], a[m]));
        lemma_seq_lt_total(a[0], b[0]);
    }
    let a1 = a.drop_first();
    let b1 = b.drop_first();
    assert forall|i: int, j: int| 0 <= i < j < a1.len() implies seq_lt(#[trigger] a1[i], #[trigger] a1[j]) by {
        assert(a1[i] == a[i + 1] && a1[j] == a[j + 1]);
    }
    assert forall|i: int, j: int| 0 <= i < j < b1.len() implies seq_lt(#[trigger] b1[i], #[trigger] b1[j]) by {
        assert(b1[i] == b[i + 1] && b1[j] == b[j + 1]);
    }
    assert forall|x: Seq<char>| a1.to_set().contains(x) implies b1.to_set().contains(x) by {
        let i = choose|i: int| 0 <= i < a1.len() && a1[i] == x;
        assert(a[i + 1] == x);
        assert(seq_lt(a[0], x));
        lemma_seq_lt_total(x, x);
        assert(a.to_set().contains(x));
        let t = choose|t: int| 0 <= t < b.len() && b[t] == x;
        assert(t != 0);
        assert(b1[t - 1] == x);
    }
    assert forall|x: Seq<char>| b1.to_set().contains(x) implies a1.to_set().contains(x) by {
        let i = choose|i: int| 0 <= i < b1.len() && b1[i] == x;
        assert(b[i + 1] == x);
        assert(seq_lt(b[0], x));
        lemma_seq_lt_total(x, x);
        assert(b.to_set().contains(x));
        let t = choose|t: int| 0 <= t < a.len() && a[t] == x;
        assert(t != 0);
        assert(a1[t - 1] == x);
    }
    assert(a1.to_set() =~= b1.to_set());
    lemma_sorted_unique(a1, b1);
    assert(a =~= seq![a[0]] + a1);
    assert(b =~= seq![b[0]] + b1);
}

} // verus!
