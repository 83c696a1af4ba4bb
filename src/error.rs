//! Identities of reports, as plain strings, with prefix-based excludes.
use vstd::prelude::*;
use crate::rules::Report;
use crate::text::{lower_of, lowercase};

verus! {

/// A report with a human-readable id, usable to deduplicate it.
pub trait HasId {
    spec fn id_text(&self) -> Seq<char>;

    fn id(&self) -> (r: String)
        ensures
            r@ == self.id_text(),
    ;
}

impl HasId for Report {
    open spec fn id_text(&self) -> Seq<char> {
        self.id_view()
    }

    fn id(&self) -> (r: String) {
        self.id().as_str().to_string()
    }
}

/// `s` starts with `prefix`.
pub open spec fn has_prefix(s: Seq<char>, prefix: Seq<char>) -> bool {
    crate::rules::starts_with(s, prefix)
}

/// Some exclude, lowercased, starts the lowercased id.
pub open spec fn prefix_excluded(id: Seq<char>, excludes: Seq<Seq<char>>) -> bool {
    exists|i: int| 0 <= i < excludes.len() && #[trigger] has_prefix(lower_of(id), lower_of(excludes[i]))
}

pub open spec fn keep_unprefixed(s: Seq<Report>, excludes: Seq<Seq<char>>) -> Seq<Report>
    decreases s.len(),
{
    if s.len() == 0 {
        s
    } else {
        let rest = keep_unprefixed(s.drop_last(), excludes);
        if prefix_excluded(s.last().id_view(), excludes) {
            rest
        } else {
            rest.push(s.last())
        }
    }
}

/// Prefix excludes over a list of reports.
pub trait VecHasIdExtensions: Sized {
    /// Drops the reports whose lowercased id starts with a lowercased exclude.
    fn filter_by_excludes(self, excludes: Vec<String>) -> Self;
}

impl VecHasIdExtensions for Vec<Report> {
    fn filter_by_excludes(self, excludes: Vec<String>) -> (r: Vec<Report>)
        ensures
            r@ == keep_unprefixed(self@, crate::pattern::views(excludes@)),
    {
        let ghost orig = self@;
        let ghost ex = crate::pattern::views(excludes@);
        let mut rest = self;
        let mut back: Vec<Report> = Vec::new();
        while rest.len() > 0
            invariant
                back@.len() + rest@.len() == orig.len(),
                rest@ == orig.take(rest@.len() as int),
                forall|j: int| 0 <= j < back@.len() ==> back@[j] == orig[orig.len() - 1 - j],
            decreases rest@.len(),
        {
            let x = rest.pop().unwrap();
            back.push(x);
            assert(rest@ =~= orig.take(rest@.len() as int));
        }
        let mut out: Vec<Report> = Vec::new();
        let n = back.len();
        while back.len() > 0
            invariant
                back@.len() <= n,
                n == orig.len(),
                forall|j: int| 0 <= j < back@.len() ==> back@[j] == orig[orig.len() - 1 - j],
                ex == crate::pattern::views(excludes@),
                out@ == keep_unprefixed(orig.take(n - back@.len()), ex),
            decreases back@.len(),
        {
            let ghost k = n - back@.len();
            let x = back.pop().unwrap();
            assert(x == orig[k]);
            assert(orig.take(k + 1).drop_last() =~= orig.take(k));
            assert(orig.take(k + 1).last() == x);
            let lid = lowercase(x.id().as_str());
            let mut hit = false;
            let mut i: usize = 0;
            while i < excludes.len() && !hit
                invariant
                    i <= excludes@.len(),
                    ex == crate::pattern::views(excludes@),
                    lid@ == lower_of(x.id_view()),
                    !hit ==> forall|j: int| 0 <= j < i ==> !#[trigger] has_prefix(lower_of(x.id_view()), lower_of(ex[j])),
                    hit ==> prefix_excluded(x.id_view(), ex),
                decreases excludes@.len() - i + (if hit { 0int } else { 1int }),
            {
                let le = lowercase(excludes[i].as_str());
                if crate::rules::starts_with_text(lid.as_str(), le.as_str()) {
                    assert(has_prefix(lower_of(x.id_view()), lower_of(ex[i as int])));
                    hit = true;
                } else {
                    i += 1;
                }
            }
            if !hit {
                out.push(x);
            }
        }
        assert(orig.take(n as int) =~= orig);
        out
    }
}

} // verus!
