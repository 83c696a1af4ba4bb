//! A hash map from text to text, kept in a `hashbrown::HashMap`.
use vstd::prelude::*;
use crate::pattern::views;
use crate::text::{lemma_seq_lt_total, lemma_seq_lt_transitive, seq_lt, text_lt};

verus! {

/// Holds a `hashbrown::HashMap<String, String>`; its allocator parameter is
/// bounded by a trait that hashbrown does not export, so the map cannot be
/// declared to Verus directly.
#[verifier::external_body]
pub struct StrMap {
    inner: hashbrown::HashMap<String, String>,
}

/// The entries of a `StrMap`.
pub uninterp spec fn str_map_entries(m: StrMap) -> Map<Seq<char>, Seq<char>>;

pub open spec fn no_entries() -> Map<Seq<char>, Seq<char>> {
    Map::empty()
}

impl View for StrMap {
    type V = Map<Seq<char>, Seq<char>>;

    open spec fn view(&self) -> Map<Seq<char>, Seq<char>> {
        str_map_entries(*self)
    }
}

impl StrMap {
    /// Relies on `hashbrown::HashMap::new`: an empty map.
    #[verifier::external_body]
    pub(crate) fn new() -> (r: StrMap)
        ensures
            str_map_entries(r) == no_entries(),
    {
        StrMap { inner: hashbrown::HashMap::new() }
    }

    /// Relies on `hashbrown::HashMap::insert`: the key now maps to the value,
    /// and the value it had before, if any, is handed back.
    #[verifier::external_body]
    pub(crate) fn insert(&mut self, k: String, v: String) -> (r: Option<String>)
        ensures
            str_map_entries(*final(self)) == str_map_entries(*old(self)).insert(k@, v@),
            r.is_some() == str_map_entries(*old(self)).contains_key(k@),
            r matches Some(o) ==> o@ == str_map_entries(*old(self))[k@],
    {
        self.inner.insert(k, v)
    }

    /// Relies on `hashbrown::HashMap::contains_key`.
    #[verifier::external_body]
    pub(crate) fn contains_key(&self, k: &str) -> (r: bool)
        ensures
            r == str_map_entries(*self).contains_key(k@),
    {
        self.inner.contains_key(k)
    }

    /// Relies on `hashbrown::HashMap::get`: the value under the key, copied.
    #[verifier::external_body]
    pub(crate) fn get(&self, k: &str) -> (r: Option<String>)
        ensures
            r.is_some() == str_map_entries(*self).contains_key(k@),
            r matches Some(v) ==> v@ == str_map_entries(*self)[k@],
    {
        self.inner.get(k).cloned()
    }

    /// The keys in increasing order, so that what is built from them does
    /// not depend on how the map hashes.
    pub(crate) fn sorted_keys(&self) -> (r: Vec<String>)
        ensures
            views(r@).to_set() == self@.dom(),
            forall|i: int, j: int| 0 <= i < j < r@.len() ==> seq_lt(#[trigger] r@[i]@, #[trigger] r@[j]@),
    {
        let keys = self.keys();
        let ghost ks = views(keys@);
        let mut out: Vec<String> = Vec::new();
        let mut k: usize = 0;
        while k < keys.len()
            invariant
                k <= keys@.len(),
                ks == views(keys@),
                ks.no_duplicates(),
                views(out@).to_set() == ks.take(k as int).to_set(),
                forall|i: int, j: int| 0 <= i < j < out@.len() ==> seq_lt(#[trigger] out@[i]@, #[trigger] out@[j]@),
            decreases keys@.len() - k,
        {
            let x = keys[k].clone();
            assert(x@ == ks[k as int]);
            assert(!views(out@).to_set().contains(x@)) by {
                if views(out@).to_set().contains(x@) {
                    assert(ks.take(k as int).to_set().contains(x@));
                    let t = choose|t: int| 0 <= t < k && #[trigger] ks.take(k as int)[t] == x@;
                    assert(ks[t] == ks[k as int]);
                }
            }
            let mut p: usize = 0;
            while p < out.len() && text_lt(out[p].as_str(), x.as_str())
                invariant
                    p <= out@.len(),
                    forall|i: int| 0 <= i < p ==> seq_lt(#[trigger] out@[i]@, x@),
                decreases out@.len() - p,
            {
                p += 1;
            }
            let ghost old_out = out@;
            proof {
                if p < out@.len() {
                    assert(views(old_out).to_set().contains(old_out[p as int]@)) by {
                        assert(views(old_out)[p as int] == old_out[p as int]@);
                    }
                    lemma_seq_lt_total(x@, old_out[p as int]@);
                }
            }
            out.insert(p, x);
            proof {
                old_out.insert_ensures(p as int, x);
                assert forall|i: int, j: int| 0 <= i < j < out@.len() implies seq_lt(#[trigger] out@[i]@, #[trigger] out@[j]@) by {
                    if j < p {
                    } else if j == p {
                    } else if i < p {
                        assert(out@[j] == old_out[j - 1]);
                        if j - 1 > p as int {
                            lemma_seq_lt_transitive(x@, old_out[p as int]@, old_out[j - 1]@);
                        }
                        lemma_seq_lt_transitive(out@[i]@, x@, out@[j]@);
                    } else if i == p {
                        assert(out@[j] == old_out[j - 1]);
                        if j - 1 > p as int {
                            lemma_seq_lt_transitive(x@, old_out[p as int]@, old_out[j - 1]@);
                        }
                    } else {
                        assert(out@[j] == old_out[j - 1]);
                        assert(out@[i] == old_out[i - 1]);
                    }
                }
                assert(views(out@) =~= views(old_out).insert(p as int, x@));
                assert(views(out@).to_set() =~= views(old_out).to_set().insert(x@)) by {
                    views(old_out).insert_ensures(p as int, x@);
                    assert forall|y: Seq<char>| views(out@).to_set().contains(y) <==> views(old_out).to_set().insert(x@).contains(y) by {
                        if views(out@).to_set().contains(y) {
                            let t = choose|t: int| 0 <= t < views(out@).len() && views(out@)[t] == y;
                            if t < p {
                                assert(views(old_out)[t] == y);
                            } else if t > p {
                                assert(views(old_out)[t - 1] == y);
                            }
                        }
                        if views(old_out).to_set().contains(y) {
                            let t = choose|t: int| 0 <= t < views(old_out).len() && views(old_out)[t] == y;
                            if t < p {
                                assert(views(out@)[t] == y);
                            } else {
                                assert(views(out@)[t + 1] == y);
                            }
                        }
                        if y == x@ {
                            assert(views(out@)[p as int] == y);
                        }
                    }
                }
                assert(ks.take(k + 1) =~= ks.take(k as int).push(x@));
                assert(ks.take(k + 1).to_set() =~= ks.take(k as int).to_set().insert(x@)) by {
                    assert forall|y: Seq<char>| ks.take(k + 1).to_set().contains(y) <==> ks.take(k as int).to_set().insert(x@).contains(y) by {
                        if ks.take(k + 1).to_set().contains(y) {
                            let t = choose|t: int| 0 <= t < k + 1 && #[trigger] ks.take(k + 1)[t] == y;
                            if t < k {
                                assert(ks.take(k as int)[t] == y);
                            }
                        }
                        if ks.take(k as int).to_set().contains(y) {
                            let t = choose|t: int| 0 <= t < k && #[trigger] ks.take(k as int)[t] == y;
                            assert(ks.take(k + 1)[t] == y);
                        }
                        if y == x@ {
                            assert(ks.take(k + 1)[k as int] == y);
                        }
                    }
                }
            }
            k += 1;
        }
        assert(ks.take(keys@.len() as int) =~= ks);
        out
    }

    /// Relies on `hashbrown::HashMap::keys`: each key once, in an order that
    /// the map's hasher decides.
    #[verifier::external_body]
    pub(crate) fn keys(&self) -> (r: Vec<String>)
        ensures
            views(r@).no_duplicates(),
            views(r@).to_set() == str_map_entries(*self).dom(),
    {
        self.inner.keys().cloned().collect()
    }
}

} // verus!
