//! A map keyed by strings that iterates in key order: the registry's
//! schema table and each schema's field table.
use vstd::prelude::*;
use crate::text::{seq_lt, str_lt, str_eq, lemma_seq_lt_irreflexive, lemma_seq_lt_transitive,
    lemma_seq_lt_total, lemma_seq_lt_asymmetric};

verus! {

pub struct StrMap<V> {
    entries: Vec<(String, V)>,
}

/// Keys strictly increase along `e`.
pub open spec fn keys_increasing<V>(e: Seq<(String, V)>) -> bool {
    forall|i: int, j: int| 0 <= i < j < e.len() ==> seq_lt(#[trigger] e[i].0@, #[trigger] e[j].0@)
}

pub open spec fn has_key<V>(e: Seq<(String, V)>, key: Seq<char>) -> bool {
    exists|i: int| 0 <= i < e.len() && #[trigger] e[i].0@ == key
}

pub open spec fn entries_map<V>(e: Seq<(String, V)>) -> Map<Seq<char>, V> {
    Map::new(
        |k: Seq<char>| has_key(e, k),
        |k: Seq<char>| e[choose|i: int| 0 <= i < e.len() && #[trigger] e[i].0@ == k].1,
    )
}

/// In a key-increasing table the entry at `i` is the one `choose` finds.
proof fn lemma_unique_index<V>(e: Seq<(String, V)>, i: int)
    requires
        keys_increasing(e),
        0 <= i < e.len(),
    ensures
        (choose|j: int| 0 <= j < e.len() && #[trigger] e[j].0@ == e[i].0@) == i,
{
    let j = choose|j: int| 0 <= j < e.len() && #[trigger] e[j].0@ == e[i].0@;
    assert(0 <= j < e.len() && e[j].0@ == e[i].0@);
    if j < i {
        lemma_seq_lt_irreflexive(e[i].0@);
    } else if i < j {
        lemma_seq_lt_irreflexive(e[i].0@);
    }
}

impl<V> StrMap<V> {
    #[verifier::type_invariant]
    spec fn inv(self) -> bool {
        keys_increasing(self.entries@)
    }

    pub closed spec fn view(&self) -> Map<Seq<char>, V> {
        entries_map(self.entries@)
    }

    /// The entries in increasing key order.
    pub closed spec fn entry_seq(&self) -> Seq<(String, V)> {
        self.entries@
    }

    /// The map is what its entries list (see `lemma_listing`).
    pub proof fn lemma_view_is_entries(m: Self)
        ensures
            m.view() == entries_map(m.entry_seq()),
    {
    }

    pub fn new() -> (m: Self)
        ensures
            m.view() == Map::<Seq<char>, V>::empty(),
            m.entry_seq().len() == 0,
            keys_increasing(m.entry_seq()),
    {
        let m = StrMap { entries: Vec::new() };
        assert(m.view() =~= Map::<Seq<char>, V>::empty());
        m
    }

    pub fn len(&self) -> (n: usize)
        ensures
            n == self.entry_seq().len(),
            n == self.view().dom().len(),
            keys_increasing(self.entry_seq()),
    {
        proof {
            use_type_invariant(self);
            lemma_dom_finite_len(self.entries@);
        }
        self.entries.len()
    }

    pub fn is_empty(&self) -> (b: bool)
        ensures
            b == (self.view().dom().len() == 0),
    {
        proof {
            use_type_invariant(self);
            lemma_dom_finite_len(self.entries@);
        }
        self.entries.len() == 0
    }

    /// The `i`-th entry in key order.
    pub fn entry(&self, i: usize) -> (r: (&String, &V))
        requires
            i < self.entry_seq().len(),
        ensures
            *r.0 == self.entry_seq()[i as int].0,
            *r.1 == self.entry_seq()[i as int].1,
    {
        (&self.entries[i].0, &self.entries[i].1)
    }

    pub fn get(&self, key: &str) -> (r: Option<&V>)
        ensures
            r matches Some(v) ==> self.view().contains_key(key@) && self.view()[key@] == *v,
            r is None ==> !self.view().contains_key(key@),
    {
        proof {
            use_type_invariant(self);
        }
        let mut i: usize = 0;
        while i < self.entries.len()
            invariant
                i <= self.entries@.len(),
                keys_increasing(self.entries@),
                forall|j: int| 0 <= j < i ==> #[trigger] self.entries@[j].0@ != key@,
            decreases self.entries.len() - i,
        {
            if str_eq(self.entries[i].0.as_str(), key) {
                proof {
                    lemma_unique_index(self.entries@, i as int);
                }
                return Some(&self.entries[i].1);
            }
            i = i + 1;
        }
        None
    }

    /// Sets `key` to `value`, replacing any earlier value (`BTreeMap::insert`).
    pub fn insert(&mut self, key: String, value: V)
        ensures
            final(self).view() == old(self).view().insert(key@, value),
            keys_increasing(final(self).entry_seq()),
            final(self).entry_seq().len() == old(self).entry_seq().len() + if old(
                self,
            ).view().contains_key(key@) {
                0int
            } else {
                1int
            },
    {
        proof {
            use_type_invariant(&*self);
        }
        let mut entries: Vec<(String, V)> = Vec::new();
        std::mem::swap(&mut entries, &mut self.entries);
        let ghost e = entries@;
        let mut pos: usize = 0;
        while pos < entries.len() && str_lt(entries[pos].0.as_str(), key.as_str())
            invariant
                pos <= entries@.len(),
                e == entries@,
                keys_increasing(e),
                forall|j: int| 0 <= j < pos ==> seq_lt(#[trigger] e[j].0@, key@),
            decreases entries.len() - pos,
        {
            pos = pos + 1;
        }
        // Every entry from `pos` on sorts at or after `key`.
        assert forall|j: int| pos <= j < e.len() implies !seq_lt(#[trigger] e[j].0@, key@) by {
            if seq_lt(e[j].0@, key@) {
                assert(!seq_lt(e[pos as int].0@, key@));
                lemma_seq_lt_total(e[pos as int].0@, key@);
                if j > pos {
                    lemma_seq_lt_asymmetric(e[pos as int].0@, e[j].0@);
                    if e[pos as int].0@ == key@ {
                    } else {
                        lemma_seq_lt_transitive(key@, e[pos as int].0@, e[j].0@);
                        lemma_seq_lt_asymmetric(key@, e[j].0@);
                    }
                }
            }
        }
        let ghost k = key@;
        if pos < entries.len() && str_eq(entries[pos].0.as_str(), key.as_str()) {
            let _old = entries.remove(pos);
            entries.insert(pos, (key, value));
            proof {
                let n = entries@;
                assert(n =~= e.update(pos as int, (n[pos as int].0, value)));
                assert forall|i: int, j: int| 0 <= i < j < n.len() implies seq_lt(
                    #[trigger] n[i].0@,
                    #[trigger] n[j].0@,
                ) by {
                    assert(e[i].0@ == n[i].0@ || i == pos);
                    assert(e[j].0@ == n[j].0@ || j == pos);
                }
                lemma_replace_map(e, n, pos as int, k, value);
                assert(has_key(e, k));
            }
        } else {
            entries.insert(pos, (key, value));
            proof {
                let n = entries@;
                assert(n =~= e.insert(pos as int, (n[pos as int].0, value)));
                assert forall|j: int| pos <= j < e.len() implies seq_lt(k, #[trigger] e[j].0@) by {
                    lemma_seq_lt_total(k, e[j].0@);
                    if j > pos {
                        lemma_seq_lt_total(e[pos as int].0@, k);
                        lemma_seq_lt_transitive(k, e[pos as int].0@, e[j].0@);
                    }
                }
                assert forall|i: int, j: int| 0 <= i < j < n.len() implies seq_lt(
                    #[trigger] n[i].0@,
                    #[trigger] n[j].0@,
                ) by {
                    if i < pos && j > pos {
                        assert(n[j] == e[j - 1]);
                        if j - 1 >= pos {
                            lemma_seq_lt_transitive(n[i].0@, k, e[j - 1].0@);
                        }
                    } else if i > pos {
                        assert(n[i] == e[i - 1] && n[j] == e[j - 1]);
                    } else if j < pos {
                        assert(n[i] == e[i] && n[j] == e[j]);
                    }
                }
                lemma_insert_map(e, n, pos as int, k, value);
                assert(!has_key(e, k)) by {
                    if has_key(e, k) {
                        let i = choose|i: int| 0 <= i < e.len() && #[trigger] e[i].0@ == k;
                        if i < pos {
                            lemma_seq_lt_irreflexive(k);
                        } else {
                            lemma_seq_lt_irreflexive(k);
                            if i > pos {
                                lemma_seq_lt_asymmetric(e[pos as int].0@, k);
                            }
                        }
                    }
                }
            }
        }
        self.entries = entries;
    }
}

/// A key-increasing entry sequence lists its map exactly: one entry per
/// key, in increasing key order, each holding its key's value.
pub proof fn lemma_listing<V>(e: Seq<(String, V)>)
    requires
        keys_increasing(e),
    ensures
        entries_map(e).dom().finite(),
        entries_map(e).dom().len() == e.len(),
        forall|i: int|
            0 <= i < e.len() ==> entries_map(e).contains_key(#[trigger] e[i].0@) && entries_map(e)[e[i].0@]
                == e[i].1,
        forall|k: Seq<char>|
            #[trigger] entries_map(e).contains_key(k) ==> exists|i: int| 0 <= i < e.len() && e[i].0@ == k,
{
    lemma_dom_finite_len(e);
    assert forall|i: int| 0 <= i < e.len() implies entries_map(e).contains_key(#[trigger] e[i].0@)
        && entries_map(e)[e[i].0@] == e[i].1 by {
        assert(has_key(e, e[i].0@));
        lemma_unique_index(e, i);
    }
}

proof fn lemma_dom_finite_len<V>(e: Seq<(String, V)>)
    requires
        keys_increasing(e),
    ensures
        entries_map(e).dom().finite(),
        entries_map(e).dom().len() == e.len(),
    decreases e.len(),
{
    if e.len() == 0 {
        assert(entries_map(e).dom() =~= Set::<Seq<char>>::empty());
    } else {
        let d = e.drop_last();
        lemma_dom_finite_len(d);
        let last = e.last().0@;
        assert forall|q: Seq<char>| has_key(e, q) <==> (has_key(d, q) || q == last) by {
            if has_key(e, q) {
                let i = choose|i: int| 0 <= i < e.len() && #[trigger] e[i].0@ == q;
                if i < d.len() {
                    assert(d[i].0@ == q);
                }
            }
            if has_key(d, q) {
                let i = choose|i: int| 0 <= i < d.len() && #[trigger] d[i].0@ == q;
                assert(e[i].0@ == q);
            }
            if q == last {
                assert(e[e.len() - 1].0@ == q);
            }
        }
        assert(entries_map(e).dom() =~= entries_map(d).dom().insert(last));
        if entries_map(d).dom().contains(last) {
            let i = choose|i: int| 0 <= i < d.len() && #[trigger] d[i].0@ == last;
            assert(e[i].0@ == last);
            assert(seq_lt(e[i].0@, e[e.len() - 1].0@));
            lemma_seq_lt_irreflexive(last);
        }
    }
}

proof fn lemma_replace_map<V>(e: Seq<(String, V)>, n: Seq<(String, V)>, pos: int, k: Seq<char>, v: V)
    requires
        keys_increasing(e),
        keys_increasing(n),
        0 <= pos < e.len(),
        e[pos].0@ == k,
        n.len() == e.len(),
        n[pos].0@ == k,
        n[pos].1 == v,
        forall|j: int| 0 <= j < e.len() && j != pos ==> n[j] == e[j],
    ensures
        entries_map(n) == entries_map(e).insert(k, v),
{
    let m = entries_map(e).insert(k, v);
    assert forall|q: Seq<char>| #[trigger] entries_map(n).contains_key(q) <==> m.contains_key(q) by {
        if has_key(e, q) {
            let i = choose|i: int| 0 <= i < e.len() && #[trigger] e[i].0@ == q;
            if i != pos {
                assert(n[i].0@ == q);
            }
        }
        if has_key(n, q) {
            let i = choose|i: int| 0 <= i < n.len() && #[trigger] n[i].0@ == q;
            if i != pos {
                assert(e[i].0@ == q);
            }
        }
    }
    assert forall|q: Seq<char>| #[trigger] entries_map(n).contains_key(q) implies entries_map(n)[q]
        == m[q] by {
        let i = choose|i: int| 0 <= i < n.len() && #[trigger] n[i].0@ == q;
        lemma_unique_index(n, i);
        if i != pos {
            assert(e[i].0@ == q);
            lemma_unique_index(e, i);
            assert(q != k) by {
                if q == k {
                    lemma_unique_index(e, pos);
                }
            }
        }
    }
    assert(entries_map(n) =~= m);
}

proof fn lemma_insert_map<V>(e: Seq<(String, V)>, n: Seq<(String, V)>, pos: int, k: Seq<char>, v: V)
    requires
        keys_increasing(e),
        keys_increasing(n),
        0 <= pos <= e.len(),
        n == e.insert(pos, (n[pos].0, v)),
        n[pos].0@ == k,
    ensures
        entries_map(n) == entries_map(e).insert(k, v),
{
    let m = entries_map(e).insert(k, v);
    assert forall|q: Seq<char>| #[trigger] entries_map(n).contains_key(q) <==> m.contains_key(q) by {
        if has_key(e, q) {
            let i = choose|i: int| 0 <= i < e.len() && #[trigger] e[i].0@ == q;
            if i < pos {
                assert(n[i].0@ == q);
            } else {
                assert(n[i + 1].0@ == q);
            }
        }
        if q == k {
            assert(n[pos].0@ == q);
        }
        if has_key(n, q) {
            let i = choose|i: int| 0 <= i < n.len() && #[trigger] n[i].0@ == q;
            if i < pos {
                assert(e[i].0@ == q);
            } else if i > pos {
                assert(e[i - 1].0@ == q);
            }
        }
    }
    assert forall|q: Seq<char>| #[trigger] entries_map(n).contains_key(q) implies entries_map(n)[q]
        == m[q] by {
        let i = choose|i: int| 0 <= i < n.len() && #[trigger] n[i].0@ == q;
        lemma_unique_index(n, i);
        if i != pos {
            let ei = if i < pos { i } else { i - 1 };
            assert(e[ei] == n[i]);
            lemma_unique_index(e, ei);
            assert(q != k) by {
                if q == k {
                    lemma_unique_index(n, pos);
                }
            }
        }
    }
    assert(entries_map(n) =~= m);
}

} // verus!
