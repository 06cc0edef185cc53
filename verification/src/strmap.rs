//! A small string-to-string map kept as a vector of pairs with distinct keys.
use vstd::prelude::*;

use crate::text::{chars_eq, chars_of, string_of};

verus! {

/// The views of a vector of string pairs.
pub open spec fn pairs_view(v: Seq<(String, String)>) -> Seq<(Seq<char>, Seq<char>)> {
    Seq::new(v.len(), |i: int| (v[i].0@, v[i].1@))
}

/// The map that inserting the pairs `ps` in order into an empty map gives.
pub open spec fn to_map(ps: Seq<(Seq<char>, Seq<char>)>) -> Map<Seq<char>, Seq<char>>
    decreases ps.len(),
{
    if ps.len() == 0 {
        Map::empty()
    } else {
        to_map(ps.drop_last()).insert(ps.last().0, ps.last().1)
    }
}

/// No key occurs twice.
pub open spec fn keys_unique(ps: Seq<(Seq<char>, Seq<char>)>) -> bool {
    forall|i: int, j: int| 0 <= i < ps.len() && 0 <= j < ps.len() && i != j ==> ps[i].0 != ps[j].0
}

pub proof fn lemma_to_map_dom(ps: Seq<(Seq<char>, Seq<char>)>, k: Seq<char>)
    ensures
        to_map(ps).dom().contains(k) <==> exists|i: int| 0 <= i < ps.len() && ps[i].0 == k,
        to_map(ps).dom().finite(),
    decreases ps.len(),
{
    if ps.len() > 0 {
        lemma_to_map_dom(ps.drop_last(), k);
        if exists|i: int| 0 <= i < ps.len() && ps[i].0 == k {
            let i = choose|i: int| 0 <= i < ps.len() && ps[i].0 == k;
            if i < ps.len() - 1 {
                assert(ps.drop_last()[i].0 == k);
            }
        }
        if exists|i: int| 0 <= i < ps.len() - 1 && ps.drop_last()[i].0 == k {
            let i = choose|i: int| 0 <= i < ps.len() - 1 && ps.drop_last()[i].0 == k;
            assert(ps[i].0 == k);
        }
    }
}

pub proof fn lemma_to_map_value(ps: Seq<(Seq<char>, Seq<char>)>, i: int)
    requires
        keys_unique(ps),
        0 <= i < ps.len(),
    ensures
        to_map(ps).dom().contains(ps[i].0),
        to_map(ps)[ps[i].0] == ps[i].1,
    decreases ps.len(),
{
    if i < ps.len() - 1 {
        lemma_to_map_value(ps.drop_last(), i);
    }
}

pub proof fn lemma_to_map_update(ps: Seq<(Seq<char>, Seq<char>)>, i: int, v: Seq<char>)
    requires
        keys_unique(ps),
        0 <= i < ps.len(),
    ensures
        to_map(ps.update(i, (ps[i].0, v))) == to_map(ps).insert(ps[i].0, v),
    decreases ps.len(),
{
    let k = ps[i].0;
    let qs = ps.update(i, (k, v));
    if i == ps.len() - 1 {
        assert(qs.drop_last() == ps.drop_last());
        assert(to_map(ps.drop_last()).insert(k, ps[i].1).insert(k, v) =~= to_map(
            ps.drop_last(),
        ).insert(k, v));
    } else {
        lemma_to_map_update(ps.drop_last(), i, v);
        assert(qs.drop_last() == ps.drop_last().update(i, (k, v)));
        assert(ps.last().0 != k);
        assert(to_map(ps.drop_last()).insert(k, v).insert(ps.last().0, ps.last().1) =~= to_map(
            ps.drop_last(),
        ).insert(ps.last().0, ps.last().1).insert(k, v));
    }
}

/// Keeping the pairs that `keep` accepts restricts the map to their keys.
pub proof fn lemma_to_map_filter(
    ps: Seq<(Seq<char>, Seq<char>)>,
    keep: spec_fn((Seq<char>, Seq<char>)) -> bool,
)
    requires
        keys_unique(ps),
    ensures
        keys_unique(ps.filter(keep)),
        to_map(ps.filter(keep)) == Map::new(
            |k: Seq<char>| to_map(ps).dom().contains(k) && keep((k, to_map(ps)[k])),
            |k: Seq<char>| to_map(ps)[k],
        ),
    decreases ps.len(),
{
    reveal_with_fuel(Seq::<_>::filter, 1);
    if ps.len() == 0 {
        assert(to_map(ps.filter(keep)) =~= Map::new(
            |k: Seq<char>| to_map(ps).dom().contains(k) && keep((k, to_map(ps)[k])),
            |k: Seq<char>| to_map(ps)[k],
        ));
    } else {
        let init = ps.drop_last();
        assert(keys_unique(init));
        lemma_to_map_filter(init, keep);
        let f = init.filter(keep);
        let last = ps.last();
        assert(ps.filter(keep) == if keep(last) {
            f.push(last)
        } else {
            f
        });
        assert forall|j: int| 0 <= j < f.len() implies f[j].0 != last.0 by {
            assert(f.contains(f[j]));
            init.lemma_filter_contains_rev(keep, f[j]);
            assert(init.contains(f[j]));
            let m = choose|m: int| 0 <= m < init.len() && init[m] == f[j];
            assert(ps[m] == init[m]);
        }
        assert(keys_unique(ps.filter(keep)));
        lemma_to_map_dom(init, last.0);
        assert(!to_map(init).dom().contains(last.0));
        let target = Map::new(
            |k: Seq<char>| to_map(ps).dom().contains(k) && keep((k, to_map(ps)[k])),
            |k: Seq<char>| to_map(ps)[k],
        );
        let prev = Map::new(
            |k: Seq<char>| to_map(init).dom().contains(k) && keep((k, to_map(init)[k])),
            |k: Seq<char>| to_map(init)[k],
        );
        assert(to_map(f) == prev);
        if keep(last) {
            assert(f.push(last).drop_last() == f);
            assert(to_map(ps.filter(keep)) == prev.insert(last.0, last.1));
            assert(prev.insert(last.0, last.1) =~= target);
        } else {
            assert(to_map(ps.filter(keep)) == prev);
            assert(prev =~= target);
        }
        assert(to_map(ps.filter(keep)) =~= Map::new(
            |k: Seq<char>| to_map(ps).dom().contains(k) && keep((k, to_map(ps)[k])),
            |k: Seq<char>| to_map(ps)[k],
        ));
    }
}

/// A string map: the pairs it was built from, keys distinct.
#[derive(Clone, Debug)]
pub struct StrMap {
    entries: Vec<(String, String)>,
}

impl View for StrMap {
    type V = Map<Seq<char>, Seq<char>>;

    closed spec fn view(&self) -> Map<Seq<char>, Seq<char>> {
        to_map(pairs_view(self.entries@))
    }
}

impl StrMap {
    /// The pairs, in insertion order.
    pub closed spec fn pairs(&self) -> Seq<(Seq<char>, Seq<char>)> {
        pairs_view(self.entries@)
    }

    /// The keys are distinct.
    pub closed spec fn wf(&self) -> bool {
        keys_unique(pairs_view(self.entries@))
    }

    pub proof fn lemma_view(&self)
        requires
            self.wf(),
        ensures
            self@ == to_map(self.pairs()),
            self@.dom().finite(),
            keys_unique(self.pairs()),
            self@.dom().len() == self.pairs().len(),
            forall|i: int|
                0 <= i < self.pairs().len() ==> #[trigger] self@.dom().contains(
                    self.pairs()[i].0,
                ) && self@[self.pairs()[i].0] == self.pairs()[i].1,
            forall|k: Seq<char>|
                #[trigger] self@.dom().contains(k) ==> exists|i: int|
                    0 <= i < self.pairs().len() && self.pairs()[i].0 == k,
    {
        let ps = self.pairs();
        assert forall|i: int| 0 <= i < ps.len() implies #[trigger] self@.dom().contains(
            ps[i].0,
        ) && self@[ps[i].0] == ps[i].1 by {
            lemma_to_map_value(ps, i);
        }
        assert forall|k: Seq<char>| #[trigger] self@.dom().contains(k) implies exists|i: int|
            0 <= i < ps.len() && ps[i].0 == k by {
            lemma_to_map_dom(ps, k);
        }
        lemma_to_map_dom(ps, Seq::empty());
        lemma_len(ps);
    }

    pub fn new() -> (r: StrMap)
        ensures
            r.wf(),
            r@ == Map::<Seq<char>, Seq<char>>::empty(),
            r.pairs().len() == 0,
    {
        StrMap { entries: Vec::new() }
    }

    pub fn len(&self) -> (r: usize)
        requires
            self.wf(),
        ensures
            r == self@.dom().len(),
            r == self.pairs().len(),
    {
        proof {
            self.lemma_view();
        }
        self.entries.len()
    }

    /// The `i`-th pair in insertion order.
    pub fn entry(&self, i: usize) -> (r: (&String, &String))
        requires
            i < self.pairs().len(),
        ensures
            (r.0@, r.1@) == self.pairs()[i as int],
    {
        (&self.entries[i].0, &self.entries[i].1)
    }

    fn position(&self, k: &[char]) -> (r: Option<usize>)
        ensures
            match r {
                Some(i) => i < self.pairs().len() && self.pairs()[i as int].0 == k@,
                None => forall|i: int| 0 <= i < self.pairs().len() ==> self.pairs()[i].0 != k@,
            },
    {
        let mut i: usize = 0;
        while i < self.entries.len()
            invariant
                i <= self.entries.len(),
                forall|j: int| 0 <= j < i ==> self.pairs()[j].0 != k@,
            decreases self.entries.len() - i,
        {
            let key = chars_of(self.entries[i].0.as_str());
            if chars_eq(key.as_slice(), k) {
                return Some(i);
            }
            i += 1;
        }
        None
    }

    /// The value stored under `k`.
    pub fn get(&self, k: &[char]) -> (r: Option<&String>)
        requires
            self.wf(),
        ensures
            match r {
                Some(v) => self@.dom().contains(k@) && self@[k@] == v@,
                None => !self@.dom().contains(k@),
            },
    {
        proof {
            self.lemma_view();
        }
        match self.position(k) {
            Some(i) => Some(&self.entries[i].1),
            None => None,
        }
    }

    /// Stores `v` under `k`, replacing what was there.
    pub fn insert(&mut self, k: &[char], v: &[char])
        requires
            old(self).wf(),
        ensures
            final(self).wf(),
            final(self)@ == old(self)@.insert(k@, v@),
    {
        let ghost ps = self.pairs();
        match self.position(k) {
            Some(i) => {
                let key = self.entries[i].0.clone();
                self.entries.set(i, (key, string_of(v)));
                proof {
                    assert(self.pairs() =~= ps.update(i as int, (ps[i as int].0, v@)));
                    lemma_to_map_update(ps, i as int, v@);
                }
            },
            None => {
                self.entries.push((string_of(k), string_of(v)));
                assert(self.pairs() =~= ps.push((k@, v@)));
                assert(self.pairs().drop_last() == ps);
            },
        }
    }

}

pub proof fn lemma_len(ps: Seq<(Seq<char>, Seq<char>)>)
    requires
        keys_unique(ps),
    ensures
        to_map(ps).dom().len() == ps.len(),
        to_map(ps).dom().finite(),
    decreases ps.len(),
{
    lemma_to_map_dom(ps, Seq::empty());
    if ps.len() > 0 {
        lemma_len(ps.drop_last());
        lemma_to_map_dom(ps.drop_last(), ps.last().0);
        assert(!to_map(ps.drop_last()).dom().contains(ps.last().0));
    }
}

} // verus!
