//! Association lists: the map that inserting pairs in order gives.
use vstd::prelude::*;

verus! {

/// The map that inserting the pairs `ps` in order into an empty map gives.
pub open spec fn to_assoc<K, V>(ps: Seq<(K, V)>) -> Map<K, V>
    decreases ps.len(),
{
    if ps.len() == 0 {
        Map::empty()
    } else {
        to_assoc(ps.drop_last()).insert(ps.last().0, ps.last().1)
    }
}

/// No key occurs twice.
pub open spec fn assoc_unique<K, V>(ps: Seq<(K, V)>) -> bool {
    forall|i: int, j: int| 0 <= i < ps.len() && 0 <= j < ps.len() && i != j ==> ps[i].0 != ps[j].0
}

pub proof fn lemma_assoc_dom<K, V>(ps: Seq<(K, V)>, k: K)
    ensures
        to_assoc(ps).dom().contains(k) <==> exists|i: int| 0 <= i < ps.len() && ps[i].0 == k,
        to_assoc(ps).dom().finite(),
    decreases ps.len(),
{
    if ps.len() > 0 {
        lemma_assoc_dom(ps.drop_last(), k);
        if exists|i: int| 0 <= i < ps.len() && ps[i].0 == k {
            let i = choose|i: int| 0 <= i < ps.len() && ps[i].0 == k;
            if i < ps.len() - 1 {
                assert(ps.drop_last()[i].0 == k);
            }
        }
        if exists|i: int| 0 <= i < ps.len() - 1 && ps.drop_last()[i].0 == k {
            let i = choose|i: int| 0 <= i < ps.len() - 1 && ps.drop_last()[i].0 == k;
            assert(ps[i].0 == k);
        }
    }
}

pub proof fn lemma_assoc_value<K, V>(ps: Seq<(K, V)>, i: int)
    requires
        assoc_unique(ps),
        0 <= i < ps.len(),
    ensures
        to_assoc(ps).dom().contains(ps[i].0),
        to_assoc(ps)[ps[i].0] == ps[i].1,
    decreases ps.len(),
{
    if i < ps.len() - 1 {
        lemma_assoc_value(ps.drop_last(), i);
    }
}

pub proof fn lemma_assoc_update<K, V>(ps: Seq<(K, V)>, i: int, v: V)
    requires
        assoc_unique(ps),
        0 <= i < ps.len(),
    ensures
        to_assoc(ps.update(i, (ps[i].0, v))) == to_assoc(ps).insert(ps[i].0, v),
    decreases ps.len(),
{
    let k = ps[i].0;
    let qs = ps.update(i, (k, v));
    if i == ps.len() - 1 {
        assert(qs.drop_last() == ps.drop_last());
        assert(to_assoc(ps.drop_last()).insert(k, ps[i].1).insert(k, v) =~= to_assoc(
            ps.drop_last(),
        ).insert(k, v));
    } else {
        lemma_assoc_update(ps.drop_last(), i, v);
        assert(qs.drop_last() == ps.drop_last().update(i, (k, v)));
        assert(ps.last().0 != k);
        assert(to_assoc(ps.drop_last()).insert(k, v).insert(ps.last().0, ps.last().1) =~= to_assoc(
            ps.drop_last(),
        ).insert(ps.last().0, ps.last().1).insert(k, v));
    }
}

} // verus!
