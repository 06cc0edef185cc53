//! Lexicographic order on strings (the order of `String::cmp`) and sorting
//! of key-value pairs by key.
use vstd::prelude::*;

use crate::strmap::keys_unique;
use crate::text::views;

verus! {

/// `a < b` in the order of `String`: code points compared from the left, a
/// proper prefix first (UTF-8 byte order and code point order agree).
pub open spec fn lex_lt(a: Seq<char>, b: Seq<char>) -> bool
    decreases a.len(),
{
    if a.len() == 0 {
        b.len() > 0
    } else if b.len() == 0 {
        false
    } else if a[0] != b[0] {
        a[0] < b[0]
    } else {
        lex_lt(a.drop_first(), b.drop_first())
    }
}

pub proof fn lemma_lex_irreflexive(a: Seq<char>)
    ensures
        !lex_lt(a, a),
    decreases a.len(),
{
    if a.len() > 0 {
        lemma_lex_irreflexive(a.drop_first());
    }
}

pub proof fn lemma_lex_asymmetric(a: Seq<char>, b: Seq<char>)
    ensures
        lex_lt(a, b) ==> !lex_lt(b, a),
    decreases a.len(),
{
    if a.len() > 0 && b.len() > 0 && a[0] == b[0] {
        lemma_lex_asymmetric(a.drop_first(), b.drop_first());
    }
}

pub proof fn lemma_lex_transitive(a: Seq<char>, b: Seq<char>, c: Seq<char>)
    ensures
        lex_lt(a, b) && lex_lt(b, c) ==> lex_lt(a, c),
    decreases a.len(),
{
    if a.len() > 0 && b.len() > 0 && c.len() > 0 {
        lemma_lex_transitive(a.drop_first(), b.drop_first(), c.drop_first());
    }
}

pub proof fn lemma_lex_total(a: Seq<char>, b: Seq<char>)
    ensures
        a != b ==> lex_lt(a, b) || lex_lt(b, a),
    decreases a.len(),
{
    if a.len() > 0 && b.len() > 0 && a[0] == b[0] {
        lemma_lex_total(a.drop_first(), b.drop_first());
        if a.drop_first() =~= b.drop_first() {
            assert forall|k: int| 0 <= k < a.len() implies a[k] == b[k] by {
                if k > 0 {
                    assert(a[k] == a.drop_first()[k - 1]);
                    assert(b[k] == b.drop_first()[k - 1]);
                }
            }
            assert(a =~= b);
        }
    }
    if a.len() == 0 && b.len() == 0 {
        assert(a =~= b);
    }

}

/// `a < b` as `String` comparison.
pub fn lex_less(a: &[char], b: &[char]) -> (r: bool)
    ensures
        r == lex_lt(a@, b@),
{
    let mut i: usize = 0;
    assert(a@.skip(0) == a@);
    assert(b@.skip(0) == b@);
    while i < a.len() && i < b.len()
        invariant
            i <= a.len(),
            i <= b.len(),
            forall|j: int| 0 <= j < i ==> a@[j] == b@[j],
            lex_lt(a@, b@) == lex_lt(a@.skip(i as int), b@.skip(i as int)),
        decreases a.len() - i,
    {
        assert(a@.skip(i as int)[0] == a@[i as int]);
        assert(b@.skip(i as int)[0] == b@[i as int]);
        if a[i] != b[i] {
            return a[i] < b[i];
        }
        assert(a@.skip(i as int).drop_first() == a@.skip(i + 1));
        assert(b@.skip(i as int).drop_first() == b@.skip(i + 1));
        i += 1;
    }
    i == a.len() && i < b.len()
}

/// Keys strictly increasing.
pub open spec fn keys_sorted(ps: Seq<(Seq<char>, Seq<char>)>) -> bool {
    forall|i: int, j: int| 0 <= i < j < ps.len() ==> lex_lt(ps[i].0, ps[j].0)
}

/// The views of a vector of pairs of character vectors.
pub open spec fn pair_views(v: Seq<(Vec<char>, Vec<char>)>) -> Seq<(Seq<char>, Seq<char>)> {
    Seq::new(v.len(), |i: int| (v[i].0@, v[i].1@))
}

/// The pairs `v` sorted by key; keys must be distinct.
pub fn sort_by_key(v: Vec<(Vec<char>, Vec<char>)>) -> (r: Vec<(Vec<char>, Vec<char>)>)
    requires
        keys_unique(pair_views(v@)),
    ensures
        keys_sorted(pair_views(r@)),
        pair_views(r@).to_set() == pair_views(v@).to_set(),
        r@.len() == v@.len(),
        keys_unique(pair_views(r@)),
{
    let ghost pv = pair_views(v@);
    let mut out: Vec<(Vec<char>, Vec<char>)> = Vec::new();
    let mut i: usize = 0;
    while i < v.len()
        invariant
            i <= v.len(),
            pv == pair_views(v@),
            keys_unique(pv),
            keys_sorted(pair_views(out@)),
            pair_views(out@).to_set() == pv.take(i as int).to_set(),
            out@.len() == i,
        decreases v.len() - i,
    {
        let key = &v[i].0;
        let mut j: usize = 0;
        while j < out.len() && lex_less(out[j].0.as_slice(), key.as_slice())
            invariant
                j <= out.len(),
                keys_sorted(pair_views(out@)),
                forall|m: int| 0 <= m < j ==> lex_lt(#[trigger] out@[m].0@, key@),
            decreases out.len() - j,
        {
            j += 1;
        }
        let ghost old_out = pair_views(out@);
        let ghost new = pv[i as int];
        assert(new == (v@[i as int].0@, v@[i as int].1@));
        // the new key differs from every key placed so far
        assert forall|m: int| 0 <= m < old_out.len() implies old_out[m].0 != new.0 by {
            assert(old_out.to_set().contains(old_out[m]));
            assert(pv.take(i as int).to_set().contains(old_out[m]));
            let k = choose|k: int| 0 <= k < i && #[trigger] pv.take(i as int)[k] == old_out[m];
            assert(pv[k] == old_out[m]);
        }
        out.insert(j, (v[i].0.clone(), v[i].1.clone()));
        proof {
            let np = pair_views(out@);
            assert(np =~= old_out.insert(j as int, new));
            assert forall|a: int, b: int| 0 <= a < b < np.len() implies lex_lt(
                np[a].0,
                np[b].0,
            ) by {
                if b < j {
                } else if a < j && b == j {
                    assert(np[a] == old_out[a]);
                } else if a < j && b > j {
                    assert(np[a] == old_out[a]);
                    assert(np[b] == old_out[b - 1]);
                } else if a == j {
                    assert(np[b] == old_out[b - 1]);
                    if j < old_out.len() {
                        lemma_lex_total(old_out[j as int].0, new.0);
                        if b - 1 > j {
                            lemma_lex_transitive(new.0, old_out[j as int].0, old_out[b - 1].0);
                        }
                    }
                } else {
                    assert(np[a] == old_out[a - 1]);
                    assert(np[b] == old_out[b - 1]);
                }
            }
            assert(np.to_set() =~= pv.take(i + 1).to_set()) by {
                assert(pv.take(i + 1) == pv.take(i as int).push(new));
                assert forall|x| np.to_set().contains(x) <==> pv.take(i + 1).to_set().contains(
                    x,
                ) by {
                    if np.to_set().contains(x) {
                        let k = choose|k: int| 0 <= k < np.len() && np[k] == x;
                        if k < j {
                            assert(old_out[k] == x);
                            assert(old_out.to_set().contains(x));
                        } else if k > j {
                            assert(old_out[k - 1] == x);
                            assert(old_out.to_set().contains(x));
                        }
                        if x != new {
                            assert(pv.take(i as int).to_set().contains(x));
                            let q = choose|q: int| 0 <= q < i && #[trigger] pv.take(i as int)[q] == x;
                            assert(pv.take(i + 1)[q] == x);
                        } else {
                            assert(pv.take(i + 1)[i as int] == x);
                        }
                    }
                    if pv.take(i + 1).to_set().contains(x) {
                        let q = choose|q: int| 0 <= q < i + 1 && #[trigger] pv.take(i + 1)[q] == x;
                        if q == i {
                            assert(np[j as int] == x);
                        } else {
                            assert(pv.take(i as int)[q] == x);
                            assert(pv.take(i as int).to_set().contains(x));
                            assert(old_out.to_set().contains(x));
                            let k = choose|k: int| 0 <= k < old_out.len() && old_out[k] == x;
                            if k < j {
                                assert(np[k] == x);
                            } else {
                                assert(np[k + 1] == x);
                            }
                        }
                    }
                }
            }
        }
        i += 1;
    }
    assert(pv.take(v.len() as int) == pv);
    proof {
        let rp = pair_views(out@);
        assert forall|a: int, b: int|
            0 <= a < rp.len() && 0 <= b < rp.len() && a != b implies rp[a].0 != rp[b].0 by {
            if a < b {
                lemma_lex_irreflexive(rp[a].0);
            } else {
                lemma_lex_irreflexive(rp[b].0);
            }
        }
    }
    out
}

/// The strings `v` sorted, duplicates must not occur.
pub fn sort_strings(v: Vec<Vec<char>>) -> (r: Vec<Vec<char>>)
    requires
        views(v@).no_duplicates(),
    ensures
        forall|i: int, j: int| 0 <= i < j < r@.len() ==> lex_lt(r@[i]@, r@[j]@),
        views(r@).to_set() == views(v@).to_set(),
        r@.len() == v@.len(),
{
    let mut pairs: Vec<(Vec<char>, Vec<char>)> = Vec::new();
    let mut i: usize = 0;
    while i < v.len()
        invariant
            i <= v.len(),
            pair_views(pairs@) == Seq::new(i as nat, |k: int| (v@[k]@, Seq::<char>::empty())),
        decreases v.len() - i,
    {
        let ghost before = pair_views(pairs@);
        pairs.push((v[i].clone(), Vec::new()));
        assert(pair_views(pairs@) =~= before.push((v@[i as int]@, Seq::<char>::empty())));
        assert(pair_views(pairs@) =~= Seq::new((i + 1) as nat, |k: int| (v@[k]@, Seq::<char>::empty())));
        i += 1;
    }
    let ghost pv = pair_views(pairs@);
    assert(keys_unique(pv)) by {
        assert forall|a: int, b: int| 0 <= a < pv.len() && 0 <= b < pv.len() && a != b implies pv[a].0
            != pv[b].0 by {
            assert(views(v@)[a] == pv[a].0);
            assert(views(v@)[b] == pv[b].0);
        }
    }
    let sorted = sort_by_key(pairs);
    let mut r: Vec<Vec<char>> = Vec::new();
    let mut k: usize = 0;
    while k < sorted.len()
        invariant
            k <= sorted.len(),
            r@.len() == k,
            forall|m: int| 0 <= m < k ==> #[trigger] r@[m]@ == sorted@[m].0@,
        decreases sorted.len() - k,
    {
        r.push(sorted[k].0.clone());
        k += 1;
    }
    proof {
        let sp = pair_views(sorted@);
        assert forall|a: int, b: int| 0 <= a < b < r@.len() implies lex_lt(r@[a]@, r@[b]@) by {
            assert(r@[a]@ == sp[a].0);
            assert(r@[b]@ == sp[b].0);
        }
        assert forall|x: Seq<char>| views(r@).to_set().contains(x) <==> views(v@).to_set().contains(
            x,
        ) by {
            if views(r@).to_set().contains(x) {
                let m = choose|m: int| 0 <= m < r@.len() && views(r@)[m] == x;
                assert(sp[m].0 == x);
                assert(sp.to_set().contains(sp[m]));
                assert(pv.to_set().contains(sp[m]));
                let q = choose|q: int| 0 <= q < pv.len() && pv[q] == sp[m];
                assert(views(v@)[q] == x);
            }
            if views(v@).to_set().contains(x) {
                let q = choose|q: int| 0 <= q < v@.len() && views(v@)[q] == x;
                assert(pv[q] == (x, Seq::<char>::empty()));
                assert(pv.to_set().contains(pv[q]));
                assert(sp.to_set().contains(pv[q]));
                let m = choose|m: int| 0 <= m < sp.len() && sp[m] == pv[q];
                assert(views(r@)[m] == x);
            }
        }
        assert(views(r@).to_set() =~= views(v@).to_set());
    }
    r
}

} // verus!
