//! A string map kept sorted by key, for the large prefix tables: built from
//! a list of pairs in `O(n log n)` (the last pair of a key wins, as with
//! repeated inserts), looked up by binary search.
use vstd::prelude::*;

use crate::order::{lemma_lex_irreflexive, lemma_lex_total, lemma_lex_transitive, lex_less, lex_lt};
use crate::strmap::{keys_unique, lemma_len, lemma_to_map_dom, lemma_to_map_value, pairs_view, to_map};
use crate::text::{chars_eq, chars_of, views};

verus! {

broadcast use vstd::seq_lib::group_seq_properties;

// ---------------------------------------------------------------------------
// Sorting positions by key
// ---------------------------------------------------------------------------

/// Position `a` comes before `b`: a smaller key, or the same key earlier.
pub open spec fn pos_lt(keys: Seq<Seq<char>>, a: int, b: int) -> bool {
    lex_lt(keys[a], keys[b]) || (keys[a] == keys[b] && a < b)
}

/// `s` lists positions in strictly increasing `pos_lt` order.
pub open spec fn pos_sorted(keys: Seq<Seq<char>>, s: Seq<usize>) -> bool {
    forall|i: int, j: int| 0 <= i < j < s.len() ==> pos_lt(keys, s[i] as int, s[j] as int)
}

pub open spec fn range_set(lo: int, hi: int) -> Set<usize> {
    Set::new(|x: usize| lo <= x < hi)
}

proof fn lemma_pos_lt_trans(keys: Seq<Seq<char>>, a: int, b: int, c: int)
    requires
        pos_lt(keys, a, b),
        pos_lt(keys, b, c),
    ensures
        pos_lt(keys, a, c),
{
    lemma_lex_transitive(keys[a], keys[b], keys[c]);
}

proof fn lemma_pos_lt_total(keys: Seq<Seq<char>>, a: int, b: int)
    requires
        a != b,
    ensures
        pos_lt(keys, a, b) || pos_lt(keys, b, a),
{
    lemma_lex_total(keys[a], keys[b]);
}

fn pos_less(keys: &Vec<Vec<char>>, a: usize, b: usize) -> (r: bool)
    requires
        a < keys.len(),
        b < keys.len(),
    ensures
        r == pos_lt(views(keys@), a as int, b as int),
{
    if lex_less(keys[a].as_slice(), keys[b].as_slice()) {
        true
    } else if chars_eq(keys[a].as_slice(), keys[b].as_slice()) {
        a < b
    } else {
        false
    }
}

/// Merges two sorted lists of distinct positions.
fn merge(keys: &Vec<Vec<char>>, a: Vec<usize>, b: Vec<usize>) -> (r: Vec<usize>)
    requires
        pos_sorted(views(keys@), a@),
        pos_sorted(views(keys@), b@),
        forall|i: int| 0 <= i < a.len() ==> a@[i] < keys.len(),
        forall|i: int| 0 <= i < b.len() ==> b@[i] < keys.len(),
        forall|i: int, j: int| 0 <= i < a.len() && 0 <= j < b.len() ==> a@[i] != b@[j],
    ensures
        pos_sorted(views(keys@), r@),
        r@.to_set() == a@.to_set() + b@.to_set(),
        r.len() == a.len() + b.len(),
{
    let ghost kv = views(keys@);
    let mut out: Vec<usize> = Vec::new();
    let mut i: usize = 0;
    let mut j: usize = 0;
    while i < a.len() || j < b.len()
        invariant
            kv == views(keys@),
            i <= a.len(),
            j <= b.len(),
            pos_sorted(kv, a@),
            pos_sorted(kv, b@),
            forall|x: int| 0 <= x < a.len() ==> a@[x] < keys.len(),
            forall|x: int| 0 <= x < b.len() ==> b@[x] < keys.len(),
            forall|x: int, y: int| 0 <= x < a.len() && 0 <= y < b.len() ==> a@[x] != b@[y],
            pos_sorted(kv, out@),
            out.len() == i + j,
            out@.to_set() == a@.take(i as int).to_set() + b@.take(j as int).to_set(),
            forall|k: int, x: int|
                0 <= k < out.len() && i <= x < a.len() ==> pos_lt(kv, out@[k] as int, a@[x] as int),
            forall|k: int, y: int|
                0 <= k < out.len() && j <= y < b.len() ==> pos_lt(kv, out@[k] as int, b@[y] as int),
        decreases a.len() + b.len() - i - j,
    {
        let take_a = if i < a.len() && j < b.len() {
            pos_less(keys, a[i], b[j])
        } else {
            i < a.len()
        };
        let ghost before = out@;
        if take_a {
            let x = a[i];
            proof {
                if j < b.len() {
                    assert forall|y: int| j <= y < b.len() implies pos_lt(kv, x as int, b@[y] as int) by {
                        if y > j {
                            lemma_pos_lt_trans(kv, x as int, b@[j as int] as int, b@[y] as int);
                        }
                    }
                }
            }
            out.push(x);
            proof {
                before.lemma_push_to_set_commute(x);
                a@.take(i as int).lemma_push_to_set_commute(x);
                assert(a@.take(i + 1) == a@.take(i as int).push(x));
                assert forall|k: int, xx: int|
                    0 <= k < out.len() && i + 1 <= xx < a.len() implies pos_lt(
                    kv,
                    out@[k] as int,
                    a@[xx] as int,
                ) by {
                    if k == out.len() - 1 {
                        assert(out@[k] == a@[i as int]);
                    }
                }
            }
            i += 1;
        } else {
            let y = b[j];
            proof {
                if i < a.len() {
                    lemma_pos_lt_total(kv, a@[i as int] as int, y as int);
                    assert forall|x: int| i <= x < a.len() implies pos_lt(kv, y as int, a@[x] as int) by {
                        if x > i {
                            lemma_pos_lt_trans(kv, y as int, a@[i as int] as int, a@[x] as int);
                        }
                    }
                }
            }
            out.push(y);
            proof {
                before.lemma_push_to_set_commute(y);
                b@.take(j as int).lemma_push_to_set_commute(y);
                assert(b@.take(j + 1) == b@.take(j as int).push(y));
                assert forall|k: int, yy: int|
                    0 <= k < out.len() && j + 1 <= yy < b.len() implies pos_lt(
                    kv,
                    out@[k] as int,
                    b@[yy] as int,
                ) by {
                    if k == out.len() - 1 {
                        assert(out@[k] == b@[j as int]);
                    }
                }
            }
            j += 1;
        }
    }
    assert(a@.take(a.len() as int) == a@);
    assert(b@.take(b.len() as int) == b@);
    out
}

/// The positions `lo..hi`, sorted by key and then by position.
fn sort_range(keys: &Vec<Vec<char>>, lo: usize, hi: usize) -> (r: Vec<usize>)
    requires
        lo <= hi <= keys.len(),
    ensures
        pos_sorted(views(keys@), r@),
        r@.to_set() == range_set(lo as int, hi as int),
        r.len() == hi - lo,
    decreases hi - lo,
{
    if hi - lo == 0 {
        let r: Vec<usize> = Vec::new();
        assert(r@.to_set() =~= range_set(lo as int, hi as int));
        r
    } else if hi - lo == 1 {
        let mut r: Vec<usize> = Vec::new();
        r.push(lo);
        proof {
            Seq::<usize>::empty().lemma_push_to_set_commute(lo);
            assert(r@ == Seq::<usize>::empty().push(lo));
        }
        assert(r@.to_set() =~= range_set(lo as int, hi as int));
        r
    } else {
        let mid = lo + (hi - lo) / 2;
        let a = sort_range(keys, lo, mid);
        let b = sort_range(keys, mid, hi);
        proof {
            assert forall|i: int| 0 <= i < a.len() implies a@[i] < keys.len() && a@[i] < mid by {
                assert(a@.to_set().contains(a@[i]));
            }
            assert forall|i: int| 0 <= i < b.len() implies b@[i] < keys.len() && b@[i] >= mid by {
                assert(b@.to_set().contains(b@[i]));
            }
        }
        let r = merge(keys, a, b);
        assert(r@.to_set() =~= range_set(lo as int, hi as int));
        r
    }
}

// ---------------------------------------------------------------------------
// Keeping the last pair of each key
// ---------------------------------------------------------------------------

/// Runs of equal keys collapsed to their last pair.
pub open spec fn dedup_last(s: Seq<(Seq<char>, Seq<char>)>) -> Seq<(Seq<char>, Seq<char>)>
    decreases s.len(),
{
    if s.len() == 0 {
        s
    } else {
        let r = dedup_last(s.drop_last());
        if r.len() > 0 && r.last().0 == s.last().0 {
            r.drop_last().push(s.last())
        } else {
            r.push(s.last())
        }
    }
}

proof fn lemma_dedup_last(s: Seq<(Seq<char>, Seq<char>)>)
    ensures
        to_map(dedup_last(s)) == to_map(s),
        s.len() > 0 ==> dedup_last(s).len() > 0 && dedup_last(s).last() == s.last(),
        (forall|i: int, j: int|
            0 <= i < j < s.len() ==> lex_lt(s[i].0, s[j].0) || s[i].0 == s[j].0) ==> (forall|
            i: int,
            j: int,
        | 0 <= i < j < dedup_last(s).len() ==> lex_lt(dedup_last(s)[i].0, dedup_last(s)[j].0)),
    decreases s.len(),
{
    if s.len() > 0 {
        let init = s.drop_last();
        lemma_dedup_last(init);
        let r = dedup_last(init);
        let x = s.last();
        if r.len() > 0 && r.last().0 == x.0 {
            let q = r.drop_last();
            assert(q.push(x).drop_last() == q);
            assert(r.drop_last().push(r.last()) == r);
            assert(to_map(r) == to_map(q).insert(r.last().0, r.last().1));
            assert(to_map(q.push(x)) =~= to_map(r).insert(x.0, x.1));
        } else {
            assert(r.push(x).drop_last() == r);
        }
        if forall|i: int, j: int| 0 <= i < j < s.len() ==> lex_lt(s[i].0, s[j].0) || s[i].0 == s[j].0 {
            let d = dedup_last(s);
            assert(forall|i: int, j: int|
                0 <= i < j < init.len() ==> lex_lt(init[i].0, init[j].0) || init[i].0 == init[j].0);
            assert forall|i: int, j: int| 0 <= i < j < d.len() implies lex_lt(d[i].0, d[j].0) by {
                if j == d.len() - 1 && r.len() > 0 {
                    // d[i] is an element of r; r.last() == init.last()
                    assert(r.last() == init.last());
                    let n = init.len();
                    assert(lex_lt(s[n - 1].0, x.0) || s[n - 1].0 == x.0);
                    if i < r.len() - 1 {
                        assert(lex_lt(r[i].0, r.last().0));
                        if r.last().0 != x.0 {
                            lemma_lex_transitive(r[i].0, r.last().0, x.0);
                        }
                    }
                }
            }
        }
    }
}

/// Inserting `x` then `y` gives `x`'s map overridden by `y`'s.
pub proof fn lemma_to_map_append(x: Seq<(Seq<char>, Seq<char>)>, y: Seq<(Seq<char>, Seq<char>)>)
    ensures
        to_map(x + y) == to_map(x).union_prefer_right(to_map(y)),
    decreases y.len(),
{
    if y.len() == 0 {
        assert(x + y == x);
        assert(to_map(x).union_prefer_right(to_map(y)) =~= to_map(x));
    } else {
        lemma_to_map_append(x, y.drop_last());
        assert((x + y).drop_last() == x + y.drop_last());
        assert((x + y).last() == y.last());
        assert(to_map(x).union_prefer_right(to_map(y.drop_last())).insert(y.last().0, y.last().1)
            =~= to_map(x).union_prefer_right(to_map(y)));
    }
}

/// A pair with key `k` at `i` and none after it gives the map's value.
proof fn lemma_to_map_last(ps: Seq<(Seq<char>, Seq<char>)>, i: int)
    requires
        0 <= i < ps.len(),
        forall|j: int| i < j < ps.len() ==> ps[j].0 != ps[i].0,
    ensures
        to_map(ps).dom().contains(ps[i].0),
        to_map(ps)[ps[i].0] == ps[i].1,
    decreases ps.len(),
{
    if i < ps.len() - 1 {
        lemma_to_map_last(ps.drop_last(), i);
    }
}

/// A key that occurs has a last occurrence.
proof fn lemma_last_occurrence(ps: Seq<(Seq<char>, Seq<char>)>, k: Seq<char>) -> (i: int)
    requires
        exists|j: int| 0 <= j < ps.len() && ps[j].0 == k,
    ensures
        0 <= i < ps.len(),
        ps[i].0 == k,
        forall|j: int| i < j < ps.len() ==> ps[j].0 != k,
    decreases ps.len(),
{
    if ps.last().0 == k {
        (ps.len() - 1) as int
    } else {
        let j0 = choose|j: int| 0 <= j < ps.len() && ps[j].0 == k;
        assert(ps.drop_last()[j0].0 == k);
        let i = lemma_last_occurrence(ps.drop_last(), k);
        assert forall|j: int| i < j < ps.len() implies ps[j].0 != k by {
            if j < ps.len() - 1 {
                assert(ps.drop_last()[j] == ps[j]);
            }
        }
        i
    }
}

/// The pairs at the positions `order`, which lists every position once in
/// key-then-position order, give the same map.
proof fn lemma_sorted_same_map(ps: Seq<(Seq<char>, Seq<char>)>, order: Seq<usize>)
    requires
        ps.len() <= usize::MAX,
        pos_sorted(Seq::new(ps.len(), |i: int| ps[i].0), order),
        order.to_set() == range_set(0, ps.len() as int),
        order.len() == ps.len(),
    ensures
        to_map(Seq::new(order.len(), |t: int| ps[order[t] as int])) == to_map(ps),
{
    let keys = Seq::new(ps.len(), |i: int| ps[i].0);
    let s = Seq::new(order.len(), |t: int| ps[order[t] as int]);
    assert forall|t: int| 0 <= t < order.len() implies order[t] < ps.len() by {
        assert(order.to_set().contains(order[t]));
    }
    assert forall|k: Seq<char>| #[trigger] to_map(s).dom().contains(k) <==> to_map(ps).dom().contains(k) by {
        lemma_to_map_dom(s, k);
        lemma_to_map_dom(ps, k);
        if to_map(s).dom().contains(k) {
            let t = choose|t: int| 0 <= t < s.len() && s[t].0 == k;
            assert(ps[order[t] as int].0 == k);
        }
        if to_map(ps).dom().contains(k) {
            let p = choose|p: int| 0 <= p < ps.len() && ps[p].0 == k;
            assert(range_set(0, ps.len() as int).contains(p as usize));
            let t = choose|t: int| 0 <= t < order.len() && order[t] == p as usize;
            assert(s[t].0 == k);
        }
    }
    assert forall|k: Seq<char>| to_map(s).dom().contains(k) implies to_map(s)[k] == to_map(ps)[k] by {
        lemma_to_map_dom(ps, k);
        let m = lemma_last_occurrence(ps, k);
        lemma_to_map_last(ps, m);
        assert(range_set(0, ps.len() as int).contains(m as usize));
        let t = choose|t: int| 0 <= t < order.len() && order[t] == m as usize;
        assert forall|u: int| t < u < s.len() implies s[u].0 != s[t].0 by {
            assert(pos_lt(keys, order[t] as int, order[u] as int));
            assert(order[u] < ps.len());
            if s[u].0 == k {
                lemma_lex_irreflexive(k);
                assert(keys[order[u] as int] == k);
                assert(keys[m] == k);
                assert(order[t] as int == m);
                assert(m < order[u]);
            }
        }
        lemma_to_map_last(s, t);
    }
    assert(to_map(s) =~= to_map(ps));
}

// ---------------------------------------------------------------------------
// The map
// ---------------------------------------------------------------------------

/// Keys strictly increasing in `String` order.
pub open spec fn strictly_sorted(ps: Seq<(Seq<char>, Seq<char>)>) -> bool {
    forall|i: int, j: int| 0 <= i < j < ps.len() ==> lex_lt(ps[i].0, ps[j].0)
}

/// A string map whose pairs are kept in increasing key order.
#[derive(Clone, Debug)]
pub struct PrefixMap {
    entries: Vec<(String, String)>,
}

impl View for PrefixMap {
    type V = Map<Seq<char>, Seq<char>>;

    closed spec fn view(&self) -> Map<Seq<char>, Seq<char>> {
        to_map(pairs_view(self.entries@))
    }
}

impl PrefixMap {
    /// The pairs, in increasing key order.
    pub closed spec fn pairs(&self) -> Seq<(Seq<char>, Seq<char>)> {
        pairs_view(self.entries@)
    }

    /// The keys are strictly increasing.
    pub closed spec fn wf(&self) -> bool {
        strictly_sorted(pairs_view(self.entries@))
    }

    pub proof fn lemma_view(&self)
        requires
            self.wf(),
        ensures
            self@ == to_map(self.pairs()),
            strictly_sorted(self.pairs()),
            keys_unique(self.pairs()),
            self@.dom().finite(),
            self@.dom().len() == self.pairs().len(),
            forall|i: int|
                0 <= i < self.pairs().len() ==> #[trigger] self@.dom().contains(self.pairs()[i].0)
                    && self@[self.pairs()[i].0] == self.pairs()[i].1,
            forall|k: Seq<char>|
                #[trigger] self@.dom().contains(k) ==> exists|i: int|
                    0 <= i < self.pairs().len() && self.pairs()[i].0 == k,
    {
        let ps = self.pairs();
        assert(keys_unique(ps)) by {
            assert forall|i: int, j: int|
                0 <= i < ps.len() && 0 <= j < ps.len() && i != j implies ps[i].0 != ps[j].0 by {
                lemma_lex_irreflexive(ps[i].0);
            }
        }
        assert forall|i: int| 0 <= i < ps.len() implies #[trigger] self@.dom().contains(ps[i].0)
            && self@[ps[i].0] == ps[i].1 by {
            lemma_to_map_value(ps, i);
        }
        assert forall|k: Seq<char>| #[trigger] self@.dom().contains(k) implies exists|i: int|
            0 <= i < ps.len() && ps[i].0 == k by {
            lemma_to_map_dom(ps, k);
        }
        lemma_len(ps);
    }

    /// The empty map.
    pub fn new() -> (r: PrefixMap)
        ensures
            r.wf(),
            r@ == Map::<Seq<char>, Seq<char>>::empty(),
            r.pairs().len() == 0,
    {
        PrefixMap { entries: Vec::new() }
    }

    /// The map that inserting `pairs` in order gives: a key maps to the
    /// value of its last pair.
    pub fn from_pairs(pairs: Vec<(String, String)>) -> (r: PrefixMap)
        ensures
            r.wf(),
            r@ == to_map(pairs_view(pairs@)),
    {
        let ghost ps = pairs_view(pairs@);
        let n = pairs.len();
        let mut keys: Vec<Vec<char>> = Vec::new();
        let mut i: usize = 0;
        while i < n
            invariant
                i <= n,
                n == pairs.len(),
                ps == pairs_view(pairs@),
                keys.len() == i,
                forall|k: int| 0 <= k < i ==> #[trigger] keys@[k]@ == ps[k].0,
            decreases n - i,
        {
            keys.push(chars_of(pairs[i].0.as_str()));
            i += 1;
        }
        let ghost kv = views(keys@);
        assert(kv =~= Seq::new(ps.len(), |k: int| ps[k].0));
        let order = sort_range(&keys, 0, n);
        let ghost s = Seq::new(order@.len(), |t: int| ps[order@[t] as int]);
        proof {
            assert forall|t: int| 0 <= t < order.len() implies order@[t] < n by {
                assert(order@.to_set().contains(order@[t]));
            }
        }
        let mut entries: Vec<(String, String)> = Vec::new();
        let mut t: usize = 0;
        while t < n
            invariant
                t <= n,
                n == pairs.len(),
                n == keys.len(),
                order.len() == n,
                ps == pairs_view(pairs@),
                kv == views(keys@),
                s == Seq::new(order@.len(), |u: int| ps[order@[u] as int]),
                kv == Seq::new(ps.len(), |k: int| ps[k].0),
                forall|u: int| 0 <= u < n ==> order@[u] < n,
                pairs_view(entries@) == dedup_last(s.take(t as int)),
            decreases n - t,
        {
            let p = order[t];
            let same = t > 0 && chars_eq(keys[order[t - 1]].as_slice(), keys[p].as_slice());
            let ghost prev = s.take(t as int);
            assert(s.take(t + 1) == prev.push(s[t as int]));
            assert(s.take(t + 1).drop_last() == prev);
            proof {
                lemma_dedup_last(prev);
                assert(s[t as int] == ps[p as int]);
                assert(kv[p as int] == ps[p as int].0);
                if t > 0 {
                    assert(prev.last() == s[t - 1]);
                    assert(kv[order@[t - 1] as int] == ps[order@[t - 1] as int].0);
                    assert(same == (s[t - 1].0 == s[t as int].0));
                    assert(same == (dedup_last(prev).len() > 0 && dedup_last(prev).last().0 == s[t as int].0));
                } else {
                    assert(prev.len() == 0);
                    assert(dedup_last(prev).len() == 0);
                }
            }
            let e = (pairs[p].0.clone(), pairs[p].1.clone());
            if same {
                let last = entries.len() - 1;
                entries.set(last, e);
                assert(pairs_view(entries@) =~= dedup_last(prev).drop_last().push(s[t as int]));
            } else {
                entries.push(e);
                assert(pairs_view(entries@) =~= dedup_last(prev).push(s[t as int]));
            }
            t += 1;
        }
        proof {
            assert(s.take(n as int) == s);
            lemma_dedup_last(s);
            lemma_sorted_same_map(ps, order@);
            assert forall|a: int, b: int| 0 <= a < b < s.len() implies lex_lt(s[a].0, s[b].0) || s[a].0
                == s[b].0 by {
                assert(pos_lt(kv, order@[a] as int, order@[b] as int));
            }
        }
        PrefixMap { entries }
    }

    pub fn len(&self) -> (r: usize)
        requires
            self.wf(),
        ensures
            r == self@.dom().len(),
            r == self.pairs().len(),
    {
        proof {
            self.lemma_view();
        }
        self.entries.len()
    }

    /// The `i`-th pair in key order.
    pub fn entry(&self, i: usize) -> (r: (&String, &String))
        requires
            i < self.pairs().len(),
        ensures
            (r.0@, r.1@) == self.pairs()[i as int],
    {
        (&self.entries[i].0, &self.entries[i].1)
    }

    /// The value stored under `k` (binary search).
    pub fn get(&self, k: &[char]) -> (r: Option<&String>)
        requires
            self.wf(),
        ensures
            match r {
                Some(v) => self@.dom().contains(k@) && self@[k@] == v@,
                None => !self@.dom().contains(k@),
            },
    {
        proof {
            self.lemma_view();
        }
        let ghost ps = self.pairs();
        let mut lo: usize = 0;
        let mut hi: usize = self.entries.len();
        while lo < hi
            invariant
                lo <= hi <= ps.len(),
                ps == self.pairs(),
                strictly_sorted(ps),
                forall|i: int| 0 <= i < lo ==> lex_lt(#[trigger] ps[i].0, k@),
                forall|i: int| hi <= i < ps.len() ==> lex_lt(k@, #[trigger] ps[i].0),
            decreases hi - lo,
        {
            let mid = lo + (hi - lo) / 2;
            let key = chars_of(self.entries[mid].0.as_str());
            if chars_eq(key.as_slice(), k) {
                proof {
                    self.lemma_view();
                }
                assert(self@.dom().contains(ps[mid as int].0));
                return Some(&self.entries[mid].1);
            }
            if lex_less(key.as_slice(), k) {
                proof {
                    assert forall|i: int| 0 <= i < mid + 1 implies lex_lt(#[trigger] ps[i].0, k@) by {
                        if i < mid {
                            lemma_lex_transitive(ps[i].0, ps[mid as int].0, k@);
                        }
                    }
                }
                lo = mid + 1;
            } else {
                proof {
                    lemma_lex_total(key@, k@);
                    assert forall|i: int| mid <= i < ps.len() implies lex_lt(k@, #[trigger] ps[i].0) by {
                        if i > mid {
                            lemma_lex_transitive(k@, ps[mid as int].0, ps[i].0);
                        }
                    }
                }
                hi = mid;
            }
        }
        proof {
            if self@.dom().contains(k@) {
                let i = choose|i: int| 0 <= i < ps.len() && ps[i].0 == k@;
                lemma_lex_irreflexive(k@);
            }
        }
        None
    }

    /// `k` has a value.
    pub fn contains_key(&self, k: &[char]) -> (r: bool)
        requires
            self.wf(),
        ensures
            r == self@.dom().contains(k@),
    {
        self.get(k).is_some()
    }

    /// Both maps in one; where both hold a key, `b` wins.
    pub fn union(a: &PrefixMap, b: &PrefixMap) -> (r: PrefixMap)
        ensures
            r.wf(),
            r@ == a@.union_prefer_right(b@),
    {
        let mut pairs: Vec<(String, String)> = Vec::new();
        let mut i: usize = 0;
        while i < a.entries.len()
            invariant
                i <= a.entries.len(),
                pairs_view(pairs@) == pairs_view(a.entries@).take(i as int),
            decreases a.entries.len() - i,
        {
            let ghost before = pairs_view(pairs@);
            pairs.push((a.entries[i].0.clone(), a.entries[i].1.clone()));
            assert(pairs_view(pairs@) =~= before.push(pairs_view(a.entries@)[i as int]));
            i += 1;
        }
        let mut j: usize = 0;
        while j < b.entries.len()
            invariant
                j <= b.entries.len(),
                pairs_view(pairs@) == pairs_view(a.entries@) + pairs_view(b.entries@).take(j as int),
            decreases b.entries.len() - j,
        {
            let ghost before = pairs_view(pairs@);
            pairs.push((b.entries[j].0.clone(), b.entries[j].1.clone()));
            assert(pairs_view(pairs@) =~= before.push(pairs_view(b.entries@)[j as int]));
            j += 1;
        }
        proof {
            assert(pairs_view(a.entries@).take(a.entries.len() as int) == pairs_view(a.entries@));
            assert(pairs_view(b.entries@).take(b.entries.len() as int) == pairs_view(b.entries@));
            lemma_to_map_append(pairs_view(a.entries@), pairs_view(b.entries@));
        }
        PrefixMap::from_pairs(pairs)
    }

    /// Appends a pair whose key is above every key present.
    pub fn push_last(&mut self, k: &[char], v: &[char])
        requires
            old(self).wf(),
            forall|i: int| 0 <= i < old(self).pairs().len() ==> lex_lt(#[trigger] old(self).pairs()[i].0, k@),
        ensures
            final(self).wf(),
            final(self).pairs() == old(self).pairs().push((k@, v@)),
            final(self)@ == old(self)@.insert(k@, v@),
    {
        let ghost ps = self.pairs();
        self.entries.push((crate::text::string_of(k), crate::text::string_of(v)));
        assert(self.pairs() =~= ps.push((k@, v@)));
        assert(self.pairs().drop_last() == ps);
    }
}

} // verus!
