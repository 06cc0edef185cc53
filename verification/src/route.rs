//! Route tables: the prefix snapshot file and the comparison with the RIB.
use vstd::prelude::*;

use crate::command::RouteEntry;
use crate::config::Settings;
use crate::net::{is_valid_cidr_chars, valid_cidr};
use crate::order::lex_lt;
use crate::prefix_map::{strictly_sorted, PrefixMap};
use crate::strmap::{keys_unique, lemma_to_map_filter, pairs_view, to_map};
use crate::text::{
    append, chars_of, concat, join_chars, join_with, lines, lines_of, split_once, split_once_chars,
    string_of, trim, trim_chars, views,
};

verus! {

broadcast use vstd::seq_lib::group_seq_properties;

/// The entry of one snapshot line `PREFIX [COMMUNITY]`: the trimmed text
/// up to the first space is the prefix, the trimmed rest the community;
/// blank lines and invalid prefixes give none.
pub open spec fn snapshot_entry(line: Seq<char>) -> Option<(Seq<char>, Seq<char>)> {
    let t = trim(line);
    if t.len() == 0 {
        None
    } else {
        let (p, c) = match split_once(t, ' ') {
            Some((a, b)) => (trim(a), trim(b)),
            None => (trim(t), seq![]),
        };
        if valid_cidr(p) {
            Some((p, c))
        } else {
            None
        }
    }
}

pub open spec fn snapshot_entries(ls: Seq<Seq<char>>) -> Seq<(Seq<char>, Seq<char>)>
    decreases ls.len(),
{
    if ls.len() == 0 {
        seq![]
    } else {
        let init = snapshot_entries(ls.drop_last());
        match snapshot_entry(ls.last()) {
            Some(e) => init.push(e),
            None => init,
        }
    }
}

/// The table a snapshot text holds; a prefix listed twice keeps its last
/// community.
pub open spec fn snapshot_of(text: Seq<char>) -> Map<Seq<char>, Seq<char>> {
    to_map(snapshot_entries(lines(text)))
}

/// A snapshot line: the prefix, then a space and the community unless it
/// is empty.
pub open spec fn snapshot_line(e: (Seq<char>, Seq<char>)) -> Seq<char> {
    if e.1.len() == 0 {
        e.0
    } else {
        e.0 + seq![' '] + e.1
    }
}

/// The snapshot text of pairs: one line each, joined by newlines.
pub open spec fn snapshot_text(ps: Seq<(Seq<char>, Seq<char>)>) -> Seq<char> {
    join_with(ps.map_values(|e: (Seq<char>, Seq<char>)| snapshot_line(e)), seq!['\n'])
}

/// `keep` of the RIB comparison: the prefix is not in the RIB.
pub open spec fn absent_from(rib: Map<Seq<char>, Seq<char>>) -> spec_fn((Seq<char>, Seq<char>)) -> bool {
    |e: (Seq<char>, Seq<char>)| !rib.dom().contains(e.0)
}

/// Owns the settings the route operations use.
pub struct RouteManager {
    pub settings: Settings,
}

impl RouteManager {
    pub fn new(settings: Settings) -> (r: RouteManager)
        ensures
            r.settings == settings,
    {
        RouteManager { settings }
    }

    /// The desired entries whose prefix the RIB lacks (`rib` is read for its
    /// keys only).
    pub fn missing_from_rib(desired: &PrefixMap, rib: &PrefixMap) -> (r: PrefixMap)
        requires
            desired.wf(),
            rib.wf(),
        ensures
            r.wf(),
            r@ == Map::new(
                |k: Seq<char>| desired@.dom().contains(k) && !rib@.dom().contains(k),
                |k: Seq<char>| desired@[k],
            ),
    {
        proof {
            desired.lemma_view();
        }
        let ghost ps = desired.pairs();
        let ghost keep = absent_from(rib@);
        let mut out = PrefixMap::new();
        let n = desired.len();
        let mut i: usize = 0;
        while i < n
            invariant
                i <= n,
                n == ps.len(),
                ps == desired.pairs(),
                strictly_sorted(ps),
                keep == absent_from(rib@),
                rib.wf(),
                out.wf(),
                out.pairs() == ps.take(i as int).filter(keep),
                out@ == to_map(out.pairs()),
            decreases n - i,
        {
            let (k, v) = desired.entry(i);
            let kc = chars_of(k.as_str());
            let vc = chars_of(v.as_str());
            assert(ps.take(i + 1) == ps.take(i as int).push(ps[i as int]));
            proof {
                ps.take(i as int).lemma_filter_push(ps[i as int], keep);
            }
            if !rib.contains_key(kc.as_slice()) {
                proof {
                    assert forall|j: int| 0 <= j < out.pairs().len() implies lex_lt(
                        out.pairs()[j].0,
                        kc@,
                    ) by {
                        let f = ps.take(i as int).filter(keep);
                        assert(f.contains(f[j]));
                        ps.take(i as int).lemma_filter_contains_rev(keep, f[j]);
                        let m = choose|m: int| 0 <= m < i && ps.take(i as int)[m] == f[j];
                        assert(ps[m] == f[j]);
                    }
                }
                let ghost f = out.pairs();
                out.push_last(kc.as_slice(), vc.as_slice());
                assert(out.pairs().drop_last() == f);
            }
            i += 1;
        }
        proof {
            assert(ps.take(n as int) == ps);
            lemma_to_map_filter(ps, keep);
            assert(out@ =~= Map::new(
                |k: Seq<char>| desired@.dom().contains(k) && !rib@.dom().contains(k),
                |k: Seq<char>| desired@[k],
            ));
        }
        out
    }

    /// The entry of one snapshot line; see `snapshot_entry`.
    pub fn snapshot_line_entry(line: &[char]) -> (r: Option<(String, String)>)
        ensures
            match r {
                Some((p, c)) => snapshot_entry(line@) == Some((p@, c@)),
                None => snapshot_entry(line@) is None,
            },
    {
        let t = trim_chars(line);
        if t.len() == 0 {
            return None;
        }
        let (p, c) = match split_once_chars(t.as_slice(), ' ') {
            Some((a, b)) => (trim_chars(a.as_slice()), trim_chars(b.as_slice())),
            None => (trim_chars(t.as_slice()), Vec::new()),
        };
        if is_valid_cidr_chars(p.as_slice()) {
            Some((string_of(p.as_slice()), string_of(c.as_slice())))
        } else {
            None
        }
    }

    /// The table of a snapshot file's text (`PREFIX COMMUNITY` or just
    /// `PREFIX` per line).
    pub fn parse_snapshot(text: &str) -> (r: PrefixMap)
        ensures
            r.wf(),
            r@ == snapshot_of(text@),
    {
        let v = chars_of(text);
        let ls = lines_of(v.as_slice());
        let ghost lv = views(ls@);
        let mut pairs: Vec<(String, String)> = Vec::new();
        let mut i: usize = 0;
        while i < ls.len()
            invariant
                i <= ls.len(),
                lv == views(ls@),
                lv == lines(text@),
                pairs_view(pairs@) == snapshot_entries(lv.take(i as int)),
            decreases ls.len() - i,
        {
            assert(lv.take(i + 1).drop_last() == lv.take(i as int));
            assert(lv.take(i + 1).last() == ls@[i as int]@);
            let ghost before = pairs_view(pairs@);
            match RouteManager::snapshot_line_entry(ls[i].as_slice()) {
                Some(e) => {
                    let ghost ev = (e.0@, e.1@);
                    pairs.push(e);
                    assert(pairs_view(pairs@) =~= before.push(ev));
                },
                None => {},
            }
            i += 1;
        }
        assert(lv.take(ls.len() as int) == lv);
        PrefixMap::from_pairs(pairs)
    }

    /// The snapshot text of a table: `PREFIX COMMUNITY` (or `PREFIX` when
    /// the community is empty) per line, in prefix order.
    pub fn render_snapshot(entries: &PrefixMap) -> (r: String)
        requires
            entries.wf(),
        ensures
            r@ == snapshot_text(entries.pairs()),
    {
        let ghost ps = entries.pairs();
        let n = entries.len();
        let mut out: Vec<Vec<char>> = Vec::new();
        let mut i: usize = 0;
        while i < n
            invariant
                i <= n,
                n == ps.len(),
                ps == entries.pairs(),
                views(out@) == ps.take(i as int).map_values(
                    |e: (Seq<char>, Seq<char>)| snapshot_line(e),
                ),
            decreases n - i,
        {
            let (k, v) = entries.entry(i);
            let kc = chars_of(k.as_str());
            let vc = chars_of(v.as_str());
            let line = if vc.len() == 0 {
                kc
            } else {
                let sp: &[char] = &[' '];
                assert(sp@ =~= seq![' ']);
                let mut l = concat(kc.as_slice(), sp);
                append(&mut l, vc.as_slice());
                l
            };
            let ghost before = views(out@);
            out.push(line);
            assert(views(out@) =~= before.push(snapshot_line(ps[i as int])));
            assert(ps.take(i + 1).map_values(|e: (Seq<char>, Seq<char>)| snapshot_line(e))
                =~= ps.take(i as int).map_values(|e: (Seq<char>, Seq<char>)| snapshot_line(e)).push(
                snapshot_line(ps[i as int]),
            ));
            i += 1;
        }
        assert(ps.take(n as int) == ps);
        let nl: &[char] = &['\n'];
        assert(nl@ =~= seq!['\n']);
        let text = join_chars(&out, nl);
        string_of(text.as_slice())
    }

    /// The routes of a table, in prefix order.
    pub fn batch_entries(entries: &PrefixMap) -> (r: Vec<RouteEntry>)
        requires
            entries.wf(),
        ensures
            r@.len() == entries.pairs().len(),
            forall|i: int|
                0 <= i < r@.len() ==> (#[trigger] r@[i].prefix@, r@[i].community@)
                    == entries.pairs()[i],
    {
        let n = entries.len();
        let mut r: Vec<RouteEntry> = Vec::new();
        let mut i: usize = 0;
        while i < n
            invariant
                i <= n,
                n == entries.pairs().len(),
                r@.len() == i,
                forall|j: int|
                    0 <= j < i ==> (#[trigger] r@[j].prefix@, r@[j].community@) == entries.pairs()[j],
            decreases n - i,
        {
            let (k, v) = entries.entry(i);
            r.push(RouteEntry { prefix: k.clone(), community: v.clone() });
            i += 1;
        }
        r
    }
}

} // verus!
