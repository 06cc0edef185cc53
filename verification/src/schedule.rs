//! The sync period: parsing `sync_time`, deciding run days and the next run.
use vstd::prelude::*;

use crate::calendar::{
    civil_add_months, civil_day, civil_parse_hm, civil_weekday, civil_month, civil_year, parse_hour_minute,
    day_in_range, possible_start, Date, MAX_DAY,
};
use crate::laws::{lemma_split_at, lemma_split_state_plain, lemma_trim_noop};
use crate::text::{
    all_digits, append, chars_eq, join_chars, join_with, string_of, chars_of, decimal, decimal_chars, digits_value, is_digit, lower_ascii_seq, parse_uint, parse_uint_chars, slice_of, split, split_chars, split_once,
    split_once_chars, to_ascii_lower, trim, trim_chars, two_digits, two_digits_chars, unsigned_digits,
    is_sep, is_ws, lemma_char_index, split_state,
    views, Sep,
};

verus! {

broadcast use vstd::seq_lib::group_seq_properties;

/// The unit of the sync period.
#[derive(Clone, Copy, PartialEq, Eq, Structural, Debug)]
pub enum SyncUnit {
    Day,
    Week,
    Month,
}

/// A day of the week.
#[derive(Clone, Copy, PartialEq, Eq, Structural, Debug)]
pub enum Weekday {
    Mon,
    Tue,
    Wed,
    Thu,
    Fri,
    Sat,
    Sun,
}

/// Number of days from Monday.
pub open spec fn weekday_index(w: Weekday) -> int {
    match w {
        Weekday::Mon => 0,
        Weekday::Tue => 1,
        Weekday::Wed => 2,
        Weekday::Thu => 3,
        Weekday::Fri => 4,
        Weekday::Sat => 5,
        Weekday::Sun => 6,
    }
}

pub open spec fn weekday_label(i: int) -> Seq<char> {
    if i == 0 {
        seq!['M', 'o', 'n']
    } else if i == 1 {
        seq!['T', 'u', 'e']
    } else if i == 2 {
        seq!['W', 'e', 'd']
    } else if i == 3 {
        seq!['T', 'h', 'u']
    } else if i == 4 {
        seq!['F', 'r', 'i']
    } else if i == 5 {
        seq!['S', 'a', 't']
    } else {
        seq!['S', 'u', 'n']
    }
}

impl Weekday {
    pub fn num_days_from_monday(&self) -> (r: u32)
        ensures
            r == weekday_index(*self),
    {
        match self {
            Weekday::Mon => 0,
            Weekday::Tue => 1,
            Weekday::Wed => 2,
            Weekday::Thu => 3,
            Weekday::Fri => 4,
            Weekday::Sat => 5,
            Weekday::Sun => 6,
        }
    }

    /// The weekday `i` days after Monday.
    pub fn from_monday(i: u32) -> (r: Option<Weekday>)
        ensures
            match r {
                Some(w) => i < 7 && weekday_index(w) == i,
                None => i >= 7,
            },
    {
        match i {
            0 => Some(Weekday::Mon),
            1 => Some(Weekday::Tue),
            2 => Some(Weekday::Wed),
            3 => Some(Weekday::Thu),
            4 => Some(Weekday::Fri),
            5 => Some(Weekday::Sat),
            6 => Some(Weekday::Sun),
            _ => None,
        }
    }

    /// Three-letter English name.
    pub fn name(&self) -> (r: Vec<char>)
        ensures
            r@ == weekday_label(weekday_index(*self)),
    {
        let r = match self {
            Weekday::Mon => vec!['M', 'o', 'n'],
            Weekday::Tue => vec!['T', 'u', 'e'],
            Weekday::Wed => vec!['W', 'e', 'd'],
            Weekday::Thu => vec!['T', 'h', 'u'],
            Weekday::Fri => vec!['F', 'r', 'i'],
            Weekday::Sat => vec!['S', 'a', 't'],
            Weekday::Sun => vec!['S', 'u', 'n'],
        };
        r
    }
}

/// A wall-clock time of day.
#[derive(Clone, Copy, PartialEq, Eq, Structural, Debug)]
pub struct TimeOfDay {
    pub hour: u32,
    pub minute: u32,
}

/// The sync period: every `every` units at `time`, restricted to the
/// listed weekdays and days of the month when those lists are not empty.
#[derive(Clone, Debug)]
pub struct SyncSchedule {
    pub every: u32,
    pub unit: SyncUnit,
    pub time: TimeOfDay,
    pub weekdays: Vec<Weekday>,
    pub month_days: Vec<u32>,
}

// ---------------------------------------------------------------------------
// Model of a schedule
// ---------------------------------------------------------------------------

pub open spec fn weekday_indices(ws: Seq<Weekday>) -> Seq<int> {
    ws.map_values(|w: Weekday| weekday_index(w))
}

pub open spec fn ints_u32(v: Seq<u32>) -> Seq<int> {
    v.map_values(|x: u32| x as int)
}

/// Strictly increasing.
pub open spec fn increasing(s: Seq<int>) -> bool {
    forall|i: int, j: int| 0 <= i < j < s.len() ==> s[i] < s[j]
}

/// `out` is `src` sorted with duplicates removed.
pub open spec fn sorted_distinct_of(out: Seq<int>, src: Seq<int>) -> bool {
    &&& increasing(out)
    &&& forall|x: int| out.contains(x) <==> src.contains(x)
}

impl SyncSchedule {
    /// Every period is at least one unit long, times are valid, weekdays
    /// and month days sorted without repeats, month days within 1..=31.
    pub open spec fn wf(&self) -> bool {
        &&& self.every >= 1
        &&& self.time.hour < 24
        &&& self.time.minute < 60
        &&& increasing(weekday_indices(self.weekdays@))
        &&& increasing(ints_u32(self.month_days@))
        &&& forall|i: int| 0 <= i < self.month_days@.len() ==> 1 <= #[trigger] self.month_days@[i] <= 31
    }

    /// Daily at 02:00.
    pub open spec fn is_default_daily(&self, hour: int, minute: int) -> bool {
        &&& self.every == 1
        &&& self.unit == SyncUnit::Day
        &&& self.time.hour == hour
        &&& self.time.minute == minute
        &&& self.weekdays@.len() == 0
        &&& self.month_days@.len() == 0
    }

    /// Every day, at 02:00.
    pub fn default() -> (r: SyncSchedule)
        ensures
            r.is_default_daily(2, 0),
            r.wf(),
    {
        SyncSchedule {
            every: 1,
            unit: SyncUnit::Day,
            time: TimeOfDay { hour: 2, minute: 0 },
            weekdays: Vec::new(),
            month_days: Vec::new(),
        }
    }
}

// ---------------------------------------------------------------------------
// Parsing `sync_time`
// ---------------------------------------------------------------------------

pub open spec fn word_every() -> Seq<char> {
    seq!['e', 'v', 'e', 'r', 'y']
}

/// Weekday named by `s` (ASCII case ignored): `mon`/`monday`, `tue`/`tues`/
/// `tuesday`, `wed`/`wednesday`, `thu`/`thur`/`thurs`/`thursday`,
/// `fri`/`friday`, `sat`/`saturday`, `sun`/`sunday`.
pub open spec fn weekday_named(s: Seq<char>) -> Option<int> {
    let l = lower_ascii_seq(s);
    if l == seq!['m', 'o', 'n'] || l == seq!['m', 'o', 'n', 'd', 'a', 'y'] {
        Some(0)
    } else if l == seq!['t', 'u', 'e'] || l == seq!['t', 'u', 'e', 's'] || l == seq![
        't',
        'u',
        'e',
        's',
        'd',
        'a',
        'y',
    ] {
        Some(1)
    } else if l == seq!['w', 'e', 'd'] || l == seq!['w', 'e', 'd', 'n', 'e', 's', 'd', 'a', 'y'] {
        Some(2)
    } else if l == seq!['t', 'h', 'u'] || l == seq!['t', 'h', 'u', 'r'] || l == seq![
        't',
        'h',
        'u',
        'r',
        's',
    ] || l == seq!['t', 'h', 'u', 'r', 's', 'd', 'a', 'y'] {
        Some(3)
    } else if l == seq!['f', 'r', 'i'] || l == seq!['f', 'r', 'i', 'd', 'a', 'y'] {
        Some(4)
    } else if l == seq!['s', 'a', 't'] || l == seq!['s', 'a', 't', 'u', 'r', 'd', 'a', 'y'] {
        Some(5)
    } else if l == seq!['s', 'u', 'n'] || l == seq!['s', 'u', 'n', 'd', 'a', 'y'] {
        Some(6)
    } else {
        None
    }
}

/// The consecutive integers `a..=b`.
pub open spec fn int_range(a: int, b: int) -> Seq<int> {
    Seq::new((b - a + 1) as nat, |i: int| a + i)
}

/// Weekdays collected from the comma-separated parts `parts`; `None` once a
/// part is neither a weekday nor a rising range `a-b` of weekdays.
pub open spec fn weekday_parts(parts: Seq<Seq<char>>) -> Option<Seq<int>>
    decreases parts.len(),
{
    if parts.len() == 0 {
        Some(seq![])
    } else {
        match weekday_parts(parts.drop_last()) {
            None => None,
            Some(acc) => {
                let p = trim(parts.last());
                if p.len() == 0 {
                    Some(acc)
                } else {
                    match split_once(p, '-') {
                        Some((a, b)) => match (weekday_named(trim(a)), weekday_named(trim(b))) {
                            (Some(x), Some(y)) => if y < x {
                                None
                            } else {
                                Some(acc + int_range(x, y))
                            },
                            _ => None,
                        },
                        None => match weekday_named(p) {
                            Some(x) => Some(acc.push(x)),
                            None => None,
                        },
                    }
                }
            },
        }
    }
}

/// Weekdays named by a token such as `Mon,Wed-Fri`; `None` when a part is
/// invalid or none is given.
pub open spec fn weekdays_token(tok: Seq<char>) -> Option<Seq<int>> {
    match weekday_parts(split(tok, Sep::Char(','))) {
        Some(s) => if s.len() == 0 {
            None
        } else {
            Some(s)
        },
        None => None,
    }
}

/// `u32` parse of a trimmed piece.
pub open spec fn u32_of(s: Seq<char>) -> Option<int> {
    match parse_uint(s, 0xffff_ffff) {
        Some(n) => Some(n as int),
        None => None,
    }
}

/// Days of the month collected from comma-separated parts; each a day
/// 1..=31 or a rising range `a-b` within 1..=31.
pub open spec fn month_day_parts(parts: Seq<Seq<char>>) -> Option<Seq<int>>
    decreases parts.len(),
{
    if parts.len() == 0 {
        Some(seq![])
    } else {
        match month_day_parts(parts.drop_last()) {
            None => None,
            Some(acc) => {
                let p = trim(parts.last());
                if p.len() == 0 {
                    Some(acc)
                } else {
                    match split_once(p, '-') {
                        Some((a, b)) => match (u32_of(trim(a)), u32_of(trim(b))) {
                            (Some(x), Some(y)) => if x < 1 || y > 31 || x > y {
                                None
                            } else {
                                Some(acc + int_range(x, y))
                            },
                            _ => None,
                        },
                        None => match u32_of(p) {
                            Some(x) => if 1 <= x <= 31 {
                                Some(acc.push(x))
                            } else {
                                None
                            },
                            None => None,
                        },
                    }
                }
            },
        }
    }
}

pub open spec fn month_days_token(tok: Seq<char>) -> Option<Seq<int>> {
    match month_day_parts(split(tok, Sep::Char(','))) {
        Some(s) => if s.len() == 0 {
            None
        } else {
            Some(s)
        },
        None => None,
    }
}

/// Number of leading ASCII digits.
pub open spec fn digit_prefix(s: Seq<char>) -> nat
    decreases s.len(),
{
    if s.len() == 0 || !is_digit(s[0]) {
        0
    } else {
        1 + digit_prefix(s.drop_first())
    }
}

pub open spec fn unit_named(s: Seq<char>) -> Option<SyncUnit> {
    if s == seq!['d'] || s == seq!['d', 'a', 'y'] || s == seq!['d', 'a', 'y', 's'] {
        Some(SyncUnit::Day)
    } else if s == seq!['w'] || s == seq!['w', 'e', 'e', 'k'] || s == seq![
        'w',
        'e',
        'e',
        'k',
        's',
    ] {
        Some(SyncUnit::Week)
    } else if s == seq!['m'] || s == seq!['m', 'o'] || s == seq!['m', 'o', 'n', 't', 'h']
        || s == seq!['m', 'o', 'n', 't', 'h', 's'] {
        Some(SyncUnit::Month)
    } else {
        None
    }
}

/// An interval token `<digits><unit>` (ASCII case ignored): a `u32` count,
/// at least 1, and a unit `d`/`day`/`days`, `w`/`week`/`weeks`,
/// `m`/`mo`/`month`/`months`.
pub open spec fn interval_token(tok: Seq<char>) -> Option<(int, SyncUnit)> {
    let t = lower_ascii_seq(tok);
    let k = digit_prefix(t) as int;
    let n = t.take(k);
    let rest = t.skip(k);
    if n.len() == 0 {
        None
    } else {
        match (u32_of(n), unit_named(rest)) {
            (Some(e), Some(u)) => Some((if e < 1 {
                1
            } else {
                e
            }, u)),
            _ => None,
        }
    }
}

/// What the tokens read so far set: time, count, unit, weekdays, month days.
pub type TokenState = (Option<(int, int)>, int, Option<SyncUnit>, Seq<int>, Seq<int>);

/// Reads the tokens in order; later time and interval tokens override
/// earlier ones, weekday and month-day tokens add up, other tokens are
/// ignored.
pub open spec fn read_tokens(toks: Seq<Seq<char>>) -> TokenState
    decreases toks.len(),
{
    if toks.len() == 0 {
        (None, 1, None, seq![], seq![])
    } else {
        let st = read_tokens(toks.drop_last());
        let t = trim(toks.last());
        if t.len() == 0 || lower_ascii_seq(t) == word_every() {
            st
        } else if civil_parse_hm(t) is Some {
            (civil_parse_hm(t), st.1, st.2, st.3, st.4)
        } else if interval_token(t) is Some {
            (st.0, interval_token(t).unwrap().0, Some(interval_token(t).unwrap().1), st.3, st.4)
        } else if weekdays_token(t) is Some {
            (st.0, st.1, st.2, st.3 + weekdays_token(t).unwrap(), st.4)
        } else if month_days_token(t) is Some {
            (st.0, st.1, st.2, st.3, st.4 + month_days_token(t).unwrap())
        } else {
            st
        }
    }
}

/// The schedule that the settings of `st` give.
pub open spec fn schedule_from_tokens(r: SyncSchedule, st: TokenState) -> bool {
    let (time, every, unit, wds, mds) = st;
    &&& r.every == every
    &&& r.time.hour == (match time {
        Some((h, _)) => h,
        None => 2,
    })
    &&& r.time.minute == (match time {
        Some((_, m)) => m,
        None => 0,
    })
    &&& r.unit == (match unit {
        Some(u) => u,
        None => if wds.len() > 0 {
            SyncUnit::Week
        } else if mds.len() > 0 {
            SyncUnit::Month
        } else {
            SyncUnit::Day
        },
    })
    &&& sorted_distinct_of(weekday_indices(r.weekdays@), wds)
    &&& sorted_distinct_of(ints_u32(r.month_days@), mds)
}

/// What `SyncSchedule::parse` gives for `raw`.
pub open spec fn parses_to(raw: Seq<char>, r: SyncSchedule) -> bool {
    let t = trim(raw);
    if t.len() == 0 {
        r.is_default_daily(2, 0)
    } else if civil_parse_hm(t) is Some {
        r.is_default_daily(civil_parse_hm(t).unwrap().0, civil_parse_hm(t).unwrap().1)
    } else {
        schedule_from_tokens(r, read_tokens(split(t, Sep::WsOrSlash)))
    }
}

fn weekday_of_word(s: &[char]) -> (r: Option<u32>)
    ensures
        match r {
            Some(x) => weekday_named(s@) == Some(x as int) && x < 7,
            None => weekday_named(s@) is None,
        },
{
    let l = to_ascii_lower(s);
    let l = l.as_slice();
    if chars_eq(l, &['m', 'o', 'n']) || chars_eq(l, &['m', 'o', 'n', 'd', 'a', 'y']) {
        Some(0)
    } else if chars_eq(l, &['t', 'u', 'e']) || chars_eq(l, &['t', 'u', 'e', 's']) || chars_eq(
        l,
        &['t', 'u', 'e', 's', 'd', 'a', 'y'],
    ) {
        Some(1)
    } else if chars_eq(l, &['w', 'e', 'd']) || chars_eq(
        l,
        &['w', 'e', 'd', 'n', 'e', 's', 'd', 'a', 'y'],
    ) {
        Some(2)
    } else if chars_eq(l, &['t', 'h', 'u']) || chars_eq(l, &['t', 'h', 'u', 'r']) || chars_eq(
        l,
        &['t', 'h', 'u', 'r', 's'],
    ) || chars_eq(l, &['t', 'h', 'u', 'r', 's', 'd', 'a', 'y']) {
        Some(3)
    } else if chars_eq(l, &['f', 'r', 'i']) || chars_eq(l, &['f', 'r', 'i', 'd', 'a', 'y']) {
        Some(4)
    } else if chars_eq(l, &['s', 'a', 't']) || chars_eq(
        l,
        &['s', 'a', 't', 'u', 'r', 'd', 'a', 'y'],
    ) {
        Some(5)
    } else if chars_eq(l, &['s', 'u', 'n']) || chars_eq(l, &['s', 'u', 'n', 'd', 'a', 'y']) {
        Some(6)
    } else {
        None
    }
}

/// Parses one weekday, ASCII case ignored.
pub fn parse_weekday(s: &[char]) -> (r: Option<Weekday>)
    ensures
        match r {
            Some(w) => weekday_named(s@) == Some(weekday_index(w)),
            None => weekday_named(s@) is None,
        },
{
    match weekday_of_word(s) {
        Some(i) => Weekday::from_monday(i),
        None => None,
    }
}

fn push_range(out: &mut Vec<u32>, a: u32, b: u32)
    requires
        a <= b,
        b < 0xffff_ffff,
    ensures
        ints_u32(final(out)@) == ints_u32(old(out)@) + int_range(a as int, b as int),
        final(out)@.len() == old(out)@.len() + (b - a + 1),
        forall|j: int| 0 <= j < old(out)@.len() ==> final(out)@[j] == old(out)@[j],
        forall|j: int|
            old(out)@.len() <= j < final(out)@.len() ==> final(out)@[j] == a + (j - old(
                out,
            )@.len()),
{
    let ghost start = ints_u32(out@);
    let ghost s0 = out@;
    let mut i = a;
    while i <= b
        invariant
            a <= i <= b + 1,
            b < 0xffff_ffff,
            ints_u32(out@) == start + int_range(a as int, (i - 1) as int),
            out@.len() == s0.len() + (i - a),
            forall|j: int| 0 <= j < s0.len() ==> out@[j] == s0[j],
            forall|j: int| s0.len() <= j < out@.len() ==> out@[j] == a + (j - s0.len()),
        decreases b + 1 - i,
    {
        let ghost before = out@;
        out.push(i);
        assert(int_range(a as int, i as int) =~= int_range(a as int, (i - 1) as int).push(
            i as int,
        ));
        assert(ints_u32(out@) =~= ints_u32(before).push(i as int));
        i += 1;
    }
}

proof fn lemma_weekday_parts_none(parts: Seq<Seq<char>>, k: int)
    requires
        0 <= k <= parts.len(),
        weekday_parts(parts.take(k)) is None,
    ensures
        weekday_parts(parts) is None,
    decreases parts.len() - k,
{
    if k < parts.len() {
        assert(parts.take(k + 1).drop_last() == parts.take(k));
        lemma_weekday_parts_none(parts, k + 1);
    } else {
        assert(parts.take(k) == parts);
    }
}

proof fn lemma_month_day_parts_none(parts: Seq<Seq<char>>, k: int)
    requires
        0 <= k <= parts.len(),
        month_day_parts(parts.take(k)) is None,
    ensures
        month_day_parts(parts) is None,
    decreases parts.len() - k,
{
    if k < parts.len() {
        assert(parts.take(k + 1).drop_last() == parts.take(k));
        lemma_month_day_parts_none(parts, k + 1);
    } else {
        assert(parts.take(k) == parts);
    }
}

/// Weekday indices of a token such as `Mon,Wed-Fri`.
fn parse_weekdays(tok: &[char]) -> (r: Option<Vec<u32>>)
    ensures
        match r {
            Some(v) => weekdays_token(tok@) == Some(ints_u32(v@)) && forall|i: int|
                0 <= i < v@.len() ==> #[trigger] v@[i] < 7,
            None => weekdays_token(tok@) is None,
        },
{
    let parts = split_chars(tok, Sep::Char(','));
    let ghost pv = views(parts@);
    let mut out: Vec<u32> = Vec::new();
    let mut i: usize = 0;
    while i < parts.len()
        invariant
            i <= parts.len(),
            pv == views(parts@),
            pv == split(tok@, Sep::Char(',')),
            weekday_parts(pv.take(i as int)) == Some(ints_u32(out@)),
            forall|j: int| 0 <= j < out@.len() ==> #[trigger] out@[j] < 7,
        decreases parts.len() - i,
    {
        assert(pv.take(i + 1).drop_last() == pv.take(i as int));
        assert(pv.take(i + 1).last() == parts@[i as int]@);
        let p = trim_chars(parts[i].as_slice());
        if p.len() > 0 {
            match split_once_chars(p.as_slice(), '-') {
                Some((a, b)) => {
                    let ta = trim_chars(a.as_slice());
                    let tb = trim_chars(b.as_slice());
                    match (weekday_of_word(ta.as_slice()), weekday_of_word(tb.as_slice())) {
                        (Some(x), Some(y)) => {
                            if y < x {
                                proof {
                                    lemma_weekday_parts_none(pv, i + 1);
                                }
                                return None;
                            }
                            let ghost before = out@;
                            push_range(&mut out, x, y);
                            assert forall|j: int| 0 <= j < out@.len() implies #[trigger] out@[j]
                                < 7 by {
                                if j < before.len() {
                                    assert(out@[j] == before[j]);
                                }
                            }
                        },
                        _ => {
                            proof {
                                lemma_weekday_parts_none(pv, i + 1);
                            }
                            return None;
                        },
                    }
                },
                None => match weekday_of_word(p.as_slice()) {
                    Some(x) => {
                        let ghost before = out@;
                        out.push(x);
                        assert(ints_u32(out@) =~= ints_u32(before).push(x as int));
                    },
                    None => {
                        proof {
                            lemma_weekday_parts_none(pv, i + 1);
                        }
                        return None;
                    },
                },
            }
        }
        i += 1;
    }
    assert(pv.take(parts.len() as int) == pv);
    if out.len() == 0 {
        None
    } else {
        Some(out)
    }
}

/// Days of the month of a token such as `1,15-17`: each a day 1 to 31 or a
/// range of them; see `month_days_token`.
pub fn parse_month_days(tok: &str) -> (r: Option<Vec<u32>>)
    ensures
        match r {
            Some(v) => month_days_token(tok@) == Some(ints_u32(v@)) && forall|i: int|
                0 <= i < v@.len() ==> 1 <= #[trigger] v@[i] <= 31,
            None => month_days_token(tok@) is None,
        },
{
    month_days_chars(chars_of(tok).as_slice())
}

/// An interval token such as `3d`, `2w` or `1month`; see `interval_token`.
pub fn parse_interval(tok: &str) -> (r: Option<(u32, SyncUnit)>)
    ensures
        match r {
            Some((n, u)) => interval_token(tok@) == Some((n as int, u)) && n >= 1,
            None => interval_token(tok@) is None,
        },
{
    interval_chars(chars_of(tok).as_slice())
}


/// Days of the month of a token such as `1,15-17`.
fn month_days_chars(tok: &[char]) -> (r: Option<Vec<u32>>)
    ensures
        match r {
            Some(v) => month_days_token(tok@) == Some(ints_u32(v@)) && forall|i: int|
                0 <= i < v@.len() ==> 1 <= #[trigger] v@[i] <= 31,
            None => month_days_token(tok@) is None,
        },
{
    let parts = split_chars(tok, Sep::Char(','));
    let ghost pv = views(parts@);
    let mut out: Vec<u32> = Vec::new();
    let mut i: usize = 0;
    while i < parts.len()
        invariant
            i <= parts.len(),
            pv == views(parts@),
            pv == split(tok@, Sep::Char(',')),
            month_day_parts(pv.take(i as int)) == Some(ints_u32(out@)),
            forall|j: int| 0 <= j < out@.len() ==> 1 <= #[trigger] out@[j] <= 31,
        decreases parts.len() - i,
    {
        assert(pv.take(i + 1).drop_last() == pv.take(i as int));
        assert(pv.take(i + 1).last() == parts@[i as int]@);
        let p = trim_chars(parts[i].as_slice());
        if p.len() > 0 {
            match split_once_chars(p.as_slice(), '-') {
                Some((a, b)) => {
                    let ta = trim_chars(a.as_slice());
                    let tb = trim_chars(b.as_slice());
                    match (
                        parse_uint_chars(ta.as_slice(), 0xffff_ffff),
                        parse_uint_chars(tb.as_slice(), 0xffff_ffff),
                    ) {
                        (Some(x), Some(y)) => {
                            if x < 1 || y > 31 || x > y {
                                proof {
                                    lemma_month_day_parts_none(pv, i + 1);
                                }
                                return None;
                            }
                            let ghost before = out@;
                            push_range(&mut out, x as u32, y as u32);
                            assert forall|j: int| 0 <= j < out@.len() implies 1 <= #[trigger] out@[j]
                                <= 31 by {
                                if j < before.len() {
                                    assert(out@[j] == before[j]);
                                }
                            }
                        },
                        _ => {
                            proof {
                                lemma_month_day_parts_none(pv, i + 1);
                            }
                            return None;
                        },
                    }
                },
                None => match parse_uint_chars(p.as_slice(), 0xffff_ffff) {
                    Some(x) => {
                        if !(1 <= x && x <= 31) {
                            proof {
                                lemma_month_day_parts_none(pv, i + 1);
                            }
                            return None;
                        }
                        let ghost before = out@;
                        out.push(x as u32);
                        assert(ints_u32(out@) =~= ints_u32(before).push(x as int));
                    },
                    None => {
                        proof {
                            lemma_month_day_parts_none(pv, i + 1);
                        }
                        return None;
                    },
                },
            }
        }
        i += 1;
    }
    assert(pv.take(parts.len() as int) == pv);
    if out.len() == 0 {
        None
    } else {
        Some(out)
    }
}

proof fn lemma_digit_prefix(s: Seq<char>, k: int)
    requires
        0 <= k <= s.len(),
        forall|j: int| 0 <= j < k ==> is_digit(#[trigger] s[j]),
    ensures
        digit_prefix(s) == k + digit_prefix(s.skip(k)),
    decreases k,
{
    if k > 0 {
        assert(s.drop_first().skip(k - 1) == s.skip(k));
        lemma_digit_prefix(s.drop_first(), k - 1);
    } else {
        assert(s.skip(0) == s);
    }
}

fn unit_of_word(s: &[char]) -> (r: Option<SyncUnit>)
    ensures
        r == unit_named(s@),
{
    let d1: &[char] = &['d'];
    let d3: &[char] = &['d', 'a', 'y'];
    let d4: &[char] = &['d', 'a', 'y', 's'];
    let w1: &[char] = &['w'];
    let w4: &[char] = &['w', 'e', 'e', 'k'];
    let w5: &[char] = &['w', 'e', 'e', 'k', 's'];
    let m1: &[char] = &['m'];
    let m2: &[char] = &['m', 'o'];
    let m5: &[char] = &['m', 'o', 'n', 't', 'h'];
    let m6: &[char] = &['m', 'o', 'n', 't', 'h', 's'];
    assert(d1@ =~= seq!['d']);
    assert(d3@ =~= seq!['d', 'a', 'y']);
    assert(d4@ =~= seq!['d', 'a', 'y', 's']);
    assert(w1@ =~= seq!['w']);
    assert(w4@ =~= seq!['w', 'e', 'e', 'k']);
    assert(w5@ =~= seq!['w', 'e', 'e', 'k', 's']);
    assert(m1@ =~= seq!['m']);
    assert(m2@ =~= seq!['m', 'o']);
    assert(m5@ =~= seq!['m', 'o', 'n', 't', 'h']);
    assert(m6@ =~= seq!['m', 'o', 'n', 't', 'h', 's']);
    if chars_eq(s, d1) || chars_eq(s, d3) || chars_eq(s, d4) {
        Some(SyncUnit::Day)
    } else if chars_eq(s, w1) || chars_eq(s, w4) || chars_eq(s, w5) {
        Some(SyncUnit::Week)
    } else if chars_eq(s, m1) || chars_eq(s, m2) || chars_eq(s, m5) || chars_eq(s, m6) {
        Some(SyncUnit::Month)
    } else {
        None
    }
}

/// A token such as `3d`, `2w` or `1month`.
fn interval_chars(tok: &[char]) -> (r: Option<(u32, SyncUnit)>)
    ensures
        match r {
            Some((n, u)) => interval_token(tok@) == Some((n as int, u)) && n >= 1,
            None => interval_token(tok@) is None,
        },
{
    let t = to_ascii_lower(tok);
    let mut k: usize = 0;
    while k < t.len() && '0' <= t[k] && t[k] <= '9'
        invariant
            k <= t.len(),
            forall|j: int| 0 <= j < k ==> is_digit(#[trigger] t@[j]),
        decreases t.len() - k,
    {
        k += 1;
    }
    proof {
        lemma_digit_prefix(t@, k as int);
        if k < t.len() {
            assert(!is_digit(t@.skip(k as int)[0]));
        }
        assert(digit_prefix(t@) == k);
    }
    if k == 0 {
        return None;
    }
    let n = slice_of(t.as_slice(), 0, k);
    let rest = slice_of(t.as_slice(), k, t.len());
    assert(n@ == t@.take(k as int));
    assert(rest@ == t@.skip(k as int));
    match (parse_uint_chars(n.as_slice(), 0xffff_ffff), unit_of_word(rest.as_slice())) {
        (Some(e), Some(u)) => {
            let every: u32 = if e < 1 {
                1
            } else {
                e as u32
            };
            Some((every, u))
        },
        _ => None,
    }
}

/// Sorted, distinct copy of `src`, whose values are below `bound`.
fn sorted_distinct(src: &Vec<u32>, bound: u32) -> (out: Vec<u32>)
    requires
        forall|i: int| 0 <= i < src@.len() ==> #[trigger] src@[i] < bound,
    ensures
        sorted_distinct_of(ints_u32(out@), ints_u32(src@)),
        forall|i: int| 0 <= i < out@.len() ==> src@.contains(#[trigger] out@[i]),
{
    let mut out: Vec<u32> = Vec::new();
    let mut v: u32 = 0;
    while v < bound
        invariant
            v <= bound,
            forall|i: int| 0 <= i < src@.len() ==> #[trigger] src@[i] < bound,
            increasing(ints_u32(out@)),
            forall|i: int| 0 <= i < out@.len() ==> #[trigger] out@[i] < v,
            forall|i: int| 0 <= i < out@.len() ==> src@.contains(#[trigger] out@[i]),
            forall|x: int|
                0 <= x < v ==> (ints_u32(out@).contains(x) <==> ints_u32(src@).contains(x)),
        decreases bound - v,
    {
        let mut found = false;
        let mut j: usize = 0;
        while j < src.len()
            invariant
                j <= src.len(),
                found == exists|m: int| 0 <= m < j && src@[m] == v,
            decreases src.len() - j,
        {
            if src[j] == v {
                found = true;
            }
            j += 1;
        }
        let ghost before = out@;
        if found {
            out.push(v);
            assert(ints_u32(out@) =~= ints_u32(before).push(v as int));
            proof {
                let m = choose|m: int| 0 <= m < src@.len() && src@[m] == v;
                assert(ints_u32(src@)[m] == v);
            }
        } else {
            assert(!ints_u32(src@).contains(v as int)) by {
                if ints_u32(src@).contains(v as int) {
                    let m = choose|m: int| 0 <= m < src@.len() && ints_u32(src@)[m] == v;
                    assert(src@[m] == v);
                }
            }
        }
        assert forall|x: int|
            0 <= x < v + 1 implies (ints_u32(out@).contains(x) <==> ints_u32(src@).contains(x)) by {
            if x < v {
                if ints_u32(out@).contains(x) {
                    let m = choose|m: int| 0 <= m < out@.len() && ints_u32(out@)[m] == x;
                    if m < before.len() {
                        assert(ints_u32(before)[m] == x);
                    }
                }
                if ints_u32(before).contains(x) {
                    let m = choose|m: int| 0 <= m < before.len() && ints_u32(before)[m] == x;
                    assert(ints_u32(out@)[m] == x);
                }
            } else if found {
                assert(ints_u32(out@)[out@.len() - 1] == v);
            } else {
                if ints_u32(out@).contains(x) {
                    let m = choose|m: int| 0 <= m < out@.len() && ints_u32(out@)[m] == x;
                    assert(out@[m] < v);
                }
            }
        }
        v += 1;
    }
    assert forall|x: int| ints_u32(out@).contains(x) <==> ints_u32(src@).contains(x) by {
        if ints_u32(out@).contains(x) {
            let m = choose|m: int| 0 <= m < out@.len() && ints_u32(out@)[m] == x;
            assert(out@[m] < bound);
        }
        if ints_u32(src@).contains(x) {
            let m = choose|m: int| 0 <= m < src@.len() && ints_u32(src@)[m] == x;
            assert(src@[m] < bound);
        }
    }
    out
}

fn weekdays_from_indices(ix: &Vec<u32>) -> (r: Vec<Weekday>)
    requires
        forall|i: int| 0 <= i < ix@.len() ==> #[trigger] ix@[i] < 7,
    ensures
        weekday_indices(r@) == ints_u32(ix@),
{
    let mut r: Vec<Weekday> = Vec::new();
    let mut i: usize = 0;
    while i < ix.len()
        invariant
            i <= ix.len(),
            forall|i: int| 0 <= i < ix@.len() ==> #[trigger] ix@[i] < 7,
            weekday_indices(r@) == ints_u32(ix@.take(i as int)),
        decreases ix.len() - i,
    {
        let w = Weekday::from_monday(ix[i]).unwrap();
        let ghost before = r@;
        r.push(w);
        assert(weekday_indices(r@) =~= weekday_indices(before).push(weekday_index(w)));
        assert(ints_u32(ix@.take(i + 1)) =~= ints_u32(ix@.take(i as int)).push(ix@[i as int] as int));
        i += 1;
    }
    assert(ix@.take(ix.len() as int) == ix@);
    r
}

pub open spec fn opt_hm(t: Option<(u32, u32)>) -> Option<(int, int)> {
    match t {
        Some((h, m)) => Some((h as int, m as int)),
        None => None,
    }
}

impl SyncSchedule {
    /// Parses `sync_time`: `HH:MM` alone, or tokens separated by white space
    /// or `/`: `HH:MM`, an interval (`3d`, `2w`, `1m`), weekdays
    /// (`Mon,Wed-Fri`), days of the month (`1,15-17`); the word `every` and
    /// unknown tokens are ignored. Without a time, 02:00; without an
    /// interval, one week when weekdays are given, else one month when
    /// month days are given, else one day.
    pub fn parse(raw: &str) -> (r: SyncSchedule)
        ensures
            parses_to(raw@, r),
            r.wf(),
    {
        let v = chars_of(raw);
        let t = trim_chars(v.as_slice());
        if t.len() == 0 {
            return SyncSchedule::default();
        }
        if let Some((h, m)) = parse_hour_minute(t.as_slice()) {
            let mut s = SyncSchedule::default();
            s.time = TimeOfDay { hour: h, minute: m };
            return s;
        }
        let toks = split_chars(t.as_slice(), Sep::WsOrSlash);
        let ghost tv = views(toks@);
        let mut time: Option<(u32, u32)> = None;
        let mut every: u32 = 1;
        let mut unit: Option<SyncUnit> = None;
        let mut wds: Vec<u32> = Vec::new();
        let mut mds: Vec<u32> = Vec::new();
        let mut i: usize = 0;
        assert(lower_ascii_seq(seq!['e', 'v', 'e', 'r', 'y']) =~= word_every());
        while i < toks.len()
            invariant
                i <= toks.len(),
                tv == views(toks@),
                read_tokens(tv.take(i as int)).0 == opt_hm(time),
                read_tokens(tv.take(i as int)).1 == every as int,
                read_tokens(tv.take(i as int)).2 == unit,
                read_tokens(tv.take(i as int)).3 == ints_u32(wds@),
                read_tokens(tv.take(i as int)).4 == ints_u32(mds@),
                every >= 1,
                match time {
                    Some((h, m)) => h < 24 && m < 60,
                    None => true,
                },
                forall|j: int| 0 <= j < wds@.len() ==> #[trigger] wds@[j] < 7,
                forall|j: int| 0 <= j < mds@.len() ==> 1 <= #[trigger] mds@[j] <= 31,
                lower_ascii_seq(seq!['e', 'v', 'e', 'r', 'y']) == word_every(),
            decreases toks.len() - i,
        {
            assert(tv.take(i + 1).drop_last() == tv.take(i as int));
            assert(tv.take(i + 1).last() == toks@[i as int]@);
            let tok = trim_chars(toks[i].as_slice());
            if tok.len() == 0 || eq_ignore_ascii_case_every(tok.as_slice()) {
            } else if let Some((h, m)) = parse_hour_minute(tok.as_slice()) {
                time = Some((h, m));
            } else if let Some((n, u)) = interval_chars(tok.as_slice()) {
                every = n;
                unit = Some(u);
            } else if let Some(ds) = parse_weekdays(tok.as_slice()) {
                let ghost before = wds@;
                let mut k: usize = 0;
                while k < ds.len()
                    invariant
                        k <= ds.len(),
                        ints_u32(wds@) == ints_u32(before) + ints_u32(ds@.take(k as int)),
                        forall|j: int| 0 <= j < wds@.len() ==> #[trigger] wds@[j] < 7,
                        forall|j: int| 0 <= j < ds@.len() ==> #[trigger] ds@[j] < 7,
                    decreases ds.len() - k,
                {
                    let ghost w0 = wds@;
                    wds.push(ds[k]);
                    assert(ints_u32(wds@) =~= ints_u32(w0).push(ds@[k as int] as int));
                    assert(ints_u32(ds@.take(k + 1)) =~= ints_u32(ds@.take(k as int)).push(
                        ds@[k as int] as int,
                    ));
                    assert(ints_u32(wds@) =~= ints_u32(before) + ints_u32(ds@.take(k + 1)));
                    k += 1;
                }
                assert(ds@.take(ds.len() as int) == ds@);
            } else if let Some(ds) = month_days_chars(tok.as_slice()) {
                let ghost before = mds@;
                let mut k: usize = 0;
                while k < ds.len()
                    invariant
                        k <= ds.len(),
                        ints_u32(mds@) == ints_u32(before) + ints_u32(ds@.take(k as int)),
                        forall|j: int| 0 <= j < mds@.len() ==> 1 <= #[trigger] mds@[j] <= 31,
                        forall|j: int| 0 <= j < ds@.len() ==> 1 <= #[trigger] ds@[j] <= 31,
                    decreases ds.len() - k,
                {
                    let ghost w0 = mds@;
                    mds.push(ds[k]);
                    assert(ints_u32(mds@) =~= ints_u32(w0).push(ds@[k as int] as int));
                    assert(ints_u32(ds@.take(k + 1)) =~= ints_u32(ds@.take(k as int)).push(
                        ds@[k as int] as int,
                    ));
                    assert(ints_u32(mds@) =~= ints_u32(before) + ints_u32(ds@.take(k + 1)));
                    k += 1;
                }
                assert(ds@.take(ds.len() as int) == ds@);
            }
            i += 1;
        }
        assert(tv.take(toks.len() as int) == tv);
        let wsorted = sorted_distinct(&wds, 7);
        let msorted = sorted_distinct(&mds, 32);
        let (hour, minute) = match time {
            Some((h, m)) => (h, m),
            None => (2, 0),
        };
        let unit = match unit {
            Some(u) => u,
            None => if wds.len() > 0 {
                SyncUnit::Week
            } else if mds.len() > 0 {
                SyncUnit::Month
            } else {
                SyncUnit::Day
            },
        };
        let weekdays = weekdays_from_indices(&wsorted);
        proof {
            assert forall|j: int| 0 <= j < msorted@.len() implies 1 <= #[trigger] msorted@[j]
                <= 31 by {
                assert(mds@.contains(msorted@[j]));
            }
        }
        SyncSchedule {
            every,
            unit,
            time: TimeOfDay { hour, minute },
            weekdays,
            month_days: msorted,
        }
    }
}

fn eq_ignore_ascii_case_every(s: &[char]) -> (r: bool)
    ensures
        r == (lower_ascii_seq(s@) == lower_ascii_seq(seq!['e', 'v', 'e', 'r', 'y'])),
{
    let w: &[char] = &['e', 'v', 'e', 'r', 'y'];
    crate::text::eq_ignore_ascii_case(s, w)
}

// ---------------------------------------------------------------------------
// Run days
// ---------------------------------------------------------------------------

/// Day number of an optional day.
pub open spec fn opt_day(d: Option<Date>) -> Option<int> {
    match d {
        Some(x) => Some(x@),
        None => None,
    }
}

/// Plain `1d` with no weekday or month-day restriction.
pub open spec fn plain_daily(s: SyncSchedule) -> bool {
    s.unit == SyncUnit::Day && s.every <= 1 && s.weekdays@.len() == 0 && s.month_days@.len() == 0
}

/// Whole months from the month of `from` to the month of `to`.
pub open spec fn months_between(from: int, to: int) -> int {
    (civil_year(to) * 12 + civil_month(to)) - (civil_year(from) * 12 + civil_month(from))
}

/// Adding `every` months to `t` again and again, up to `fuel` times, hits
/// `d` exactly before passing it.
pub open spec fn month_step(t: int, d: int, every: int, fuel: nat) -> bool
    decreases fuel,
{
    if fuel == 0 {
        false
    } else {
        match civil_add_months(t, every) {
            None => false,
            Some(t2) => if t2 == d {
                true
            } else if t2 > d {
                false
            } else {
                month_step(t2, d, every, (fuel - 1) as nat)
            },
        }
    }
}

/// `every` read as the `i32` it wraps to.
pub open spec fn as_i32(x: int) -> int {
    if x <= 0x7fff_ffff {
        x
    } else {
        x - 0x1_0000_0000
    }
}

/// Day `d` passes the weekday and month-day filters.
pub open spec fn day_filters_pass(s: SyncSchedule, d: int) -> bool {
    let wds = weekday_indices(s.weekdays@);
    let mds = ints_u32(s.month_days@);
    !(wds.len() > 0 && !wds.contains(civil_weekday(d))) && !(mds.len() > 0 && !mds.contains(
        civil_day(d),
    ))
}

/// Deciding whether `d` is a run day would divide by zero: an interval of
/// zero, a last fetch before `d`, and a day or plain week period that is
/// not the plain daily one.
pub open spec fn zero_division(s: SyncSchedule, d: int, last: Option<int>) -> bool {
    &&& s.every == 0
    &&& last matches Some(l) && d > l
    &&& day_filters_pass(s, d)
    &&& !plain_daily(s)
    &&& (s.unit == SyncUnit::Day || (s.unit == SyncUnit::Week && s.weekdays@.len() == 0))
}

/// No day from `from` on, within `fuel` days up to the last representable
/// day, is a `zero_division` day.
pub open spec fn no_zero_division(s: SyncSchedule, from: int, last: Option<int>, fuel: int) -> bool {
    forall|d: int| from <= d < from + fuel && d <= MAX_DAY ==> !#[trigger] zero_division(s, d, last)
}

/// Whether day `d` is a run day, given the day `last` of the last fetch.
pub open spec fn run_day(s: SyncSchedule, d: int, last: Option<int>) -> bool {
    let wds = weekday_indices(s.weekdays@);
    let mds = ints_u32(s.month_days@);
    if wds.len() > 0 && !wds.contains(civil_weekday(d)) {
        false
    } else if mds.len() > 0 && !mds.contains(civil_day(d)) {
        false
    } else {
        match last {
            None => true,
            Some(l) => if plain_daily(s) {
                true
            } else if d <= l {
                false
            } else {
                let diff = d - l;
                let every = s.every as int;
                match s.unit {
                    SyncUnit::Day => diff >= every && diff % every == 0,
                    SyncUnit::Week => if wds.len() == 0 {
                        diff >= every * 7 && diff % (every * 7) == 0
                    } else if every <= 1 {
                        true
                    } else {
                        diff >= every * 7
                    },
                    SyncUnit::Month => if mds.len() > 0 {
                        months_between(l, d) >= as_i32(every)
                    } else {
                        month_step(l, d, every, 36)
                    },
                }
            },
        }
    }
}

/// The first run day among `d`, `d + 1`, ... within `fuel` days (stopping
/// at the last representable day).
pub open spec fn first_run_day(s: SyncSchedule, d: int, last: Option<int>, fuel: nat) -> Option<
    int,
>
    decreases fuel,
{
    if fuel == 0 {
        None
    } else if run_day(s, d, last) {
        Some(d)
    } else if d >= MAX_DAY {
        None
    } else {
        first_run_day(s, d + 1, last, (fuel - 1) as nat)
    }
}

/// The first run day after `last`, looking 400 days ahead.
pub open spec fn next_run_date_after(s: SyncSchedule, last: int) -> Option<int> {
    if last >= MAX_DAY {
        None
    } else {
        first_run_day(s, last + 1, Some(last), 400)
    }
}

/// A fetch made on `fetched` is still current on `today`.
pub open spec fn lifecycle_ok(s: SyncSchedule, fetched: int, today: int) -> bool {
    match next_run_date_after(s, fetched) {
        Some(next) => today < next,
        None => fetched == today,
    }
}

fn contains_u32(v: &Vec<u32>, x: u32) -> (r: bool)
    ensures
        r == ints_u32(v@).contains(x as int),
{
    let mut i: usize = 0;
    while i < v.len()
        invariant
            i <= v.len(),
            forall|j: int| 0 <= j < i ==> v@[j] != x,
        decreases v.len() - i,
    {
        if v[i] == x {
            assert(ints_u32(v@)[i as int] == x);
            return true;
        }
        i += 1;
    }
    proof {
        if ints_u32(v@).contains(x as int) {
            let j = choose|j: int| 0 <= j < v@.len() && ints_u32(v@)[j] == x;
            assert(v@[j] == x);
        }
    }
    false
}

fn contains_weekday(v: &Vec<Weekday>, x: u32) -> (r: bool)
    ensures
        r == weekday_indices(v@).contains(x as int),
{
    let mut i: usize = 0;
    while i < v.len()
        invariant
            i <= v.len(),
            forall|j: int| 0 <= j < i ==> weekday_index(v@[j]) != x,
        decreases v.len() - i,
    {
        if v[i].num_days_from_monday() == x {
            assert(weekday_indices(v@)[i as int] == x);
            return true;
        }
        i += 1;
    }
    proof {
        if weekday_indices(v@).contains(x as int) {
            let j = choose|j: int| 0 <= j < v@.len() && weekday_indices(v@)[j] == x;
            assert(weekday_index(v@[j]) == x);
        }
    }
    false
}

impl SyncSchedule {
    fn is_plain_daily(&self) -> (r: bool)
        ensures
            r == plain_daily(*self),
    {
        self.unit == SyncUnit::Day && self.every <= 1 && self.weekdays.len() == 0
            && self.month_days.len() == 0
    }

    /// Whether `d` is a run day when the last fetch was on `last`.
    pub fn is_run_day(&self, d: Date, last: Option<Date>) -> (r: bool)
        requires
            !zero_division(*self, d@, opt_day(last)),
        ensures
            r == run_day(*self, d@, opt_day(last)),
    {
        if self.weekdays.len() > 0 && !contains_weekday(&self.weekdays, d.weekday()) {
            return false;
        }
        if self.month_days.len() > 0 && !contains_u32(&self.month_days, d.day()) {
            return false;
        }
        match last {
            None => true,
            Some(l) => {
                if self.is_plain_daily() {
                    return true;
                }
                let dn = d.day_number() as i64;
                let ln = l.day_number() as i64;
                if dn <= ln {
                    return false;
                }
                let diff = dn - ln;
                let every = self.every as i64;
                match self.unit {
                    SyncUnit::Day => diff >= every && diff % every == 0,
                    SyncUnit::Week => {
                        let min = every * 7;
                        if self.weekdays.len() == 0 {
                            diff >= min && diff % min == 0
                        } else if self.every <= 1 {
                            true
                        } else {
                            diff >= min
                        }
                    },
                    SyncUnit::Month => {
                        if self.month_days.len() > 0 {
                            let between = (d.year() as i64 * 12 + d.month() as i64) - (l.year() as i64
                                * 12 + l.month() as i64);
                            let e32: i64 = if self.every <= 0x7fff_ffff {
                                every
                            } else {
                                every - 0x1_0000_0000
                            };
                            between >= e32
                        } else {
                            is_month_step(l, d, self.every)
                        }
                    },
                }
            },
        }
    }

    /// The first run day after `last` within 400 days.
    pub fn next_run_date_after(&self, last: Date) -> (r: Option<Date>)
        requires
            no_zero_division(*self, last@ + 1, Some(last@), 400),
        ensures
            match r {
                Some(d) => next_run_date_after(*self, last@) == Some(d@),
                None => next_run_date_after(*self, last@) is None,
            },
    {
        let first = match last.succ() {
            Some(d) => d,
            None => {
                return None;
            },
        };
        self.first_run_day(first, Some(last), 400)
    }

    /// The first run day among `from` and the `budget - 1` days after it.
    pub fn first_run_day(&self, from: Date, last: Option<Date>, budget: u32) -> (r: Option<Date>)
        requires
            no_zero_division(*self, from@, opt_day(last), budget as int),
        ensures
            match r {
                Some(d) => first_run_day(*self, from@, opt_day(last), budget as nat) == Some(d@),
                None => first_run_day(*self, from@, opt_day(last), budget as nat) is None,
            },
    {
        let ghost lv = opt_day(last);
        let mut d = from;
        let mut fuel = budget;
        while fuel > 0
            invariant
                no_zero_division(*self, d@, lv, fuel as int),
                first_run_day(*self, from@, lv, budget as nat) == first_run_day(
                    *self,
                    d@,
                    lv,
                    fuel as nat,
                ),
                lv == opt_day(last),
            decreases fuel,
        {
            let dn: i32 = d.day_number();
            assert(day_in_range(dn as int));
            assert(!zero_division(*self, d@, lv));
            if self.is_run_day(d, last) {
                return Some(d);
            }
            match d.succ() {
                Some(n) => {
                    d = n;
                },
                None => {
                    return None;
                },
            }
            fuel -= 1;
        }
        None
    }

    /// Whether data fetched on `fetched` is still within the current period
    /// on `today`: before the next run day after `fetched`, or, when none
    /// comes within 400 days, on the same day.
    pub fn lifecycle_ok(&self, fetched: Date, today: Date) -> (r: bool)
        requires
            no_zero_division(*self, fetched@ + 1, Some(fetched@), 400),
        ensures
            r == lifecycle_ok(*self, fetched@, today@),
    {
        match self.next_run_date_after(fetched) {
            Some(next) => today.day_number() < next.day_number(),
            None => fetched.day_number() == today.day_number(),
        }
    }

    /// The local start of each day of the window from `today` (see
    /// `run_window`): `at_local` of the start time on a run day, none on
    /// another day.
    fn day_starts(&self, today: Date, last: Option<Date>) -> (r: Vec<Option<i64>>)
        requires
            self.wf(),
        ensures
            r@.len() == run_window(today@),
            forall|i: int|
                0 <= i < r@.len() ==> day_start_ok(*self, today@ + i, opt_day(last), #[trigger] r@[i]),
    {
        let ghost lv = opt_day(last);
        let mut out: Vec<Option<i64>> = Vec::new();
        let mut d = today;
        loop
            invariant_except_break
                out@.len() < 400,
                d@ == today@ + out@.len(),
            invariant
                self.wf(),
                lv == opt_day(last),
                forall|i: int| 0 <= i < out@.len() ==> day_start_ok(*self, today@ + i, lv, #[trigger] out@[i]),
            ensures
                out@.len() == run_window(today@),
                forall|i: int| 0 <= i < out@.len() ==> day_start_ok(*self, today@ + i, lv, #[trigger] out@[i]),
            decreases 400 - out@.len(),
        {
            let day: i32 = d.day_number();
            assert(day_in_range(day as int));
            let start = if self.is_run_day(d, last) {
                d.at_local(self.time.hour, self.time.minute)
            } else {
                None
            };
            out.push(start);
            assert(day_start_ok(*self, today@ + (out@.len() - 1), lv, out@[out@.len() - 1]));
            if out.len() >= 400 {
                break;
            }
            match d.succ() {
                Some(n) => {
                    d = n;
                },
                None => {
                    break;
                },
            }
        }
        out
    }

    /// The first start after `now` among `starts`, else one day after `now`;
    /// see `first_after`.
    pub fn first_start_after(now: i64, starts: &Vec<Option<i64>>) -> (r: i64)
        requires
            now <= i64::MAX - 86400,
        ensures
            r == first_after(now as int, starts@),
    {
        let mut i: usize = 0;
        while i < starts.len()
            invariant
                i <= starts@.len(),
                now <= i64::MAX - 86400,
                first_after(now as int, starts@) == first_after(now as int, starts@.skip(i as int)),
            decreases starts@.len() - i,
        {
            assert(starts@.skip(i as int).drop_first() == starts@.skip(i + 1));
            assert(starts@.skip(i as int)[0] == starts@[i as int]);
            if let Some(t) = starts[i] {
                if t > now {
                    return t;
                }
            }
            i += 1;
        }
        assert(starts@.skip(i as int).len() == 0);
        now + 86400
    }

    /// The next run time after `now` (a Unix timestamp on day `today`): the
    /// local start of the first run day from `today` on, within 400 days,
    /// whose start lies after `now`; otherwise one day after `now`. The
    /// starts come from the machine's time zone (`at_local`).
    pub fn next_run(&self, today: Date, now: i64, last: Option<Date>) -> (r: i64)
        requires
            self.wf(),
            now <= i64::MAX - 86400,
        ensures
            r > now,
            exists|starts: Seq<Option<i64>>|
                #![trigger first_after(now as int, starts)]
                starts.len() == run_window(today@) && (forall|i: int|
                    0 <= i < starts.len() ==> day_start_ok(*self, today@ + i, opt_day(last), #[trigger] starts[i]))
                    && r == first_after(now as int, starts),
    {
        let starts = self.day_starts(today, last);
        let r = SyncSchedule::first_start_after(now, &starts);
        proof {
            lemma_first_after_later(now as int, starts@);
        }
        r
    }
}

/// Days looked at for the next run from `today`: 400, or up to the last day
/// chrono represents.
pub open spec fn run_window(today: int) -> int {
    if MAX_DAY - today + 1 < 400 {
        MAX_DAY - today + 1
    } else {
        400
    }
}

/// `start` is the local start of day `d` when it is a run day, none
/// otherwise.
pub open spec fn day_start_ok(s: SyncSchedule, d: int, last: Option<int>, start: Option<i64>) -> bool {
    if run_day(s, d, last) {
        possible_start(start, d, s.time.hour as int, s.time.minute as int)
    } else {
        start is None
    }
}

/// The first start after `now`, in order; one day after `now` when there is
/// none.
pub open spec fn first_after(now: int, starts: Seq<Option<i64>>) -> int
    decreases starts.len(),
{
    if starts.len() == 0 {
        now + 86400
    } else if starts[0] matches Some(t) && t > now {
        starts[0]->0 as int
    } else {
        first_after(now, starts.drop_first())
    }
}

proof fn lemma_first_after_later(now: int, starts: Seq<Option<i64>>)
    ensures
        first_after(now, starts) > now,
    decreases starts.len(),
{
    if starts.len() > 0 {
        lemma_first_after_later(now, starts.drop_first());
    }
}

/// Adding `every` months at a time to `last`, at most 36 times, reaches `d`.
fn is_month_step(last: Date, d: Date, every: u32) -> (r: bool)
    ensures
        r == month_step(last@, d@, every as int, 36),
{
    let mut t = last;
    let mut fuel: u32 = 36;
    while fuel > 0
        invariant
            month_step(last@, d@, every as int, 36) == month_step(t@, d@, every as int, fuel as nat),
        decreases fuel,
    {
        t = match t.add_months(every) {
            Some(v) => v,
            None => {
                return false;
            },
        };
        if t.day_number() == d.day_number() {
            return true;
        }
        if t.day_number() > d.day_number() {
            return false;
        }
        fuel -= 1;
    }
    false
}

// ---------------------------------------------------------------------------
// Description
// ---------------------------------------------------------------------------

pub open spec fn unit_word(u: SyncUnit) -> Seq<char> {
    match u {
        SyncUnit::Day => seq!['d', 'a', 'y'],
        SyncUnit::Week => seq!['w', 'e', 'e', 'k'],
        SyncUnit::Month => seq!['m', 'o', 'n', 't', 'h'],
    }
}

pub open spec fn weekday_labels(ws: Seq<Weekday>) -> Seq<Seq<char>> {
    Seq::new(ws.len(), |i: int| weekday_label(weekday_index(ws[i])))
}

pub open spec fn day_labels(ds: Seq<u32>) -> Seq<Seq<char>> {
    Seq::new(ds.len(), |i: int| decimal(ds[i] as nat))
}

/// `every <n> <unit> at HH:MM[ on <weekdays>][ on day <days>]`.
pub open spec fn description(s: SyncSchedule) -> Seq<char> {
    let head = seq!['e', 'v', 'e', 'r', 'y', ' '] + decimal(s.every as nat) + seq![' '] + unit_word(
        s.unit,
    ) + seq![' ', 'a', 't', ' '] + two_digits(s.time.hour as nat) + seq![':'] + two_digits(
        s.time.minute as nat,
    );
    let wd = if s.weekdays@.len() > 0 {
        seq![' ', 'o', 'n', ' '] + join_with(
            weekday_labels(s.weekdays@),
            seq![','],
        )
    } else {
        seq![]
    };
    let md = if s.month_days@.len() > 0 {
        seq![' ', 'o', 'n', ' ', 'd', 'a', 'y', ' '] + join_with(
            day_labels(s.month_days@),
            seq![','],
        )
    } else {
        seq![]
    };
    head + wd + md
}

impl SyncSchedule {
    /// Human-readable description of the period.
    pub fn describe(&self) -> (r: String)
        requires
            self.time.hour < 100,
            self.time.minute < 100,
        ensures
            r@ == description(*self),
    {
        let mut v: Vec<char> = Vec::new();
        let e: &[char] = &['e', 'v', 'e', 'r', 'y', ' '];
        append(&mut v, e);
        append(&mut v, decimal_chars(self.every as u64).as_slice());
        let sp: &[char] = &[' '];
        append(&mut v, sp);
        let u = match self.unit {
            SyncUnit::Day => vec!['d', 'a', 'y'],
            SyncUnit::Week => vec!['w', 'e', 'e', 'k'],
            SyncUnit::Month => vec!['m', 'o', 'n', 't', 'h'],
        };
        append(&mut v, u.as_slice());
        let at: &[char] = &[' ', 'a', 't', ' '];
        append(&mut v, at);
        append(&mut v, two_digits_chars(self.time.hour).as_slice());
        let colon: &[char] = &[':'];
        append(&mut v, colon);
        append(&mut v, two_digits_chars(self.time.minute).as_slice());
        let ghost head = v@;
        assert(head =~= seq!['e', 'v', 'e', 'r', 'y', ' '] + decimal(self.every as nat) + seq![' ']
            + unit_word(self.unit) + seq![' ', 'a', 't', ' '] + two_digits(self.time.hour as nat)
            + seq![':'] + two_digits(self.time.minute as nat));
        let comma: &[char] = &[','];
        assert(comma@ =~= seq![',']);
        if self.weekdays.len() > 0 {
            let mut names: Vec<Vec<char>> = Vec::new();
            let mut i: usize = 0;
            while i < self.weekdays.len()
                invariant
                    i <= self.weekdays.len(),
                    views(names@) == weekday_labels(self.weekdays@.take(i as int)),
                decreases self.weekdays.len() - i,
            {
                let ghost before = views(names@);
                names.push(self.weekdays[i].name());
                assert(views(names@) =~= before.push(weekday_label(weekday_index(self.weekdays@[i as int]))));
                assert(weekday_labels(self.weekdays@.take(i + 1)) =~= weekday_labels(
                    self.weekdays@.take(i as int),
                ).push(weekday_label(weekday_index(self.weekdays@[i as int]))));
                i += 1;
            }
            assert(self.weekdays@.take(self.weekdays.len() as int) == self.weekdays@);
            let on: &[char] = &[' ', 'o', 'n', ' '];
            assert(on@ =~= seq![' ', 'o', 'n', ' ']);
            append(&mut v, on);
            append(&mut v, join_chars(&names, comma).as_slice());
        }
        let ghost mid = v@;
        assert(mid =~= head + if self.weekdays@.len() > 0 {
            seq![' ', 'o', 'n', ' '] + join_with(
                weekday_labels(self.weekdays@),
                seq![','],
            )
        } else {
            seq![]
        });
        if self.month_days.len() > 0 {
            let mut days: Vec<Vec<char>> = Vec::new();
            let mut i: usize = 0;
            while i < self.month_days.len()
                invariant
                    i <= self.month_days.len(),
                    views(days@) == day_labels(self.month_days@.take(i as int)),
                decreases self.month_days.len() - i,
            {
                let ghost before = views(days@);
                days.push(decimal_chars(self.month_days[i] as u64));
                assert(views(days@) =~= before.push(decimal(self.month_days@[i as int] as nat)));
                assert(day_labels(self.month_days@.take(i + 1)) =~= day_labels(
                    self.month_days@.take(i as int),
                ).push(decimal(self.month_days@[i as int] as nat)));
                i += 1;
            }
            assert(self.month_days@.take(self.month_days.len() as int) == self.month_days@);
            let onday: &[char] = &[' ', 'o', 'n', ' ', 'd', 'a', 'y', ' '];
            assert(onday@ =~= seq![' ', 'o', 'n', ' ', 'd', 'a', 'y', ' ']);
            append(&mut v, onday);
            append(&mut v, join_chars(&days, comma).as_slice());
        }
        assert(v@ =~= description(*self));
        string_of(v.as_slice())
    }
}

// ---------------------------------------------------------------------------
// Laws of run days and weekday names
// ---------------------------------------------------------------------------

/// A day schedule runs only on whole periods after the last run: the gap
/// is a multiple of the interval, and, unless the schedule is plain daily,
/// at least one interval.
pub proof fn law_day_period(s: SyncSchedule, d: int, l: int)
    requires
        s.wf(),
        s.unit == SyncUnit::Day,
        run_day(s, d, Some(l)),
    ensures
        (d - l) % (s.every as int) == 0,
        plain_daily(s) || d - l >= s.every,
{
    if plain_daily(s) {
        assert(s.every == 1);
        assert((d - l) % 1 == 0);
    }
}

/// A week schedule runs no sooner than its interval of weeks after the
/// last run (for one week with weekdays, any listed weekday after it
/// runs); without weekdays it runs on whole numbers of periods only.
pub proof fn law_week_period(s: SyncSchedule, d: int, l: int)
    requires
        s.wf(),
        s.unit == SyncUnit::Week,
        s.weekdays@.len() == 0 || s.every >= 2,
        run_day(s, d, Some(l)),
    ensures
        d - l >= 7 * s.every,
        s.weekdays@.len() == 0 ==> (d - l) % (7 * s.every) == 0,
{
    assert(!plain_daily(s));
    assert(weekday_indices(s.weekdays@).len() == s.weekdays@.len());
}

/// Each weekday's short and long English name (any ASCII case) parses to
/// that weekday, and the names `describe` prints are those of seven
/// different days, each parsing back to its day.
pub proof fn law_weekday_names()
    ensures
        forall|i: int| 0 <= i < 7 ==> weekday_named(#[trigger] weekday_label(i)) == Some(i),
        forall|i: int, j: int| 0 <= i < j < 7 ==> weekday_label(i) != weekday_label(j),
        weekday_named(seq!['m', 'o', 'n']) == Some(weekday_index(Weekday::Mon)),
        weekday_named(seq!['m', 'o', 'n', 'd', 'a', 'y']) == Some(weekday_index(Weekday::Mon)),
        weekday_named(seq!['t', 'u', 'e']) == Some(weekday_index(Weekday::Tue)),
        weekday_named(seq!['t', 'u', 'e', 's', 'd', 'a', 'y']) == Some(weekday_index(Weekday::Tue)),
        weekday_named(seq!['w', 'e', 'd']) == Some(weekday_index(Weekday::Wed)),
        weekday_named(seq!['w', 'e', 'd', 'n', 'e', 's', 'd', 'a', 'y']) == Some(weekday_index(Weekday::Wed)),
        weekday_named(seq!['t', 'h', 'u']) == Some(weekday_index(Weekday::Thu)),
        weekday_named(seq!['t', 'h', 'u', 'r', 's', 'd', 'a', 'y']) == Some(weekday_index(Weekday::Thu)),
        weekday_named(seq!['f', 'r', 'i']) == Some(weekday_index(Weekday::Fri)),
        weekday_named(seq!['f', 'r', 'i', 'd', 'a', 'y']) == Some(weekday_index(Weekday::Fri)),
        weekday_named(seq!['s', 'a', 't']) == Some(weekday_index(Weekday::Sat)),
        weekday_named(seq!['S', 'A', 'T']) == Some(weekday_index(Weekday::Sat)),
        weekday_named(seq!['s', 'a', 't', 'u', 'r', 'd', 'a', 'y']) == Some(weekday_index(Weekday::Sat)),
        weekday_named(seq!['s', 'u', 'n']) == Some(weekday_index(Weekday::Sun)),
        weekday_named(seq!['s', 'u', 'n', 'd', 'a', 'y']) == Some(weekday_index(Weekday::Sun)),
        weekday_index(Weekday::Mon) == civil_weekday(1),
        weekday_index(Weekday::Tue) == civil_weekday(2),
        weekday_index(Weekday::Wed) == civil_weekday(3),
        weekday_index(Weekday::Thu) == civil_weekday(4),
        weekday_index(Weekday::Fri) == civil_weekday(5),
        weekday_index(Weekday::Sat) == civil_weekday(6),
        weekday_index(Weekday::Sun) == civil_weekday(7),
{
    assert(lower_ascii_seq(seq!['M', 'o', 'n']) =~= seq!['m', 'o', 'n']);
    assert(lower_ascii_seq(seq!['T', 'u', 'e']) =~= seq!['t', 'u', 'e']);
    assert(lower_ascii_seq(seq!['W', 'e', 'd']) =~= seq!['w', 'e', 'd']);
    assert(lower_ascii_seq(seq!['T', 'h', 'u']) =~= seq!['t', 'h', 'u']);
    assert(lower_ascii_seq(seq!['F', 'r', 'i']) =~= seq!['f', 'r', 'i']);
    assert(lower_ascii_seq(seq!['S', 'a', 't']) =~= seq!['s', 'a', 't']);
    assert(lower_ascii_seq(seq!['S', 'A', 'T']) =~= seq!['s', 'a', 't']);
    assert(lower_ascii_seq(seq!['S', 'u', 'n']) =~= seq!['s', 'u', 'n']);
    assert(lower_ascii_seq(seq!['m', 'o', 'n']) =~= seq!['m', 'o', 'n']);
    assert(lower_ascii_seq(seq!['m', 'o', 'n', 'd', 'a', 'y']) =~= seq!['m', 'o', 'n', 'd', 'a', 'y']);
    assert(lower_ascii_seq(seq!['t', 'u', 'e']) =~= seq!['t', 'u', 'e']);
    assert(lower_ascii_seq(seq!['t', 'u', 'e', 's', 'd', 'a', 'y']) =~= seq!['t', 'u', 'e', 's', 'd', 'a', 'y']);
    assert(lower_ascii_seq(seq!['w', 'e', 'd']) =~= seq!['w', 'e', 'd']);
    assert(lower_ascii_seq(seq!['w', 'e', 'd', 'n', 'e', 's', 'd', 'a', 'y']) =~= seq![
        'w', 'e', 'd', 'n', 'e', 's', 'd', 'a', 'y',
    ]);
    assert(lower_ascii_seq(seq!['t', 'h', 'u']) =~= seq!['t', 'h', 'u']);
    assert(lower_ascii_seq(seq!['t', 'h', 'u', 'r', 's', 'd', 'a', 'y']) =~= seq![
        't', 'h', 'u', 'r', 's', 'd', 'a', 'y',
    ]);
    assert(lower_ascii_seq(seq!['f', 'r', 'i']) =~= seq!['f', 'r', 'i']);
    assert(lower_ascii_seq(seq!['f', 'r', 'i', 'd', 'a', 'y']) =~= seq!['f', 'r', 'i', 'd', 'a', 'y']);
    assert(lower_ascii_seq(seq!['s', 'a', 't']) =~= seq!['s', 'a', 't']);
    assert(lower_ascii_seq(seq!['s', 'a', 't', 'u', 'r', 'd', 'a', 'y']) =~= seq![
        's', 'a', 't', 'u', 'r', 'd', 'a', 'y',
    ]);
    assert(lower_ascii_seq(seq!['s', 'u', 'n']) =~= seq!['s', 'u', 'n']);
    assert(lower_ascii_seq(seq!['s', 'u', 'n', 'd', 'a', 'y']) =~= seq!['s', 'u', 'n', 'd', 'a', 'y']);
    assert forall|i: int| 0 <= i < 7 implies weekday_named(#[trigger] weekday_label(i)) == Some(i) by {
        if i == 0 {
        } else if i == 1 {
        } else if i == 2 {
        } else if i == 3 {
        } else if i == 4 {
        } else if i == 5 {
        } else {
        }
    }
    assert forall|i: int, j: int| 0 <= i < j < 7 implies weekday_label(i) != weekday_label(j) by {
        assert(weekday_named(weekday_label(i)) == Some(i));
        assert(weekday_named(weekday_label(j)) == Some(j));
    }
}

/// A month schedule runs only after the last run; with days of the month
/// it runs on a listed day at least its interval of calendar months later.
pub proof fn law_month_period(s: SyncSchedule, d: int, l: int)
    requires
        s.wf(),
        s.unit == SyncUnit::Month,
        run_day(s, d, Some(l)),
    ensures
        d > l,
        s.month_days@.len() > 0 ==> ints_u32(s.month_days@).contains(civil_day(d)),
        s.month_days@.len() > 0 && s.every <= 0x7fff_ffff ==> (civil_year(d) * 12 + civil_month(d)) - (
        civil_year(l) * 12 + civil_month(l)) >= s.every,
{
    assert(!plain_daily(s));
}

/// The weekday and month-day lists filter run days: a run day is a listed
/// weekday and a listed day of the month (when the lists are given).
/// Without a last run, exactly those days run; with one, no day up to it
/// runs, unless the schedule is plain daily.
pub proof fn law_run_day_filters(s: SyncSchedule, d: int, last: Option<int>)
    ensures
        run_day(s, d, last) && s.weekdays@.len() > 0 ==> weekday_indices(s.weekdays@).contains(
            civil_weekday(d),
        ),
        run_day(s, d, last) && s.month_days@.len() > 0 ==> ints_u32(s.month_days@).contains(civil_day(d)),
        last is None ==> (run_day(s, d, last) <==> ((s.weekdays@.len() == 0 || weekday_indices(
            s.weekdays@,
        ).contains(civil_weekday(d))) && (s.month_days@.len() == 0 || ints_u32(s.month_days@).contains(
            civil_day(d),
        )))),
        last matches Some(l) && d <= l && !plain_daily(s) ==> !run_day(s, d, last),
{
    assert(weekday_indices(s.weekdays@).len() == s.weekdays@.len());
    assert(ints_u32(s.month_days@).len() == s.month_days@.len());
}

/// The first run day found from `d` within `fuel` days is the earliest run
/// day in that stretch.
pub proof fn law_first_run_day(s: SyncSchedule, d: int, last: Option<int>, fuel: nat)
    ensures
        first_run_day(s, d, last, fuel) matches Some(x) ==> {
            &&& d <= x < d + fuel
            &&& run_day(s, x, last)
            &&& forall|y: int| d <= y < x ==> !#[trigger] run_day(s, y, last)
        },
        first_run_day(s, d, last, fuel) is None ==> forall|y: int|
            d <= y < d + fuel && y <= MAX_DAY ==> !#[trigger] run_day(s, y, last),
    decreases fuel,
{
    if fuel > 0 && !run_day(s, d, last) && d < MAX_DAY {
        law_first_run_day(s, d + 1, last, (fuel - 1) as nat);
        assert forall|y: int| d <= y < d + 1 implies !#[trigger] run_day(s, y, last) by {
            assert(y == d);
        }
    }
}

/// The next run day after `last` is the first run day after it, within
/// 400 days; when there is none, no day of those 400 runs.
pub proof fn law_next_run_date(s: SyncSchedule, l: int)
    requires
        l < MAX_DAY,
    ensures
        next_run_date_after(s, l) matches Some(x) ==> {
            &&& l < x <= l + 400
            &&& run_day(s, x, Some(l))
            &&& forall|y: int| l < y < x ==> !#[trigger] run_day(s, y, Some(l))
        },
        next_run_date_after(s, l) is None ==> forall|y: int|
            l < y <= l + 400 && y <= MAX_DAY ==> !#[trigger] run_day(s, y, Some(l)),
{
    law_first_run_day(s, l + 1, Some(l), 400);
}

/// `o` is a start after `now`.
pub open spec fn start_after(o: Option<i64>, now: int) -> bool {
    o matches Some(t) && t > now
}

/// The next run time is the first start after `now`: a start of the list,
/// after `now`, with no start after `now` before it; one day after `now`
/// when no start comes after it.
pub proof fn law_first_after(now: int, starts: Seq<Option<i64>>)
    ensures
        first_after(now, starts) > now,
        (exists|i: int| 0 <= i < starts.len() && start_after(#[trigger] starts[i], now)) ==> exists|i: int|
            0 <= i < starts.len() && starts[i] == Some(first_after(now, starts) as i64) && (forall|j: int|
                0 <= j < i ==> !start_after(#[trigger] starts[j], now)),
        !(exists|i: int| 0 <= i < starts.len() && start_after(#[trigger] starts[i], now)) ==> first_after(
            now,
            starts,
        ) == now + 86400,
    decreases starts.len(),
{
    lemma_first_after_later(now, starts);
    if starts.len() > 0 {
        let rest = starts.drop_first();
        law_first_after(now, rest);
        if start_after(starts[0], now) {
            assert(starts[0] == Some(first_after(now, starts) as i64));
        } else {
            if exists|i: int| 0 <= i < starts.len() && start_after(#[trigger] starts[i], now) {
                let i = choose|i: int| 0 <= i < starts.len() && start_after(#[trigger] starts[i], now);
                assert(rest[i - 1] == starts[i]);
                let k = choose|k: int|
                    0 <= k < rest.len() && rest[k] == Some(first_after(now, rest) as i64) && (forall|j: int|
                        0 <= j < k ==> !start_after(#[trigger] rest[j], now));
                assert(starts[k + 1] == rest[k]);
                assert forall|j: int| 0 <= j < k + 1 implies !start_after(#[trigger] starts[j], now) by {
                    if j > 0 {
                        assert(starts[j] == rest[j - 1]);
                    }
                }
            } else {
                assert forall|i: int| 0 <= i < rest.len() implies !start_after(#[trigger] rest[i], now) by {
                    assert(rest[i] == starts[i + 1]);
                }
            }
        }
    }
}

/// Data fetched on `f` is current on a later day `t` only while no run day
/// has come after `f` up to `t`; with a next run day ahead, it is current
/// on every day before that.
pub proof fn law_lifecycle(s: SyncSchedule, f: int, t: int)
    requires
        f < MAX_DAY,
        f <= t,
    ensures
        lifecycle_ok(s, f, t) && t <= f + 400 ==> forall|y: int| f < y <= t ==> !#[trigger] run_day(s, y, Some(f)),
        next_run_date_after(s, f) is Some && (forall|y: int| f < y <= t ==> !#[trigger] run_day(s, y, Some(f)))
            ==> lifecycle_ok(s, f, t),
        next_run_date_after(s, f) matches Some(x) ==> !lifecycle_ok(s, f, x),
{
    law_next_run_date(s, f);
    match next_run_date_after(s, f) {
        Some(x) => {
            if forall|y: int| f < y <= t ==> !#[trigger] run_day(s, y, Some(f)) {
                if t >= x {
                    assert(run_day(s, x, Some(f)));
                }
            }
        },
        None => {},
    }
}

/// Reading `ds` then `w`: a digit run ending where the word begins, taken
/// with the word in lower case.
proof fn lemma_interval_word(ds: Seq<char>, w: Seq<char>)
    requires
        ds.len() > 0,
        all_digits(ds),
        digits_value(ds) <= 0xffff_ffff,
        w.len() > 0,
        forall|i: int| 0 <= i < w.len() ==> ('a' <= #[trigger] w[i] <= 'z' || 'A' <= w[i] <= 'Z'),
    ensures
        interval_token(ds + w) == (match unit_named(lower_ascii_seq(w)) {
            Some(u) => Some((if digits_value(ds) < 1 {
                1int
            } else {
                digits_value(ds) as int
            }, u)),
            None => None,
        }),
{
    let t = lower_ascii_seq(ds + w);
    assert(t =~= ds + lower_ascii_seq(w)) by {
        assert forall|i: int| 0 <= i < ds.len() implies t[i] == ds[i] by {
            assert(is_digit(ds[i]));
        }
    }
    let lw = lower_ascii_seq(w);
    assert(!is_digit(lw[0]));
    lemma_digit_run(ds, lw);
    assert(t.take(ds.len() as int) =~= ds);
    assert(t.skip(ds.len() as int) =~= lw);
    assert(is_digit(ds[0]));
    assert(unsigned_digits(ds) == ds);
}

/// A digit run followed by a non-digit is read up to its end.
proof fn lemma_digit_run(ds: Seq<char>, w: Seq<char>)
    requires
        all_digits(ds),
        w.len() > 0,
        !is_digit(w[0]),
    ensures
        digit_prefix(ds + w) == ds.len(),
    decreases ds.len(),
{
    if ds.len() == 0 {
        assert(ds + w =~= w);
    } else {
        lemma_digit_run(ds.drop_first(), w);
        assert((ds + w).drop_first() =~= ds.drop_first() + w);
        assert(is_digit(ds[0]));
    }
}

/// The unit words, each naming its unit.
proof fn lemma_unit_words()
    ensures
        unit_named(seq!['d']) == Some(SyncUnit::Day),
        unit_named(seq!['d', 'a', 'y']) == Some(SyncUnit::Day),
        unit_named(seq!['d', 'a', 'y', 's']) == Some(SyncUnit::Day),
        unit_named(seq!['w']) == Some(SyncUnit::Week),
        unit_named(seq!['w', 'e', 'e', 'k']) == Some(SyncUnit::Week),
        unit_named(seq!['w', 'e', 'e', 'k', 's']) == Some(SyncUnit::Week),
        unit_named(seq!['m']) == Some(SyncUnit::Month),
        unit_named(seq!['m', 'o']) == Some(SyncUnit::Month),
        unit_named(seq!['m', 'o', 'n', 't', 'h']) == Some(SyncUnit::Month),
        unit_named(seq!['m', 'o', 'n', 't', 'h', 's']) == Some(SyncUnit::Month),
{
    assert(seq!['d'][0] == 'd');
    assert(seq!['d', 'a', 'y'][0] == 'd');
    assert(seq!['d', 'a', 'y', 's'][0] == 'd');
    assert(seq!['w'][0] == 'w');
    assert(seq!['w', 'e', 'e', 'k'][0] == 'w');
    assert(seq!['w', 'e', 'e', 'k', 's'][0] == 'w');
    assert(seq!['m'][0] == 'm');
    assert(seq!['m', 'o'][0] == 'm');
    assert(seq!['m', 'o', 'n', 't', 'h'][0] == 'm');
    assert(seq!['m', 'o', 'n', 't', 'h', 's'][0] == 'm');
}

/// An interval token is a count and a unit word: `d`, `day`, `days` are
/// days, `w`, `week`, `weeks` weeks, `m`, `mo`, `month`, `months` months, in
/// any ASCII case; the count is the number written, at least 1.
#[verifier::spinoff_prover]
#[verifier::rlimit(30)]
pub proof fn law_interval_token(ds: Seq<char>)
    requires
        ds.len() > 0,
        all_digits(ds),
        digits_value(ds) <= 0xffff_ffff,
    ensures
        ({
            let n = if digits_value(ds) < 1 {
                1int
            } else {
                digits_value(ds) as int
            };
            &&& interval_token(ds + seq!['d']) == Some((n, SyncUnit::Day))
            &&& interval_token(ds + seq!['d', 'a', 'y']) == Some((n, SyncUnit::Day))
            &&& interval_token(ds + seq!['d', 'a', 'y', 's']) == Some((n, SyncUnit::Day))
            &&& interval_token(ds + seq!['w']) == Some((n, SyncUnit::Week))
            &&& interval_token(ds + seq!['w', 'e', 'e', 'k']) == Some((n, SyncUnit::Week))
            &&& interval_token(ds + seq!['w', 'e', 'e', 'k', 's']) == Some((n, SyncUnit::Week))
            &&& interval_token(ds + seq!['m']) == Some((n, SyncUnit::Month))
            &&& interval_token(ds + seq!['m', 'o']) == Some((n, SyncUnit::Month))
            &&& interval_token(ds + seq!['m', 'o', 'n', 't', 'h']) == Some((n, SyncUnit::Month))
            &&& interval_token(ds + seq!['m', 'o', 'n', 't', 'h', 's']) == Some((n, SyncUnit::Month))
            &&& interval_token(ds + seq!['D']) == Some((n, SyncUnit::Day))
            &&& interval_token(ds + seq!['W']) == Some((n, SyncUnit::Week))
            &&& interval_token(ds + seq!['M']) == Some((n, SyncUnit::Month))
            &&& interval_token(ds + seq!['W', 'e', 'e', 'k', 's']) == Some((n, SyncUnit::Week))
        }),
{
    lemma_unit_words();
    lemma_interval_word(ds, seq!['d']);
    assert(lower_ascii_seq(seq!['d']) =~= seq!['d']);
    lemma_interval_word(ds, seq!['d', 'a', 'y']);
    assert(lower_ascii_seq(seq!['d', 'a', 'y']) =~= seq!['d', 'a', 'y']);
    lemma_interval_word(ds, seq!['d', 'a', 'y', 's']);
    assert(lower_ascii_seq(seq!['d', 'a', 'y', 's']) =~= seq!['d', 'a', 'y', 's']);
    lemma_interval_word(ds, seq!['w']);
    assert(lower_ascii_seq(seq!['w']) =~= seq!['w']);
    lemma_interval_word(ds, seq!['w', 'e', 'e', 'k']);
    assert(lower_ascii_seq(seq!['w', 'e', 'e', 'k']) =~= seq!['w', 'e', 'e', 'k']);
    lemma_interval_word(ds, seq!['w', 'e', 'e', 'k', 's']);
    assert(lower_ascii_seq(seq!['w', 'e', 'e', 'k', 's']) =~= seq!['w', 'e', 'e', 'k', 's']);
    lemma_interval_word(ds, seq!['m']);
    assert(lower_ascii_seq(seq!['m']) =~= seq!['m']);
    lemma_interval_word(ds, seq!['m', 'o']);
    assert(lower_ascii_seq(seq!['m', 'o']) =~= seq!['m', 'o']);
    lemma_interval_word(ds, seq!['m', 'o', 'n', 't', 'h']);
    assert(lower_ascii_seq(seq!['m', 'o', 'n', 't', 'h']) =~= seq!['m', 'o', 'n', 't', 'h']);
    lemma_interval_word(ds, seq!['m', 'o', 'n', 't', 'h', 's']);
    assert(lower_ascii_seq(seq!['m', 'o', 'n', 't', 'h', 's']) =~= seq!['m', 'o', 'n', 't', 'h', 's']);
    lemma_interval_word(ds, seq!['D']);
    assert(lower_ascii_seq(seq!['D']) =~= seq!['d']);
    lemma_interval_word(ds, seq!['W']);
    assert(lower_ascii_seq(seq!['W']) =~= seq!['w']);
    lemma_interval_word(ds, seq!['M']);
    assert(lower_ascii_seq(seq!['M']) =~= seq!['m']);
    lemma_interval_word(ds, seq!['W', 'e', 'e', 'k', 's']);
    assert(lower_ascii_seq(seq!['W', 'e', 'e', 'k', 's']) =~= seq!['w', 'e', 'e', 'k', 's']);
}

// ---------------------------------------------------------------------------
// Laws of day lists
// ---------------------------------------------------------------------------

/// A token without commas is one part.
proof fn lemma_one_part(tok: Seq<char>)
    requires
        !tok.contains(','),
    ensures
        split(tok, Sep::Char(',')) == seq![tok],
{
    let e = Seq::<char>::empty();
    assert forall|i: int| 0 <= i < tok.len() implies !is_sep(Sep::Char(','), #[trigger] tok[i]) by {
        if tok[i] == ',' {
            assert(tok.contains(','));
        }
    }
    lemma_split_state_plain(e, tok, Sep::Char(','));
    assert(e + tok =~= tok);
    assert(split_state(e, Sep::Char(',')) == (Seq::<Seq<char>>::empty(), e));
    assert(Seq::<Seq<char>>::empty().push(tok) =~= seq![tok]);
}

/// Digits hold no separator and read as their value.
proof fn lemma_digits_read(a: Seq<char>)
    requires
        a.len() > 0,
        all_digits(a),
        digits_value(a) <= 0xffff_ffff,
    ensures
        trim(a) == a,
        u32_of(a) == Some(digits_value(a) as int),
        !a.contains('-'),
        !a.contains(','),
{
    assert(is_digit(a[0]) && is_digit(a[a.len() - 1]));
    lemma_trim_noop(a);
    assert(unsigned_digits(a) == a);
    if a.contains('-') {
        let k = choose|k: int| 0 <= k < a.len() && a[k] == '-';
        assert(is_digit(a[k]));
    }
    if a.contains(',') {
        let k = choose|k: int| 0 <= k < a.len() && a[k] == ',';
        assert(is_digit(a[k]));
    }
}

/// A day of the month written alone is that day, when it lies in 1..=31;
/// else the token is no list of days.
pub proof fn law_month_day_single(a: Seq<char>)
    requires
        a.len() > 0,
        all_digits(a),
        digits_value(a) <= 0xffff_ffff,
    ensures
        month_days_token(a) == (if 1 <= digits_value(a) <= 31 {
            Some(seq![digits_value(a) as int])
        } else {
            None
        }),
{
    lemma_digits_read(a);
    lemma_one_part(a);
    assert(seq![a].drop_last() =~= Seq::<Seq<char>>::empty());
    assert(month_day_parts(Seq::<Seq<char>>::empty()) == Some(Seq::<int>::empty()));
    assert(seq![a].last() == a);
    assert(split_once(a, '-') is None) by {
        lemma_char_index(a, '-');
    }
    assert(Seq::<int>::empty().push(digits_value(a) as int) =~= seq![digits_value(a) as int]);
    let r = month_day_parts(seq![a]);
    if 1 <= digits_value(a) <= 31 {
        assert(r == Some(Seq::<int>::empty().push(digits_value(a) as int)));
    } else {
        assert(r is None);
    }
}

/// A range `a-b` of days of the month is every day from `a` to `b`, both
/// included, when `1 <= a <= b <= 31`; else the token is no list of days.
pub proof fn law_month_day_range(a: Seq<char>, b: Seq<char>)
    requires
        a.len() > 0,
        all_digits(a),
        digits_value(a) <= 0xffff_ffff,
        b.len() > 0,
        all_digits(b),
        digits_value(b) <= 0xffff_ffff,
    ensures
        month_days_token(a + seq!['-'] + b) == (if 1 <= digits_value(a) <= digits_value(b) <= 31 {
            Some(Seq::new((digits_value(b) - digits_value(a) + 1) as nat, |i: int| digits_value(a) + i))
        } else {
            None
        }),
{
    let tok = a + seq!['-'] + b;
    lemma_digits_read(a);
    lemma_digits_read(b);
    assert(!tok.contains(',')) by {
        if tok.contains(',') {
            let k = choose|k: int| 0 <= k < tok.len() && tok[k] == ',';
            if k < a.len() {
                assert(a[k] == ',');
                assert(a.contains(','));
            } else if k > a.len() {
                assert(b[k - a.len() - 1] == ',');
                assert(b.contains(','));
            }
        }
    }
    lemma_one_part(tok);
    assert(seq![tok].drop_last() =~= Seq::<Seq<char>>::empty());
    assert(tok[0] == a[0] && tok[tok.len() - 1] == b[b.len() - 1]);
    assert(is_digit(a[0]) && is_digit(b[b.len() - 1]));
    lemma_trim_noop(tok);
    lemma_split_at(a, '-', b);
    let va = digits_value(a) as int;
    let vb = digits_value(b) as int;
    assert(Seq::<int>::empty() + int_range(va, vb) =~= int_range(va, vb));
    assert(month_day_parts(Seq::<Seq<char>>::empty()) == Some(Seq::<int>::empty()));
    assert(seq![tok].last() == tok);
    assert(split_once(tok, '-') == Some((a, b)));
    let r = month_day_parts(seq![tok]);
    if 1 <= va <= vb <= 31 {
        assert(r == Some(int_range(va, vb)));
        assert(int_range(va, vb).len() > 0);
    } else {
        assert(r is None);
    }
}

/// A range `x-y` of weekday names is every weekday from `x` to `y`, both
/// included, when `x` does not come after `y`; else the token is no list
/// of weekdays.
pub proof fn law_weekday_range(i: int, j: int)
    requires
        0 <= i < 7,
        0 <= j < 7,
    ensures
        weekdays_token(weekday_label(i) + seq!['-'] + weekday_label(j)) == (if i <= j {
            Some(Seq::new((j - i + 1) as nat, |k: int| i + k))
        } else {
            None
        }),
{
    law_weekday_names();
    let a = weekday_label(i);
    let b = weekday_label(j);
    let tok = a + seq!['-'] + b;
    assert(a.len() == 3 && b.len() == 3);
    assert(!a.contains('-') && !a.contains(',') && !b.contains(',') && !is_ws(a[0]) && !is_ws(a[2])
        && !is_ws(b[0]) && !is_ws(b[2])) by {
        assert(a[0] != '-' && a[1] != '-' && a[2] != '-');
        assert(a[0] != ',' && a[1] != ',' && a[2] != ',');
        assert(b[0] != ',' && b[1] != ',' && b[2] != ',');
    }
    assert(!tok.contains(',')) by {
        if tok.contains(',') {
            let k = choose|k: int| 0 <= k < tok.len() && tok[k] == ',';
            if k < 3 {
                assert(a[k] == ',');
            } else if k > 3 {
                assert(b[k - 4] == ',');
            }
        }
    }
    lemma_one_part(tok);
    assert(seq![tok].drop_last() =~= Seq::<Seq<char>>::empty());
    assert(tok[0] == a[0] && tok[tok.len() - 1] == b[2]);
    lemma_trim_noop(tok);
    lemma_trim_noop(a);
    lemma_trim_noop(b);
    lemma_split_at(a, '-', b);
    assert(Seq::<int>::empty() + int_range(i, j) =~= int_range(i, j));
    assert(weekday_parts(Seq::<Seq<char>>::empty()) == Some(Seq::<int>::empty()));
    assert(seq![tok].last() == tok);
    assert(split_once(tok, '-') == Some((a, b)));
    assert(weekday_named(a) == Some(i) && weekday_named(b) == Some(j));
    let r = weekday_parts(seq![tok]);
    if i <= j {
        assert(r == Some(int_range(i, j)));
        assert(int_range(i, j).len() > 0);
    } else {
        assert(r is None);
    }
}

} // verus!
