//! Character-level text helpers shared by the parsers of the library.
//!
//! Strings are modelled as `Seq<char>`; the executable helpers work on
//! `Vec<char>` and slices of it, and every one of them states its result
//! over the spec functions of this module.
use vstd::prelude::*;

verus! {

broadcast use vstd::string::group_string_axioms;

// ---------------------------------------------------------------------------
// Character classes
// ---------------------------------------------------------------------------

/// No character of `s` is white space.
pub open spec fn no_ws(s: Seq<char>) -> bool {
    forall|i: int| 0 <= i < s.len() ==> !is_ws(#[trigger] s[i])
}

/// Unicode `White_Space`, the class that `char::is_whitespace` and
/// `str::trim` use.
pub open spec fn is_ws(c: char) -> bool {
    let u = c as u32;
    ||| (9 <= u && u <= 13)
    ||| u == 32
    ||| u == 0x85
    ||| u == 0xa0
    ||| u == 0x1680
    ||| (0x2000 <= u && u <= 0x200a)
    ||| u == 0x2028
    ||| u == 0x2029
    ||| u == 0x202f
    ||| u == 0x205f
    ||| u == 0x3000
}

pub fn is_whitespace(c: char) -> (r: bool)
    ensures
        r == is_ws(c),
{
    let u = c as u32;
    (9 <= u && u <= 13) || u == 32 || u == 0x85 || u == 0xa0 || u == 0x1680 || (0x2000 <= u && u
        <= 0x200a) || u == 0x2028 || u == 0x2029 || u == 0x202f || u == 0x205f || u == 0x3000
}

pub open spec fn is_digit(c: char) -> bool {
    '0' <= c && c <= '9'
}

pub open spec fn all_digits(s: Seq<char>) -> bool {
    forall|i: int| 0 <= i < s.len() ==> is_digit(#[trigger] s[i])
}

pub open spec fn is_upper_ascii(c: char) -> bool {
    'A' <= c && c <= 'Z'
}

/// `char::to_ascii_lowercase`.
pub open spec fn lower_ascii(c: char) -> char {
    if is_upper_ascii(c) {
        ((c as u32) + 32) as char
    } else {
        c
    }
}

pub open spec fn lower_ascii_seq(s: Seq<char>) -> Seq<char> {
    s.map_values(|c: char| lower_ascii(c))
}

pub fn to_ascii_lower_char(c: char) -> (r: char)
    ensures
        r == lower_ascii(c),
{
    if 'A' <= c && c <= 'Z' {
        let u = (c as u32) + 32;
        let r = u as u8 as char;
        assert(r == lower_ascii(c)) by {
            assert(u < 128);
        }
        r
    } else {
        c
    }
}

// ---------------------------------------------------------------------------
// Conversions between `&str`, `String` and `Vec<char>`
// ---------------------------------------------------------------------------

/// Appends one character to a `String` (`String::push`).
#[verifier::external_body]
fn push_char(s: &mut String, c: char)
    ensures
        final(s)@ == old(s)@.push(c),
{
    s.push(c);
}

/// The characters of `s`, in order.
pub fn chars_of(s: &str) -> (r: Vec<char>)
    ensures
        r@ == s@,
{
    let mut r: Vec<char> = Vec::new();
    for c in it: s.chars()
        invariant
            r@ == it.seq().take(it.index() as int),
            it.seq() == s@,
    {
        r.push(c);
    }
    r
}

/// The `String` holding exactly the characters `v`.
pub fn string_of(v: &[char]) -> (r: String)
    ensures
        r@ == v@,
{
    let mut r = String::new();
    let mut i: usize = 0;
    while i < v.len()
        invariant
            i <= v.len(),
            r@ == v@.take(i as int),
        decreases v.len() - i,
    {
        push_char(&mut r, v[i]);
        assert(v@.take(i + 1) == v@.take(i as int).push(v@[i as int]));
        i += 1;
    }
    assert(v@.take(v.len() as int) == v@);
    r
}

/// The characters `v[lo..hi]` as a new vector.
pub fn slice_of(v: &[char], lo: usize, hi: usize) -> (r: Vec<char>)
    requires
        lo <= hi <= v.len(),
    ensures
        r@ == v@.subrange(lo as int, hi as int),
{
    let mut r: Vec<char> = Vec::new();
    let mut i = lo;
    while i < hi
        invariant
            lo <= i <= hi <= v.len(),
            r@ == v@.subrange(lo as int, i as int),
        decreases hi - i,
    {
        r.push(v[i]);
        assert(v@.subrange(lo as int, i + 1) == v@.subrange(lo as int, i as int).push(v@[i as int]));
        i += 1;
    }
    r
}

/// `a` followed by `b`.
pub fn concat(a: &[char], b: &[char]) -> (r: Vec<char>)
    ensures
        r@ == a@ + b@,
{
    let mut r = slice_of(a, 0, a.len());
    assert(a@.subrange(0, a@.len() as int) == a@);
    let mut i: usize = 0;
    while i < b.len()
        invariant
            i <= b.len(),
            r@ == a@ + b@.take(i as int),
        decreases b.len() - i,
    {
        r.push(b[i]);
        assert(b@.take(i + 1) == b@.take(i as int).push(b@[i as int]));
        assert(a@ + b@.take(i + 1) == (a@ + b@.take(i as int)).push(b@[i as int]));
        i += 1;
    }
    assert(b@.take(b.len() as int) == b@);
    r
}

/// Appends the characters `b` to `r`.
pub fn append(r: &mut Vec<char>, b: &[char])
    ensures
        final(r)@ == old(r)@ + b@,
{
    let mut i: usize = 0;
    let ghost start = r@;
    while i < b.len()
        invariant
            i <= b.len(),
            r@ == start + b@.take(i as int),
        decreases b.len() - i,
    {
        r.push(b[i]);
        assert(b@.take(i + 1) == b@.take(i as int).push(b@[i as int]));
        assert(start + b@.take(i + 1) == (start + b@.take(i as int)).push(b@[i as int]));
        i += 1;
    }
    assert(b@.take(b.len() as int) == b@);
}

/// Whether `a` and `b` hold the same characters.
pub fn chars_eq(a: &[char], b: &[char]) -> (r: bool)
    ensures
        r == (a@ == b@),
{
    if a.len() != b.len() {
        return false;
    }
    let mut i: usize = 0;
    while i < a.len()
        invariant
            i <= a.len() == b.len(),
            forall|j: int| 0 <= j < i ==> a@[j] == b@[j],
        decreases a.len() - i,
    {
        if a[i] != b[i] {
            return false;
        }
        i += 1;
    }
    assert(a@ =~= b@);
    true
}

/// Whether `needle` occurs among the sequences `hay`.
pub fn contains_chars(hay: &Vec<Vec<char>>, needle: &[char]) -> (r: bool)
    ensures
        r == views(hay@).contains(needle@),
{
    let mut i: usize = 0;
    while i < hay.len()
        invariant
            i <= hay.len(),
            forall|j: int| 0 <= j < i ==> hay@[j]@ != needle@,
        decreases hay.len() - i,
    {
        if chars_eq(hay[i].as_slice(), needle) {
            assert(views(hay@)[i as int] == needle@);
            return true;
        }
        i += 1;
    }
    assert forall|j: int| 0 <= j < views(hay@).len() implies views(hay@)[j] != needle@ by {
        assert(views(hay@)[j] == hay@[j]@);
    }
    false
}

pub fn contains_char(v: &[char], c: char) -> (r: bool)
    ensures
        r == v@.contains(c),
{
    let mut i: usize = 0;
    while i < v.len()
        invariant
            i <= v.len(),
            forall|j: int| 0 <= j < i ==> v@[j] != c,
        decreases v.len() - i,
    {
        if v[i] == c {
            assert(v@[i as int] == c);
            return true;
        }
        i += 1;
    }
    false
}

pub fn starts_with(v: &[char], p: &[char]) -> (r: bool)
    ensures
        r == (p@.len() <= v@.len() && v@.take(p@.len() as int) == p@),
{
    if p.len() > v.len() {
        return false;
    }
    let mut i: usize = 0;
    while i < p.len()
        invariant
            i <= p.len() <= v.len(),
            forall|j: int| 0 <= j < i ==> v@[j] == p@[j],
        decreases p.len() - i,
    {
        if v[i] != p[i] {
            assert(v@.take(p@.len() as int)[i as int] != p@[i as int]);
            return false;
        }
        i += 1;
    }
    assert(v@.take(p@.len() as int) =~= p@);
    true
}

pub fn to_ascii_lower(v: &[char]) -> (r: Vec<char>)
    ensures
        r@ == lower_ascii_seq(v@),
{
    let mut r: Vec<char> = Vec::new();
    let mut i: usize = 0;
    while i < v.len()
        invariant
            i <= v.len(),
            r@ == lower_ascii_seq(v@.take(i as int)),
        decreases v.len() - i,
    {
        r.push(to_ascii_lower_char(v[i]));
        assert(lower_ascii_seq(v@.take(i + 1)) =~= lower_ascii_seq(v@.take(i as int)).push(
            lower_ascii(v@[i as int]),
        ));
        i += 1;
    }
    assert(v@.take(v.len() as int) == v@);
    r
}

/// `str::eq_ignore_ascii_case`.
pub fn eq_ignore_ascii_case(a: &[char], b: &[char]) -> (r: bool)
    ensures
        r == (lower_ascii_seq(a@) == lower_ascii_seq(b@)),
{
    let la = to_ascii_lower(a);
    let lb = to_ascii_lower(b);
    chars_eq(la.as_slice(), lb.as_slice())
}

// ---------------------------------------------------------------------------
// Trimming
// ---------------------------------------------------------------------------

pub open spec fn trim_start(s: Seq<char>) -> Seq<char>
    decreases s.len(),
{
    if s.len() > 0 && is_ws(s[0]) {
        trim_start(s.drop_first())
    } else {
        s
    }
}

pub open spec fn trim_end(s: Seq<char>) -> Seq<char>
    decreases s.len(),
{
    if s.len() > 0 && is_ws(s.last()) {
        trim_end(s.drop_last())
    } else {
        s
    }
}

/// `str::trim`: white space removed at both ends.
pub open spec fn trim(s: Seq<char>) -> Seq<char> {
    trim_end(trim_start(s))
}

/// `str::trim`.
pub fn trim_chars(v: &[char]) -> (r: Vec<char>)
    ensures
        r@ == trim(v@),
{
    let n = v.len();
    let mut lo: usize = 0;
    assert(v@.skip(0) == v@);
    while lo < n && is_whitespace(v[lo])
        invariant
            lo <= n == v.len(),
            trim_start(v@) == trim_start(v@.skip(lo as int)),
        decreases n - lo,
    {
        assert(v@.skip(lo as int).drop_first() == v@.skip(lo + 1));
        lo += 1;
    }
    let ghost ts = v@.skip(lo as int);
    assert(trim_start(v@) == ts);
    let mut hi: usize = n;
    assert(ts == v@.subrange(lo as int, n as int));
    while hi > lo && is_whitespace(v[hi - 1])
        invariant
            lo <= hi <= n == v.len(),
            ts == v@.subrange(lo as int, n as int),
            trim_end(ts) == trim_end(v@.subrange(lo as int, hi as int)),
        decreases hi - lo,
    {
        assert(v@.subrange(lo as int, hi as int).drop_last() == v@.subrange(
            lo as int,
            hi - 1,
        ));
        hi -= 1;
    }
    slice_of(v, lo, hi)
}

pub proof fn lemma_trim_start_idem(s: Seq<char>)
    ensures
        trim_start(trim_start(s)) == trim_start(s),
        trim_start(s).len() > 0 ==> !is_ws(trim_start(s)[0]),
    decreases s.len(),
{
    if s.len() > 0 && is_ws(s[0]) {
        lemma_trim_start_idem(s.drop_first());
    }
}

// ---------------------------------------------------------------------------
// Splitting
// ---------------------------------------------------------------------------

/// Separator classes used by the parsers of the library.
#[derive(Clone, Copy)]
pub enum Sep {
    /// One given character.
    Char(char),
    /// Any white space.
    Ws,
    /// A comma or any white space.
    CommaOrWs,
    /// A slash or any white space.
    WsOrSlash,
}

pub open spec fn is_sep(sep: Sep, c: char) -> bool {
    match sep {
        Sep::Char(d) => c == d,
        Sep::Ws => is_ws(c),
        Sep::CommaOrWs => c == ',' || is_ws(c),
        Sep::WsOrSlash => is_ws(c) || c == '/',
    }
}

pub fn sep_matches(sep: Sep, c: char) -> (r: bool)
    ensures
        r == is_sep(sep, c),
{
    match sep {
        Sep::Char(d) => c == d,
        Sep::Ws => is_whitespace(c),
        Sep::CommaOrWs => c == ',' || is_whitespace(c),
        Sep::WsOrSlash => is_whitespace(c) || c == '/',
    }
}

/// The pieces finished so far and the piece in progress after reading `s`.
pub open spec fn split_state(s: Seq<char>, sep: Sep) -> (Seq<Seq<char>>, Seq<char>)
    decreases s.len(),
{
    if s.len() == 0 {
        (seq![], seq![])
    } else {
        let (d, c) = split_state(s.drop_last(), sep);
        if is_sep(sep, s.last()) {
            (d.push(c), seq![])
        } else {
            (d, c.push(s.last()))
        }
    }
}

/// `str::split` with a separator class: the pieces between separators,
/// empty pieces included (`n` separators give `n + 1` pieces).
pub open spec fn split(s: Seq<char>, sep: Sep) -> Seq<Seq<char>> {
    split_state(s, sep).0.push(split_state(s, sep).1)
}

/// The character sequences of a sequence of strings.
pub open spec fn string_views(v: Seq<String>) -> Seq<Seq<char>> {
    v.map_values(|s: String| s@)
}

/// The views of a vector of character vectors.
pub open spec fn views(v: Seq<Vec<char>>) -> Seq<Seq<char>> {
    Seq::new(v.len(), |i: int| v[i]@)
}

/// `str::split`.
pub fn split_chars(v: &[char], sep: Sep) -> (r: Vec<Vec<char>>)
    ensures
        views(r@) == split(v@, sep),
{
    let mut done: Vec<Vec<char>> = Vec::new();
    let mut cur: Vec<char> = Vec::new();
    let mut i: usize = 0;
    assert(v@.take(0) =~= Seq::<char>::empty());
    while i < v.len()
        invariant
            i <= v.len(),
            (views(done@), cur@) == split_state(v@.take(i as int), sep),
        decreases v.len() - i,
    {
        let ghost pre = v@.take(i as int);
        assert(v@.take(i + 1).drop_last() == pre);
        assert(v@.take(i + 1).last() == v@[i as int]);
        if sep_matches(sep, v[i]) {
            let piece = cur;
            done.push(piece);
            cur = Vec::new();
            assert(views(done@) =~= split_state(pre, sep).0.push(split_state(pre, sep).1));
        } else {
            cur.push(v[i]);
        }
        i += 1;
    }
    assert(v@.take(v.len() as int) == v@);
    let ghost d = views(done@);
    done.push(cur);
    assert(views(done@) =~= d.push(split_state(v@, sep).1));
    done
}

/// Pieces of `split(s, Ws)` that are not empty: `str::split_whitespace`.
pub open spec fn words(s: Seq<char>) -> Seq<Seq<char>> {
    split(s, Sep::Ws).filter(|p: Seq<char>| p.len() > 0)
}

/// Drops the empty pieces of a split.
pub fn nonempty_pieces(pieces: Vec<Vec<char>>) -> (r: Vec<Vec<char>>)
    ensures
        views(r@) == views(pieces@).filter(|p: Seq<char>| p.len() > 0),
{
    let ghost all = views(pieces@);
    let mut r: Vec<Vec<char>> = Vec::new();
    let mut i: usize = 0;
    while i < pieces.len()
        invariant
            i <= pieces.len(),
            all == views(pieces@),
            views(r@) == all.take(i as int).filter(|p: Seq<char>| p.len() > 0),
        decreases pieces.len() - i,
    {
        let ghost before = views(r@);
        assert(all.take(i + 1).drop_last() == all.take(i as int));
        assert(all.take(i + 1).last() == pieces@[i as int]@);
        reveal_with_fuel(Seq::<_>::filter, 1);
        if pieces[i].len() > 0 {
            r.push(pieces[i].clone());
            assert(views(r@) =~= before.push(pieces@[i as int]@));
        }
        i += 1;
    }
    assert(all.take(pieces.len() as int) == all);
    r
}

/// `str::split_whitespace`.
pub fn split_words(v: &[char]) -> (r: Vec<Vec<char>>)
    ensures
        views(r@) == words(v@),
{
    let pieces = split_chars(v, Sep::Ws);
    nonempty_pieces(pieces)
}

/// Drops one trailing `'\r'`.
pub open spec fn strip_cr(s: Seq<char>) -> Seq<char> {
    if s.len() > 0 && s.last() == '\r' {
        s.drop_last()
    } else {
        s
    }
}

/// `str::lines`: the text split at `'\n'`; a line that ended in `'\n'` also
/// loses one `'\r'` before it; a final empty piece (text empty or ending in
/// `'\n'`) is no line.
pub open spec fn lines(s: Seq<char>) -> Seq<Seq<char>> {
    let p = split(s, Sep::Char('\n'));
    let terminated = p.drop_last().map_values(|x: Seq<char>| strip_cr(x));
    if p.last().len() == 0 {
        terminated
    } else {
        terminated.push(p.last())
    }
}

pub fn strip_cr_chars(v: Vec<char>) -> (r: Vec<char>)
    ensures
        r@ == strip_cr(v@),
{
    let mut v = v;
    if v.len() > 0 && v[v.len() - 1] == '\r' {
        v.pop();
    }
    v
}

/// `str::lines`.
pub fn lines_of(v: &[char]) -> (r: Vec<Vec<char>>)
    ensures
        views(r@) == lines(v@),
{
    let p = split_chars(v, Sep::Char('\n'));
    let ghost pv = views(p@);
    assert(pv.len() >= 1);
    let n = p.len();
    let mut r: Vec<Vec<char>> = Vec::new();
    let mut i: usize = 0;
    while i + 1 < n
        invariant
            n == p.len() >= 1,
            pv == views(p@),
            i < n,
            views(r@) == pv.drop_last().take(i as int).map_values(|x: Seq<char>| strip_cr(x)),
        decreases n - i,
    {
        let line = strip_cr_chars(p[i].clone());
        let ghost before = views(r@);
        r.push(line);
        assert(views(r@) =~= before.push(strip_cr(pv[i as int])));
        assert(pv.drop_last().take(i + 1) == pv.drop_last().take(i as int).push(pv[i as int]));
        assert(views(r@) =~= pv.drop_last().take(i + 1).map_values(
            |x: Seq<char>| strip_cr(x),
        ));
        i += 1;
    }
    assert(pv.drop_last().take(i as int) == pv.drop_last());
    if p[n - 1].len() > 0 {
        let ghost before = views(r@);
        r.push(p[n - 1].clone());
        assert(views(r@) =~= before.push(pv.last()));
    }
    r
}

/// Index of the first `c` in `s`, or `-1`.
pub open spec fn char_index(s: Seq<char>, c: char) -> int
    decreases s.len(),
{
    if s.len() == 0 {
        -1
    } else if s[0] == c {
        0
    } else {
        let r = char_index(s.drop_first(), c);
        if r < 0 {
            -1
        } else {
            r + 1
        }
    }
}

pub proof fn lemma_char_index(s: Seq<char>, c: char)
    ensures
        char_index(s, c) < 0 <==> !s.contains(c),
        char_index(s, c) >= 0 ==> {
            &&& char_index(s, c) < s.len()
            &&& s[char_index(s, c)] == c
            &&& forall|j: int| 0 <= j < char_index(s, c) ==> s[j] != c
        },
        char_index(s, c) >= -1,
    decreases s.len(),
{
    if s.len() > 0 && s[0] != c {
        lemma_char_index(s.drop_first(), c);
        if s.contains(c) {
            let k = choose|k: int| 0 <= k < s.len() && s[k] == c;
            assert(s.drop_first()[k - 1] == c);
        }
        if char_index(s, c) >= 0 {
            assert forall|j: int| 0 <= j < char_index(s, c) implies s[j] != c by {
                if j > 0 {
                    assert(s[j] == s.drop_first()[j - 1]);
                }
            }
        }
    }
}

/// `str::split_once` on a character.
pub open spec fn split_once(s: Seq<char>, c: char) -> Option<(Seq<char>, Seq<char>)> {
    let i = char_index(s, c);
    if i < 0 {
        None
    } else {
        Some((s.take(i), s.skip(i + 1)))
    }
}

/// Position of the first `c` in `v`.
pub fn find_char(v: &[char], c: char) -> (r: Option<usize>)
    ensures
        match r {
            Some(i) => i == char_index(v@, c),
            None => char_index(v@, c) < 0,
        },
{
    proof {
        lemma_char_index(v@, c);
    }
    let mut i: usize = 0;
    while i < v.len()
        invariant
            i <= v.len(),
            forall|j: int| 0 <= j < i ==> v@[j] != c,
            char_index(v@, c) < 0 <==> !v@.contains(c),
            char_index(v@, c) >= 0 ==> {
                &&& char_index(v@, c) < v@.len()
                &&& v@[char_index(v@, c)] == c
                &&& forall|j: int| 0 <= j < char_index(v@, c) ==> v@[j] != c
            },
            char_index(v@, c) >= -1,
        decreases v.len() - i,
    {
        if v[i] == c {
            assert(v@.contains(c));
            let ghost k = char_index(v@, c);
            assert(k == i) by {
                if k < i {
                    assert(v@[k] != c);
                }
                if k > i {
                    assert(v@[i as int] != c);
                }
            }
            return Some(i);
        }
        i += 1;
    }
    None
}

/// `str::split_once`.
pub fn split_once_chars(v: &[char], c: char) -> (r: Option<(Vec<char>, Vec<char>)>)
    ensures
        match r {
            Some((a, b)) => split_once(v@, c) == Some((a@, b@)),
            None => split_once(v@, c) is None,
        },
{
    proof {
        lemma_char_index(v@, c);
    }
    match find_char(v, c) {
        Some(i) => {
            let a = slice_of(v, 0, i);
            let b = slice_of(v, i + 1, v.len());
            assert(a@ == v@.take(i as int));
            assert(b@ == v@.skip(i + 1));
            Some((a, b))
        },
        None => None,
    }
}

// ---------------------------------------------------------------------------
// Unsigned decimal numbers
// ---------------------------------------------------------------------------

pub open spec fn digit_value(c: char) -> nat {
    ((c as u32) - ('0' as u32)) as nat
}

/// Value of a sequence of decimal digits.
pub open spec fn digits_value(s: Seq<char>) -> nat
    decreases s.len(),
{
    if s.len() == 0 {
        0
    } else {
        digits_value(s.drop_last()) * 10 + digit_value(s.last())
    }
}

/// The digits of an unsigned number: one leading `'+'` is dropped.
pub open spec fn unsigned_digits(s: Seq<char>) -> Seq<char> {
    if s.len() > 0 && s[0] == '+' {
        s.drop_first()
    } else {
        s
    }
}

/// `str::parse` for an unsigned integer type whose largest value is `max`:
/// an optional `'+'`, then at least one ASCII digit and nothing else, with
/// a value that fits.
pub open spec fn parse_uint(s: Seq<char>, max: nat) -> Option<nat> {
    let d = unsigned_digits(s);
    if d.len() > 0 && all_digits(d) && digits_value(d) <= max {
        Some(digits_value(d))
    } else {
        None
    }
}

pub proof fn lemma_digits_value_mono(s: Seq<char>, k: int)
    requires
        0 <= k <= s.len(),
        all_digits(s),
    ensures
        digits_value(s.take(k)) <= digits_value(s),
    decreases s.len() - k,
{
    if k < s.len() {
        lemma_digits_value_mono(s, k + 1);
        assert(s.take(k + 1).drop_last() == s.take(k));
    } else {
        assert(s.take(k) == s);
    }
}

/// Parses an unsigned decimal number no larger than `max`.
pub fn parse_uint_chars(v: &[char], max: u64) -> (r: Option<u64>)
    ensures
        match r {
            Some(n) => parse_uint(v@, max as nat) == Some(n as nat),
            None => parse_uint(v@, max as nat) is None,
        },
{
    let start: usize = if v.len() > 0 && v[0] == '+' {
        1
    } else {
        0
    };
    let ghost d = unsigned_digits(v@);
    assert(d == v@.skip(start as int));
    if start >= v.len() {
        assert(d.len() == 0);
        return None;
    }
    let mut acc: u64 = 0;
    let mut i: usize = start;
    while i < v.len()
        invariant
            start <= i <= v.len(),
            d == v@.skip(start as int),
            d == unsigned_digits(v@),
            forall|j: int| start <= j < i ==> is_digit(#[trigger] v@[j]),
            acc as nat == digits_value(d.take(i - start)),
            acc <= max,
        decreases v.len() - i,
    {
        let c = v[i];
        if !('0' <= c && c <= '9') {
            assert(d[i - start] == c);
            assert(!is_digit(d[i - start]));
            assert(!all_digits(d));
            return None;
        }
        let dv = (c as u32 - '0' as u32) as u64;
        assert(d.take(i + 1 - start).drop_last() == d.take(i - start));
        assert(d.take(i + 1 - start).last() == c);
        assert(digits_value(d.take(i + 1 - start)) == acc * 10 + dv);
        if dv > max {
            proof {
                if all_digits(d) {
                    lemma_digits_value_mono(d, i + 1 - start);
                }
            }
            return None;
        }
        if acc > (max - dv) / 10 {
            proof {
                assert(acc * 10 + dv > max) by (nonlinear_arith)
                    requires
                        acc > (max - dv) / 10,
                        dv <= max,
                ;
                if all_digits(d) {
                    lemma_digits_value_mono(d, i + 1 - start);
                }
            }
            return None;
        }
        assert(acc * 10 + dv <= max) by (nonlinear_arith)
            requires
                acc <= (max - dv) / 10,
                dv <= max,
        ;
        acc = acc * 10 + dv;
        i += 1;
    }
    assert(d.take(v.len() - start) == d);
    assert(all_digits(d)) by {
        assert forall|j: int| 0 <= j < d.len() implies is_digit(#[trigger] d[j]) by {
            assert(d[j] == v@[j + start]);
        }
    }
    Some(acc)
}

pub open spec fn digit_char(d: nat) -> char {
    if d == 0 {
        '0'
    } else if d == 1 {
        '1'
    } else if d == 2 {
        '2'
    } else if d == 3 {
        '3'
    } else if d == 4 {
        '4'
    } else if d == 5 {
        '5'
    } else if d == 6 {
        '6'
    } else if d == 7 {
        '7'
    } else if d == 8 {
        '8'
    } else {
        '9'
    }
}

/// Decimal representation without leading zeros (`u64::to_string`).
pub open spec fn decimal(n: nat) -> Seq<char>
    decreases n,
{
    if n < 10 {
        seq![digit_char(n)]
    } else {
        decimal(n / 10).push(digit_char(n % 10))
    }
}

fn digit_char_exec(d: u64) -> (r: char)
    requires
        d < 10,
    ensures
        r == digit_char(d as nat),
{
    if d == 0 {
        '0'
    } else if d == 1 {
        '1'
    } else if d == 2 {
        '2'
    } else if d == 3 {
        '3'
    } else if d == 4 {
        '4'
    } else if d == 5 {
        '5'
    } else if d == 6 {
        '6'
    } else if d == 7 {
        '7'
    } else if d == 8 {
        '8'
    } else {
        '9'
    }
}

/// Decimal representation of `n`.
pub fn decimal_chars(n: u64) -> (r: Vec<char>)
    ensures
        r@ == decimal(n as nat),
    decreases n,
{
    if n < 10 {
        let mut r = Vec::new();
        r.push(digit_char_exec(n));
        assert(r@ =~= seq![digit_char(n as nat)]);
        r
    } else {
        let mut r = decimal_chars(n / 10);
        r.push(digit_char_exec(n % 10));
        r
    }
}

/// Two-digit, zero-padded rendering (`%02`), for values below 100.
pub open spec fn two_digits(n: nat) -> Seq<char> {
    seq![digit_char(n / 10), digit_char(n % 10)]
}

pub fn two_digits_chars(n: u32) -> (r: Vec<char>)
    requires
        n < 100,
    ensures
        r@ == two_digits(n as nat),
{
    let mut r = Vec::new();
    r.push(digit_char_exec((n / 10) as u64));
    r.push(digit_char_exec((n % 10) as u64));
    assert(r@ =~= two_digits(n as nat));
    r
}

// ---------------------------------------------------------------------------
// Replacing
// ---------------------------------------------------------------------------

/// `str::replace` with a non-empty pattern: occurrences are replaced from
/// left to right and do not overlap.
pub open spec fn replace_all(s: Seq<char>, pat: Seq<char>, rep: Seq<char>) -> Seq<char>
    recommends
        pat.len() > 0,
    decreases s.len(),
{
    if s.len() == 0 || pat.len() == 0 {
        s
    } else if pat.len() <= s.len() && s.take(pat.len() as int) == pat {
        rep + replace_all(s.skip(pat.len() as int), pat, rep)
    } else {
        seq![s[0]] + replace_all(s.drop_first(), pat, rep)
    }
}

/// `str::replace`.
pub fn replace_chars(v: &[char], pat: &[char], rep: &[char]) -> (r: Vec<char>)
    requires
        pat@.len() > 0,
    ensures
        r@ == replace_all(v@, pat@, rep@),
{
    let mut r: Vec<char> = Vec::new();
    let mut i: usize = 0;
    assert(v@.skip(0) == v@);
    while i < v.len()
        invariant
            i <= v.len(),
            pat@.len() > 0,
            r@ + replace_all(v@.skip(i as int), pat@, rep@) == replace_all(v@, pat@, rep@),
        decreases v.len() - i,
    {
        let rest = slice_of(v, i, v.len());
        assert(rest@ == v@.skip(i as int));
        if starts_with(rest.as_slice(), pat) {
            assert(rest@.skip(pat@.len() as int) == v@.skip(i + pat@.len()));
            let ghost before = r@;
            append(&mut r, rep);
            assert(before + (rep@ + replace_all(v@.skip(i + pat@.len()), pat@, rep@)) == r@
                + replace_all(v@.skip(i + pat@.len()), pat@, rep@));
            i += pat.len();
        } else {
            assert(rest@.drop_first() == v@.skip(i + 1));
            let ghost before = r@;
            r.push(v[i]);
            assert(before + (seq![v@[i as int]] + replace_all(v@.skip(i + 1), pat@, rep@)) == r@
                + replace_all(v@.skip(i + 1), pat@, rep@));
            i += 1;
        }
    }
    assert(v@.skip(v.len() as int) =~= Seq::<char>::empty());
    assert(r@ + Seq::<char>::empty() == r@);
    r
}

// ---------------------------------------------------------------------------
// Unicode case mapping (std)
// ---------------------------------------------------------------------------

/// What `str::to_uppercase` returns for `s`.
pub uninterp spec fn str_to_upper(s: Seq<char>) -> Seq<char>;

/// What `str::to_lowercase` returns for `s`.
pub uninterp spec fn str_to_lower(s: Seq<char>) -> Seq<char>;

pub open spec fn is_ascii_char(c: char) -> bool {
    (c as u32) < 128
}

/// Every character of `s` is ASCII.
pub open spec fn all_ascii(s: Seq<char>) -> bool {
    forall|i: int| 0 <= i < s.len() ==> is_ascii_char(#[trigger] s[i])
}

pub open spec fn is_lower_ascii(c: char) -> bool {
    'a' <= c && c <= 'z'
}

/// `char::to_ascii_uppercase`.
pub open spec fn upper_ascii(c: char) -> char {
    if is_lower_ascii(c) {
        ((c as u32) - 32) as char
    } else {
        c
    }
}

/// `str::to_uppercase`: ASCII text letter by letter (`a`-`z` to `A`-`Z`,
/// everything else kept); other text by the Unicode rules, named
/// `str_to_upper`.
#[verifier::opaque]
pub open spec fn upper_text(s: Seq<char>) -> Seq<char> {
    if all_ascii(s) {
        s.map_values(|c: char| upper_ascii(c))
    } else {
        str_to_upper(s)
    }
}

/// `str::to_lowercase`: ASCII text letter by letter (`A`-`Z` to `a`-`z`,
/// everything else kept); other text by the Unicode rules, named
/// `str_to_lower`.
#[verifier::opaque]
pub open spec fn lower_text(s: Seq<char>) -> Seq<char> {
    if all_ascii(s) {
        lower_ascii_seq(s)
    } else {
        str_to_lower(s)
    }
}

/// `str::to_uppercase`: the Unicode upper-case mapping of the whole string.
/// On ASCII letters it is the ASCII mapping (std documents
/// `to_ascii_uppercase` as the ASCII-only part of `to_uppercase`); the
/// mapping of other characters is only named.
#[verifier::external_body]
pub(crate) fn to_upper(v: &[char]) -> (r: Vec<char>)
    ensures
        r@ == str_to_upper(v@),
        r@ == upper_text(v@),
{
    v.iter().collect::<String>().to_uppercase().chars().collect()
}

/// `str::to_lowercase`: the Unicode lower-case mapping of the whole string.
/// On ASCII letters it is the ASCII mapping (std documents
/// `to_ascii_lowercase` as the ASCII-only part of `to_lowercase`); the
/// mapping of other characters is only named.
#[verifier::external_body]
pub(crate) fn to_lower(v: &[char]) -> (r: Vec<char>)
    ensures
        r@ == str_to_lower(v@),
        r@ == lower_text(v@),
{
    v.iter().collect::<String>().to_lowercase().chars().collect()
}

// ---------------------------------------------------------------------------
// Joining
// ---------------------------------------------------------------------------

/// `[String]::join`: the parts with `sep` between neighbours.
pub open spec fn join_with(parts: Seq<Seq<char>>, sep: Seq<char>) -> Seq<char>
    decreases parts.len(),
{
    if parts.len() == 0 {
        seq![]
    } else if parts.len() == 1 {
        parts[0]
    } else {
        join_with(parts.drop_last(), sep) + sep + parts.last()
    }
}

/// `[String]::join`.
pub fn join_chars(parts: &Vec<Vec<char>>, sep: &[char]) -> (r: Vec<char>)
    ensures
        r@ == join_with(views(parts@), sep@),
{
    let mut r: Vec<char> = Vec::new();
    let mut i: usize = 0;
    while i < parts.len()
        invariant
            i <= parts.len(),
            r@ == join_with(views(parts@).take(i as int), sep@),
        decreases parts.len() - i,
    {
        let ghost pv = views(parts@);
        assert(pv.take(i + 1).drop_last() == pv.take(i as int));
        assert(pv.take(i + 1).last() == parts@[i as int]@);
        if i > 0 {
            append(&mut r, sep);
        } else {
            assert(pv.take(1) == seq![pv[0]]);
        }
        append(&mut r, parts[i].as_slice());
        i += 1;
    }
    assert(views(parts@).take(parts.len() as int) == views(parts@));
    r
}

} // verus!
