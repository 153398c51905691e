//! Character-level text model: whitespace, trimming, searching and
//! slicing over sequences of `char`, with executable counterparts on
//! `Vec<char>`.

use vstd::prelude::*;
use vstd::std_specs::iter::IteratorSpec;

verus! {

/// The Unicode `White_Space` property, which `char::is_whitespace` reports.
pub open spec fn is_ws(c: char) -> bool {
    ||| ('\u{9}' <= c && c <= '\u{D}')
    ||| c == ' '
    ||| c == '\u{85}'
    ||| c == '\u{A0}'
    ||| c == '\u{1680}'
    ||| ('\u{2000}' <= c && c <= '\u{200A}')
    ||| c == '\u{2028}'
    ||| c == '\u{2029}'
    ||| c == '\u{202F}'
    ||| c == '\u{205F}'
    ||| c == '\u{3000}'
}

/// `s` without its leading whitespace.
pub open spec fn trim_start(s: Seq<char>) -> Seq<char>
    decreases s.len(),
{
    if s.len() > 0 && is_ws(s[0]) {
        trim_start(s.drop_first())
    } else {
        s
    }
}

/// `s` without its trailing whitespace.
pub open spec fn trim_end(s: Seq<char>) -> Seq<char>
    decreases s.len(),
{
    if s.len() > 0 && is_ws(s.last()) {
        trim_end(s.drop_last())
    } else {
        s
    }
}

/// `s` without leading and trailing whitespace (what `str::trim` returns).
pub open spec fn trim(s: Seq<char>) -> Seq<char> {
    trim_end(trim_start(s))
}

/// `p` occurs in `s` starting at index `i`.
pub open spec fn occurs_at(s: Seq<char>, p: Seq<char>, i: int) -> bool {
    0 <= i && i + p.len() <= s.len() && s.subrange(i, i + p.len()) == p
}

/// `p` occurs somewhere in `s`.
pub open spec fn contains(s: Seq<char>, p: Seq<char>) -> bool {
    exists|i: int| occurs_at(s, p, i)
}

/// The first index at or after `k` where `p` occurs in `s`.
pub open spec fn find_from(s: Seq<char>, p: Seq<char>, k: nat) -> Option<nat>
    decreases s.len() + 1 - k,
{
    if k + p.len() > s.len() {
        None
    } else if s.subrange(k as int, (k + p.len()) as int) == p {
        Some(k)
    } else {
        find_from(s, p, k + 1)
    }
}

/// The first index where `p` occurs in `s` (what `str::find` reports, in chars).
pub open spec fn find(s: Seq<char>, p: Seq<char>) -> Option<nat> {
    find_from(s, p, 0)
}

/// `s` begins with `p`.
pub open spec fn starts_with(s: Seq<char>, p: Seq<char>) -> bool {
    p.len() <= s.len() && s.take(p.len() as int) == p
}

/// `s` ends with `p`.
pub open spec fn ends_with(s: Seq<char>, p: Seq<char>) -> bool {
    p.len() <= s.len() && s.skip(s.len() - p.len()) == p
}

/// `find_from` gives the first occurrence at or after `k`, or reports that
/// there is none.
pub proof fn lemma_find_from(s: Seq<char>, p: Seq<char>, k: nat)
    ensures
        match find_from(s, p, k) {
            Some(i) => k <= i && occurs_at(s, p, i as int) && forall|j: int|
                k <= j < i ==> !occurs_at(s, p, j),
            None => forall|j: int| k <= j ==> !occurs_at(s, p, j),
        },
    decreases s.len() + 1 - k,
{
    if k + p.len() > s.len() {
    } else if s.subrange(k as int, (k + p.len()) as int) == p {
    } else {
        lemma_find_from(s, p, k + 1);
        assert(!occurs_at(s, p, k as int));
    }
}

/// `find` gives the first occurrence, or reports that there is none.
pub proof fn lemma_find(s: Seq<char>, p: Seq<char>)
    ensures
        match find(s, p) {
            Some(i) => occurs_at(s, p, i as int) && forall|j: int|
                0 <= j < i ==> !occurs_at(s, p, j),
            None => !contains(s, p),
        },
{
    lemma_find_from(s, p, 0);
}

proof fn lemma_trim_start_shape(s: Seq<char>) -> (n: nat)
    ensures
        n <= s.len(),
        trim_start(s) == s.skip(n as int),
        trim_start(s).len() == 0 || !is_ws(trim_start(s)[0]),
    decreases s.len(),
{
    if s.len() > 0 && is_ws(s[0]) {
        let m = lemma_trim_start_shape(s.drop_first());
        assert(s.drop_first().skip(m as int) =~= s.skip((m + 1) as int));
        m + 1
    } else {
        assert(s.skip(0) =~= s);
        0
    }
}

proof fn lemma_trim_end_shape(s: Seq<char>) -> (n: nat)
    ensures
        n <= s.len(),
        trim_end(s) == s.take(n as int),
        trim_end(s).len() == 0 || !is_ws(trim_end(s).last()),
    decreases s.len(),
{
    if s.len() > 0 && is_ws(s.last()) {
        let m = lemma_trim_end_shape(s.drop_last());
        assert(s.drop_last().take(m as int) =~= s.take(m as int));
        m
    } else {
        assert(s.take(s.len() as int) =~= s);
        s.len()
    }
}

/// `trim(s)` is the slice of `s` from `lo` to `hi`, and has no whitespace
/// at either end.
pub proof fn lemma_trim_shape(s: Seq<char>) -> (r: (nat, nat))
    ensures
        r.0 <= r.1 <= s.len(),
        trim(s) == s.subrange(r.0 as int, r.1 as int),
        trim(s).len() == 0 || (!is_ws(trim(s)[0]) && !is_ws(trim(s).last())),
{
    let a = lemma_trim_start_shape(s);
    let t = trim_start(s);
    let b = lemma_trim_end_shape(t);
    assert(t.take(b as int) =~= s.subrange(a as int, (a + b) as int));
    (a, a + b)
}

/// Trimming twice is trimming once.
pub proof fn lemma_trim_idempotent(s: Seq<char>)
    ensures
        trim(trim(s)) == trim(s),
{
    lemma_trim_shape(s);
    let w = trim(s);
    if w.len() > 0 {
        assert(trim_start(w) == w);
        assert(trim_end(w) == w);
    } else {
        assert(trim_start(w) == w);
    }
}

/// A pattern found in a slice of `s` is found in `s`.
pub proof fn lemma_contains_subrange(s: Seq<char>, lo: int, hi: int, p: Seq<char>)
    requires
        0 <= lo <= hi <= s.len(),
        contains(s.subrange(lo, hi), p),
    ensures
        contains(s, p),
{
    let t = s.subrange(lo, hi);
    let i = choose|i: int| occurs_at(t, p, i);
    assert(s.subrange(lo + i, lo + i + p.len()) =~= t.subrange(i, i + p.len()));
    assert(occurs_at(s, p, lo + i));
}

/// The first occurrence at or after `k` is the one at `i` when `p` occurs
/// at `i` and nowhere from `k` up to `i`.
pub proof fn lemma_find_from_first(s: Seq<char>, p: Seq<char>, k: nat, i: nat)
    requires
        k <= i,
        occurs_at(s, p, i as int),
        forall|j: int| k <= j < i ==> !occurs_at(s, p, j),
    ensures
        find_from(s, p, k) == Some(i),
    decreases i - k,
{
    if k < i {
        assert(!occurs_at(s, p, k as int));
        lemma_find_from_first(s, p, k + 1, i);
    }
}

/// The characters of `s`, in order.
pub fn chars_of(s: &str) -> (v: Vec<char>)
    ensures
        v@ == s@,
{
    broadcast use vstd::string::group_string_axioms;

    let mut v: Vec<char> = Vec::new();
    for c in it: s.chars()
        invariant
            it.seq() == s@,
            v@ == s@.take(it.index() as int),
    {
        v.push(c);
        assert(v@ =~= s@.take(it.index() + 1));
    }
    assert(v@ =~= s@);
    v
}

/// A `String` holding exactly the characters of `v`.
#[verifier::external_body]
pub(crate) fn string_of(v: &[char]) -> (s: String)
    ensures
        s@ == v@,
{
    v.iter().collect()
}

/// The characters of `v` from `lo` (inclusive) to `hi` (exclusive).
pub fn subvec(v: &Vec<char>, lo: usize, hi: usize) -> (r: Vec<char>)
    requires
        lo <= hi <= v.len(),
    ensures
        r@ == v@.subrange(lo as int, hi as int),
{
    let mut r: Vec<char> = Vec::with_capacity(hi - lo);
    let mut i: usize = lo;
    while i < hi
        invariant
            lo <= i <= hi <= v.len(),
            r@ == v@.subrange(lo as int, i as int),
        decreases hi - i,
    {
        r.push(v[i]);
        i = i + 1;
        assert(r@ =~= v@.subrange(lo as int, i as int));
    }
    r
}

/// `v` with the characters from `a` (inclusive) to `b` (exclusive) removed.
pub fn remove_range(v: &Vec<char>, a: usize, b: usize) -> (r: Vec<char>)
    requires
        a <= b <= v.len(),
    ensures
        r@ == v@.take(a as int) + v@.skip(b as int),
{
    let mut r: Vec<char> = Vec::with_capacity(v.len() - (b - a));
    let mut i: usize = 0;
    while i < a
        invariant
            i <= a <= b <= v.len(),
            r@ == v@.take(i as int),
        decreases a - i,
    {
        r.push(v[i]);
        i = i + 1;
        assert(r@ =~= v@.take(i as int));
    }
    let mut j: usize = b;
    while j < v.len()
        invariant
            a <= b <= j <= v.len(),
            r@ == v@.take(a as int) + v@.subrange(b as int, j as int),
        decreases v.len() - j,
    {
        r.push(v[j]);
        j = j + 1;
        assert(r@ =~= v@.take(a as int) + v@.subrange(b as int, j as int));
    }
    assert(v@.subrange(b as int, v.len() as int) =~= v@.skip(b as int));
    r
}

/// Whether `p` occurs in `v` at index `i`.
pub fn matches_at(v: &Vec<char>, p: &Vec<char>, i: usize) -> (b: bool)
    ensures
        b == occurs_at(v@, p@, i as int),
{
    if p.len() > v.len() || i > v.len() - p.len() {
        return false;
    }
    let mut k: usize = 0;
    while k < p.len()
        invariant
            i + p.len() <= v.len(),
            k <= p.len(),
            forall|m: int| 0 <= m < k ==> v@[i + m] == p@[m],
        decreases p.len() - k,
    {
        if v[i + k] != p[k] {
            assert(v@.subrange(i as int, i + p.len())[k as int] != p@[k as int]);
            return false;
        }
        k = k + 1;
    }
    assert(v@.subrange(i as int, i + p.len()) =~= p@);
    true
}

/// The first index at or after `k` where `p` occurs in `v`.
pub fn find_in(v: &Vec<char>, p: &Vec<char>, k: usize) -> (r: Option<usize>)
    ensures
        r matches Some(i) ==> i + p.len() <= v.len(),
        match r {
            Some(i) => find_from(v@, p@, k as nat) == Some(i as nat),
            None => find_from(v@, p@, k as nat) is None,
        },
{
    let mut i: usize = k;
    while i <= v.len() && p.len() <= v.len() - i
        invariant
            k <= i,
            find_from(v@, p@, k as nat) == find_from(v@, p@, i as nat),
        decreases v.len() + 1 - i,
    {
        if matches_at(v, p, i) {
            return Some(i);
        }
        assert(p.len() == 0 ==> v@.subrange(i as int, i as int) =~= p@);
        i = i + 1;
    }
    None
}

/// Bounds `(lo, hi)` of the trimmed part of `v`.
pub fn trim_bounds(v: &Vec<char>) -> (r: (usize, usize))
    ensures
        r.0 <= r.1 <= v.len(),
        v@.subrange(r.0 as int, r.1 as int) == trim(v@),
{
    let mut lo: usize = 0;
    assert(v@.skip(0) =~= v@);
    while lo < v.len() && is_ws_exec(v[lo])
        invariant
            lo <= v.len(),
            trim_start(v@) == trim_start(v@.skip(lo as int)),
        decreases v.len() - lo,
    {
        assert(v@.skip(lo as int).drop_first() =~= v@.skip(lo + 1));
        lo = lo + 1;
    }
    let ghost t = v@.skip(lo as int);
    assert(trim_start(t) == t);
    let mut hi: usize = v.len();
    while hi > lo && is_ws_exec(v[hi - 1])
        invariant
            lo <= hi <= v.len(),
            t == v@.skip(lo as int),
            trim_end(t) == trim_end(v@.subrange(lo as int, hi as int)),
        decreases hi,
    {
        assert(v@.subrange(lo as int, hi as int).drop_last() =~= v@.subrange(lo as int, hi - 1));
        hi = hi - 1;
    }
    assert(v@.skip(lo as int) =~= v@.subrange(lo as int, v.len() as int));
    (lo, hi)
}

/// Executable `is_ws`.
pub fn is_ws_exec(c: char) -> (b: bool)
    ensures
        b == is_ws(c),
{
    ('\u{9}' <= c && c <= '\u{D}') || c == ' ' || c == '\u{85}' || c == '\u{A0}' || c
        == '\u{1680}' || ('\u{2000}' <= c && c <= '\u{200A}') || c == '\u{2028}' || c
        == '\u{2029}' || c == '\u{202F}' || c == '\u{205F}' || c == '\u{3000}'
}

/// The trimmed characters of `v`.
pub fn trimmed(v: &Vec<char>) -> (r: Vec<char>)
    ensures
        r@ == trim(v@),
{
    let (lo, hi) = trim_bounds(v);
    subvec(v, lo, hi)
}

/// A line feed.
pub open spec fn newline() -> Seq<char> {
    seq!['\n']
}

/// Two line feeds: the separator of paragraphs.
pub open spec fn blank_line() -> Seq<char> {
    seq!['\n', '\n']
}

/// `s` without one trailing carriage return.
pub open spec fn strip_cr(s: Seq<char>) -> Seq<char> {
    if s.len() > 0 && s.last() == '\r' {
        s.drop_last()
    } else {
        s
    }
}

/// The lines of `s` from index `k` on: pieces ended by a line feed, or by
/// a carriage return and a line feed, which are not part of the line; a
/// last piece without line feed is a line unless it is empty (what
/// `str::lines` yields).
pub open spec fn lines_from(s: Seq<char>, k: nat) -> Seq<Seq<char>>
    decreases s.len() - k,
{
    if k >= s.len() {
        Seq::empty()
    } else {
        match find_from(s, newline(), k) {
            Some(i) => {
                proof {
                    lemma_find_from(s, newline(), k);
                }
                seq![strip_cr(s.subrange(k as int, i as int))] + lines_from(s, i + 1)
            },
            None => seq![s.skip(k as int)],
        }
    }
}

/// The lines of `s`.
pub open spec fn lines(s: Seq<char>) -> Seq<Seq<char>> {
    lines_from(s, 0)
}

/// The pieces of `s` from index `k` on between occurrences of two line
/// feeds, leftmost first (what `str::split("\n\n")` yields).
pub open spec fn paragraphs_from(s: Seq<char>, k: nat) -> Seq<Seq<char>>
    decreases s.len() + 1 - k,
{
    match find_from(s, blank_line(), k) {
        Some(i) => {
            proof {
                lemma_find_from(s, blank_line(), k);
            }
            seq![s.subrange(k as int, i as int)] + paragraphs_from(s, i + 2)
        },
        None => seq![s.skip(k as int)],
    }
}

/// The pieces of `s` between occurrences of two line feeds.
pub open spec fn paragraph_pieces(s: Seq<char>) -> Seq<Seq<char>> {
    paragraphs_from(s, 0)
}

/// The pieces `ps` joined with `sep` between consecutive pieces.
pub open spec fn join_with(ps: Seq<Seq<char>>, sep: Seq<char>) -> Seq<char>
    decreases ps.len(),
{
    if ps.len() == 0 {
        Seq::empty()
    } else if ps.len() == 1 {
        ps[0]
    } else {
        ps[0] + sep + join_with(ps.drop_first(), sep)
    }
}

proof fn lemma_paragraphs_from_split(s: Seq<char>, k: nat)
    requires
        k <= s.len(),
    ensures
        paragraphs_from(s, k).len() > 0,
        join_with(paragraphs_from(s, k), blank_line()) == s.skip(k as int),
        forall|j: int|
            0 <= j < paragraphs_from(s, k).len() ==> !contains(
                #[trigger] paragraphs_from(s, k)[j],
                blank_line(),
            ),
    decreases s.len() + 1 - k,
{
    assert(blank_line().len() == 2);
    lemma_find_from(s, blank_line(), k);
    match find_from(s, blank_line(), k) {
        Some(i) => {
            lemma_paragraphs_from_split(s, i + 2);
            let rest = paragraphs_from(s, i + 2);
            let piece = s.subrange(k as int, i as int);
            let ps = paragraphs_from(s, k);
            assert(ps == seq![piece] + rest);
            assert(ps.drop_first() =~= rest);
            assert(ps[0] == piece);
            assert(s.subrange(i as int, (i + 2) as int) == blank_line());
            assert(piece + blank_line() + s.skip((i + 2) as int) =~= s.skip(k as int));
            assert forall|j: int| 0 <= j < ps.len() implies !contains(#[trigger] ps[j], blank_line()) by {
                if j == 0 {
                    if contains(piece, blank_line()) {
                        let q = choose|q: int| occurs_at(piece, blank_line(), q);
                        assert(s.subrange(k + q, k + q + 2) =~= piece.subrange(q, q + 2));
                        assert(occurs_at(s, blank_line(), k + q));
                    }
                } else {
                    assert(ps[j] == rest[j - 1]);
                }
            }
        },
        None => {
            let piece = s.skip(k as int);
            assert(paragraphs_from(s, k) == seq![piece]);
            if contains(piece, blank_line()) {
                let q = choose|q: int| occurs_at(piece, blank_line(), q);
                assert(s.subrange(k + q, k + q + 2) =~= piece.subrange(q, q + 2));
                assert(occurs_at(s, blank_line(), k + q));
            }
        },
    }
}

/// `str::split("\n\n")`: the pieces, joined again with two line feeds,
/// give back the text, and no piece holds two line feeds in a row; a text
/// without two line feeds in a row, a single line feed or none, is one
/// piece.
pub proof fn lemma_paragraph_pieces_split(s: Seq<char>)
    ensures
        paragraph_pieces(s).len() > 0,
        join_with(paragraph_pieces(s), blank_line()) == s,
        forall|j: int|
            0 <= j < paragraph_pieces(s).len() ==> !contains(
                #[trigger] paragraph_pieces(s)[j],
                blank_line(),
            ),
        !contains(s, blank_line()) ==> paragraph_pieces(s) == seq![s],
{
    lemma_paragraphs_from_split(s, 0);
    assert(s.skip(0) =~= s);
    lemma_find_from(s, blank_line(), 0);
    if !contains(s, blank_line()) {
        if let Some(i) = find_from(s, blank_line(), 0) {
            assert(occurs_at(s, blank_line(), i as int));
        }
    }
}

/// The views of a vector of character vectors.
pub open spec fn views(v: Seq<Vec<char>>) -> Seq<Seq<char>> {
    v.map_values(|x: Vec<char>| x@)
}

/// The lines of `v`.
pub fn lines_of(v: &Vec<char>) -> (r: Vec<Vec<char>>)
    ensures
        views(r@) == lines(v@),
{
    let nl: Vec<char> = vec!['\n'];
    assert(nl@ =~= newline());
    let mut r: Vec<Vec<char>> = Vec::new();
    let mut k: usize = 0;
    while k < v.len()
        invariant
            nl@ == newline(),
            k <= v.len(),
            views(r@) + lines_from(v@, k as nat) == lines(v@),
        decreases v.len() - k,
    {
        proof {
            lemma_find_from(v@, newline(), k as nat);
        }
        let ghost before = views(r@);
        match find_in(v, &nl, k) {
            Some(i) => {
                let mut line = subvec(v, k, i);
                if line.len() > 0 && line[line.len() - 1] == '\r' {
                    line.pop();
                }
                assert(line@ =~= strip_cr(v@.subrange(k as int, i as int)));
                r.push(line);
                assert(views(r@) =~= before.push(strip_cr(v@.subrange(k as int, i as int))));
                assert(views(r@) + lines_from(v@, (i + 1) as nat) =~= before + lines_from(
                    v@,
                    k as nat,
                ));
                k = i + 1;
            },
            None => {
                let line = subvec(v, k, v.len());
                assert(line@ =~= v@.skip(k as int));
                r.push(line);
                assert(views(r@) =~= before + lines_from(v@, k as nat));
                assert(lines_from(v@, v.len() as nat) =~= Seq::<Seq<char>>::empty());
                k = v.len();
                assert(views(r@) + lines_from(v@, k as nat) =~= views(r@));
            },
        }
    }
    assert(lines_from(v@, k as nat) =~= Seq::<Seq<char>>::empty());
    assert(views(r@) =~= views(r@) + lines_from(v@, k as nat));
    r
}

/// The pieces of `v` between occurrences of two line feeds.
pub fn paragraph_pieces_of(v: &Vec<char>) -> (r: Vec<Vec<char>>)
    ensures
        views(r@) == paragraph_pieces(v@),
        join_with(views(r@), blank_line()) == v@,
        forall|j: int| 0 <= j < r.len() ==> !contains(#[trigger] r@[j]@, blank_line()),
{
    let sep: Vec<char> = vec!['\n', '\n'];
    assert(sep@ =~= blank_line());
    let mut r: Vec<Vec<char>> = Vec::new();
    let mut k: usize = 0;
    loop
        invariant
            sep@ == blank_line(),
            k <= v.len(),
            views(r@) + paragraphs_from(v@, k as nat) == paragraph_pieces(v@),
        decreases v.len() + 1 - k,
    {
        proof {
            lemma_find_from(v@, blank_line(), k as nat);
        }
        let ghost before = views(r@);
        match find_in(v, &sep, k) {
            Some(i) => {
                let piece = subvec(v, k, i);
                r.push(piece);
                assert(views(r@) + paragraphs_from(v@, (i + 2) as nat) =~= before
                    + paragraphs_from(v@, k as nat));
                k = i + 2;
            },
            None => {
                let piece = subvec(v, k, v.len());
                assert(piece@ =~= v@.skip(k as int));
                r.push(piece);
                assert(views(r@) =~= before + paragraphs_from(v@, k as nat));
                proof {
                    lemma_paragraph_pieces_split(v@);
                    assert forall|j: int| 0 <= j < r.len() implies !contains(
                        #[trigger] r@[j]@,
                        blank_line(),
                    ) by {
                        assert(views(r@)[j] == r@[j]@);
                    }
                }
                return r;
            },
        }
    }
}

/// The number of bytes in the UTF-8 encoding of `s` (what `str::len`
/// returns).
pub open spec fn byte_len(s: Seq<char>) -> nat {
    vstd::utf8::encode_utf8(s).len()
}

/// The number of bytes in the UTF-8 encoding of `c`.
pub open spec fn char_width(c: char) -> nat {
    if (c as u32) <= 0x7F {
        1
    } else if (c as u32) <= 0x7FF {
        2
    } else if (c as u32) <= 0xFFFF {
        3
    } else {
        4
    }
}

proof fn lemma_byte_len_push(s: Seq<char>, c: char)
    ensures
        byte_len(s.push(c)) == byte_len(s) + char_width(c),
    decreases s.len(),
{
    vstd::utf8::char_is_scalar(c);
    if s.len() == 0 {
        assert(s.push(c).drop_first() =~= Seq::<char>::empty());
        assert(vstd::utf8::encode_utf8(Seq::<char>::empty()).len() == 0);
    } else {
        assert(s.push(c).drop_first() =~= s.drop_first().push(c));
        lemma_byte_len_push(s.drop_first(), c);
    }
}

/// Whether the UTF-8 encoding of `v` has more than `n` bytes.
pub fn byte_len_exceeds(v: &Vec<char>, n: usize) -> (b: bool)
    ensures
        b == (byte_len(v@) > n),
{
    let mut acc: usize = 0;
    let mut i: usize = 0;
    assert(v@.take(0) =~= Seq::<char>::empty());
    while i < v.len()
        invariant
            i <= v.len(),
            acc <= n,
            acc == byte_len(v@.take(i as int)),
        decreases v.len() - i,
    {
        let u: u32 = v[i] as u32;
        let w: usize = if u <= 0x7F {
            1
        } else if u <= 0x7FF {
            2
        } else if u <= 0xFFFF {
            3
        } else {
            4
        };
        proof {
            assert(v@.take(i + 1) =~= v@.take(i as int).push(v@[i as int]));
            lemma_byte_len_push(v@.take(i as int), v@[i as int]);
        }
        if w > n - acc {
            proof {
                lemma_byte_len_prefix(v@, i + 1);
            }
            return true;
        }
        acc = acc + w;
        i = i + 1;
    }
    assert(v@.take(i as int) =~= v@);
    false
}

proof fn lemma_byte_len_prefix(s: Seq<char>, i: int)
    requires
        0 <= i <= s.len(),
    ensures
        byte_len(s.take(i)) <= byte_len(s),
    decreases s.len() - i,
{
    if i < s.len() {
        lemma_byte_len_prefix(s, i + 1);
        assert(s.take(i + 1) =~= s.take(i).push(s[i]));
        lemma_byte_len_push(s.take(i), s[i]);
    } else {
        assert(s.take(i) =~= s);
    }
}

/// Whether `a` and `b` hold the same text.
pub fn same_text(a: &str, b: &str) -> (r: bool)
    ensures
        r == (a@ == b@),
{
    String::from_str(a) == String::from_str(b)
}

} // verus!
