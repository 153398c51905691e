//! Cleaning of language-model output: removal of `<think>` reasoning
//! blocks and of markdown code fences around a JSON answer.

use vstd::prelude::*;
use crate::error::{join, OmemError};
use crate::text::{
    chars_of, contains, ends_with, find, find_from, find_in, lemma_contains_subrange, lemma_find,
    lemma_find_from, lemma_find_from_first, lemma_trim_idempotent, lemma_trim_shape, matches_at,
    is_ws, occurs_at, remove_range, starts_with, string_of, subvec, trim, trim_end, trim_start,
    trimmed,
};

verus! {

/// The opening reasoning tag `<think>`.
pub open spec fn open_tag() -> Seq<char> {
    seq!['<', 't', 'h', 'i', 'n', 'k', '>']
}

/// The closing reasoning tag `</think>`.
pub open spec fn close_tag() -> Seq<char> {
    seq!['<', '/', 't', 'h', 'i', 'n', 'k', '>']
}

/// A fence marker: three backticks.
pub open spec fn fence() -> Seq<char> {
    seq!['`', '`', '`']
}

/// The opening marker of a JSON fence.
pub open spec fn json_fence() -> Seq<char> {
    seq!['`', '`', '`', 'j', 's', 'o', 'n']
}

/// A character that can begin the answer after an unclosed reasoning
/// block: the start of a JSON object or array, or of a code fence.
pub open spec fn is_answer_start(c: char) -> bool {
    c == '{' || c == '[' || c == '`'
}

/// The first index at or after `k` that holds an answer start.
pub open spec fn find_answer_start(s: Seq<char>, k: nat) -> Option<nat>
    decreases s.len() - k,
{
    if k >= s.len() {
        None
    } else if is_answer_start(s[k as int]) {
        Some(k)
    } else {
        find_answer_start(s, k + 1)
    }
}

/// An answer start found is at or after `k`, inside `s`.
pub proof fn lemma_find_answer_start(s: Seq<char>, k: nat)
    ensures
        find_answer_start(s, k) matches Some(j) ==> k <= j < s.len() && is_answer_start(
            s[j as int],
        ),
    decreases s.len() - k,
{
    if k < s.len() && !is_answer_start(s[k as int]) {
        lemma_find_answer_start(s, k + 1);
    }
}

/// The text with every reasoning block removed.
///
/// Repeatedly, the first `<think>` is taken: with a `</think>` after it,
/// everything from the opening tag to the end of that closing tag goes;
/// without one, everything from the opening tag up to the first answer
/// start (`{`, `[` or a backtick) goes, or the whole rest when there is
/// none. When no `<think>` is left, stray `</think>` tags are removed one
/// at a time, leftmost first.
pub open spec fn strip_thinking(s: Seq<char>) -> Seq<char>
    decreases s.len(),
{
    match find(s, open_tag()) {
        Some(o) => {
            proof {
                lemma_find(s, open_tag());
                lemma_find_from(s, close_tag(), o + 7);
                lemma_find_answer_start(s, o + 7);
            }
            match find_from(s, close_tag(), o + 7) {
                Some(c) => strip_thinking(s.take(o as int) + s.skip((c + 8) as int)),
                None => match find_answer_start(s, o + 7) {
                    Some(j) => strip_thinking(s.take(o as int) + s.skip(j as int)),
                    None => strip_thinking(s.take(o as int)),
                },
            }
        },
        None => match find(s, close_tag()) {
            Some(c) => {
                proof {
                    lemma_find(s, close_tag());
                }
                strip_thinking(s.take(c as int) + s.skip((c + 8) as int))
            },
            None => s,
        },
    }
}

/// After reasoning blocks are removed, no tag of either kind is left.
pub proof fn lemma_strip_thinking_clean(s: Seq<char>)
    ensures
        !contains(strip_thinking(s), open_tag()),
        !contains(strip_thinking(s), close_tag()),
    decreases s.len(),
{
    lemma_find(s, open_tag());
    lemma_find(s, close_tag());
    match find(s, open_tag()) {
        Some(o) => {
            lemma_find_from(s, close_tag(), o + 7);
            lemma_find_answer_start(s, o + 7);
            match find_from(s, close_tag(), o + 7) {
                Some(c) => lemma_strip_thinking_clean(s.take(o as int) + s.skip((c + 8) as int)),
                None => match find_answer_start(s, o + 7) {
                    Some(j) => lemma_strip_thinking_clean(s.take(o as int) + s.skip(j as int)),
                    None => lemma_strip_thinking_clean(s.take(o as int)),
                },
            }
        },
        None => match find(s, close_tag()) {
            Some(c) => lemma_strip_thinking_clean(s.take(c as int) + s.skip((c + 8) as int)),
            None => {},
        },
    }
}

/// Removing reasoning blocks never lengthens the text.
pub proof fn lemma_strip_thinking_shorter(s: Seq<char>)
    ensures
        strip_thinking(s).len() <= s.len(),
    decreases s.len(),
{
    lemma_find(s, open_tag());
    lemma_find(s, close_tag());
    match find(s, open_tag()) {
        Some(o) => {
            lemma_find_from(s, close_tag(), o + 7);
            lemma_find_answer_start(s, o + 7);
            match find_from(s, close_tag(), o + 7) {
                Some(c) => lemma_strip_thinking_shorter(s.take(o as int) + s.skip((c + 8) as int)),
                None => match find_answer_start(s, o + 7) {
                    Some(j) => lemma_strip_thinking_shorter(s.take(o as int) + s.skip(j as int)),
                    None => lemma_strip_thinking_shorter(s.take(o as int)),
                },
            }
        },
        None => match find(s, close_tag()) {
            Some(c) => lemma_strip_thinking_shorter(s.take(c as int) + s.skip((c + 8) as int)),
            None => {},
        },
    }
}

/// Text without reasoning tags is left as it is.
pub proof fn lemma_strip_thinking_tag_free(s: Seq<char>)
    requires
        !contains(s, open_tag()),
        !contains(s, close_tag()),
    ensures
        strip_thinking(s) == s,
{
    lemma_find(s, open_tag());
    lemma_find(s, close_tag());
}

/// Removing reasoning blocks twice removes nothing more than once.
pub proof fn lemma_strip_thinking_idempotent(s: Seq<char>)
    ensures
        strip_thinking(strip_thinking(s)) == strip_thinking(s),
{
    lemma_strip_thinking_clean(s);
    lemma_strip_thinking_tag_free(strip_thinking(s));
}

/// A tag cannot begin before an index that holds `<` and reach over it:
/// `<` is only the first character of either tag.
proof fn lemma_no_tag_over_angle(s: Seq<char>, p: Seq<char>, q: int, e: int)
    requires
        p == open_tag() || p == close_tag(),
        0 <= e < s.len(),
        s[e] == '<',
        q < e < q + p.len(),
    ensures
        !occurs_at(s, p, q),
{
    if occurs_at(s, p, q) {
        assert(s.subrange(q, q + p.len())[e - q] == s[e]);
    }
}

/// An occurrence of `p` lying inside the slice of `s` from `lo` to `hi` is
/// an occurrence in that slice.
proof fn lemma_occurs_within(s: Seq<char>, p: Seq<char>, q: int, lo: int, hi: int)
    requires
        0 <= lo <= q,
        q + p.len() <= hi <= s.len(),
        occurs_at(s, p, q),
    ensures
        occurs_at(s.subrange(lo, hi), p, q - lo),
{
    assert(s.subrange(lo, hi).subrange(q - lo, q - lo + p.len()) =~= s.subrange(q, q + p.len()));
}

/// A closed reasoning block is removed whole: before any later reasoning
/// is looked at, `a <think> m </think> c` becomes `a c`, when `a` holds no
/// `<think>` and `m` no `</think>`.
pub proof fn lemma_strip_thinking_block(a: Seq<char>, m: Seq<char>, c: Seq<char>)
    requires
        !contains(a, open_tag()),
        !contains(m, close_tag()),
    ensures
        strip_thinking(a + open_tag() + m + close_tag() + c) == strip_thinking(a + c),
{
    let s = a + open_tag() + m + close_tag() + c;
    let o = a.len() as int;
    let e = o + 7 + m.len();
    assert(open_tag().len() == 7);
    assert(close_tag().len() == 8);
    assert(s[o] == '<');
    assert(s[e] == '<');
    assert(s.subrange(o, o + 7) =~= open_tag());
    assert(s.subrange(e, e + 8) =~= close_tag());
    assert forall|j: int| 0 <= j < o implies !occurs_at(s, open_tag(), j) by {
        if j + 7 <= o {
            if occurs_at(s, open_tag(), j) {
                lemma_occurs_within(s, open_tag(), j, 0, o);
                assert(s.subrange(0, o) =~= a);
            }
        } else {
            lemma_no_tag_over_angle(s, open_tag(), j, o);
        }
    }
    lemma_find_from_first(s, open_tag(), 0, o as nat);
    assert forall|j: int| o + 7 <= j < e implies !occurs_at(s, close_tag(), j) by {
        if j + 8 <= e {
            if occurs_at(s, close_tag(), j) {
                lemma_occurs_within(s, close_tag(), j, o + 7, e);
                assert(s.subrange(o + 7, e) =~= m);
            }
        } else {
            lemma_no_tag_over_angle(s, close_tag(), j, e);
        }
    }
    lemma_find_from_first(s, close_tag(), (o + 7) as nat, e as nat);
    assert(s.take(o) + s.skip(e + 8) =~= a + c);
}

/// Text around `b` adds no tag when it holds no `<` and the first
/// character after `b` is a line feed or a backtick.
proof fn lemma_no_tag_around(pre: Seq<char>, b: Seq<char>, post: Seq<char>, p: Seq<char>)
    requires
        p == open_tag() || p == close_tag(),
        forall|i: int| 0 <= i < pre.len() ==> pre[i] != '<',
        forall|i: int| 0 <= i < post.len() ==> post[i] != '<',
        post.len() > 0 && (post[0] == '\n' || post[0] == '`'),
        !contains(b, p),
    ensures
        !contains(pre + b + post, p),
{
    let s = pre + b + post;
    let lo = pre.len() as int;
    let hi = lo + b.len();
    assert(open_tag()[0] == '<' && close_tag()[0] == '<');
    assert forall|q: int| !occurs_at(s, p, q) by {
        if occurs_at(s, p, q) {
            assert(s.subrange(q, q + p.len())[0] == s[q]);
            assert(s[q] == '<');
            if q < lo {
                assert(s[q] == pre[q]);
            } else if q >= hi {
                assert(s[q] == post[q - hi]);
            } else if q + p.len() <= hi {
                lemma_occurs_within(s, p, q, lo, hi);
                assert(s.subrange(lo, hi) =~= b);
            } else {
                assert(s[hi] == post[0]);
                assert(s.subrange(q, q + p.len())[hi - q] == s[hi]);
            }
        }
    }
}

/// Every character of `s` is whitespace.
pub open spec fn all_ws(s: Seq<char>) -> bool {
    forall|i: int| 0 <= i < s.len() ==> is_ws(s[i])
}

proof fn lemma_trim_start_after_ws(w: Seq<char>, c: Seq<char>)
    requires
        all_ws(w),
    ensures
        trim_start(w + c) == trim_start(c),
    decreases w.len(),
{
    if w.len() == 0 {
        assert(w + c =~= c);
    } else {
        assert((w + c)[0] == w[0]);
        assert((w + c).drop_first() =~= w.drop_first() + c);
        lemma_trim_start_after_ws(w.drop_first(), c);
    }
}

proof fn lemma_trim_end_before_ws(c: Seq<char>, w: Seq<char>)
    requires
        all_ws(w),
    ensures
        trim_end(c + w) == trim_end(c),
    decreases w.len(),
{
    if w.len() == 0 {
        assert(c + w =~= c);
    } else {
        assert((c + w).last() == w.last());
        assert((c + w).drop_last() =~= c + w.drop_last());
        lemma_trim_end_before_ws(c, w.drop_last());
    }
}

/// The text `x` in a fence opened by `opener` and a line feed and closed
/// by three backticks.
pub open spec fn fenced(opener: Seq<char>, x: Seq<char>) -> Seq<char> {
    opener + seq!['\n'] + x + fence()
}

proof fn lemma_fenced_clean(opener: Seq<char>, x: Seq<char>)
    requires
        opener == json_fence() || opener == fence(),
        !contains(x, open_tag()),
        !contains(x, close_tag()),
    ensures
        trim(fenced(opener, x)) == fenced(opener, x),
        strip_thinking(fenced(opener, x)) == fenced(opener, x),
{
    let pre = opener + seq!['\n'];
    let post = fence();
    let s = pre + x + post;
    assert(fenced(opener, x) =~= s);
    assert forall|i: int| 0 <= i < pre.len() implies pre[i] != '<' by {
        if i < opener.len() {
            assert(pre[i] == opener[i]);
        }
    }
    assert forall|i: int| 0 <= i < post.len() implies post[i] != '<' by {}
    lemma_no_tag_around(pre, x, post, open_tag());
    lemma_no_tag_around(pre, x, post, close_tag());
    assert(s[0] == opener[0]);
    assert(s[0] == '`');
    assert(s.last() == '`');
    assert(trim_start(s) == s);
    assert(trim_end(s) == s);
    lemma_strip_thinking_tag_free(s);
}

proof fn lemma_fenced_unfence(opener: Seq<char>, x: Seq<char>)
    requires
        opener == json_fence() || opener == fence(),
    ensures
        unfence(fenced(opener, x), opener) == Some(trim(x)),
        opener == fence() ==> unfence(fenced(opener, x), json_fence()) is None,
{
    let s = fenced(opener, x);
    let n = opener.len() as int;
    assert(s.take(n) =~= opener);
    let after = s.skip(n);
    assert(after =~= seq!['\n'] + x + fence());
    let rest = drop_newline(after);
    assert(rest =~= x + fence()) by {
        assert(after[0] == '\n');
    }
    assert(rest.skip(rest.len() - 3) =~= fence());
    assert(rest.take(rest.len() - 3) =~= x);
    if opener == fence() {
        assert(s[3] == '\n');
        if starts_with(s, json_fence()) {
            assert(s.take(7)[3] == s[3]);
            assert(json_fence()[3] == 'j');
        }
    }
}

/// A fence round trip: text without reasoning tags, put in a JSON or a
/// plain fence (opener, line feed, text, three backticks) and surrounded by
/// whitespace, comes back trimmed.
pub proof fn lemma_markdown_stripped_round_trip(
    w1: Seq<char>,
    opener: Seq<char>,
    x: Seq<char>,
    w2: Seq<char>,
)
    requires
        opener == json_fence() || opener == fence(),
        all_ws(w1),
        all_ws(w2),
        !contains(x, open_tag()),
        !contains(x, close_tag()),
    ensures
        markdown_stripped(w1 + fenced(opener, x) + w2) == trim(x),
{
    let core = fenced(opener, x);
    let s = w1 + core + w2;
    lemma_fenced_clean(opener, x);
    assert(s =~= w1 + (core + w2));
    lemma_trim_start_after_ws(w1, core + w2);
    assert(core[0] == '`');
    assert((core + w2)[0] == core[0]);
    assert(trim_start(core + w2) == core + w2);
    lemma_trim_end_before_ws(core, w2);
    assert(trim(s) == core);
    lemma_fenced_unfence(opener, x);
}

/// Text without reasoning tags that, trimmed, does not open with a fence
/// comes back trimmed.
pub proof fn lemma_markdown_stripped_unfenced(s: Seq<char>)
    requires
        !contains(s, open_tag()),
        !contains(s, close_tag()),
        !starts_with(trim(s), fence()),
    ensures
        markdown_stripped(s) == trim(s),
{
    lemma_clean_trim(s);
    lemma_markdown_stripped_plain(s);
}

fn open_tag_chars() -> (v: Vec<char>)
    ensures
        v@ == open_tag(),
{
    let v: Vec<char> = vec!['<', 't', 'h', 'i', 'n', 'k', '>'];
    assert(v@ =~= open_tag());
    v
}

fn close_tag_chars() -> (v: Vec<char>)
    ensures
        v@ == close_tag(),
{
    let v: Vec<char> = vec!['<', '/', 't', 'h', 'i', 'n', 'k', '>'];
    assert(v@ =~= close_tag());
    v
}

/// The first index at or after `k` of an answer start in `v`.
fn answer_start_in(v: &Vec<char>, k: usize) -> (r: Option<usize>)
    ensures
        match r {
            Some(j) => find_answer_start(v@, k as nat) == Some(j as nat),
            None => find_answer_start(v@, k as nat) is None,
        },
{
    let mut i: usize = k;
    while i < v.len()
        invariant
            k <= i,
            find_answer_start(v@, k as nat) == find_answer_start(v@, i as nat),
        decreases v.len() - i,
    {
        let c = v[i];
        if c == '{' || c == '[' || c == '`' {
            return Some(i);
        }
        i = i + 1;
    }
    None
}

/// `v` with every reasoning block removed.
fn strip_thinking_chars(v: Vec<char>) -> (r: Vec<char>)
    ensures
        r@ == strip_thinking(v@),
{
    let open = open_tag_chars();
    let close = close_tag_chars();
    let mut cur = v;
    loop
        invariant
            open@ == open_tag(),
            close@ == close_tag(),
            strip_thinking(cur@) == strip_thinking(v@),
        decreases cur@.len(),
    {
        proof {
            lemma_find(cur@, open_tag());
            lemma_find(cur@, close_tag());
            assert(open_tag().len() == 7);
            assert(close_tag().len() == 8);
        }
        match find_in(&cur, &open, 0) {
            Some(o) => {
                proof {
                    lemma_find_from(cur@, close_tag(), (o + 7) as nat);
                    lemma_find_answer_start(cur@, (o + 7) as nat);
                }
                match find_in(&cur, &close, o + 7) {
                    Some(c) => {
                        cur = remove_range(&cur, o, c + 8);
                    },
                    None => match answer_start_in(&cur, o + 7) {
                        Some(j) => {
                            cur = remove_range(&cur, o, j);
                        },
                        None => {
                            let ghost before = cur@;
                            cur = subvec(&cur, 0, o);
                            assert(cur@ =~= before.take(o as int));
                        },
                    },
                }
            },
            None => match find_in(&cur, &close, 0) {
                Some(c) => {
                    cur = remove_range(&cur, c, c + 8);
                },
                None => {
                    return cur;
                },
            },
        }
    }
}

/// Strips `<think>...</think>` blocks, unclosed `<think>...` blocks and
/// stray `</think>` tags from model output.
pub fn strip_thinking_tags(s: &str) -> (r: String)
    ensures
        r@ == strip_thinking(s@),
        r@.len() <= s@.len(),
        !contains(r@, open_tag()),
        !contains(r@, close_tag()),
{
    proof {
        lemma_strip_thinking_clean(s@);
        lemma_strip_thinking_shorter(s@);
    }
    let v = strip_thinking_chars(chars_of(s));
    string_of(v.as_slice())
}

/// `s` without one leading line feed.
pub open spec fn drop_newline(s: Seq<char>) -> Seq<char> {
    if s.len() > 0 && s[0] == '\n' {
        s.drop_first()
    } else {
        s
    }
}

/// The trimmed inside of a fence opened by `opener` and closed by three
/// backticks at the very end of `w`; one line feed right after the opener
/// is dropped.
pub open spec fn unfence(w: Seq<char>, opener: Seq<char>) -> Option<Seq<char>> {
    if starts_with(w, opener) {
        let rest = drop_newline(w.skip(opener.len() as int));
        if ends_with(rest, fence()) {
            Some(trim(rest.take(rest.len() - 3)))
        } else {
            None
        }
    } else {
        None
    }
}

/// Model output with reasoning blocks and a surrounding code fence removed:
/// the input is trimmed, its reasoning blocks are removed, the rest is
/// trimmed again; a ```json fence, or else a plain ``` fence, around the
/// whole of it is then taken off.
pub open spec fn markdown_stripped(s: Seq<char>) -> Seq<char> {
    let w = trim(strip_thinking(trim(s)));
    match unfence(w, json_fence()) {
        Some(inner) => inner,
        None => match unfence(w, fence()) {
            Some(inner) => inner,
            None => w,
        },
    }
}

proof fn lemma_clean_subrange(s: Seq<char>, lo: int, hi: int)
    requires
        0 <= lo <= hi <= s.len(),
        !contains(s, open_tag()),
        !contains(s, close_tag()),
    ensures
        !contains(s.subrange(lo, hi), open_tag()),
        !contains(s.subrange(lo, hi), close_tag()),
{
    if contains(s.subrange(lo, hi), open_tag()) {
        lemma_contains_subrange(s, lo, hi, open_tag());
    }
    if contains(s.subrange(lo, hi), close_tag()) {
        lemma_contains_subrange(s, lo, hi, close_tag());
    }
}

proof fn lemma_clean_trim(s: Seq<char>)
    requires
        !contains(s, open_tag()),
        !contains(s, close_tag()),
    ensures
        !contains(trim(s), open_tag()),
        !contains(trim(s), close_tag()),
{
    let (a, b) = lemma_trim_shape(s);
    lemma_clean_subrange(s, a as int, b as int);
}

proof fn lemma_unfence_props(w: Seq<char>, opener: Seq<char>)
    requires
        !contains(w, open_tag()),
        !contains(w, close_tag()),
    ensures
        unfence(w, opener) matches Some(inner) ==> trim(inner) == inner && !contains(
            inner,
            open_tag(),
        ) && !contains(inner, close_tag()),
{
    if starts_with(w, opener) {
        let after = w.skip(opener.len() as int);
        assert(after == w.subrange(opener.len() as int, w.len() as int));
        lemma_clean_subrange(w, opener.len() as int, w.len() as int);
        let rest = drop_newline(after);
        if after.len() > 0 && after[0] == '\n' {
            assert(rest == after.subrange(1, after.len() as int));
            lemma_clean_subrange(after, 1, after.len() as int);
        }
        if ends_with(rest, fence()) {
            let body = rest.take(rest.len() - 3);
            assert(body == rest.subrange(0, rest.len() - 3));
            lemma_clean_subrange(rest, 0, rest.len() - 3);
            lemma_clean_trim(body);
            lemma_trim_idempotent(body);
        }
    }
}

/// What is left after cleaning is trimmed and holds no reasoning tag.
pub proof fn lemma_markdown_stripped_clean(s: Seq<char>)
    ensures
        trim(markdown_stripped(s)) == markdown_stripped(s),
        !contains(markdown_stripped(s), open_tag()),
        !contains(markdown_stripped(s), close_tag()),
{
    let u = strip_thinking(trim(s));
    lemma_strip_thinking_clean(trim(s));
    lemma_clean_trim(u);
    lemma_trim_idempotent(u);
    let w = trim(u);
    lemma_unfence_props(w, json_fence());
    lemma_unfence_props(w, fence());
}

/// Text that, once trimmed, holds no reasoning tag and does not open with
/// a fence comes back trimmed and otherwise unchanged.
pub proof fn lemma_markdown_stripped_plain(s: Seq<char>)
    requires
        !contains(trim(s), open_tag()),
        !contains(trim(s), close_tag()),
        !starts_with(trim(s), fence()),
    ensures
        markdown_stripped(s) == trim(s),
{
    lemma_strip_thinking_tag_free(trim(s));
    lemma_trim_idempotent(s);
    let w = trim(s);
    if starts_with(w, json_fence()) {
        assert(json_fence().len() == 7);
        assert(w.take(3) =~= w.take(7).take(3));
        assert(json_fence().take(3) =~= fence());
        assert(starts_with(w, fence()));
    }
}

fn fence_chars() -> (v: Vec<char>)
    ensures
        v@ == fence(),
{
    let v: Vec<char> = vec!['`', '`', '`'];
    assert(v@ =~= fence());
    v
}

fn json_fence_chars() -> (v: Vec<char>)
    ensures
        v@ == json_fence(),
{
    let v: Vec<char> = vec!['`', '`', '`', 'j', 's', 'o', 'n'];
    assert(v@ =~= json_fence());
    v
}

/// Executable `unfence`.
fn unfence_chars(w: &Vec<char>, opener: &Vec<char>) -> (r: Option<Vec<char>>)
    ensures
        match r {
            Some(x) => unfence(w@, opener@) == Some(x@),
            None => unfence(w@, opener@) is None,
        },
{
    if !matches_at(w, opener, 0) {
        assert(starts_with(w@, opener@) ==> w@.subrange(0, opener@.len() as int) =~= w@.take(
            opener@.len() as int,
        ));
        return None;
    }
    assert(w@.subrange(0, opener@.len() as int) =~= w@.take(opener@.len() as int));
    let mut start: usize = opener.len();
    if start < w.len() && w[start] == '\n' {
        start = start + 1;
    }
    let ghost after = w@.skip(opener@.len() as int);
    let ghost rest = drop_newline(after);
    assert(rest =~= w@.subrange(start as int, w@.len() as int));
    let closer = fence_chars();
    if w.len() - start >= 3 && matches_at(w, &closer, w.len() - 3) {
        assert(rest.skip(rest.len() - 3) =~= w@.subrange(w.len() - 3, w.len() as int));
        let body = subvec(w, start, w.len() - 3);
        assert(body@ =~= rest.take(rest.len() - 3));
        Some(trimmed(&body))
    } else {
        assert(ends_with(rest, fence()) ==> rest.skip(rest.len() - 3) =~= w@.subrange(
            w.len() - 3,
            w.len() as int,
        ));
        None
    }
}

/// Strips reasoning tags (`<think>` and `</think>`) and markdown fences
/// from model output.
pub fn strip_markdown_fences(s: &str) -> (r: String)
    ensures
        r@ == markdown_stripped(s@),
        trim(r@) == r@,
        !contains(r@, open_tag()),
        !contains(r@, close_tag()),
{
    proof {
        lemma_markdown_stripped_clean(s@);
    }
    let v = chars_of(s);
    let without_thinking = strip_thinking_chars(trimmed(&v));
    let w = trimmed(&without_thinking);
    if let Some(inner) = unfence_chars(&w, &json_fence_chars()) {
        return string_of(inner.as_slice());
    }
    if let Some(inner) = unfence_chars(&w, &fence_chars()) {
        return string_of(inner.as_slice());
    }
    string_of(w.as_slice())
}

/// The hint appended to the user prompt when the first answer did not
/// parse as JSON.
pub fn json_retry_hint() -> (r: &'static str)
    ensures
        r@ == "\n\nYour previous response was not valid JSON. Return ONLY valid JSON."@,
{
    "\n\nYour previous response was not valid JSON. Return ONLY valid JSON."
}

/// Where a JSON completion stands.
#[derive(Clone, Copy, PartialEq, Eq, Debug)]
pub enum JsonCompletionPhase {
    /// A prompt was sent; the model's answer is awaited.
    AwaitAnswer,
    /// A cleaned answer was handed out for parsing; the outcome is awaited.
    AwaitParse,
    /// The completion is over.
    Finished,
}

/// What the driver of a JSON completion is to do next.
#[derive(Debug)]
pub enum JsonCompletionAction {
    /// Send this system prompt and this user prompt to the model.
    Ask(String, String),
    /// Parse this text as the requested type.
    Parse(String),
    /// The text last handed out parsed: its value is the result.
    Finish,
    /// Stop with this error.
    Fail(OmemError),
}

/// What the driver of a JSON completion observed.
#[derive(Debug)]
pub enum JsonCompletionEvent {
    /// The model answered with this text.
    Answered(String),
    /// The model call failed with this error.
    Failed(OmemError),
    /// The text handed out parsed.
    Parsed,
    /// The text handed out did not parse; the parser said this.
    Unparsable(String),
}

/// A completion whose answer must parse as JSON, retried once with a hint
/// when it does not.
pub struct JsonCompletion {
    system: String,
    user: String,
    asked: u8,
    phase: JsonCompletionPhase,
}

impl JsonCompletion {
    /// The system prompt every ask is sent with.
    pub closed spec fn system_prompt(&self) -> Seq<char> {
        self.system@
    }

    /// The user prompt the completion started from.
    pub closed spec fn user_prompt(&self) -> Seq<char> {
        self.user@
    }

    /// How many times the model was asked so far.
    pub closed spec fn asked_count(&self) -> nat {
        self.asked as nat
    }

    /// Where the completion stands.
    pub closed spec fn phase_of(&self) -> JsonCompletionPhase {
        self.phase
    }

    /// The model is asked once, and a second time only after an answer that
    /// did not parse.
    #[verifier::type_invariant]
    spec fn asked_once_or_twice(&self) -> bool {
        1 <= self.asked <= 2
    }

    /// Whether `ev` is an event that can follow in the current phase.
    pub open spec fn accepts_spec(&self, ev: &JsonCompletionEvent) -> bool {
        match self.phase_of() {
            JsonCompletionPhase::AwaitAnswer => ev is Answered || ev is Failed,
            JsonCompletionPhase::AwaitParse => ev is Parsed || ev is Unparsable,
            JsonCompletionPhase::Finished => false,
        }
    }

    /// Starts a completion of `user`: the model is asked with it unchanged.
    pub fn start(system: &str, user: &str) -> (r: (JsonCompletion, JsonCompletionAction))
        ensures
            r.0.system_prompt() == system@,
            r.0.user_prompt() == user@,
            r.0.asked_count() == 1,
            r.0.phase_of() == JsonCompletionPhase::AwaitAnswer,
            r.1 matches JsonCompletionAction::Ask(sys, u) && sys@ == system@ && u@ == user@,
    {
        let c = JsonCompletion {
            system: String::from_str(system),
            user: String::from_str(user),
            asked: 1,
            phase: JsonCompletionPhase::AwaitAnswer,
        };
        (c, JsonCompletionAction::Ask(String::from_str(system), String::from_str(user)))
    }

    /// How many times the model was asked so far.
    pub fn asked(&self) -> (n: u8)
        ensures
            n == self.asked_count(),
    {
        self.asked
    }

    /// Where the completion stands.
    pub fn phase(&self) -> (p: JsonCompletionPhase)
        ensures
            p == self.phase_of(),
    {
        self.phase
    }

    /// Whether `ev` is an event that can follow in the current phase.
    pub fn accepts(&self, ev: &JsonCompletionEvent) -> (b: bool)
        ensures
            b == self.accepts_spec(ev),
    {
        match self.phase {
            JsonCompletionPhase::AwaitAnswer => match ev {
                JsonCompletionEvent::Answered(_) | JsonCompletionEvent::Failed(_) => true,
                _ => false,
            },
            JsonCompletionPhase::AwaitParse => match ev {
                JsonCompletionEvent::Parsed | JsonCompletionEvent::Unparsable(_) => true,
                _ => false,
            },
            JsonCompletionPhase::Finished => false,
        }
    }

    /// Advances the completion by one observed event.
    ///
    /// An answer is cleaned of reasoning blocks and fences and handed out
    /// for parsing; a model failure ends the completion with that error; a
    /// successful parse finishes it; a failed parse asks again, with the
    /// retry hint appended to the user prompt, the first time, and ends
    /// with an `Llm` error the second time.
    pub fn step(&mut self, ev: JsonCompletionEvent) -> (action: JsonCompletionAction)
        requires
            old(self).accepts_spec(&ev),
        ensures
            1 <= final(self).asked_count() <= 2,
            final(self).system_prompt() == old(self).system_prompt(),
            final(self).user_prompt() == old(self).user_prompt(),
            action matches JsonCompletionAction::Ask(sys, _) ==> sys@ == old(self).system_prompt()
                && old(self).asked_count() == 1 && final(self).asked_count() == 2,
            !(action is Ask) ==> final(self).asked_count() == old(self).asked_count(),
            match ev {
                JsonCompletionEvent::Answered(t) => {
                    &&& action matches JsonCompletionAction::Parse(p) && p@ == markdown_stripped(t@)
                    &&& final(self).phase_of() == JsonCompletionPhase::AwaitParse
                    &&& final(self).asked_count() == old(self).asked_count()
                },
                JsonCompletionEvent::Failed(e) => {
                    &&& action == JsonCompletionAction::Fail(e)
                    &&& final(self).phase_of() == JsonCompletionPhase::Finished
                    &&& final(self).asked_count() == old(self).asked_count()
                },
                JsonCompletionEvent::Parsed => {
                    &&& action is Finish
                    &&& final(self).phase_of() == JsonCompletionPhase::Finished
                    &&& final(self).asked_count() == old(self).asked_count()
                },
                JsonCompletionEvent::Unparsable(m) => if old(self).asked_count() == 1 {
                    &&& action matches JsonCompletionAction::Ask(_, u) && u@ == old(self).user_prompt()
                        + "\n\nYour previous response was not valid JSON. Return ONLY valid JSON."@
                    &&& final(self).phase_of() == JsonCompletionPhase::AwaitAnswer
                    &&& final(self).asked_count() == 2
                } else {
                    &&& action matches JsonCompletionAction::Fail(OmemError::Llm(msg)) && msg@
                        == "JSON parse failed after retry: "@ + m@
                    &&& final(self).phase_of() == JsonCompletionPhase::Finished
                    &&& final(self).asked_count() == old(self).asked_count()
                },
            },
    {
        proof {
            use_type_invariant(&*self);
        }
        match ev {
            JsonCompletionEvent::Answered(t) => {
                self.phase = JsonCompletionPhase::AwaitParse;
                JsonCompletionAction::Parse(strip_markdown_fences(t.as_str()))
            },
            JsonCompletionEvent::Failed(e) => {
                self.phase = JsonCompletionPhase::Finished;
                JsonCompletionAction::Fail(e)
            },
            JsonCompletionEvent::Parsed => {
                self.phase = JsonCompletionPhase::Finished;
                JsonCompletionAction::Finish
            },
            JsonCompletionEvent::Unparsable(m) => {
                if self.asked == 1 {
                    self.asked = 2;
                    self.phase = JsonCompletionPhase::AwaitAnswer;
                    JsonCompletionAction::Ask(
                        self.system.clone(),
                        join(self.user.as_str(), json_retry_hint()),
                    )
                } else {
                    self.phase = JsonCompletionPhase::Finished;
                    JsonCompletionAction::Fail(
                        OmemError::Llm(join("JSON parse failed after retry: ", m.as_str())),
                    )
                }
            },
        }
    }
}

} // verus!
