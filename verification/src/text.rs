//! Character-level text primitives shared by the version parser and the
//! docblock scanners: whitespace, trimming, searching, decimal numbers.
use vstd::prelude::*;

verus! {

broadcast use vstd::string::group_string_axioms;

/// Unicode `White_Space`, the property that `char::is_whitespace` tests.
pub open spec fn is_ws(c: char) -> bool {
    ||| ('\u{9}' <= c && c <= '\u{d}')
    ||| c == ' '
    ||| c == '\u{85}'
    ||| c == '\u{a0}'
    ||| c == '\u{1680}'
    ||| ('\u{2000}' <= c && c <= '\u{200a}')
    ||| c == '\u{2028}'
    ||| c == '\u{2029}'
    ||| c == '\u{202f}'
    ||| c == '\u{205f}'
    ||| c == '\u{3000}'
}

pub fn is_whitespace(c: char) -> (r: bool)
    ensures
        r == is_ws(c),
{
    ('\u{9}' <= c && c <= '\u{d}') || c == ' ' || c == '\u{85}' || c == '\u{a0}' || c
        == '\u{1680}' || ('\u{2000}' <= c && c <= '\u{200a}') || c == '\u{2028}' || c
        == '\u{2029}' || c == '\u{202f}' || c == '\u{205f}' || c == '\u{3000}'
}

pub open spec fn is_digit(c: char) -> bool {
    '0' <= c && c <= '9'
}

/// Number of leading whitespace characters of `s`.
pub open spec fn lead_ws(s: Seq<char>) -> nat
    decreases s.len(),
{
    if s.len() > 0 && is_ws(s[0]) {
        1 + lead_ws(s.drop_first())
    } else {
        0
    }
}

/// Number of trailing whitespace characters of `s`.
pub open spec fn trail_ws(s: Seq<char>) -> nat
    decreases s.len(),
{
    if s.len() > 0 && is_ws(s.last()) {
        1 + trail_ws(s.drop_last())
    } else {
        0
    }
}

pub open spec fn trim_start(s: Seq<char>) -> Seq<char> {
    s.skip(lead_ws(s) as int)
}

pub open spec fn trim_end(s: Seq<char>) -> Seq<char> {
    s.take(s.len() - trail_ws(s))
}

/// What `str::trim` leaves of `s`.
pub open spec fn trim(s: Seq<char>) -> Seq<char> {
    trim_end(trim_start(s))
}

pub proof fn lemma_lead_ws_bound(s: Seq<char>)
    ensures
        lead_ws(s) <= s.len(),
        forall|i: int| 0 <= i < lead_ws(s) ==> is_ws(#[trigger] s[i]),
        lead_ws(s) < s.len() ==> !is_ws(s[lead_ws(s) as int]),
    decreases s.len(),
{
    if s.len() > 0 && is_ws(s[0]) {
        lemma_lead_ws_bound(s.drop_first());
        assert forall|i: int| 0 <= i < lead_ws(s) implies is_ws(#[trigger] s[i]) by {
            if i > 0 {
                assert(s[i] == s.drop_first()[i - 1]);
            }
        }
        if lead_ws(s) < s.len() {
            assert(s[lead_ws(s) as int] == s.drop_first()[lead_ws(s.drop_first()) as int]);
        }
    }
}

pub proof fn lemma_trail_ws_bound(s: Seq<char>)
    ensures
        trail_ws(s) <= s.len(),
        forall|i: int| s.len() - trail_ws(s) <= i < s.len() ==> is_ws(#[trigger] s[i]),
        trail_ws(s) < s.len() ==> !is_ws(s[s.len() - trail_ws(s) - 1]),
    decreases s.len(),
{
    if s.len() > 0 && is_ws(s.last()) {
        lemma_trail_ws_bound(s.drop_last());
        assert forall|i: int| s.len() - trail_ws(s) <= i < s.len() implies is_ws(
            #[trigger] s[i],
        ) by {
            if i < s.len() - 1 {
                assert(s[i] == s.drop_last()[i]);
            }
        }
        if trail_ws(s) < s.len() {
            assert(s[s.len() - trail_ws(s) - 1] == s.drop_last()[s.drop_last().len() - trail_ws(
                s.drop_last(),
            ) - 1]);
        }
    }
}

/// `lead_ws` is determined by the first non-blank position.
pub proof fn lemma_lead_ws_char(s: Seq<char>, k: int)
    requires
        0 <= k <= s.len(),
        forall|i: int| 0 <= i < k ==> is_ws(#[trigger] s[i]),
        k < s.len() ==> !is_ws(s[k]),
    ensures
        lead_ws(s) == k,
    decreases s.len(),
{
    if k > 0 {
        assert(is_ws(s[0]));
        assert forall|i: int| 0 <= i < k - 1 implies is_ws(#[trigger] s.drop_first()[i]) by {
            assert(s.drop_first()[i] == s[i + 1]);
        }
        if k - 1 < s.drop_first().len() {
            assert(s.drop_first()[k - 1] == s[k]);
        }
        lemma_lead_ws_char(s.drop_first(), k - 1);
    }
}

/// `trail_ws` is determined by the last non-blank position.
pub proof fn lemma_trail_ws_char(s: Seq<char>, k: int)
    requires
        0 <= k <= s.len(),
        forall|i: int| s.len() - k <= i < s.len() ==> is_ws(#[trigger] s[i]),
        k < s.len() ==> !is_ws(s[s.len() - k - 1]),
    ensures
        trail_ws(s) == k,
    decreases s.len(),
{
    if k > 0 {
        assert(is_ws(s[s.len() - 1]));
        assert forall|i: int| s.drop_last().len() - (k - 1) <= i < s.drop_last().len() implies is_ws(
            #[trigger] s.drop_last()[i],
        ) by {
            assert(s.drop_last()[i] == s[i]);
        }
        if k - 1 < s.drop_last().len() {
            assert(s.drop_last()[s.drop_last().len() - (k - 1) - 1] == s[s.len() - k - 1]);
        }
        lemma_trail_ws_char(s.drop_last(), k - 1);
    }
}

/// Bounds `(start, end)` such that `s[start..end]` is `trim(s)`.
pub fn trim_bounds(s: &[char]) -> (r: (usize, usize))
    ensures
        r.0 <= r.1 <= s@.len(),
        s@.subrange(r.0 as int, r.1 as int) == trim(s@),
        r.0 == lead_ws(s@),
{
    let r = trim_range(s, 0, s.len());
    proof {
        assert(s@.subrange(0, s@.len() as int) =~= s@);
    }
    r
}

/// Bounds `(a, b)` such that `s[a..b]` is `trim(s[from..to])`.
pub fn trim_range(s: &[char], from: usize, to: usize) -> (r: (usize, usize))
    requires
        from <= to <= s@.len(),
    ensures
        from <= r.0 <= r.1 <= to,
        s@.subrange(r.0 as int, r.1 as int) == trim(s@.subrange(from as int, to as int)),
        r.0 - from == lead_ws(s@.subrange(from as int, to as int)),
{
    let ghost u = s@.subrange(from as int, to as int);
    let mut i: usize = from;
    while i < to && is_whitespace(s[i])
        invariant
            from <= i <= to <= s@.len(),
            forall|k: int| from <= k < i ==> is_ws(#[trigger] s@[k]),
        decreases to - i,
    {
        i = i + 1;
    }
    proof {
        assert forall|k: int| 0 <= k < i - from implies is_ws(#[trigger] u[k]) by {
            assert(u[k] == s@[k + from]);
        }
        if i < to {
            assert(u[i - from] == s@[i as int]);
        }
        lemma_lead_ws_char(u, i - from);
    }
    let mut j: usize = to;
    while j > i && is_whitespace(s[j - 1])
        invariant
            from <= i <= j <= to <= s@.len(),
            forall|k: int| j <= k < to ==> is_ws(#[trigger] s@[k]),
        decreases j,
    {
        j = j - 1;
    }
    proof {
        let t = u.skip(i - from);
        let k = (to - j) as int;
        assert forall|x: int| t.len() - k <= x < t.len() implies is_ws(#[trigger] t[x]) by {
            assert(t[x] == s@[x + i]);
        }
        if k < t.len() {
            assert(t[t.len() - k - 1] == s@[j - 1]);
        }
        lemma_trail_ws_char(t, k);
        assert(s@.subrange(i as int, j as int) =~= t.take(t.len() - trail_ws(t)));
    }
    (i, j)
}

/// Index of the first `c` in `s`, or `s.len()` when there is none.
pub open spec fn find_char(s: Seq<char>, c: char) -> nat
    decreases s.len(),
{
    if s.len() == 0 {
        0
    } else if s[0] == c {
        0
    } else {
        1 + find_char(s.drop_first(), c)
    }
}

pub proof fn lemma_find_char(s: Seq<char>, c: char)
    ensures
        find_char(s, c) <= s.len(),
        forall|i: int| 0 <= i < find_char(s, c) ==> #[trigger] s[i] != c,
        find_char(s, c) < s.len() ==> s[find_char(s, c) as int] == c,
    decreases s.len(),
{
    if s.len() > 0 && s[0] != c {
        lemma_find_char(s.drop_first(), c);
        assert forall|i: int| 0 <= i < find_char(s, c) implies #[trigger] s[i] != c by {
            if i > 0 {
                assert(s[i] == s.drop_first()[i - 1]);
            }
        }
        if find_char(s, c) < s.len() {
            assert(s[find_char(s, c) as int] == s.drop_first()[find_char(s.drop_first(), c) as int]);
        }
    }
}

pub proof fn lemma_find_char_at(s: Seq<char>, c: char, k: int)
    requires
        0 <= k <= s.len(),
        forall|i: int| 0 <= i < k ==> #[trigger] s[i] != c,
        k < s.len() ==> s[k] == c,
    ensures
        find_char(s, c) == k,
    decreases s.len(),
{
    if k > 0 {
        assert(s[0] != c);
        assert forall|i: int| 0 <= i < k - 1 implies #[trigger] s.drop_first()[i] != c by {
            assert(s.drop_first()[i] == s[i + 1]);
        }
        if k - 1 < s.drop_first().len() {
            assert(s.drop_first()[k - 1] == s[k]);
        }
        lemma_find_char_at(s.drop_first(), c, k - 1);
    }
}

/// Position of the first `c` in `s[from..to]`, as an index into `s`
/// (`to` when there is none).
pub fn find_char_in(s: &[char], from: usize, to: usize, c: char) -> (r: usize)
    requires
        from <= to <= s@.len(),
    ensures
        from <= r <= to,
        r - from == find_char(s@.subrange(from as int, to as int), c),
        r < to ==> s@[r as int] == c,
{
    let mut i = from;
    while i < to && s[i] != c
        invariant
            from <= i <= to <= s@.len(),
            forall|k: int| from <= k < i ==> #[trigger] s@[k] != c,
        decreases to - i,
    {
        i = i + 1;
    }
    proof {
        let t = s@.subrange(from as int, to as int);
        assert forall|k: int| 0 <= k < i - from implies #[trigger] t[k] != c by {
            assert(t[k] == s@[k + from]);
        }
        lemma_find_char_at(t, c, i - from);
    }
    i
}

/// First index in `[from, n)` where `p` holds (`n` if none).
pub open spec fn first_where(n: int, p: spec_fn(int) -> bool, from: int) -> int
    decreases n - from,
{
    if from >= n {
        n
    } else if p(from) {
        from
    } else {
        first_where(n, p, from + 1)
    }
}

pub proof fn lemma_first_where_at(n: int, p: spec_fn(int) -> bool, from: int, k: int)
    requires
        from <= k <= n,
        forall|x: int| from <= x < k ==> !#[trigger] p(x),
        k < n ==> p(k),
    ensures
        first_where(n, p, from) == k,
    decreases k - from,
{
    if from < k {
        lemma_first_where_at(n, p, from + 1, k);
    }
}

pub proof fn lemma_first_where_bounds(n: int, p: spec_fn(int) -> bool, from: int)
    requires
        from <= n,
    ensures
        from <= first_where(n, p, from) <= n,
        first_where(n, p, from) < n ==> p(first_where(n, p, from)),
        forall|x: int| from <= x < first_where(n, p, from) ==> !#[trigger] p(x),
    decreases n - from,
{
    if from < n && !p(from) {
        lemma_first_where_bounds(n, p, from + 1);
    }
}

/// `pat` occurs in `s` at position `i`.
pub open spec fn starts_at(s: Seq<char>, i: int, pat: Seq<char>) -> bool {
    0 <= i && i + pat.len() <= s.len() && s.subrange(i, i + pat.len()) == pat
}

/// `s[i..]` begins with `pat`.
pub fn has_at(s: &[char], i: usize, pat: &[char]) -> (r: bool)
    requires
        i <= s@.len(),
    ensures
        r == starts_at(s@, i as int, pat@),
{
    if pat.len() > s.len() - i {
        return false;
    }
    let mut k: usize = 0;
    while k < pat.len()
        invariant
            k <= pat@.len(),
            i <= s@.len(),
            i + pat@.len() <= s@.len(),
            forall|j: int| 0 <= j < k ==> s@[i + j] == pat@[j],
        decreases pat.len() - k,
    {
        assert(i + k < s.len());
        if s[i + k] != pat[k] {
            proof {
                assert(s@.subrange(i as int, i + pat@.len())[k as int] != pat@[k as int]);
            }
            return false;
        }
        k = k + 1;
    }
    proof {
        assert(s@.subrange(i as int, i + pat@.len()) =~= pat@);
    }
    true
}


/// The whitespace-separated words of `s`, as `str::split_whitespace`
/// yields them.
pub open spec fn words(s: Seq<char>) -> Seq<Seq<char>>
    decreases s.len(),
{
    let t = trim_start(s);
    if t.len() == 0 {
        seq![]
    } else {
        let k = first_where(t.len() as int, |i: int| is_ws(t[i]), 0);
        proof {
            lemma_lead_ws_bound(s);
            lemma_first_where_bounds(t.len() as int, |i: int| is_ws(t[i]), 0);
            if k == 0 {
                assert(!is_ws(t[0]));
            }
        }
        seq![t.take(k)] + words(t.skip(k))
    }
}

pub proof fn lemma_words_skip_ws(s: Seq<char>, i: int)
    requires
        0 <= i < s.len(),
        is_ws(s[i]),
    ensures
        words(s.skip(i)) == words(s.skip(i + 1)),
{
    let u = s.skip(i);
    let v = s.skip(i + 1);
    assert(u[0] == s[i]);
    assert(u.drop_first() =~= v);
    lemma_lead_ws_bound(v);
    assert(lead_ws(u) == 1 + lead_ws(v));
    assert(trim_start(u) =~= trim_start(v));
}

pub proof fn lemma_words_at_word(s: Seq<char>, i: int, e: int)
    requires
        0 <= i < e <= s.len(),
        forall|k: int| i <= k < e ==> !is_ws(#[trigger] s[k]),
        e < s.len() ==> is_ws(s[e]),
    ensures
        words(s.skip(i)) == seq![s.subrange(i, e)] + words(s.skip(e)),
{
    let u = s.skip(i);
    assert(u[0] == s[i]);
    lemma_lead_ws_char(u, 0);
    assert(trim_start(u) =~= u);
    assert forall|x: int| 0 <= x < e - i implies !is_ws(#[trigger] u[x]) by {
        assert(u[x] == s[i + x]);
    }
    if e < s.len() {
        assert(u[e - i] == s[e]);
    }
    lemma_first_where_at(u.len() as int, |x: int| is_ws(u[x]), 0, e - i);
    assert(u.take(e - i) =~= s.subrange(i, e));
    assert(u.skip(e - i) =~= s.skip(e));
}

/// The first word of `s` is no longer than `s`.
pub proof fn lemma_first_word_len(s: Seq<char>)
    requires
        words(s).len() > 0,
    ensures
        words(s)[0].len() <= s.len(),
{
    let t = trim_start(s);
    lemma_lead_ws_bound(s);
    lemma_first_where_bounds(t.len() as int, |i: int| is_ws(t[i]), 0);
}

/// `str::split_whitespace` over `s[from..to]`.
pub fn split_words(s: &[char], from: usize, to: usize) -> (r: Vec<Vec<char>>)
    requires
        from <= to <= s@.len(),
    ensures
        r@.map_values(|v: Vec<char>| v@) == words(s@.subrange(from as int, to as int)),
{
    let ghost t = s@.subrange(from as int, to as int);
    let mut out: Vec<Vec<char>> = Vec::new();
    let ghost mut done: Seq<Seq<char>> = Seq::empty();
    let mut i = from;
    proof {
        assert(t.skip(0) =~= t);
    }
    while i < to
        invariant
            from <= i <= to <= s@.len(),
            t == s@.subrange(from as int, to as int),
            words(t) == done + words(t.skip(i - from)),
            out@.len() == done.len(),
            forall|k: int| 0 <= k < done.len() ==> (#[trigger] out@[k])@ == done[k],
        decreases to - i,
    {
        if is_whitespace(s[i]) {
            proof {
                assert(t[i - from] == s@[i as int]);
                lemma_words_skip_ws(t, i - from);
            }
            i = i + 1;
        } else {
            let start = i;
            while i < to && !is_whitespace(s[i])
                invariant
                    from <= start < to <= s@.len(),
                    start <= i <= to,
                    forall|k: int| start <= k < i ==> !is_ws(#[trigger] s@[k]),
                decreases to - i,
            {
                i = i + 1;
            }
            proof {
                assert forall|k: int| start - from <= k < i - from implies !is_ws(#[trigger] t[k]) by {
                    assert(t[k] == s@[k + from]);
                }
                if i < to {
                    assert(t[i - from] == s@[i as int]);
                }
                lemma_words_at_word(t, start - from, i - from);
                assert(t.subrange(start - from, i - from) =~= s@.subrange(start as int, i as int));
            }
            let w = copy_range(s, start, i);
            let ghost pv = out@;
            let ghost od = done;
            out.push(w);
            proof {
                done = done.push(s@.subrange(start as int, i as int));
                assert(words(t) =~= done + words(t.skip(i - from)));
                assert forall|k: int| 0 <= k < done.len() implies (#[trigger] out@[k])@ == done[k] by {
                    if k < od.len() {
                        assert(out@[k] == pv[k]);
                        assert(done[k] == od[k]);
                    }
                }
            }
        }
    }
    proof {
        let e = t.skip(i - from);
        assert(e.len() == 0);
        assert(lead_ws(e) == 0);
        assert(words(e) =~= Seq::<Seq<char>>::empty());
        assert(out@.map_values(|v: Vec<char>| v@) =~= done);
    }
    out
}

/// `pat` occurs somewhere in `s`.
pub open spec fn contains_sub(s: Seq<char>, pat: Seq<char>) -> bool {
    exists|i: int| starts_at(s, i, pat)
}

/// First position of `pat` in `s` (`s.len()` if it does not occur).
pub open spec fn find_sub(s: Seq<char>, pat: Seq<char>) -> int {
    first_where(s.len() as int, |i: int| starts_at(s, i, pat), 0)
}

/// Position of the first occurrence of `pat` in `s[from..]`, as an index
/// into `s` (`None` if there is none).
pub fn find_sub_from(s: &[char], from: usize, pat: &[char]) -> (r: Option<usize>)
    requires
        from <= s@.len(),
        pat@.len() > 0,
    ensures
        ({
            let t = s@.skip(from as int);
            let k = find_sub(t, pat@);
            &&& k <= t.len()
            &&& (r matches Some(i) ==> i - from == k && k < t.len())
            &&& (r is None ==> k == t.len())
            &&& contains_sub(t, pat@) <==> r is Some
        }),
{
    let ghost t = s@.skip(from as int);
    let ghost p = |i: int| starts_at(t, i, pat@);
    let mut i = from;
    while i < s.len()
        invariant
            from <= i <= s@.len(),
            t == s@.skip(from as int),
            p == (|i: int| starts_at(t, i, pat@)),
            forall|k: int| 0 <= k < i - from ==> !#[trigger] p(k),
        decreases s.len() - i,
    {
        if has_at(s, i, pat) {
            proof {
                assert(t.subrange(i - from, i - from + pat@.len()) =~= s@.subrange(
                    i as int,
                    i + pat@.len(),
                ));
                lemma_first_where_at(t.len() as int, p, 0, i - from);
            }
            return Some(i);
        }
        proof {
            if i + pat@.len() <= s@.len() {
                assert(t.subrange(i - from, i - from + pat@.len()) =~= s@.subrange(
                    i as int,
                    i + pat@.len(),
                ));
            }
        }
        i = i + 1;
    }
    proof {
        lemma_first_where_at(t.len() as int, p, 0, t.len() as int);
        if contains_sub(t, pat@) {
            let w = choose|w: int| starts_at(t, w, pat@);
            assert(p(w));
        }
    }
    None
}


/// `s` ends with `pat`.
pub open spec fn ends_with(s: Seq<char>, pat: Seq<char>) -> bool {
    pat.len() <= s.len() && s.skip(s.len() - pat.len()) == pat
}

/// Last index in `[0, k)` where `p` holds, or `-1`.
pub open spec fn last_where(p: spec_fn(int) -> bool, k: int) -> int
    decreases k,
{
    if k <= 0 {
        -1
    } else if p(k - 1) {
        k - 1
    } else {
        last_where(p, k - 1)
    }
}

pub proof fn lemma_last_where(p: spec_fn(int) -> bool, k: int)
    ensures
        -1 <= last_where(p, k) < k || (k <= 0 && last_where(p, k) == -1),
        last_where(p, k) >= 0 ==> p(last_where(p, k)),
        forall|x: int| last_where(p, k) < x < k ==> !#[trigger] p(x),
    decreases k,
{
    if k > 0 && !p(k - 1) {
        lemma_last_where(p, k - 1);
    }
}

/// Start of the last occurrence of `pat` in `s` (`str::rfind`), or `-1`.
pub open spec fn rfind_sub(s: Seq<char>, pat: Seq<char>) -> int {
    last_where(|i: int| starts_at(s, i, pat), s.len() as int)
}

/// End index of `trim_end(s[0..to])`.
pub fn trim_end_at(s: &[char], to: usize) -> (r: usize)
    requires
        to <= s@.len(),
    ensures
        r <= to,
        s@.take(r as int) == trim_end(s@.take(to as int)),
{
    let ghost u = s@.take(to as int);
    let mut j: usize = to;
    while j > 0 && is_whitespace(s[j - 1])
        invariant
            j <= to <= s@.len(),
            forall|k: int| j <= k < to ==> is_ws(#[trigger] s@[k]),
        decreases j,
    {
        j = j - 1;
    }
    proof {
        let k = (to - j) as int;
        assert forall|x: int| u.len() - k <= x < u.len() implies is_ws(#[trigger] u[x]) by {
            assert(u[x] == s@[x]);
        }
        if k < u.len() {
            assert(u[u.len() - k - 1] == s@[j - 1]);
        }
        lemma_trail_ws_char(u, k);
        assert(s@.take(j as int) =~= u.take(u.len() - trail_ws(u)));
    }
    j
}

/// Whether `s[0..to]` ends with `pat`.
pub fn ends_with_at(s: &[char], to: usize, pat: &[char]) -> (r: bool)
    requires
        to <= s@.len(),
    ensures
        r == ends_with(s@.take(to as int), pat@),
{
    if pat.len() > to {
        return false;
    }
    let r = has_at(s, to - pat.len(), pat);
    proof {
        assert(s@.take(to as int).skip(to - pat@.len()) =~= s@.subrange(to - pat@.len(), to as int));
    }
    r
}

/// Start of the last `pat` within `s[0..to]`, or `None`.
pub fn rfind_at(s: &[char], to: usize, pat: &[char]) -> (r: Option<usize>)
    requires
        to <= s@.len(),
    ensures
        match r {
            Some(i) => i == rfind_sub(s@.take(to as int), pat@) && i >= 0,
            None => rfind_sub(s@.take(to as int), pat@) == -1,
        },
{
    let ghost u = s@.take(to as int);
    let ghost p = |i: int| starts_at(u, i, pat@);
    let mut k: usize = to;
    while k > 0
        invariant
            k <= to <= s@.len(),
            u == s@.take(to as int),
            p == (|i: int| starts_at(u, i, pat@)),
            last_where(p, to as int) == last_where(p, k as int),
        decreases k,
    {
        let i = k - 1;
        let hit = pat.len() <= to - i && has_at(s, i, pat);
        proof {
            if i + pat@.len() <= to {
                assert(u.subrange(i as int, i + pat@.len()) =~= s@.subrange(i as int, i + pat@.len()));
            }
        }
        if hit {
            return Some(i);
        }
        k = i;
    }
    None
}

/// Number of trailing ASCII letters of `s`.
pub open spec fn trail_alpha(s: Seq<char>) -> nat
    decreases s.len(),
{
    if s.len() > 0 && is_ascii_alpha(s.last()) {
        1 + trail_alpha(s.drop_last())
    } else {
        0
    }
}

pub open spec fn is_ascii_alpha(c: char) -> bool {
    ('a' <= c && c <= 'z') || ('A' <= c && c <= 'Z')
}

pub proof fn lemma_trail_alpha_char(s: Seq<char>, k: int)
    requires
        0 <= k <= s.len(),
        forall|i: int| s.len() - k <= i < s.len() ==> is_ascii_alpha(#[trigger] s[i]),
        k < s.len() ==> !is_ascii_alpha(s[s.len() - k - 1]),
    ensures
        trail_alpha(s) == k,
    decreases s.len(),
{
    if k > 0 {
        assert(is_ascii_alpha(s[s.len() - 1]));
        assert forall|i: int| s.drop_last().len() - (k - 1) <= i < s.drop_last().len() implies is_ascii_alpha(
            #[trigger] s.drop_last()[i],
        ) by {
            assert(s.drop_last()[i] == s[i]);
        }
        if k - 1 < s.drop_last().len() {
            assert(s.drop_last()[s.drop_last().len() - (k - 1) - 1] == s[s.len() - k - 1]);
        }
        lemma_trail_alpha_char(s.drop_last(), k - 1);
    }
}

/// Start of the trailing run of ASCII letters of `s[0..to]`.
pub fn trailing_alpha_start(s: &[char], to: usize) -> (r: usize)
    requires
        to <= s@.len(),
    ensures
        r <= to,
        to - r == trail_alpha(s@.take(to as int)),
{
    let ghost u = s@.take(to as int);
    let mut j = to;
    while j > 0 && (('a' <= s[j - 1] && s[j - 1] <= 'z') || ('A' <= s[j - 1] && s[j - 1] <= 'Z'))
        invariant
            j <= to <= s@.len(),
            forall|k: int| j <= k < to ==> is_ascii_alpha(#[trigger] s@[k]),
        decreases j,
    {
        j = j - 1;
    }
    proof {
        let k = (to - j) as int;
        assert forall|x: int| u.len() - k <= x < u.len() implies is_ascii_alpha(#[trigger] u[x]) by {
            assert(u[x] == s@[x]);
        }
        if k < u.len() {
            assert(u[u.len() - k - 1] == s@[j - 1]);
        }
        lemma_trail_alpha_char(u, k);
    }
    j
}

/// Decimal value of a run of ASCII digits.
pub open spec fn digits_value(s: Seq<char>) -> nat
    decreases s.len(),
{
    if s.len() == 0 {
        0
    } else {
        digits_value(s.drop_last()) * 10 + ((s.last() as nat) - ('0' as nat)) as nat
    }
}

pub open spec fn all_digits(s: Seq<char>) -> bool {
    forall|i: int| 0 <= i < s.len() ==> is_digit(#[trigger] s[i])
}

/// What `<u8 as FromStr>::from_str` accepts: an optional `+`, then one or
/// more ASCII digits whose value fits in a byte.
pub open spec fn parse_u8(s: Seq<char>) -> Option<u8> {
    let d = if s.len() > 0 && s[0] == '+' {
        s.drop_first()
    } else {
        s
    };
    if d.len() > 0 && all_digits(d) && digits_value(d) <= 255 {
        Some(digits_value(d) as u8)
    } else {
        None
    }
}

pub proof fn lemma_digits_value_monotone(s: Seq<char>, k: int)
    requires
        0 <= k <= s.len(),
        all_digits(s),
    ensures
        digits_value(s.take(k)) <= digits_value(s),
    decreases s.len(),
{
    if k < s.len() {
        assert(s.drop_last().take(k) == s.take(k));
        assert(all_digits(s.drop_last())) by {
            assert forall|i: int| 0 <= i < s.drop_last().len() implies is_digit(
                #[trigger] s.drop_last()[i],
            ) by {
                assert(s.drop_last()[i] == s[i]);
            }
        }
        lemma_digits_value_monotone(s.drop_last(), k);
    } else {
        assert(s.take(k) == s);
    }
}

/// Parses `s[from..to]` the way `str::parse::<u8>` does.
pub fn parse_u8_at(s: &[char], from: usize, to: usize) -> (r: Option<u8>)
    requires
        from <= to <= s@.len(),
    ensures
        r == parse_u8(s@.subrange(from as int, to as int)),
{
    let ghost t = s@.subrange(from as int, to as int);
    let mut start = from;
    if from < to && s[from] == '+' {
        start = from + 1;
    }
    let ghost d = s@.subrange(start as int, to as int);
    assert(d == (if t.len() > 0 && t[0] == '+' {
        t.drop_first()
    } else {
        t
    }));
    if start == to {
        return None;
    }
    let mut v: u32 = 0;
    let mut i = start;
    while i < to
        invariant
            start <= i <= to <= s@.len(),
            d == s@.subrange(start as int, to as int),
            t == s@.subrange(from as int, to as int),
            d == (if t.len() > 0 && t[0] == '+' {
                t.drop_first()
            } else {
                t
            }),
            d.len() > 0,
            all_digits(d.take(i - start)),
            v == digits_value(d.take(i - start)),
            v <= 255,
        decreases to - i,
    {
        let c = s[i];
        if !('0' <= c && c <= '9') {
            proof {
                assert(d[i - start] == c);
                assert(!is_digit(d[i - start]));
            }
            return None;
        }
        let digit = (c as u32) - ('0' as u32);
        v = v * 10 + digit;
        i = i + 1;
        proof {
            let k = (i - start) as int;
            assert(d.take(k).drop_last() == d.take(k - 1));
            assert(d.take(k).last() == c);
            assert forall|j: int| 0 <= j < k implies is_digit(#[trigger] d.take(k)[j]) by {
                if j < k - 1 {
                    assert(d.take(k)[j] == d.take(k - 1)[j]);
                }
            }
        }
        if v > 255 {
            proof {
                if all_digits(d) {
                    lemma_digits_value_monotone(d, i - start);
                }
            }
            return None;
        }
    }
    proof {
        assert(d.take(i - start) == d);
    }
    Some(v as u8)
}

pub open spec fn digit_char(d: nat) -> char {
    (('0' as nat) + d) as char
}

/// Decimal rendering of `n`, as `Display` writes an unsigned integer.
pub open spec fn decimal(n: nat) -> Seq<char>
    decreases n,
{
    if n < 10 {
        seq![digit_char(n)]
    } else {
        decimal(n / 10).push(digit_char(n % 10))
    }
}

pub proof fn lemma_decimal(n: nat)
    ensures
        decimal(n).len() > 0,
        all_digits(decimal(n)),
        digits_value(decimal(n)) == n,
        decimal(n)[0] != '+',
        forall|i: int| 0 <= i < decimal(n).len() ==> #[trigger] decimal(n)[i] != '.' && !is_ws(
            decimal(n)[i],
        ),
    decreases n,
{
    assert(digit_char(n % 10) as nat == ('0' as nat) + n % 10);
    if n < 10 {
        assert(decimal(n).drop_last() =~= Seq::<char>::empty());
        assert(digits_value(Seq::<char>::empty()) == 0);
    }
    if n >= 10 {
        assert(decimal(n).last() == digit_char(n % 10));
        assert(decimal(n).drop_last() == decimal(n / 10));
        lemma_decimal(n / 10);
        let p = decimal(n / 10);
        let s = decimal(n);
        assert(s.drop_last() == p);
        assert forall|i: int| 0 <= i < s.len() implies is_digit(#[trigger] s[i]) by {
            if i < p.len() {
                assert(s[i] == p[i]);
            }
        }
        assert(s[0] == p[0]);
        assert forall|i: int| 0 <= i < s.len() implies #[trigger] s[i] != '.' && !is_ws(s[i]) by {
            if i < p.len() {
                assert(s[i] == p[i]);
            }
        }
    }
}

/// Decimal digits of a byte value.
pub fn u8_decimal(n: u8) -> (r: Vec<char>)
    ensures
        r@ == decimal(n as nat),
{
    let mut out: Vec<char> = Vec::new();
    if n >= 100 {
        out.push(char_of_digit(n / 100));
    }
    if n >= 10 {
        out.push(char_of_digit((n / 10) % 10));
    }
    out.push(char_of_digit(n % 10));
    proof {
        let v = n as nat;
        if v >= 100 {
            assert(decimal(v / 100) == seq![digit_char(v / 100)]);
            assert(decimal(v / 10) == decimal(v / 100).push(digit_char((v / 10) % 10)));
        } else if v >= 10 {
            assert(decimal(v / 10) == seq![digit_char(v / 10)]);
        }
    }
    out
}

pub fn char_of_digit(d: u8) -> (c: char)
    requires
        d < 10,
    ensures
        c == digit_char(d as nat),
{
    let code: u32 = 48 + (d as u32);
    assert(48 <= code <= 57);
    let c = char_from_ascii(code);
    c
}

/// The character whose code is the ASCII code `code`.
pub fn char_from_ascii(code: u32) -> (c: char)
    requires
        code < 128,
    ensures
        c as nat == code as nat,
{
    (code as u8) as char
}


/// `s[from..to]` as a new vector.
pub fn copy_range(s: &[char], from: usize, to: usize) -> (r: Vec<char>)
    requires
        from <= to <= s@.len(),
    ensures
        r@ == s@.subrange(from as int, to as int),
{
    let mut out: Vec<char> = Vec::new();
    let mut i = from;
    while i < to
        invariant
            from <= i <= to <= s@.len(),
            out@ == s@.subrange(from as int, i as int),
        decreases to - i,
    {
        out.push(s[i]);
        i = i + 1;
        proof {
            assert(out@ =~= s@.subrange(from as int, i as int));
        }
    }
    out
}

/// Appends all of `s` to `out`.
pub fn append_chars(out: &mut Vec<char>, s: &[char])
    ensures
        final(out)@ == old(out)@ + s@,
{
    let mut i: usize = 0;
    let ghost base = out@;
    while i < s.len()
        invariant
            i <= s@.len(),
            out@ == base + s@.take(i as int),
        decreases s.len() - i,
    {
        out.push(s[i]);
        i = i + 1;
        proof {
            assert(out@ =~= base + s@.take(i as int));
        }
    }
    proof {
        assert(s@.take(i as int) =~= s@);
    }
}

/// Appends the characters of `s` to `out`.
pub fn append_str(out: &mut Vec<char>, s: &str)
    ensures
        final(out)@ == old(out)@ + s@,
{
    let cs = chars_of(s);
    append_chars(out, cs.as_slice());
}

/// A `String` holding exactly `v`.
pub fn string_of(v: &Vec<char>) -> (r: String)
    ensures
        r@ == v@,
{
    string_from_chars(v.as_slice())
}


/// What `str::to_lowercase` returns for a text (Unicode lowercase mapping).
pub uninterp spec fn lowercase_of(s: Seq<char>) -> Seq<char>;

/// What `char::is_alphabetic` returns (Unicode `Alphabetic` property).
pub uninterp spec fn alphabetic(c: char) -> bool;

/// What `char::is_numeric` returns (Unicode general categories `Nd`, `Nl`, `No`).
pub uninterp spec fn numeric(c: char) -> bool;

/// `str::to_lowercase`: the lowercase equivalent of `s`, a function of `s`
/// alone; nothing more of the Unicode mapping is stated.
#[verifier::external_body]
pub(crate) fn to_lowercase(s: &str) -> (r: String)
    ensures
        r@ == lowercase_of(s@),
{
    s.to_lowercase()
}

/// `char::is_alphabetic`.
#[verifier::external_body]
pub(crate) fn is_alphabetic(c: char) -> (r: bool)
    ensures
        r == alphabetic(c),
{
    c.is_alphabetic()
}

/// `char::is_alphanumeric`, documented as `is_alphabetic() || is_numeric()`.
#[verifier::external_body]
pub(crate) fn is_alphanumeric(c: char) -> (r: bool)
    ensures
        r == (alphabetic(c) || numeric(c)),
{
    c.is_alphanumeric()
}

/// What `<i64 as FromStr>::from_str` accepts: an optional sign, then one or
/// more ASCII digits whose value is in the `i64` range.
pub open spec fn parse_i64(s: Seq<char>) -> Option<i64> {
    let neg = s.len() > 0 && s[0] == '-';
    let d = if s.len() > 0 && (s[0] == '+' || s[0] == '-') {
        s.drop_first()
    } else {
        s
    };
    if d.len() > 0 && all_digits(d) {
        let v = digits_value(d);
        if neg && v <= 0x8000_0000_0000_0000 {
            Some((0 - v) as i64)
        } else if !neg && v <= 0x7fff_ffff_ffff_ffff {
            Some(v as i64)
        } else {
            None
        }
    } else {
        None
    }
}

/// Parses `s[from..to]` the way `str::parse::<i64>` does.
pub fn parse_i64_at(s: &[char], from: usize, to: usize) -> (r: Option<i64>)
    requires
        from <= to <= s@.len(),
    ensures
        r == parse_i64(s@.subrange(from as int, to as int)),
{
    let ghost t = s@.subrange(from as int, to as int);
    let neg = from < to && s[from] == '-';
    let mut start = from;
    if from < to && (s[from] == '+' || s[from] == '-') {
        start = from + 1;
    }
    let ghost d = s@.subrange(start as int, to as int);
    assert(d == (if t.len() > 0 && (t[0] == '+' || t[0] == '-') {
        t.drop_first()
    } else {
        t
    }));
    if start == to {
        return None;
    }
    let mut v: u128 = 0;
    let mut i = start;
    while i < to
        invariant
            start <= i <= to <= s@.len(),
            d == s@.subrange(start as int, to as int),
            t == s@.subrange(from as int, to as int),
            d == (if t.len() > 0 && (t[0] == '+' || t[0] == '-') {
                t.drop_first()
            } else {
                t
            }),
            neg == (t.len() > 0 && t[0] == '-'),
            d.len() > 0,
            all_digits(d.take(i - start)),
            v == digits_value(d.take(i - start)),
            v <= 0x8000_0000_0000_0000,
        decreases to - i,
    {
        let c = s[i];
        if !('0' <= c && c <= '9') {
            proof {
                assert(d[i - start] == c);
                assert(!is_digit(d[i - start]));
            }
            return None;
        }
        let digit = (c as u128) - ('0' as u128);
        v = v * 10 + digit;
        i = i + 1;
        proof {
            let k = (i - start) as int;
            assert(d.take(k).drop_last() == d.take(k - 1));
            assert(d.take(k).last() == c);
            assert forall|j: int| 0 <= j < k implies is_digit(#[trigger] d.take(k)[j]) by {
                if j < k - 1 {
                    assert(d.take(k)[j] == d.take(k - 1)[j]);
                }
            }
        }
        if v > 0x8000_0000_0000_0000 {
            proof {
                if all_digits(d) {
                    lemma_digits_value_monotone(d, i - start);
                }
            }
            return None;
        }
    }
    proof {
        assert(d.take(i - start) == d);
    }
    if neg {
        if v == 0x8000_0000_0000_0000 {
            Some(i64::MIN)
        } else {
            Some(0i64 - (v as i64))
        }
    } else if v <= 0x7fff_ffff_ffff_ffff {
        Some(v as i64)
    } else {
        None
    }
}

/// Decimal rendering of an integer, with a leading `-` when negative.
pub open spec fn int_text(v: int) -> Seq<char> {
    if v < 0 {
        seq!['-'] + decimal((0 - v) as nat)
    } else {
        decimal(v as nat)
    }
}

pub fn u64_decimal(n: u64) -> (r: Vec<char>)
    ensures
        r@ == decimal(n as nat),
    decreases n,
{
    if n < 10 {
        let mut v: Vec<char> = Vec::new();
        v.push(char_of_digit((n % 10) as u8));
        v
    } else {
        let mut v = u64_decimal(n / 10);
        v.push(char_of_digit((n % 10) as u8));
        v
    }
}

/// `v` written in decimal, as `Display` for `i64` writes it.
pub fn i64_text(v: i64) -> (r: Vec<char>)
    ensures
        r@ == int_text(v as int),
{
    if v < 0 {
        let mag: u64 = if v == i64::MIN {
            0x8000_0000_0000_0000u64
        } else {
            (0i64 - v) as u64
        };
        let digits = u64_decimal(mag);
        let mut out: Vec<char> = Vec::new();
        out.push('-');
        append_chars(&mut out, digits.as_slice());
        proof {
            assert(out@ =~= seq!['-'] + decimal((0 - v) as nat));
        }
        out
    } else {
        u64_decimal(v as u64)
    }
}

/// The ASCII letter `c` lowered; every other character unchanged.
pub open spec fn ascii_lower(c: char) -> char {
    if 'A' <= c && c <= 'Z' {
        ((c as nat) + 32) as char
    } else {
        c
    }
}

/// `a` and `b` are equal ignoring ASCII case (`eq_ignore_ascii_case`).
pub open spec fn eq_ignore_ascii_case(a: Seq<char>, b: Seq<char>) -> bool {
    a.len() == b.len() && forall|i: int| 0 <= i < a.len() ==> ascii_lower(#[trigger] a[i]) == ascii_lower(b[i])
}

pub fn lower_ascii_char(c: char) -> (r: char)
    ensures
        r == ascii_lower(c),
{
    if 'A' <= c && c <= 'Z' {
        let code: u32 = (c as u32) + 32;
        char_from_ascii(code)
    } else {
        c
    }
}

pub fn same_ignoring_ascii_case(a: &[char], b: &[char]) -> (r: bool)
    ensures
        r == eq_ignore_ascii_case(a@, b@),
{
    if a.len() != b.len() {
        return false;
    }
    let mut i: usize = 0;
    while i < a.len()
        invariant
            i <= a@.len(),
            a@.len() == b@.len(),
            forall|k: int| 0 <= k < i ==> ascii_lower(#[trigger] a@[k]) == ascii_lower(b@[k]),
        decreases a.len() - i,
    {
        if lower_ascii_char(a[i]) != lower_ascii_char(b[i]) {
            return false;
        }
        i = i + 1;
    }
    true
}

/// A `String` holding exactly `cs`.
#[verifier::external_body]
pub(crate) fn string_from_chars(cs: &[char]) -> (r: String)
    ensures
        r@ == cs@,
{
    cs.iter().collect()
}

/// The characters of `s`, in order.
pub fn chars_of(s: &str) -> (r: Vec<char>)
    ensures
        r@ == s@,
{
    let mut out: Vec<char> = Vec::new();
    for c in it: s.chars()
        invariant
            out@ == it.seq().take(it.index() as int),
            it.seq() == s@,
    {
        out.push(c);
    }
    out
}

} // verus!
