//! Bracket-depth aware scanning of PHPDoc type text.
//!
//! `<`, `(` and `{` open a nesting level and `>`, `)` and `}` close one.
//! Some scanners also skip over `'…'` / `"…"` literals, inside which
//! neither brackets nor separators count.
use vstd::prelude::*;
use crate::text::{
    copy_range, is_whitespace, is_ws, trim, trim_range, string_of, chars_of, find_char_in, find_char,
    first_where, lemma_first_where_at, lemma_first_where_bounds, starts_at, has_at,
};

verus! {

pub open spec fn opens(c: char) -> bool {
    c == '<' || c == '(' || c == '{'
}

pub open spec fn closes(c: char) -> bool {
    c == '>' || c == ')' || c == '}'
}

pub open spec fn is_quote(c: char) -> bool {
    c == '\'' || c == '"'
}

/// One scanning step: the nesting depth and the quote (if any) we are in.
/// With `quotes` off, quote characters are ordinary text.
pub open spec fn step(st: (int, Option<char>), c: char, quotes: bool) -> (int, Option<char>) {
    match st.1 {
        Some(q) => if c == q {
            (st.0, None)
        } else {
            st
        },
        None => if quotes && is_quote(c) {
            (st.0, Some(c))
        } else if opens(c) {
            (st.0 + 1, None)
        } else if closes(c) {
            (st.0 - 1, None)
        } else {
            st
        },
    }
}

/// The scanner state in front of `s[i]`.
pub open spec fn scan(s: Seq<char>, i: int, quotes: bool) -> (int, Option<char>)
    decreases i,
{
    if i <= 0 {
        (0, None)
    } else {
        step(scan(s, i - 1, quotes), s[i - 1], quotes)
    }
}

/// `s[i]` is a separator `sep` standing at depth 0, outside any literal.
pub open spec fn is_top_sep(s: Seq<char>, i: int, sep: char, quotes: bool) -> bool {
    0 <= i < s.len() && s[i] == sep && scan(s, i, quotes) == (0int, None::<char>)
}

/// First top-level separator at or after `from` (`s.len()` if none).
pub open spec fn first_top_sep(s: Seq<char>, sep: char, quotes: bool, from: int) -> int
    decreases s.len() - from,
{
    if from >= s.len() {
        s.len() as int
    } else if is_top_sep(s, from, sep, quotes) {
        from
    } else {
        first_top_sep(s, sep, quotes, from + 1)
    }
}

/// `s` cut at every top-level `sep` (the pieces are not trimmed).
pub open spec fn split_top(s: Seq<char>, sep: char, quotes: bool) -> Seq<Seq<char>>
    decreases s.len(),
{
    let j = first_top_sep(s, sep, quotes, 0);
    if j >= s.len() {
        seq![s]
    } else {
        proof {
            lemma_first_top_sep_bounds(s, sep, quotes, 0);
        }
        seq![s.take(j)] + split_top(s.skip(j + 1), sep, quotes)
    }
}

/// There is one more piece than top-level separators, and at least one.
pub proof fn lemma_split_top_len(s: Seq<char>, sep: char, quotes: bool)
    ensures
        1 <= split_top(s, sep, quotes).len() <= s.len() + 1,
    decreases s.len(),
{
    let j = first_top_sep(s, sep, quotes, 0);
    lemma_first_top_sep_bounds(s, sep, quotes, 0);
    if j < s.len() {
        lemma_split_top_len(s.skip(j + 1), sep, quotes);
    }
}

/// No more pieces than characters plus one.
pub proof fn lemma_split_pieces_len(s: Seq<char>, sep: char, quotes: bool)
    ensures
        split_pieces(s, sep, quotes).len() <= s.len() + 1,
{
    lemma_split_top_len(s, sep, quotes);
}

/// The pieces of `split_top`, each trimmed; a last piece that is blank is
/// dropped (blank pieces before it are kept).
pub open spec fn split_pieces(s: Seq<char>, sep: char, quotes: bool) -> Seq<Seq<char>> {
    let p = split_top(s, sep, quotes);
    let init = p.drop_last().map_values(|x: Seq<char>| trim(x));
    if trim(p.last()).len() > 0 {
        init.push(trim(p.last()))
    } else {
        init
    }
}

pub proof fn lemma_first_top_sep_bounds(s: Seq<char>, sep: char, quotes: bool, from: int)
    requires
        0 <= from,
    ensures
        from <= first_top_sep(s, sep, quotes, from) || from > s.len(),
        first_top_sep(s, sep, quotes, from) <= s.len(),
        first_top_sep(s, sep, quotes, from) < s.len() ==> is_top_sep(
            s,
            first_top_sep(s, sep, quotes, from),
            sep,
            quotes,
        ),
    decreases s.len() - from,
{
    if from < s.len() && !is_top_sep(s, from, sep, quotes) {
        lemma_first_top_sep_bounds(s, sep, quotes, from + 1);
    }
}

pub proof fn lemma_first_top_sep_at(s: Seq<char>, sep: char, quotes: bool, from: int, k: int)
    requires
        0 <= from <= k <= s.len(),
        forall|x: int| from <= x < k ==> !is_top_sep(s, x, sep, quotes),
        k < s.len() ==> is_top_sep(s, k, sep, quotes),
    ensures
        first_top_sep(s, sep, quotes, from) == k,
    decreases k - from,
{
    if from < k {
        lemma_first_top_sep_at(s, sep, quotes, from + 1, k);
    }
}

/// Scanning a suffix that starts in the initial state continues the scan of
/// the whole text.
pub proof fn lemma_scan_suffix(s: Seq<char>, m: int, k: int, quotes: bool)
    requires
        0 <= m <= s.len(),
        0 <= k <= s.len() - m,
        scan(s, m, quotes) == (0int, None::<char>),
    ensures
        scan(s.skip(m), k, quotes) == scan(s, m + k, quotes),
    decreases k,
{
    if k > 0 {
        lemma_scan_suffix(s, m, k - 1, quotes);
        assert(s.skip(m)[k - 1] == s[m + k - 1]);
    }
}

/// Splits `s` at every top-level `sep`, trimming the pieces
/// (see `split_pieces`).
pub fn split_top_level(s: &[char], sep: char, quotes: bool) -> (r: Vec<Vec<char>>)
    requires
        !is_quote(sep) && !opens(sep) && !closes(sep),
    ensures
        r@.map_values(|v: Vec<char>| v@) == split_pieces(s@, sep, quotes),
{
    let mut parts: Vec<Vec<char>> = Vec::new();
    let ghost mut done: Seq<Seq<char>> = Seq::empty();
    let mut up: usize = 0;
    let mut down: usize = 0;
    let mut in_quote: Option<char> = None;
    let mut start: usize = 0;
    let mut i: usize = 0;
    proof {
        assert(s@.skip(0) =~= s@);
    }
    while i < s.len()
        invariant
            start <= i <= s@.len(),
            (up - down, in_quote) == scan(s@, i as int, quotes),
            up + down <= i,
            scan(s@, start as int, quotes) == (0int, None::<char>),
            forall|x: int| start <= x < i ==> !is_top_sep(s@, x, sep, quotes),
            split_top(s@, sep, quotes) == done + split_top(s@.skip(start as int), sep, quotes),
            parts@.len() == done.len(),
            forall|k: int| 0 <= k < done.len() ==> (#[trigger] parts@[k])@ == trim(done[k]),
            !is_quote(sep) && !opens(sep) && !closes(sep),
        decreases s.len() - i,
    {
        let c = s[i];
        let ghost st = scan(s@, i as int, quotes);
        match in_quote {
            Some(q) => {
                if c == q {
                    in_quote = None;
                }
            },
            None => {
                if quotes && (c == '\'' || c == '"') {
                    in_quote = Some(c);
                } else if c == '<' || c == '(' || c == '{' {
                    up = up + 1;
                } else if c == '>' || c == ')' || c == '}' {
                    down = down + 1;
                } else if c == sep && up == down {
                    proof {
                        let t = s@.skip(start as int);
                        let k = i - start;
                        assert forall|x: int| 0 <= x < k implies !is_top_sep(t, x, sep, quotes) by {
                            lemma_scan_suffix(s@, start as int, x, quotes);
                            assert(t[x] == s@[start + x]);
                            assert(!is_top_sep(s@, start + x, sep, quotes));
                        }
                        lemma_scan_suffix(s@, start as int, k, quotes);
                        assert(t[k] == c);
                        lemma_first_top_sep_at(t, sep, quotes, 0, k);
                        assert(t.take(k) =~= s@.subrange(start as int, i as int));
                        assert(t.skip(k + 1) =~= s@.skip(i + 1));
                    }
                    let (a, b) = trim_range(s, start, i);
                    let piece = copy_range(s, a, b);
                    let ghost w = s@.subrange(start as int, i as int);
                    let ghost pv = parts@;
                    let ghost old_done = done;
                    proof {
                        assert(piece@ == trim(w));
                        done = done.push(w);
                        assert(split_top(s@, sep, quotes) =~= done + split_top(
                            s@.skip(i + 1),
                            sep,
                            quotes,
                        ));
                    }
                    parts.push(piece);
                    proof {
                        assert forall|k: int| 0 <= k < done.len() implies (#[trigger] parts@[k])@
                            == trim(done[k]) by {
                            if k < pv.len() {
                                assert(parts@[k] == pv[k]);
                                assert(done[k] == old_done[k]);
                            }
                        }
                    }
                    start = i + 1;
                }
            },
        }
        i = i + 1;
        proof {
            assert(step(st, c, quotes) == scan(s@, i as int, quotes));
        }
    }
    proof {
        let t = s@.skip(start as int);
        let k = i - start;
        assert forall|x: int| 0 <= x < k implies !is_top_sep(t, x, sep, quotes) by {
            lemma_scan_suffix(s@, start as int, x, quotes);
            assert(t[x] == s@[start + x]);
            assert(!is_top_sep(s@, start + x, sep, quotes));
        }
        lemma_first_top_sep_at(t, sep, quotes, 0, k);
        assert(split_top(t, sep, quotes) == seq![t]);
        let p = split_top(s@, sep, quotes);
        assert(p.drop_last() =~= done);
        assert(p.last() == t);
    }
    let (a, b) = trim_range(s, start, s.len());
    proof {
        assert(s@.skip(start as int) =~= s@.subrange(start as int, s@.len() as int));
    }
    if b > a {
        let piece = copy_range(s, a, b);
        parts.push(piece);
    }
    proof {
        let p = split_top(s@, sep, quotes);
        assert(parts@.map_values(|v: Vec<char>| v@) =~= split_pieces(s@, sep, quotes)) by {
            let r = parts@.map_values(|v: Vec<char>| v@);
            let e = split_pieces(s@, sep, quotes);
            assert(r.len() == e.len());
            assert forall|k: int| 0 <= k < r.len() implies r[k] == e[k] by {
                if k < done.len() {
                    assert(r[k] == parts@[k]@);
                }
            }
        }
    }
    parts
}


/// Scanner state kept as two counters (opened, closed) so that no input
/// length can overflow it.
pub struct ScanState {
    pub up: usize,
    pub down: usize,
    pub quote: Option<char>,
}

impl ScanState {
    pub open spec fn view(&self) -> (int, Option<char>) {
        (self.up - self.down, self.quote)
    }

    pub fn start() -> (r: ScanState)
        ensures
            r.view() == (0int, None::<char>),
            r.up + r.down == 0,
    {
        ScanState { up: 0, down: 0, quote: None }
    }

    /// Advances over `c`.
    pub fn advance(&mut self, c: char, quotes: bool)
        requires
            old(self).up + old(self).down < usize::MAX,
        ensures
            final(self).view() == step(old(self).view(), c, quotes),
            final(self).up + final(self).down <= old(self).up + old(self).down + 1,
    {
        match self.quote {
            Some(q) => {
                if c == q {
                    self.quote = None;
                }
            },
            None => {
                if quotes && (c == '\'' || c == '"') {
                    self.quote = Some(c);
                } else if c == '<' || c == '(' || c == '{' {
                    self.up = self.up + 1;
                } else if c == '>' || c == ')' || c == '}' {
                    self.down = self.down + 1;
                }
            },
        }
    }

    pub fn at_top(&self) -> (r: bool)
        ensures
            r == (self.view() == (0int, None::<char>)),
    {
        self.up == self.down && self.quote.is_none()
    }

    pub fn balanced(&self) -> (r: bool)
        ensures
            r == (self.view().0 == 0),
    {
        self.up == self.down
    }
}

/// Whether `s` leaves a bracket open (or closes one too many), ignoring
/// brackets inside quoted literals.
pub open spec fn unbalanced(s: Seq<char>) -> bool {
    scan(s, s.len() as int, true).0 != 0
}

pub fn is_inside_generics_chars(s: &[char]) -> (r: bool)
    ensures
        r == unbalanced(s@),
{
    let mut st = ScanState::start();
    let mut i: usize = 0;
    while i < s.len()
        invariant
            i <= s@.len(),
            st.view() == scan(s@, i as int, true),
            st.up + st.down <= i,
        decreases s.len() - i,
    {
        st.advance(s[i], true);
        i = i + 1;
    }
    !st.balanced()
}

pub fn is_inside_generics(s: &str) -> (r: bool)
    ensures
        r == unbalanced(s@),
{
    let cs = chars_of(s);
    is_inside_generics_chars(cs.as_slice())
}

/// `target` occurs in `s` outside every quoted literal (a quote character
/// itself never counts).
pub open spec fn has_unquoted(s: Seq<char>, target: char) -> bool {
    exists|i: int|
        0 <= i < s.len() && #[trigger] s[i] == target && !is_quote(target) && scan(s, i, true).1
            is None
}

/// Whether `target` occurs anywhere in `s` outside a single- or
/// double-quoted literal.
pub fn contains_unquoted(s: &str, target: char) -> (r: bool)
    ensures
        r == has_unquoted(s@, target),
{
    let cs = chars_of(s);
    let mut st = ScanState::start();
    let mut i: usize = 0;
    while i < cs.len()
        invariant
            i <= cs@.len(),
            cs@ == s@,
            st.view() == scan(s@, i as int, true),
            st.up + st.down <= i,
            forall|k: int|
                0 <= k < i ==> !(#[trigger] s@[k] == target && !is_quote(target) && scan(
                    s@,
                    k,
                    true,
                ).1 is None),
        decreases cs.len() - i,
    {
        let c = cs[i];
        if st.quote.is_none() && c == target && !(c == '\'' || c == '"') {
            return true;
        }
        st.advance(c, true);
        i = i + 1;
    }
    false
}

/// First position of `target` at depth 0 (a bracket character is never
/// matched).
pub open spec fn top_char_pos(s: Seq<char>, target: char) -> int {
    first_where(s.len() as int, top_char_at(s, target), 0)
}

pub open spec fn top_char_at(s: Seq<char>, target: char) -> spec_fn(int) -> bool {
    |i: int| s[i] == target && !opens(target) && !closes(target) && scan(s, i, false).0 == 0
}

/// Finds `target` in `s[from..to]` at nesting depth 0 (not inside `<>`,
/// `()`, `{}`); the index returned is into `s`.
pub fn find_char_at_depth_in(s: &[char], from: usize, to: usize, target: char) -> (r: Option<
    usize,
>)
    requires
        from <= to <= s@.len(),
    ensures
        ({
            let t = s@.subrange(from as int, to as int);
            let k = top_char_pos(t, target);
            match r {
                Some(i) => i - from == k && k < t.len(),
                None => k == t.len(),
            }
        }),
{
    let ghost t = s@.subrange(from as int, to as int);
    let ghost p = top_char_at(t, target);
    let mut st = ScanState::start();
    let mut i: usize = from;
    while i < to
        invariant
            from <= i <= to <= s@.len(),
            t == s@.subrange(from as int, to as int),
            p == top_char_at(t, target),
            st.view() == scan(t, i - from, false),
            st.up + st.down <= i - from,
            forall|k: int| 0 <= k < i - from ==> !#[trigger] p(k),
        decreases to - i,
    {
        let c = s[i];
        proof {
            assert(t[i - from] == c);
        }
        let is_bracket = c == '<' || c == '(' || c == '{' || c == '>' || c == ')' || c == '}';
        if c == target && !is_bracket && st.balanced() {
            proof {
                lemma_first_where_at(t.len() as int, p, 0, i - from);
            }
            return Some(i);
        }
        st.advance(c, false);
        i = i + 1;
    }
    proof {
        lemma_first_where_at(t.len() as int, p, 0, t.len() as int);
    }
    None
}

/// Finds `target` in `s` at nesting depth 0; the result is a character
/// index.
pub fn find_char_at_depth(s: &str, target: char) -> (r: Option<usize>)
    ensures
        match r {
            Some(i) => i == top_char_pos(s@, target) && i < s@.len(),
            None => top_char_pos(s@, target) == s@.len(),
        },
{
    let cs = chars_of(s);
    let r = find_char_at_depth_in(cs.as_slice(), 0, cs.len(), target);
    proof {
        assert(cs@.subrange(0, cs@.len() as int) =~= s@);
    }
    r
}

pub open spec fn closes_to_top(s: Seq<char>) -> spec_fn(int) -> bool {
    |i: int| closes(s[i]) && scan(s, i + 1, false).0 == 0
}

/// Index of the bracket that closes the `(` at the start of `s`: the first
/// closing bracket that brings the depth back to 0 (any bracket kind counts).
pub open spec fn matching_close(s: Seq<char>) -> Option<int> {
    if s.len() == 0 || s[0] != '(' {
        None
    } else {
        let k = first_where(s.len() as int, closes_to_top(s), 0);
        if k < s.len() {
            Some(k)
        } else {
            None
        }
    }
}

pub fn find_matching_paren_in(s: &[char], from: usize, to: usize) -> (r: Option<usize>)
    requires
        from <= to <= s@.len(),
    ensures
        match matching_close(s@.subrange(from as int, to as int)) {
            Some(k) => r == Some((from + k) as usize),
            None => r is None,
        },
{
    let ghost t = s@.subrange(from as int, to as int);
    if from == to || s[from] != '(' {
        return None;
    }
    let ghost p = closes_to_top(t);
    let mut st = ScanState::start();
    let mut i: usize = from;
    while i < to
        invariant
            from < to <= s@.len(),
            from <= i <= to,
            t == s@.subrange(from as int, to as int),
            p == closes_to_top(t),
            s@[from as int] == '(',
            st.view() == scan(t, i - from, false),
            st.up + st.down <= i - from,
            forall|k: int| 0 <= k < i - from ==> !#[trigger] p(k),
        decreases to - i,
    {
        let c = s[i];
        proof {
            assert(t[i - from] == c);
        }
        let ghost before = st.view();
        st.advance(c, false);
        i = i + 1;
        proof {
            assert(scan(t, i - from, false) == step(before, c, false));
        }
        if (c == '>' || c == ')' || c == '}') && st.balanced() {
            proof {
                lemma_first_where_at(t.len() as int, p, 0, i - from - 1);
                assert(t[0] == s@[from as int]);
                assert(p(i - from - 1));
                assert(first_where(t.len() as int, closes_to_top(t), 0) == i - from - 1);
                assert(t.len() > 0 && t[0] == '(');
                assert(matching_close(t) == Some(i - from - 1));
            }
            return Some(i - 1);
        }
    }
    proof {
        lemma_first_where_at(t.len() as int, p, 0, t.len() as int);
    }
    None
}

/// The character index in `s` of the bracket closing its leading `(`.
pub fn find_matching_paren(s: &str) -> (r: Option<usize>)
    ensures
        match matching_close(s@) {
            Some(k) => r == Some(k as usize),
            None => r is None,
        },
{
    let cs = chars_of(s);
    proof {
        assert(cs@.subrange(0, cs@.len() as int) =~= s@);
    }
    find_matching_paren_in(cs.as_slice(), 0, cs.len())
}

/// Depth counting `(` and `)` only.
pub open spec fn paren_depth(s: Seq<char>, i: int) -> int
    decreases i,
{
    if i <= 0 {
        0
    } else {
        paren_depth(s, i - 1) + (if s[i - 1] == '(' {
            1int
        } else if s[i - 1] == ')' {
            -1int
        } else {
            0int
        })
    }
}

/// `s` is one parenthesised group: it starts with `(`, ends with `)`, and
/// the opening parenthesis is closed only by the last character.
pub open spec fn one_paren_group(s: Seq<char>) -> bool {
    &&& s.len() > 0
    &&& s[0] == '('
    &&& s.last() == ')'
    &&& forall|i: int| 0 <= i < s.len() - 1 ==> !(#[trigger] s[i] == ')' && paren_depth(s, i + 1) == 0)
    &&& paren_depth(s, s.len() as int) == 0
}

pub fn is_balanced_parens_chars(s: &[char]) -> (r: bool)
    ensures
        r == one_paren_group(s@),
{
    if s.len() == 0 || s[0] != '(' || s[s.len() - 1] != ')' {
        return false;
    }
    let last = s.len() - 1;
    let mut up: usize = 0;
    let mut down: usize = 0;
    let mut i: usize = 0;
    while i < s.len()
        invariant
            i <= s@.len(),
            last == s@.len() - 1,
            up + down <= i,
            up - down == paren_depth(s@, i as int),
            forall|k: int| 0 <= k < i && k < last ==> !(#[trigger] s@[k] == ')' && paren_depth(s@, k + 1) == 0),
        decreases s.len() - i,
    {
        let c = s[i];
        if c == '(' {
            up = up + 1;
        } else if c == ')' {
            down = down + 1;
            if up == down && i < last {
                return false;
            }
        }
        i = i + 1;
    }
    up == down
}

/// Returns true when `s` starts with `(` and ends with `)` and those two
/// characters are a matched pair.
pub fn is_balanced_parens(s: &str) -> (r: bool)
    ensures
        r == one_paren_group(s@),
{
    let cs = chars_of(s);
    is_balanced_parens_chars(cs.as_slice())
}

/// Length of the leading type expression of `s`: up to the first
/// whitespace at depth 0.
pub open spec fn type_prefix_len(s: Seq<char>) -> int {
    first_where(s.len() as int, top_ws_at(s), 0)
}

pub open spec fn top_ws_at(s: Seq<char>) -> spec_fn(int) -> bool {
    |i: int| is_ws(s[i]) && scan(s, i, false).0 == 0
}

pub fn type_prefix_end(s: &[char], from: usize, to: usize) -> (r: usize)
    requires
        from <= to <= s@.len(),
    ensures
        from <= r <= to,
        r - from == type_prefix_len(s@.subrange(from as int, to as int)),
{
    let ghost t = s@.subrange(from as int, to as int);
    let ghost p = top_ws_at(t);
    let mut st = ScanState::start();
    let mut i: usize = from;
    while i < to
        invariant
            from <= i <= to <= s@.len(),
            t == s@.subrange(from as int, to as int),
            p == top_ws_at(t),
            st.view() == scan(t, i - from, false),
            st.up + st.down <= i - from,
            forall|k: int| 0 <= k < i - from ==> !#[trigger] p(k),
        decreases to - i,
    {
        let c = s[i];
        proof {
            assert(t[i - from] == c);
        }
        if is_whitespace(c) && st.balanced() {
            proof {
                lemma_first_where_at(t.len() as int, p, 0, i - from);
            }
            return i;
        }
        st.advance(c, false);
        i = i + 1;
    }
    proof {
        lemma_first_where_at(t.len() as int, p, 0, t.len() as int);
    }
    to
}

/// Return the leading type expression from `s`, stopping at top-level
/// whitespace. Spaces inside `<…>` brackets are kept so that
/// `array<string, int>` is returned whole.
pub fn extract_type_prefix(s: &str) -> (r: String)
    ensures
        r@ == s@.take(type_prefix_len(s@)),
{
    let cs = chars_of(s);
    let end = type_prefix_end(cs.as_slice(), 0, cs.len());
    proof {
        assert(cs@.subrange(0, cs@.len() as int) =~= s@);
    }
    let v = copy_range(cs.as_slice(), 0, end);
    proof {
        assert(v@ =~= s@.take(type_prefix_len(s@)));
    }
    string_of(&v)
}

/// State of the empty-generics detector: depth, whether the last
/// non-blank character opened a bracket, and whether an empty pair (or a
/// stray re-open at depth 0) was seen.
pub open spec fn empty_generics_step(st: (int, bool, bool), c: char) -> (int, bool, bool) {
    if st.2 {
        st
    } else if opens(c) {
        if st.1 && st.0 == 0 {
            (st.0, st.1, true)
        } else {
            (st.0 + 1, true, false)
        }
    } else if closes(c) {
        if st.0 - 1 == 0 {
            if st.1 {
                (st.0 - 1, st.1, true)
            } else {
                (st.0 - 1, false, false)
            }
        } else {
            (st.0 - 1, st.1, false)
        }
    } else if !is_ws(c) {
        (st.0, false, false)
    } else {
        st
    }
}

pub open spec fn empty_generics_scan(s: Seq<char>, i: int) -> (int, bool, bool)
    decreases i,
{
    if i <= 0 {
        (0, false, false)
    } else {
        empty_generics_step(empty_generics_scan(s, i - 1), s[i - 1])
    }
}

pub open spec fn empty_generics(s: Seq<char>) -> bool {
    empty_generics_scan(s, s.len() as int).2
}

pub fn has_empty_generics_chars(s: &[char]) -> (r: bool)
    ensures
        r == empty_generics(s@),
{
    let mut up: usize = 0;
    let mut down: usize = 0;
    let mut prev_open = false;
    let mut i: usize = 0;
    while i < s.len()
        invariant
            i <= s@.len(),
            up + down <= i,
            empty_generics_scan(s@, i as int) == (up - down, prev_open, false),
        decreases s.len() - i,
    {
        let c = s[i];
        if c == '<' || c == '(' || c == '{' {
            if prev_open && up == down {
                proof {
                    lemma_empty_generics_sticky(s@, i + 1);
                }
                return true;
            }
            prev_open = true;
            up = up + 1;
        } else if c == '>' || c == ')' || c == '}' {
            down = down + 1;
            if up == down {
                if prev_open {
                    proof {
                        lemma_empty_generics_sticky(s@, i + 1);
                    }
                    return true;
                }
                prev_open = false;
            }
        } else if !is_whitespace(c) {
            prev_open = false;
        }
        i = i + 1;
    }
    false
}

pub proof fn lemma_empty_generics_sticky(s: Seq<char>, i: int)
    requires
        0 <= i <= s.len(),
        empty_generics_scan(s, i).2,
    ensures
        empty_generics(s),
    decreases s.len() - i,
{
    if i < s.len() {
        assert(empty_generics_scan(s, i + 1).2);
        lemma_empty_generics_sticky(s, i + 1);
    }
}

/// Whether `s` contains an empty bracket pair such as `array<>`.
pub fn has_empty_generics(s: &str) -> (r: bool)
    ensures
        r == empty_generics(s@),
{
    let cs = chars_of(s);
    has_empty_generics_chars(cs.as_slice())
}


/// A top-level ` is not ` / ` is ` conditional marker starts at `s[i]`.
pub open spec fn is_marker_at(s: Seq<char>) -> spec_fn(int) -> bool {
    |i: int|
        s[i] == ' ' && scan(s, i, false).0 == 0 && (starts_at(s, i, " is not "@) || starts_at(
            s,
            i,
            " is "@,
        ))
}

/// Leftmost conditional marker at depth 0: its position, its length and
/// whether it is the negated ` is not ` form (preferred when both match).
pub open spec fn is_marker(s: Seq<char>) -> Option<(int, int, bool)> {
    let i = first_where(s.len() as int, is_marker_at(s), 0);
    if i >= s.len() {
        None
    } else if starts_at(s, i, " is not "@) {
        Some((i, 8, true))
    } else {
        Some((i, 4, false))
    }
}

/// Finds the leftmost ` is not ` or ` is ` marker in `s` at nesting depth
/// 0, preferring the longer `is not` marker when both start at the same
/// position. Returns `(position, marker_len, negated)`.
pub fn find_is_marker_at_depth(s: &[char]) -> (r: Option<(usize, usize, bool)>)
    ensures
        match is_marker(s@) {
            Some((i, n, neg)) => r == Some((i as usize, n as usize, neg)),
            None => r is None,
        },
{
    let is_not = chars_of(" is not ");
    let is_ = chars_of(" is ");
    proof {
        reveal_strlit(" is not ");
        reveal_strlit(" is ");
    }
    let ghost p = is_marker_at(s@);
    let mut st = ScanState::start();
    let mut i: usize = 0;
    while i < s.len()
        invariant
            i <= s@.len(),
            p == is_marker_at(s@),
            is_not@ == " is not "@,
            is_@ == " is "@,
            st.view() == scan(s@, i as int, false),
            st.up + st.down <= i,
            forall|k: int| 0 <= k < i ==> !#[trigger] p(k),
        decreases s.len() - i,
    {
        let c = s[i];
        if c == ' ' && st.balanced() {
            let a = has_at(s, i, is_not.as_slice());
            if a {
                proof {
                    lemma_first_where_at(s@.len() as int, p, 0, i as int);
                }
                return Some((i, 8, true));
            }
            if has_at(s, i, is_.as_slice()) {
                proof {
                    lemma_first_where_at(s@.len() as int, p, 0, i as int);
                }
                return Some((i, 4, false));
            }
        }
        st.advance(c, false);
        i = i + 1;
    }
    proof {
        lemma_first_where_at(s@.len() as int, p, 0, s@.len() as int);
    }
    None
}

/// Index of the first `<` in `s` (`s.len()` if none).
pub open spec fn first_lt(s: Seq<char>) -> int {
    first_where(s.len() as int, |i: int| s[i] == '<', 0)
}

pub open spec fn closes_outer(a: Seq<char>) -> spec_fn(int) -> bool {
    |k: int| closes(a[k]) && scan(a, k + 1, false).0 == -1
}

/// `(name, inner)` of `Name<inner>`: the trimmed text before the first `<`
/// (which must be non-blank) and the text up to the bracket that closes it.
pub open spec fn generic_content(s: Seq<char>) -> Option<(Seq<char>, Seq<char>)> {
    let lt = first_lt(s);
    if lt >= s.len() {
        None
    } else {
        let name = trim(s.take(lt));
        let after = s.skip(lt + 1);
        let k = first_where(after.len() as int, closes_outer(after), 0);
        if name.len() == 0 || k >= after.len() {
            None
        } else {
            Some((name, after.take(k)))
        }
    }
}

/// Extracts `(name, inner)` from `Name<inner>`. Returns `None` if not a
/// generic.
pub fn extract_generic_content(s: &[char]) -> (r: Option<(Vec<char>, Vec<char>)>)
    ensures
        match generic_content(s@) {
            Some((n, i)) => r matches Some((a, b)) && a@ == n && b@ == i,
            None => r is None,
        },
{
    let lt = find_char_in(s, 0, s.len(), '<');
    proof {
        assert(s@.subrange(0, s@.len() as int) =~= s@);
        crate::text::lemma_find_char(s@, '<');
        lemma_first_where_at(s@.len() as int, |i: int| s@[i] == '<', 0, lt as int);
    }
    if lt == s.len() {
        return None;
    }
    let (a, b) = trim_range(s, 0, lt);
    proof {
        assert(s@.subrange(0, lt as int) =~= s@.take(lt as int));
    }
    if a == b {
        return None;
    }
    proof {
        assert(first_lt(s@) == lt);
    }
    let ghost after = s@.skip(lt + 1);
    let ghost p = closes_outer(after);
    let name = copy_range(s, a, b);
    let mut st = ScanState::start();
    let mut i: usize = lt + 1;
    while i < s.len()
        invariant
            lt < s@.len(),
            lt + 1 <= i <= s@.len(),
            name@ == trim(s@.take(lt as int)),
            name@.len() > 0,
            first_lt(s@) == lt,
            after == s@.skip(lt + 1),
            p == closes_outer(after),
            st.view() == scan(after, i - lt - 1, false),
            st.up + st.down <= i - lt - 1,
            forall|k: int| 0 <= k < i - lt - 1 ==> !#[trigger] p(k),
        decreases s.len() - i,
    {
        let c = s[i];
        proof {
            assert(after[i - lt - 1] == c);
        }
        let ghost before = st.view();
        st.advance(c, false);
        i = i + 1;
        proof {
            assert(scan(after, i - lt - 1, false) == step(before, c, false));
        }
        if (c == '>' || c == ')' || c == '}') && st.down == st.up + 1 {
            proof {
                lemma_first_where_at(after.len() as int, p, 0, i - lt - 2);
                assert(p(i - lt - 2));
            }
            let inner = copy_range(s, lt + 1, i - 1);
            proof {
                assert(inner@ =~= after.take(i - lt - 2));
            }
            return Some((name, inner));
        }
    }
    proof {
        lemma_first_where_at(after.len() as int, p, 0, after.len() as int);
    }
    None
}

pub open spec fn strings_view(v: Seq<String>) -> Seq<Seq<char>> {
    v.map_values(|x: String| x@)
}

pub fn to_strings(v: Vec<Vec<char>>) -> (r: Vec<String>)
    ensures
        strings_view(r@) == v@.map_values(|x: Vec<char>| x@),
{
    let mut out: Vec<String> = Vec::new();
    let mut i: usize = 0;
    while i < v.len()
        invariant
            i <= v@.len(),
            out@.len() == i,
            forall|k: int| 0 <= k < i ==> (#[trigger] out@[k])@ == v@[k]@,
        decreases v.len() - i,
    {
        out.push(string_of(&v[i]));
        i = i + 1;
    }
    proof {
        assert(strings_view(out@) =~= v@.map_values(|x: Vec<char>| x@));
    }
    out
}

/// Splits a union type at its top-level `|` (outside brackets and quoted
/// literals), trimming each member.
pub fn split_union(s: &str) -> (r: Vec<String>)
    ensures
        strings_view(r@) == split_pieces(s@, '|', true),
{
    let cs = chars_of(s);
    to_strings(split_top_level(cs.as_slice(), '|', true))
}

/// Depth-aware split on `&` — does not break `&` inside `<>`, `()`, or `{}`.
pub fn split_intersection(s: &str) -> (r: Vec<String>)
    ensures
        strings_view(r@) == split_pieces(s@, '&', false),
{
    let cs = chars_of(s);
    to_strings(split_top_level(cs.as_slice(), '&', false))
}

/// Splits generic arguments at their top-level `,`.
pub fn split_generics(s: &str) -> (r: Vec<String>)
    ensures
        strings_view(r@) == split_pieces(s@, ',', false),
{
    let cs = chars_of(s);
    to_strings(split_top_level(cs.as_slice(), ',', false))
}

} // verus!
