//! Line-level readers for PHPDoc tag bodies: `@param`/`@return` lines,
//! template declarations, type imports, `@method` signatures and the free
//! description text.
use vstd::prelude::*;
use crate::text::{
    append_chars, chars_of, copy_range, find_char, find_char_in, find_sub, find_sub_from,
    first_where, is_whitespace, is_ws, lead_ws, lemma_first_where_at, lemma_first_where_bounds,
    lemma_lead_ws_bound, lemma_trail_ws_bound, starts_at, has_at, string_of, trim, trim_range,
    trim_start, trim_end, trim_end_at, words, split_words, contains_sub, eq_ignore_ascii_case,
    same_ignoring_ascii_case, ends_with,
};
use super::scan::{
    closes, opens, matching_close, find_matching_paren_in, split_pieces, split_top_level,
};

verus! {

broadcast use vstd::string::group_string_axioms;

/// Depth that never drops below zero: a stray closing bracket is ignored.
pub open spec fn clamped_depth(s: Seq<char>, i: int) -> int
    decreases i,
{
    if i <= 0 {
        0
    } else {
        let d = clamped_depth(s, i - 1);
        if opens(s[i - 1]) {
            d + 1
        } else if closes(s[i - 1]) {
            if d - 1 > 0 {
                d - 1
            } else {
                0
            }
        } else {
            d
        }
    }
}

pub proof fn lemma_clamped_depth_bounds(s: Seq<char>, i: int)
    ensures
        0 <= clamped_depth(s, i) <= (if i > 0 { i } else { 0 }),
    decreases i,
{
    if i > 0 {
        lemma_clamped_depth_bounds(s, i - 1);
    }
}

/// Number of leading `c` characters of `s`.
pub open spec fn lead_count(s: Seq<char>, c: char) -> nat
    decreases s.len(),
{
    if s.len() > 0 && s[0] == c {
        1 + lead_count(s.drop_first(), c)
    } else {
        0
    }
}

/// `s` without its leading run of `c` (`trim_start_matches(c)`).
pub open spec fn strip_lead(s: Seq<char>, c: char) -> Seq<char> {
    s.skip(lead_count(s, c) as int)
}

pub proof fn lemma_lead_count(s: Seq<char>, c: char, k: int)
    requires
        0 <= k <= s.len(),
        forall|i: int| 0 <= i < k ==> #[trigger] s[i] == c,
        k < s.len() ==> s[k] != c,
    ensures
        lead_count(s, c) == k,
    decreases s.len(),
{
    if k > 0 {
        assert forall|i: int| 0 <= i < k - 1 implies #[trigger] s.drop_first()[i] == c by {
            assert(s.drop_first()[i] == s[i + 1]);
        }
        if k - 1 < s.drop_first().len() {
            assert(s.drop_first()[k - 1] == s[k]);
        }
        lemma_lead_count(s.drop_first(), c, k - 1);
    }
}

/// Index just past the leading run of `c` in `s[from..to]`.
pub fn skip_lead(s: &[char], from: usize, to: usize, c: char) -> (r: usize)
    requires
        from <= to <= s@.len(),
    ensures
        from <= r <= to,
        r - from == lead_count(s@.subrange(from as int, to as int), c),
{
    let ghost u = s@.subrange(from as int, to as int);
    let mut i = from;
    while i < to && s[i] == c
        invariant
            from <= i <= to <= s@.len(),
            forall|k: int| from <= k < i ==> s@[k] == c,
        decreases to - i,
    {
        i = i + 1;
    }
    proof {
        assert forall|k: int| 0 <= k < i - from implies #[trigger] u[k] == c by {
            assert(u[k] == s@[k + from]);
        }
        if i < to {
            assert(u[i - from] == s@[i as int]);
        }
        lemma_lead_count(u, c, i - from);
    }
    i
}

/// The `$name` candidate at top-level whitespace position `i` of a
/// `@param` body: the type before it (trimmed) and the name after any `&`
/// or `...` and without its `$` signs.
pub open spec fn param_candidate(s: Seq<char>, i: int) -> Option<(Seq<char>, Seq<char>)> {
    let after = trim_start(s.skip(i));
    let a1 = if after.len() > 0 && after[0] == '&' {
        after.drop_first()
    } else {
        after
    };
    let a2 = if starts_at(a1, 0, "..."@) {
        a1.skip(3)
    } else {
        a1
    };
    if a2.len() > 0 && a2[0] == '$' {
        let word = a2.take(first_where(a2.len() as int, |k: int| is_ws(a2[k]), 0));
        let name = strip_lead(word, '$');
        let ty = trim(s.take(i));
        if name.len() > 0 && ty.len() > 0 {
            Some((ty, name))
        } else {
            None
        }
    } else {
        None
    }
}

/// The first top-level whitespace position at or after `i` that yields a
/// parameter candidate.
pub open spec fn param_from(s: Seq<char>, i: int) -> Option<(Seq<char>, Seq<char>)>
    decreases s.len() - i,
{
    if i < 0 || i >= s.len() {
        None
    } else if is_ws(s[i]) && clamped_depth(s, i) == 0 && param_candidate(s, i) is Some {
        param_candidate(s, i)
    } else {
        param_from(s, i + 1)
    }
}

/// `Type $name` / `Type &$name` / `Type ...$name` (plus description): the
/// type and the name of the first `$identifier` at depth 0.
pub open spec fn param_line(s: Seq<char>) -> Option<(Seq<char>, Seq<char>)> {
    param_from(s, 0)
}

fn param_candidate_exec(s: &[char], i: usize) -> (r: Option<(Vec<char>, Vec<char>)>)
    requires
        i <= s@.len(),
    ensures
        match param_candidate(s@, i as int) {
            Some((t, n)) => r matches Some((a, b)) && a@ == t && b@ == n,
            None => r is None,
        },
{
    let (a, _) = trim_range(s, i, s.len());
    proof {
        let u = s@.subrange(i as int, s@.len() as int);
        assert(u =~= s@.skip(i as int));
        lemma_lead_ws_bound(u);
        assert(trim_start(s@.skip(i as int)) =~= s@.skip(a as int));
    }
    let mut p = a;
    if p < s.len() && s[p] == '&' {
        p = p + 1;
    }
    proof {
        let after = s@.skip(a as int);
        let a1 = if after.len() > 0 && after[0] == '&' {
            after.drop_first()
        } else {
            after
        };
        assert(a1 =~= s@.skip(p as int));
    }
    let dots = chars_of("...");
    proof {
        reveal_strlit("...");
        if p + 3 <= s@.len() {
            assert(s@.skip(p as int).skip(3) =~= s@.skip(p + 3));
            assert(s@.skip(p as int).subrange(0, 3) =~= s@.subrange(p as int, p + 3));
        }
    }
    if has_at(s, p, dots.as_slice()) {
        p = p + 3;
    }
    if !(p < s.len() && s[p] == '$') {
        return None;
    }
    let mut e = p;
    while e < s.len() && !is_whitespace(s[e])
        invariant
            p <= e <= s@.len(),
            forall|k: int| p <= k < e ==> !is_ws(#[trigger] s@[k]),
        decreases s.len() - e,
    {
        e = e + 1;
    }
    let ghost a2 = s@.skip(p as int);
    proof {
        assert forall|k: int| 0 <= k < e - p implies !#[trigger] is_ws(a2[k]) by {
            assert(a2[k] == s@[k + p]);
        }
        if e < s.len() {
            assert(a2[e - p] == s@[e as int]);
        }
        lemma_first_where_at(a2.len() as int, |k: int| is_ws(a2[k]), 0, e - p);
        assert(a2.take(e - p) =~= s@.subrange(p as int, e as int));
    }
    let n0 = skip_lead(s, p, e, '$');
    proof {
        assert(strip_lead(s@.subrange(p as int, e as int), '$') =~= s@.subrange(n0 as int, e as int));
    }
    let (x, y) = trim_range(s, 0, i);
    proof {
        assert(s@.subrange(0, i as int) =~= s@.take(i as int));
    }
    if n0 < e && x < y {
        Some((copy_range(s, x, y), copy_range(s, n0, e)))
    } else {
        None
    }
}

pub fn parse_param_line_chars(s: &[char]) -> (r: Option<(Vec<char>, Vec<char>)>)
    ensures
        match param_line(s@) {
            Some((t, n)) => r matches Some((a, b)) && a@ == t && b@ == n,
            None => r is None,
        },
{
    let mut depth: usize = 0;
    let mut i: usize = 0;
    while i < s.len()
        invariant
            i <= s@.len(),
            depth == clamped_depth(s@, i as int),
            depth <= i,
            param_from(s@, 0) == param_from(s@, i as int),
        decreases s.len() - i,
    {
        let c = s[i];
        if c == '<' || c == '(' || c == '{' {
            depth = depth + 1;
        } else if c == '>' || c == ')' || c == '}' {
            if depth > 1 {
                depth = depth - 1;
            } else {
                depth = 0;
            }
        } else if is_whitespace(c) && depth == 0 {
            let cand = param_candidate_exec(s, i);
            if cand.is_some() {
                return cand;
            }
        }
        i = i + 1;
    }
    None
}

/// Formats: `Type $name`, `Type $name description`, or `Type &$name ...`
/// (byref). Returns the type text and the parameter name without `$`.
pub fn parse_param_line(s: &str) -> (r: Option<(String, String)>)
    ensures
        match param_line(s@) {
            Some((t, n)) => r matches Some((a, b)) && a@ == t && b@ == n,
            None => r is None,
        },
{
    let cs = chars_of(s);
    match parse_param_line_chars(cs.as_slice()) {
        Some((t, n)) => Some((string_of(&t), string_of(&n))),
        None => None,
    }
}

/// Length of the leading token of a `@return` body: up to the first
/// whitespace outside brackets (brackets never nest below zero).
pub open spec fn return_token_len(s: Seq<char>) -> int {
    first_where(s.len() as int, |i: int| is_ws(s[i]) && clamped_depth(s, i) == 0, 0)
}

/// The type portion of a `@return` body: its leading token, extended by
/// one space and the return type after a callable's `:` (`\Closure(): T`),
/// trimmed.
pub open spec fn return_type_of(s: Seq<char>) -> Seq<char>
    decreases s.len(),
{
    let k = return_token_len(s);
    let tok = s.take(k);
    proof {
        lemma_first_where_bounds(s.len() as int, |i: int| is_ws(s[i]) && clamped_depth(s, i) == 0, 0);
    }
    if k > 0 && tok.last() == ':' {
        let rest = trim_start(s.skip(k));
        proof {
            lemma_lead_ws_bound(s.skip(k));
        }
        if rest.len() > 0 {
            trim(tok + " "@ + return_type_of(rest))
        } else {
            trim(tok)
        }
    } else {
        trim(tok)
    }
}

pub fn extract_return_type_chars(s: &[char]) -> (r: Vec<char>)
    ensures
        r@ == return_type_of(s@),
    decreases s@.len(),
{
    let ghost p = |i: int| is_ws(s@[i]) && clamped_depth(s@, i) == 0;
    let mut depth: usize = 0;
    let mut i: usize = 0;
    while i < s.len() && !(is_whitespace(s[i]) && depth == 0)
        invariant
            i <= s@.len(),
            depth == clamped_depth(s@, i as int),
            depth <= i,
            p == (|i: int| is_ws(s@[i]) && clamped_depth(s@, i) == 0),
            forall|k: int| 0 <= k < i ==> !#[trigger] p(k),
        decreases s.len() - i,
    {
        let c = s[i];
        if c == '<' || c == '(' || c == '{' {
            depth = depth + 1;
        } else if c == '>' || c == ')' || c == '}' {
            if depth > 1 {
                depth = depth - 1;
            } else {
                depth = 0;
            }
        }
        i = i + 1;
    }
    proof {
        lemma_first_where_at(s@.len() as int, p, 0, i as int);
    }
    let mut tok = copy_range(s, 0, i);
    if i > 0 && s[i - 1] == ':' {
        let (a, _) = trim_range(s, i, s.len());
        proof {
            let u = s@.subrange(i as int, s@.len() as int);
            assert(u =~= s@.skip(i as int));
            lemma_lead_ws_bound(u);
            assert(trim_start(s@.skip(i as int)) =~= s@.skip(a as int));
        }
        if a < s.len() {
            let rest = copy_range(s, a, s.len());
            proof {
                assert(rest@ =~= s@.skip(a as int));
            }
            let tail = extract_return_type_chars(rest.as_slice());
            tok.push(' ');
            append_chars(&mut tok, tail.as_slice());
            proof {
                reveal_strlit(" ");
                assert(tok@ =~= s@.take(i as int) + " "@ + tail@);
            }
        }
    }
    let (x, y) = trim_range(tok.as_slice(), 0, tok.len());
    proof {
        assert(tok@.subrange(0, tok@.len() as int) =~= tok@);
    }
    copy_range(tok.as_slice(), x, y)
}

/// Extract just the type portion from a `@return` tag body
/// (`array<string, int> an associative array` → `array<string, int>`).
pub fn extract_return_type(s: &str) -> (r: String)
    ensures
        r@ == return_type_of(s@),
{
    let cs = chars_of(s);
    string_of(&extract_return_type_chars(cs.as_slice()))
}


/// `s` with every leading copy of `pat` removed (`trim_start_matches`).
pub open spec fn strip_prefix_all(s: Seq<char>, pat: Seq<char>) -> Seq<char>
    decreases s.len(),
{
    if pat.len() > 0 && starts_at(s, 0, pat) {
        strip_prefix_all(s.skip(pat.len() as int), pat)
    } else {
        s
    }
}

/// `s` with every trailing copy of `pat` removed (`trim_end_matches`).
pub open spec fn strip_suffix_all(s: Seq<char>, pat: Seq<char>) -> Seq<char>
    decreases s.len(),
{
    if pat.len() > 0 && ends_with(s, pat) {
        strip_suffix_all(s.take(s.len() - pat.len()), pat)
    } else {
        s
    }
}

/// New start of `s[from..to]` once every leading `pat` is removed.
pub fn strip_prefix_all_at(s: &[char], from: usize, to: usize, pat: &[char]) -> (r: usize)
    requires
        from <= to <= s@.len(),
    ensures
        from <= r <= to,
        s@.subrange(r as int, to as int) == strip_prefix_all(s@.subrange(from as int, to as int), pat@),
{
    let mut i = from;
    while pat.len() > 0 && pat.len() <= to - i && has_at(s, i, pat)
        invariant
            from <= i <= to <= s@.len(),
            strip_prefix_all(s@.subrange(from as int, to as int), pat@) == strip_prefix_all(
                s@.subrange(i as int, to as int),
                pat@,
            ),
        decreases to - i,
    {
        proof {
            let u = s@.subrange(i as int, to as int);
            assert(u.subrange(0, pat@.len() as int) =~= s@.subrange(i as int, i + pat@.len()));
            assert(u.skip(pat@.len() as int) =~= s@.subrange(i + pat@.len(), to as int));
        }
        i = i + pat.len();
    }
    proof {
        let u = s@.subrange(i as int, to as int);
        if pat@.len() > 0 && pat@.len() <= to - i {
            assert(u.subrange(0, pat@.len() as int) =~= s@.subrange(i as int, i + pat@.len()));
        }
    }
    i
}

/// New end of `s[from..to]` once every trailing `pat` is removed.
pub fn strip_suffix_all_at(s: &[char], from: usize, to: usize, pat: &[char]) -> (r: usize)
    requires
        from <= to <= s@.len(),
    ensures
        from <= r <= to,
        s@.subrange(from as int, r as int) == strip_suffix_all(s@.subrange(from as int, to as int), pat@),
{
    let mut j = to;
    while pat.len() > 0 && pat.len() <= j - from && has_at(s, j - pat.len(), pat)
        invariant
            from <= j <= to <= s@.len(),
            strip_suffix_all(s@.subrange(from as int, to as int), pat@) == strip_suffix_all(
                s@.subrange(from as int, j as int),
                pat@,
            ),
        decreases j,
    {
        proof {
            let u = s@.subrange(from as int, j as int);
            assert(u.skip(u.len() - pat@.len()) =~= s@.subrange(j - pat@.len(), j as int));
            assert(u.take(u.len() - pat@.len()) =~= s@.subrange(from as int, j - pat@.len()));
        }
        j = j - pat.len();
    }
    proof {
        let u = s@.subrange(from as int, j as int);
        if pat@.len() > 0 && pat@.len() <= j - from {
            assert(u.skip(u.len() - pat@.len()) =~= s@.subrange(j - pat@.len(), j as int));
        }
    }
    j
}

/// The lines of `s` as `str::lines` yields them: split at `\n`, a `\r`
/// before the `\n` dropped, no empty line after a final `\n`.
pub open spec fn text_lines(s: Seq<char>) -> Seq<Seq<char>>
    decreases s.len(),
{
    if s.len() == 0 {
        seq![]
    } else {
        let k = find_char(s, '\n');
        proof {
            crate::text::lemma_find_char(s, '\n');
        }
        if k >= s.len() {
            seq![s]
        } else {
            let line = s.take(k as int);
            let line = if line.len() > 0 && line.last() == '\r' {
                line.drop_last()
            } else {
                line
            };
            seq![line] + text_lines(s.skip(k as int + 1))
        }
    }
}

pub open spec fn views(v: Seq<Vec<char>>) -> Seq<Seq<char>> {
    v.map_values(|x: Vec<char>| x@)
}

pub fn split_lines(s: &[char]) -> (r: Vec<Vec<char>>)
    ensures
        views(r@) == text_lines(s@),
{
    let mut out: Vec<Vec<char>> = Vec::new();
    let ghost mut done: Seq<Seq<char>> = Seq::empty();
    let mut i: usize = 0;
    proof {
        assert(s@.skip(0) =~= s@);
    }
    while i < s.len()
        invariant
            i <= s@.len(),
            text_lines(s@) == done + text_lines(s@.skip(i as int)),
            out@.len() == done.len(),
            forall|k: int| 0 <= k < done.len() ==> (#[trigger] out@[k])@ == done[k],
        decreases s.len() - i,
    {
        let k = find_char_in(s, i, s.len(), '\n');
        let ghost u = s@.skip(i as int);
        proof {
            assert(s@.subrange(i as int, s@.len() as int) =~= u);
        }
        let mut e = k;
        if e > i && s[e - 1] == '\r' && k < s.len() {
            e = e - 1;
        }
        let line = copy_range(s, i, e);
        let ghost pv = out@;
        let ghost od = done;
        proof {
            let l0 = u.take(k - i);
            assert(l0 =~= s@.subrange(i as int, k as int));
            if k < s.len() {
                assert(u.skip(k - i + 1) =~= s@.skip(k + 1));
                if l0.len() > 0 && l0.last() == '\r' {
                    assert(line@ =~= l0.drop_last());
                } else {
                    assert(line@ =~= l0);
                }
            } else {
                assert(line@ =~= u);
            }
        }
        out.push(line);
        proof {
            let l0 = u.take(k - i);
            let l1 = if l0.len() > 0 && l0.last() == '\r' {
                l0.drop_last()
            } else {
                l0
            };
            if k < s.len() {
                done = done.push(l1);
                assert(text_lines(s@) =~= done + text_lines(s@.skip(k + 1)));
            } else {
                done = done.push(u);
                assert(text_lines(u) == seq![u]);
                assert(s@.skip(s@.len() as int) =~= Seq::<char>::empty());
                assert(text_lines(s@) =~= done + text_lines(s@.skip(s@.len() as int)));
            }
            assert forall|x: int| 0 <= x < done.len() implies (#[trigger] out@[x])@ == done[x] by {
                if x < od.len() {
                    assert(out@[x] == pv[x]);
                    assert(done[x] == od[x]);
                }
            }
        }
        if k < s.len() {
            i = k + 1;
        } else {
            i = s.len();
        }
    }
    proof {
        assert(s@.skip(i as int) =~= Seq::<char>::empty());
        assert(views(out@) =~= done);
    }
    out
}

/// `ws` joined with single spaces.
pub open spec fn join_spaced(ws: Seq<Seq<char>>) -> Seq<char>
    decreases ws.len(),
{
    if ws.len() == 0 {
        seq![]
    } else if ws.len() == 1 {
        ws[0]
    } else {
        join_spaced(ws.drop_last()) + seq![' '] + ws.last()
    }
}

/// `ws[from..to]` joined with single spaces.
pub fn join_spaced_range(ws: &Vec<Vec<char>>, from: usize, to: usize) -> (r: Vec<char>)
    requires
        from <= to <= ws@.len(),
    ensures
        r@ == join_spaced(views(ws@).subrange(from as int, to as int)),
{
    let mut out: Vec<char> = Vec::new();
    let mut i = from;
    proof {
        assert(views(ws@).subrange(from as int, from as int) =~= Seq::<Seq<char>>::empty());
    }
    while i < to
        invariant
            from <= i <= to <= ws@.len(),
            out@ == join_spaced(views(ws@).subrange(from as int, i as int)),
        decreases to - i,
    {
        let ghost prev = views(ws@).subrange(from as int, i as int);
        if i > from {
            out.push(' ');
        }
        append_chars(&mut out, ws[i].as_slice());
        i = i + 1;
        proof {
            let cur = views(ws@).subrange(from as int, i as int);
            assert(cur.drop_last() =~= prev);
            assert(cur.last() == ws@[i - 1]@);
            if i - 1 == from {
                assert(prev.len() == 0);
                assert(out@ =~= cur[0]);
            } else {
                assert(out@ =~= join_spaced(prev) + seq![' '] + cur.last());
            }
        }
    }
    out
}

/// `AliasName from SourceClass` or `AliasName as LocalAlias from
/// SourceClass`: `(original, local, from_class)`.
pub open spec fn import_type_of(body: Seq<char>) -> Option<(Seq<char>, Seq<char>, Seq<char>)> {
    let f = find_sub(body, " from "@);
    if f >= body.len() {
        None
    } else {
        let from_class = strip_lead(trim(body.skip(f + 6)), '\\');
        let before = body.take(f);
        let a = find_sub(before, " as "@);
        let orig = if a < before.len() {
            trim(before.take(a))
        } else {
            trim(before)
        };
        let local = if a < before.len() {
            trim(before.skip(a + 4))
        } else {
            trim(before)
        };
        if from_class.len() == 0 || orig.len() == 0 || local.len() == 0 {
            None
        } else {
            Some((orig, local, from_class))
        }
    }
}

/// Parse a `@psalm-import-type` body.
pub fn parse_import_type(body: &str) -> (r: Option<super::DocImportType>)
    ensures
        match import_type_of(body@) {
            Some((o, l, f)) => r matches Some(d) && d.original@ == o && d.local@ == l
                && d.from_class@ == f,
            None => r is None,
        },
{
    let s = chars_of(body);
    let ss = s.as_slice();
    let from_pat = chars_of(" from ");
    let as_pat = chars_of(" as ");
    proof {
        reveal_strlit(" from ");
        reveal_strlit(" as ");
        assert(s@.skip(0) =~= s@);
    }
    let f = match find_sub_from(ss, 0, from_pat.as_slice()) {
        Some(f) => f,
        None => {
            return None;
        },
    };
    proof {
        crate::text::lemma_first_where_bounds(s@.len() as int, |i: int| starts_at(s@, i, " from "@), 0);
        assert(f + 6 <= s@.len());
    }
    let n = s.len();
    let (x, y) = trim_range(ss, f + 6, n);
    let x2 = skip_lead(ss, x, y, '\\');
    proof {
        assert(s@.subrange(f + 6, s@.len() as int) =~= s@.skip(f + 6));
        assert(strip_lead(s@.subrange(x as int, y as int), '\\') =~= s@.subrange(x2 as int, y as int));
    }
    let before = copy_range(ss, 0, f);
    let bs = before.as_slice();
    proof {
        assert(before@ =~= s@.take(f as int));
        assert(before@.skip(0) =~= before@);
    }
    let (oa, ob, la, lb) = match find_sub_from(bs, 0, as_pat.as_slice()) {
        Some(a) => {
            proof {
                crate::text::lemma_first_where_bounds(before@.len() as int, |i: int| starts_at(before@, i, " as "@), 0);
                assert(before@.subrange(0, a as int) =~= before@.take(a as int));
                assert(before@.subrange(a + 4, before@.len() as int) =~= before@.skip(a + 4));
            }
            let (oa, ob) = trim_range(bs, 0, a);
            let (la, lb) = trim_range(bs, a + 4, before.len());
            (oa, ob, la, lb)
        },
        None => {
            let (oa, ob) = trim_range(bs, 0, before.len());
            proof {
                assert(before@.subrange(0, before@.len() as int) =~= before@);
            }
            (oa, ob, oa, ob)
        },
    };
    if x2 == y || oa == ob || la == lb {
        return None;
    }
    Some(
        super::DocImportType {
            original: string_of(&copy_range(bs, oa, ob)),
            local: string_of(&copy_range(bs, la, lb)),
            from_class: string_of(&copy_range(ss, x2, y)),
        },
    )
}

/// Index in `w` of the first `=` word at or after `from` (`w.len()` if
/// none).
pub open spec fn eq_word_from(w: Seq<Seq<char>>, from: int) -> int {
    first_where(w.len() as int, |i: int| w[i] == "="@, from)
}

pub open spec fn nonempty(s: Seq<char>) -> Option<Seq<char>> {
    if s.len() > 0 {
        Some(s)
    } else {
        None
    }
}

/// `T`, `T of Bound`, `T as Bound`, each optionally `= Default`, read from
/// the first line of a template tag body up to any following ` @` tag:
/// `(name, bound, default)`.
pub open spec fn template_line(body: Seq<char>) -> Option<(Seq<char>, Option<Seq<char>>, Option<Seq<char>>)> {
    let b = trim(body);
    let ls = text_lines(b);
    let l = trim_end(
        if ls.len() > 0 {
            ls[0]
        } else {
            b
        },
    );
    let c = find_sub(l, " @"@);
    let l2 = if c < l.len() {
        trim_end(l.take(c))
    } else {
        l
    };
    let w = words(l2);
    if l2.len() == 0 || w.len() == 0 {
        None
    } else {
        let has_bound = w.len() > 1 && (w[1] == "of"@ || w[1] == "as"@);
        let e = if has_bound {
            eq_word_from(w, 2)
        } else {
            1
        };
        let bound = if has_bound {
            nonempty(join_spaced(w.subrange(2, e)))
        } else {
            None
        };
        let default = if e < w.len() && w[e] == "="@ {
            nonempty(join_spaced(w.skip(e + 1)))
        } else {
            None
        };
        Some((w[0], bound, default))
    }
}


fn word_is(w: &Vec<char>, lit: &str) -> (r: bool)
    ensures
        r == (w@ == lit@),
{
    let l = chars_of(lit);
    super::validate::chars_eq(w.as_slice(), l.as_slice())
}

/// Read a `@template` body (`@template`, `@template-covariant`, ...):
/// `(name, bound, default)`.
pub fn parse_template_line(_tag_name: &str, body: Option<String>) -> (r: Option<
    (String, Option<String>, Option<String>),
>)
    ensures
        match body {
            None => r is None,
            Some(b) => match template_line(b@) {
                None => r is None,
                Some((n, bd, df)) => r matches Some((rn, rb, rd)) && rn@ == n
                    && (match bd {
                    None => rb is None,
                    Some(x) => rb matches Some(y) && y@ == x,
                }) && (match df {
                    None => rd is None,
                    Some(x) => rd matches Some(y) && y@ == x,
                }),
            },
        },
{
    let body = match body {
        Some(b) => b,
        None => {
            return None;
        },
    };
    let s = chars_of(body.as_str());
    let n = s.len();
    let (x, y) = trim_range(s.as_slice(), 0, n);
    let b = copy_range(s.as_slice(), x, y);
    proof {
        assert(s@.subrange(0, n as int) =~= s@);
    }
    let ls = split_lines(b.as_slice());
    let l0 = if ls.len() > 0 {
        let f = &ls[0];
        copy_range(f.as_slice(), 0, f.len())
    } else {
        copy_range(b.as_slice(), 0, b.len())
    };
    proof {
        if ls@.len() > 0 {
            assert(views(ls@)[0] == ls@[0]@);
            assert(ls@[0]@.subrange(0, ls@[0]@.len() as int) =~= ls@[0]@);
        } else {
            assert(b@.subrange(0, b@.len() as int) =~= b@);
        }
        assert(l0@.take(l0@.len() as int) =~= l0@);
    }
    let e = trim_end_at(l0.as_slice(), l0.len());
    let l = copy_range(l0.as_slice(), 0, e);
    proof {
        assert(l@ =~= l0@.take(e as int));
        assert(l@.skip(0) =~= l@);
    }
    let pat = chars_of(" @");
    proof {
        reveal_strlit(" @");
    }
    let cut = match find_sub_from(l.as_slice(), 0, pat.as_slice()) {
        Some(c) => {
            proof {
                lemma_first_where_bounds(l@.len() as int, |i: int| starts_at(l@, i, " @"@), 0);
            }
            trim_end_at(l.as_slice(), c)
        },
        None => l.len(),
    };
    let l2 = copy_range(l.as_slice(), 0, cut);
    proof {
        assert(l2@ =~= l@.take(cut as int));
        if cut == l@.len() {
            assert(l2@ =~= l@);
        }
    }
    if l2.len() == 0 {
        return None;
    }
    let w = split_words(l2.as_slice(), 0, l2.len());
    proof {
        assert(l2@.subrange(0, l2@.len() as int) =~= l2@);
        assert(views(w@) == words(l2@));
    }
    if w.len() == 0 {
        return None;
    }
    let has_bound = w.len() > 1 && (word_is(&w[1], "of") || word_is(&w[1], "as"));
    proof {
        if w@.len() > 1 {
            assert(views(w@)[1] == w@[1]@);
        }
    }
    let mut k: usize = 1;
    if has_bound {
        k = 2;
        while k < w.len() && !word_is(&w[k], "=")
            invariant
                2 <= k <= w@.len(),
                views(w@) == words(l2@),
                forall|j: int| 2 <= j < k ==> (#[trigger] words(l2@)[j]) != "="@,
            decreases w.len() - k,
        {
            proof {
                assert(views(w@)[k as int] == w@[k as int]@);
            }
            k = k + 1;
        }
        proof {
            let ww = words(l2@);
            if k < w@.len() {
                assert(views(w@)[k as int] == w@[k as int]@);
            }
            lemma_first_where_at(ww.len() as int, |i: int| ww[i] == "="@, 2, k as int);
        }
    }
    let bound = if has_bound {
        let j = join_spaced_range(&w, 2, k);
        if j.len() > 0 {
            Some(string_of(&j))
        } else {
            None
        }
    } else {
        None
    };
    let has_default = k < w.len() && word_is(&w[k], "=");
    proof {
        if k < w@.len() {
            assert(views(w@)[k as int] == w@[k as int]@);
        }
    }
    let default = if has_default {
        let j = join_spaced_range(&w, k + 1, w.len());
        proof {
            assert(views(w@).subrange(k + 1, w@.len() as int) =~= views(w@).skip(k + 1));
        }
        if j.len() > 0 {
            Some(string_of(&j))
        } else {
            None
        }
    } else {
        None
    };
    proof {
        assert(views(w@)[0] == w@[0]@);
        reveal_strlit("of");
        reveal_strlit("as");
        reveal_strlit("=");
    }
    Some((string_of(&w[0]), bound, default))
}

/// One line of a raw comment with the comment markers and the leading
/// `*` taken off, trimmed.
pub open spec fn clean_line(l: Seq<char>) -> Seq<char> {
    let l1 = trim(strip_prefix_all(trim(l), "/**"@));
    let l2 = trim(strip_suffix_all(l1, "*/"@));
    let l3 = trim(strip_prefix_all(l2, "*/"@));
    let l4 = if starts_at(l3, 0, "* "@) {
        l3.skip(2)
    } else {
        strip_lead(l3, '*')
    };
    trim(l4)
}

/// The non-empty cleaned lines before the first one that opens a tag.
pub open spec fn prose_lines(ls: Seq<Seq<char>>) -> Seq<Seq<char>>
    decreases ls.len(),
{
    if ls.len() == 0 {
        seq![]
    } else {
        let c = clean_line(ls[0]);
        if c.len() > 0 && c[0] == '@' {
            seq![]
        } else if c.len() > 0 {
            seq![c] + prose_lines(ls.drop_first())
        } else {
            prose_lines(ls.drop_first())
        }
    }
}

/// The prose of a raw docblock: every line before the first tag line, joined
/// with single spaces.
pub open spec fn description_of(text: Seq<char>) -> Seq<char> {
    join_spaced(prose_lines(text_lines(text)))
}

fn clean_line_exec(l: &[char]) -> (r: Vec<char>)
    ensures
        r@ == clean_line(l@),
{
    let open_pat = chars_of("/**");
    let close_pat = chars_of("*/");
    let star_pat = chars_of("* ");
    proof {
        reveal_strlit("/**");
        reveal_strlit("*/");
        reveal_strlit("* ");
        assert(l@.subrange(0, l@.len() as int) =~= l@);
    }
    let (a1, b1) = trim_range(l, 0, l.len());
    let a2 = strip_prefix_all_at(l, a1, b1, open_pat.as_slice());
    let (a3, b3) = trim_range(l, a2, b1);
    let b4 = strip_suffix_all_at(l, a3, b3, close_pat.as_slice());
    let (a5, b5) = trim_range(l, a3, b4);
    let a6 = strip_prefix_all_at(l, a5, b5, close_pat.as_slice());
    let (a7, b7) = trim_range(l, a6, b5);
    let ghost l3 = l@.subrange(a7 as int, b7 as int);
    let a8 = if b7 - a7 >= 2 && has_at(l, a7, star_pat.as_slice()) {
        proof {
            assert(l3.subrange(0, 2) =~= l@.subrange(a7 as int, a7 + 2));
            assert(l@.subrange(a7 + 2, b7 as int) =~= l3.skip(2));
        }
        a7 + 2
    } else {
        let a = skip_lead(l, a7, b7, '*');
        proof {
            if l3.len() >= 2 {
                assert(l3.subrange(0, 2) =~= l@.subrange(a7 as int, a7 + 2));
            }
            assert(l@.subrange(a as int, b7 as int) =~= strip_lead(l3, '*'));
        }
        a
    };
    let (a9, b9) = trim_range(l, a8, b7);
    copy_range(l, a9, b9)
}

/// The free text before the first tag of a raw docblock.
pub fn extract_description(text: &str) -> (r: String)
    ensures
        r@ == description_of(text@),
{
    let s = chars_of(text);
    let ls = split_lines(s.as_slice());
    let mut kept: Vec<Vec<char>> = Vec::new();
    let mut i: usize = 0;
    let mut stop = false;
    proof {
        assert(views(ls@).skip(0) =~= views(ls@));
    }
    while i < ls.len() && !stop
        invariant
            i <= ls@.len(),
            views(ls@) == text_lines(s@),
            !stop ==> prose_lines(views(ls@)) == views(kept@) + prose_lines(views(ls@).skip(i as int)),
            stop ==> prose_lines(views(ls@)) == views(kept@),
        decreases ls.len() - i + (if stop { 0int } else { 1int }),
    {
        let c = clean_line_exec(ls[i].as_slice());
        let ghost rest = views(ls@).skip(i as int);
        proof {
            assert(rest[0] == ls@[i as int]@);
            assert(rest.drop_first() =~= views(ls@).skip(i + 1));
        }
        if c.len() > 0 && c[0] == '@' {
            stop = true;
            proof {
                assert(views(kept@) + seq![] =~= views(kept@));
            }
        } else {
            if c.len() > 0 {
                let ghost pk = views(kept@);
                kept.push(c);
                proof {
                    assert(views(kept@) =~= pk + seq![c@]);
                    assert(pk + (seq![c@] + views(ls@).skip(i + 1)) =~= (pk + seq![c@]) + views(ls@).skip(i + 1));
                    assert(pk + (seq![c@] + prose_lines(views(ls@).skip(i + 1))) =~= views(kept@) + prose_lines(views(ls@).skip(i + 1)));
                }
            }
            i = i + 1;
        }
    }
    proof {
        if !stop {
            assert(views(ls@).skip(i as int) =~= Seq::<Seq<char>>::empty());
            assert(views(kept@) + seq![] =~= views(kept@));
        }
        assert(views(kept@).subrange(0, kept@.len() as int) =~= views(kept@));
    }
    let j = join_spaced_range(&kept, 0, kept.len());
    string_of(&j)
}

/// `s` opens and closes with the same quote character (`'` or `"`).
pub open spec fn quoted(s: Seq<char>) -> bool {
    s.len() >= 1 && ((s[0] == '\'' && s.last() == '\'') || (s[0] == '"' && s.last() == '"'))
}

/// `s` without its enclosing quotes, when it is quoted.
pub fn strip_quotes(s: &str) -> (r: &str)
    requires
        !(s@.len() == 1 && (s@[0] == '\'' || s@[0] == '"')),
    ensures
        r@ == if quoted(s@) {
            s@.subrange(1, s@.len() - 1)
        } else {
            s@
        },
{
    let n = s.unicode_len();
    if n >= 1 {
        let first = s.get_char(0);
        let last = s.get_char(n - 1);
        if (first == '\'' && last == '\'') || (first == '"' && last == '"') {
            return s.substring_char(1, n - 1);
        }
    }
    s
}

} // verus!
