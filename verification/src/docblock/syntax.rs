//! The syntactic form of a PHPDoc type expression, one level deep: which
//! construct the text is and the texts of its parts. Building the type
//! itself from these parts is left to the type model.
use vstd::prelude::*;
use crate::text::{
    chars_of, contains_sub, copy_range, decimal, eq_ignore_ascii_case, find_char, has_at,
    rfind_sub, starts_at, string_of, trim, trim_end, trim_start, first_where, parse_i64,
};
use super::lines::quoted;
use super::scan::{
    find_char_at_depth_in, find_is_marker_at_depth, is_marker, matching_close, split_pieces,
    split_top_level, top_char_pos,
};
use super::lines::strip_lead;
use super::validate::{is_valid_php_identifier_chars, php_identifier};

verus! {

broadcast use vstd::string::group_string_axioms;

pub fn trimmed_range(s: &[char], from: usize, to: usize) -> (r: Vec<char>)
    requires
        from <= to <= s@.len(),
    ensures
        r@ == trim(s@.subrange(from as int, to as int)),
{
    let (a, b) = crate::text::trim_range(s, from, to);
    copy_range(s, a, b)
}

/// `$x is T ? A : B` (or `T is U ? A : B` for a template `T`): the
/// parameter, the subject type and the two branch types, the negated
/// `is not` form already swapped.
pub struct ConditionalParts {
    pub param_name: String,
    pub subject: String,
    pub if_true: String,
    pub if_false: String,
}

/// `(param_name, subject, if_true, if_false)`.
pub type ConditionalSpec = (Seq<char>, Seq<char>, Seq<char>, Seq<char>);

pub open spec fn conditional_view(c: ConditionalParts) -> ConditionalSpec {
    (c.param_name@, c.subject@, c.if_true@, c.if_false@)
}

/// The conditional read from the inside of `( … )`.
pub open spec fn conditional_of(s: Seq<char>) -> Option<ConditionalSpec> {
    match is_marker(s) {
        None => None,
        Some((pos, len, negated)) => {
            let raw = trim(s.take(pos));
            let name = if raw.len() > 0 && raw[0] == '$' {
                raw.drop_first()
            } else {
                raw
            };
            let name_ok = if raw.len() > 0 && raw[0] == '$' {
                name.len() > 0
            } else {
                php_identifier(raw) && find_char(s, '?') < s.len()
            };
            let after = trim(s.skip(pos + len));
            let q = top_char_pos(after, '?');
            let rest = trim(after.skip(q + 1));
            let c = top_char_pos(rest, ':');
            if !name_ok || q >= after.len() || c >= rest.len() {
                None
            } else {
                let t = trim(rest.take(c));
                let f = trim(rest.skip(c + 1));
                Some(
                    (
                        name,
                        trim(after.take(q)),
                        if negated {
                            f
                        } else {
                            t
                        },
                        if negated {
                            t
                        } else {
                            f
                        },
                    ),
                )
            }
        },
    }
}

/// Read a conditional type `$param is Subject ? IfTrue : IfFalse` (or the
/// `is not` form) from the text inside its parentheses.
pub fn parse_conditional_type(s: &str) -> (r: Option<ConditionalParts>)
    ensures
        match conditional_of(s@) {
            None => r is None,
            Some(c) => r matches Some(x) && conditional_view(x) == c,
        },
{
    let cs = chars_of(s);
    let n = cs.len();
    let (pos, len, negated) = match find_is_marker_at_depth(cs.as_slice()) {
        Some(m) => m,
        None => {
            return None;
        },
    };
    proof {
        crate::text::lemma_first_where_bounds(n as int, super::scan::is_marker_at(cs@), 0);
        assert(crate::text::starts_at(cs@, pos as int, " is not "@) || crate::text::starts_at(
            cs@,
            pos as int,
            " is "@,
        ));
        reveal_strlit(" is not ");
        reveal_strlit(" is ");
        assert(pos + len <= n);
        assert(cs@.subrange(0, pos as int) =~= cs@.take(pos as int));
    }
    let raw = trimmed_range(cs.as_slice(), 0, pos);
    let dollar = raw.len() > 0 && raw[0] == '$';
    let name = if dollar {
        copy_range(raw.as_slice(), 1, raw.len())
    } else {
        copy_range(raw.as_slice(), 0, raw.len())
    };
    proof {
        assert(raw@.subrange(1, raw@.len() as int) =~= raw@.drop_first());
        assert(raw@.subrange(0, raw@.len() as int) =~= raw@);
        assert(cs@.subrange(0, n as int) =~= cs@);
    }
    if dollar {
        if name.len() == 0 {
            return None;
        }
    } else {
        let ident = is_valid_php_identifier_chars(raw.as_slice());
        let q_any = crate::text::find_char_in(cs.as_slice(), 0, n, '?') < n;
        if !ident || !q_any {
            return None;
        }
    }
    let after = trimmed_range(cs.as_slice(), pos + len, n);
    proof {
        assert(cs@.subrange(pos + len, n as int) =~= cs@.skip(pos + len));
    }
    let an = after.len();
    let q = match find_char_at_depth_in(after.as_slice(), 0, an, '?') {
        Some(q) => q,
        None => {
            proof {
                assert(after@.subrange(0, an as int) =~= after@);
            }
            return None;
        },
    };
    proof {
        assert(after@.subrange(0, an as int) =~= after@);
        assert(after@.subrange(0, q as int) =~= after@.take(q as int));
        assert(after@.subrange(q + 1, an as int) =~= after@.skip(q + 1));
    }
    let subject = trimmed_range(after.as_slice(), 0, q);
    let rest = trimmed_range(after.as_slice(), q + 1, an);
    let rn = rest.len();
    let c = match find_char_at_depth_in(rest.as_slice(), 0, rn, ':') {
        Some(c) => c,
        None => {
            proof {
                assert(rest@.subrange(0, rn as int) =~= rest@);
            }
            return None;
        },
    };
    proof {
        assert(rest@.subrange(0, rn as int) =~= rest@);
        assert(rest@.subrange(0, c as int) =~= rest@.take(c as int));
        assert(rest@.subrange(c + 1, rn as int) =~= rest@.skip(c + 1));
    }
    let t = trimmed_range(rest.as_slice(), 0, c);
    let f = trimmed_range(rest.as_slice(), c + 1, rn);
    let (if_true, if_false) = if negated {
        (f, t)
    } else {
        (t, f)
    };
    Some(
        ConditionalParts {
            param_name: string_of(&name),
            subject: string_of(&subject),
            if_true: string_of(&if_true),
            if_false: string_of(&if_false),
        },
    )
}

/// A parameter of a callable signature.
pub struct CallableParam {
    pub type_text: String,
    /// The `$name` without `$`, or `arg<i>` for the i-th (counting empty
    /// slots) unnamed parameter.
    pub name: String,
    pub is_variadic: bool,
    pub is_optional: bool,
}

/// `callable(T, ...): R`, `Closure(T $x = ...): R` and their `pure-` forms.
pub struct CallableParts {
    pub is_closure: bool,
    pub params: Vec<CallableParam>,
    pub return_type: Option<String>,
}

/// `(type_text, name, is_variadic, is_optional)`.
pub type CallableParamSpec = (Seq<char>, Seq<char>, bool, bool);

/// `(is_closure, params, return_type)`.
pub type CallableSpec = (bool, Seq<CallableParamSpec>, Option<Seq<char>>);

pub open spec fn callable_param_view(p: CallableParam) -> CallableParamSpec {
    (p.type_text@, p.name@, p.is_variadic, p.is_optional)
}

pub open spec fn callable_view(c: CallableParts) -> CallableSpec {
    (
        c.is_closure,
        c.params@.map_values(|p: CallableParam| callable_param_view(p)),
        match c.return_type {
            Some(t) => Some(t@),
            None => None,
        },
    )
}

/// One parameter, the `i`-th of the list.
pub open spec fn callable_param_of(p: Seq<char>, i: nat) -> CallableParamSpec {
    let variadic = starts_at(p, 0, "..."@);
    let p1 = if variadic {
        trim_start(p.skip(3))
    } else {
        p
    };
    let optional = p1.len() > 0 && p1.last() == '=';
    let p2 = if optional {
        trim_end(p1.drop_last())
    } else {
        p1
    };
    let d = rfind_sub(p2, "$"@);
    if d >= 0 {
        (trim(p2.take(d)), p2.skip(d + 1), variadic, optional || variadic)
    } else {
        (p2, "arg"@ + decimal(i), variadic, optional || variadic)
    }
}

/// The non-empty parameters of the list, each numbered by its slot.
pub open spec fn callable_params_of(ps: Seq<Seq<char>>) -> Seq<CallableParamSpec>
    decreases ps.len(),
{
    if ps.len() == 0 {
        seq![]
    } else {
        let before = callable_params_of(ps.drop_last());
        if ps.last().len() == 0 {
            before
        } else {
            before.push(callable_param_of(ps.last(), (ps.len() - 1) as nat))
        }
    }
}

/// `kw` starts `t`, ASCII case ignored.
pub open spec fn starts_ci(t: Seq<char>, kw: Seq<char>) -> bool {
    kw.len() <= t.len() && eq_ignore_ascii_case(t.take(kw.len() as int), kw)
}

/// The callable signature written as `s`.
pub open spec fn callable_of(s: Seq<char>) -> Option<CallableSpec> {
    match callable_head(s) {
        None => None,
        Some((is_closure, rest)) => match matching_close(rest) {
            None => None,
            Some(close) => {
                let after = trim(rest.skip(close + 1));
                Some(
                    (
                        is_closure,
                        callable_params_of(split_pieces(rest.subrange(1, close), ',', false)),
                        if after.len() > 0 && after[0] == ':' {
                            Some(trim(after.drop_first()))
                        } else {
                            None
                        },
                    ),
                )
            },
        },
    }
}

fn callable_param_exec(p: &[char], i: usize) -> (r: CallableParam)
    ensures
        callable_param_view(r) == callable_param_of(p@, i as nat),
{
    let dots = chars_of("...");
    let dollar = chars_of("$");
    proof {
        reveal_strlit("...");
        reveal_strlit("$");
    }
    let n = p.len();
    let variadic = n >= 3 && has_at(p, 0, dots.as_slice());
    let p1: Vec<char> = if variadic {
        let (a, _) = crate::text::trim_range(p, 3, n);
        proof {
            assert(p@.subrange(3, n as int) =~= p@.skip(3));
            assert(p@.subrange(a as int, n as int) =~= trim_start(p@.skip(3)));
        }
        copy_range(p, a, n)
    } else {
        proof {
            if n < 3 {
                assert(!starts_at(p@, 0, "..."@));
            }
        }
        copy_range(p, 0, n)
    };
    proof {
        assert(p@.subrange(0, n as int) =~= p@);
    }
    let optional = p1.len() > 0 && p1[p1.len() - 1] == '=';
    let p2: Vec<char> = if optional {
        let e = crate::text::trim_end_at(p1.as_slice(), p1.len() - 1);
        proof {
            assert(p1@.take(p1@.len() - 1) =~= p1@.drop_last());
        }
        copy_range(p1.as_slice(), 0, e)
    } else {
        copy_range(p1.as_slice(), 0, p1.len())
    };
    proof {
        assert(p1@.subrange(0, p1@.len() as int) =~= p1@);
        assert(p2@.take(p2@.len() as int) =~= p2@);
    }
    let m = p2.len();
    match crate::text::rfind_at(p2.as_slice(), m, dollar.as_slice()) {
        Some(d) => {
            proof {
                crate::text::lemma_last_where(|j: int| starts_at(p2@.take(m as int), j, "$"@), m as int);
            }
            let ty = trimmed_range(p2.as_slice(), 0, d);
            let name = copy_range(p2.as_slice(), d + 1, m);
            proof {
                assert(p2@.subrange(0, d as int) =~= p2@.take(d as int));
                assert(name@ =~= p2@.skip(d + 1));
            }
            CallableParam {
                type_text: string_of(&ty),
                name: string_of(&name),
                is_variadic: variadic,
                is_optional: optional || variadic,
            }
        },
        None => {
            let mut name = chars_of("arg");
            let digits = crate::text::u64_decimal(i as u64);
            crate::text::append_chars(&mut name, digits.as_slice());
            CallableParam {
                type_text: string_of(&p2),
                name: string_of(&name),
                is_variadic: variadic,
                is_optional: optional || variadic,
            }
        },
    }
}

fn ci_prefix(t: &[char], from: usize, kw: &str) -> (r: bool)
    requires
        from <= t@.len(),
    ensures
        r == starts_ci(t@.skip(from as int), kw@),
{
    let k = chars_of(kw);
    if k.len() > t.len() - from {
        return false;
    }
    let head = copy_range(t, from, from + k.len());
    proof {
        assert(head@ =~= t@.skip(from as int).take(k@.len() as int));
    }
    crate::text::same_ignoring_ascii_case(head.as_slice(), k.as_slice())
}

fn callable_params_exec(pieces: &Vec<Vec<char>>) -> (r: Vec<CallableParam>)
    ensures
        r@.map_values(|p: CallableParam| callable_param_view(p)) == callable_params_of(
            pieces@.map_values(|v: Vec<char>| v@),
        ),
{
    let ghost pv = pieces@.map_values(|v: Vec<char>| v@);
    let mut params: Vec<CallableParam> = Vec::new();
    let mut i: usize = 0;
    while i < pieces.len()
        invariant
            i <= pieces@.len(),
            pv == pieces@.map_values(|v: Vec<char>| v@),
            params@.map_values(|p: CallableParam| callable_param_view(p)) == callable_params_of(
                pv.take(i as int),
            ),
        decreases pieces.len() - i,
    {
        let ghost before = params@.map_values(|p: CallableParam| callable_param_view(p));
        proof {
            assert(pv.take(i + 1).drop_last() =~= pv.take(i as int));
            assert(pv.take(i + 1).last() == pieces@[i as int]@);
        }
        if pieces[i].len() > 0 {
            let p = callable_param_exec(pieces[i].as_slice(), i);
            let ghost pvw = callable_param_view(p);
            params.push(p);
            proof {
                assert(params@.map_values(|p: CallableParam| callable_param_view(p)) =~= before.push(
                    pvw,
                ));
            }
        }
        i = i + 1;
    }
    proof {
        assert(pv.take(pieces@.len() as int) =~= pv);
    }
    params
}

/// The keyword of a callable signature: whether it is a closure, and the
/// text after the keyword, leading whitespace removed.
pub open spec fn callable_head(s: Seq<char>) -> Option<(bool, Seq<char>)> {
    let s1 = strip_lead(s, '\\');
    let pure_len: int = if starts_ci(s1, "pure-"@) {
        5
    } else {
        0
    };
    let s2 = s1.skip(pure_len);
    let is_closure = starts_ci(s2, "closure"@);
    let is_callable = starts_ci(s2, "callable"@);
    if !is_closure && !is_callable {
        None
    } else {
        Some(
            (
                is_closure,
                trim_start(
                    s2.skip(
                        if is_closure {
                            7
                        } else {
                            8
                        },
                    ),
                ),
            ),
        )
    }
}

fn callable_head_exec(cs: &[char]) -> (r: Option<(bool, Vec<char>)>)
    ensures
        match callable_head(cs@) {
            None => r is None,
            Some((c, t)) => r matches Some((rc, rt)) && rc == c && rt@ == t,
        },
{
    let n = cs.len();
    let st = super::lines::skip_lead(cs, 0, n, '\\');
    proof {
        assert(cs@.subrange(0, n as int) =~= cs@);
        assert(cs@.skip(st as int) =~= strip_lead(cs@, '\\'));
    }
    let pure = ci_prefix(cs, st, "pure-");
    proof {
        reveal_strlit("pure-");
        reveal_strlit("closure");
        reveal_strlit("callable");
    }
    let b = if pure {
        st + 5
    } else {
        st
    };
    proof {
        assert(cs@.skip(b as int) =~= strip_lead(cs@, '\\').skip(if pure { 5int } else { 0int }));
    }
    let is_closure = ci_prefix(cs, b, "closure");
    let is_callable = ci_prefix(cs, b, "callable");
    if !is_closure && !is_callable {
        return None;
    }
    let kw_len: usize = if is_closure {
        7
    } else {
        8
    };
    let (a, _) = crate::text::trim_range(cs, b + kw_len, n);
    let rest = copy_range(cs, a, n);
    proof {
        let s2 = cs@.skip(b as int);
        assert(cs@.subrange(b + kw_len, n as int) =~= s2.skip(kw_len as int));
        assert(rest@ =~= trim_start(s2.skip(kw_len as int)));
    }
    Some((is_closure, rest))
}

/// Read a callable or closure signature: `callable(int, string=): bool`,
/// `\Closure(T $x, ...$rest): R`, `pure-callable(): void`.
pub fn parse_callable_syntax(s: &str) -> (r: Option<CallableParts>)
    ensures
        match callable_of(s@) {
            None => r is None,
            Some(c) => r matches Some(x) && callable_view(x) == c,
        },
{
    let cs = chars_of(s);
    let (is_closure, rest) = match callable_head_exec(cs.as_slice()) {
        Some(h) => h,
        None => {
            return None;
        },
    };
    let rn = rest.len();
    let close = match super::scan::find_matching_paren_in(rest.as_slice(), 0, rn) {
        Some(c) => c,
        None => {
            proof {
                assert(rest@.subrange(0, rn as int) =~= rest@);
            }
            return None;
        },
    };
    proof {
        assert(rest@.subrange(0, rn as int) =~= rest@);
        let k = matching_close(rest@)->0;
        crate::text::lemma_first_where_bounds(rn as int, super::scan::closes_to_top(rest@), 0);
        assert(k != 0);
    }
    let inner = copy_range(rest.as_slice(), 1, close);
    let pieces = split_top_level(inner.as_slice(), ',', false);
    let params = callable_params_exec(&pieces);
    let after = trimmed_range(rest.as_slice(), close + 1, rn);
    proof {
        assert(rest@.subrange(close + 1, rn as int) =~= rest@.skip(close + 1));
    }
    let return_type = if after.len() > 0 && after[0] == ':' {
        let r = trimmed_range(after.as_slice(), 1, after.len());
        proof {
            assert(after@.subrange(1, after@.len() as int) =~= after@.drop_first());
        }
        Some(string_of(&r))
    } else {
        None
    };
    Some(CallableParts { is_closure, params, return_type })
}

/// A key of an array shape.
#[derive(Debug, Clone)]
pub enum ShapeKey {
    Int(i64),
    Str(String),
}

/// A key as plain values: `(Some(n), "")` for an integer key, `(None,
/// text)` for a string key.
pub type ShapeKeySpec = (Option<i64>, Seq<char>);

/// `(key, type text, optional)`.
pub type ShapeEntrySpec = (ShapeKeySpec, Seq<char>, bool);

pub open spec fn shape_key_view(k: ShapeKey) -> ShapeKeySpec {
    match k {
        ShapeKey::Int(n) => (Some(n), seq![]),
        ShapeKey::Str(t) => (None, t@),
    }
}

/// `array{k: T, ...}` / `list{T, ...}`: the entries in key order of first
/// appearance (a repeated key keeps its place and takes the later type), and
/// whether the shape is open (`...`).
pub struct ShapeParts {
    pub entries: Vec<(ShapeKey, String, bool)>,
    pub is_open: bool,
    pub is_list: bool,
}

pub open spec fn shape_entries_view(v: Seq<(ShapeKey, String, bool)>) -> Seq<ShapeEntrySpec> {
    v.map_values(|e: (ShapeKey, String, bool)| (shape_key_view(e.0), e.1@, e.2))
}

pub open spec fn entry_has_key(es: Seq<ShapeEntrySpec>, k: ShapeKeySpec) -> spec_fn(int) -> bool {
    |j: int| es[j].0 == k
}

/// An ordered map's insert: a present key keeps its place and takes the
/// new value; a new key goes last.
pub open spec fn shape_insert(es: Seq<ShapeEntrySpec>, k: ShapeKeySpec, t: Seq<char>, opt: bool) -> Seq<
    ShapeEntrySpec,
> {
    let i = first_where(es.len() as int, entry_has_key(es, k), 0);
    if i < es.len() {
        es.update(i, (k, t, opt))
    } else {
        es.push((k, t, opt))
    }
}

/// The key written before a shape entry's `:`: a trailing `?` marks it
/// optional; quotes are removed; an integer literal is an integer key.
pub open spec fn shape_key_of(key_part: Seq<char>) -> (ShapeKeySpec, bool) {
    let optional = key_part.len() > 0 && key_part.last() == '?';
    let k0 = trim(strip_trail(key_part, '?'));
    let k = if quoted(k0) {
        k0.subrange(1, k0.len() - 1)
    } else {
        k0
    };
    match parse_i64(k) {
        Some(n) => ((Some(n), seq![]), optional),
        None => ((None, k), optional),
    }
}

/// No entry key is a lone quote character (which the key reader cannot
/// unquote).
pub open spec fn shape_keys_readable(items: Seq<Seq<char>>) -> bool {
    forall|i: int|
        0 <= i < items.len() ==> {
            let it = trim(#[trigger] items[i]);
            let c = top_char_pos(it, ':');
            let k0 = trim(strip_trail(trim(it.take(c)), '?'));
            c < it.len() ==> !(k0.len() == 1 && (k0[0] == '\'' || k0[0] == '"'))
        }
}

/// The key of the shape entry `item` (if it has one) is not a lone quote.
pub open spec fn key_readable(item: Seq<char>) -> bool {
    let it = trim(item);
    let c = top_char_pos(it, ':');
    let k0 = trim(strip_trail(trim(it.take(c)), '?'));
    c < it.len() ==> !(k0.len() == 1 && (k0[0] == '\'' || k0[0] == '"'))
}

/// Whether every entry key of the shape body `inner` can be read.
pub fn shape_keys_readable_exec(inner: &str) -> (r: bool)
    ensures
        r == shape_keys_readable(split_pieces(inner@, ',', false)),
{
    let cs = chars_of(inner);
    let pieces = split_top_level(cs.as_slice(), ',', false);
    let ghost pv = pieces@.map_values(|v: Vec<char>| v@);
    let mut i: usize = 0;
    while i < pieces.len()
        invariant
            i <= pieces@.len(),
            pv == pieces@.map_values(|v: Vec<char>| v@),
            pv == split_pieces(inner@, ',', false),
            forall|k: int| 0 <= k < i ==> key_readable(#[trigger] pv[k]),
        decreases pieces.len() - i,
    {
        let it = trimmed_range(pieces[i].as_slice(), 0, pieces[i].len());
        proof {
            assert(pieces@[i as int]@.subrange(0, pieces@[i as int]@.len() as int) =~= pieces@[i as int]@);
            assert(pv[i as int] == pieces@[i as int]@);
        }
        let n = it.len();
        match find_char_at_depth_in(it.as_slice(), 0, n, ':') {
            Some(c) => {
                proof {
                    assert(it@.subrange(0, n as int) =~= it@);
                    assert(it@.subrange(0, c as int) =~= it@.take(c as int));
                }
                let key_part = trimmed_range(it.as_slice(), 0, c);
                let st = strip_trail_exec(key_part.as_slice(), '?');
                let k0 = trimmed_range(st.as_slice(), 0, st.len());
                proof {
                    assert(st@.subrange(0, st@.len() as int) =~= st@);
                }
                if k0.len() == 1 && (k0[0] == '\'' || k0[0] == '"') {
                    proof {
                        assert(!key_readable(pv[i as int]));
                    }
                    return false;
                }
            },
            None => {
                proof {
                    assert(it@.subrange(0, n as int) =~= it@);
                }
            },
        }
        i = i + 1;
    }
    true
}

/// `(entries, is_open, next positional index)` after reading `items`.
pub open spec fn shape_state(items: Seq<Seq<char>>) -> (Seq<ShapeEntrySpec>, bool, int)
    decreases items.len(),
{
    if items.len() == 0 {
        (seq![], false, 0)
    } else {
        let (es, open, auto) = shape_state(items.drop_last());
        let it = trim(items.last());
        if it.len() == 0 {
            (es, open, auto)
        } else if it == "..."@ {
            (es, true, auto)
        } else {
            let c = top_char_pos(it, ':');
            if c < it.len() {
                let (k, opt) = shape_key_of(trim(it.take(c)));
                (shape_insert(es, k, trim(it.skip(c + 1)), opt), open, auto)
            } else {
                (shape_insert(es, (Some(auto as i64), seq![]), it, false), open, auto + 1)
            }
        }
    }
}

/// `s` without its trailing run of `c`.
pub open spec fn strip_trail(s: Seq<char>, c: char) -> Seq<char>
    decreases s.len(),
{
    if s.len() > 0 && s.last() == c {
        strip_trail(s.drop_last(), c)
    } else {
        s
    }
}

fn strip_trail_exec(s: &[char], c: char) -> (r: Vec<char>)
    ensures
        r@ == strip_trail(s@, c),
{
    let mut e = s.len();
    proof {
        assert(s@.take(e as int) =~= s@);
    }
    while e > 0 && s[e - 1] == c
        invariant
            e <= s@.len(),
            strip_trail(s@, c) == strip_trail(s@.take(e as int), c),
        decreases e,
    {
        proof {
            assert(s@.take(e as int).drop_last() =~= s@.take(e - 1));
        }
        e = e - 1;
    }
    copy_range(s, 0, e)
}

fn shape_key_exec(key_part: &[char]) -> (r: (ShapeKey, bool))
    requires
        !({
            let k0 = trim(strip_trail(key_part@, '?'));
            k0.len() == 1 && (k0[0] == '\'' || k0[0] == '"')
        }),
    ensures
        (shape_key_view(r.0), r.1) == shape_key_of(key_part@),
{
    let optional = key_part.len() > 0 && key_part[key_part.len() - 1] == '?';
    let k0 = trimmed_range(strip_trail_exec(key_part, '?').as_slice(), 0, strip_trail_exec(key_part, '?').len());
    let st = string_of(&k0);
    proof {
        let t = strip_trail(key_part@, '?');
        assert(t.subrange(0, t.len() as int) =~= t);
    }
    let unq = super::lines::strip_quotes(st.as_str());
    let kc = chars_of(unq);
    match crate::text::parse_i64_at(kc.as_slice(), 0, kc.len()) {
        Some(n) => {
            proof {
                assert(kc@.subrange(0, kc@.len() as int) =~= kc@);
            }
            (ShapeKey::Int(n), optional)
        },
        None => {
            proof {
                assert(kc@.subrange(0, kc@.len() as int) =~= kc@);
            }
            (ShapeKey::Str(string_of(&kc)), optional)
        },
    }
}

fn shape_insert_exec(es: &mut Vec<(ShapeKey, String, bool)>, k: ShapeKey, t: String, opt: bool)
    ensures
        shape_entries_view(final(es)@) == shape_insert(shape_entries_view(old(es)@), shape_key_view(k), t@, opt),
{
    let ghost v = shape_entries_view(es@);
    let ghost kv = shape_key_view(k);
    let ghost tv = t@;
    let ghost p = entry_has_key(v, kv);
    let mut i: usize = 0;
    while i < es.len()
        invariant
            i <= es@.len(),
            v == shape_entries_view(es@),
            v == shape_entries_view(old(es)@),
            kv == shape_key_view(k),
            tv == t@,
            p == entry_has_key(v, kv),
            forall|j: int| 0 <= j < i ==> !#[trigger] p(j),
        decreases es.len() - i,
    {
        let same = match (&es[i].0, &k) {
            (ShapeKey::Int(a), ShapeKey::Int(b)) => *a == *b,
            (ShapeKey::Str(a), ShapeKey::Str(b)) => {
                let ac = chars_of(a.as_str());
                let bc = chars_of(b.as_str());
                super::validate::chars_eq(ac.as_slice(), bc.as_slice())
            },
            _ => false,
        };
        proof {
            assert(v[i as int] == (shape_key_view(es@[i as int].0), es@[i as int].1@, es@[i as int].2));
            assert(same == p(i as int));
        }
        if same {
            proof {
                crate::text::lemma_first_where_at(v.len() as int, p, 0, i as int);
            }
            let entry = (k, t, opt);
            let ghost ev = (shape_key_view(entry.0), entry.1@, entry.2);
            let ghost before = es@;
            es.set(i, entry);
            proof {
                assert(es@ == before.update(i as int, entry));
                assert(ev == (kv, tv, opt));
                assert forall|j: int| 0 <= j < es@.len() implies #[trigger] shape_entries_view(es@)[j] == v.update(i as int, ev)[j] by {
                    if j != i {
                        assert(es@[j] == before[j]);
                    }
                }
                assert(shape_entries_view(es@) =~= v.update(i as int, (kv, tv, opt)));
                assert(first_where(v.len() as int, entry_has_key(v, kv), 0) == i);
                assert(shape_insert(v, kv, tv, opt) == v.update(i as int, (kv, tv, opt)));
            }
            return;
        }
        i = i + 1;
    }
    proof {
        crate::text::lemma_first_where_at(v.len() as int, p, 0, v.len() as int);
    }
    es.push((k, t, opt));
    proof {
        assert(shape_entries_view(es@) =~= v.push((kv, t@, opt)));
    }
}

/// Read the inside of `array{...}` (or `list{...}` with `is_list`).
pub fn parse_keyed_array(inner: &str, is_list: bool) -> (r: ShapeParts)
    requires
        shape_keys_readable(split_pieces(inner@, ',', false)),
    ensures
        ({
            let (es, open, _) = shape_state(split_pieces(inner@, ',', false));
            shape_entries_view(r.entries@) == es && r.is_open == open && r.is_list == is_list
        }),
{
    let cs = chars_of(inner);
    let pieces = split_top_level(cs.as_slice(), ',', false);
    let ghost pv = pieces@.map_values(|v: Vec<char>| v@);
    proof {
        super::scan::lemma_split_pieces_len(cs@, ',', false);
    }
    let mut entries: Vec<(ShapeKey, String, bool)> = Vec::new();
    let mut is_open = false;
    let mut auto: u64 = 0;
    let dots = chars_of("...");
    proof {
        reveal_strlit("...");
    }
    let mut i: usize = 0;
    while i < pieces.len()
        invariant
            i <= pieces@.len() <= cs@.len() + 1,
            dots@ == "..."@,
            pv == pieces@.map_values(|v: Vec<char>| v@),
            pv == split_pieces(inner@, ',', false),
            shape_keys_readable(pv),
            auto <= i,
            ({
                let (es, open, a) = shape_state(pv.take(i as int));
                shape_entries_view(entries@) == es && is_open == open && auto == a
            }),
        decreases pieces.len() - i,
    {
        proof {
            assert(pv.take(i + 1).drop_last() =~= pv.take(i as int));
            assert(pv.take(i + 1).last() == pieces@[i as int]@);
        }
        let it = trimmed_range(pieces[i].as_slice(), 0, pieces[i].len());
        proof {
            assert(pieces@[i as int]@.subrange(0, pieces@[i as int]@.len() as int) =~= pieces@[i as int]@);
        }
        if it.len() == 0 {
        } else if super::validate::chars_eq(it.as_slice(), dots.as_slice()) {
            is_open = true;
        } else {
            let n = it.len();
            match find_char_at_depth_in(it.as_slice(), 0, n, ':') {
                Some(c) => {
                    proof {
                        assert(it@.subrange(0, n as int) =~= it@);
                        assert(it@.subrange(0, c as int) =~= it@.take(c as int));
                        assert(it@.subrange(c + 1, n as int) =~= it@.skip(c + 1));
                        let w = pv[i as int];
                        assert(trim(w) == it@);
                    }
                    let key_part = trimmed_range(it.as_slice(), 0, c);
                    let ty = trimmed_range(it.as_slice(), c + 1, n);
                    let (k, opt) = shape_key_exec(key_part.as_slice());
                    shape_insert_exec(&mut entries, k, string_of(&ty), opt);
                },
                None => {
                    proof {
                        assert(it@.subrange(0, n as int) =~= it@);
                    }
                    shape_insert_exec(&mut entries, ShapeKey::Int(auto as i64), string_of(&it), false);
                    auto = auto + 1;
                },
            }
        }
        i = i + 1;
    }
    proof {
        assert(pv.take(pieces@.len() as int) =~= pv);
    }
    ShapeParts { entries, is_open, is_list }
}

} // verus!
