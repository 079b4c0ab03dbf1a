//! `@method` tag bodies: `[static] [ReturnType] name([params])`.
use vstd::prelude::*;
use crate::text::{
    chars_of, contains_sub, copy_range, eq_ignore_ascii_case, find_char, find_char_in,
    find_sub_from, same_ignoring_ascii_case, split_words, string_of, trim, trim_range,
    trim_start, words,
};
use super::scan::{find_matching_paren_in, matching_close, split_pieces, split_top_level};
use super::lines::{
    join_spaced, join_spaced_range, skip_lead, strip_lead, strip_prefix_all, strip_prefix_all_at,
    views,
};
use super::{DocMethod, DocMethodParam};

verus! {

broadcast use vstd::string::group_string_axioms;

/// A method parameter as plain values: `(name, type_hint, is_variadic,
/// is_byref, is_optional)`.
pub type ParamSpec = (Seq<char>, Seq<char>, bool, bool, bool);

pub open spec fn param_view(p: DocMethodParam) -> ParamSpec {
    (p.name@, p.type_hint@, p.is_variadic, p.is_byref, p.is_optional)
}

pub open spec fn params_view(ps: Seq<DocMethodParam>) -> Seq<ParamSpec> {
    ps.map_values(|p: DocMethodParam| param_view(p))
}

/// The parameter name: the last token before any `=`, without its leading
/// `&`, `...`, `&` and `$` runs, in that order.
pub open spec fn param_name(raw: Seq<char>) -> Seq<char> {
    strip_lead(strip_lead(strip_prefix_all(strip_lead(raw, '&'), "..."@), '&'), '$')
}

/// One parameter of a `@method` signature, such as `int ...$xs`,
/// `array &$out` or `?string $s = null`.
pub open spec fn method_param_of(p: Seq<char>) -> Option<ParamSpec> {
    let eq = find_char(p, '=');
    let is_optional = eq < p.len();
    let tokens = words(trim(p.take(eq as int)));
    if tokens.len() == 0 {
        None
    } else {
        let raw = tokens.last();
        let is_variadic = contains_sub(raw, "..."@);
        let is_byref = find_char(raw, '&') < raw.len();
        let name = param_name(raw);
        if name.len() == 0 {
            None
        } else {
            Some((name, join_spaced(tokens.drop_last()), is_variadic, is_byref, is_optional || is_variadic))
        }
    }
}

/// The parameters that parse, in order.
pub open spec fn kept_params(ps: Seq<Seq<char>>) -> Seq<ParamSpec>
    decreases ps.len(),
{
    if ps.len() == 0 {
        seq![]
    } else {
        let before = kept_params(ps.drop_last());
        match method_param_of(ps.last()) {
            Some(p) => before.push(p),
            None => before,
        }
    }
}

/// The parameter list between the first `(` of `s` and its matching
/// bracket, split at top-level commas.
pub open spec fn method_params_of(s: Seq<char>) -> Seq<ParamSpec> {
    let open = find_char(s, '(');
    if open >= s.len() {
        seq![]
    } else {
        match matching_close(s.skip(open as int)) {
            None => seq![],
            Some(k) => {
                let inner = trim(s.subrange(open as int + 1, open as int + k));
                if inner.len() == 0 {
                    seq![]
                } else {
                    kept_params(split_pieces(inner, ',', false))
                }
            },
        }
    }
}

/// `(return_type, name, is_static, params)` of a `@method` body.
pub open spec fn method_line_of(s: Seq<char>) -> Option<(Seq<char>, Seq<char>, bool, Seq<ParamSpec>)> {
    let rest0 = trim(s);
    let ws = words(rest0);
    let is_static = ws.len() > 0 && eq_ignore_ascii_case(ws[0], "static"@);
    let rest = if is_static {
        trim_start(rest0.skip(6))
    } else {
        rest0
    };
    let parts = words(trim(rest.take(find_char(rest, '(') as int)));
    if rest0.len() == 0 || parts.len() == 0 {
        None
    } else {
        Some((join_spaced(parts.drop_last()), parts.last(), is_static, method_params_of(rest)))
    }
}

fn method_param_chars(p: &[char]) -> (r: Option<DocMethodParam>)
    ensures
        match method_param_of(p@) {
            None => r is None,
            Some(v) => r matches Some(d) && param_view(d) == v,
        },
{
    let n = p.len();
    let eq = find_char_in(p, 0, n, '=');
    let is_optional = eq < n;
    let (a, b) = trim_range(p, 0, eq);
    let tokens = split_words(p, a, b);
    proof {
        assert(p@.subrange(0, n as int) =~= p@);
        assert(p@.subrange(0, eq as int) =~= p@.take(eq as int));
        assert(views(tokens@) == words(trim(p@.take(eq as int))));
    }
    if tokens.len() == 0 {
        return None;
    }
    let last = tokens.len() - 1;
    let raw = tokens[last].as_slice();
    let rn = raw.len();
    let dots = chars_of("...");
    proof {
        reveal_strlit("...");
        assert(views(tokens@).last() == raw@);
        assert(raw@.skip(0) =~= raw@);
        assert(raw@.subrange(0, rn as int) =~= raw@);
    }
    let is_variadic = find_sub_from(raw, 0, dots.as_slice()).is_some();
    let is_byref = find_char_in(raw, 0, rn, '&') < rn;
    let x1 = skip_lead(raw, 0, rn, '&');
    let x2 = strip_prefix_all_at(raw, x1, rn, dots.as_slice());
    let x3 = skip_lead(raw, x2, rn, '&');
    let x4 = skip_lead(raw, x3, rn, '$');
    proof {
        assert(raw@.subrange(x1 as int, rn as int) =~= strip_lead(raw@, '&'));
        let u2 = raw@.subrange(x2 as int, rn as int);
        assert(raw@.subrange(x3 as int, rn as int) =~= strip_lead(u2, '&'));
        let u3 = raw@.subrange(x3 as int, rn as int);
        assert(raw@.subrange(x4 as int, rn as int) =~= strip_lead(u3, '$'));
    }
    if x4 == rn {
        return None;
    }
    let name = copy_range(raw, x4, rn);
    let hint = join_spaced_range(&tokens, 0, last);
    proof {
        assert(views(tokens@).subrange(0, last as int) =~= views(tokens@).drop_last());
    }
    Some(
        DocMethodParam {
            name: string_of(&name),
            type_hint: string_of(&hint),
            is_variadic,
            is_byref,
            is_optional: is_optional || is_variadic,
        },
    )
}

/// Parse one `@method` parameter.
pub fn parse_method_param(param: &str) -> (r: Option<DocMethodParam>)
    ensures
        match method_param_of(param@) {
            None => r is None,
            Some(v) => r matches Some(d) && param_view(d) == v,
        },
{
    let cs = chars_of(param);
    method_param_chars(cs.as_slice())
}

fn method_params_chars(s: &[char]) -> (r: Vec<DocMethodParam>)
    ensures
        params_view(r@) == method_params_of(s@),
{
    let n = s.len();
    let open = find_char_in(s, 0, n, '(');
    proof {
        assert(s@.subrange(0, n as int) =~= s@);
    }
    if open == n {
        return Vec::new();
    }
    proof {
        assert(s@.subrange(open as int, n as int) =~= s@.skip(open as int));
    }
    let close = match find_matching_paren_in(s, open, n) {
        Some(c) => c,
        None => {
            return Vec::new();
        },
    };
    proof {
        let t = s@.skip(open as int);
        let k = matching_close(t)->0;
        crate::text::lemma_first_where_bounds(t.len() as int, super::scan::closes_to_top(t), 0);
        assert(t[0] == '(');
        assert(k != 0);
        assert(close == open + k);
    }
    let (a, b) = trim_range(s, open + 1, close);
    if a == b {
        return Vec::new();
    }
    let inner = copy_range(s, a, b);
    let pieces = split_top_level(inner.as_slice(), ',', false);
    let ghost ps = views(pieces@);
    let mut out: Vec<DocMethodParam> = Vec::new();
    let mut i: usize = 0;
    while i < pieces.len()
        invariant
            i <= pieces@.len(),
            ps == views(pieces@),
            params_view(out@) == kept_params(ps.take(i as int)),
        decreases pieces.len() - i,
    {
        let got = method_param_chars(pieces[i].as_slice());
        let ghost before = params_view(out@);
        proof {
            assert(ps.take(i + 1).drop_last() =~= ps.take(i as int));
            assert(ps.take(i + 1).last() == pieces@[i as int]@);
        }
        match got {
            Some(d) => {
                out.push(d);
                proof {
                    assert(params_view(out@) =~= before.push(param_view(d)));
                }
            },
            None => {},
        }
        i = i + 1;
    }
    proof {
        assert(ps.take(pieces@.len() as int) =~= ps);
    }
    out
}

/// The parameters of a `@method` signature.
pub fn parse_method_params(name_part: &str) -> (r: Vec<DocMethodParam>)
    ensures
        params_view(r@) == method_params_of(name_part@),
{
    let cs = chars_of(name_part);
    method_params_chars(cs.as_slice())
}

/// Parse `[static] [ReturnType] name(...)` of a `@method` tag.
pub fn parse_method_line(s: &str) -> (r: Option<DocMethod>)
    ensures
        match method_line_of(s@) {
            None => r is None,
            Some((rt, name, st, ps)) => r matches Some(m) && m.return_type@ == rt && m.name@ == name
                && m.is_static == st && params_view(m.params@) == ps,
        },
{
    let cs = chars_of(s);
    let n = cs.len();
    let (a, b) = trim_range(cs.as_slice(), 0, n);
    let rest0 = copy_range(cs.as_slice(), a, b);
    proof {
        assert(cs@.subrange(0, n as int) =~= cs@);
    }
    if rest0.len() == 0 {
        return None;
    }
    let r0 = rest0.as_slice();
    let r0n = rest0.len();
    let ws = split_words(r0, 0, r0n);
    let st = chars_of("static");
    proof {
        reveal_strlit("static");
        assert(r0@.subrange(0, r0n as int) =~= r0@);
        assert(views(ws@) == words(r0@));
        if ws@.len() > 0 {
            assert(views(ws@)[0] == ws@[0]@);
        }
    }
    let is_static = ws.len() > 0 && same_ignoring_ascii_case(ws[0].as_slice(), st.as_slice());
    let rest = if is_static && r0n >= 6 {
        let (x, y) = trim_range(r0, 6, r0n);
        proof {
            assert(r0@.subrange(6, r0n as int) =~= r0@.skip(6));
            assert(r0@.subrange(x as int, r0n as int) =~= r0@.skip(6).skip(x - 6));
        }
        copy_range(r0, x, r0n)
    } else {
        copy_range(r0, 0, r0n)
    };
    proof {
        if is_static {
            crate::text::lemma_first_word_len(r0@);
            assert(r0n >= 6);
            assert(rest@ == trim_start(r0@.skip(6)));
        } else {
            assert(rest@ =~= r0@);
        }
    }
    let rs = rest.as_slice();
    let rn = rest.len();
    let open = find_char_in(rs, 0, rn, '(');
    let (pa, pb) = trim_range(rs, 0, open);
    let parts = split_words(rs, pa, pb);
    proof {
        assert(rs@.subrange(0, rn as int) =~= rs@);
        assert(rs@.subrange(0, open as int) =~= rs@.take(open as int));
        assert(views(parts@) == words(trim(rs@.take(open as int))));
    }
    if parts.len() == 0 {
        return None;
    }
    let last = parts.len() - 1;
    let rt = join_spaced_range(&parts, 0, last);
    let name = string_of(&parts[last]);
    proof {
        assert(views(parts@).subrange(0, last as int) =~= views(parts@).drop_last());
        assert(views(parts@).last() == parts@[last as int]@);
    }
    Some(
        DocMethod {
            return_type: string_of(&rt),
            name,
            is_static,
            params: method_params_chars(rs),
        },
    )
}

} // verus!
