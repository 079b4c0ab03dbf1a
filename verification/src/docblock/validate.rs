//! Detection of malformed PHPDoc type annotations and `@method` bodies.
use vstd::prelude::*;
use vstd::utf8::{decode_utf8, encode_utf8, is_char_boundary};
use crate::text::{
    alphabetic, append_chars, append_str, chars_of, contains_sub, copy_range, find_char,
    find_char_in, find_sub_from, i64_text, int_text, is_alphabetic, is_alphanumeric, is_ws,
    lead_ws, lowercase_of, numeric, parse_i64, parse_i64_at, split_words, string_of, to_lowercase,
    trim, trim_range, trim_start, words, is_whitespace, lemma_lead_ws_char, starts_at, has_at,
};
use super::scan::{
    empty_generics, extract_generic_content, find_matching_paren_in, generic_content,
    has_empty_generics_chars, is_inside_generics_chars, matching_close, split_pieces,
    split_top_level, unbalanced,
};

verus! {

broadcast use vstd::string::group_string_axioms;

pub open spec fn at_tag(tag: Seq<char>) -> Seq<char> {
    seq!['@'] + tag
}

pub open spec fn msg_unclosed(tag: Seq<char>, s: Seq<char>) -> Seq<char> {
    at_tag(tag) + " has unclosed generic type `"@ + s + "`"@
}

pub open spec fn msg_empty_generic(tag: Seq<char>, s: Seq<char>) -> Seq<char> {
    at_tag(tag) + " has empty generic type parameter in `"@ + s + "`"@
}

pub open spec fn msg_variable(tag: Seq<char>, p: Seq<char>) -> Seq<char> {
    at_tag(tag) + " contains variable `"@ + p + "` in type position"@
}

pub open spec fn msg_max_first(tag: Seq<char>) -> Seq<char> {
    at_tag(tag) + " has invalid int range: `max` must be the second argument, not the first"@
}

pub open spec fn msg_min_second(tag: Seq<char>) -> Seq<char> {
    at_tag(tag) + " has invalid int range: `min` must be the first argument, not the second"@
}

pub open spec fn msg_bad_bound(tag: Seq<char>, b: Seq<char>) -> Seq<char> {
    at_tag(tag) + " has invalid int range boundary `"@ + b
        + "`: must be an integer literal, `min`, or `max`"@
}

pub open spec fn msg_inverted(tag: Seq<char>, lo: int, hi: int) -> Seq<char> {
    at_tag(tag) + " has invalid int range: min ("@ + int_text(lo) + ") must not be greater than max ("@
        + int_text(hi) + ")"@
}

pub open spec fn msg_bad_key(tag: Seq<char>, k: Seq<char>) -> Seq<char> {
    at_tag(tag) + " has invalid array key type `"@ + k + "`: must be a subtype of int|string"@
}

pub open spec fn msg_no_method() -> Seq<char> {
    "@method annotation is missing a method definition"@
}

pub open spec fn msg_bad_method_name(name: Seq<char>) -> Seq<char> {
    "@method has invalid method name `"@ + name + "`: must be a valid PHP identifier"@
}

pub open spec fn msg_byref_param(p: Seq<char>) -> Seq<char> {
    "@method parameter `"@ + p
        + "` uses by-reference (`&`) which is not supported in @method annotations"@
}

/// `@` + `tag` + `middle` + `subject` + `tail`.
fn tag_message(tag: &[char], middle: &str, subject: &[char], tail: &str) -> (r: String)
    ensures
        r@ == at_tag(tag@) + middle@ + subject@ + tail@,
{
    let mut out: Vec<char> = Vec::new();
    out.push('@');
    append_chars(&mut out, tag);
    append_str(&mut out, middle);
    append_chars(&mut out, subject);
    append_str(&mut out, tail);
    proof {
        assert(out@ =~= at_tag(tag@) + middle@ + subject@ + tail@);
    }
    string_of(&out)
}

/// Exact equality of two character sequences.
pub fn chars_eq(a: &[char], b: &[char]) -> (r: bool)
    ensures
        r == (a@ == b@),
{
    if a.len() != b.len() {
        return false;
    }
    let mut i: usize = 0;
    while i < a.len()
        invariant
            i <= a@.len(),
            a@.len() == b@.len(),
            forall|k: int| 0 <= k < i ==> a@[k] == b@[k],
        decreases a.len() - i,
    {
        if a[i] != b[i] {
            return false;
        }
        i = i + 1;
    }
    proof {
        assert(a@ =~= b@);
    }
    true
}

/// `s[from..to]` equals the text `lit`.
pub fn range_is(s: &[char], from: usize, to: usize, lit: &str) -> (r: bool)
    requires
        from <= to <= s@.len(),
    ensures
        r == (s@.subrange(from as int, to as int) == lit@),
{
    let a = copy_range(s, from, to);
    let b = chars_of(lit);
    chars_eq(a.as_slice(), b.as_slice())
}

/// A bound of `int<…>` must be an integer literal or `min`/`max`.
pub open spec fn valid_bound(b: Seq<char>) -> bool {
    b == "min"@ || b == "max"@ || parse_i64(b) is Some
}

/// The diagnostic for the inside of `int<…>` (`None` when it is fine or is
/// not a two-bound list).
pub open spec fn int_range_error(inner: Seq<char>, tag: Seq<char>) -> Option<Seq<char>> {
    let c = find_char(inner, ',');
    if c >= inner.len() {
        None
    } else {
        let lo = trim(inner.take(c as int));
        let hi = trim(inner.skip(c as int + 1));
        if lo == "max"@ {
            Some(msg_max_first(tag))
        } else if hi == "min"@ {
            Some(msg_min_second(tag))
        } else if !valid_bound(lo) {
            Some(msg_bad_bound(tag, lo))
        } else if !valid_bound(hi) {
            Some(msg_bad_bound(tag, hi))
        } else {
            match (parse_i64(lo), parse_i64(hi)) {
                (Some(a), Some(b)) => if a > b {
                    Some(msg_inverted(tag, a as int, b as int))
                } else {
                    None
                },
                _ => None,
            }
        }
    }
}

fn is_valid_bound(s: &[char], from: usize, to: usize) -> (r: bool)
    requires
        from <= to <= s@.len(),
    ensures
        r == valid_bound(s@.subrange(from as int, to as int)),
{
    range_is(s, from, to, "min") || range_is(s, from, to, "max") || parse_i64_at(s, from, to).is_some()
}

pub fn validate_int_range_inner_chars(inner: &[char], tag: &[char]) -> (r: Option<String>)
    ensures
        match int_range_error(inner@, tag@) {
            Some(m) => r matches Some(x) && x@ == m,
            None => r is None,
        },
{
    let c = find_char_in(inner, 0, inner.len(), ',');
    proof {
        assert(inner@.subrange(0, inner@.len() as int) =~= inner@);
    }
    if c == inner.len() {
        return None;
    }
    let (a, b) = trim_range(inner, 0, c);
    let (x, y) = trim_range(inner, c + 1, inner.len());
    proof {
        assert(inner@.subrange(0, c as int) =~= inner@.take(c as int));
        assert(inner@.subrange(c + 1, inner@.len() as int) =~= inner@.skip(c + 1));
    }
    let none: Vec<char> = Vec::new();
    proof {
        reveal_strlit("");
    }
    if range_is(inner, a, b, "max") {
        let m = tag_message(tag, " has invalid int range: `max` must be the second argument, not the first", none.as_slice(), "");
        proof {
            assert(m@ =~= msg_max_first(tag@));
        }
        return Some(m);
    }
    if range_is(inner, x, y, "min") {
        let m = tag_message(tag, " has invalid int range: `min` must be the first argument, not the second", none.as_slice(), "");
        proof {
            assert(m@ =~= msg_min_second(tag@));
        }
        return Some(m);
    }
    if !is_valid_bound(inner, a, b) {
        let lo = copy_range(inner, a, b);
        return Some(tag_message(tag, " has invalid int range boundary `", lo.as_slice(), "`: must be an integer literal, `min`, or `max`"));
    }
    if !is_valid_bound(inner, x, y) {
        let hi = copy_range(inner, x, y);
        return Some(tag_message(tag, " has invalid int range boundary `", hi.as_slice(), "`: must be an integer literal, `min`, or `max`"));
    }
    match (parse_i64_at(inner, a, b), parse_i64_at(inner, x, y)) {
        (Some(lo), Some(hi)) => {
            if lo > hi {
                let lo_t = i64_text(lo);
                let hi_t = i64_text(hi);
                let mut out: Vec<char> = Vec::new();
                out.push('@');
                append_chars(&mut out, tag);
                append_str(&mut out, " has invalid int range: min (");
                append_chars(&mut out, lo_t.as_slice());
                append_str(&mut out, ") must not be greater than max (");
                append_chars(&mut out, hi_t.as_slice());
                append_str(&mut out, ")");
                proof {
                    assert(out@ =~= msg_inverted(tag@, lo as int, hi as int));
                }
                Some(string_of(&out))
            } else {
                None
            }
        },
        _ => None,
    }
}

/// Checks the bounds of `int<min, max>`.
pub fn validate_int_range_inner(inner: &str, tag: &str) -> (r: Option<String>)
    ensures
        match int_range_error(inner@, tag@) {
            Some(m) => r matches Some(x) && x@ == m,
            None => r is None,
        },
{
    let i = chars_of(inner);
    let t = chars_of(tag);
    validate_int_range_inner_chars(i.as_slice(), t.as_slice())
}

/// The lowercased key type names PHP cannot use as array keys.
pub open spec fn invalid_key_name(k: Seq<char>) -> bool {
    k == "float"@ || k == "bool"@ || k == "true"@ || k == "false"@
}

/// The diagnostic for the inside of `array<K, V>`: a key type that is
/// fundamentally invalid as a PHP array key (float, bool variants).
pub open spec fn array_key_error(inner: Seq<char>, tag: Seq<char>) -> Option<Seq<char>> {
    let params = split_pieces(inner, ',', false);
    if params.len() < 2 {
        None
    } else {
        let key = trim(params[0]);
        if invalid_key_name(lowercase_of(key)) {
            Some(msg_bad_key(tag, key))
        } else {
            None
        }
    }
}

pub fn validate_array_key_inner_chars(inner: &[char], tag: &[char]) -> (r: Option<String>)
    ensures
        match array_key_error(inner@, tag@) {
            Some(m) => r matches Some(x) && x@ == m,
            None => r is None,
        },
{
    let params = split_top_level(inner, ',', false);
    proof {
        assert(params@.map_values(|v: Vec<char>| v@).len() == params@.len());
    }
    if params.len() < 2 {
        return None;
    }
    let (a, b) = trim_range(params[0].as_slice(), 0, params[0].len());
    let key = copy_range(params[0].as_slice(), a, b);
    proof {
        assert(params[0]@.subrange(0, params[0]@.len() as int) =~= params[0]@);
        assert(params@.map_values(|v: Vec<char>| v@)[0] == params[0]@);
    }
    let key_s = string_of(&key);
    let lower = to_lowercase(key_s.as_str());
    let lc = chars_of(lower.as_str());
    let lcs = lc.as_slice();
    let n = lc.len();
    if range_is(lcs, 0, n, "float") || range_is(lcs, 0, n, "bool") || range_is(lcs, 0, n, "true")
        || range_is(lcs, 0, n, "false") {
        proof {
            assert(lc@.subrange(0, n as int) =~= lc@);
        }
        return Some(tag_message(tag, " has invalid array key type `", key.as_slice(), "`: must be a subtype of int|string"));
    }
    proof {
        assert(lc@.subrange(0, n as int) =~= lc@);
    }
    None
}

/// Checks the key type of `array<K, V>`.
pub fn validate_array_key_inner(inner: &str, tag: &str) -> (r: Option<String>)
    ensures
        match array_key_error(inner@, tag@) {
            Some(m) => r matches Some(x) && x@ == m,
            None => r is None,
        },
{
    let i = chars_of(inner);
    let t = chars_of(tag);
    validate_array_key_inner_chars(i.as_slice(), t.as_slice())
}

pub open spec fn ascii_bytes(s: Seq<char>) -> Seq<u8> {
    s.map_values(|c: char| c as u8)
}

/// The first `n` bytes of `lowered` spell the ASCII `word`.
pub open spec fn bytes_spell(lowered: Seq<u8>, n: int, word: Seq<char>) -> bool {
    n == word.len() && n <= lowered.len() && lowered.take(n) == ascii_bytes(word)
}

/// The semantic check for `Name<inner>`: the generic's name is read off the
/// lowercased text by the name's length in bytes;
/// `int<…>` bounds and `array<…>` keys are checked.
pub open spec fn generic_semantics(s: Seq<char>, tag: Seq<char>) -> Option<Seq<char>> {
    match generic_content(s) {
        None => None,
        Some((name, inner)) => {
            let lowered = encode_utf8(lowercase_of(s));
            let n = encode_utf8(name).len() as int;
            if bytes_spell(lowered, n, "int"@) {
                int_range_error(inner, tag)
            } else if bytes_spell(lowered, n, "array"@) || bytes_spell(
                lowered,
                n,
                "non-empty-array"@,
            ) {
                array_key_error(inner, tag)
            } else {
                None
            }
        },
    }
}

fn bytes_spell_exec(lowered: &[u8], n: usize, word: &str) -> (r: bool)
    ensures
        r == bytes_spell(lowered@, n as int, word@),
{
    let w = chars_of(word);
    if n != w.len() || n > lowered.len() {
        return false;
    }
    let mut i: usize = 0;
    while i < n
        invariant
            i <= n,
            n == w@.len(),
            w@ == word@,
            n <= lowered@.len(),
            forall|k: int| 0 <= k < i ==> lowered@[k] == (w@[k] as u8),
        decreases n - i,
    {
        let c = w[i];
        if lowered[i] != (c as u8) {
            proof {
                assert(ascii_bytes(w@)[i as int] == c as u8);
                assert(lowered@.take(n as int)[i as int] != ascii_bytes(w@)[i as int]);
            }
            return false;
        }
        i = i + 1;
    }
    proof {
        assert(lowered@.take(n as int) =~= ascii_bytes(w@));
    }
    true
}

/// Validates semantic constraints on generic type expressions like
/// `int<min, max>` and `array<key, value>`.
pub fn validate_generic_semantics_chars(s: &[char], tag: &[char]) -> (r: Option<String>)
    ensures
        match generic_semantics(s@, tag@) {
            Some(m) => r matches Some(x) && x@ == m,
            None => r is None,
        },
{
    let text = string_of(&copy_range(s, 0, s.len()));
    proof {
        assert(s@.subrange(0, s@.len() as int) =~= s@);
    }
    let lower = to_lowercase(text.as_str());
    let (name, inner) = match extract_generic_content(s) {
        Some(p) => p,
        None => {
            return None;
        },
    };
    let name_s = string_of(&name);
    let n = name_s.as_str().as_bytes().len();
    let lb = lower.as_str().as_bytes();
    proof {
        assert(lb@ == encode_utf8(lowercase_of(s@)));
        assert(n == encode_utf8(name@).len());
    }
    if bytes_spell_exec(lb, n, "int") {
        validate_int_range_inner_chars(inner.as_slice(), tag)
    } else if bytes_spell_exec(lb, n, "array") || bytes_spell_exec(lb, n, "non-empty-array") {
        validate_array_key_inner_chars(inner.as_slice(), tag)
    } else {
        None
    }
}

/// `validate_generic_semantics_chars` on text.
pub fn validate_generic_semantics(s: &str, tag: &str) -> (r: Option<String>)
    ensures
        match generic_semantics(s@, tag@) {
            Some(m) => r matches Some(x) && x@ == m,
            None => r is None,
        },
{
    let cs = chars_of(s);
    let ts = chars_of(tag);
    validate_generic_semantics_chars(cs.as_slice(), ts.as_slice())
}

/// First diagnostic among the union members `parts[from..]`: a `$variable`
/// (other than `$this`) in type position, or a bad generic.
pub open spec fn parts_error(parts: Seq<Seq<char>>, tag: Seq<char>, from: int) -> Option<
    Seq<char>,
>
    decreases parts.len() - from,
{
    if from >= parts.len() || from < 0 {
        None
    } else {
        let p = trim(parts[from]);
        if p.len() > 0 && p[0] == '$' && p != "$this"@ {
            Some(msg_variable(tag, p))
        } else if generic_semantics(p, tag) is Some {
            generic_semantics(p, tag)
        } else {
            parts_error(parts, tag, from + 1)
        }
    }
}

/// A callable or closure type, for which empty `()` is legitimate.
pub open spec fn callable_like(t: Seq<char>) -> bool {
    contains_sub(lowercase_of(t), "callable"@) || contains_sub(t, "Closure"@)
}

/// The diagnostic for a type annotation `s` of tag `tag`: unclosed
/// generics, an empty generic parameter (except in callable types), or a
/// bad union member.
pub open spec fn type_str_error(s: Seq<char>, tag: Seq<char>) -> Option<Seq<char>> {
    let t = trim(s);
    if t.len() == 0 {
        None
    } else if unbalanced(t) {
        Some(msg_unclosed(tag, t))
    } else if !callable_like(t) && empty_generics(t) {
        Some(msg_empty_generic(tag, t))
    } else {
        parts_error(split_pieces(t, '|', true), tag, 0)
    }
}

fn contains_text(s: &[char], pat: &str) -> (r: bool)
    requires
        pat@.len() > 0,
    ensures
        r == contains_sub(s@, pat@),
{
    let p = chars_of(pat);
    let r = find_sub_from(s, 0, p.as_slice());
    proof {
        assert(s@.skip(0) =~= s@);
    }
    r.is_some()
}

pub fn validate_type_str_chars(s: &[char], tag: &[char]) -> (r: Option<String>)
    ensures
        match type_str_error(s@, tag@) {
            Some(m) => r matches Some(x) && x@ == m,
            None => r is None,
        },
{
    let (a, b) = trim_bounds_of(s);
    let t = copy_range(s, a, b);
    if t.len() == 0 {
        return None;
    }
    if is_inside_generics_chars(t.as_slice()) {
        return Some(tag_message(tag, " has unclosed generic type `", t.as_slice(), "`"));
    }
    let ts = string_of(&t);
    let lower = to_lowercase(ts.as_str());
    let lc = chars_of(lower.as_str());
    proof {
        reveal_strlit("callable");
        reveal_strlit("Closure");
    }
    let is_callable_type = contains_text(lc.as_slice(), "callable") || contains_text(
        t.as_slice(),
        "Closure",
    );
    if !is_callable_type && has_empty_generics_chars(t.as_slice()) {
        return Some(tag_message(tag, " has empty generic type parameter in `", t.as_slice(), "`"));
    }
    let parts = split_top_level(t.as_slice(), '|', true);
    let ghost pv = parts@.map_values(|v: Vec<char>| v@);
    let mut i: usize = 0;
    while i < parts.len()
        invariant
            i <= parts@.len(),
            pv == parts@.map_values(|v: Vec<char>| v@),
            pv == split_pieces(t@, '|', true),
            type_str_error(s@, tag@) == parts_error(pv, tag@, 0),
            parts_error(pv, tag@, 0) == parts_error(pv, tag@, i as int),
        decreases parts.len() - i,
    {
        let (x, y) = trim_range(parts[i].as_slice(), 0, parts[i].len());
        let p = copy_range(parts[i].as_slice(), x, y);
        proof {
            assert(parts[i as int]@.subrange(0, parts[i as int]@.len() as int) =~= parts[i as int]@);
            assert(pv[i as int] == parts[i as int]@);
            reveal_strlit("$this");
        }
        if p.len() > 0 && p[0] == '$' && !range_is(p.as_slice(), 0, p.len(), "$this") {
            proof {
                assert(p@.subrange(0, p@.len() as int) =~= p@);
            }
            return Some(tag_message(tag, " contains variable `", p.as_slice(), "` in type position"));
        }
        proof {
            assert(p@.subrange(0, p@.len() as int) =~= p@);
        }
        let g = validate_generic_semantics_chars(p.as_slice(), tag);
        if g.is_some() {
            return g;
        }
        i = i + 1;
    }
    None
}

fn trim_bounds_of(s: &[char]) -> (r: (usize, usize))
    ensures
        r.0 <= r.1 <= s@.len(),
        s@.subrange(r.0 as int, r.1 as int) == trim(s@),
{
    let r = trim_range(s, 0, s.len());
    proof {
        assert(s@.subrange(0, s@.len() as int) =~= s@);
    }
    r
}

/// Returns an error message if `s` is a malformed PHPDoc type expression,
/// otherwise `None`. Detects unclosed generics, empty generic parameters,
/// `$variable` in type position (only `$this` is valid) and invalid
/// `int<…>` / `array<…>` arguments.
pub fn validate_type_str(s: &str, tag: &str) -> (r: Option<String>)
    ensures
        match type_str_error(s@, tag@) {
            Some(m) => r matches Some(x) && x@ == m,
            None => r is None,
        },
{
    let c = chars_of(s);
    let t = chars_of(tag);
    validate_type_str_chars(c.as_slice(), t.as_slice())
}

/// A PHP identifier: a letter or `_`, then letters, digits or `_`.
pub open spec fn php_identifier(s: Seq<char>) -> bool {
    &&& s.len() > 0
    &&& (alphabetic(s[0]) || s[0] == '_')
    &&& forall|i: int| 1 <= i < s.len() ==> alphabetic(#[trigger] s[i]) || numeric(s[i]) || s[i] == '_'
}

pub fn is_valid_php_identifier_chars(s: &[char]) -> (r: bool)
    ensures
        r == php_identifier(s@),
{
    if s.len() == 0 {
        return false;
    }
    if !(is_alphabetic(s[0]) || s[0] == '_') {
        return false;
    }
    let mut i: usize = 1;
    while i < s.len()
        invariant
            1 <= i <= s@.len(),
            forall|k: int| 1 <= k < i ==> alphabetic(#[trigger] s@[k]) || numeric(s@[k]) || s@[k]
                == '_',
        decreases s.len() - i,
    {
        let c = s[i];
        if !(is_alphanumeric(c) || c == '_') {
            return false;
        }
        i = i + 1;
    }
    true
}

pub fn is_valid_php_identifier(s: &str) -> (r: bool)
    ensures
        r == php_identifier(s@),
{
    let c = chars_of(s);
    is_valid_php_identifier_chars(c.as_slice())
}


/// The diagnostic for one `@method` parameter `param`: a by-reference
/// marker, either leading (`&$x`) or between a type and the name
/// (`Type & $x`).
pub open spec fn byref_param(param: Seq<char>) -> bool {
    let p = trim(param);
    let amp = find_char(p, '&') as int;
    ||| (p.len() > 0 && p[0] == '&')
    ||| (amp < p.len() && trim(p.take(amp as int)).len() > 0 && trim_start(p.skip(amp + 1)).len() > 0
        && trim_start(p.skip(amp + 1))[0] == '$')
}

/// First by-reference parameter among `params[from..]`.
pub open spec fn byref_param_error(params: Seq<Seq<char>>, from: int) -> Option<Seq<char>>
    decreases params.len() - from,
{
    if from < 0 || from >= params.len() {
        None
    } else if byref_param(params[from]) {
        Some(msg_byref_param(trim(params[from])))
    } else {
        byref_param_error(params, from + 1)
    }
}

/// What is left of a trimmed `@method` body once a case-insensitive
/// `static ` prefix is removed: the text after its first seven bytes, with
/// leading whitespace dropped. When those seven bytes do not end on a
/// character boundary the body is kept whole.
pub open spec fn after_static(t: Seq<char>) -> Seq<char> {
    let b = encode_utf8(t);
    if starts_at(lowercase_of(t), 0, "static "@) && 7 <= b.len() && is_char_boundary(b, 7) {
        trim_start(decode_utf8(b.subrange(7, b.len() as int)))
    } else {
        t
    }
}

/// The diagnostic for an `@method` body: missing definition, an invalid
/// method name, or a by-reference parameter.
pub open spec fn method_body_error(s: Seq<char>) -> Option<Seq<char>> {
    let t = trim(s);
    if t.len() == 0 {
        Some(msg_no_method())
    } else {
        let rest = after_static(t);
        let open = find_char(rest, '(') as int;
        let ws = words(trim(rest.take(open as int)));
        let name = if ws.len() > 0 {
            ws.last()
        } else {
            Seq::<char>::empty()
        };
        if name.len() > 0 && !php_identifier(name) {
            Some(msg_bad_method_name(name))
        } else if open < rest.len() {
            match matching_close(rest.skip(open as int)) {
                Some(rc) => {
                    let inner = trim(rest.subrange(open + 1, open + rc));
                    if inner.len() > 0 {
                        byref_param_error(split_pieces(inner, ',', false), 0)
                    } else {
                        None
                    }
                },
                None => None,
            }
        } else {
            None
        }
    }
}

fn static_prefix_removed(t: &String) -> (r: Vec<char>)
    ensures
        r@ == after_static(t@),
{
    let lower = to_lowercase(t.as_str());
    let lc = chars_of(lower.as_str());
    let pat = chars_of("static ");
    let starts = has_at(lc.as_slice(), 0, pat.as_slice());
    let ts = t.as_str();
    let b = ts.as_bytes();
    proof {
        vstd::utf8::encode_utf8_valid_utf8(t@);
    }
    if starts && 7 <= b.len() && ts.is_char_boundary(7) {
        let (_, tail) = ts.split_at(7);
        let tc = chars_of(tail);
        proof {
            vstd::utf8::encode_utf8_decode_utf8(tail@);
            assert(tc@ == decode_utf8(encode_utf8(t@).subrange(7, encode_utf8(t@).len() as int)));
        }
        let (x, y) = trim_range(tc.as_slice(), 0, tc.len());
        proof {
            assert(tc@.subrange(0, tc@.len() as int) =~= tc@);
        }
        let rest = copy_range(tc.as_slice(), x, tc.len());
        proof {
            crate::text::lemma_lead_ws_bound(tc@);
            assert(rest@ =~= trim_start(tc@));
        }
        rest
    } else {
        chars_of(ts)
    }
}

fn byref_param_exec(param: &[char]) -> (r: bool)
    ensures
        r == byref_param(param@),
{
    let (a, b) = trim_range(param, 0, param.len());
    proof {
        assert(param@.subrange(0, param@.len() as int) =~= param@);
    }
    let p = copy_range(param, a, b);
    if p.len() > 0 && p[0] == '&' {
        return true;
    }
    let amp = find_char_in(p.as_slice(), 0, p.len(), '&');
    proof {
        assert(p@.subrange(0, p@.len() as int) =~= p@);
    }
    if amp == p.len() {
        return false;
    }
    let (c, d) = trim_range(p.as_slice(), 0, amp);
    let (e, f) = trim_range(p.as_slice(), amp + 1, p.len());
    proof {
        assert(p@.subrange(0, amp as int) =~= p@.take(amp as int));
        assert(p@.subrange(amp + 1, p@.len() as int) =~= p@.skip(amp + 1));
        let u = p@.skip(amp + 1);
        crate::text::lemma_lead_ws_bound(u);
        crate::text::lemma_trail_ws_bound(u);
        if e < p.len() {
            assert(trim_start(u).len() > 0);
            assert(trim_start(u)[0] == p@[e as int]);
        } else {
            assert(trim_start(u).len() == 0);
        }
    }
    d > c && e < p.len() && p[e] == '$'
}

pub fn validate_method_body_chars(s: &[char]) -> (r: Option<String>)
    ensures
        match method_body_error(s@) {
            Some(m) => r matches Some(x) && x@ == m,
            None => r is None,
        },
{
    let (a, b) = trim_bounds_of(s);
    if a == b {
        let m = chars_of("@method annotation is missing a method definition");
        return Some(string_of(&m));
    }
    let t = string_of(&copy_range(s, a, b));
    let rest = static_prefix_removed(&t);
    let rs = rest.as_slice();
    let open = find_char_in(rs, 0, rest.len(), '(');
    proof {
        assert(rest@.subrange(0, rest@.len() as int) =~= rest@);
    }
    let (pa, pb) = trim_range(rs, 0, open);
    let ws = split_words(rs, pa, pb);
    proof {
        assert(rest@.subrange(0, open as int) =~= rest@.take(open as int));
        assert(ws@.map_values(|v: Vec<char>| v@).len() == ws@.len());
    }
    let empty: Vec<char> = Vec::new();
    let name: &[char] = if ws.len() > 0 {
        proof {
            assert(ws@.map_values(|v: Vec<char>| v@).last() == ws@[ws@.len() - 1]@);
        }
        ws[ws.len() - 1].as_slice()
    } else {
        empty.as_slice()
    };
    if name.len() > 0 && !is_valid_php_identifier_chars(name) {
        let mut out = chars_of("@method has invalid method name `");
        append_chars(&mut out, name);
        append_str(&mut out, "`: must be a valid PHP identifier");
        return Some(string_of(&out));
    }
    if open == rest.len() {
        return None;
    }
    let close = find_matching_paren_in(rs, open, rest.len());
    proof {
        assert(rest@.subrange(open as int, rest@.len() as int) =~= rest@.skip(open as int));
    }
    let close = match close {
        Some(c) => c,
        None => {
            return None;
        },
    };
    proof {
        let t = rest@.skip(open as int);
        crate::text::lemma_first_where_bounds(t.len() as int, super::scan::closes_to_top(t), 0);
        assert(t[0] == '(');
        assert(!super::scan::closes_to_top(t)(0));
    }
    let (ia, ib) = trim_range(rs, open + 1, close);
    if ia == ib {
        return None;
    }
    let inner = copy_range(rs, ia, ib);
    let params = split_top_level(inner.as_slice(), ',', false);
    let ghost pv = params@.map_values(|v: Vec<char>| v@);
    let mut i: usize = 0;
    while i < params.len()
        invariant
            i <= params@.len(),
            pv == params@.map_values(|v: Vec<char>| v@),
            method_body_error(s@) == byref_param_error(pv, 0),
            byref_param_error(pv, 0) == byref_param_error(pv, i as int),
        decreases params.len() - i,
    {
        proof {
            assert(pv[i as int] == params[i as int]@);
        }
        if byref_param_exec(params[i].as_slice()) {
            let (x, y) = trim_range(params[i].as_slice(), 0, params[i].len());
            let p = copy_range(params[i].as_slice(), x, y);
            proof {
                assert(params[i as int]@.subrange(0, params[i as int]@.len() as int) =~= params[i as int]@);
            }
            let mut out = chars_of("@method parameter `");
            append_chars(&mut out, p.as_slice());
            append_str(&mut out, "` uses by-reference (`&`) which is not supported in @method annotations");
            return Some(string_of(&out));
        }
        i = i + 1;
    }
    None
}

/// Validate an `@method` body for common errors before parsing; returns
/// `Some(error_message)` if the annotation is invalid.
pub fn validate_method_body(s: &str) -> (r: Option<String>)
    ensures
        match method_body_error(s@) {
            Some(m) => r matches Some(x) && x@ == m,
            None => r is None,
        },
{
    let c = chars_of(s);
    validate_method_body_chars(c.as_slice())
}

/// A class name as written, leading `\\` kept: a leading backslash marks an
/// absolute name, which must not be resolved against `use` aliases.
pub fn normalize_fqcn(s: &str) -> (r: String)
    ensures
        r@ == s@,
{
    String::from_str(s)
}

} // verus!
