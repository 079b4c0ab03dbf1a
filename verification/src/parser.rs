//! Docblock extraction from PHP source text.
use vstd::prelude::*;
use vstd::utf8::{decode_utf8, encode_utf8, is_char_boundary};
use crate::text::{
    chars_of, copy_range, ends_with, ends_with_at, lemma_last_where, lemma_trail_ws_bound, rfind_at,
    rfind_sub, string_of, trail_alpha, trailing_alpha_start, trim_end, trim_end_at, last_where,
    starts_at, trim, find_char, find_char_in, contains_sub, ascii_lower, lower_ascii_char, has_at,
    find_sub_from,
};

verus! {

broadcast use vstd::string::group_string_axioms;

/// The class-level modifier keywords skipped between a docblock and the
/// declaration it documents.
pub open spec fn is_modifier(w: Seq<char>) -> bool {
    w == "final"@ || w == "abstract"@ || w == "readonly"@
}

/// Length of the trailing PHP re-opening tag of `a` (`<?php`, `<?=` or
/// `<?`, tried in that order), or 0.
pub open spec fn reopen_tag_len(a: Seq<char>) -> int {
    if a.len() >= 5 && ends_with(a, "<?php"@) {
        5
    } else if a.len() >= 3 && ends_with(a, "<?="@) {
        3
    } else if a.len() >= 2 && ends_with(a, "<?"@) {
        2
    } else {
        0
    }
}

/// Walks back from the end of `t` over trailing whitespace, modifier
/// keywords and `?> … <?php` block boundaries; what is left is the text the
/// docblock must end.
pub open spec fn skip_back(t: Seq<char>) -> Seq<char>
    decreases t.len(),
{
    let a = trim_end(t);
    proof {
        lemma_trail_ws_bound(t);
    }
    let k = reopen_tag_len(a);
    if k > 0 {
        let bt = trim_end(a.take(a.len() - k));
        let close = rfind_sub(bt, "?>"@);
        proof {
            lemma_trail_ws_bound(a.take(a.len() - k));
            lemma_last_where(|i: int| starts_at(bt, i, "?>"@), bt.len() as int);
            assert(a.len() <= t.len());
            assert(bt.len() <= a.len() - k);
        }
        skip_back(
            if close >= 0 {
                bt.take(close)
            } else {
                bt
            },
        )
    } else {
        let ws = a.len() - trail_alpha(a);
        if 0 <= ws < a.len() && is_modifier(a.skip(ws)) {
            proof {
                lemma_trail_ws_bound(t);
            }
            skip_back(a.take(ws))
        } else {
            a
        }
    }
}

/// The docblock (`/** … */`, or failing that `/* … */`) that ends `t`.
pub open spec fn trailing_comment(t: Seq<char>) -> Option<Seq<char>> {
    if !ends_with(t, "*/"@) {
        None
    } else {
        let end = t.len() - 2;
        let h = t.take(end);
        let s3 = rfind_sub(h, "/**"@);
        let start = if s3 >= 0 {
            s3
        } else {
            rfind_sub(h, "/*"@)
        };
        if start >= 0 {
            Some(t.subrange(start, end + 2))
        } else {
            None
        }
    }
}

/// The characters of the first `offset` bytes of `source` (all of it when
/// `offset` is beyond its end).
pub open spec fn source_prefix(source: Seq<char>, offset: int) -> Seq<char> {
    let b = encode_utf8(source);
    let o = if offset < b.len() {
        offset
    } else {
        b.len() as int
    };
    decode_utf8(b.take(o))
}

pub open spec fn clamp_offset(source: Seq<char>, offset: int) -> int {
    let n = encode_utf8(source).len() as int;
    if offset < n {
        offset
    } else {
        n
    }
}

/// The docblock immediately preceding byte `offset` of `source`.
pub open spec fn preceding_docblock(source: Seq<char>, offset: int) -> Option<Seq<char>> {
    if clamp_offset(source, offset) == 0 {
        None
    } else {
        trailing_comment(skip_back(source_prefix(source, offset)))
    }
}

/// Strip a trailing PHP re-opening tag (`<?php`, `<?=`, or short-open
/// `<?`) from `s[0..to]`, returning where the text before it ends.
pub fn strip_trailing_reopen_tag(s: &[char], to: usize) -> (r: Option<usize>)
    requires
        to <= s@.len(),
    ensures
        match r {
            Some(e) => reopen_tag_len(s@.take(to as int)) > 0 && e == to - reopen_tag_len(
                s@.take(to as int),
            ),
            None => reopen_tag_len(s@.take(to as int)) == 0,
        },
{
    let php = chars_of("<?php");
    let eq = chars_of("<?=");
    let short = chars_of("<?");
    proof {
        reveal_strlit("<?php");
        reveal_strlit("<?=");
        reveal_strlit("<?");
    }
    if ends_with_at(s, to, php.as_slice()) {
        return Some(to - 5);
    }
    if ends_with_at(s, to, eq.as_slice()) {
        return Some(to - 3);
    }
    if ends_with_at(s, to, short.as_slice()) {
        return Some(to - 2);
    }
    None
}

fn is_modifier_at(s: &[char], from: usize, to: usize) -> (r: bool)
    requires
        from <= to <= s@.len(),
    ensures
        r == is_modifier(s@.subrange(from as int, to as int)),
{
    crate::docblock::validate::range_is(s, from, to, "final") || crate::docblock::validate::range_is(
        s,
        from,
        to,
        "abstract",
    ) || crate::docblock::validate::range_is(s, from, to, "readonly")
}

/// Scan backwards from byte `offset` and return the `/** ... */` docblock
/// comment that immediately precedes the token at that position, if any.
///
/// Whitespace and class-level modifier keywords (`final`, `abstract`,
/// `readonly`) between the docblock and the declaration are skipped, and so
/// is a `?>`/inline-HTML/`<?php` block boundary (a view template may write
/// `/** @var Post $model */` just before closing the PHP block and use the
/// variable after reopening it). Falls back to a `/* … */` comment.
pub fn find_preceding_docblock(source: &str, offset: u32) -> (r: Option<String>)
    requires
        is_char_boundary(encode_utf8(source@), clamp_offset(source@, offset as int)),
    ensures
        match preceding_docblock(source@, offset as int) {
            Some(d) => r matches Some(x) && x@ == d,
            None => r is None,
        },
{
    let bytes = source.as_bytes();
    let off: usize = if (offset as usize) < bytes.len() {
        offset as usize
    } else {
        bytes.len()
    };
    if off == 0 {
        return None;
    }
    proof {
        vstd::utf8::encode_utf8_valid_utf8(source@);
    }
    let (head, _) = source.split_at(off);
    let pfx = chars_of(head);
    proof {
        vstd::utf8::encode_utf8_decode_utf8(head@);
        assert(pfx@ == source_prefix(source@, offset as int));
    }
    let ps = pfx.as_slice();
    let mut end: usize = pfx.len();
    proof {
        assert(pfx@.take(end as int) =~= pfx@);
    }
    loop
        invariant_except_break
            end <= pfx@.len(),
            ps@ == pfx@,
            skip_back(pfx@) == skip_back(pfx@.take(end as int)),
        ensures
            end <= pfx@.len(),
            ps@ == pfx@,
            skip_back(pfx@) == pfx@.take(end as int),
        decreases end,
    {
        let a_end = trim_end_at(ps, end);
        proof {
            lemma_trail_ws_bound(pfx@.take(end as int));
        }
        match strip_trailing_reopen_tag(ps, a_end) {
            Some(tag_start) => {
                let bt_end = trim_end_at(ps, tag_start);
                let close = {
                    let q = chars_of("?>");
                    rfind_at(ps, bt_end, q.as_slice())
                };
                proof {
                    let a = pfx@.take(a_end as int);
                    assert(a.take(a.len() - reopen_tag_len(a)) =~= pfx@.take(tag_start as int));
                    let bt = pfx@.take(bt_end as int);
                    lemma_last_where(|i: int| starts_at(bt, i, "?>"@), bt.len() as int);
                }
                end = match close {
                    Some(c) => {
                        proof {
                            assert(pfx@.take(bt_end as int).take(c as int) =~= pfx@.take(c as int));
                        }
                        c
                    },
                    None => bt_end,
                };
            },
            None => {
                let ws = trailing_alpha_start(ps, a_end);
                proof {
                    let a = pfx@.take(a_end as int);
                    assert(a.skip(ws as int) =~= pfx@.subrange(ws as int, a_end as int));
                    assert(a.take(ws as int) =~= pfx@.take(ws as int));
                }
                if ws < a_end && is_modifier_at(ps, ws, a_end) {
                    proof {
                        assert(0 <= ws);
                    }
                    proof {
                        reveal_strlit("final");
                        reveal_strlit("abstract");
                        reveal_strlit("readonly");
                        assert(ws < a_end);
                    }
                    end = ws;
                } else {
                    proof {
                        assert(skip_back(pfx@.take(end as int)) == pfx@.take(a_end as int));
                    }
                    end = a_end;
                    break;
                }
            },
        }
    }
    let ghost t = pfx@.take(end as int);
    let star = chars_of("*/");
    proof {
        reveal_strlit("*/");
        reveal_strlit("/**");
        reveal_strlit("/*");
    }
    if !ends_with_at(ps, end, star.as_slice()) {
        return None;
    }
    let cend = end - 2;
    let open3 = chars_of("/**");
    let open2 = chars_of("/*");
    let start = match rfind_at(ps, cend, open3.as_slice()) {
        Some(s) => s,
        None => match rfind_at(ps, cend, open2.as_slice()) {
            Some(s) => s,
            None => {
                proof {
                    assert(t.take(t.len() - 2) =~= pfx@.take(cend as int));
                }
                return None;
            },
        },
    };
    proof {
        assert(t.take(t.len() - 2) =~= pfx@.take(cend as int));
        let h = pfx@.take(cend as int);
        lemma_last_where(|i: int| starts_at(h, i, "/**"@), h.len() as int);
        lemma_last_where(|i: int| starts_at(h, i, "/*"@), h.len() as int);
    }
    let doc = copy_range(ps, start, end);
    proof {
        assert(doc@ =~= t.subrange(start as int, cend + 2));
    }
    Some(string_of(&doc))
}

/// A byte range `[start, end)` of a source file.
#[derive(Debug, Clone, Copy, PartialEq, Eq, Structural)]
pub struct Span {
    pub start: u32,
    pub end: u32,
}

/// The trimmed source text covered by bytes `start..end` (the end clamped to
/// the source), when the range is non-empty, falls on character boundaries
/// and holds more than whitespace.
pub open spec fn span_text_of(source: Seq<char>, start: int, end: int) -> Option<Seq<char>> {
    let b = encode_utf8(source);
    let e = if end < b.len() {
        end
    } else {
        b.len() as int
    };
    if start >= end || start > e || !is_char_boundary(b, start) || !is_char_boundary(b, e) {
        None
    } else {
        let t = trim(decode_utf8(b.subrange(start, e)));
        if t.len() > 0 {
            Some(t)
        } else {
            None
        }
    }
}

/// Extract the exact source text covered by a span.
pub fn span_text(src: &str, span: Span) -> (r: Option<String>)
    ensures
        match span_text_of(src@, span.start as int, span.end as int) {
            Some(t) => r matches Some(x) && x@ == t,
            None => r is None,
        },
{
    if span.start >= span.end {
        return None;
    }
    let s = span.start as usize;
    let n = src.as_bytes().len();
    let e: usize = if (span.end as usize) < n {
        span.end as usize
    } else {
        n
    };
    if s > e || !src.is_char_boundary(s) || !src.is_char_boundary(e) {
        return None;
    }
    let ghost b = encode_utf8(src@);
    proof {
        vstd::utf8::encode_utf8_valid_utf8(src@);
        vstd::utf8::valid_utf8_split(b, e as int);
    }
    let (head, _) = src.split_at(e);
    proof {
        let hb = b.subrange(0, e as int);
        assert(encode_utf8(head@) =~= hb);
        if s < e {
            vstd::utf8::is_char_boundary_iff_not_is_continuation_byte(b, s as int);
            vstd::utf8::is_char_boundary_iff_not_is_continuation_byte(hb, s as int);
        } else {
            vstd::utf8::is_char_boundary_start_end_of_seq(hb);
        }
    }
    let (_, mid) = head.split_at(s);
    proof {
        let hb = b.subrange(0, e as int);
        assert(encode_utf8(mid@) =~= b.subrange(s as int, e as int));
        vstd::utf8::encode_utf8_decode_utf8(mid@);
    }
    let cs = chars_of(mid);
    let (x, y) = crate::text::trim_range(cs.as_slice(), 0, cs.len());
    proof {
        assert(cs@.subrange(0, cs@.len() as int) =~= cs@);
    }
    if x == y {
        return None;
    }
    Some(string_of(&copy_range(cs.as_slice(), x, y)))
}

/// The Display text of the parser's spurious reserved-class-name diagnostic
/// (`Cannot use "<name>" as a class name as it is reserved`) for a name PHP
/// in fact allows as a class name (`numeric`, `resource`, any ASCII case).
pub open spec fn spurious_reserved_class_message(msg: Seq<char>) -> bool {
    let p = "Cannot use \""@;
    if !starts_at(msg, 0, p) {
        false
    } else {
        let rest = msg.skip(p.len() as int);
        let end = find_char(rest, '"');
        if end >= rest.len() {
            false
        } else {
            let name = rest.take(end as int).map_values(|c: char| ascii_lower(c));
            contains_sub(rest.skip(end as int), "as a class name as it is reserved"@) && (name
                == "numeric"@ || name == "resource"@)
        }
    }
}

/// Whether a parser diagnostic's message is the spurious reserved-class-name
/// one for `numeric` or `resource`.
pub fn is_spurious_reserved_class_message(msg: &str) -> (r: bool)
    ensures
        r == spurious_reserved_class_message(msg@),
{
    let cs = chars_of(msg);
    let p = chars_of("Cannot use \"");
    proof {
        reveal_strlit("Cannot use \"");
    }
    if p.len() > cs.len() || !has_at(cs.as_slice(), 0, p.as_slice()) {
        return false;
    }
    let start = p.len();
    let n = cs.len();
    let end = find_char_in(cs.as_slice(), start, n, '"');
    proof {
        assert(cs@.subrange(start as int, n as int) =~= cs@.skip(p@.len() as int));
    }
    if end == n {
        return false;
    }
    let mut lowered: Vec<char> = Vec::new();
    let mut i = start;
    while i < end
        invariant
            start <= i <= end <= n == cs@.len(),
            lowered@ =~= cs@.subrange(start as int, i as int).map_values(|c: char| ascii_lower(c)),
        decreases end - i,
    {
        lowered.push(lower_ascii_char(cs[i]));
        i = i + 1;
    }
    let tail = copy_range(cs.as_slice(), end, n);
    let pat = chars_of("as a class name as it is reserved");
    proof {
        reveal_strlit("as a class name as it is reserved");
        let rest = cs@.skip(p@.len() as int);
        assert(cs@.subrange(start as int, end as int) =~= rest.take(end - start));
        assert(tail@ =~= rest.skip(end - start));
        assert(tail@.skip(0) =~= tail@);
    }
    let reserved = find_sub_from(tail.as_slice(), 0, pat.as_slice()).is_some();
    let numeric = chars_of("numeric");
    let resource = chars_of("resource");
    reserved && (crate::docblock::validate::chars_eq(lowered.as_slice(), numeric.as_slice())
        || crate::docblock::validate::chars_eq(lowered.as_slice(), resource.as_slice()))
}

/// A name as written: its `\`-joined segments, with a leading `\` when
/// it is fully qualified.
pub fn name_to_string_owned(text: &str, fully_qualified: bool) -> (r: String)
    ensures
        r@ == if fully_qualified {
            "\\"@ + text@
        } else {
            text@
        },
{
    if fully_qualified {
        let mut out = chars_of("\\");
        crate::text::append_str(&mut out, text);
        string_of(&out)
    } else {
        String::from_str(text)
    }
}

} // verus!
