//! Applying tags to a `ParsedDocblock`, one tag kind at a time.
use vstd::prelude::*;
use crate::text::{
    chars_of, copy_range, find_char_in, first_where, lemma_first_where_at,
    lemma_first_where_bounds, split_words, string_of, trim, trim_range, words, trim_start,
    same_ignoring_ascii_case, find_sub_from, rfind_at, ascii_lower, lower_ascii_char, last_where,
};
use super::scan::{strings_view, split_top_level, to_strings};
use super::lines::views;
use super::parsed::{
    first_word, keep_nonempty, split_at_chars, trimmed_all, tag_kind_of, TagKind, Variance,
    ParsedDocblock, DocblockView, note_invalid, opt_text, pairs_view, template_view, variance_tag,
    with_param_out, with_param, with_return, with_var, with_throws, with_deprecated,
    with_template, with_extends, with_implements, with_use, assertion_of, assertions_view,
    with_assert, assertion_entry, with_if_this_is, receiver_args, self_out_of, self_out_view, SelfOutType,
    with_self_out, with_suppress, with_see, with_mixin, with_property, property_view,
    with_method, method_view, with_type_alias, with_import_type, version_word, class_word,
    mir_check_of, provider_of, trace_names, taint_entries, set_flag, apply_tag, apply_tags,
    empty_view, docblock_view, mentions_inherit_doc,
};
use super::phpdoc::{doc_tags, phpdoc_tags, tags_view};
use super::lines::{extract_description, description_of};
use super::validate::method_body_error;
use super::method::method_line_of;
use super::{DocProperty, DocMethod, DocTypeAlias, DocImportType};
use super::method::parse_method_line;
use super::validate::validate_method_body_chars;
use super::lines::{parse_import_type, strip_suffix_all_at};
use super::lines::{parse_param_line_chars, extract_return_type_chars, parse_template_line, skip_lead, strip_lead};
use super::validate::{validate_type_str_chars, type_str_error};
use super::scan::{is_inside_generics_chars, type_prefix_end};

verus! {

broadcast use vstd::string::group_string_axioms;

fn char_in(c: char, seps: &[char]) -> (r: bool)
    ensures
        r == seps@.contains(c),
{
    let mut i: usize = 0;
    while i < seps.len()
        invariant
            i <= seps@.len(),
            forall|k: int| 0 <= k < i ==> seps@[k] != c,
        decreases seps.len() - i,
    {
        if seps[i] == c {
            return true;
        }
        i = i + 1;
    }
    false
}

/// `s` split at every character of `seps`.
pub fn split_chars(s: &[char], seps: &[char]) -> (r: Vec<Vec<char>>)
    ensures
        views(r@) == split_at_chars(s@, seps@),
{
    let mut out: Vec<Vec<char>> = Vec::new();
    let mut start: usize = 0;
    let mut i: usize = 0;
    proof {
        assert(s@.skip(0) =~= s@);
        assert(views(out@) + split_at_chars(s@.skip(0), seps@) =~= split_at_chars(s@, seps@));
    }
    while i < s.len()
        invariant
            start <= i <= s@.len(),
            forall|k: int| start <= k < i ==> !seps@.contains(#[trigger] s@[k]),
            views(out@) + split_at_chars(s@.skip(start as int), seps@) == split_at_chars(s@, seps@),
        decreases s.len() - i,
    {
        if char_in(s[i], seps) {
            let ghost u = s@.skip(start as int);
            let ghost pv = views(out@);
            proof {
                let p = |x: int| seps@.contains(u[x]);
                assert forall|x: int| 0 <= x < i - start implies !#[trigger] p(x) by {
                    assert(u[x] == s@[start + x]);
                }
                assert(u[i - start] == s@[i as int]);
                lemma_first_where_at(u.len() as int, p, 0, i - start);
                assert(u.take(i - start) =~= s@.subrange(start as int, i as int));
                assert(u.skip(i - start + 1) =~= s@.skip(i + 1));
            }
            out.push(copy_range(s, start, i));
            proof {
                assert(views(out@) =~= pv.push(s@.subrange(start as int, i as int)));
                assert(views(out@) + split_at_chars(s@.skip(i + 1), seps@) =~= pv + split_at_chars(
                    u,
                    seps@,
                ));
            }
            start = i + 1;
        }
        i = i + 1;
    }
    let ghost u = s@.skip(start as int);
    let ghost pv = views(out@);
    proof {
        let p = |x: int| seps@.contains(u[x]);
        assert forall|x: int| 0 <= x < u.len() implies !#[trigger] p(x) by {
            assert(u[x] == s@[start + x]);
        }
        lemma_first_where_at(u.len() as int, p, 0, u.len() as int);
        assert(u =~= s@.subrange(start as int, s@.len() as int));
    }
    out.push(copy_range(s, start, s.len()));
    proof {
        assert(views(out@) =~= pv + split_at_chars(u, seps@));
    }
    out
}

/// Adds the non-empty pieces to `out`, in order.
pub fn push_nonempty(out: &mut Vec<String>, ps: &Vec<Vec<char>>)
    ensures
        strings_view(final(out)@) == strings_view(old(out)@) + keep_nonempty(views(ps@)),
{
    let ghost start = strings_view(out@);
    let mut i: usize = 0;
    proof {
        assert(views(ps@).take(0) =~= Seq::<Seq<char>>::empty());
        assert(start + seq![] =~= start);
    }
    while i < ps.len()
        invariant
            i <= ps@.len(),
            strings_view(out@) == start + keep_nonempty(views(ps@).take(i as int)),
        decreases ps.len() - i,
    {
        let ghost before = strings_view(out@);
        proof {
            assert(views(ps@).take(i + 1).drop_last() =~= views(ps@).take(i as int));
            assert(views(ps@).take(i + 1).last() == ps@[i as int]@);
        }
        if ps[i].len() > 0 {
            out.push(string_of(&ps[i]));
            proof {
                assert(strings_view(out@) =~= before.push(ps@[i as int]@));
            }
        }
        i = i + 1;
    }
    proof {
        assert(views(ps@).take(ps@.len() as int) =~= views(ps@));
    }
}

/// Each piece trimmed.
pub fn trim_each(ps: &Vec<Vec<char>>) -> (r: Vec<Vec<char>>)
    ensures
        views(r@) == trimmed_all(views(ps@)),
{
    let mut out: Vec<Vec<char>> = Vec::new();
    let mut i: usize = 0;
    while i < ps.len()
        invariant
            i <= ps@.len(),
            out@.len() == i,
            forall|k: int| 0 <= k < i ==> (#[trigger] out@[k])@ == trim(ps@[k]@),
        decreases ps.len() - i,
    {
        let p = ps[i].as_slice();
        let (a, b) = trim_range(p, 0, p.len());
        proof {
            assert(p@.subrange(0, p@.len() as int) =~= p@);
        }
        out.push(copy_range(p, a, b));
        i = i + 1;
    }
    proof {
        assert(views(out@) =~= trimmed_all(views(ps@)));
    }
    out
}

/// The first word of `s`, empty when there is none.
pub fn first_word_of(s: &[char]) -> (r: Vec<char>)
    ensures
        r@ == first_word(s@),
{
    let ws = split_words(s, 0, s.len());
    proof {
        assert(s@.subrange(0, s@.len() as int) =~= s@);
        assert(views(ws@) == words(s@));
    }
    if ws.len() > 0 {
        proof {
            assert(views(ws@)[0] == ws@[0]@);
            assert(ws@[0]@.subrange(0, ws@[0]@.len() as int) =~= ws@[0]@);
        }
        copy_range(ws[0].as_slice(), 0, ws[0].len())
    } else {
        Vec::new()
    }
}


fn lit(n: &[char], l: &str) -> (r: bool)
    ensures
        r == (n@ == l@),
{
    let c = chars_of(l);
    super::validate::chars_eq(n, c.as_slice())
}

/// The kind of a tag, by its name.
pub fn classify(n: &[char]) -> (k: TagKind)
    ensures
        k == tag_kind_of(n@),
{
    if lit(n, "param-out") || lit(n, "psalm-param-out") || lit(n, "phpstan-param-out") {
        TagKind::ParamOut
    } else if lit(n, "param") || lit(n, "psalm-param") || lit(n, "phpstan-param") || lit(n, "phan-param") {
        TagKind::Param
    } else if lit(n, "return") || lit(n, "psalm-return") || lit(n, "phpstan-return") {
        TagKind::Return
    } else if lit(n, "var") || lit(n, "psalm-var") || lit(n, "phpstan-var") {
        TagKind::Var
    } else if lit(n, "throws") {
        TagKind::Throws
    } else if lit(n, "deprecated") {
        TagKind::Deprecated
    } else if lit(n, "template") || lit(n, "psalm-template") || lit(n, "phpstan-template") {
        TagKind::Template(Variance::Invariant)
    } else if lit(n, "template-covariant") || lit(n, "psalm-template-covariant")
        || lit(n, "phpstan-template-covariant") {
        TagKind::Template(Variance::Covariant)
    } else if lit(n, "template-contravariant") || lit(n, "psalm-template-contravariant")
        || lit(n, "phpstan-template-contravariant") {
        TagKind::Template(Variance::Contravariant)
    } else if lit(n, "extends") || lit(n, "template-extends") || lit(n, "psalm-extends")
        || lit(n, "phpstan-extends") {
        TagKind::Extends
    } else if lit(n, "implements") || lit(n, "template-implements") || lit(n, "psalm-implements")
        || lit(n, "phpstan-implements") {
        TagKind::Implements
    } else if lit(n, "use") || lit(n, "template-use") || lit(n, "psalm-use") || lit(n, "phpstan-use") {
        TagKind::Use
    } else if lit(n, "assert") || lit(n, "psalm-assert") || lit(n, "phpstan-assert") {
        TagKind::Assert
    } else if lit(n, "if-this-is") || lit(n, "psalm-if-this-is") || lit(n, "phpstan-if-this-is") {
        TagKind::IfThisIs
    } else if lit(n, "self-out") || lit(n, "psalm-self-out") || lit(n, "phpstan-self-out")
        || lit(n, "this-out") || lit(n, "psalm-this-out") || lit(n, "phpstan-this-out") {
        TagKind::SelfOut
    } else if lit(n, "suppress") || lit(n, "psalm-suppress") {
        TagKind::Suppress
    } else if lit(n, "see") || lit(n, "link") {
        TagKind::See
    } else if lit(n, "mixin") {
        TagKind::Mixin
    } else if lit(n, "property") {
        TagKind::Property(false, false, true)
    } else if lit(n, "property-read") {
        TagKind::Property(true, false, true)
    } else if lit(n, "property-write") {
        TagKind::Property(false, true, true)
    } else if lit(n, "method") || lit(n, "psalm-method") {
        TagKind::Method
    } else if lit(n, "psalm-type") || lit(n, "phpstan-type") {
        TagKind::TypeAlias
    } else if lit(n, "psalm-import-type") || lit(n, "phpstan-import-type") {
        TagKind::ImportType
    } else if lit(n, "since") {
        TagKind::Since
    } else if lit(n, "removed") {
        TagKind::Removed
    } else if lit(n, "internal") || lit(n, "psalm-internal") {
        TagKind::Internal
    } else if lit(n, "pure") || lit(n, "psalm-pure") || lit(n, "phpstan-pure") {
        TagKind::Pure
    } else if lit(n, "seal-properties") || lit(n, "psalm-seal-properties") {
        TagKind::SealProperties
    } else if lit(n, "no-named-arguments") {
        TagKind::NoNamedArguments
    } else if lit(n, "mutation-free") || lit(n, "psalm-mutation-free") || lit(n, "phpstan-mutation-free") {
        TagKind::MutationFree
    } else if lit(n, "psalm-external-mutation-free") {
        TagKind::ExternalMutationFree
    } else if lit(n, "immutable") || lit(n, "psalm-immutable") || lit(n, "phpstan-immutable") {
        TagKind::Immutable
    } else if lit(n, "readonly") || lit(n, "psalm-readonly") || lit(n, "phpstan-readonly") {
        TagKind::Readonly
    } else if lit(n, "final") {
        TagKind::Final
    } else if lit(n, "inheritDoc") || lit(n, "inheritdoc") {
        TagKind::InheritDoc
    } else if lit(n, "api") || lit(n, "psalm-api") {
        TagKind::Api
    } else if lit(n, "psalm-assert-if-true") || lit(n, "phpstan-assert-if-true") {
        TagKind::AssertIfTrue
    } else if lit(n, "psalm-assert-if-false") || lit(n, "phpstan-assert-if-false") {
        TagKind::AssertIfFalse
    } else if lit(n, "psalm-property") {
        TagKind::Property(false, false, false)
    } else if lit(n, "psalm-property-read") {
        TagKind::Property(true, false, false)
    } else if lit(n, "psalm-property-write") {
        TagKind::Property(false, true, false)
    } else if lit(n, "psalm-require-extends") || lit(n, "phpstan-require-extends") {
        TagKind::RequireExtends
    } else if lit(n, "psalm-require-implements") || lit(n, "phpstan-require-implements") {
        TagKind::RequireImplements
    } else if lit(n, "mir-check") {
        TagKind::MirCheck
    } else if lit(n, "dataProvider") {
        TagKind::DataProvider
    } else if lit(n, "trace") {
        TagKind::Trace
    } else if lit(n, "taint-sink") {
        TagKind::TaintSink
    } else {
        TagKind::Other
    }
}

/// `n` without its leading run of `c`.
fn strip_lead_vec(n: &[char], c: char) -> (r: Vec<char>)
    ensures
        r@ == strip_lead(n@, c),
{
    let k = skip_lead(n, 0, n.len(), c);
    proof {
        assert(n@.subrange(0, n@.len() as int) =~= n@);
        assert(n@.subrange(k as int, n@.len() as int) =~= strip_lead(n@, c));
    }
    copy_range(n, k, n.len())
}

fn trimmed(s: &[char]) -> (r: Vec<char>)
    ensures
        r@ == trim(s@),
{
    let (a, b) = trim_range(s, 0, s.len());
    proof {
        assert(s@.subrange(0, s@.len() as int) =~= s@);
    }
    copy_range(s, a, b)
}

/// Records the message, if any, as an invalid annotation.
fn note(d: &mut ParsedDocblock, m: Option<String>)
    ensures
        final(d).view() == note_invalid(old(d).view(), opt_text(m)),
{
    match m {
        Some(x) => {
            let ghost before = strings_view(d.invalid_annotations@);
            d.invalid_annotations.push(x);
            proof {
                assert(strings_view(d.invalid_annotations@) =~= before.push(x@));
            }
        },
        None => {},
    }
}

/// The validation message for type text `t` under tag `tag`, if any.
fn check_type(t: &[char], tag: &str) -> (m: Option<String>)
    ensures
        opt_text(m) == type_str_error(t@, tag@),
{
    let tc = chars_of(tag);
    validate_type_str_chars(t, tc.as_slice())
}

fn apply_param_out(d: &mut ParsedDocblock, body: &Option<String>)
    ensures
        final(d).view() == with_param_out(old(d).view(), opt_text(*body)),
{
    if let Some(b) = body {
        let cs = chars_of(b.as_str());
        if let Some((t, n)) = parse_param_line_chars(cs.as_slice()) {
            let tag = chars_of("param-out");
            match validate_type_str_chars(t.as_slice(), tag.as_slice()) {
                Some(m) => note(d, Some(m)),
                None => {
                    let name = strip_lead_vec(n.as_slice(), '$');
                    let ghost before = pairs_view(d.out_params@);
                    let entry = (string_of(&name), string_of(&t));
                    d.out_params.push(entry);
                    proof {
                        assert(pairs_view(d.out_params@) =~= before.push((name@, t@)));
                    }
                },
            }
        }
    }
}

fn apply_param(d: &mut ParsedDocblock, body: &Option<String>)
    ensures
        final(d).view() == with_param(old(d).view(), opt_text(*body)),
{
    if let Some(b) = body {
        let cs = chars_of(b.as_str());
        let tag = chars_of("param");
        match parse_param_line_chars(cs.as_slice()) {
            Some((t, n)) => {
                if is_inside_generics_chars(t.as_slice()) {
                    note(d, validate_type_str_chars(cs.as_slice(), tag.as_slice()));
                } else {
                    match validate_type_str_chars(t.as_slice(), tag.as_slice()) {
                        Some(m) => note(d, Some(m)),
                        None => {
                            let name = strip_lead_vec(n.as_slice(), '$');
                            let ghost before = pairs_view(d.params@);
                            let entry = (string_of(&name), string_of(&t));
                            d.params.push(entry);
                            proof {
                                assert(pairs_view(d.params@) =~= before.push((name@, t@)));
                            }
                        },
                    }
                }
            },
            None => note(d, validate_type_str_chars(cs.as_slice(), tag.as_slice())),
        }
    }
}

fn apply_return(d: &mut ParsedDocblock, body: &Option<String>)
    ensures
        final(d).view() == with_return(old(d).view(), opt_text(*body)),
{
    if let Some(b) = body {
        let cs = chars_of(b.as_str());
        let t = extract_return_type_chars(cs.as_slice());
        let tag = chars_of("return");
        let m = validate_type_str_chars(t.as_slice(), tag.as_slice());
        let ghost v0 = d.view();
        proof {
            assert(opt_text(m) == type_str_error(t@, "return"@));
        }
        note(d, m);
        let ghost v1 = d.view();
        d.return_type = Some(string_of(&t));
        proof {
            assert(d.view() == DocblockView { return_type: Some(t@), ..v1 });
            assert(with_return(v0, Some(b@)) == DocblockView { return_type: Some(t@), ..v1 });
        }
    }
}

fn apply_var(d: &mut ParsedDocblock, body: &Option<String>)
    ensures
        final(d).view() == with_var(old(d).view(), opt_text(*body)),
{
    if let Some(b) = body {
        let cs = chars_of(b.as_str());
        let ghost v0 = d.view();
        match parse_param_line_chars(cs.as_slice()) {
            Some((t, n)) => {
                let m = check_type(t.as_slice(), "var");
                let name = strip_lead_vec(n.as_slice(), '$');
                note(d, m);
                let ghost v1 = d.view();
                d.var_type = Some(string_of(&t));
                d.var_name = Some(string_of(&name));
                proof {
                    assert(d.view() == DocblockView { var_type: Some(t@), var_name: Some(name@), ..v1 });
                }
            },
            None => {
                let tb = trimmed(cs.as_slice());
                let e = type_prefix_end(tb.as_slice(), 0, tb.len());
                let t = copy_range(tb.as_slice(), 0, e);
                proof {
                    assert(tb@.subrange(0, tb@.len() as int) =~= tb@);
                    assert(t@ =~= tb@.take(e as int));
                }
                let m = check_type(t.as_slice(), "var");
                note(d, m);
                let ghost v1 = d.view();
                d.var_type = Some(string_of(&t));
                proof {
                    assert(d.view() == DocblockView { var_type: Some(t@), ..v1 });
                }
            },
        }
    }
}

fn apply_throws(d: &mut ParsedDocblock, body: &Option<String>)
    ensures
        final(d).view() == with_throws(old(d).view(), opt_text(*body)),
{
    if let Some(b) = body {
        let cs = chars_of(b.as_str());
        let w = first_word_of(cs.as_slice());
        let bar = vec!['|'];
        proof {
            assert(bar@ =~= seq!['|']);
        }
        let pieces = split_chars(w.as_slice(), bar.as_slice());
        push_nonempty(&mut d.throws, &pieces);
    }
}

fn apply_deprecated(d: &mut ParsedDocblock, body: &Option<String>)
    ensures
        final(d).view() == with_deprecated(old(d).view(), opt_text(*body)),
{
    let ghost v0 = d.view();
    d.is_deprecated = true;
    let msg = match body {
        Some(b) => b.clone(),
        None => String::new(),
    };
    proof {
        if body is None {
            assert(msg@ =~= Seq::<char>::empty());
        }
    }
    d.deprecated = Some(msg);
    assert(d.view() == DocblockView { is_deprecated: true, deprecated: Some(msg@), ..v0 });
}

fn variance_tag_text(var: Variance) -> (r: Vec<char>)
    ensures
        r@ == variance_tag(var),
{
    match var {
        Variance::Invariant => chars_of("template"),
        Variance::Covariant => chars_of("template-covariant"),
        Variance::Contravariant => chars_of("template-contravariant"),
    }
}

fn apply_template(d: &mut ParsedDocblock, var: Variance, tag_name: &str, body: &Option<String>)
    ensures
        final(d).view() == with_template(old(d).view(), var, opt_text(*body)),
{
    if let Some(b) = body {
        let got = parse_template_line(tag_name, Some(b.clone()));
        if let Some((n, bound, default)) = got {
            let vt = variance_tag_text(var);
            let nc = chars_of(n.as_str());
            let m1 = validate_type_str_chars(nc.as_slice(), vt.as_slice());
            let m2 = match &bound {
                Some(x) => {
                    let xc = chars_of(x.as_str());
                    validate_type_str_chars(xc.as_slice(), vt.as_slice())
                },
                None => None,
            };
            let ghost v0 = d.view();
            note(d, m1);
            let ghost v1 = d.view();
            note(d, m2);
            let ghost v2 = d.view();
            let ghost before = d.templates@;
            let ghost gb = opt_text(bound);
            let ghost gn = n@;
            let entry = (n, bound, var, default);
            d.templates.push(entry);
            proof {
                let f = |t: (String, Option<String>, Variance, Option<String>)| template_view(t);
                assert(d.templates@.map_values(f) =~= before.map_values(f).push(template_view(entry)));
                assert(d.view() == DocblockView { templates: v2.templates.push(template_view(entry)), ..v2 });
                assert(opt_text(m1) == type_str_error(gn, variance_tag(var)));
                match gb {
                    Some(x) => {
                        assert(opt_text(m2) == type_str_error(x, variance_tag(var)));
                    },
                    None => {
                        assert(v2 == v1);
                    },
                }
            }
        }
    }
}

/// `@extends`: the trimmed body, checked as a type.
fn apply_extends(d: &mut ParsedDocblock, body: &Option<String>)
    ensures
        final(d).view() == with_extends(old(d).view(), opt_text(*body)),
{
    if let Some(b) = body {
        let cs = chars_of(b.as_str());
        let t = trimmed(cs.as_slice());
        let m = check_type(t.as_slice(), "extends");
        note(d, m);
        let ghost v1 = d.view();
        let ghost before = strings_view(d.extends@);
        d.extends.push(string_of(&t));
        proof {
            assert(strings_view(d.extends@) =~= before.push(t@));
            assert(d.view() == DocblockView { extends: v1.extends.push(t@), ..v1 });
        }
    }
}

/// `@implements`: the trimmed body, checked as a type.
fn apply_implements(d: &mut ParsedDocblock, body: &Option<String>)
    ensures
        final(d).view() == with_implements(old(d).view(), opt_text(*body)),
{
    if let Some(b) = body {
        let cs = chars_of(b.as_str());
        let t = trimmed(cs.as_slice());
        let m = check_type(t.as_slice(), "implements");
        note(d, m);
        let ghost v1 = d.view();
        let ghost before = strings_view(d.implements@);
        d.implements.push(string_of(&t));
        proof {
            assert(strings_view(d.implements@) =~= before.push(t@));
            assert(d.view() == DocblockView { implements: v1.implements.push(t@), ..v1 });
        }
    }
}

/// `@use`: the trimmed body, checked as a type.
fn apply_use(d: &mut ParsedDocblock, body: &Option<String>)
    ensures
        final(d).view() == with_use(old(d).view(), opt_text(*body)),
{
    if let Some(b) = body {
        let cs = chars_of(b.as_str());
        let t = trimmed(cs.as_slice());
        let m = check_type(t.as_slice(), "use");
        note(d, m);
        let ghost v1 = d.view();
        let ghost before = strings_view(d.uses@);
        d.uses.push(string_of(&t));
        proof {
            assert(strings_view(d.uses@) =~= before.push(t@));
            assert(d.view() == DocblockView { uses: v1.uses.push(t@), ..v1 });
        }
    }
}

/// The type text of an assertion and whether it is negated (`!Type`).
pub fn parse_assertion_type(s: &str) -> (r: (String, bool))
    ensures
        (r.0@, r.1) == assertion_of(s@),
{
    let cs = chars_of(s);
    let t = trimmed(cs.as_slice());
    if t.len() > 0 && t[0] == '!' {
        let rest = copy_range(t.as_slice(), 1, t.len());
        proof {
            assert(rest@ =~= t@.drop_first());
        }
        (string_of(&rest), true)
    } else {
        (string_of(&cs), false)
    }
}

fn assertion_entry_exec(body: &Option<String>) -> (r: Option<(String, String, bool)>)
    ensures
        match assertion_entry(opt_text(*body)) {
            Some(a) => r matches Some(e) && (e.0@, e.1@, e.2) == a,
            None => r is None,
        },
{
    if let Some(b) = body {
        let cs = chars_of(b.as_str());
        if let Some((t, n)) = parse_param_line_chars(cs.as_slice()) {
            let ts = string_of(&t);
            let (ty, neg) = parse_assertion_type(ts.as_str());
            return Some((string_of(&n), ty, neg));
        }
    }
    None
}

fn apply_assert(d: &mut ParsedDocblock, body: &Option<String>)
    ensures
        final(d).view() == with_assert(old(d).view(), 0, opt_text(*body)),
{
    if let Some(entry) = assertion_entry_exec(body) {
        let ghost a = (entry.0@, entry.1@, entry.2);
        let ghost v0 = d.view();
        d.assertions.push(entry);
        proof {
            assert(assertions_view(d.assertions@) =~= v0.assertions.push(a));
            assert(d.view() == DocblockView { assertions: v0.assertions.push(a), ..v0 });
        }
    }
}

fn apply_assert_if_true(d: &mut ParsedDocblock, body: &Option<String>)
    ensures
        final(d).view() == with_assert(old(d).view(), 1, opt_text(*body)),
{
    if let Some(entry) = assertion_entry_exec(body) {
        let ghost a = (entry.0@, entry.1@, entry.2);
        let ghost v0 = d.view();
        d.assertions_if_true.push(entry);
        proof {
            assert(assertions_view(d.assertions_if_true@) =~= v0.assertions_if_true.push(a));
            assert(d.view() == DocblockView { assertions_if_true: v0.assertions_if_true.push(a), ..v0 });
        }
    }
}

fn apply_assert_if_false(d: &mut ParsedDocblock, body: &Option<String>)
    ensures
        final(d).view() == with_assert(old(d).view(), 2, opt_text(*body)),
{
    if let Some(entry) = assertion_entry_exec(body) {
        let ghost a = (entry.0@, entry.1@, entry.2);
        let ghost v0 = d.view();
        d.assertions_if_false.push(entry);
        proof {
            assert(assertions_view(d.assertions_if_false@) =~= v0.assertions_if_false.push(a));
            assert(d.view() == DocblockView { assertions_if_false: v0.assertions_if_false.push(a), ..v0 });
        }
    }
}

fn apply_if_this_is(d: &mut ParsedDocblock, body: &Option<String>)
    ensures
        final(d).view() == with_if_this_is(old(d).view(), opt_text(*body)),
{
    if let Some(b) = body {
        let cs = chars_of(b.as_str());
        let t = trimmed(cs.as_slice());
        if t.len() > 0 {
            let ghost v0 = d.view();
            d.if_this_is = Some(string_of(&t));
            proof {
                assert(d.view() == DocblockView { if_this_is: Some(t@), ..v0 });
            }
        }
    }
}

/// `kw<args>` read from `t`, the keyword matched without regard to ASCII case.
fn receiver_args_exec(t: &[char], kw: &str) -> (r: Option<Vec<String>>)
    ensures
        match receiver_args(t@, kw@) {
            Some(a) => r matches Some(x) && strings_view(x@) == a,
            None => r is None,
        },
{
    let k = chars_of(kw);
    if k.len() > t.len() {
        return None;
    }
    let head = copy_range(t, 0, k.len());
    proof {
        assert(head@ =~= t@.take(k@.len() as int));
    }
    if !same_ignoring_ascii_case(head.as_slice(), k.as_slice()) {
        return None;
    }
    let (x, y) = trim_range(t, k.len(), t.len());
    proof {
        assert(t@.subrange(k@.len() as int, t@.len() as int) =~= t@.skip(k@.len() as int));
        assert(t@.subrange(x as int, t@.len() as int) =~= trim_start(t@.skip(k@.len() as int)));
    }
    let n = t.len();
    if n - x >= 2 && t[x] == '<' && t[n - 1] == '>' {
        let inner = copy_range(t, x + 1, n - 1);
        proof {
            let rest = t@.subrange(x as int, n as int);
            assert(inner@ =~= rest.subrange(1, rest.len() - 1));
        }
        let parts = split_top_level(inner.as_slice(), ',', false);
        Some(to_strings(parts))
    } else {
        None
    }
}

/// The type of a self-out annotation (`@psalm-self-out`, `@this-out`, ...).
pub fn parse_self_out_type(trimmed: &str) -> (r: SelfOutType)
    ensures
        self_out_view(r) == self_out_of(trimmed@),
{
    let t = chars_of(trimmed);
    proof {
        reveal_strlit("self");
        reveal_strlit("static");
        reveal_strlit("parent");
        reveal_strlit("$this");
    }
    if let Some(p) = receiver_args_exec(t.as_slice(), "self") {
        return SelfOutType::Receiver { keyword: String::from_str("self"), params: p };
    }
    if let Some(p) = receiver_args_exec(t.as_slice(), "static") {
        return SelfOutType::Receiver { keyword: String::from_str("static"), params: p };
    }
    if let Some(p) = receiver_args_exec(t.as_slice(), "parent") {
        return SelfOutType::Receiver { keyword: String::from_str("parent"), params: p };
    }
    if let Some(p) = receiver_args_exec(t.as_slice(), "$this") {
        return SelfOutType::Receiver { keyword: String::from_str("$this"), params: p };
    }
    SelfOutType::Plain(string_of(&t))
}

fn apply_self_out(d: &mut ParsedDocblock, body: &Option<String>)
    ensures
        final(d).view() == with_self_out(old(d).view(), opt_text(*body)),
{
    if let Some(b) = body {
        let cs = chars_of(b.as_str());
        let t = trimmed(cs.as_slice());
        if t.len() > 0 {
            let ts = string_of(&t);
            let so = parse_self_out_type(ts.as_str());
            let ghost v0 = d.view();
            let ghost sv = self_out_view(so);
            d.self_out = Some(so);
            proof {
                assert(d.view() == DocblockView { self_out: Some(sv), ..v0 });
            }
        }
    }
}

fn apply_suppress(d: &mut ParsedDocblock, body: &Option<String>)
    ensures
        final(d).view() == with_suppress(old(d).view(), opt_text(*body)),
{
    if let Some(b) = body {
        let cs = chars_of(b.as_str());
        let seps = vec![',', ' '];
        proof {
            assert(seps@ =~= seq![',', ' ']);
        }
        let pieces = trim_each(&split_chars(cs.as_slice(), seps.as_slice()));
        let ghost v0 = d.view();
        push_nonempty(&mut d.suppressed_issues, &pieces);
        proof {
            assert(d.view() == DocblockView {
                suppressed_issues: v0.suppressed_issues + keep_nonempty(views(pieces@)),
                ..v0
            });
        }
    }
}

fn push_text(out: &mut Vec<String>, t: &Vec<char>)
    ensures
        strings_view(final(out)@) == strings_view(old(out)@).push(t@),
{
    let ghost before = strings_view(out@);
    out.push(string_of(t));
    proof {
        assert(strings_view(out@) =~= before.push(t@));
    }
}

fn apply_see(d: &mut ParsedDocblock, body: &Option<String>)
    ensures
        final(d).view() == with_see(old(d).view(), opt_text(*body)),
{
    if let Some(b) = body {
        let cs = chars_of(b.as_str());
        let ghost v0 = d.view();
        push_text(&mut d.see, &cs);
        proof {
            assert(d.view() == DocblockView { see: v0.see.push(cs@), ..v0 });
        }
    }
}

fn apply_mixin(d: &mut ParsedDocblock, body: &Option<String>)
    ensures
        final(d).view() == with_mixin(old(d).view(), opt_text(*body)),
{
    if let Some(b) = body {
        let cs = chars_of(b.as_str());
        let k = find_char_in(cs.as_slice(), 0, cs.len(), '<');
        let base = copy_range(cs.as_slice(), 0, k);
        proof {
            assert(cs@.subrange(0, cs@.len() as int) =~= cs@);
            assert(base@ =~= cs@.take(k as int));
        }
        let ghost v0 = d.view();
        push_text(&mut d.mixins, &base);
        proof {
            assert(d.view() == DocblockView { mixins: v0.mixins.push(base@), ..v0 });
        }
    }
}

fn apply_property(d: &mut ParsedDocblock, read_only: bool, write_only: bool, strip: bool, body: &Option<String>)
    ensures
        final(d).view() == with_property(old(d).view(), read_only, write_only, strip, opt_text(*body)),
{
    if let Some(b) = body {
        let cs = chars_of(b.as_str());
        if let Some((t, n)) = parse_param_line_chars(cs.as_slice()) {
            let name = if strip {
                strip_lead_vec(n.as_slice(), '$')
            } else {
                n
            };
            let p = DocProperty { type_hint: string_of(&t), name: string_of(&name), read_only, write_only };
            let ghost pv = property_view(p);
            let ghost v0 = d.view();
            d.properties.push(p);
            proof {
                assert(d.properties@.map_values(|p: DocProperty| property_view(p)) =~= v0.properties.push(pv));
                assert(d.view() == DocblockView { properties: v0.properties.push(pv), ..v0 });
            }
        }
    }
}

fn method_entry(t: &Vec<char>) -> (r: Option<DocMethod>)
    ensures
        match method_line_of(t@) {
            Some(x) => r matches Some(m) && method_view(m) == x,
            None => r is None,
        },
{
    let ts = string_of(t);
    parse_method_line(ts.as_str())
}

fn apply_method(d: &mut ParsedDocblock, body: &Option<String>)
    ensures
        final(d).view() == with_method(old(d).view(), opt_text(*body)),
{
    let raw = match body {
        Some(b) => chars_of(b.as_str()),
        None => Vec::new(),
    };
    proof {
        if body is None {
            assert(raw@ =~= Seq::<char>::empty());
        }
    }
    let t = trimmed(raw.as_slice());
    let ghost v0 = d.view();
    match validate_method_body_chars(t.as_slice()) {
        Some(err) => {
            proof {
                assert(method_body_error(t@) == Some(err@));
            }
            note(d, Some(err));
        },
        None => {
            proof {
                assert(method_body_error(t@) is None);
            }
            match method_entry(&t) {
                Some(m) => {
                    let ghost mv = method_view(m);
                    d.methods.push(m);
                    proof {
                        assert(method_line_of(t@) == Some(mv));
                        assert(d.methods@.map_values(|m: DocMethod| method_view(m)) =~= v0.methods.push(mv));
                        assert(d.view() == DocblockView { methods: v0.methods.push(mv), ..v0 });
                    }
                },
                None => {},
            }
        },
    }
}

fn apply_type_alias(d: &mut ParsedDocblock, body: &Option<String>)
    ensures
        final(d).view() == with_type_alias(old(d).view(), opt_text(*body)),
{
    if let Some(b) = body {
        let cs = chars_of(b.as_str());
        let n = cs.len();
        let k = find_char_in(cs.as_slice(), 0, n, '=');
        proof {
            assert(cs@.subrange(0, n as int) =~= cs@);
        }
        if k < n {
            let raw = trimmed(copy_range(cs.as_slice(), 0, k).as_slice());
            let lt = find_char_in(raw.as_slice(), 0, raw.len(), '<');
            let name = trimmed(copy_range(raw.as_slice(), 0, lt).as_slice());
            let expr = trimmed(copy_range(cs.as_slice(), k + 1, n).as_slice());
            proof {
                assert(cs@.subrange(0, k as int) =~= cs@.take(k as int));
                assert(raw@.subrange(0, raw@.len() as int) =~= raw@);
                assert(raw@.subrange(0, lt as int) =~= raw@.take(lt as int));
                assert(cs@.subrange(k + 1, n as int) =~= cs@.skip(k + 1));
            }
            let a = DocTypeAlias { name: string_of(&name), type_expr: string_of(&expr) };
            let ghost av = (name@, expr@);
            let ghost v0 = d.view();
            d.type_aliases.push(a);
            proof {
                assert(d.type_aliases@.map_values(|a: DocTypeAlias| (a.name@, a.type_expr@)) =~= v0.type_aliases.push(av));
                assert(d.view() == DocblockView { type_aliases: v0.type_aliases.push(av), ..v0 });
            }
        }
    }
}

fn apply_import_type(d: &mut ParsedDocblock, body: &Option<String>)
    ensures
        final(d).view() == with_import_type(old(d).view(), opt_text(*body)),
{
    if let Some(b) = body {
        if let Some(imp) = parse_import_type(b.as_str()) {
            let ghost iv = (imp.original@, imp.local@, imp.from_class@);
            let ghost v0 = d.view();
            d.import_types.push(imp);
            proof {
                assert(d.import_types@.map_values(|x: DocImportType| (x.original@, x.local@, x.from_class@)) =~= v0.import_types.push(iv));
                assert(d.view() == DocblockView { import_types: v0.import_types.push(iv), ..v0 });
            }
        }
    }
}

fn version_word_exec(body: &Option<String>) -> (r: Option<String>)
    ensures
        opt_text(r) == version_word(opt_text(*body)),
{
    match body {
        Some(b) => {
            let cs = chars_of(b.as_str());
            let w = first_word_of(cs.as_slice());
            if w.len() > 0 {
                Some(string_of(&w))
            } else {
                None
            }
        },
        None => None,
    }
}

fn class_word_exec(body: &Option<String>) -> (r: Option<String>)
    ensures
        opt_text(r) == class_word(opt_text(*body)),
{
    match body {
        Some(b) => {
            let cs = chars_of(b.as_str());
            let w = trimmed(first_word_of(cs.as_slice()).as_slice());
            if w.len() > 0 {
                Some(string_of(&w))
            } else {
                None
            }
        },
        None => None,
    }
}

fn mir_check_exec(b: &String) -> (r: Option<(String, String)>)
    ensures
        match mir_check_of(b@) {
            Some(c) => r matches Some(x) && (x.0@, x.1@) == c,
            None => r is None,
        },
{
    let cs = chars_of(b.as_str());
    let pat = chars_of(" is ");
    proof {
        reveal_strlit(" is ");
        assert(cs@.skip(0) =~= cs@);
    }
    match find_sub_from(cs.as_slice(), 0, pat.as_slice()) {
        Some(f) => {
            proof {
                lemma_first_where_bounds(cs@.len() as int, |i: int| crate::text::starts_at(cs@, i, " is "@), 0);
            }
            let n = cs.len();
            let e = trimmed(copy_range(cs.as_slice(), 0, f).as_slice());
            let t = trimmed(copy_range(cs.as_slice(), f + 4, n).as_slice());
            proof {
                assert(cs@.subrange(0, f as int) =~= cs@.take(f as int));
                assert(cs@.subrange(f + 4, n as int) =~= cs@.skip(f + 4));
            }
            if e.len() > 0 && t.len() > 0 {
                Some((string_of(&e), string_of(&t)))
            } else {
                None
            }
        },
        None => None,
    }
}

fn provider_exec(b: &String) -> (r: Vec<char>)
    ensures
        r@ == provider_of(b@),
{
    let cs = chars_of(b.as_str());
    let t = trimmed(cs.as_slice());
    let paren = chars_of("()");
    let colons = chars_of("::");
    proof {
        reveal_strlit("()");
        reveal_strlit("::");
    }
    let e = strip_suffix_all_at(t.as_slice(), 0, t.len(), paren.as_slice());
    let t2 = copy_range(t.as_slice(), 0, e);
    proof {
        assert(t@.subrange(0, t@.len() as int) =~= t@);
        assert(t2@.take(t2@.len() as int) =~= t2@);
    }
    let seg = match rfind_at(t2.as_slice(), t2.len(), colons.as_slice()) {
        Some(r) => {
            proof {
                crate::text::lemma_last_where(|i: int| crate::text::starts_at(t2@, i, "::"@), t2@.len() as int);
            }
            let x = copy_range(t2.as_slice(), r + 2, t2.len());
            proof {
                assert(x@ =~= t2@.skip(r + 2));
            }
            x
        },
        None => copy_range(t2.as_slice(), 0, t2.len()),
    };
    proof {
        assert(t2@.subrange(0, t2@.len() as int) =~= t2@);
    }
    trimmed(seg.as_slice())
}

fn trace_each(ps: &Vec<Vec<char>>) -> (r: Vec<Vec<char>>)
    ensures
        views(r@) == trace_names(views(ps@)),
{
    let mut out: Vec<Vec<char>> = Vec::new();
    let mut i: usize = 0;
    while i < ps.len()
        invariant
            i <= ps@.len(),
            out@.len() == i,
            forall|k: int| 0 <= k < i ==> (#[trigger] out@[k])@ == strip_lead(trim(ps@[k]@), '$'),
        decreases ps.len() - i,
    {
        let t = trimmed(ps[i].as_slice());
        out.push(strip_lead_vec(t.as_slice(), '$'));
        i = i + 1;
    }
    proof {
        assert(views(out@) =~= trace_names(views(ps@)));
    }
    out
}

fn apply_trace(d: &mut ParsedDocblock, b: &String)
    ensures
        final(d).view() == (DocblockView {
            trace_vars: old(d).view().trace_vars + keep_nonempty(
                trace_names(split_at_chars(b@, seq![',', ' '])),
            ),
            ..old(d).view()
        }),
{
    let cs = chars_of(b.as_str());
    let seps = vec![',', ' '];
    proof {
        assert(seps@ =~= seq![',', ' ']);
    }
    let names = trace_each(&split_chars(cs.as_slice(), seps.as_slice()));
    let ghost v0 = d.view();
    push_nonempty(&mut d.trace_vars, &names);
    proof {
        assert(d.view() == DocblockView {
            trace_vars: v0.trace_vars + keep_nonempty(views(names@)),
            ..v0
        });
    }
}

fn apply_taint_sink(d: &mut ParsedDocblock, b: &String)
    ensures
        final(d).view() == (DocblockView {
            taint_sinks: old(d).view().taint_sinks + taint_entries(b@),
            ..old(d).view()
        }),
{
    let cs = chars_of(b.as_str());
    let ws = split_words(cs.as_slice(), 0, cs.len());
    proof {
        assert(cs@.subrange(0, cs@.len() as int) =~= cs@);
    }
    let ghost v0 = d.view();
    if ws.len() == 0 {
        proof {
            assert(v0.taint_sinks + taint_entries(b@) =~= v0.taint_sinks);
        }
        return;
    }
    let ghost wv = views(ws@);
    let ghost kind = wv[0];
    proof {
        assert(wv[0] == ws@[0]@);
    }
    let mut i: usize = 1;
    let ghost names = wv.skip(1).map_values(|w: Seq<char>| strip_lead(w, '$'));
    while i < ws.len()
        invariant
            1 <= i <= ws@.len(),
            wv == views(ws@),
            wv.len() > 0,
            kind == wv[0],
            names == wv.skip(1).map_values(|w: Seq<char>| strip_lead(w, '$')),
            d.view() == (DocblockView {
                taint_sinks: v0.taint_sinks + keep_nonempty(names.take(i - 1)).map_values(
                    |p: Seq<char>| (p, kind),
                ),
                ..v0
            }),
        decreases ws.len() - i,
    {
        let p = strip_lead_vec(ws[i].as_slice(), '$');
        let ghost prev = keep_nonempty(names.take(i - 1));
        let ghost vv = d.view();
        proof {
            assert(names.take(i as int).drop_last() =~= names.take(i - 1));
            assert(names.take(i as int).last() == p@);
            assert(wv[i as int] == ws@[i as int]@);
        }
        if p.len() > 0 {
            let entry = (string_of(&p), string_of(&ws[0]));
            d.taint_sinks.push(entry);
            proof {
                let f = |q: Seq<char>| (q, kind);
                assert(prev.push(p@).map_values(f) =~= prev.map_values(f).push((p@, kind)));
                assert(pairs_view(d.taint_sinks@) =~= vv.taint_sinks.push((p@, kind)));
                assert(v0.taint_sinks + prev.push(p@).map_values(f) =~= vv.taint_sinks.push((p@, kind)));
            }
        }
        i = i + 1;
    }
    proof {
        assert(names.take(i - 1) =~= names);
    }
}

fn set_is_internal(d: &mut ParsedDocblock)
    ensures
        final(d).view() == (DocblockView { is_internal: true, ..old(d).view() }),
{
    d.is_internal = true;
}

fn set_is_pure(d: &mut ParsedDocblock)
    ensures
        final(d).view() == (DocblockView { is_pure: true, ..old(d).view() }),
{
    d.is_pure = true;
}

fn set_seal_properties(d: &mut ParsedDocblock)
    ensures
        final(d).view() == (DocblockView { seal_properties: true, ..old(d).view() }),
{
    d.seal_properties = true;
}

fn set_no_named_arguments(d: &mut ParsedDocblock)
    ensures
        final(d).view() == (DocblockView { no_named_arguments: true, ..old(d).view() }),
{
    d.no_named_arguments = true;
}

fn set_is_mutation_free(d: &mut ParsedDocblock)
    ensures
        final(d).view() == (DocblockView { is_mutation_free: true, ..old(d).view() }),
{
    d.is_mutation_free = true;
}

fn set_is_external_mutation_free(d: &mut ParsedDocblock)
    ensures
        final(d).view() == (DocblockView { is_external_mutation_free: true, ..old(d).view() }),
{
    d.is_external_mutation_free = true;
}

fn set_is_immutable(d: &mut ParsedDocblock)
    ensures
        final(d).view() == (DocblockView { is_immutable: true, ..old(d).view() }),
{
    d.is_immutable = true;
}

fn set_is_readonly(d: &mut ParsedDocblock)
    ensures
        final(d).view() == (DocblockView { is_readonly: true, ..old(d).view() }),
{
    d.is_readonly = true;
}

fn set_is_final(d: &mut ParsedDocblock)
    ensures
        final(d).view() == (DocblockView { is_final: true, ..old(d).view() }),
{
    d.is_final = true;
}

fn set_is_inherit_doc(d: &mut ParsedDocblock)
    ensures
        final(d).view() == (DocblockView { is_inherit_doc: true, ..old(d).view() }),
{
    d.is_inherit_doc = true;
}

fn set_is_api(d: &mut ParsedDocblock)
    ensures
        final(d).view() == (DocblockView { is_api: true, ..old(d).view() }),
{
    d.is_api = true;
}

fn apply_since(d: &mut ParsedDocblock, body: &Option<String>)
    ensures
        final(d).view() == (if old(d).view().since is None {
            DocblockView { since: version_word(opt_text(*body)), ..old(d).view() }
        } else {
            old(d).view()
        }),
{
    if d.since.is_none() {
        let w = version_word_exec(body);
        let ghost v0 = d.view();
        let ghost wv = opt_text(w);
        d.since = w;
        proof {
            assert(d.view() == DocblockView { since: wv, ..v0 });
        }
    }
}

fn apply_removed(d: &mut ParsedDocblock, body: &Option<String>)
    ensures
        final(d).view() == (if old(d).view().removed is None {
            DocblockView { removed: version_word(opt_text(*body)), ..old(d).view() }
        } else {
            old(d).view()
        }),
{
    if d.removed.is_none() {
        let w = version_word_exec(body);
        let ghost v0 = d.view();
        let ghost wv = opt_text(w);
        d.removed = w;
        proof {
            assert(d.view() == DocblockView { removed: wv, ..v0 });
        }
    }
}

fn apply_require(d: &mut ParsedDocblock, implements: bool, body: &Option<String>)
    ensures
        !implements ==> final(d).view() == (match class_word(opt_text(*body)) {
            Some(c) => DocblockView { require_extends: old(d).view().require_extends.push(c), ..old(d).view() },
            None => old(d).view(),
        }),
        implements ==> final(d).view() == (match class_word(opt_text(*body)) {
            Some(c) => DocblockView { require_implements: old(d).view().require_implements.push(c), ..old(d).view() },
            None => old(d).view(),
        }),
{
    if let Some(c) = class_word_exec(body) {
        let ghost v0 = d.view();
        let ghost cv = c@;
        if implements {
            let ghost before = strings_view(d.require_implements@);
            d.require_implements.push(c);
            proof {
                assert(strings_view(d.require_implements@) =~= before.push(cv));
                assert(d.view() == DocblockView { require_implements: v0.require_implements.push(cv), ..v0 });
            }
        } else {
            let ghost before = strings_view(d.require_extends@);
            d.require_extends.push(c);
            proof {
                assert(strings_view(d.require_extends@) =~= before.push(cv));
                assert(d.view() == DocblockView { require_extends: v0.require_extends.push(cv), ..v0 });
            }
        }
    }
}

fn apply_mir_check(d: &mut ParsedDocblock, b: &String)
    ensures
        final(d).view() == (match mir_check_of(b@) {
            Some(c) => DocblockView { mir_checks: old(d).view().mir_checks.push(c), ..old(d).view() },
            None => old(d).view(),
        }),
{
    if let Some(c) = mir_check_exec(b) {
        let ghost v0 = d.view();
        let ghost cv = (c.0@, c.1@);
        d.mir_checks.push(c);
        proof {
            assert(pairs_view(d.mir_checks@) =~= v0.mir_checks.push(cv));
            assert(d.view() == DocblockView { mir_checks: v0.mir_checks.push(cv), ..v0 });
        }
    }
}

fn apply_data_provider(d: &mut ParsedDocblock, b: &String)
    ensures
        final(d).view() == (if provider_of(b@).len() > 0 {
            DocblockView { data_providers: old(d).view().data_providers.push(provider_of(b@)), ..old(d).view() }
        } else {
            old(d).view()
        }),
{
    let p = provider_exec(b);
    if p.len() > 0 {
        let ghost v0 = d.view();
        push_text(&mut d.data_providers, &p);
        proof {
            assert(d.view() == DocblockView { data_providers: v0.data_providers.push(p@), ..v0 });
        }
    }
}

/// Applies one tag to `d`.
pub fn apply_one(d: &mut ParsedDocblock, name: &String, body: &Option<String>)
    ensures
        final(d).view() == apply_tag(old(d).view(), name@, opt_text(*body)),
{
    let nc = chars_of(name.as_str());
    let k = classify(nc.as_slice());
    match k {
        TagKind::ParamOut => apply_param_out(d, body),
        TagKind::Param => apply_param(d, body),
        TagKind::Return => apply_return(d, body),
        TagKind::Var => apply_var(d, body),
        TagKind::Throws => apply_throws(d, body),
        TagKind::Deprecated => apply_deprecated(d, body),
        TagKind::Template(var) => apply_template(d, var, name.as_str(), body),
        TagKind::Extends => apply_extends(d, body),
        TagKind::Implements => apply_implements(d, body),
        TagKind::Use => apply_use(d, body),
        TagKind::Assert => apply_assert(d, body),
        TagKind::AssertIfTrue => apply_assert_if_true(d, body),
        TagKind::AssertIfFalse => apply_assert_if_false(d, body),
        TagKind::IfThisIs => apply_if_this_is(d, body),
        TagKind::SelfOut => apply_self_out(d, body),
        TagKind::Suppress => apply_suppress(d, body),
        TagKind::See => apply_see(d, body),
        TagKind::Mixin => apply_mixin(d, body),
        TagKind::Property(ro, wo, strip) => apply_property(d, ro, wo, strip, body),
        TagKind::Method => apply_method(d, body),
        TagKind::TypeAlias => apply_type_alias(d, body),
        TagKind::ImportType => apply_import_type(d, body),
        TagKind::Since => apply_since(d, body),
        TagKind::Removed => apply_removed(d, body),
        TagKind::RequireExtends => apply_require(d, false, body),
        TagKind::RequireImplements => apply_require(d, true, body),
        TagKind::MirCheck => {
            if let Some(b) = body {
                apply_mir_check(d, b);
            }
        },
        TagKind::DataProvider => {
            if let Some(b) = body {
                apply_data_provider(d, b);
            }
        },
        TagKind::Trace => {
            if let Some(b) = body {
                apply_trace(d, b);
            }
        },
        TagKind::TaintSink => {
            if let Some(b) = body {
                apply_taint_sink(d, b);
            }
        },
        TagKind::Other => {},
        TagKind::Internal => set_is_internal(d),
        TagKind::Pure => set_is_pure(d),
        TagKind::SealProperties => set_seal_properties(d),
        TagKind::NoNamedArguments => set_no_named_arguments(d),
        TagKind::MutationFree => set_is_mutation_free(d),
        TagKind::ExternalMutationFree => set_is_external_mutation_free(d),
        TagKind::Immutable => set_is_immutable(d),
        TagKind::Readonly => set_is_readonly(d),
        TagKind::Final => set_is_final(d),
        TagKind::InheritDoc => set_is_inherit_doc(d),
        TagKind::Api => set_is_api(d),
    }
}

/// A record holding only `description`.
pub fn empty_record(description: String) -> (r: ParsedDocblock)
    ensures
        r.view() == empty_view(description@),
{
    let r = ParsedDocblock {
        params: Vec::new(),
        out_params: Vec::new(),
        return_type: None,
        var_type: None,
        var_name: None,
        templates: Vec::new(),
        extends: Vec::new(),
        implements: Vec::new(),
        uses: Vec::new(),
        throws: Vec::new(),
        assertions: Vec::new(),
        assertions_if_true: Vec::new(),
        assertions_if_false: Vec::new(),
        suppressed_issues: Vec::new(),
        is_deprecated: false,
        is_internal: false,
        is_pure: false,
        is_mutation_free: false,
        is_external_mutation_free: false,
        no_named_arguments: false,
        is_immutable: false,
        is_readonly: false,
        is_api: false,
        is_final: false,
        is_inherit_doc: false,
        description,
        deprecated: None,
        see: Vec::new(),
        mixins: Vec::new(),
        properties: Vec::new(),
        methods: Vec::new(),
        type_aliases: Vec::new(),
        import_types: Vec::new(),
        require_extends: Vec::new(),
        require_implements: Vec::new(),
        since: None,
        removed: None,
        invalid_annotations: Vec::new(),
        mir_checks: Vec::new(),
        trace_vars: Vec::new(),
        taint_sinks: Vec::new(),
        seal_properties: false,
        if_this_is: None,
        self_out: None,
        data_providers: Vec::new(),
    };
    proof {
        assert(r.view().params =~= empty_view(description@).params);
        assert(r.view().out_params =~= empty_view(description@).out_params);
        assert(r.view().templates =~= empty_view(description@).templates);
        assert(r.view().extends =~= empty_view(description@).extends);
        assert(r.view().implements =~= empty_view(description@).implements);
        assert(r.view().uses =~= empty_view(description@).uses);
        assert(r.view().throws =~= empty_view(description@).throws);
        assert(r.view().assertions =~= empty_view(description@).assertions);
        assert(r.view().assertions_if_true =~= empty_view(description@).assertions_if_true);
        assert(r.view().assertions_if_false =~= empty_view(description@).assertions_if_false);
        assert(r.view().suppressed_issues =~= empty_view(description@).suppressed_issues);
        assert(r.view().see =~= empty_view(description@).see);
        assert(r.view().mixins =~= empty_view(description@).mixins);
        assert(r.view().properties =~= empty_view(description@).properties);
        assert(r.view().methods =~= empty_view(description@).methods);
        assert(r.view().type_aliases =~= empty_view(description@).type_aliases);
        assert(r.view().import_types =~= empty_view(description@).import_types);
        assert(r.view().require_extends =~= empty_view(description@).require_extends);
        assert(r.view().require_implements =~= empty_view(description@).require_implements);
        assert(r.view().invalid_annotations =~= empty_view(description@).invalid_annotations);
        assert(r.view().mir_checks =~= empty_view(description@).mir_checks);
        assert(r.view().trace_vars =~= empty_view(description@).trace_vars);
        assert(r.view().taint_sinks =~= empty_view(description@).taint_sinks);
        assert(r.view().data_providers =~= empty_view(description@).data_providers);
    }
    r
}

/// Whether `text` holds `{@inheritDoc}` in any ASCII case.
pub fn has_inherit_doc(text: &str) -> (r: bool)
    ensures
        r == mentions_inherit_doc(text@),
{
    let cs = chars_of(text);
    let mut lower: Vec<char> = Vec::new();
    let mut i: usize = 0;
    while i < cs.len()
        invariant
            i <= cs@.len(),
            lower@ =~= cs@.take(i as int).map_values(|c: char| ascii_lower(c)),
        decreases cs.len() - i,
    {
        lower.push(lower_ascii_char(cs[i]));
        i = i + 1;
    }
    let pat = chars_of("{@inheritdoc}");
    proof {
        reveal_strlit("{@inheritdoc}");
        assert(cs@.take(cs@.len() as int) =~= cs@);
        assert(lower@.skip(0) =~= lower@);
    }
    find_sub_from(lower.as_slice(), 0, pat.as_slice()).is_some()
}

/// The record that `tags`, read from the docblock `text`, describe: the
/// description from `text`, then every tag applied in order, then
/// `{@inheritDoc}` anywhere in `text`.
pub fn build_docblock(text: &str, tags: &Vec<(String, Option<String>)>) -> (r: ParsedDocblock)
    ensures
        r.view() == docblock_view(text@, tags_view(tags@)),
{
    let mut d = empty_record(extract_description(text));
    let ghost tv = tags_view(tags@);
    let mut i: usize = 0;
    while i < tags.len()
        invariant
            i <= tags@.len(),
            tv == tags_view(tags@),
            d.view() == apply_tags(empty_view(description_of(text@)), tv.take(i as int)),
        decreases tags.len() - i,
    {
        let ghost prev = d.view();
        let (name, body) = &tags[i];
        apply_one(&mut d, name, body);
        proof {
            assert(tv[i as int] == (name@, opt_text(*body)));
            assert(tv.take(i + 1).drop_last() =~= tv.take(i as int));
            assert(tv.take(i + 1).last() == (name@, opt_text(*body)));
            assert(d.view() == apply_tag(prev, name@, opt_text(*body)));
        }
        i = i + 1;
    }
    proof {
        assert(tv.take(tags@.len() as int) =~= tv);
    }
    if has_inherit_doc(text) {
        set_is_inherit_doc(&mut d);
    }
    d
}

impl super::DocblockParser {
    /// Reads a docblock: its description, then each tag that
    /// `phpdoc_parser` finds in it.
    pub fn parse(text: &str) -> (r: ParsedDocblock)
        requires
            text@.len() < 0x3000_0000,
        ensures
            r.view() == docblock_view(text@, phpdoc_tags(text@)),
    {
        let tags = doc_tags(text);
        build_docblock(text, &tags)
    }
}

/// Index of the last entry of `ps` whose name, without leading `$`, is
/// `name` without leading `$` (`-1` if there is none).
pub open spec fn last_named(ps: Seq<(Seq<char>, Seq<char>)>, name: Seq<char>) -> int {
    last_where(|i: int| strip_lead(ps[i].0, '$') == strip_lead(name, '$'), ps.len() as int)
}

fn last_named_exec(ps: &Vec<(String, String)>, name: &str) -> (r: Option<usize>)
    ensures
        match r {
            Some(i) => i == last_named(pairs_view(ps@), name@) && i < ps@.len(),
            None => last_named(pairs_view(ps@), name@) == -1,
        },
{
    let nc = chars_of(name);
    let want = strip_lead_vec(nc.as_slice(), '$');
    let ghost pv = pairs_view(ps@);
    let ghost p = |i: int| strip_lead(pv[i].0, '$') == strip_lead(name@, '$');
    let mut k: usize = ps.len();
    while k > 0
        invariant
            k <= ps@.len(),
            pv == pairs_view(ps@),
            p == (|i: int| strip_lead(pv[i].0, '$') == strip_lead(name@, '$')),
            want@ == strip_lead(name@, '$'),
            last_where(p, ps@.len() as int) == last_where(p, k as int),
        decreases k,
    {
        let i = k - 1;
        let ec = chars_of(ps[i].0.as_str());
        let have = strip_lead_vec(ec.as_slice(), '$');
        proof {
            assert(pv[i as int].0 == ps@[i as int].0@);
        }
        if super::validate::chars_eq(have.as_slice(), want.as_slice()) {
            proof {
                assert(p(i as int));
                assert(last_where(p, k as int) == i);
            }
            return Some(i);
        }
        proof {
            assert(!p(i as int));
            assert(last_where(p, k as int) == last_where(p, i as int));
        }
        k = i;
    }
    None
}

impl ParsedDocblock {
    /// The type text of the last `@param` for `name` (a leading `$` on
    /// either side is ignored).
    pub fn get_param_type(&self, name: &str) -> (r: Option<&String>)
        ensures
            ({
                let k = last_named(pairs_view(self.params@), name@);
                match r {
                    Some(t) => 0 <= k && t@ == pairs_view(self.params@)[k].1,
                    None => k == -1,
                }
            }),
    {
        match last_named_exec(&self.params, name) {
            Some(i) => Some(&self.params[i].1),
            None => None,
        }
    }

    /// The type text of the last `@param-out` for `name` (a leading `$` on
    /// either side is ignored).
    pub fn get_out_param_type(&self, name: &str) -> (r: Option<&String>)
        ensures
            ({
                let k = last_named(pairs_view(self.out_params@), name@);
                match r {
                    Some(t) => 0 <= k && t@ == pairs_view(self.out_params@)[k].1,
                    None => k == -1,
                }
            }),
    {
        match last_named_exec(&self.out_params, name) {
            Some(i) => Some(&self.out_params[i].1),
            None => None,
        }
    }
}

} // verus!
