//! `@psalm-require-extends` / `@psalm-require-implements` on a trait: which
//! requirements a class using the trait fails, and the messages for them.
use vstd::prelude::*;
use crate::text::{append_chars, append_str, chars_of, copy_range, rfind_at, rfind_sub, starts_at, string_of};

verus! {

broadcast use vstd::string::group_string_axioms;

/// A requirement of a used trait that the class does not meet.
pub struct TraitUseViolation {
    /// The trait's short name (after its last `\`).
    pub trait_name: String,
    pub reason: String,
}

pub open spec fn violation_view(v: TraitUseViolation) -> (Seq<char>, Seq<char>) {
    (v.trait_name@, v.reason@)
}

pub open spec fn violations_view(v: Seq<TraitUseViolation>) -> Seq<(Seq<char>, Seq<char>)> {
    v.map_values(|x: TraitUseViolation| violation_view(x))
}

/// The last segment of a namespaced name.
pub open spec fn short_name(fqcn: Seq<char>) -> Seq<char> {
    fqcn.skip(rfind_sub(fqcn, "\\"@) + 1)
}

pub open spec fn extend_message(class: Seq<char>, short: Seq<char>, req: Seq<char>) -> Seq<char> {
    "Class "@ + class + " uses trait "@ + short + " but does not extend "@ + req
}

pub open spec fn implement_message(class: Seq<char>, short: Seq<char>, req: Seq<char>) -> Seq<char> {
    "Class "@ + class + " uses trait "@ + short + " but does not implement "@ + req
}

/// The unmet `require-extends` entries among `reqs`: the class meets one by
/// being that class or having it among its ancestors.
pub open spec fn extend_violations(
    class: Seq<char>,
    ancestors: Seq<Seq<char>>,
    short: Seq<char>,
    reqs: Seq<Seq<char>>,
) -> Seq<(Seq<char>, Seq<char>)>
    decreases reqs.len(),
{
    if reqs.len() == 0 {
        Seq::empty()
    } else {
        let req = reqs.last();
        let before = extend_violations(class, ancestors, short, reqs.drop_last());
        if class == req || ancestors.contains(req) {
            before
        } else {
            before.push((short, extend_message(class, short, req)))
        }
    }
}

/// The unmet `require-implements` entries among `reqs`: the class meets one
/// by having it among its ancestors.
pub open spec fn implement_violations(
    class: Seq<char>,
    ancestors: Seq<Seq<char>>,
    short: Seq<char>,
    reqs: Seq<Seq<char>>,
) -> Seq<(Seq<char>, Seq<char>)>
    decreases reqs.len(),
{
    if reqs.len() == 0 {
        Seq::empty()
    } else {
        let req = reqs.last();
        let before = implement_violations(class, ancestors, short, reqs.drop_last());
        if ancestors.contains(req) {
            before
        } else {
            before.push((short, implement_message(class, short, req)))
        }
    }
}

pub open spec fn strings_of(v: Seq<String>) -> Seq<Seq<char>> {
    v.map_values(|s: String| s@)
}

fn short_name_exec(fqcn: &str) -> (r: String)
    ensures
        r@ == short_name(fqcn@),
{
    let cs = chars_of(fqcn);
    let n = cs.len();
    let sep = chars_of("\\");
    proof {
        reveal_strlit("\\");
        assert(cs@.take(n as int) =~= cs@);
    }
    let start = match rfind_at(cs.as_slice(), n, sep.as_slice()) {
        Some(i) => {
            proof {
                crate::text::lemma_last_where(|j: int| starts_at(cs@.take(n as int), j, "\\"@), n as int);
            }
            i + 1
        },
        None => 0,
    };
    let short = copy_range(cs.as_slice(), start, n);
    proof {
        assert(short@ =~= cs@.skip(rfind_sub(cs@, "\\"@) + 1));
    }
    string_of(&short)
}

fn contains_name(names: &Vec<String>, name: &String) -> (r: bool)
    ensures
        r == strings_of(names@).contains(name@),
{
    let ghost sv = strings_of(names@);
    let a = chars_of(name.as_str());
    let mut i: usize = 0;
    while i < names.len()
        invariant
            i <= names@.len(),
            sv == strings_of(names@),
            a@ == name@,
            forall|k: int| 0 <= k < i ==> sv[k] != name@,
        decreases names.len() - i,
    {
        let b = chars_of(names[i].as_str());
        if crate::docblock::validate::chars_eq(a.as_slice(), b.as_slice()) {
            assert(sv[i as int] == name@);
            return true;
        }
        i = i + 1;
    }
    false
}

fn message(class: &str, short: &String, verb: &str, req: &String) -> (r: String)
    ensures
        r@ == "Class "@ + class@ + " uses trait "@ + short@ + verb@ + req@,
{
    let mut out: Vec<char> = Vec::new();
    append_str(&mut out, "Class ");
    append_str(&mut out, class);
    append_str(&mut out, " uses trait ");
    let s = chars_of(short.as_str());
    append_chars(&mut out, s.as_slice());
    append_str(&mut out, verb);
    let q = chars_of(req.as_str());
    append_chars(&mut out, q.as_slice());
    string_of(&out)
}

/// The requirements of trait `trait_fqcn` that class `class` fails, given
/// the class's ancestors and the trait's `require-extends` and
/// `require-implements` lists: the unmet `require-extends` entries first,
/// then the unmet `require-implements` ones, each in list order.
pub fn trait_use_violations(
    class: &str,
    ancestors: &Vec<String>,
    trait_fqcn: &str,
    require_extends: &Vec<String>,
    require_implements: &Vec<String>,
) -> (r: Vec<TraitUseViolation>)
    ensures
        violations_view(r@) == extend_violations(
            class@,
            strings_of(ancestors@),
            short_name(trait_fqcn@),
            strings_of(require_extends@),
        ) + implement_violations(
            class@,
            strings_of(ancestors@),
            short_name(trait_fqcn@),
            strings_of(require_implements@),
        ),
{
    let short = short_name_exec(trait_fqcn);
    let ghost av = strings_of(ancestors@);
    let ghost ev = strings_of(require_extends@);
    let ghost iv = strings_of(require_implements@);
    let mut out: Vec<TraitUseViolation> = Vec::new();
    let mut i: usize = 0;
    proof {
        reveal_strlit(" but does not extend ");
        reveal_strlit(" but does not implement ");
    }
    while i < require_extends.len()
        invariant
            i <= require_extends@.len(),
            ev == strings_of(require_extends@),
            av == strings_of(ancestors@),
            short@ == short_name(trait_fqcn@),
            violations_view(out@) == extend_violations(class@, av, short@, ev.take(i as int)),
        decreases require_extends.len() - i,
    {
        let req = &require_extends[i];
        let cc = chars_of(class);
        let rc = chars_of(req.as_str());
        let same_class = crate::docblock::validate::chars_eq(cc.as_slice(), rc.as_slice());
        let met = same_class || contains_name(ancestors, req);
        proof {
            assert(ev.take(i + 1).drop_last() =~= ev.take(i as int));
            assert(ev.take(i + 1).last() == req@);
        }
        if !met {
            let reason = message(class, &short, " but does not extend ", req);
            let v = TraitUseViolation { trait_name: String::from_str(short.as_str()), reason };
            out.push(v);
            proof {
                assert(violations_view(out@) =~= extend_violations(class@, av, short@, ev.take(i as int)).push(
                    (short@, extend_message(class@, short@, req@)),
                ));
            }
        }
        i = i + 1;
    }
    assert(ev.take(require_extends@.len() as int) =~= ev);
    let ghost ext = violations_view(out@);
    let mut j: usize = 0;
    while j < require_implements.len()
        invariant
            j <= require_implements@.len(),
            iv == strings_of(require_implements@),
            av == strings_of(ancestors@),
            short@ == short_name(trait_fqcn@),
            violations_view(out@) == ext + implement_violations(class@, av, short@, iv.take(j as int)),
        decreases require_implements.len() - j,
    {
        let req = &require_implements[j];
        let met = contains_name(ancestors, req);
        proof {
            assert(iv.take(j + 1).drop_last() =~= iv.take(j as int));
            assert(iv.take(j + 1).last() == req@);
        }
        if !met {
            let reason = message(class, &short, " but does not implement ", req);
            let v = TraitUseViolation { trait_name: String::from_str(short.as_str()), reason };
            let ghost before = out@;
            out.push(v);
            proof {
                assert(violations_view(out@) =~= violations_view(before).push(violation_view(v)));
                assert(violation_view(v) == (short@, implement_message(class@, short@, req@)));
                assert(violations_view(out@) =~= ext + implement_violations(class@, av, short@, iv.take(j as int)).push(
                    (short@, implement_message(class@, short@, req@)),
                ));
            }
        }
        j = j + 1;
    }
    assert(iv.take(require_implements@.len() as int) =~= iv);
    out
}

} // verus!
