//! The tag list of a docblock, as `phpdoc_parser` reads it.
use vstd::prelude::*;
use super::parsed::opt_text;

verus! {

/// The tags that `phpdoc_parser::parse` finds in a docblock, each as
/// `(name, body text)`, in source order.
pub uninterp spec fn phpdoc_tags(text: Seq<char>) -> Seq<(Seq<char>, Option<Seq<char>>)>;

pub open spec fn tags_view(t: Seq<(String, Option<String>)>) -> Seq<(Seq<char>, Option<Seq<char>>)> {
    t.map_values(|x: (String, Option<String>)| (x.0@, opt_text(x.1)))
}

/// Runs `phpdoc_parser::parse` on `text` and reads each tag's name and, with
/// `phpdoc_parser::body_text`, its body. Stated: the result is the named tag
/// list of `text`, a function of `text` alone. The crate keeps byte offsets
/// in `u32` arithmetic, so the text is bounded well below 4 GiB.
#[verifier::external_body]
pub(crate) fn doc_tags(text: &str) -> (r: Vec<(String, Option<String>)>)
    requires
        text@.len() < 0x3000_0000,
    ensures
        tags_view(r@) == phpdoc_tags(text@),
{
    let doc = phpdoc_parser::parse(text);
    let mut out = Vec::new();
    for t in doc.tags.iter() {
        out.push((t.name.clone(), phpdoc_parser::body_text(t.body.as_ref())));
    }
    out
}

} // verus!
