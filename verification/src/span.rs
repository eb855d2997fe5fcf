//! The active trace span, abstracted as a context object passed explicitly
//! into the operations that annotate it. The surrounding server maps the
//! collected attributes onto the real span machinery.

use vstd::prelude::*;

verus! {

/// The key-value views of a list of span attributes, in order.
pub open spec fn attr_views(a: Seq<(String, String)>) -> Seq<(Seq<char>, Seq<char>)> {
    a.map(|i: int, p: (String, String)| (p.0@, p.1@))
}

pub struct SpanContext {
    pub attributes: Vec<(String, String)>,
}

impl SpanContext {
    pub fn new() -> (r: SpanContext)
        ensures
            r.attributes@.len() == 0,
    {
        SpanContext { attributes: Vec::new() }
    }

    /// Appends one key-value annotation; earlier annotations are kept.
    pub fn set_attribute(&mut self, key: String, value: String)
        ensures
            final(self).attributes@ == old(self).attributes@.push((key, value)),
            attr_views(final(self).attributes@) == attr_views(old(self).attributes@).push(
                (key@, value@),
            ),
    {
        let ghost k = key@;
        let ghost v = value@;
        let ghost before = self.attributes@;
        self.attributes.push((key, value));
        proof {
            assert(attr_views(self.attributes@) =~= attr_views(before).push((k, v)));
        }
    }
}

} // verus!
