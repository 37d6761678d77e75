//! A plain-value model of a parsed HTML document: the elements in
//! document order, each with its tag name, attribute list, combined
//! descendant text and serialized markup. The parse itself is done by
//! the `select` crate behind one trusted wrapper; everything that reads
//! the model is verified.

use vstd::prelude::*;
use select::document::Document;
use select::predicate::Element;
use crate::text_util::{str_eq, split_words, words_of};

verus! {

/// One element of a parsed document, as plain values.
pub struct HtmlElement {
    /// Tag name, lower-cased by the parser.
    pub name: String,
    /// Attribute names and values, in document order.
    pub attrs: Vec<(String, String)>,
    /// The concatenated text of the element and its descendants.
    pub text: String,
    /// The element serialized back to markup, including itself.
    pub html: String,
}

/// The mathematical view of one element.
pub struct ElemModel {
    pub name: Seq<char>,
    pub attrs: Seq<(Seq<char>, Seq<char>)>,
    pub text: Seq<char>,
    pub html: Seq<char>,
}

impl View for HtmlElement {
    type V = ElemModel;

    open spec fn view(&self) -> ElemModel {
        ElemModel {
            name: self.name@,
            attrs: self.attrs@.map_values(|p: (String, String)| (p.0@, p.1@)),
            text: self.text@,
            html: self.html@,
        }
    }
}

/// The views of a vector of elements.
pub open spec fn views_of_elems(v: Seq<HtmlElement>) -> Seq<ElemModel> {
    v.map_values(|e: HtmlElement| e@)
}

/// The elements of the document a piece of markup parses to, in
/// document order. The parse is the `select` crate's; its result is a
/// function of the markup text alone, so it only gets a name here.
pub uninterp spec fn html_elements(html: Seq<char>) -> Seq<ElemModel>;

/// Relies on the `select` crate: `Document::from` parses markup into
/// nodes in document order, `find(Element)` walks exactly the element
/// nodes in that order, and `Node::name`, `Node::attrs`, `Node::text`
/// and `Node::html` read one node's tag name, attribute pairs, combined
/// descendant text and serialized markup.
#[verifier::external_body]
pub(crate) fn parse_html_elements(html: &str) -> (r: Vec<HtmlElement>)
    ensures
        views_of_elems(r@) == html_elements(html@),
{
    let mut out: Vec<HtmlElement> = Vec::new();
    for n in Document::from(html).find(Element) {
        out.push(HtmlElement {
            name: n.name().unwrap_or("").to_string(),
            attrs: n.attrs().map(|(k, v)| (k.to_string(), v.to_string())).collect(),
            text: n.text(),
            html: n.html(),
        });
    }
    out
}

// ---------------------------------------------------------------------
// Reading the model
// ---------------------------------------------------------------------

/// The value of the first attribute with the given name, if any.
pub open spec fn attr_of(attrs: Seq<(Seq<char>, Seq<char>)>, key: Seq<char>) -> Option<Seq<char>>
    decreases attrs.len(),
{
    if attrs.len() == 0 {
        None
    } else if attrs[0].0 == key {
        Some(attrs[0].1)
    } else {
        attr_of(attrs.drop_first(), key)
    }
}

/// Looks an attribute up by name.
pub fn get_attr(e: &HtmlElement, key: &str) -> (r: Option<String>)
    ensures
        match r {
            Some(v) => attr_of(e@.attrs, key@) == Some(v@),
            None => attr_of(e@.attrs, key@) is None,
        },
{
    let n = e.attrs.len();
    let mut i: usize = 0;
    assert(e@.attrs.skip(0) =~= e@.attrs);
    while i < n
        invariant
            0 <= i <= n,
            n == e.attrs.len(),
            e@.attrs.len() == n,
            forall|k: int| 0 <= k < n ==> e@.attrs[k] == (e.attrs@[k].0@, e.attrs@[k].1@),
            attr_of(e@.attrs, key@) == attr_of(e@.attrs.skip(i as int), key@),
        decreases n - i,
    {
        proof {
            assert(e@.attrs.skip(i as int)[0] == e@.attrs[i as int]);
            assert(e@.attrs.skip(i as int).drop_first() =~= e@.attrs.skip(i + 1));
        }
        if str_eq(e.attrs[i].0.as_str(), key) {
            return Some(e.attrs[i].1.clone());
        }
        i = i + 1;
    }
    assert(e@.attrs.skip(n as int).len() == 0);
    None
}

/// Whether the element carries the given tag name.
pub fn is_named(e: &HtmlElement, name: &str) -> (r: bool)
    ensures
        r == (e@.name == name@),
{
    str_eq(e.name.as_str(), name)
}

/// Whether the element carries an attribute with the given name.
pub fn has_attr(e: &HtmlElement, key: &str) -> (r: bool)
    ensures
        r == (attr_of(e@.attrs, key@) is Some),
{
    match get_attr(e, key) {
        Some(_) => true,
        None => false,
    }
}

/// Whether the element's `class` attribute contains the given word,
/// as the `class` selector of a stylesheet would read it.
pub open spec fn has_class(e: ElemModel, cls: Seq<char>) -> bool {
    match attr_of(e.attrs, "class"@) {
        Some(v) => words_of(v, false).contains(cls),
        None => false,
    }
}

/// Tests membership of `cls` among the element's class words.
pub fn elem_has_class(e: &HtmlElement, cls: &str) -> (r: bool)
    ensures
        r == has_class(e@, cls@),
{
    match get_attr(e, "class") {
        None => false,
        Some(v) => {
            let ws = split_words(v.as_str(), false);
            let n = ws.len();
            let ghost wviews = ws@.map_values(|w: String| w@);
            let mut i: usize = 0;
            while i < n
                invariant
                    0 <= i <= n,
                    n == ws.len(),
                    wviews == ws@.map_values(|w: String| w@),
                    wviews == words_of(v@, false),
                    attr_of(e@.attrs, "class"@) == Some(v@),
                    forall|k: int| 0 <= k < i ==> wviews[k] != cls@,
                decreases n - i,
            {
                if str_eq(ws[i].as_str(), cls) {
                    assert(words_of(v@, false).contains(cls@)) by {
                        assert(wviews[i as int] == cls@);
                    }
                    return true;
                }
                i = i + 1;
            }
            assert(!words_of(v@, false).contains(cls@));
            false
        },
    }
}

} // verus!
