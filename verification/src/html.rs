//! What the library has from `scraper`: parsing a document, walking its tree,
//! matching CSS selectors and serializing elements; and the two `std` string
//! formats it uses.
use vstd::prelude::*;
use ego_tree::iter::Edge;
use scraper::Node;
use crate::tree::{Attr, EventModel, NodeData, TreeEvent, events_view};
use crate::urls::opt_view;

verus! {

#[verifier::external_type_specification]
#[verifier::external_body]
pub struct ExHtml(scraper::Html);

/// What a parsed document holds: the open/close events of a depth-first walk
/// of its tree from the document node, in the order `ego_tree`'s `traverse`
/// yields them.
pub uninterp spec fn html_events(h: scraper::Html) -> Seq<EventModel>;

/// The events of the document that `scraper::Html::parse_document` builds
/// from `text`.
pub uninterp spec fn parsed_document(text: Seq<char>) -> Seq<EventModel>;

/// Whether, in document `h`, the node entered at position `i` of the walk
/// from the document node was created before the node entered at position
/// `j`. `ego_tree` keeps nodes in the order the parser created them (a
/// `NodeId` is an index into the tree's node vector, and ids compare by that
/// index), and `scraper::Html::select` visits nodes in that order, which can
/// differ from document order where the parser moved a node (a table's
/// foster parenting, for one).
pub uninterp spec fn created_before(h: scraper::Html, i: int, j: int) -> bool;

/// The creation order, as `created_before` states it, of the document that
/// `scraper::Html::parse_document` builds from `text`.
pub uninterp spec fn parsed_created_before(text: Seq<char>, i: int, j: int) -> bool;

/// For the element at position `scope` (in the order nodes are entered) and
/// the CSS selector `sel`: whether each descendant of the scope element, in
/// document order, is an element that `sel` matches with `:scope` bound to the
/// scope element; `None` when `sel` does not parse.
pub uninterp spec fn css_scoped_matches(events: Seq<EventModel>, scope: int, sel: Seq<char>) -> Option<
    Seq<bool>,
>;

/// The message of the error that `scraper::Selector::parse(sel)` reports;
/// `None` when `sel` parses.
pub uninterp spec fn css_error(sel: Seq<char>) -> Option<Seq<char>>;

/// The inner HTML that `scraper::ElementRef::inner_html` serializes for the
/// element at position `pos`; `None` when that node is not an element.
pub uninterp spec fn inner_html_at(events: Seq<EventModel>, pos: int) -> Option<Seq<char>>;

/// What `format!("{:?}", s)` writes: `s` quoted, with escapes.
pub uninterp spec fn debug_str(s: Seq<char>) -> Seq<char>;

/// What `str::to_uppercase` gives for `s`.
pub uninterp spec fn upper_str(s: Seq<char>) -> Seq<char>;

/// Calls `scraper::Html::parse_document`. The contract claims only that what
/// the document holds, and the order in which its nodes were created, are
/// functions of `text`, named `parsed_document` and `parsed_created_before`.
#[verifier::external_body]
pub(crate) fn parse_html(text: &str) -> (h: scraper::Html)
    ensures
        html_events(h) == parsed_document(text@),
        forall|i: int, j: int| #[trigger] created_before(h, i, j) == parsed_created_before(text@, i, j),
{
    scraper::Html::parse_document(text)
}

/// Walks the document with `ego_tree`'s `traverse` from the document node and
/// converts each node it enters (`scraper::Node`) to plain values. The
/// contract claims that the events are what the document holds.
#[verifier::external_body]
pub(crate) fn document_events(h: &scraper::Html) -> (v: Vec<TreeEvent>)
    ensures
        events_view(v@) == html_events(*h),
{
    h.tree.root().traverse().map(|edge| match edge {
        Edge::Close(_) => TreeEvent::Close,
        Edge::Open(n) => TreeEvent::Open(match n.value() {
            Node::Element(e) => NodeData::Element { name: e.name().into(), ns: e.name.ns.to_string(), attrs: e.attrs.iter().map(|(q, v)| Attr(q.local.to_string(), v.to_string(), q.ns.to_string())).collect() },
            Node::Text(t) => NodeData::Text { text: t.to_string() },
            Node::Comment(c) => NodeData::Comment { text: c.to_string() },
            _ => NodeData::Other,
        }),
    }).collect()
}

/// Calls `scraper::Selector::parse` and renders its error with `Display`.
/// The contract claims only that the result is a function of `sel`, named
/// `css_error`.
#[verifier::external_body]
pub(crate) fn selector_error(sel: &str) -> (r: Option<String>)
    ensures
        opt_view(r) == css_error(sel@),
{
    match scraper::Selector::parse(sel) {
        Ok(_) => None,
        Err(e) => Some(e.to_string()),
    }
}

/// Calls `scraper::Selector::parse`, finds the element entered at position
/// `scope` (`descendants().nth`), and tests each of its descendants with
/// `Selector::matches_with_scope`. The contract claims only that the result
/// is a function of the document, `scope` and `sel`, named
/// `css_scoped_matches`.
#[verifier::external_body]
pub(crate) fn scoped_matches(h: &scraper::Html, scope: usize, sel: &str) -> (r: Option<Vec<bool>>)
    ensures
        match r {
            Some(v) => css_scoped_matches(html_events(*h), scope as int, sel@) == Some(v@),
            None => css_scoped_matches(html_events(*h), scope as int, sel@) is None,
        },
{
    let selector = match scraper::Selector::parse(sel) {
        Ok(s) => s,
        Err(_) => return None,
    };
    match h.tree.root().descendants().nth(scope).and_then(scraper::ElementRef::wrap) {
        Some(el) => Some(el.descendants().skip(1).map(|n| scraper::ElementRef::wrap(n).is_some_and(|e| selector.matches_with_scope(&e, Some(el)))).collect()),
        None => Some(Vec::new()),
    }
}

/// Finds the node entered at position `pos` and serializes its children with
/// `scraper::ElementRef::inner_html`. The contract claims only that the
/// result is a function of the document and `pos`, named `inner_html_at`.
#[verifier::external_body]
pub(crate) fn element_inner_html(h: &scraper::Html, pos: usize) -> (r: Option<String>)
    ensures
        opt_view(r) == inner_html_at(html_events(*h), pos as int),
{
    h.tree.root().descendants().nth(pos).and_then(scraper::ElementRef::wrap).map(|e| e.inner_html())
}

/// Finds the nodes entered at positions `i` and `j` of the walk from the
/// document node (`descendants().nth`) and compares their `NodeId`s. The
/// contract claims that the result is `created_before` for the two positions.
#[verifier::external_body]
pub(crate) fn node_created_before(h: &scraper::Html, i: usize, j: usize) -> (r: bool)
    ensures
        r == created_before(*h, i as int, j as int),
{
    h.tree.root().descendants().nth(i).map(|a| a.id()) < h.tree.root().descendants().nth(j).map(|b| b.id())
}

/// `format!("{:?}", s)`. The contract claims only that the result is a
/// function of `s`, named `debug_str`.
#[verifier::external_body]
pub(crate) fn debug_quoted(s: &str) -> (r: String)
    ensures
        r@ == debug_str(s@),
{
    format!("{:?}", s)
}

/// `str::to_uppercase`. The contract claims only that the result is a
/// function of `s`, named `upper_str`.
#[verifier::external_body]
pub(crate) fn to_upper(s: &str) -> (r: String)
    ensures
        r@ == upper_str(s@),
{
    s.to_uppercase()
}

} // verus!

verus! {

/// The JSON text `{"attrs": {...}, "tag": ...}` that `serde_json` writes for
/// an element named `tag` with attributes `attrs` (name and value pairs, in
/// order).
pub uninterp spec fn json_node_info(tag: Seq<char>, attrs: Seq<(Seq<char>, Seq<char>)>) -> Seq<char>;

/// The views of name and value pairs.
pub open spec fn pairs_view(v: Seq<(String, String)>) -> Seq<(Seq<char>, Seq<char>)> {
    v.map_values(|p: (String, String)| (p.0@, p.1@))
}

/// Builds a `serde_json::Value` object holding `tag` and the attributes
/// collected into a `serde_json::Map`, and writes it with `to_string`. The
/// contract claims only that the text is a function of `tag` and `attrs`,
/// named `json_node_info`.
#[verifier::external_body]
pub(crate) fn node_info_json(tag: &str, attrs: &Vec<(String, String)>) -> (r: String)
    ensures
        r@ == json_node_info(tag@, pairs_view(attrs@)),
{
    let mut obj = serde_json::Map::new();
    obj.insert("tag".into(), tag.into());
    let map = attrs.iter().map(|(k, v)| (k.clone(), v.as_str().into())).collect();
    obj.insert("attrs".into(), serde_json::Value::Object(map));
    serde_json::Value::Object(obj).to_string()
}

} // verus!
